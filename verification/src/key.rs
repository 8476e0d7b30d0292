//! Key resolution: the key argument names either an existing file,
//! whose full byte contents become the key, or stands for itself, as
//! the bytes of the literal string. An existing file always wins, so a
//! literal that collides with a filename is read as that file.

use vstd::prelude::*;

verus! {

/// Picks the key bytes: the file's contents whenever the key argument
/// named an existing file that could be read, else the literal's bytes.
pub fn get_key_bytes(file_bytes: Option<Vec<u8>>, literal_bytes: Vec<u8>) -> (r: Vec<u8>)
    ensures
        file_bytes is Some ==> r@ == file_bytes->0@,
        file_bytes is None ==> r@ == literal_bytes@,
{
    match file_bytes {
        Option::Some(b) => b,
        Option::None => literal_bytes,
    }
}

} // verus!
