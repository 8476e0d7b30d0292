use xor::XorError;
use xor::engine::{encrypt_reader, xor_bytes};
use xor::key::get_key_bytes;
use xor::walk::{encrypt_path, xor_entry, Entry};

#[test]
fn single_stream_scenario() {
    // key "ab" = bytes 0x61, 0x62; three zero input bytes.
    let input: Vec<u8> = vec![0x00, 0x00, 0x00];
    let key: Vec<u8> = String::from("ab").into_bytes();
    assert_eq!(key, vec![0x61, 0x62]);
    let out = encrypt_reader(&input, &key).unwrap();
    assert_eq!(out, vec![0x61, 0x62, 0x61]);
}

#[test]
fn involution_restores_input() {
    let input: Vec<u8> = vec![1, 2, 3, 250, 0, 77, 128, 255];
    let key: Vec<u8> = vec![0x5A, 0x00, 0xFF];
    let once = xor_bytes(&input, &key);
    let twice = xor_bytes(&once, &key);
    assert_eq!(twice, input);
}

#[test]
fn length_is_preserved() {
    let input: Vec<u8> = vec![9; 1025];
    let key: Vec<u8> = vec![1, 2];
    assert_eq!(xor_bytes(&input, &key).len(), input.len());
}

#[test]
fn single_byte_key_wraps() {
    let input: Vec<u8> = vec![0x10, 0x20, 0x30, 0x40];
    let key: Vec<u8> = vec![0xFF];
    let out = xor_bytes(&input, &key);
    for i in 0..input.len() {
        assert_eq!(out[i], input[i] ^ 0xFF);
    }
}

#[test]
fn empty_input_gives_empty_output() {
    let input: Vec<u8> = Vec::new();
    let key: Vec<u8> = vec![7];
    let out = encrypt_reader(&input, &key).unwrap();
    assert!(out.is_empty());
}

#[test]
fn empty_key_is_an_error() {
    let input: Vec<u8> = vec![1, 2, 3];
    let key: Vec<u8> = Vec::new();
    assert_eq!(encrypt_reader(&input, &key), Err(XorError::EmptyKey));
}

#[test]
fn empty_key_is_an_error_for_the_walk() {
    let entries = vec![Entry::File(vec![1, 2])];
    let key: Vec<u8> = Vec::new();
    assert_eq!(encrypt_path(&entries, &key), Err(XorError::EmptyKey));
}

#[test]
fn recursive_scenario() {
    // Directory holding one file with contents 0x10, 0x20; key file
    // contents 0xFF; the walk leaves the file holding 0xEF, 0xDF.
    let entries = vec![Entry::File(vec![0x10, 0x20])];
    let key: Vec<u8> = vec![0xFF];
    let walked = encrypt_path(&entries, &key).unwrap();
    assert_eq!(walked, vec![Entry::File(vec![0xEF, 0xDF])]);
}

#[test]
fn walk_recurses_and_skips_symlinks() {
    let tree = Entry::Dir(vec![
        Entry::File(vec![0x01, 0x02, 0x03]),
        Entry::Symlink,
        Entry::Dir(vec![Entry::File(vec![0xAA]), Entry::Dir(Vec::new())]),
    ]);
    let key: Vec<u8> = vec![0x0F, 0xF0];
    let walked = xor_entry(&tree, &key);
    let expected = Entry::Dir(vec![
        Entry::File(vec![0x01 ^ 0x0F, 0x02 ^ 0xF0, 0x03 ^ 0x0F]),
        Entry::Symlink,
        Entry::Dir(vec![Entry::File(vec![0xAA ^ 0x0F]), Entry::Dir(Vec::new())]),
    ]);
    assert_eq!(walked, expected);
}

#[test]
fn double_walk_restores_the_tree() {
    let tree = Entry::Dir(vec![
        Entry::File(vec![0x10, 0x20, 0x30]),
        Entry::Dir(vec![Entry::File(vec![0xDE, 0xAD]), Entry::Symlink]),
        Entry::File(Vec::new()),
    ]);
    let key: Vec<u8> = vec![0x61, 0x62];
    let once = xor_entry(&tree, &key);
    let twice = xor_entry(&once, &key);
    assert_eq!(twice, tree);
}

#[test]
fn key_file_contents_win_over_the_literal() {
    // The key argument happened to name an existing file: the key must
    // be that file's contents, not the argument's own bytes.
    let file_contents: Vec<u8> = vec![0xFF, 0x00];
    let literal: Vec<u8> = String::from("secret").into_bytes();
    let key = get_key_bytes(Some(file_contents.clone()), literal.clone());
    assert_eq!(key, vec![0xFF, 0x00]);
    let key = get_key_bytes(None, literal.clone());
    assert_eq!(key, literal);
}
