//! The tree walker: a model of the recursive mode, which visits a file
//! tree and overwrites every regular file's contents with the XOR
//! engine's output, leaving directories' structure and symlinks alone.

use vstd::prelude::*;
use crate::XorError;
use crate::engine::{xor_with_key, xor_bytes, lemma_xor_involution};

verus! {

/// A node of the file tree as the walker sees it: a regular file with
/// its contents, a directory with its entries, or a symlink (or any
/// other kind of entry), which the walk does not transform.
#[derive(Debug, PartialEq, Eq)]
pub enum Entry {
    File(Vec<u8>),
    Dir(Vec<Entry>),
    Symlink,
}

/// The same tree at the specification level, contents as sequences.
#[verifier::ext_equal]
pub enum EntryModel {
    File(Seq<u8>),
    Dir(Seq<EntryModel>),
    Symlink,
}

/// The model of one tree node.
pub open spec fn entry_model(e: Entry) -> EntryModel
    decreases e,
{
    match e {
        Entry::File(data) => EntryModel::File(data@),
        Entry::Dir(children) => EntryModel::Dir(forest_model(children@)),
        Entry::Symlink => EntryModel::Symlink,
    }
}

/// The models of a directory's entries, in order.
pub open spec fn forest_model(cs: Seq<Entry>) -> Seq<EntryModel>
    decreases cs,
{
    if cs.len() == 0 {
        Seq::<EntryModel>::empty()
    } else {
        seq![entry_model(cs[0])] + forest_model(cs.subrange(1, cs.len() as int))
    }
}

impl View for Entry {
    type V = EntryModel;

    open spec fn view(&self) -> EntryModel {
        entry_model(*self)
    }
}

/// A directory's entries have one model each, in the same order.
pub proof fn lemma_forest_model_index(cs: Seq<Entry>, i: int)
    requires
        0 <= i < cs.len(),
    ensures
        forest_model(cs).len() == cs.len(),
        forest_model(cs)[i] == entry_model(cs[i]),
    decreases cs.len(),
{
    lemma_forest_model_len(cs);
    if i > 0 {
        lemma_forest_model_index(cs.subrange(1, cs.len() as int), i - 1);
    }
}

/// A directory's model holds as many entries as the directory.
pub proof fn lemma_forest_model_len(cs: Seq<Entry>)
    ensures
        forest_model(cs).len() == cs.len(),
    decreases cs.len(),
{
    if cs.len() > 0 {
        lemma_forest_model_len(cs.subrange(1, cs.len() as int));
    }
}

/// The walked tree: every file's contents combined against the key,
/// every directory's entries walked in order, symlinks untouched.
pub open spec fn xor_tree(t: EntryModel, key: Seq<u8>) -> EntryModel
    recommends
        key.len() > 0,
    decreases t,
{
    match t {
        EntryModel::File(data) => EntryModel::File(xor_with_key(data, key)),
        EntryModel::Dir(entries) => EntryModel::Dir(xor_forest(entries, key)),
        EntryModel::Symlink => EntryModel::Symlink,
    }
}

/// The walk of a directory's entries, each walked in order.
pub open spec fn xor_forest(ts: Seq<EntryModel>, key: Seq<u8>) -> Seq<EntryModel>
    recommends
        key.len() > 0,
    decreases ts,
{
    if ts.len() == 0 {
        Seq::<EntryModel>::empty()
    } else {
        seq![xor_tree(ts[0], key)] + xor_forest(ts.subrange(1, ts.len() as int), key)
    }
}

/// The walk keeps a directory's entry count.
pub proof fn lemma_xor_forest_len(ts: Seq<EntryModel>, key: Seq<u8>)
    ensures
        xor_forest(ts, key).len() == ts.len(),
    decreases ts.len(),
{
    if ts.len() > 0 {
        lemma_xor_forest_len(ts.subrange(1, ts.len() as int), key);
    }
}

/// The walk transforms a directory's entries pointwise, in order.
pub proof fn lemma_xor_forest_index(ts: Seq<EntryModel>, key: Seq<u8>, i: int)
    requires
        0 <= i < ts.len(),
    ensures
        xor_forest(ts, key).len() == ts.len(),
        xor_forest(ts, key)[i] == xor_tree(ts[i], key),
    decreases ts.len(),
{
    lemma_xor_forest_len(ts, key);
    if i > 0 {
        lemma_xor_forest_index(ts.subrange(1, ts.len() as int), key, i - 1);
    }
}

/// Walks one tree node: a file's contents are combined against the key,
/// a directory's entries are each walked in order, and a symlink comes
/// back untouched.
#[verifier::loop_isolation(false)]
pub fn xor_entry(e: &Entry, key: &Vec<u8>) -> (r: Entry)
    requires
        key@.len() > 0,
    ensures
        r@ == xor_tree(e@, key@),
    decreases *e,
{
    match e {
        Entry::File(data) => Entry::File(xor_bytes(data, key)),
        Entry::Symlink => Entry::Symlink,
        Entry::Dir(children) => {
            let mut out: Vec<Entry> = Vec::new();
            let mut i: usize = 0;
            while i < children.len()
                invariant
                    i <= children@.len(),
                    out@.len() == i,
                    forall|j: int| 0 <= j < i ==> out@[j]@ == xor_tree(children@[j]@, key@),
                decreases children@.len() - i,
            {
                let c = xor_entry(&children[i], key);
                out.push(c);
                i = i + 1;
            }
            proof {
                let cm = forest_model(children@);
                let om = forest_model(out@);
                lemma_forest_model_len(children@);
                lemma_forest_model_len(out@);
                lemma_xor_forest_len(cm, key@);
                assert forall|j: int| 0 <= j < om.len() implies om[j] == xor_forest(
                    cm,
                    key@,
                )[j] by {
                    lemma_forest_model_index(out@, j);
                    lemma_forest_model_index(children@, j);
                    lemma_xor_forest_index(cm, key@, j);
                }
                assert(om =~= xor_forest(cm, key@));
            }
            Entry::Dir(out)
        },
    }
}

/// Walks each top-level entry of the starting directory in order; an
/// empty key is refused before any entry is touched.
#[verifier::loop_isolation(false)]
pub fn encrypt_path(entries: &Vec<Entry>, key: &Vec<u8>) -> (r: Result<
    Vec<Entry>,
    XorError,
>)
    ensures
        key@.len() > 0 ==> r is Ok && forest_model(r->Ok_0@) == xor_forest(
            forest_model(entries@),
            key@,
        ),
        key@.len() == 0 ==> r is Err && r->Err_0 == XorError::EmptyKey,
{
    if key.len() == 0 {
        return Err(XorError::EmptyKey);
    }
    let mut out: Vec<Entry> = Vec::new();
    let mut i: usize = 0;
    while i < entries.len()
        invariant
            key@.len() > 0,
            i <= entries@.len(),
            out@.len() == i,
            forall|j: int| 0 <= j < i ==> out@[j]@ == xor_tree(entries@[j]@, key@),
        decreases entries@.len() - i,
    {
        let c = xor_entry(&entries[i], key);
        out.push(c);
        i = i + 1;
    }
    proof {
        let em = forest_model(entries@);
        let om = forest_model(out@);
        lemma_forest_model_len(entries@);
        lemma_forest_model_len(out@);
        lemma_xor_forest_len(em, key@);
        assert forall|j: int| 0 <= j < om.len() implies om[j] == xor_forest(em, key@)[j] by {
            lemma_forest_model_index(out@, j);
            lemma_forest_model_index(entries@, j);
            lemma_xor_forest_index(em, key@, j);
        }
        assert(om =~= xor_forest(em, key@));
    }
    Ok(out)
}

/// Walking a tree twice with the same key restores every file's
/// contents byte for byte.
pub proof fn lemma_tree_involution(t: EntryModel, key: Seq<u8>)
    requires
        key.len() > 0,
    ensures
        xor_tree(xor_tree(t, key), key) == t,
    decreases t,
{
    match t {
        EntryModel::File(data) => {
            lemma_xor_involution(data, key);
        },
        EntryModel::Dir(entries) => {
            let once = xor_forest(entries, key);
            let twice = xor_forest(once, key);
            lemma_xor_forest_len(entries, key);
            lemma_xor_forest_len(once, key);
            assert forall|i: int| 0 <= i < entries.len() implies twice[i] == entries[i] by {
                lemma_xor_forest_index(entries, key, i);
                lemma_xor_forest_index(once, key, i);
                lemma_tree_involution(entries[i], key);
            }
            assert(twice =~= entries);
        },
        EntryModel::Symlink => {},
    }
}

} // verus!
