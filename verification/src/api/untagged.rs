//! Listing paths that the store has no file for.

use vstd::prelude::*;
use crate::api::repair::{file_by_path, first_file_at};
use crate::path::{dir_of, name_of, AbsPath, ScopedPath};
use crate::storage::Storage;

verus! {

/// The absolute paths among the first `upto` that the store has no
/// file for, in their order.
pub open spec fn untagged(tx: &Storage, paths: Seq<ScopedPath>, upto: int) -> Seq<Seq<char>>
    decreases upto,
{
    if upto <= 0 {
        seq![]
    } else {
        untagged(tx, paths, upto - 1) + if first_file_at(
            tx.files@,
            dir_of(paths[upto - 1].inner@),
            name_of(paths[upto - 1].inner@),
        ) is None {
            seq![paths[upto - 1].absolute.text()]
        } else {
            seq![]
        }
    }
}

/// Of the paths given, in the order in which they were found, those
/// that the store has no file for.
pub fn list_untagged_for_paths(tx: &Storage, paths: &Vec<ScopedPath>) -> (r: Vec<AbsPath>)
    ensures
        r@.map_values(|p: AbsPath| p.text()) == untagged(tx, paths@, paths@.len() as int),
{
    let mut out: Vec<AbsPath> = Vec::new();
    let mut i: usize = 0;
    assert(out@.map_values(|p: AbsPath| p.text()) =~= untagged(tx, paths@, 0));
    while i < paths.len()
        invariant
            i <= paths.len(),
            out@.map_values(|p: AbsPath| p.text()) == untagged(tx, paths@, i as int),
        decreases paths.len() - i,
    {
        let ghost before = out@.map_values(|p: AbsPath| p.text());
        if file_by_path(tx, &paths[i]).is_none() {
            out.push(AbsPath(paths[i].absolute.0.clone()));
            assert(out@.map_values(|p: AbsPath| p.text()) =~= before.push(
                paths@[i as int].absolute.text(),
            ));
        } else {
            assert(before + Seq::<Seq<char>>::empty() =~= before);
        }
        i += 1;
    }
    out
}

} // verus!
