//! Changes that reach over several tables.

use vstd::prelude::*;
use crate::entities::{FileId, OptionalValueId, Tag, TagId, Value};
use crate::errors::Error;
use crate::storage::{
    delete_file_tags, delete_implications, delete_untagged_files, edge_pred, pick_rows,
    purge_pred, row_pred, same_but, tag_pred, tagged, value_pred, EdgeKey, FileTagRow, RowKey,
    Storage,
};

verus! {

/// Removing file tags and then the files that this leaves without one
/// keeps every file tagged.
pub proof fn lemma_purge_keeps_files_tagged(
    files: Seq<crate::entities::File>,
    rows: Seq<FileTagRow>,
    key: RowKey,
)
    requires
        forall|i: int| 0 <= i < files.len() ==> tagged(rows, (#[trigger] files[i]).id.0),
    ensures
        ({
            let kept = rows.filter(row_pred(key, false));
            let touched = rows.filter(row_pred(key, true));
            let left = files.filter(purge_pred(touched, kept));
            forall|i: int| 0 <= i < left.len() ==> tagged(kept, (#[trigger] left[i]).id.0)
        }),
{
    let kept = rows.filter(row_pred(key, false));
    let touched = rows.filter(row_pred(key, true));
    let left = files.filter(purge_pred(touched, kept));
    assert forall|i: int| 0 <= i < left.len() implies tagged(kept, (#[trigger] left[i]).id.0) by {
        let f = left[i];
        files.lemma_filter_pred(purge_pred(touched, kept), i);
        assert(left.contains(f));
        files.lemma_filter_contains_rev(purge_pred(touched, kept), f);
        let x = choose|x: int| 0 <= x < files.len() && files[x] == f;
        assert(tagged(rows, files[x].id.0));
        if !tagged(kept, f.id.0) {
            let j = choose|j: int| 0 <= j < rows.len() && (#[trigger] rows[j]).file == f.id.0;
            if crate::storage::selects(key, rows[j]) {
                rows.lemma_filter_contains(row_pred(key, true), j);
                let w = choose|w: int| 0 <= w < touched.len() && touched[w] == rows[j];
                assert(touched[w].file == f.id.0);
                assert(tagged(touched, f.id.0));
            } else {
                rows.lemma_filter_contains(row_pred(key, false), j);
                let w = choose|w: int| 0 <= w < kept.len() && kept[w] == rows[j];
                assert(kept[w].file == f.id.0);
            }
        }
    }
}

/// Removes the file tags that the key selects, and then the files that
/// have none left.
pub fn delete_file_tags_and_orphans(tx: &mut Storage, key: RowKey)
    ensures
        same_but(old(tx), final(tx), false, false, true, true, false),
        final(tx).file_tags@ == old(tx).file_tags@.filter(row_pred(key, false)),
        final(tx).files@ == old(tx).files@.filter(
            purge_pred(old(tx).file_tags@.filter(row_pred(key, true)), final(tx).file_tags@),
        ),
        old(tx).no_orphans() ==> final(tx).no_orphans(),
{
    let touched = pick_rows(&tx.file_tags, key, true);
    delete_file_tags(tx, key);
    delete_untagged_files(tx, &touched);
    proof {
        if old(tx).no_orphans() {
            lemma_purge_keeps_files_tagged(old(tx).files@, old(tx).file_tags@, key);
        }
    }
}

/// Removes a tag with all that hangs on it: its file tags, the files
/// that this leaves without a tag, the implications that name it, and
/// its row. Fails unless exactly one tag row goes.
pub fn delete_tag(tx: &mut Storage, tag: &Tag) -> (r: Result<(), Error>)
    ensures
        same_but(old(tx), final(tx), true, false, true, true, true),
        final(tx).file_tags@ == old(tx).file_tags@.filter(row_pred(RowKey::OfTag(tag.id.0), false)),
        final(tx).files@ == old(tx).files@.filter(
            purge_pred(
                old(tx).file_tags@.filter(row_pred(RowKey::OfTag(tag.id.0), true)),
                final(tx).file_tags@,
            ),
        ),
        final(tx).implications@ == old(tx).implications@.filter(
            edge_pred(EdgeKey::WithTag(tag.id.0), false),
        ),
        final(tx).tags@ == old(tx).tags@.filter(tag_pred(tag.id.0, false)),
        r is Ok <==> old(tx).tags@.len() - final(tx).tags@.len() == 1,
        r is Err ==> r->Err_0 == Error::UnaffectedRows(
            1,
            (old(tx).tags@.len() - final(tx).tags@.len()) as usize,
        ),
        old(tx).no_orphans() ==> final(tx).no_orphans(),
{
    delete_file_tags_and_orphans(tx, RowKey::OfTag(tag.id.0));
    delete_implications(tx, EdgeKey::WithTag(tag.id.0));
    crate::storage::delete_tag(tx, &tag.id)
}

/// Removes a value with all that hangs on it: the file tags that carry
/// it, the files that this leaves without a tag, the implications that
/// name it, and its row. Fails unless exactly one value row goes.
pub fn delete_value(tx: &mut Storage, value: &Value) -> (r: Result<(), Error>)
    ensures
        same_but(old(tx), final(tx), false, true, true, true, true),
        final(tx).file_tags@ == old(tx).file_tags@.filter(
            row_pred(RowKey::OfValue(value.id.id()), false),
        ),
        final(tx).files@ == old(tx).files@.filter(
            purge_pred(
                old(tx).file_tags@.filter(row_pred(RowKey::OfValue(value.id.id()), true)),
                final(tx).file_tags@,
            ),
        ),
        final(tx).implications@ == old(tx).implications@.filter(
            edge_pred(EdgeKey::WithValue(value.id.id()), false),
        ),
        final(tx).values@ == old(tx).values@.filter(value_pred(value.id.id(), false)),
        r is Ok <==> old(tx).values@.len() - final(tx).values@.len() == 1,
        r is Err ==> r->Err_0 == Error::UnaffectedRows(
            1,
            (old(tx).values@.len() - final(tx).values@.len()) as usize,
        ),
        old(tx).no_orphans() ==> final(tx).no_orphans(),
{
    let id = *value.id.as_u32();
    delete_file_tags_and_orphans(tx, RowKey::OfValue(id));
    delete_implications(tx, EdgeKey::WithValue(id));
    crate::storage::delete_value(tx, &value.id)
}

/// Removes all file tags of a file, and the file with them.
pub fn delete_file_tags_by_file_id(tx: &mut Storage, file_id: &FileId)
    ensures
        same_but(old(tx), final(tx), false, false, true, true, false),
        final(tx).file_tags@ == old(tx).file_tags@.filter(row_pred(RowKey::OfFile(file_id.0), false)),
        final(tx).files@ == old(tx).files@.filter(
            purge_pred(
                old(tx).file_tags@.filter(row_pred(RowKey::OfFile(file_id.0), true)),
                final(tx).file_tags@,
            ),
        ),
        old(tx).no_orphans() ==> final(tx).no_orphans(),
{
    delete_file_tags_and_orphans(tx, RowKey::OfFile(file_id.0));
}

/// Removes one file tag, and the file where it was its last.
pub fn delete_file_tag(
    tx: &mut Storage,
    file_id: &FileId,
    tag_id: &TagId,
    value_id: &OptionalValueId,
)
    ensures
        same_but(old(tx), final(tx), false, false, true, true, false),
        ({
            let key = RowKey::Exactly(
                FileTagRow { file: file_id.0, tag: tag_id.0, value: value_id.raw() },
            );
            &&& final(tx).file_tags@ == old(tx).file_tags@.filter(row_pred(key, false))
            &&& final(tx).files@ == old(tx).files@.filter(
                purge_pred(old(tx).file_tags@.filter(row_pred(key, true)), final(tx).file_tags@),
            )
        }),
        old(tx).no_orphans() ==> final(tx).no_orphans(),
{
    delete_file_tags_and_orphans(
        tx,
        RowKey::Exactly(FileTagRow { file: file_id.0, tag: tag_id.0, value: value_id.as_u32() }),
    );
}

} // verus!
