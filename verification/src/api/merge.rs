//! Merging tags into a tag, and values into a value.

use vstd::prelude::*;
use crate::api::delete::{tells, without_tag, without_value, Failure, Outcome};
use crate::api::{load_existing_tag, load_existing_value};
use crate::entities::{FileId, OptionalValueId, Tag, TagId, Value};
use crate::errors::{Error, NameKind};
use crate::query::names_of;
use crate::storage::{
    add_file_tag, file_tags_by_tag_id, file_tags_by_value_id, first_tag_named, first_value_named,
    row_pred, tagged, FileTagRow, RowKey, Storage, Tables,
};
use crate::text::same_text;

verus! {

/// The rows with each of `add` put behind them in turn, unless it is
/// there already.
pub open spec fn with_rows(rows: Seq<FileTagRow>, add: Seq<FileTagRow>) -> Seq<FileTagRow>
    decreases add.len(),
{
    if add.len() == 0 {
        rows
    } else {
        let r = with_rows(rows, add.drop_last());
        if r.contains(add.last()) {
            r
        } else {
            r.push(add.last())
        }
    }
}

/// A row under another tag.
pub open spec fn under_tag(r: FileTagRow, tag: u32) -> FileTagRow {
    FileTagRow { file: r.file, tag, value: r.value }
}

/// A row with another value.
pub open spec fn under_value(r: FileTagRow, value: u32) -> FileTagRow {
    FileTagRow { file: r.file, tag: r.tag, value }
}

/// The rows put under another tag (`as_tag`) or given another value.
pub open spec fn moved_rows(from: Seq<FileTagRow>, to: u32, as_tag: bool) -> Seq<FileTagRow> {
    from.map_values(
        |r: FileTagRow|
            if as_tag {
                under_tag(r, to)
            } else {
                under_value(r, to)
            },
    )
}

/// The tables after tag `src` was merged into tag `dst`: every file tag
/// of `src` stands under `dst` too, with its value, and `src` is gone
/// with all that hangs on it.
pub open spec fn merged_tag(t: Tables, src: u32, dst: u32) -> Tables {
    let moved = moved_rows(t.file_tags.filter(row_pred(RowKey::OfTag(src), true)), dst, true);
    without_tag(Tables { file_tags: with_rows(t.file_tags, moved), ..t }, src)
}

/// The tables after value `src` was merged into value `dst`.
pub open spec fn merged_value(t: Tables, src: u32, dst: u32) -> Tables {
    let moved = moved_rows(t.file_tags.filter(row_pred(RowKey::OfValue(src), true)), dst, false);
    without_value(Tables { file_tags: with_rows(t.file_tags, moved), ..t }, src)
}

/// Whether a file has a file tag of that tag.
pub open spec fn has_tag(rows: Seq<FileTagRow>, file: u32, tag: u32) -> bool {
    exists|j: int| 0 <= j < rows.len() && (#[trigger] rows[j]).file == file && rows[j].tag == tag
}

pub proof fn lemma_with_rows_holds(rows: Seq<FileTagRow>, add: Seq<FileTagRow>)
    ensures
        forall|j: int| 0 <= j < rows.len() ==> with_rows(rows, add).contains(#[trigger] rows[j]),
        forall|j: int| 0 <= j < add.len() ==> with_rows(rows, add).contains(#[trigger] add[j]),
        forall|r: FileTagRow| #[trigger]
            with_rows(rows, add).contains(r) ==> rows.contains(r) || add.contains(r),
    decreases add.len(),
{
    let all = with_rows(rows, add);
    if add.len() == 0 {
        assert forall|j: int| 0 <= j < rows.len() implies all.contains(#[trigger] rows[j]) by {
            assert(all[j] == rows[j]);
        }
    } else {
        let before = with_rows(rows, add.drop_last());
        lemma_with_rows_holds(rows, add.drop_last());
        assert forall|j: int| 0 <= j < rows.len() implies all.contains(#[trigger] rows[j]) by {
            let w = choose|w: int| 0 <= w < before.len() && before[w] == rows[j];
            assert(all[w] == rows[j]);
        }
        assert forall|j: int| 0 <= j < add.len() implies all.contains(#[trigger] add[j]) by {
            if j < add.len() - 1 {
                assert(add.drop_last()[j] == add[j]);
                let w = choose|w: int| 0 <= w < before.len() && before[w] == add[j];
                assert(all[w] == add[j]);
            } else {
                if before.contains(add.last()) {
                } else {
                    assert(all[before.len() as int] == add.last());
                }
            }
        }
        assert forall|r: FileTagRow| #[trigger] all.contains(r) implies rows.contains(r)
            || add.contains(r) by {
            let w = choose|w: int| 0 <= w < all.len() && all[w] == r;
            if w < before.len() {
                assert(before[w] == r);
                assert(before.contains(r));
                if !rows.contains(r) {
                    let x = choose|x: int|
                        0 <= x < add.drop_last().len() && add.drop_last()[x] == r;
                    assert(add[x] == r);
                }
            } else {
                assert(r == add.last());
                assert(add[add.len() - 1] == r);
            }
        }
    }
}

/// Putting rows into a table does not shrink it.
pub proof fn lemma_with_rows_grows(rows: Seq<FileTagRow>, add: Seq<FileTagRow>)
    ensures
        with_rows(rows, add).len() >= rows.len(),
    decreases add.len(),
{
    if add.len() > 0 {
        lemma_with_rows_grows(rows, add.drop_last());
    }
}

/// After a tag was merged into another one, every file that had either
/// of the two has the one merged into.
pub proof fn lemma_merge_preserves(t: Tables, src: u32, dst: u32, file: u32)
    requires
        src != dst,
        has_tag(t.file_tags, file, src) || has_tag(t.file_tags, file, dst),
    ensures
        has_tag(merged_tag(t, src, dst).file_tags, file, dst),
{
    let from = t.file_tags.filter(row_pred(RowKey::OfTag(src), true));
    let moved = moved_rows(from, dst, true);
    let all = with_rows(t.file_tags, moved);
    let after = all.filter(row_pred(RowKey::OfTag(src), false));
    assert(merged_tag(t, src, dst).file_tags == after);
    lemma_with_rows_holds(t.file_tags, moved);
    let j = choose|j: int|
        0 <= j < t.file_tags.len() && (#[trigger] t.file_tags[j]).file == file && (
        t.file_tags[j].tag == src || t.file_tags[j].tag == dst);
    let row = t.file_tags[j];
    let target = under_tag(row, dst);
    if row.tag == src {
        t.file_tags.lemma_filter_contains(row_pred(RowKey::OfTag(src), true), j);
        let w = choose|w: int| 0 <= w < from.len() && from[w] == row;
        assert(moved[w] == target);
        assert(all.contains(moved[w]));
    } else {
        assert(target == row);
        assert(all.contains(t.file_tags[j]));
    }
    let x = choose|x: int| 0 <= x < all.len() && all[x] == target;
    all.lemma_filter_contains(row_pred(RowKey::OfTag(src), false), x);
    let y = choose|y: int| 0 <= y < after.len() && after[y] == target;
    assert(after[y].file == file && after[y].tag == dst);
}

/// Puts each of the rows into the table unless it is there, under
/// another tag (`as_tag`) or with another value.
pub(crate) fn add_rows(tx: &mut Storage, from: &Vec<FileTagRow>, to: u32, as_tag: bool)
    ensures
        crate::storage::same_but(old(tx), final(tx), false, false, false, true, false),
        final(tx).file_tags@ == with_rows(old(tx).file_tags@, moved_rows(from@, to, as_tag)),
        old(tx).no_orphans() ==> final(tx).no_orphans(),
{
    let ghost moved = moved_rows(from@, to, as_tag);
    let mut i: usize = 0;
    assert(moved.take(0) =~= Seq::<FileTagRow>::empty());
    while i < from.len()
        invariant
            i <= from.len(),
            moved.len() == from.len(),
            forall|j: int|
                0 <= j < from.len() ==> #[trigger] moved[j] == if as_tag {
                    under_tag(from@[j], to)
                } else {
                    under_value(from@[j], to)
                },
            crate::storage::same_but(old(tx), tx, false, false, false, true, false),
            tx.file_tags@ == with_rows(old(tx).file_tags@, moved.take(i as int)),
            old(tx).no_orphans() ==> tx.no_orphans(),
        decreases from.len() - i,
    {
        let row = from[i];
        let ghost before = tx.file_tags@;
        proof {
            assert(moved.take(i + 1).drop_last() =~= moved.take(i as int));
            assert(moved.take(i + 1).last() == moved[i as int]);
        }
        if as_tag {
            add_file_tag(tx, &FileId(row.file), &TagId(to), OptionalValueId::from_id(row.value));
        } else {
            add_file_tag(tx, &FileId(row.file), &TagId(row.tag), OptionalValueId::from_id(to));
        }
        proof {
            if old(tx).no_orphans() {
                assert forall|k: int| 0 <= k < tx.files@.len() implies tagged(
                    tx.file_tags@,
                    (#[trigger] tx.files@[k]).id.0,
                ) by {
                    let w = choose|w: int|
                        0 <= w < before.len() && (#[trigger] before[w]).file == tx.files@[k].id.0;
                    assert(tx.file_tags@[w] == before[w]);
                }
            }
        }
        i += 1;
    }
    assert(moved.take(from.len() as int) =~= moved);
}

/// Merges one tag into another.
pub fn merge_tag(tx: &mut Storage, source: &Tag, dest: &Tag) -> (r: Result<(), Error>)
    ensures
        final(tx)@ == merged_tag(old(tx)@, source.id.0, dest.id.0),
        r is Ok <==> old(tx).tags@.len() - final(tx).tags@.len() == 1,
        r is Err ==> r->Err_0 == Error::UnaffectedRows(
            1,
            (old(tx).tags@.len() - final(tx).tags@.len()) as usize,
        ),
        old(tx).no_orphans() ==> final(tx).no_orphans(),
{
    let rows = file_tags_by_tag_id(tx, &source.id);
    add_rows(tx, &rows, dest.id.0, true);
    crate::storage::meta::delete_tag(tx, source)
}

/// Merges one value into another.
pub fn merge_value(tx: &mut Storage, source: &Value, dest: &Value) -> (r: Result<(), Error>)
    ensures
        final(tx)@ == merged_value(old(tx)@, source.id.id(), dest.id.id()),
        r is Ok <==> old(tx).values@.len() - final(tx).values@.len() == 1,
        r is Err ==> r->Err_0 == Error::UnaffectedRows(
            1,
            (old(tx).values@.len() - final(tx).values@.len()) as usize,
        ),
        old(tx).no_orphans() ==> final(tx).no_orphans(),
{
    let rows = file_tags_by_value_id(tx, &source.id);
    let to = *dest.id.as_u32();
    add_rows(tx, &rows, to, false);
    crate::storage::meta::delete_value(tx, source)
}

/// Merges the named tags into `dest`, one after the other, from position
/// `at` on. Stops at a name that is the destination's or no tag's, and
/// behind a removal that does not take exactly one tag row.
pub open spec fn tags_merged(
    t: Tables,
    names: Seq<Seq<char>>,
    dest_name: Seq<char>,
    dest: u32,
    at: int,
) -> Outcome
    decreases names.len() - at,
{
    if at < 0 || at >= names.len() {
        Outcome { tables: t, failed_at: None, why: Failure::Nothing }
    } else if names[at] == dest_name {
        Outcome { tables: t, failed_at: Some(at), why: Failure::Itself }
    } else {
        match first_tag_named(t.tags, names[at]) {
            None => Outcome { tables: t, failed_at: Some(at), why: Failure::Missing },
            Some(tag) => {
                let next = merged_tag(t, tag.id.0, dest);
                let gone = t.tags.len() - next.tags.len();
                if gone == 1 {
                    tags_merged(next, names, dest_name, dest, at + 1)
                } else {
                    Outcome { tables: next, failed_at: Some(at), why: Failure::Gone(gone) }
                }
            },
        }
    }
}

/// Merges the named values into `dest`, one after the other.
pub open spec fn values_merged(
    t: Tables,
    names: Seq<Seq<char>>,
    dest_name: Seq<char>,
    dest: u32,
    at: int,
) -> Outcome
    decreases names.len() - at,
{
    if at < 0 || at >= names.len() {
        Outcome { tables: t, failed_at: None, why: Failure::Nothing }
    } else if names[at] == dest_name {
        Outcome { tables: t, failed_at: Some(at), why: Failure::Itself }
    } else {
        match first_value_named(t.values, names[at]) {
            None => Outcome { tables: t, failed_at: Some(at), why: Failure::Missing },
            Some(value) => {
                let next = merged_value(t, value.id.id(), dest);
                let gone = t.values.len() - next.values.len();
                if gone == 1 {
                    values_merged(next, names, dest_name, dest, at + 1)
                } else {
                    Outcome { tables: next, failed_at: Some(at), why: Failure::Gone(gone) }
                }
            },
        }
    }
}

/// Merges the tags named in `source_names` into the tag `dest_name`.
pub fn run_merge_tags(tx: &mut Storage, source_names: &Vec<String>, dest_name: &str) -> (r: Result<
    (),
    Error,
>)
    ensures
        match first_tag_named(old(tx).tags@, dest_name@) {
            None => final(tx)@ == old(tx)@ && (r matches Err(Error::NoSuchTag(n)) && n@
                == dest_name@),
            Some(dest) => {
                let o = tags_merged(old(tx)@, names_of(source_names@), dest_name@, dest.id.0, 0);
                final(tx)@ == o.tables && tells(r, o, names_of(source_names@), NameKind::Tag)
            },
        },
        old(tx).no_orphans() ==> final(tx).no_orphans(),
{
    let dest_tag = match load_existing_tag(tx, dest_name) {
        Ok(t) => t,
        Err(e) => return Err(e),
    };
    let ghost names = names_of(source_names@);
    let mut i: usize = 0;
    while i < source_names.len()
        invariant
            i <= source_names.len(),
            names == names_of(source_names@),
            first_tag_named(old(tx).tags@, dest_name@) == Some(dest_tag),
            tags_merged(old(tx)@, names, dest_name@, dest_tag.id.0, 0) == tags_merged(
                tx@,
                names,
                dest_name@,
                dest_tag.id.0,
                i as int,
            ),
            old(tx).no_orphans() ==> tx.no_orphans(),
        decreases source_names.len() - i,
    {
        assert(names[i as int] == source_names@[i as int]@);
        let source_name = source_names[i].as_str();
        if same_text(source_name, dest_name) {
            return Err(Error::MergeIntoItself(NameKind::Tag, source_name.to_owned()));
        }
        let source_tag = match load_existing_tag(tx, source_name) {
            Ok(t) => t,
            Err(e) => return Err(e),
        };
        match merge_tag(tx, &source_tag, &dest_tag) {
            Ok(_) => {},
            Err(e) => return Err(e),
        }
        i += 1;
    }
    Ok(())
}

/// Merges the values named in `source_names` into the value `dest_name`.
pub fn run_merge_values(tx: &mut Storage, source_names: &Vec<String>, dest_name: &str) -> (r:
    Result<(), Error>)
    ensures
        match first_value_named(old(tx).values@, dest_name@) {
            None => final(tx)@ == old(tx)@ && (r matches Err(Error::NoSuchValue(n)) && n@
                == dest_name@),
            Some(dest) => {
                let o = values_merged(
                    old(tx)@,
                    names_of(source_names@),
                    dest_name@,
                    dest.id.id(),
                    0,
                );
                final(tx)@ == o.tables && tells(r, o, names_of(source_names@), NameKind::Value)
            },
        },
        old(tx).no_orphans() ==> final(tx).no_orphans(),
{
    let dest_value = match load_existing_value(tx, dest_name) {
        Ok(v) => v,
        Err(e) => return Err(e),
    };
    let ghost names = names_of(source_names@);
    let mut i: usize = 0;
    while i < source_names.len()
        invariant
            i <= source_names.len(),
            names == names_of(source_names@),
            first_value_named(old(tx).values@, dest_name@) == Some(dest_value),
            values_merged(old(tx)@, names, dest_name@, dest_value.id.id(), 0) == values_merged(
                tx@,
                names,
                dest_name@,
                dest_value.id.id(),
                i as int,
            ),
            old(tx).no_orphans() ==> tx.no_orphans(),
        decreases source_names.len() - i,
    {
        assert(names[i as int] == source_names@[i as int]@);
        let source_name = source_names[i].as_str();
        if same_text(source_name, dest_name) {
            return Err(Error::MergeIntoItself(NameKind::Value, source_name.to_owned()));
        }
        let source_value = match load_existing_value(tx, source_name) {
            Ok(v) => v,
            Err(e) => return Err(e),
        };
        match merge_value(tx, &source_value, &dest_value) {
            Ok(_) => {},
            Err(e) => return Err(e),
        }
        i += 1;
    }
    Ok(())
}

} // verus!
