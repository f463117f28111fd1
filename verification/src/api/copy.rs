//! Copying a tag: a new tag on every file that has the old one.

use vstd::prelude::*;
use crate::api::imply::{first_row, lemma_tag_rows, max_row, tag_rows, tells_trouble, Trouble};
use crate::api::load_existing_tag;
use crate::query::names_of;
use crate::api::merge::{add_rows, moved_rows, with_rows};
use crate::entities::{name_verdict, validate_tag_name, TagId};
use crate::errors::{Error, NameKind};
use crate::storage::{
    file_tags_by_tag_id, first_tag_named, insert_tag, max_tag_id, row_pred, same_but, tag_by_name,
    FileTagRow, RowKey, Storage,
};

verus! {

/// Puts every file tag of one tag under another tag too, with its
/// value. Says how many rows the table grew by.
pub fn copy_file_tags(tx: &mut Storage, src_tag_id: &TagId, dest_tag_id: &TagId) -> (r: usize)
    ensures
        same_but(old(tx), final(tx), false, false, false, true, false),
        final(tx).file_tags@ == with_rows(
            old(tx).file_tags@,
            moved_rows(
                old(tx).file_tags@.filter(row_pred(RowKey::OfTag(src_tag_id.0), true)),
                dest_tag_id.0,
                true,
            ),
        ),
        r == final(tx).file_tags@.len() - old(tx).file_tags@.len(),
        old(tx).no_orphans() ==> final(tx).no_orphans(),
{
    let rows = file_tags_by_tag_id(tx, src_tag_id);
    let before = tx.file_tags.len();
    add_rows(tx, &rows, dest_tag_id.0, true);
    proof {
        crate::api::merge::lemma_with_rows_grows(
            old(tx).file_tags@,
            moved_rows(rows@, dest_tag_id.0, true),
        );
    }
    tx.file_tags.len() - before
}

/// Makes a tag of the given name and puts it on every file that has the
/// tag `curr_tag_id`.
pub fn copy_tag(tx: &mut Storage, curr_tag_id: &TagId, dest_tag_name: &str) -> (r: Result<
    (),
    Error,
>)
    ensures
        same_but(old(tx), final(tx), true, false, false, true, false),
        old(tx).no_orphans() ==> final(tx).no_orphans(),
        if !(name_verdict(dest_tag_name@) is Valid) {
            final(tx)@ == old(tx)@ && (r matches Err(Error::InvalidName(k, f)) && k
                == NameKind::Tag && f@ == name_verdict(dest_tag_name@))
        } else if max_tag_id(old(tx).tags@) == u32::MAX {
            final(tx)@ == old(tx)@ && r == Err::<(), Error>(Error::IdentifiersExhausted)
        } else {
            &&& r is Ok
            &&& final(tx).tags@.len() == old(tx).tags@.len() + 1
            &&& final(tx).tags@.last().name@ == dest_tag_name@
            &&& final(tx).tags@.last().id.0 == max_tag_id(old(tx).tags@) + 1
            &&& final(tx).tags@.drop_last() == old(tx).tags@
            &&& final(tx).file_tags@ == with_rows(
                old(tx).file_tags@,
                moved_rows(
                    old(tx).file_tags@.filter(row_pred(RowKey::OfTag(curr_tag_id.0), true)),
                    (max_tag_id(old(tx).tags@) + 1) as u32,
                    true,
                ),
            )
        },
{
    match validate_tag_name(dest_tag_name) {
        Ok(_) => {},
        Err(e) => return Err(e),
    }
    let new_tag = match insert_tag(tx, dest_tag_name) {
        Ok(t) => t,
        Err(e) => return Err(e),
    };
    assert(tx.tags@.drop_last() =~= old(tx).tags@);
    copy_file_tags(tx, curr_tag_id, &new_tag.id);
    Ok(())
}

/// The tags and the file tags after the tag `src` was copied to each of
/// the names from position `at` on, one after the other, and where and
/// why that stopped: at the first name that is a tag's already, that is
/// not valid, or for which no identifier is left.
pub open spec fn copies_made(
    tags: Seq<(u32, Seq<char>)>,
    rows: Seq<FileTagRow>,
    src: u32,
    names: Seq<Seq<char>>,
    at: int,
) -> (Seq<(u32, Seq<char>)>, Seq<FileTagRow>, Option<(int, Trouble)>)
    decreases names.len() - at,
{
    if at < 0 || at >= names.len() {
        (tags, rows, None)
    } else if first_row(tags, names[at]) is Some {
        (tags, rows, Some((at, Trouble::Taken(names[at]))))
    } else if !(name_verdict(names[at]) is Valid) {
        (tags, rows, Some((at, Trouble::InvalidTag(name_verdict(names[at])))))
    } else if max_row(tags) == u32::MAX {
        (tags, rows, Some((at, Trouble::Exhausted)))
    } else {
        let id = (max_row(tags) + 1) as u32;
        copies_made(
            tags.push((id, names[at])),
            with_rows(rows, moved_rows(rows.filter(row_pred(RowKey::OfTag(src), true)), id, true)),
            src,
            names,
            at + 1,
        )
    }
}

/// Copies a tag to each of the given names, one after the other. Stops
/// at the first name that is a tag's already or cannot be one.
pub fn run_copy(tx: &mut Storage, curr_tag_name: &str, dest_tag_names: &Vec<String>) -> (r: Result<
    (),
    Error,
>)
    ensures
        same_but(old(tx), final(tx), true, false, false, true, false),
        old(tx).no_orphans() ==> final(tx).no_orphans(),
        match first_tag_named(old(tx).tags@, curr_tag_name@) {
            None => final(tx)@ == old(tx)@ && (r matches Err(Error::NoSuchTag(n)) && n@
                == curr_tag_name@),
            Some(src) => {
                let out = copies_made(
                    tag_rows(old(tx).tags@),
                    old(tx).file_tags@,
                    src.id.0,
                    names_of(dest_tag_names@),
                    0,
                );
                &&& tag_rows(final(tx).tags@) == out.0
                &&& final(tx).file_tags@ == out.1
                &&& match out.2 {
                    None => r is Ok,
                    Some((_, t)) => r is Err && tells_trouble(r->Err_0, t),
                }
            },
        },
{
    let curr_tag = match load_existing_tag(tx, curr_tag_name) {
        Ok(t) => t,
        Err(e) => return Err(e),
    };
    let ghost names = names_of(dest_tag_names@);
    let mut i: usize = 0;
    while i < dest_tag_names.len()
        invariant
            i <= dest_tag_names.len(),
            names == names_of(dest_tag_names@),
            same_but(old(tx), tx, true, false, false, true, false),
            old(tx).no_orphans() ==> tx.no_orphans(),
            first_tag_named(old(tx).tags@, curr_tag_name@) == Some(curr_tag),
            copies_made(tag_rows(old(tx).tags@), old(tx).file_tags@, curr_tag.id.0, names, 0)
                == copies_made(tag_rows(tx.tags@), tx.file_tags@, curr_tag.id.0, names, i as int),
        decreases dest_tag_names.len() - i,
    {
        assert(names[i as int] == dest_tag_names@[i as int]@);
        let dest = dest_tag_names[i].as_str();
        proof {
            lemma_tag_rows(tx.tags@, dest@);
        }
        if tag_by_name(tx, dest).is_some() {
            return Err(Error::NameTaken(NameKind::Tag, dest.to_owned()));
        }
        let ghost before = tx.tags@;
        match copy_tag(tx, &curr_tag.id, dest) {
            Ok(_) => {},
            Err(e) => {
                assert(tag_rows(tx.tags@) =~= tag_rows(before));
                return Err(e);
            },
        }
        proof {
            assert(tx.tags@ =~= before.push(tx.tags@.last()));
            assert(tag_rows(tx.tags@) =~= tag_rows(before).push(
                ((max_row(tag_rows(before)) + 1) as u32, dest@),
            ));
        }
        i += 1;
    }
    Ok(())
}

} // verus!
