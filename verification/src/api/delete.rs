//! Removing tags and values with all that hangs on them.

use vstd::prelude::*;
use crate::api::{load_existing_tag, load_existing_value};
use crate::errors::Error;
use crate::query::names_of;
use crate::storage::{
    edge_pred, first_tag_named, first_value_named, purge_pred, row_pred, tag_pred, value_pred,
    EdgeKey, RowKey, Storage, Tables,
};

verus! {

/// The tables without a tag and all that hangs on it.
pub open spec fn without_tag(t: Tables, id: u32) -> Tables {
    let rows = t.file_tags.filter(row_pred(RowKey::OfTag(id), false));
    Tables {
        tags: t.tags.filter(tag_pred(id, false)),
        values: t.values,
        files: t.files.filter(purge_pred(t.file_tags.filter(row_pred(RowKey::OfTag(id), true)), rows)),
        file_tags: rows,
        implications: t.implications.filter(edge_pred(EdgeKey::WithTag(id), false)),
    }
}

/// The tables without a value and all that hangs on it.
pub open spec fn without_value(t: Tables, id: u32) -> Tables {
    let rows = t.file_tags.filter(row_pred(RowKey::OfValue(id), false));
    Tables {
        tags: t.tags,
        values: t.values.filter(value_pred(id, false)),
        files: t.files.filter(
            purge_pred(t.file_tags.filter(row_pred(RowKey::OfValue(id), true)), rows),
        ),
        file_tags: rows,
        implications: t.implications.filter(edge_pred(EdgeKey::WithValue(id), false)),
    }
}

/// How a request over a list of names ended: the tables it left, and,
/// where it failed, at which name and how many rows the last removal took.
pub struct Outcome {
    pub tables: Tables,
    pub failed_at: Option<int>,
    pub why: Failure,
}

/// Why a request stopped at a name.
pub enum Failure {
    /// It did not stop.
    Nothing,
    /// Nothing in the store has that name.
    Missing,
    /// The name is the one to merge into.
    Itself,
    /// A removal took that many rows, not one.
    Gone(int),
}

/// Removes the named tags one after the other, from position `at` on.
/// Stops at the first name that is no tag's, and behind the first
/// removal that does not take exactly one tag row.
pub open spec fn tags_deleted(t: Tables, names: Seq<Seq<char>>, at: int) -> Outcome
    decreases names.len() - at,
{
    if at < 0 || at >= names.len() {
        Outcome { tables: t, failed_at: None, why: Failure::Nothing }
    } else {
        match first_tag_named(t.tags, names[at]) {
            None => Outcome { tables: t, failed_at: Some(at), why: Failure::Missing },
            Some(tag) => {
                let next = without_tag(t, tag.id.0);
                let gone = t.tags.len() - next.tags.len();
                if gone == 1 {
                    tags_deleted(next, names, at + 1)
                } else {
                    Outcome { tables: next, failed_at: Some(at), why: Failure::Gone(gone) }
                }
            },
        }
    }
}

/// Removes the named values one after the other, from position `at` on.
pub open spec fn values_deleted(t: Tables, names: Seq<Seq<char>>, at: int) -> Outcome
    decreases names.len() - at,
{
    if at < 0 || at >= names.len() {
        Outcome { tables: t, failed_at: None, why: Failure::Nothing }
    } else {
        match first_value_named(t.values, names[at]) {
            None => Outcome { tables: t, failed_at: Some(at), why: Failure::Missing },
            Some(value) => {
                let next = without_value(t, value.id.id());
                let gone = t.values.len() - next.values.len();
                if gone == 1 {
                    values_deleted(next, names, at + 1)
                } else {
                    Outcome { tables: next, failed_at: Some(at), why: Failure::Gone(gone) }
                }
            },
        }
    }
}

/// Whether a result tells of an outcome: success where nothing failed,
/// else the error of the failure, named by `kind`.
pub open spec fn tells(
    r: Result<(), Error>,
    o: Outcome,
    names: Seq<Seq<char>>,
    kind: crate::errors::NameKind,
) -> bool {
    match o.failed_at {
        None => r is Ok,
        Some(at) => r is Err && match o.why {
            Failure::Nothing => false,
            Failure::Missing => match kind {
                crate::errors::NameKind::Tag => r->Err_0 matches Error::NoSuchTag(n) && n@
                    == names[at],
                crate::errors::NameKind::Value => r->Err_0 matches Error::NoSuchValue(n) && n@
                    == names[at],
            },
            Failure::Itself => r->Err_0 matches Error::MergeIntoItself(k, n) && k == kind && n@
                == names[at],
            Failure::Gone(gone) => r->Err_0 == Error::UnaffectedRows(1, gone as usize),
        },
    }
}

pub fn run_delete_tag(tx: &mut Storage, tag_names: &Vec<String>) -> (r: Result<(), Error>)
    ensures
        final(tx)@ == tags_deleted(old(tx)@, names_of(tag_names@), 0).tables,
        tells(
            r,
            tags_deleted(old(tx)@, names_of(tag_names@), 0),
            names_of(tag_names@),
            crate::errors::NameKind::Tag,
        ),
        old(tx).no_orphans() ==> final(tx).no_orphans(),
{
    let ghost names = names_of(tag_names@);
    let mut i: usize = 0;
    while i < tag_names.len()
        invariant
            i <= tag_names.len(),
            names == names_of(tag_names@),
            tags_deleted(old(tx)@, names, 0) == tags_deleted(tx@, names, i as int),
            old(tx).no_orphans() ==> tx.no_orphans(),
        decreases tag_names.len() - i,
    {
        assert(names[i as int] == tag_names@[i as int]@);
        let tag = match load_existing_tag(tx, tag_names[i].as_str()) {
            Ok(t) => t,
            Err(e) => return Err(e),
        };
        let ghost before = tx@;
        match crate::storage::meta::delete_tag(tx, &tag) {
            Ok(_) => {},
            Err(e) => {
                assert(tx@ == without_tag(before, tag.id.0));
                return Err(e);
            },
        }
        assert(tx@ == without_tag(before, tag.id.0));
        i += 1;
    }
    Ok(())
}

pub fn run_delete_value(tx: &mut Storage, value_names: &Vec<String>) -> (r: Result<(), Error>)
    ensures
        final(tx)@ == values_deleted(old(tx)@, names_of(value_names@), 0).tables,
        tells(
            r,
            values_deleted(old(tx)@, names_of(value_names@), 0),
            names_of(value_names@),
            crate::errors::NameKind::Value,
        ),
        old(tx).no_orphans() ==> final(tx).no_orphans(),
{
    let ghost names = names_of(value_names@);
    let mut i: usize = 0;
    while i < value_names.len()
        invariant
            i <= value_names.len(),
            names == names_of(value_names@),
            values_deleted(old(tx)@, names, 0) == values_deleted(tx@, names, i as int),
            old(tx).no_orphans() ==> tx.no_orphans(),
        decreases value_names.len() - i,
    {
        assert(names[i as int] == value_names@[i as int]@);
        let value = match load_existing_value(tx, value_names[i].as_str()) {
            Ok(v) => v,
            Err(e) => return Err(e),
        };
        let ghost before = tx@;
        match crate::storage::meta::delete_value(tx, &value) {
            Ok(_) => {},
            Err(e) => {
                assert(tx@ == without_value(before, value.id.id()));
                return Err(e);
            },
        }
        assert(tx@ == without_value(before, value.id.id()));
        i += 1;
    }
    Ok(())
}

} // verus!
