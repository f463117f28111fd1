//! Listing values: all of them, and by tag.

use vstd::prelude::*;
use crate::api::imply::{first_value_with, value_by_id, value_label};
use crate::api::load_existing_tag;
use crate::entities::{TagId, Value};
use crate::errors::Error;
use crate::query::names_of;
use crate::storage::{file_tags_by_tag_id, row_pred, RowKey, Storage};
use crate::text::same_text;
use crate::tree::{ascending, sorted_names};

verus! {

pub struct ValuesOutput {
    pub value_groups: Vec<ValueGroup>,
}

pub struct ValueGroup {
    pub tag_name: Option<String>,
    pub value_names: Vec<String>,
}

/// The names of the values.
pub open spec fn value_names(values: Seq<Value>) -> Seq<Seq<char>> {
    values.map_values(|v: Value| v.name@)
}

/// All values in one group, in ascending order of their names.
pub fn list_all_values(tx: &Storage) -> (r: ValuesOutput)
    ensures
        r.value_groups@.len() == 1,
        r.value_groups@[0].tag_name is None,
        ascending(names_of(r.value_groups@[0].value_names@)),
        r.value_groups@[0].value_names@.len() == tx.values@.len(),
        forall|t: Seq<char>|
            names_of(r.value_groups@[0].value_names@).contains(t) <==> value_names(
                tx.values@,
            ).contains(t),
{
    let mut names: Vec<String> = Vec::new();
    let mut i: usize = 0;
    assert(names_of(names@) =~= value_names(tx.values@).subrange(0, 0));
    while i < tx.values.len()
        invariant
            i <= tx.values.len(),
            names_of(names@) == value_names(tx.values@).subrange(0, i as int),
        decreases tx.values.len() - i,
    {
        let ghost before = names_of(names@);
        let one = tx.values[i].name.clone();
        assert(value_names(tx.values@)[i as int] == one@);
        names.push(one);
        assert(names_of(names@) =~= before.push(one@));
        i += 1;
        assert(names_of(names@) =~= value_names(tx.values@).subrange(0, i as int));
    }
    assert(value_names(tx.values@).subrange(0, tx.values@.len() as int) =~= value_names(
        tx.values@,
    ));
    let mut groups: Vec<ValueGroup> = Vec::new();
    groups.push(ValueGroup { tag_name: None, value_names: sorted_names(&names) });
    ValuesOutput { value_groups: groups }
}

fn holds_name(names: &Vec<String>, name: &str) -> (r: bool)
    ensures
        r == names_of(names@).contains(name@),
{
    let mut i: usize = 0;
    while i < names.len()
        invariant
            i <= names.len(),
            forall|j: int| 0 <= j < i ==> names_of(names@)[j] != name@,
        decreases names.len() - i,
    {
        if same_text(names[i].as_str(), name) {
            assert(names_of(names@)[i as int] == name@);
            return true;
        }
        i += 1;
    }
    false
}

/// The names of the values that stand with a tag on some file, each
/// once, in ascending order. A file tag without a value, or with one
/// that the store does not have, adds none.
pub fn values_by_tag_id(tx: &Storage, tag_id: &TagId) -> (r: Vec<String>)
    ensures
        ascending(names_of(r@)),
        forall|t: Seq<char>|
            names_of(r@).contains(t) <==> exists|i: int|
                0 <= i < tx.file_tags@.filter(row_pred(RowKey::OfTag(tag_id.0), true)).len()
                    && value_label(
                    #[trigger] first_value_with(
                        tx.values@,
                        tx.file_tags@.filter(row_pred(RowKey::OfTag(tag_id.0), true))[i].value,
                    ),
                ) == Some(t),
{
    let rows = file_tags_by_tag_id(tx, tag_id);
    let mut names: Vec<String> = Vec::new();
    let mut i: usize = 0;
    while i < rows.len()
        invariant
            i <= rows.len(),
            rows@ == tx.file_tags@.filter(row_pred(RowKey::OfTag(tag_id.0), true)),
            forall|t: Seq<char>|
                names_of(names@).contains(t) <==> exists|k: int|
                    0 <= k < i && value_label(#[trigger] first_value_with(tx.values@, rows@[k].value)) == Some(t),
        decreases rows.len() - i,
    {
        let ghost was = names_of(names@);
        let found = value_by_id(tx, rows[i].value);
        match found {
            Some(v) => {
                if !holds_name(&names, v.name.as_str()) {
                    names.push(v.name);
                    assert(names_of(names@) =~= was.push(v.name@));
                }
            },
            None => {},
        }
        proof {
            let now = names_of(names@);
            assert forall|t: Seq<char>| now.contains(t) <==> exists|k: int|
                0 <= k < i + 1 && value_label(#[trigger] first_value_with(tx.values@, rows@[k].value)) == Some(t) by {
                if now.contains(t) {
                    let w = choose|w: int| 0 <= w < now.len() && now[w] == t;
                    if w < was.len() {
                        assert(was[w] == t);
                        assert(was.contains(t));
                    } else {
                        assert(value_label(first_value_with(tx.values@, rows@[i as int].value))
                            == Some(t));
                    }
                }
                if exists|k: int|
                    0 <= k < i + 1 && value_label(#[trigger] first_value_with(tx.values@, rows@[k].value)) == Some(t) {
                    let k = choose|k: int|
                        0 <= k < i + 1 && value_label(#[trigger] first_value_with(
                            tx.values@,
                            rows@[k].value,
                        )) == Some(t);
                    if k < i {
                        assert(was.contains(t));
                        let w = choose|w: int| 0 <= w < was.len() && was[w] == t;
                        assert(now[w] == t);
                    } else {
                        if was.contains(t) {
                            let w = choose|w: int| 0 <= w < was.len() && was[w] == t;
                            assert(now[w] == t);
                        } else {
                            assert(now[was.len() as int] == t);
                        }
                    }
                }
            }
        }
        i += 1;
    }
    sorted_names(&names)
}

/// For each tag the values that stand with it.
pub fn list_values_for_tags(tx: &Storage, tag_names: &Vec<String>) -> (r: Result<
    ValuesOutput,
    Error,
>)
    ensures
        r is Ok ==> r->Ok_0.value_groups@.len() == tag_names@.len() && forall|i: int|
            0 <= i < tag_names@.len() ==> (#[trigger] r->Ok_0.value_groups@[i]).tag_name is Some
                && r->Ok_0.value_groups@[i].tag_name->0@ == tag_names@[i]@ && ascending(
                names_of(r->Ok_0.value_groups@[i].value_names@),
            ),
        tag_names@.len() == 0 ==> r is Ok,
{
    let mut groups: Vec<ValueGroup> = Vec::new();
    let mut i: usize = 0;
    while i < tag_names.len()
        invariant
            i <= tag_names.len(),
            groups@.len() == i,
            forall|k: int|
                0 <= k < i ==> (#[trigger] groups@[k]).tag_name is Some
                    && groups@[k].tag_name->0@ == tag_names@[k]@ && ascending(
                    names_of(groups@[k].value_names@),
                ),
        decreases tag_names.len() - i,
    {
        let tag = match load_existing_tag(tx, tag_names[i].as_str()) {
            Ok(t) => t,
            Err(e) => return Err(e),
        };
        let value_names = values_by_tag_id(tx, &tag.id);
        groups.push(ValueGroup { tag_name: Some(tag_names[i].clone()), value_names });
        i += 1;
    }
    Ok(ValuesOutput { value_groups: groups })
}

/// The values: all of them where no tag is named, else by tag.
pub fn run_values(tx: &Storage, tag_names: &Vec<String>) -> (r: Result<ValuesOutput, Error>)
    ensures
        tag_names@.len() == 0 ==> r is Ok && r->Ok_0.value_groups@.len() == 1
            && r->Ok_0.value_groups@[0].tag_name is None,
        tag_names@.len() > 0 && r is Ok ==> r->Ok_0.value_groups@.len() == tag_names@.len(),
{
    if tag_names.len() == 0 {
        Ok(list_all_values(tx))
    } else {
        list_values_for_tags(tx, tag_names)
    }
}

} // verus!
