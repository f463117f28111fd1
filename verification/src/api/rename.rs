//! Renaming tags and values.

use vstd::prelude::*;
use crate::api::{load_existing_tag, load_existing_value};
use crate::entities::{name_verdict, validate_tag_name, validate_value_name, Tag, Value, ValueId};
use crate::entities::TagId;
use crate::errors::{Error, NameKind};
use crate::storage::{
    first_tag_named, first_value_named, same_but, tag_by_name, tag_pred, value_by_name,
    value_pred, Storage,
};

verus! {

/// Whether the tags `after` are the tags `before` with a new name for
/// those of the given identifier.
pub open spec fn tags_renamed(before: Seq<Tag>, after: Seq<Tag>, id: u32, name: Seq<char>) -> bool {
    &&& after.len() == before.len()
    &&& forall|i: int|
        0 <= i < before.len() ==> (#[trigger] after[i]).id == before[i].id && after[i].name@ == if before[i].id.0
            == id {
            name
        } else {
            before[i].name@
        }
}

/// Whether the values `after` are the values `before` with a new name
/// for those of the given identifier.
pub open spec fn values_renamed(before: Seq<Value>, after: Seq<Value>, id: u32, name: Seq<char>) -> bool {
    &&& after.len() == before.len()
    &&& forall|i: int|
        0 <= i < before.len() ==> (#[trigger] after[i]).id == before[i].id && after[i].name@ == if before[i].id.id()
            == id {
            name
        } else {
            before[i].name@
        }
}

/// Gives the tag of that identifier a new name. Fails unless exactly
/// one row is changed.
pub fn rename_tag(tx: &mut Storage, tag_id: &TagId, name: &str) -> (r: Result<(), Error>)
    ensures
        same_but(old(tx), final(tx), true, false, false, false, false),
        tags_renamed(old(tx).tags@, final(tx).tags@, tag_id.0, name@),
        ({
            let hit = old(tx).tags@.filter(tag_pred(tag_id.0, true)).len();
            match r {
                Ok(_) => hit == 1,
                Err(e) => hit != 1 && e == Error::UnaffectedRows(1, hit as usize),
            }
        }),
{
    let mut out: Vec<Tag> = Vec::new();
    let mut n: usize = 0;
    let mut i: usize = 0;
    let ghost pred = tag_pred(tag_id.0, true);
    proof {
        reveal(Seq::filter);
        assert(tx.tags@.take(0) =~= Seq::<Tag>::empty());
    }
    while i < tx.tags.len()
        invariant
            i <= tx.tags.len(),
            n <= i,
            *tx == *old(tx),
            pred == tag_pred(tag_id.0, true),
            n == tx.tags@.take(i as int).filter(pred).len(),
            tags_renamed(tx.tags@.take(i as int), out@, tag_id.0, name@),
        decreases tx.tags.len() - i,
    {
        proof {
            tx.tags@.take(i as int).lemma_filter_push(tx.tags@[i as int], pred);
            assert(tx.tags@.take(i + 1) =~= tx.tags@.take(i as int).push(tx.tags@[i as int]));
        }
        if tx.tags[i].id.0 == tag_id.0 {
            out.push(Tag { id: tx.tags[i].id, name: name.to_owned() });
            n += 1;
        } else {
            out.push(tx.tags[i].duplicate());
        }
        i += 1;
    }
    assert(tx.tags@.take(tx.tags.len() as int) =~= tx.tags@);
    tx.tags = out;
    if n == 1 {
        Ok(())
    } else {
        Err(Error::UnaffectedRows(1, n))
    }
}

/// Gives the value of that identifier a new name. Fails unless exactly
/// one row is changed.
pub fn rename_value(tx: &mut Storage, value_id: &ValueId, name: &str) -> (r: Result<(), Error>)
    ensures
        same_but(old(tx), final(tx), false, true, false, false, false),
        values_renamed(old(tx).values@, final(tx).values@, value_id.id(), name@),
        ({
            let hit = old(tx).values@.filter(value_pred(value_id.id(), true)).len();
            match r {
                Ok(_) => hit == 1,
                Err(e) => hit != 1 && e == Error::UnaffectedRows(1, hit as usize),
            }
        }),
{
    let mut out: Vec<Value> = Vec::new();
    let mut n: usize = 0;
    let mut i: usize = 0;
    let id = *value_id.as_u32();
    let ghost pred = value_pred(id, true);
    proof {
        reveal(Seq::filter);
        assert(tx.values@.take(0) =~= Seq::<Value>::empty());
    }
    while i < tx.values.len()
        invariant
            i <= tx.values.len(),
            n <= i,
            *tx == *old(tx),
            id == value_id.id(),
            pred == value_pred(id, true),
            n == tx.values@.take(i as int).filter(pred).len(),
            values_renamed(tx.values@.take(i as int), out@, id, name@),
        decreases tx.values.len() - i,
    {
        proof {
            tx.values@.take(i as int).lemma_filter_push(tx.values@[i as int], pred);
            assert(tx.values@.take(i + 1) =~= tx.values@.take(i as int).push(
                tx.values@[i as int],
            ));
        }
        if *tx.values[i].id.as_u32() == id {
            out.push(Value { id: tx.values[i].id, name: name.to_owned() });
            n += 1;
        } else {
            out.push(tx.values[i].duplicate());
        }
        i += 1;
    }
    assert(tx.values@.take(tx.values.len() as int) =~= tx.values@);
    tx.values = out;
    if n == 1 {
        Ok(())
    } else {
        Err(Error::UnaffectedRows(1, n))
    }
}

/// Renames a tag. The tag must exist, the new name must be valid and no
/// tag's, and exactly one row must change.
pub fn run_rename_tag(tx: &mut Storage, curr_name: &str, new_name: &str) -> (r: Result<(), Error>)
    ensures
        same_but(old(tx), final(tx), true, false, false, false, false),
        match first_tag_named(old(tx).tags@, curr_name@) {
            None => final(tx).tags@ == old(tx).tags@ && (r matches Err(Error::NoSuchTag(n)) && n@
                == curr_name@),
            Some(t) => if !(name_verdict(new_name@) is Valid) {
                final(tx).tags@ == old(tx).tags@ && (r matches Err(Error::InvalidName(k, f)) && k
                    == NameKind::Tag && f@ == name_verdict(new_name@))
            } else if first_tag_named(old(tx).tags@, new_name@) is Some {
                final(tx).tags@ == old(tx).tags@ && (r matches Err(Error::NameTaken(k, n)) && k
                    == NameKind::Tag && n@ == new_name@)
            } else {
                let hit = old(tx).tags@.filter(tag_pred(t.id.0, true)).len();
                &&& tags_renamed(old(tx).tags@, final(tx).tags@, t.id.0, new_name@)
                &&& r is Ok <==> hit == 1
                &&& r is Err ==> r->Err_0 == Error::UnaffectedRows(1, hit as usize)
            },
        },
{
    let curr_tag = match load_existing_tag(tx, curr_name) {
        Ok(t) => t,
        Err(e) => return Err(e),
    };
    match validate_tag_name(new_name) {
        Ok(_) => {},
        Err(e) => return Err(e),
    }
    if tag_by_name(tx, new_name).is_some() {
        return Err(Error::NameTaken(NameKind::Tag, new_name.to_owned()));
    }
    rename_tag(tx, &curr_tag.id, new_name)
}

/// Renames a value. The value must exist, the new name must be valid
/// and no value's, and exactly one row must change.
pub fn run_rename_value(tx: &mut Storage, curr_name: &str, new_name: &str) -> (r: Result<
    (),
    Error,
>)
    ensures
        same_but(old(tx), final(tx), false, true, false, false, false),
        match first_value_named(old(tx).values@, curr_name@) {
            None => final(tx).values@ == old(tx).values@ && (r matches Err(Error::NoSuchValue(n))
                && n@ == curr_name@),
            Some(v) => if !(name_verdict(new_name@) is Valid) {
                final(tx).values@ == old(tx).values@ && (r matches Err(Error::InvalidName(k, f))
                    && k == NameKind::Value && f@ == name_verdict(new_name@))
            } else if first_value_named(old(tx).values@, new_name@) is Some {
                final(tx).values@ == old(tx).values@ && (r matches Err(Error::NameTaken(k, n))
                    && k == NameKind::Value && n@ == new_name@)
            } else {
                let hit = old(tx).values@.filter(value_pred(v.id.id(), true)).len();
                &&& values_renamed(old(tx).values@, final(tx).values@, v.id.id(), new_name@)
                &&& r is Ok <==> hit == 1
                &&& r is Err ==> r->Err_0 == Error::UnaffectedRows(1, hit as usize)
            },
        },
{
    let curr_value = match load_existing_value(tx, curr_name) {
        Ok(v) => v,
        Err(e) => return Err(e),
    };
    match validate_value_name(new_name) {
        Ok(_) => {},
        Err(e) => return Err(e),
    }
    if value_by_name(tx, new_name).is_some() {
        return Err(Error::NameTaken(NameKind::Value, new_name.to_owned()));
    }
    rename_value(tx, &curr_value.id, new_name)
}

} // verus!
