//! What a user can ask of a store. Each request is one transaction on
//! the tables: where it fails, the caller drops the tables as they are.

use vstd::prelude::*;
use crate::entities::settings::Settings;
use crate::entities::{name_verdict, validate_tag_name, validate_value_name, Tag, Value, Verdict};
use crate::errors::Error;
use crate::storage::{
    first_tag_named, first_value_named, insert_tag, insert_value, max_tag_id, max_value_id,
    same_but, tag_by_name, value_by_name, Storage,
};

pub mod config;
pub mod copy;
pub mod delete;
pub mod files;
pub mod imply;
pub mod merge;
pub mod rename;
pub mod repair;
pub mod status;
pub mod tags;
pub mod untagged;
pub mod values;

verus! {

pub fn load_existing_tag(tx: &Storage, name: &str) -> (r: Result<Tag, Error>)
    ensures
        match r {
            Ok(t) => first_tag_named(tx.tags@, name@) == Some(t),
            Err(e) => first_tag_named(tx.tags@, name@) is None && (e matches Error::NoSuchTag(n)
                && n@ == name@),
        },
{
    match tag_by_name(tx, name) {
        Some(t) => Ok(t),
        None => Err(Error::NoSuchTag(name.to_owned())),
    }
}

pub fn load_existing_value(tx: &Storage, name: &str) -> (r: Result<Value, Error>)
    ensures
        match r {
            Ok(v) => first_value_named(tx.values@, name@) == Some(v),
            Err(e) => first_value_named(tx.values@, name@) is None && (
            e matches Error::NoSuchValue(n) && n@ == name@),
        },
{
    match value_by_name(tx, name) {
        Some(v) => Ok(v),
        None => Err(Error::NoSuchValue(name.to_owned())),
    }
}

/// The tag of that name. Where there is none, one is made if the
/// settings allow it and the name is valid.
pub fn load_or_create_tag(tx: &mut Storage, name: &str, settings: &Settings) -> (r: Result<
    Tag,
    Error,
>)
    ensures
        same_but(old(tx), final(tx), true, false, false, false, false),
        match first_tag_named(old(tx).tags@, name@) {
            Some(t) => r == Ok::<Tag, Error>(t) && final(tx).tags@ == old(tx).tags@,
            None => if !settings.auto_create_tags {
                final(tx).tags@ == old(tx).tags@ && (r matches Err(Error::NoSuchTag(n)) && n@
                    == name@)
            } else if !(name_verdict(name@) is Valid) {
                final(tx).tags@ == old(tx).tags@ && (r matches Err(Error::InvalidName(k, f))
                    && k == crate::errors::NameKind::Tag && f@ == name_verdict(name@))
            } else if max_tag_id(old(tx).tags@) == u32::MAX {
                final(tx).tags@ == old(tx).tags@ && r == Err::<Tag, Error>(
                    Error::IdentifiersExhausted,
                )
            } else {
                r is Ok && r->Ok_0.name@ == name@ && r->Ok_0.id.0 == max_tag_id(old(tx).tags@)
                    + 1 && final(tx).tags@ == old(tx).tags@.push(r->Ok_0)
            },
        },
{
    match tag_by_name(tx, name) {
        Some(t) => Ok(t),
        None => {
            if !settings.auto_create_tags() {
                return Err(Error::NoSuchTag(name.to_owned()));
            }
            match validate_tag_name(name) {
                Err(e) => Err(e),
                Ok(_) => insert_tag(tx, name),
            }
        },
    }
}

/// The value of that name. Where there is none, one is made if the
/// settings allow it and the name is valid.
pub fn load_or_create_value(tx: &mut Storage, name: &str, settings: &Settings) -> (r: Result<
    Value,
    Error,
>)
    ensures
        same_but(old(tx), final(tx), false, true, false, false, false),
        match first_value_named(old(tx).values@, name@) {
            Some(v) => r == Ok::<Value, Error>(v) && final(tx).values@ == old(tx).values@,
            None => if !settings.auto_create_values {
                final(tx).values@ == old(tx).values@ && (r matches Err(Error::NoSuchValue(n))
                    && n@ == name@)
            } else if !(name_verdict(name@) is Valid) {
                final(tx).values@ == old(tx).values@ && (r matches Err(Error::InvalidName(k, f))
                    && k == crate::errors::NameKind::Value && f@ == name_verdict(name@))
            } else if max_value_id(old(tx).values@) == u32::MAX {
                final(tx).values@ == old(tx).values@ && r == Err::<Value, Error>(
                    Error::IdentifiersExhausted,
                )
            } else {
                r is Ok && r->Ok_0.name@ == name@ && r->Ok_0.id.id() == max_value_id(
                    old(tx).values@,
                ) + 1 && final(tx).values@ == old(tx).values@.push(r->Ok_0)
            },
        },
{
    match value_by_name(tx, name) {
        Some(v) => Ok(v),
        None => {
            if !settings.auto_create_values() {
                return Err(Error::NoSuchValue(name.to_owned()));
            }
            match validate_value_name(name) {
                Err(e) => Err(e),
                Ok(_) => insert_value(tx, name),
            }
        },
    }
}

} // verus!
