//! Finding the files of a query.

use vstd::prelude::*;
use crate::entities::{name_verdict, validate_tag_name, FileSort, Tag, Value};
use crate::errors::{Error, NameKind};
use crate::path::{contains_for_case, folded, AbsPath, ScopedPath};
use crate::query::{parser, Expression};
use crate::storage::file::{build_query, path_key, query_pieces, SqlBuilder};
use crate::storage::Storage;

verus! {

pub struct FileData {
    pub path: AbsPath,
    pub is_dir: bool,
}

/// Whether one of the tags has the name, case ignored or not.
pub open spec fn tag_known(tags: Seq<Tag>, name: Seq<char>, ignore_case: bool) -> bool {
    exists|i: int|
        0 <= i < tags.len() && folded((#[trigger] tags[i]).name@, ignore_case) == folded(
            name,
            ignore_case,
        )
}

/// Whether one of the values has the name, case ignored or not.
pub open spec fn value_known(values: Seq<Value>, name: Seq<char>, ignore_case: bool) -> bool {
    exists|i: int|
        0 <= i < values.len() && folded((#[trigger] values[i]).name@, ignore_case) == folded(
            name,
            ignore_case,
        )
}

/// The first of the names from `at` on that is no valid name, or no
/// tag's (`tags`) or value's of the store.
pub open spec fn first_bad(
    tx: &Storage,
    names: Seq<Seq<char>>,
    ignore_case: bool,
    tags: bool,
    at: int,
) -> Option<int>
    decreases names.len() - at,
{
    if at < 0 || at >= names.len() {
        None
    } else if !(name_verdict(names[at]) is Valid) || !(if tags {
        tag_known(tx.tags@, names[at], ignore_case)
    } else {
        value_known(tx.values@, names[at], ignore_case)
    }) {
        Some(at)
    } else {
        first_bad(tx, names, ignore_case, tags, at + 1)
    }
}

/// Whether an error tells of the first bad name: that it is invalid, or
/// else that the store does not have it.
pub open spec fn tells_bad(
    tx: &Storage,
    names: Seq<Seq<char>>,
    tags: bool,
    r: Result<(), Error>,
    bad: Option<int>,
) -> bool {
    match bad {
        None => r is Ok,
        Some(at) => r is Err && if !(name_verdict(names[at]) is Valid) {
            r->Err_0 matches Error::InvalidName(k, f) && k == NameKind::Tag && f@ == name_verdict(
                names[at],
            )
        } else if tags {
            r->Err_0 matches Error::NoSuchTag(n) && n@ == names[at]
        } else {
            r->Err_0 matches Error::NoSuchValue(n) && n@ == names[at]
        },
    }
}

/// Checks that the tag names of an expression are valid and that the
/// store has them. Fails at the first that is not.
pub fn check_tag_names(tx: &Storage, expr: &Expression, ignore_case: bool) -> (r: Result<
    (),
    Error,
>)
    ensures
        tells_bad(
            tx,
            expr@.tag_names(),
            true,
            r,
            first_bad(tx, expr@.tag_names(), ignore_case, true, 0),
        ),
{
    let names = expr.tag_names();
    let ghost all = expr@.tag_names();
    let mut i: usize = 0;
    while i < names.len()
        invariant
            i <= names.len(),
            crate::query::names_of(names@) == all,
            all == expr@.tag_names(),
            first_bad(tx, all, ignore_case, true, 0) == first_bad(
                tx,
                all,
                ignore_case,
                true,
                i as int,
            ),
        decreases names.len() - i,
    {
        assert(all[i as int] == names@[i as int]@);
        assert(all.len() == names.len());
        match validate_tag_name(names[i].as_str()) {
            Ok(_) => {},
            Err(e) => return Err(e),
        }
        if !contains_for_case(&tx.tags, names[i].as_str(), ignore_case) {
            return Err(Error::NoSuchTag(names[i].clone()));
        }

        i += 1;
    }
    assert(all.len() == names.len());
    Ok(())
}

/// Checks that the value names that an expression compares for
/// equality are valid and that the store has them.
pub fn check_value_names(tx: &Storage, expr: &Expression, ignore_case: bool) -> (r: Result<
    (),
    Error,
>)
    ensures
        tells_bad(
            tx,
            expr@.exact_value_names(),
            false,
            r,
            first_bad(tx, expr@.exact_value_names(), ignore_case, false, 0),
        ),
{
    let names = expr.exact_value_names();
    let ghost all = expr@.exact_value_names();
    let mut i: usize = 0;
    while i < names.len()
        invariant
            i <= names.len(),
            crate::query::names_of(names@) == all,
            all == expr@.exact_value_names(),
            first_bad(tx, all, ignore_case, false, 0) == first_bad(
                tx,
                all,
                ignore_case,
                false,
                i as int,
            ),
        decreases names.len() - i,
    {
        assert(all[i as int] == names@[i as int]@);
        assert(all.len() == names.len());
        match validate_tag_name(names[i].as_str()) {
            Ok(_) => {},
            Err(e) => return Err(e),
        }
        if !contains_for_case(&tx.values, names[i].as_str(), ignore_case) {
            return Err(Error::NoSuchValue(names[i].clone()));
        }

        i += 1;
    }
    assert(all.len() == names.len());
    Ok(())
}

/// The query that finds the files of a query text: the text must parse,
/// and the store must have its tags and the values it compares for
/// equality. `numeric` lists the values that read as numbers.
pub fn list_matching(
    tx: &Storage,
    str_query: &str,
    explicit_only: bool,
    ignore_case: bool,
    path: Option<&ScopedPath>,
    file_sort: Option<FileSort>,
    numeric: &Vec<String>,
) -> (r: Result<SqlBuilder, Error>)
    ensures
        if parser::is_blank(str_query@) {
            r is Ok && r->Ok_0@ == query_pieces(
                None,
                explicit_only,
                ignore_case,
                path_key(path),
                file_sort,
                numeric@,
            )
        } else {
            match parser::parsed(str_query@) {
                None => r matches Err(Error::QueryParsingError(q)) && q@ == str_query@,
                Some(e) => {
                    let bad_tag = first_bad(tx, e.tag_names(), ignore_case, true, 0);
                    let bad_value = first_bad(tx, e.exact_value_names(), ignore_case, false, 0);
                    if bad_tag is Some {
                        tells_bad(tx, e.tag_names(), true, erased(r), bad_tag)
                    } else if bad_value is Some {
                        tells_bad(tx, e.exact_value_names(), false, erased(r), bad_value)
                    } else {
                        r is Ok && r->Ok_0@ == query_pieces(
                            Some(e),
                            explicit_only,
                            ignore_case,
                            path_key(path),
                            file_sort,
                            numeric@,
                        )
                    }
                },
            }
        },
{
    let expr_opt = match Expression::parse(str_query) {
        Ok(e) => e,
        Err(e) => return Err(e),
    };
    match &expr_opt {
        Some(expr) => {
            match check_tag_names(tx, expr, ignore_case) {
                Ok(_) => {},
                Err(e) => return Err(e),
            }
            match check_value_names(tx, expr, ignore_case) {
                Ok(_) => {},
                Err(e) => return Err(e),
            }
        },
        None => {},
    }
    Ok(build_query(expr_opt.as_ref(), explicit_only, ignore_case, path, file_sort, numeric))
}

/// A result without what it holds on success.
pub open spec fn erased(r: Result<SqlBuilder, Error>) -> Result<(), Error> {
    match r {
        Ok(_) => Ok(()),
        Err(e) => Err(e),
    }
}

} // verus!
