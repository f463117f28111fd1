//! Listing, adding and removing implications.

use vstd::prelude::*;
use crate::api::{load_existing_tag, load_existing_value, load_or_create_tag, load_or_create_value};
use crate::entities::settings::Settings;
use crate::entities::{OptionalValueId, Tag, TagId, TagIdValueIdPair, Value, ValueId};
use crate::errors::Error;
use crate::implication::{
    acyclic, check_for_implication_cycles, lemma_add_keeps_acyclic, would_cycle, Edge, Node,
};
use crate::storage::{first_tag_named, first_value_named, same_but, Storage};

verus! {

#[derive(Debug, PartialEq, Eq)]
pub struct TagAndOptionalValue {
    pub tag_name: String,
    pub value_name: Option<String>,
}

#[derive(Debug, PartialEq, Eq)]
pub struct Implication {
    pub implying: TagAndOptionalValue,
    pub implied: TagAndOptionalValue,
}

pub struct ImplyListOutput {
    pub implications: Vec<Implication>,
}

impl TagAndOptionalValue {
    /// The name of the value, or the empty text where there is none.
    pub open spec fn value_text(&self) -> Seq<char> {
        match self.value_name {
            Some(v) => v@,
            None => Seq::empty(),
        }
    }
}

/// The name of a value that may be absent.
pub open spec fn value_label(v: Option<Value>) -> Option<Seq<char>> {
    match v {
        Some(x) => Some(x.name@),
        None => None,
    }
}

/// The name of a text that may be absent.
pub open spec fn text_label(v: Option<String>) -> Option<Seq<char>> {
    match v {
        Some(x) => Some(x@),
        None => None,
    }
}

fn value_name_of(v: &Option<Value>) -> (r: Option<String>)
    ensures
        text_label(r) == value_label(*v),
{
    match v {
        Some(x) => Some(x.name.clone()),
        None => None,
    }
}

/// An implication by the names of its tags and values.
pub fn convert_to_output(implication: crate::entities::Implication) -> (r: Implication)
    ensures
        r.implying.tag_name@ == implication.implying_tag.name@,
        text_label(r.implying.value_name) == value_label(implication.implying_value),
        r.implied.tag_name@ == implication.implied_tag.name@,
        text_label(r.implied.value_name) == value_label(implication.implied_value),
{
    Implication {
        implying: TagAndOptionalValue {
            tag_name: implication.implying_tag.name.clone(),
            value_name: value_name_of(&implication.implying_value),
        },
        implied: TagAndOptionalValue {
            tag_name: implication.implied_tag.name.clone(),
            value_name: value_name_of(&implication.implied_value),
        },
    }
}

/// The first tag with that identifier.
pub open spec fn first_tag_with(tags: Seq<Tag>, id: u32) -> Option<Tag>
    decreases tags.len(),
{
    if tags.len() == 0 {
        None
    } else if tags[0].id.0 == id {
        Some(tags[0])
    } else {
        first_tag_with(tags.drop_first(), id)
    }
}

/// The first value with that identifier.
pub open spec fn first_value_with(values: Seq<Value>, id: u32) -> Option<Value>
    decreases values.len(),
{
    if values.len() == 0 {
        None
    } else if values[0].id.id() == id {
        Some(values[0])
    } else {
        first_value_with(values.drop_first(), id)
    }
}

pub fn tag_by_id(tx: &Storage, tag_id: &TagId) -> (r: Option<Tag>)
    ensures
        r == first_tag_with(tx.tags@, tag_id.0),
{
    let mut i: usize = 0;
    assert(tx.tags@.skip(0) =~= tx.tags@);
    while i < tx.tags.len()
        invariant
            i <= tx.tags.len(),
            first_tag_with(tx.tags@, tag_id.0) == first_tag_with(tx.tags@.skip(i as int), tag_id.0),
        decreases tx.tags.len() - i,
    {
        assert(tx.tags@.skip(i as int).drop_first() =~= tx.tags@.skip(i + 1));
        if tx.tags[i].id.0 == tag_id.0 {
            return Some(tx.tags[i].duplicate());
        }
        i += 1;
    }
    None
}

pub fn value_by_id(tx: &Storage, value_id: u32) -> (r: Option<Value>)
    ensures
        r == first_value_with(tx.values@, value_id),
{
    let mut i: usize = 0;
    assert(tx.values@.skip(0) =~= tx.values@);
    while i < tx.values.len()
        invariant
            i <= tx.values.len(),
            first_value_with(tx.values@, value_id) == first_value_with(
                tx.values@.skip(i as int),
                value_id,
            ),
        decreases tx.values.len() - i,
    {
        assert(tx.values@.skip(i as int).drop_first() =~= tx.values@.skip(i + 1));
        if *tx.values[i].id.as_u32() == value_id {
            return Some(tx.values[i].duplicate());
        }
        i += 1;
    }
    None
}

/// The implication of an edge with the names that the tables give its
/// numbers. There is none where a tag is unknown; an unknown value
/// counts as no value.
pub open spec fn named_edge(tx: &Storage, e: Edge) -> Option<crate::entities::Implication> {
    match (first_tag_with(tx.tags@, e.implying.tag), first_tag_with(tx.tags@, e.implied.tag)) {
        (Some(a), Some(b)) => Some(
            crate::entities::Implication {
                implying_tag: a,
                implying_value: first_value_with(tx.values@, e.implying.value),
                implied_tag: b,
                implied_value: first_value_with(tx.values@, e.implied.value),
            },
        ),
        _ => None,
    }
}

/// The implications of the store whose tags are known, in the order of
/// the table, each with the names of its tags and values.
pub open spec fn named_edges(tx: &Storage) -> Seq<crate::entities::Implication> {
    tx.implications@.filter_map(|e: Edge| named_edge(tx, e))
}

/// The implications of the store whose tags are known, in the order of
/// the table, each with the names of its tags and values.
pub fn implications(tx: &Storage) -> (r: Vec<crate::entities::Implication>)
    ensures
        r@ == named_edges(tx),
{
    let mut out: Vec<crate::entities::Implication> = Vec::new();
    let mut i: usize = 0;
    let ghost f = |e: Edge| named_edge(tx, e);
    proof {
        reveal(Seq::filter_map);
        assert(tx.implications@.take(0) =~= Seq::<Edge>::empty());
    }
    while i < tx.implications.len()
        invariant
            i <= tx.implications.len(),
            f == |e: Edge| named_edge(tx, e),
            out@ == tx.implications@.take(i as int).filter_map(f),
        decreases tx.implications.len() - i,
    {
        let e = tx.implications[i];
        proof {
            reveal(Seq::filter_map);
            assert(tx.implications@.take(i + 1).drop_last() =~= tx.implications@.take(i as int));
            assert(tx.implications@.take(i + 1).last() == e);
        }
        let a = tag_by_id(tx, &TagId(e.implying.tag));
        let b = tag_by_id(tx, &TagId(e.implied.tag));
        match (a, b) {
            (Some(a), Some(b)) => {
                out.push(
                    crate::entities::Implication {
                        implying_tag: a,
                        implying_value: value_by_id(tx, e.implying.value),
                        implied_tag: b,
                        implied_value: value_by_id(tx, e.implied.value),
                    },
                );
            },
            _ => {},
        }
        i += 1;
    }
    assert(tx.implications@.take(tx.implications.len() as int) =~= tx.implications@);
    out
}

/// All implications of the store by the names of their tags and values.
pub fn run_imply_list(tx: &Storage) -> (r: ImplyListOutput)
    ensures
        r.implications@.len() == named_edges(tx).len(),
        forall|i: int|
            #![trigger r.implications@[i]]
            0 <= i < r.implications@.len() ==> {
                let from = named_edges(tx)[i];
                let to = r.implications@[i];
                &&& to.implying.tag_name@ == from.implying_tag.name@
                &&& text_label(to.implying.value_name) == value_label(from.implying_value)
                &&& to.implied.tag_name@ == from.implied_tag.name@
                &&& text_label(to.implied.value_name) == value_label(from.implied_value)
            },
{
    let found = implications(tx);
    let mut out: Vec<Implication> = Vec::new();
    let mut i: usize = 0;
    while i < found.len()
        invariant
            i <= found.len(),
            out@.len() == i,
            forall|j: int|
                0 <= j < i ==> {
                    let from = #[trigger] found@[j];
                    let to = out@[j];
                    &&& to.implying.tag_name@ == from.implying_tag.name@
                    &&& text_label(to.implying.value_name) == value_label(from.implying_value)
                    &&& to.implied.tag_name@ == from.implied_tag.name@
                    &&& text_label(to.implied.value_name) == value_label(from.implied_value)
                },
        decreases found.len() - i,
    {
        let one = crate::entities::Implication {
            implying_tag: found[i].implying_tag.duplicate(),
            implying_value: match &found[i].implying_value {
                Some(v) => Some(v.duplicate()),
                None => None,
            },
            implied_tag: found[i].implied_tag.duplicate(),
            implied_value: match &found[i].implied_value {
                Some(v) => Some(v.duplicate()),
                None => None,
            },
        };
        out.push(convert_to_output(one));
        i += 1;
    }
    ImplyListOutput { implications: out }
}

/// Why an implication could not be removed.
pub enum Trouble {
    /// No tag has the name.
    NoTag(Seq<char>),
    /// No value has the name.
    NoValue(Seq<char>),
    /// The store does not hold the implication.
    NoImplication,
    /// The store holds the implication that many times, not once.
    Rows(int),
    /// A tag would have to be made, and its name is not valid.
    InvalidTag(crate::entities::Verdict),
    /// A value would have to be made, and its name is not valid.
    InvalidValue(crate::entities::Verdict),
    /// No identifier is left for a new tag or value.
    Exhausted,
    /// The implication would close a cycle.
    Cycle,
    /// A tag has the name already.
    Taken(Seq<char>),
}

/// Whether an error tells of a trouble.
pub open spec fn tells_trouble(e: Error, t: Trouble) -> bool {
    match t {
        Trouble::NoTag(n) => e matches Error::NoSuchTag(x) && x@ == n,
        Trouble::NoValue(n) => e matches Error::NoSuchValue(x) && x@ == n,
        Trouble::NoImplication => e == Error::NoSuchImplication,
        Trouble::Rows(n) => e == Error::UnaffectedRows(1, n as usize),
        Trouble::InvalidTag(v) => e matches Error::InvalidName(k, f) && k
            == crate::errors::NameKind::Tag && f@ == v,
        Trouble::InvalidValue(v) => e matches Error::InvalidName(k, f) && k
            == crate::errors::NameKind::Value && f@ == v,
        Trouble::Exhausted => e == Error::IdentifiersExhausted,
        Trouble::Cycle => e == Error::ImplicationCycle,
        Trouble::Taken(n) => e matches Error::NameTaken(k, x) && k
            == crate::errors::NameKind::Tag && x@ == n,
    }
}

/// The node of a tag and a value that exist under these names.
pub open spec fn found_pair(tx: &Storage, named: &TagAndOptionalValue) -> Result<Node, Trouble> {
    match first_tag_named(tx.tags@, named.tag_name@) {
        None => Err(Trouble::NoTag(named.tag_name@)),
        Some(t) => match named.value_name {
            None => Ok(Node { tag: t.id.0, value: 0 }),
            Some(vn) => match first_value_named(tx.values@, vn@) {
                None => Err(Trouble::NoValue(vn@)),
                Some(v) => Ok(Node { tag: t.id.0, value: v.id.id() }),
            },
        },
    }
}

/// The numbers of a tag and a value that exist under these names.
pub fn convert_to_id_pair_no_create(tx: &Storage, tag_and_value: &TagAndOptionalValue) -> (r:
    Result<TagIdValueIdPair, Error>)
    ensures
        match found_pair(tx, tag_and_value) {
            Ok(n) => r is Ok && r->Ok_0.node() == n,
            Err(t) => r is Err && tells_trouble(r->Err_0, t),
        },
{
    let tag = match load_existing_tag(tx, tag_and_value.tag_name.as_str()) {
        Ok(t) => t,
        Err(e) => return Err(e),
    };
    let value = match &tag_and_value.value_name {
        None => None,
        Some(vn) => match load_existing_value(tx, vn.as_str()) {
            Ok(v) => Some(v),
            Err(e) => return Err(e),
        },
    };
    Ok(TagIdValueIdPair { tag_id: tag.id, value_id: OptionalValueId::from_opt_value(&value) })
}

/// The tags, the values and the implications of a store, each tag and
/// value as its number and its name.
pub struct Rows {
    pub tags: Seq<(u32, Seq<char>)>,
    pub values: Seq<(u32, Seq<char>)>,
    pub edges: Seq<Edge>,
}

pub open spec fn tag_rows(tags: Seq<Tag>) -> Seq<(u32, Seq<char>)> {
    tags.map_values(|t: Tag| (t.id.0, t.name@))
}

pub open spec fn value_rows(values: Seq<Value>) -> Seq<(u32, Seq<char>)> {
    values.map_values(|v: Value| (v.id.id(), v.name@))
}

/// The rows of a store.
pub open spec fn rows_of(tx: &Storage) -> Rows {
    Rows { tags: tag_rows(tx.tags@), values: value_rows(tx.values@), edges: tx.implications@ }
}

/// The number of the first row of that name.
pub open spec fn first_row(rows: Seq<(u32, Seq<char>)>, name: Seq<char>) -> Option<u32>
    decreases rows.len(),
{
    if rows.len() == 0 {
        None
    } else if rows[0].1 == name {
        Some(rows[0].0)
    } else {
        first_row(rows.drop_first(), name)
    }
}

/// The largest number among the rows, 0 where there is none.
pub open spec fn max_row(rows: Seq<(u32, Seq<char>)>) -> u32
    decreases rows.len(),
{
    if rows.len() == 0 {
        0
    } else {
        let m = max_row(rows.drop_last());
        if rows.last().0 > m {
            rows.last().0
        } else {
            m
        }
    }
}

pub proof fn lemma_tag_rows(tags: Seq<Tag>, name: Seq<char>)
    ensures
        first_row(tag_rows(tags), name) == match first_tag_named(tags, name) {
            Some(t) => Some(t.id.0),
            None => None,
        },
        max_row(tag_rows(tags)) == crate::storage::max_tag_id(tags),
    decreases tags.len(),
{
    if tags.len() > 0 {
        assert(tag_rows(tags).drop_first() =~= tag_rows(tags.drop_first()));
        assert(tag_rows(tags).drop_last() =~= tag_rows(tags.drop_last()));
        lemma_tag_rows(tags.drop_first(), name);
        lemma_tag_rows(tags.drop_last(), name);
    }
}

proof fn lemma_value_rows(values: Seq<Value>, name: Seq<char>)
    ensures
        name.len() > 0 ==> first_row(value_rows(values), name) == match first_value_named(
            values,
            name,
        ) {
            Some(v) => Some(v.id.id()),
            None => None,
        },
        name.len() == 0 ==> first_value_named(values, name) is None,
        max_row(value_rows(values)) == crate::storage::max_value_id(values),
    decreases values.len(),
{
    if values.len() > 0 {
        assert(value_rows(values).drop_first() =~= value_rows(values.drop_first()));
        assert(value_rows(values).drop_last() =~= value_rows(values.drop_last()));
        lemma_value_rows(values.drop_first(), name);
        lemma_value_rows(values.drop_last(), name);
    }
}

/// The rows after a tag of that name was looked for and, where there is
/// none and it is allowed, made under the next number; and the number of
/// the tag, or why there is none.
pub open spec fn tag_made(rows: Rows, name: Seq<char>, auto: bool) -> (Rows, Result<u32, Trouble>) {
    match first_row(rows.tags, name) {
        Some(id) => (rows, Ok(id)),
        None => if !auto {
            (rows, Err(Trouble::NoTag(name)))
        } else if !(crate::entities::name_verdict(name) is Valid) {
            (rows, Err(Trouble::InvalidTag(crate::entities::name_verdict(name))))
        } else if max_row(rows.tags) == u32::MAX {
            (rows, Err(Trouble::Exhausted))
        } else {
            let id = (max_row(rows.tags) + 1) as u32;
            (Rows { tags: rows.tags.push((id, name)), ..rows }, Ok(id))
        },
    }
}

/// The same for a value. The empty name is no value's.
pub open spec fn value_made(rows: Rows, name: Seq<char>, auto: bool) -> (
    Rows,
    Result<u32, Trouble>,
) {
    match (if name.len() == 0 {
        None
    } else {
        first_row(rows.values, name)
    }) {
        Some(id) => (rows, Ok(id)),
        None => if !auto {
            (rows, Err(Trouble::NoValue(name)))
        } else if !(crate::entities::name_verdict(name) is Valid) {
            (rows, Err(Trouble::InvalidValue(crate::entities::name_verdict(name))))
        } else if max_row(rows.values) == u32::MAX {
            (rows, Err(Trouble::Exhausted))
        } else {
            let id = (max_row(rows.values) + 1) as u32;
            (Rows { values: rows.values.push((id, name)), ..rows }, Ok(id))
        },
    }
}

/// The rows after the tag and the value of a pair were looked for or
/// made, the tag first; and the node of the pair, or why there is none.
pub open spec fn pair_made(rows: Rows, named: &TagAndOptionalValue, settings: &Settings) -> (
    Rows,
    Result<Node, Trouble>,
) {
    let (with_tag, tag) = tag_made(rows, named.tag_name@, settings.auto_create_tags);
    match tag {
        Err(t) => (with_tag, Err(t)),
        Ok(tag_id) => match named.value_name {
            None => (with_tag, Ok(Node { tag: tag_id, value: 0 })),
            Some(vn) => {
                let (with_value, value) = value_made(with_tag, vn@, settings.auto_create_values);
                match value {
                    Err(t) => (with_value, Err(t)),
                    Ok(value_id) => (with_value, Ok(Node { tag: tag_id, value: value_id })),
                }
            },
        },
    }
}

/// The numbers of a tag and a value under these names, which are made
/// where they do not exist and the settings allow it.
pub fn convert_to_id_pair_may_create(
    tx: &mut Storage,
    tag_and_value: &TagAndOptionalValue,
    settings: &Settings,
) -> (r: Result<TagIdValueIdPair, Error>)
    ensures
        same_but(old(tx), final(tx), true, true, false, false, false),
        rows_of(final(tx)) == pair_made(rows_of(old(tx)), tag_and_value, settings).0,
        match pair_made(rows_of(old(tx)), tag_and_value, settings).1 {
            Ok(n) => r is Ok && r->Ok_0.node() == n,
            Err(t) => r is Err && tells_trouble(r->Err_0, t),
        },
{
    proof {
        lemma_tag_rows(tx.tags@, tag_and_value.tag_name@);
    }
    let tag = match load_or_create_tag(tx, tag_and_value.tag_name.as_str(), settings) {
        Ok(t) => t,
        Err(e) => {
            assert(tag_rows(tx.tags@) =~= tag_rows(old(tx).tags@));
            return Err(e);
        },
    };
    proof {
        if first_tag_named(old(tx).tags@, tag_and_value.tag_name@) is None {
            assert(tag_rows(tx.tags@) =~= tag_rows(old(tx).tags@).push(
                (tag.id.0, tag_and_value.tag_name@),
            ));
        } else {
            assert(tag_rows(tx.tags@) =~= tag_rows(old(tx).tags@));
        }
    }
    let ghost middle = rows_of(tx);
    assert(middle == tag_made(
        rows_of(old(tx)),
        tag_and_value.tag_name@,
        settings.auto_create_tags,
    ).0);
    let value = match &tag_and_value.value_name {
        None => None,
        Some(vn) => {
            proof {
                lemma_value_rows(tx.values@, vn@);
            }
            let ghost before = tx.values@;
            match load_or_create_value(tx, vn.as_str(), settings) {
                Ok(v) => {
                    proof {
                        if first_value_named(before, vn@) is None {
                            assert(value_rows(tx.values@) =~= value_rows(before).push(
                                (v.id.id(), vn@),
                            ));
                        } else {
                            assert(value_rows(tx.values@) =~= value_rows(before));
                        }
                    }
                    Some(v)
                },
                Err(e) => {
                    assert(value_rows(tx.values@) =~= value_rows(before));
                    return Err(e);
                },
            }
        },
    };
    Ok(TagIdValueIdPair { tag_id: tag.id, value_id: OptionalValueId::from_opt_value(&value) })
}

/// Adds one implication unless it would close a cycle.
pub fn add_single_implication(
    tx: &mut Storage,
    implying_pair: &TagIdValueIdPair,
    implied_pair: &TagIdValueIdPair,
) -> (r: Result<(), Error>)
    ensures
        same_but(old(tx), final(tx), false, false, false, false, true),
        ({
            let e = Edge { implying: implying_pair.node(), implied: implied_pair.node() };
            if would_cycle(old(tx).implications@, e.implying, e.implied) {
                r == Err::<(), Error>(Error::ImplicationCycle) && final(tx).implications@ == old(
                    tx).implications@
            } else if old(tx).implications@.contains(e) {
                r is Ok && final(tx).implications@ == old(tx).implications@
            } else {
                r is Ok && final(tx).implications@ == old(tx).implications@.push(e)
            }
        }),
        acyclic(old(tx).implications@) ==> acyclic(final(tx).implications@),
{
    match check_for_implication_cycles(&tx.implications, implying_pair, implied_pair) {
        Err(e) => return Err(e),
        Ok(_) => {},
    }
    proof {
        if acyclic(tx.implications@) {
            lemma_add_keeps_acyclic(
                tx.implications@,
                Edge { implying: implying_pair.node(), implied: implied_pair.node() },
            );
        }
    }
    crate::storage::add_implication(tx, implying_pair, implied_pair);
    Ok(())
}

/// The rows after one implication was added unless it would close a
/// cycle or is there already.
pub open spec fn edge_added(rows: Rows, a: Node, b: Node) -> (Rows, Option<Trouble>) {
    let e = Edge { implying: a, implied: b };
    if would_cycle(rows.edges, a, b) {
        (rows, Some(Trouble::Cycle))
    } else if rows.edges.contains(e) {
        (rows, None)
    } else {
        (Rows { edges: rows.edges.push(e), ..rows }, None)
    }
}

/// The rows after the wanted implications from position `at` on were
/// added one after the other, and where and why that stopped. For each
/// the implying pair is looked for or made, then the implied pair, then
/// the implication is added unless it would close a cycle.
pub open spec fn implications_added(
    rows: Rows,
    wanted: Seq<Implication>,
    settings: &Settings,
    at: int,
) -> (Rows, Option<(int, Trouble)>)
    decreases wanted.len() - at,
{
    if at < 0 || at >= wanted.len() {
        (rows, None)
    } else {
        let (first, implying) = pair_made(rows, &wanted[at].implying, settings);
        match implying {
            Err(t) => (first, Some((at, t))),
            Ok(a) => {
                let (second, implied) = pair_made(first, &wanted[at].implied, settings);
                match implied {
                    Err(t) => (second, Some((at, t))),
                    Ok(b) => {
                        let (third, trouble) = edge_added(second, a, b);
                        match trouble {
                            Some(t) => (third, Some((at, t))),
                            None => implications_added(third, wanted, settings, at + 1),
                        }
                    },
                }
            },
        }
    }
}

/// Adds the implications one after the other, making tags and values
/// where the settings allow it. Stops at the first that cannot be added.
pub fn add_implications(tx: &mut Storage, implications: &Vec<Implication>, settings: &Settings) -> (r:
    Result<(), Error>)
    ensures
        same_but(old(tx), final(tx), true, true, false, false, true),
        acyclic(old(tx).implications@) ==> acyclic(final(tx).implications@),
        ({
            let out = implications_added(rows_of(old(tx)), implications@, settings, 0);
            &&& rows_of(final(tx)) == out.0
            &&& match out.1 {
                None => r is Ok,
                Some((_, t)) => r is Err && tells_trouble(r->Err_0, t),
            }
        }),
{
    let mut i: usize = 0;
    while i < implications.len()
        invariant
            i <= implications.len(),
            same_but(old(tx), tx, true, true, false, false, true),
            acyclic(old(tx).implications@) ==> acyclic(tx.implications@),
            implications_added(rows_of(old(tx)), implications@, settings, 0) == implications_added(
                rows_of(tx),
                implications@,
                settings,
                i as int,
            ),
        decreases implications.len() - i,
    {
        let implying_pair = match convert_to_id_pair_may_create(
            tx,
            &implications[i].implying,
            settings,
        ) {
            Ok(p) => p,
            Err(e) => return Err(e),
        };
        let implied_pair = match convert_to_id_pair_may_create(
            tx,
            &implications[i].implied,
            settings,
        ) {
            Ok(p) => p,
            Err(e) => return Err(e),
        };
        let ghost before = rows_of(tx);
        match add_single_implication(tx, &implying_pair, &implied_pair) {
            Ok(_) => {},
            Err(e) => {
                assert(rows_of(tx) == edge_added(
                    before,
                    implying_pair.node(),
                    implied_pair.node(),
                ).0);
                return Err(e);
            },
        }
        assert(rows_of(tx) == edge_added(before, implying_pair.node(), implied_pair.node()).0);
        i += 1;
    }
    Ok(())
}

/// The implications that are left when the wanted ones from position
/// `at` on are removed one after the other, and where and why that
/// stopped: at the first whose names are unknown, and behind the first
/// that the store does not hold exactly once.
pub open spec fn implications_deleted(
    tx: &Storage,
    edges: Seq<Edge>,
    wanted: Seq<Implication>,
    at: int,
) -> (Seq<Edge>, Option<(int, Trouble)>)
    decreases wanted.len() - at,
{
    if at < 0 || at >= wanted.len() {
        (edges, None)
    } else {
        match (found_pair(tx, &wanted[at].implying), found_pair(tx, &wanted[at].implied)) {
            (Err(t), _) => (edges, Some((at, t))),
            (Ok(_), Err(t)) => (edges, Some((at, t))),
            (Ok(a), Ok(b)) => {
                let kept = edges.filter(
                    crate::storage::edge_pred(
                        crate::storage::EdgeKey::Exactly(Edge { implying: a, implied: b }),
                        false,
                    ),
                );
                let gone = edges.len() - kept.len();
                if gone == 1 {
                    implications_deleted(tx, kept, wanted, at + 1)
                } else if gone == 0 {
                    (kept, Some((at, Trouble::NoImplication)))
                } else {
                    (kept, Some((at, Trouble::Rows(gone))))
                }
            },
        }
    }
}

/// Removes the implications one after the other. Stops at the first
/// whose names are unknown, and behind the first that the store does not
/// hold exactly once.
pub fn delete_implications(tx: &mut Storage, implications: &Vec<Implication>) -> (r: Result<
    (),
    Error,
>)
    ensures
        same_but(old(tx), final(tx), false, false, false, false, true),
        ({
            let out = implications_deleted(old(tx), old(tx).implications@, implications@, 0);
            &&& final(tx).implications@ == out.0
            &&& match out.1 {
                None => r is Ok,
                Some((_, t)) => r is Err && tells_trouble(r->Err_0, t),
            }
        }),
{
    let mut i: usize = 0;
    while i < implications.len()
        invariant
            i <= implications.len(),
            same_but(old(tx), tx, false, false, false, false, true),
            implications_deleted(old(tx), old(tx).implications@, implications@, 0)
                == implications_deleted(old(tx), tx.implications@, implications@, i as int),
        decreases implications.len() - i,
    {
        assert(found_pair(tx, &implications@[i as int].implying) == found_pair(
            old(tx),
            &implications@[i as int].implying,
        ));
        assert(found_pair(tx, &implications@[i as int].implied) == found_pair(
            old(tx),
            &implications@[i as int].implied,
        ));
        let implying_pair = match convert_to_id_pair_no_create(tx, &implications[i].implying) {
            Ok(p) => p,
            Err(e) => return Err(e),
        };
        let implied_pair = match convert_to_id_pair_no_create(tx, &implications[i].implied) {
            Ok(p) => p,
            Err(e) => return Err(e),
        };
        match crate::storage::delete_implication(tx, &implying_pair, &implied_pair) {
            Ok(_) => {},
            Err(e) => return Err(e),
        }
        i += 1;
    }
    Ok(())
}

} // verus!
