//! Listing tags: all of them, by value, and by file.

use vstd::prelude::*;
use crate::api::imply::{first_tag_with, first_value_with, tag_by_id, value_by_id};
use crate::api::load_existing_value;
use crate::api::repair::{add_implied_file_tags, file_by_path};
use crate::entities::{FileId, FileTag, Tag, TagFileCount, TagId, ValueId};
use crate::implication::{closure, Edge, Node};
use crate::storage::FileTagRow;
use crate::errors::Error;
use crate::path::ScopedPath;
use crate::query::names_of;
use crate::storage::{as_file_tags, file_tags_by_file_id, file_tags_by_value_id, row_pred, RowKey, Storage};
use crate::text::{chars_of, same_text};
use crate::path::texts;
use crate::tree::{ascending, lemma_insert_keeps_ascending, place_for, sorted_names};

verus! {

pub struct ValueTagGroup {
    pub value_name: Option<String>,
    pub tag_names: Vec<String>,
}

pub struct FileTagGroup {
    pub path: String,
    pub tags: Vec<TagData>,
}

#[derive(Debug, Clone, PartialEq, Eq)]
pub struct TagData {
    pub tag_name: String,
    pub value_name: Option<String>,
    pub explicit: bool,
    pub implicit: bool,
}

/// The names of the tags.
pub open spec fn tag_names(tags: Seq<Tag>) -> Seq<Seq<char>> {
    tags.map_values(|t: Tag| t.name@)
}

/// All tags in one group, in ascending order of their names.
pub fn list_all_tags(tx: &Storage) -> (r: Vec<ValueTagGroup>)
    ensures
        r@.len() == 1,
        r@[0].value_name is None,
        ascending(names_of(r@[0].tag_names@)),
        r@[0].tag_names@.len() == tx.tags@.len(),
        forall|t: Seq<char>|
            names_of(r@[0].tag_names@).contains(t) <==> tag_names(tx.tags@).contains(t),
{
    let mut names: Vec<String> = Vec::new();
    let mut i: usize = 0;
    assert(names_of(names@) =~= tag_names(tx.tags@).subrange(0, 0));
    while i < tx.tags.len()
        invariant
            i <= tx.tags.len(),
            names_of(names@) == tag_names(tx.tags@).subrange(0, i as int),
        decreases tx.tags.len() - i,
    {
        let ghost before = names_of(names@);
        let one = tx.tags[i].name.clone();
        assert(tag_names(tx.tags@)[i as int] == one@);
        names.push(one);
        assert(names_of(names@) =~= before.push(one@));
        i += 1;
        assert(names_of(names@) =~= tag_names(tx.tags@).subrange(0, i as int));
    }
    assert(tag_names(tx.tags@).subrange(0, tx.tags@.len() as int) =~= tag_names(tx.tags@));
    let mut out: Vec<ValueTagGroup> = Vec::new();
    out.push(ValueTagGroup { value_name: None, tag_names: sorted_names(&names) });
    out
}

fn holds_name(names: &Vec<String>, name: &str) -> (r: bool)
    ensures
        r == names_of(names@).contains(name@),
{
    let mut i: usize = 0;
    while i < names.len()
        invariant
            i <= names.len(),
            forall|j: int| 0 <= j < i ==> names_of(names@)[j] != name@,
        decreases names.len() - i,
    {
        if same_text(names[i].as_str(), name) {
            assert(names_of(names@)[i as int] == name@);
            return true;
        }
        i += 1;
    }
    false
}

/// The names of the tags that stand with a value on some file, each
/// once, in ascending order. Fails where a file tag names a tag that
/// the store does not have.
pub fn tag_names_by_value_id(tx: &Storage, value_id: &ValueId) -> (r: Result<Vec<String>, Error>)
    ensures
        match r {
            Ok(names) => {
                let rows = tx.file_tags@.filter(row_pred(RowKey::OfValue(value_id.id()), true));
                &&& ascending(names_of(names@))
                &&& names_of(names@).no_duplicates()
                &&& forall|i: int|
                    0 <= i < rows.len() ==> first_tag_with(tx.tags@, (#[trigger] rows[i]).tag)
                        is Some && names_of(names@).contains(
                        first_tag_with(tx.tags@, rows[i].tag)->0.name@,
                    )
                &&& forall|t: Seq<char>|
                    names_of(names@).contains(t) ==> exists|i: int|
                        0 <= i < rows.len() && first_tag_with(tx.tags@, (#[trigger] rows[i]).tag)
                            is Some && first_tag_with(tx.tags@, rows[i].tag)->0.name@ == t
            },
            Err(e) => {
                let rows = tx.file_tags@.filter(row_pred(RowKey::OfValue(value_id.id()), true));
                exists|i: int|
                    0 <= i < rows.len() && first_tag_with(tx.tags@, (#[trigger] rows[i]).tag)
                        is None && e == Error::UnknownTagId(rows[i].tag)
            },
        },
{
    let rows = file_tags_by_value_id(tx, value_id);
    let mut names: Vec<String> = Vec::new();
    let mut i: usize = 0;
    while i < rows.len()
        invariant
            i <= rows.len(),
            rows@ == tx.file_tags@.filter(row_pred(RowKey::OfValue(value_id.id()), true)),
            names_of(names@).no_duplicates(),
            forall|k: int|
                0 <= k < i ==> first_tag_with(tx.tags@, (#[trigger] rows@[k]).tag) is Some
                    && names_of(names@).contains(first_tag_with(tx.tags@, rows@[k].tag)->0.name@),
            forall|t: Seq<char>|
                names_of(names@).contains(t) ==> exists|k: int|
                    0 <= k < i && first_tag_with(tx.tags@, (#[trigger] rows@[k]).tag) is Some
                        && first_tag_with(tx.tags@, rows@[k].tag)->0.name@ == t,
        decreases rows.len() - i,
    {
        let tag = match tag_by_id(tx, &TagId(rows[i].tag)) {
            Some(t) => t,
            None => return Err(Error::UnknownTagId(rows[i].tag)),
        };
        let ghost was = names_of(names@);
        if !holds_name(&names, tag.name.as_str()) {
            names.push(tag.name);
            assert(names_of(names@) =~= was.push(tag.name@));
        }
        proof {
            let now = names_of(names@);
            assert forall|k: int| 0 <= k < i + 1 implies first_tag_with(
                tx.tags@,
                (#[trigger] rows@[k]).tag,
            ) is Some && now.contains(first_tag_with(tx.tags@, rows@[k].tag)->0.name@) by {
                if k < i {
                    let t = first_tag_with(tx.tags@, rows@[k].tag)->0.name@;
                    let w = choose|w: int| 0 <= w < was.len() && was[w] == t;
                    assert(now[w] == t);
                } else {
                    if was.contains(tag.name@) {
                    } else {
                        assert(now[was.len() as int] == tag.name@);
                    }
                }
            }
            assert forall|t: Seq<char>| now.contains(t) implies exists|k: int|
                0 <= k < i + 1 && first_tag_with(tx.tags@, (#[trigger] rows@[k]).tag) is Some
                    && first_tag_with(tx.tags@, rows@[k].tag)->0.name@ == t by {
                let w = choose|w: int| 0 <= w < now.len() && now[w] == t;
                if w < was.len() {
                    assert(was[w] == t);
                    assert(was.contains(t));
                } else {
                    assert(first_tag_with(tx.tags@, rows@[i as int].tag)->0.name@ == t);
                }
            }
        }
        i += 1;
    }
    let out = sorted_names(&names);
    proof {
        lemma_same_texts_no_duplicates(names_of(names@), names_of(out@));
    }
    Ok(out)
}

/// A list as long as one without repetitions that holds all of its
/// texts has none either.
pub proof fn lemma_same_texts_no_duplicates(a: Seq<Seq<char>>, b: Seq<Seq<char>>)
    requires
        a.no_duplicates(),
        a.len() == b.len(),
        forall|t: Seq<char>| b.contains(t) <==> a.contains(t),
    ensures
        b.no_duplicates(),
{
    vstd::seq_lib::seq_to_set_is_finite(a);
    vstd::seq_lib::seq_to_set_is_finite(b);
    a.unique_seq_to_set();
    assert(a.to_set() =~= b.to_set());
    b.lemma_cardinality_of_set();
    if !b.no_duplicates() {
        b.lemma_no_dup_set_cardinality();
    }
}

/// The tags by value: all tags in one group where no value is named,
/// else one group for each value with the tags that stand with it.
pub fn list_tags_for_values(tx: &Storage, value_names: &Vec<String>) -> (r: Result<
    Vec<ValueTagGroup>,
    Error,
>)
    ensures
        value_names@.len() == 0 ==> r is Ok && r->Ok_0@.len() == 1 && r->Ok_0@[0].value_name
            is None,
        value_names@.len() > 0 && r is Ok ==> r->Ok_0@.len() == value_names@.len() && forall|
            i: int,
        |
            0 <= i < value_names@.len() ==> (#[trigger] r->Ok_0@[i]).value_name is Some
                && r->Ok_0@[i].value_name->0@ == value_names@[i]@ && ascending(
                names_of(r->Ok_0@[i].tag_names@),
            ),
{
    if value_names.len() == 0 {
        return Ok(list_all_tags(tx));
    }
    let mut groups: Vec<ValueTagGroup> = Vec::new();
    let mut i: usize = 0;
    while i < value_names.len()
        invariant
            i <= value_names.len(),
            groups@.len() == i,
            forall|k: int|
                0 <= k < i ==> (#[trigger] groups@[k]).value_name is Some
                    && groups@[k].value_name->0@ == value_names@[k]@ && ascending(
                    names_of(groups@[k].tag_names@),
                ),
        decreases value_names.len() - i,
    {
        let value = match load_existing_value(tx, value_names[i].as_str()) {
            Ok(v) => v,
            Err(e) => return Err(e),
        };
        let tag_names = match tag_names_by_value_id(tx, &value.id) {
            Ok(n) => n,
            Err(e) => return Err(e),
        };
        groups.push(ValueTagGroup { value_name: Some(value_names[i].clone()), tag_names });
        i += 1;
    }
    Ok(groups)
}

/// The names of the tags of a list of tag data.
pub open spec fn data_names(data: Seq<TagData>) -> Seq<Seq<char>> {
    data.map_values(|d: TagData| d.tag_name@)
}

/// What a file tag says of its file: a tag, a value or 0, and whether
/// it is explicit and implicit.
pub struct Mark {
    pub tag: u32,
    pub value: u32,
    pub explicit: bool,
    pub implicit: bool,
}

/// The mark of a file tag.
pub open spec fn mark_of(ft: FileTag) -> Mark {
    Mark {
        tag: ft.tag_id.0,
        value: ft.value_id.raw(),
        explicit: ft.explicit,
        implicit: ft.implicit,
    }
}

/// The marks of file tags.
pub open spec fn marks_of(fts: Seq<FileTag>) -> Seq<Mark> {
    fts.map_values(|ft: FileTag| mark_of(ft))
}

/// The marks of the rows of the store: each explicit and not implicit.
pub open spec fn explicit_marks(rows: Seq<FileTagRow>) -> Seq<Mark> {
    rows.map_values(
        |r: FileTagRow| Mark { tag: r.tag, value: r.value, explicit: true, implicit: false },
    )
}

/// The pair of a mark.
pub open spec fn mark_node(m: Mark) -> Node {
    Node { tag: m.tag, value: m.value }
}

/// The pairs of marks.
pub open spec fn mark_nodes(marks: Seq<Mark>) -> Seq<Node> {
    marks.map_values(|m: Mark| mark_node(m))
}

/// Whether an implication that follows from the pairs leads to `n`.
pub open spec fn implied_from(edges: Seq<Edge>, nodes: Seq<Node>, n: Node) -> bool {
    exists|e: Edge| #[trigger] closure(edges, nodes.to_set()).contains(e) && e.implied == n
}

/// Whether no mark before the one at `i` has its pair.
pub open spec fn first_mark(marks: Seq<Mark>, i: int) -> bool {
    forall|x: int| 0 <= x < i ==> mark_node(#[trigger] marks[x]) != mark_node(marks[i])
}

/// Whether `all` are the given marks with those that the implications
/// add. The given marks come first, each as it is, but implicit where
/// the given marks imply its pair; of given marks with one pair only
/// the first is marked so. Behind them comes, implicit only and once,
/// every pair that the given marks imply and that none of them has.
pub open spec fn with_implied(edges: Seq<Edge>, given: Seq<Mark>, all: Seq<Mark>) -> bool {
    &&& all.len() >= given.len()
    &&& forall|i: int|
        0 <= i < given.len() ==> #[trigger] all[i] == Mark {
            implicit: given[i].implicit || (first_mark(given, i) && implied_from(
                edges,
                mark_nodes(given),
                mark_node(given[i]),
            )),
            ..given[i]
        }
    &&& forall|i: int|
        given.len() <= i < all.len() ==> !(#[trigger] all[i]).explicit && all[i].implicit
            && implied_from(edges, mark_nodes(given), mark_node(all[i])) && first_mark(all, i)
    &&& forall|n: Node| #[trigger]
        implied_from(edges, mark_nodes(given), n) ==> exists|i: int|
            0 <= i < all.len() && mark_node(#[trigger] all[i]) == n
}

/// A tag of a file by name, as mathematics.
pub struct DataView {
    pub tag_name: Seq<char>,
    pub value_name: Option<Seq<char>>,
    pub explicit: bool,
    pub implicit: bool,
}

impl View for TagData {
    type V = DataView;

    open spec fn view(&self) -> DataView {
        DataView {
            tag_name: self.tag_name@,
            value_name: match self.value_name {
                Some(v) => Some(v@),
                None => None,
            },
            explicit: self.explicit,
            implicit: self.implicit,
        }
    }
}

/// A list of tag data as mathematics.
pub open spec fn data_views(data: Seq<TagData>) -> Seq<DataView> {
    data.map_values(|d: TagData| d@)
}

/// The tag names of a list of tag data.
pub open spec fn view_names(data: Seq<DataView>) -> Seq<Seq<char>> {
    data.map_values(|d: DataView| d.tag_name)
}

/// The first `upto` marks by the names of their tags and values, each
/// put behind those whose tag name comes before its own or equals it.
/// There is an error at the first mark whose tag the store does not
/// have, or, where it has the tag, whose value it does not have.
pub open spec fn named_marks(tx: &Storage, marks: Seq<Mark>, upto: int) -> Result<
    Seq<DataView>,
    Error,
>
    decreases upto,
{
    if upto <= 0 {
        Ok(seq![])
    } else {
        match named_marks(tx, marks, upto - 1) {
            Err(e) => Err(e),
            Ok(data) => {
                let m = marks[upto - 1];
                match first_tag_with(tx.tags@, m.tag) {
                    None => Err(Error::UnknownTagId(m.tag)),
                    Some(t) => if m.value == 0 {
                        Ok(
                            data.insert(
                                crate::tree::slot(view_names(data), t.name@, 0),
                                DataView {
                                    tag_name: t.name@,
                                    value_name: None,
                                    explicit: m.explicit,
                                    implicit: m.implicit,
                                },
                            ),
                        )
                    } else {
                        match first_value_with(tx.values@, m.value) {
                            None => Err(Error::UnknownValueId(m.value)),
                            Some(v) => Ok(
                                data.insert(
                                    crate::tree::slot(view_names(data), t.name@, 0),
                                    DataView {
                                        tag_name: t.name@,
                                        value_name: Some(v.name@),
                                        explicit: m.explicit,
                                        implicit: m.implicit,
                                    },
                                ),
                            ),
                        }
                    },
                }
            },
        }
    }
}

/// An error at one mark is the error of every longer list of marks.
pub proof fn lemma_named_marks_fail(tx: &Storage, marks: Seq<Mark>, at: int, upto: int)
    requires
        0 <= at <= upto,
        named_marks(tx, marks, at) is Err,
    ensures
        named_marks(tx, marks, upto) == named_marks(tx, marks, at),
    decreases upto,
{
    if at < upto {
        lemma_named_marks_fail(tx, marks, at, upto - 1);
    }
}

/// Whether `res` is what the tags of a file are by name: those of its
/// rows where only the explicit ones are asked for, else those of its
/// rows with the ones that the implications add.
pub open spec fn tag_data_of(
    tx: &Storage,
    file: u32,
    explicit_only: bool,
    res: Result<Seq<DataView>, Error>,
) -> bool {
    let given = explicit_marks(tx.file_tags@.filter(row_pred(RowKey::OfFile(file), true)));
    if explicit_only {
        res == named_marks(tx, given, given.len() as int)
    } else {
        exists|all: Seq<Mark>|
            with_implied(tx.implications@, given, all) && res == #[trigger] named_marks(
                tx,
                all,
                all.len() as int,
            )
    }
}

/// A result by the views of what it holds.
pub open spec fn data_outcome(r: Result<Vec<TagData>, Error>) -> Result<Seq<DataView>, Error> {
    match r {
        Ok(data) => Ok(data_views(data@)),
        Err(e) => Err(e),
    }
}

/// The tags of a file by name, with the implied ones unless only the
/// explicit ones are asked for, in ascending order of the tags' names.
pub fn tag_data_by_file_id(tx: &Storage, file_id: &FileId, explicit_only: bool) -> (r: Result<
    Vec<TagData>,
    Error,
>)
    ensures
        tag_data_of(tx, file_id.0, explicit_only, data_outcome(r)),
        r is Ok ==> ascending(data_names(r->Ok_0@)),
        r is Ok && explicit_only ==> r->Ok_0@.len() == tx.file_tags@.filter(
            row_pred(RowKey::OfFile(file_id.0), true),
        ).len() && forall|i: int|
            0 <= i < r->Ok_0@.len() ==> (#[trigger] r->Ok_0@[i]).explicit && !r->Ok_0@[i].implicit,
{
    let rows = file_tags_by_file_id(tx, file_id);
    let mut file_tags = as_file_tags(&rows);
    let ghost given = file_tags@;
    let ghost given_marks = explicit_marks(rows@);
    assert(marks_of(given) =~= given_marks) by {
        assert forall|i: int| 0 <= i < given.len() implies marks_of(given)[i]
            == given_marks[i] by {
            assert(given[i].row() == rows@[i]);
        }
    }
    if !explicit_only {
        file_tags = add_implied_file_tags(&tx.implications, file_tags);
        proof {
            lemma_with_implied(tx.implications@, given, file_tags@);
        }
    }
    let ghost marks = marks_of(file_tags@);
    proof {
        if !explicit_only {
            assert(with_implied(tx.implications@, given_marks, marks));
        }
    }
    let mut keys: Vec<Vec<char>> = Vec::new();
    let mut data: Vec<TagData> = Vec::new();
    let mut i: usize = 0;
    assert(data_names(data@) =~= texts(keys@));
    assert(data_views(data@) =~= Seq::<DataView>::empty());
    assert(view_names(data_views(data@)) =~= texts(keys@));
    while i < file_tags.len()
        invariant
            i <= file_tags.len(),
            data@.len() == i,
            marks == marks_of(file_tags@),
            given_marks == explicit_marks(
                tx.file_tags@.filter(row_pred(RowKey::OfFile(file_id.0), true)),
            ),
            explicit_only ==> marks == given_marks,
            !explicit_only ==> with_implied(tx.implications@, given_marks, marks),
            named_marks(tx, marks, i as int) == Ok::<Seq<DataView>, Error>(data_views(data@)),
            view_names(data_views(data@)) == texts(keys@),
            data_names(data@) == texts(keys@),
            ascending(texts(keys@)),
            explicit_only ==> forall|k: int|
                0 <= k < file_tags@.len() ==> (#[trigger] file_tags@[k]).explicit
                    && !file_tags@[k].implicit,
            explicit_only ==> forall|k: int|
                0 <= k < data@.len() ==> (#[trigger] data@[k]).explicit && !data@[k].implicit,
        decreases file_tags.len() - i,
    {
        let ft = file_tags[i];
        assert(marks[i as int] == mark_of(ft));
        let tag = match tag_by_id(tx, &ft.tag_id) {
            Some(t) => t,
            None => {
                proof {
                    lemma_named_marks_fail(tx, marks, i + 1, marks.len() as int);
                }
                return Err(Error::UnknownTagId(ft.tag_id.0));
            },
        };
        let value_name = match ft.value_id.get() {
            None => None,
            Some(id) => match value_by_id(tx, *id.as_u32()) {
                Some(v) => Some(v.name),
                None => {
                    proof {
                        lemma_named_marks_fail(tx, marks, i + 1, marks.len() as int);
                    }
                    return Err(Error::UnknownValueId(*id.as_u32()));
                },
            },
        };
        let key = chars_of(tag.name.as_str());
        let p = place_for(&keys, &key);
        let ghost was = texts(keys@);
        let ghost old_data = data@;
        let ghost old_views = data_views(data@);
        proof {
            lemma_insert_keeps_ascending(was, p as int, key@);
        }
        keys.insert(p, key);
        let one = TagData {
            tag_name: tag.name,
            value_name,
            explicit: ft.explicit,
            implicit: ft.implicit,
        };
        let ghost one_view = one@;
        data.insert(p, one);
        assert(texts(keys@) =~= was.insert(p as int, key@));
        assert(data_names(data@) =~= texts(keys@));
        assert(data_views(data@) =~= old_views.insert(p as int, one_view));
        assert(view_names(data_views(data@)) =~= texts(keys@));
        proof {
            if explicit_only {
                assert forall|k: int| 0 <= k < data@.len() implies (#[trigger] data@[k]).explicit
                    && !data@[k].implicit by {
                    if k < p {
                        assert(data@[k] == old_data[k]);
                    } else if k > p {
                        assert(data@[k] == old_data[k - 1]);
                    } else {
                        assert(file_tags@[i as int].explicit);
                    }
                }
            }
        }
        i += 1;
    }
    assert(marks.len() == file_tags@.len());
    Ok(data)
}

/// What adding the implied file tags promises, said of marks.
proof fn lemma_with_implied(edges: Seq<Edge>, given: Seq<FileTag>, all: Seq<FileTag>)
    requires
        all.len() >= given.len(),
        forall|i: int|
            0 <= i < given.len() ==> {
                let a = #[trigger] all[i];
                let f = given[i];
                &&& a.file_id == f.file_id
                &&& a.tag_id == f.tag_id
                &&& a.value_id == f.value_id
                &&& a.explicit == f.explicit
                &&& a.implicit == (f.implicit || (crate::api::repair::is_first(given, i)
                    && crate::api::repair::implied_by(
                    edges,
                    given,
                    crate::api::repair::pair_of(f),
                )))
            },
        forall|i: int|
            given.len() <= i < all.len() ==> {
                let a = #[trigger] all[i];
                &&& !a.explicit
                &&& a.implicit
                &&& crate::api::repair::implied_by(edges, given, crate::api::repair::pair_of(a))
            },
        forall|n: Node| #[trigger]
            crate::api::repair::implied_by(edges, given, n) ==> crate::api::repair::covered(
                all,
                n,
            ),
        forall|i: int|
            given.len() <= i < all.len() ==> #[trigger] crate::api::repair::is_first(all, i),
    ensures
        with_implied(edges, marks_of(given), marks_of(all)),
{
    let gm = marks_of(given);
    let am = marks_of(all);
    assert(mark_nodes(gm) =~= crate::api::repair::pairs_of(given));
    assert forall|n: Node| implied_from(edges, mark_nodes(gm), n)
        == crate::api::repair::implied_by(edges, given, n) by {}
    assert forall|i: int| 0 <= i < given.len() implies first_mark(gm, i)
        == crate::api::repair::is_first(given, i) by {
        if crate::api::repair::is_first(given, i) {
            assert forall|x: int| 0 <= x < i implies mark_node(#[trigger] gm[x]) != mark_node(
                gm[i],
            ) by {
                assert(crate::api::repair::pair_of(given[x]) != crate::api::repair::pair_of(
                    given[i],
                ));
            }
        } else {
            let x = choose|x: int|
                0 <= x < i && crate::api::repair::pair_of(#[trigger] given[x])
                    == crate::api::repair::pair_of(given[i]);
            assert(mark_node(gm[x]) == mark_node(gm[i]));
        }
    }
    assert forall|i: int| 0 <= i < gm.len() implies #[trigger] am[i] == (Mark {
        implicit: gm[i].implicit || (first_mark(gm, i) && implied_from(
            edges,
            mark_nodes(gm),
            mark_node(gm[i]),
        )),
        ..gm[i]
    }) by {
        let a = all[i];
        assert(a.tag_id == given[i].tag_id);
    }
    assert forall|i: int| gm.len() <= i < am.len() implies !(#[trigger] am[i]).explicit
        && am[i].implicit && implied_from(edges, mark_nodes(gm), mark_node(am[i])) && first_mark(
        am,
        i,
    ) by {
        let a = all[i];
        assert(!a.explicit);
        assert(crate::api::repair::is_first(all, i));
        assert forall|x: int| 0 <= x < i implies mark_node(#[trigger] am[x]) != mark_node(
            am[i],
        ) by {
            assert(crate::api::repair::pair_of(all[x]) != crate::api::repair::pair_of(all[i]));
        }
    }
    assert forall|n: Node| #[trigger] implied_from(edges, mark_nodes(gm), n) implies exists|i: int|
        0 <= i < am.len() && mark_node(#[trigger] am[i]) == n by {
        assert(crate::api::repair::implied_by(edges, given, n));
        assert(crate::api::repair::covered(all, n));
        let i = choose|i: int|
            0 <= i < all.len() && crate::api::repair::pair_of(#[trigger] all[i]) == n;
        assert(mark_node(am[i]) == n);
    }
}

/// A path as it was given and as the store sees it.
pub struct GivenPath {
    pub given: String,
    pub scoped: ScopedPath,
}

/// A list of groups as mathematics: each the path as it was given and
/// the tags by name.
pub open spec fn group_views(groups: Seq<FileTagGroup>) -> Seq<(Seq<char>, Seq<DataView>)> {
    groups.map_values(|g: FileTagGroup| (g.path@, data_views(g.tags@)))
}

/// The file that the store has for a path.
pub open spec fn file_at(tx: &Storage, path: GivenPath) -> Option<crate::entities::File> {
    crate::api::repair::first_file_at(
        tx.files@,
        crate::path::dir_of(path.scoped.inner@),
        crate::path::name_of(path.scoped.inner@),
    )
}

/// Whether the groups are those of the first `upto` paths: one group,
/// in the order of the paths, for each path that the store has a file
/// for, with the path as it was given and the file's tags by name.
pub open spec fn groups_of(
    tx: &Storage,
    paths: Seq<GivenPath>,
    explicit_only: bool,
    groups: Seq<(Seq<char>, Seq<DataView>)>,
    upto: int,
) -> bool
    decreases upto,
{
    if upto <= 0 {
        groups.len() == 0
    } else {
        match file_at(tx, paths[upto - 1]) {
            None => groups_of(tx, paths, explicit_only, groups, upto - 1),
            Some(f) => groups.len() > 0 && groups.last().0 == paths[upto - 1].given@
                && tag_data_of(tx, f.id.0, explicit_only, Ok(groups.last().1)) && groups_of(
                tx,
                paths,
                explicit_only,
                groups.drop_last(),
                upto - 1,
            ),
        }
    }
}

/// Whether `e` is the error of the first path whose file's tags cannot
/// be named: the paths before it have their groups, and naming the tags
/// of its file gives `e`.
pub open spec fn groups_fail(
    tx: &Storage,
    paths: Seq<GivenPath>,
    explicit_only: bool,
    e: Error,
) -> bool {
    exists|k: int, groups: Seq<(Seq<char>, Seq<DataView>)>|
        0 <= k < paths.len() && #[trigger] groups_of(tx, paths, explicit_only, groups, k)
            && file_at(tx, paths[k]) is Some && tag_data_of(
            tx,
            file_at(tx, paths[k])->0.id.0,
            explicit_only,
            Err(e),
        )
}

/// The tags of each of the paths that the store has a file for, under
/// the path as it was given.
pub fn list_tags_for_paths(tx: &Storage, paths: &Vec<GivenPath>, explicit_only: bool) -> (r: Result<
    Vec<FileTagGroup>,
    Error,
>)
    ensures
        match r {
            Ok(groups) => groups_of(
                tx,
                paths@,
                explicit_only,
                group_views(groups@),
                paths@.len() as int,
            ),
            Err(e) => groups_fail(tx, paths@, explicit_only, e),
        },
        r is Ok ==> r->Ok_0@.len() <= paths@.len() && forall|i: int|
            0 <= i < r->Ok_0@.len() ==> ascending(data_names((#[trigger] r->Ok_0@[i]).tags@)),
        paths@.len() == 0 ==> r is Ok,
{
    let mut groups: Vec<FileTagGroup> = Vec::new();
    let mut i: usize = 0;
    assert(group_views(groups@).len() == 0);
    while i < paths.len()
        invariant
            i <= paths.len(),
            groups@.len() <= i,
            groups_of(tx, paths@, explicit_only, group_views(groups@), i as int),
            forall|k: int|
                0 <= k < groups@.len() ==> ascending(data_names((#[trigger] groups@[k]).tags@)),
        decreases paths.len() - i,
    {
        match file_by_path(tx, &paths[i].scoped) {
            Some(file) => {
                let tags = match tag_data_by_file_id(tx, &file.id, explicit_only) {
                    Ok(t) => t,
                    Err(e) => {
                        assert(groups_fail(tx, paths@, explicit_only, e));
                        return Err(e);
                    },
                };
                let ghost before = group_views(groups@);
                let ghost shown = data_views(tags@);
                groups.push(FileTagGroup { path: paths[i].given.clone(), tags });
                proof {
                    let now = group_views(groups@);
                    assert(now.last() == (paths@[i as int].given@, shown));
                    assert(now.drop_last() =~= before);
                }
            },
            None => {},
        }
        i += 1;
    }
    Ok(groups)
}

/// How many rows have the tag.
pub open spec fn usage_of(tx: &Storage, tag: u32) -> nat {
    tx.file_tags@.filter(row_pred(RowKey::OfTag(tag), true)).len()
}

/// The names of a list of counts.
pub open spec fn count_names(counts: Seq<TagFileCount>) -> Seq<Seq<char>> {
    counts.map_values(|c: TagFileCount| c.name@)
}

/// Whether a tag of the table stands behind a count.
pub open spec fn counted(tx: &Storage, c: TagFileCount) -> bool {
    exists|i: int|
        0 <= i < tx.tags@.len() && (#[trigger] tx.tags@[i]).id == c.id && tx.tags@[i].name@
            == c.name@ && usage_of(tx, c.id.0) == c.file_count && c.file_count > 0
}

/// For each tag that stands on a file the number of its file tags, in
/// ascending order of the tags' names. A tag with more file tags than a
/// count can hold is given the largest count.
pub fn tag_usage(tx: &Storage) -> (r: Vec<TagFileCount>)
    ensures
        ascending(count_names(r@)),
        forall|k: int| 0 <= k < r@.len() ==> counted(tx, #[trigger] r@[k]) || (r@[k].file_count
            == u32::MAX && usage_of(tx, r@[k].id.0) > u32::MAX),
        forall|i: int|
            0 <= i < tx.tags@.len() && usage_of(tx, (#[trigger] tx.tags@[i]).id.0) > 0
                ==> exists|k: int| 0 <= k < r@.len() && (#[trigger] r@[k]).id == tx.tags@[i].id,
{
    let mut keys: Vec<Vec<char>> = Vec::new();
    let mut out: Vec<TagFileCount> = Vec::new();
    let mut i: usize = 0;
    assert(count_names(out@) =~= texts(keys@));
    while i < tx.tags.len()
        invariant
            i <= tx.tags.len(),
            out@.len() == keys@.len(),
            count_names(out@) == texts(keys@),
            ascending(texts(keys@)),
            forall|k: int| 0 <= k < out@.len() ==> counted(tx, #[trigger] out@[k]) || (
            out@[k].file_count == u32::MAX && usage_of(tx, out@[k].id.0) > u32::MAX),
            forall|j: int|
                0 <= j < i && usage_of(tx, (#[trigger] tx.tags@[j]).id.0) > 0 ==> exists|k: int|
                    0 <= k < out@.len() && (#[trigger] out@[k]).id == tx.tags@[j].id,
        decreases tx.tags.len() - i,
    {
        let rows = crate::storage::file_tags_by_tag_id(tx, &tx.tags[i].id);
        let n = rows.len();
        let ghost was_out = out@;
        if n > 0 {
            let file_count: u32 = if n > 0xffff_ffff {
                u32::MAX
            } else {
                n as u32
            };
            let key = chars_of(tx.tags[i].name.as_str());
            let p = place_for(&keys, &key);
            let ghost was = texts(keys@);
            proof {
                lemma_insert_keeps_ascending(was, p as int, key@);
            }
            keys.insert(p, key);
            let one = TagFileCount { id: tx.tags[i].id, name: tx.tags[i].name.clone(), file_count };
            assert(counted(tx, one) || (one.file_count == u32::MAX && usage_of(tx, one.id.0)
                > u32::MAX));
            out.insert(p, one);
            assert(texts(keys@) =~= was.insert(p as int, key@));
            assert(count_names(out@) =~= texts(keys@));
            proof {
                assert forall|k: int| 0 <= k < out@.len() implies counted(tx, #[trigger] out@[k])
                    || (out@[k].file_count == u32::MAX && usage_of(tx, out@[k].id.0)
                    > u32::MAX) by {
                    if k < p {
                        assert(out@[k] == was_out[k]);
                    } else if k > p {
                        assert(out@[k] == was_out[k - 1]);
                    }
                }
                assert forall|j: int|
                    0 <= j < i + 1 && usage_of(tx, (#[trigger] tx.tags@[j]).id.0)
                        > 0 implies exists|k: int|
                    0 <= k < out@.len() && (#[trigger] out@[k]).id == tx.tags@[j].id by {
                    if j < i {
                        let k = choose|k: int|
                            0 <= k < was_out.len() && (#[trigger] was_out[k]).id == tx.tags@[j].id;
                        let v = if k < p {
                            k
                        } else {
                            k + 1
                        };
                        assert(out@[v] == was_out[k]);
                    } else {
                        assert(out@[p as int].id == tx.tags@[j].id);
                    }
                }
            }
        }
        i += 1;
    }
    out
}

/// The tags that have one of the names, case ignored or not, in the
/// order of the table.
pub fn tags_by_names(tx: &Storage, names: &Vec<String>, ignore_case: bool) -> (r: Vec<Tag>)
    ensures
        r@ == tx.tags@.filter(named_pred(names@, ignore_case)),
{
    let mut out: Vec<Tag> = Vec::new();
    let mut i: usize = 0;
    let ghost pred = named_pred(names@, ignore_case);
    proof {
        reveal(Seq::filter);
        assert(tx.tags@.take(0) =~= Seq::<Tag>::empty());
    }
    while i < tx.tags.len()
        invariant
            i <= tx.tags.len(),
            pred == named_pred(names@, ignore_case),
            out@ == tx.tags@.take(i as int).filter(pred),
        decreases tx.tags.len() - i,
    {
        proof {
            tx.tags@.take(i as int).lemma_filter_push(tx.tags@[i as int], pred);
            assert(tx.tags@.take(i + 1) =~= tx.tags@.take(i as int).push(tx.tags@[i as int]));
        }
        if crate::path::contains_for_case(names, tx.tags[i].name.as_str(), ignore_case) {
            out.push(tx.tags[i].duplicate());
        }
        i += 1;
    }
    assert(tx.tags@.take(tx.tags.len() as int) =~= tx.tags@);
    out
}

/// The tags whose name is one of the names, case ignored or not.
pub open spec fn named_pred(names: Seq<String>, ignore_case: bool) -> spec_fn(Tag) -> bool {
    |t: Tag|
        exists|i: int|
            0 <= i < names.len() && crate::path::folded(
                crate::path::Named::label(&#[trigger] names[i]),
                ignore_case,
            ) == crate::path::folded(t.name@, ignore_case)
}

} // verus!
