//! The tables of the store, held in memory, and the single operations on
//! them. A table is a sequence of rows; an operation says which rows the
//! table holds afterwards.

use vstd::prelude::*;
use crate::entities::{File, FileId, FileTag, OptionalValueId, Tag, TagId, TagIdValueIdPair, Value, ValueId};
use crate::errors::Error;
use crate::implication::{Edge, Node};
use crate::text::same_text;

pub mod meta;
pub mod file;

verus! {

/// One row of the table of file tags: a file, a tag, and a value or 0.
#[derive(Debug, Clone, Copy, PartialEq, Eq, Hash, Structural)]
pub struct FileTagRow {
    pub file: u32,
    pub tag: u32,
    pub value: u32,
}

/// Which rows of the table of file tags are meant.
#[derive(Debug, Clone, Copy, PartialEq, Eq, Structural)]
pub enum RowKey {
    OfTag(u32),
    OfValue(u32),
    OfFile(u32),
    Exactly(FileTagRow),
}

/// Which implications are meant: those that name a tag or a value on
/// either side, or one implication.
#[derive(Debug, Clone, Copy, PartialEq, Eq, Structural)]
pub enum EdgeKey {
    WithTag(u32),
    WithValue(u32),
    Exactly(Edge),
}

pub open spec fn selects(key: RowKey, r: FileTagRow) -> bool {
    match key {
        RowKey::OfTag(t) => r.tag == t,
        RowKey::OfValue(v) => r.value == v,
        RowKey::OfFile(f) => r.file == f,
        RowKey::Exactly(x) => r == x,
    }
}

pub open spec fn selects_edge(key: EdgeKey, e: Edge) -> bool {
    match key {
        EdgeKey::WithTag(t) => e.implying.tag == t || e.implied.tag == t,
        EdgeKey::WithValue(v) => e.implying.value == v || e.implied.value == v,
        EdgeKey::Exactly(x) => e == x,
    }
}

/// The rows that a key selects (`want`) or does not select (`!want`).
pub open spec fn row_pred(key: RowKey, want: bool) -> spec_fn(FileTagRow) -> bool {
    |r: FileTagRow| selects(key, r) == want
}

pub open spec fn edge_pred(key: EdgeKey, want: bool) -> spec_fn(Edge) -> bool {
    |e: Edge| selects_edge(key, e) == want
}

pub open spec fn tag_pred(id: u32, want: bool) -> spec_fn(Tag) -> bool {
    |t: Tag| (t.id.0 == id) == want
}

pub open spec fn value_pred(id: u32, want: bool) -> spec_fn(Value) -> bool {
    |v: Value| (v.id.id() == id) == want
}

/// Whether a file has a row in the table of file tags.
pub open spec fn tagged(rows: Seq<FileTagRow>, file: u32) -> bool {
    exists|j: int| 0 <= j < rows.len() && (#[trigger] rows[j]).file == file
}

/// The files that stay when those of `touched` that have no row left in
/// `rows` are removed.
pub open spec fn purge_pred(touched: Seq<FileTagRow>, rows: Seq<FileTagRow>) -> spec_fn(
    File,
) -> bool {
    |f: File| !tagged(touched, f.id.0) || tagged(rows, f.id.0)
}

fn is_selected(key: RowKey, r: FileTagRow) -> (b: bool)
    ensures
        b == selects(key, r),
{
    match key {
        RowKey::OfTag(t) => r.tag == t,
        RowKey::OfValue(v) => r.value == v,
        RowKey::OfFile(f) => r.file == f,
        RowKey::Exactly(x) => r.file == x.file && r.tag == x.tag && r.value == x.value,
    }
}

fn is_selected_edge(key: EdgeKey, e: Edge) -> (b: bool)
    ensures
        b == selects_edge(key, e),
{
    match key {
        EdgeKey::WithTag(t) => e.implying.tag == t || e.implied.tag == t,
        EdgeKey::WithValue(v) => e.implying.value == v || e.implied.value == v,
        EdgeKey::Exactly(x) => e.implying.tag == x.implying.tag && e.implying.value
            == x.implying.value && e.implied.tag == x.implied.tag && e.implied.value
            == x.implied.value,
    }
}

/// The rows that the key selects, or those that it does not.
pub fn pick_rows(rows: &Vec<FileTagRow>, key: RowKey, want: bool) -> (r: Vec<FileTagRow>)
    ensures
        r@ == rows@.filter(row_pred(key, want)),
{
    let mut out: Vec<FileTagRow> = Vec::new();
    let mut i: usize = 0;
    proof {
        reveal(Seq::filter);
        assert(rows@.take(0) =~= Seq::<FileTagRow>::empty());
    }
    while i < rows.len()
        invariant
            i <= rows.len(),
            out@ == rows@.take(i as int).filter(row_pred(key, want)),
        decreases rows.len() - i,
    {
        proof {
            rows@.take(i as int).lemma_filter_push(rows@[i as int], row_pred(key, want));
            assert(rows@.take(i + 1) =~= rows@.take(i as int).push(rows@[i as int]));
        }
        if is_selected(key, rows[i]) == want {
            out.push(rows[i]);
        }
        i += 1;
    }
    assert(rows@.take(rows.len() as int) =~= rows@);
    out
}

/// The implications that the key selects, or those that it does not.
pub fn pick_edges(edges: &Vec<Edge>, key: EdgeKey, want: bool) -> (r: Vec<Edge>)
    ensures
        r@ == edges@.filter(edge_pred(key, want)),
{
    let mut out: Vec<Edge> = Vec::new();
    let mut i: usize = 0;
    proof {
        reveal(Seq::filter);
        assert(edges@.take(0) =~= Seq::<Edge>::empty());
    }
    while i < edges.len()
        invariant
            i <= edges.len(),
            out@ == edges@.take(i as int).filter(edge_pred(key, want)),
        decreases edges.len() - i,
    {
        proof {
            edges@.take(i as int).lemma_filter_push(edges@[i as int], edge_pred(key, want));
            assert(edges@.take(i + 1) =~= edges@.take(i as int).push(edges@[i as int]));
        }
        if is_selected_edge(key, edges[i]) == want {
            out.push(edges[i]);
        }
        i += 1;
    }
    assert(edges@.take(edges.len() as int) =~= edges@);
    out
}

impl Tag {
    /// A copy of the tag.
    pub fn duplicate(&self) -> (r: Tag)
        ensures
            r == *self,
    {
        Tag { id: self.id, name: self.name.clone() }
    }
}

impl Value {
    /// A copy of the value.
    pub fn duplicate(&self) -> (r: Value)
        ensures
            r == *self,
    {
        Value { id: self.id, name: self.name.clone() }
    }
}

impl File {
    /// A copy of the file.
    pub fn duplicate(&self) -> (r: File)
        ensures
            r == *self,
    {
        File {
            id: self.id,
            dir: self.dir.clone(),
            name: self.name.clone(),
            fingerprint: self.fingerprint.clone(),
            mod_time: self.mod_time,
            size: self.size,
            is_dir: self.is_dir,
        }
    }
}

impl FileTag {
    /// The row that stands for the file tag in the store.
    pub open spec fn row(self) -> FileTagRow {
        FileTagRow { file: self.file_id.0, tag: self.tag_id.0, value: self.value_id.raw() }
    }
}

/// The tables of the store.
pub struct Storage {
    pub tags: Vec<Tag>,
    pub values: Vec<Value>,
    pub files: Vec<File>,
    pub file_tags: Vec<FileTagRow>,
    pub implications: Vec<Edge>,
}

impl Storage {
    /// Whether every file has at least one file tag.
    pub open spec fn no_orphans(&self) -> bool {
        forall|i: int| 0 <= i < self.files@.len() ==> tagged(self.file_tags@, (#[trigger] self.files@[i]).id.0)
    }

    /// A store with empty tables.
    pub fn new() -> (r: Storage)
        ensures
            r.tags@.len() == 0,
            r.values@.len() == 0,
            r.files@.len() == 0,
            r.file_tags@.len() == 0,
            r.implications@.len() == 0,
    {
        Storage {
            tags: Vec::new(),
            values: Vec::new(),
            files: Vec::new(),
            file_tags: Vec::new(),
            implications: Vec::new(),
        }
    }
}

/// Whether all tables but the named ones are as before.
pub open spec fn same_but(a: &Storage, b: &Storage, tags: bool, values: bool, files: bool, rows: bool, edges: bool) -> bool {
    &&& tags || a.tags@ == b.tags@
    &&& values || a.values@ == b.values@
    &&& files || a.files@ == b.files@
    &&& rows || a.file_tags@ == b.file_tags@
    &&& edges || a.implications@ == b.implications@
}

/// The tables as mathematics.
pub struct Tables {
    pub tags: Seq<Tag>,
    pub values: Seq<Value>,
    pub files: Seq<File>,
    pub file_tags: Seq<FileTagRow>,
    pub implications: Seq<Edge>,
}

impl View for Storage {
    type V = Tables;

    open spec fn view(&self) -> Tables {
        Tables {
            tags: self.tags@,
            values: self.values@,
            files: self.files@,
            file_tags: self.file_tags@,
            implications: self.implications@,
        }
    }
}

/// The first tag of that name.
pub open spec fn first_tag_named(tags: Seq<Tag>, name: Seq<char>) -> Option<Tag>
    decreases tags.len(),
{
    if tags.len() == 0 {
        None
    } else if tags[0].name@ == name {
        Some(tags[0])
    } else {
        first_tag_named(tags.drop_first(), name)
    }
}

/// The first value of that name; none for the empty name.
pub open spec fn first_value_named(values: Seq<Value>, name: Seq<char>) -> Option<Value>
    decreases values.len(),
{
    if values.len() == 0 || name.len() == 0 {
        None
    } else if values[0].name@ == name {
        Some(values[0])
    } else {
        first_value_named(values.drop_first(), name)
    }
}

/// The first tag of that name.
pub fn tag_by_name(tx: &Storage, name: &str) -> (r: Option<Tag>)
    ensures
        r == first_tag_named(tx.tags@, name@),
{
    let mut i: usize = 0;
    assert(tx.tags@.skip(0) =~= tx.tags@);
    while i < tx.tags.len()
        invariant
            i <= tx.tags.len(),
            first_tag_named(tx.tags@, name@) == first_tag_named(tx.tags@.skip(i as int), name@),
        decreases tx.tags.len() - i,
    {
        assert(tx.tags@.skip(i as int).drop_first() =~= tx.tags@.skip(i + 1));
        if same_text(tx.tags[i].name.as_str(), name) {
            return Some(tx.tags[i].duplicate());
        }
        i += 1;
    }
    None
}

/// The first value of that name. The empty name is no value's.
pub fn value_by_name(tx: &Storage, name: &str) -> (r: Option<Value>)
    ensures
        r == first_value_named(tx.values@, name@),
{
    if name.unicode_len() == 0 {
        return None;
    }
    let mut i: usize = 0;
    assert(tx.values@.skip(0) =~= tx.values@);
    while i < tx.values.len()
        invariant
            i <= tx.values.len(),
            name@.len() > 0,
            first_value_named(tx.values@, name@) == first_value_named(
                tx.values@.skip(i as int),
                name@,
            ),
        decreases tx.values.len() - i,
    {
        assert(tx.values@.skip(i as int).drop_first() =~= tx.values@.skip(i + 1));
        if same_text(tx.values[i].name.as_str(), name) {
            return Some(tx.values[i].duplicate());
        }
        i += 1;
    }
    None
}

/// The largest identifier among the tags, 0 where there is none.
pub open spec fn max_tag_id(tags: Seq<Tag>) -> u32
    decreases tags.len(),
{
    if tags.len() == 0 {
        0
    } else {
        let m = max_tag_id(tags.drop_last());
        if tags.last().id.0 > m {
            tags.last().id.0
        } else {
            m
        }
    }
}

fn largest_tag_id(tags: &Vec<Tag>) -> (m: u32)
    ensures
        m == max_tag_id(tags@),
{
    let mut m: u32 = 0;
    let mut i: usize = 0;
    assert(tags@.take(0) =~= Seq::<Tag>::empty());
    while i < tags.len()
        invariant
            i <= tags.len(),
            m == max_tag_id(tags@.take(i as int)),
        decreases tags.len() - i,
    {
        assert(tags@.take(i + 1).drop_last() =~= tags@.take(i as int));
        if tags[i].id.0 > m {
            m = tags[i].id.0;
        }
        i += 1;
    }
    assert(tags@.take(tags.len() as int) =~= tags@);
    m
}

/// Adds a tag of that name under an identifier that no tag has yet: one
/// more than the largest in use.
pub fn insert_tag(tx: &mut Storage, name: &str) -> (r: Result<Tag, Error>)
    ensures
        same_but(old(tx), final(tx), true, false, false, false, false),
        match r {
            Ok(t) => max_tag_id(old(tx).tags@) < u32::MAX && t.id.0 == max_tag_id(old(tx).tags@) + 1
                && t.name@ == name@ && final(tx).tags@ == old(tx).tags@.push(t),
            Err(e) => max_tag_id(old(tx).tags@) == u32::MAX && e == Error::IdentifiersExhausted
                && final(tx).tags@ == old(tx).tags@,
        },
{
    let m = largest_tag_id(&tx.tags);
    if m == u32::MAX {
        return Err(Error::IdentifiersExhausted);
    }
    let tag = Tag { id: TagId(m + 1), name: name.to_owned() };
    tx.tags.push(tag.duplicate());
    Ok(tag)
}

/// The largest identifier among the values, 0 where there is none.
pub open spec fn max_value_id(values: Seq<Value>) -> u32
    decreases values.len(),
{
    if values.len() == 0 {
        0
    } else {
        let m = max_value_id(values.drop_last());
        if values.last().id.id() > m {
            values.last().id.id()
        } else {
            m
        }
    }
}

fn largest_value_id(values: &Vec<Value>) -> (m: u32)
    ensures
        m == max_value_id(values@),
{
    let mut m: u32 = 0;
    let mut i: usize = 0;
    assert(values@.take(0) =~= Seq::<Value>::empty());
    while i < values.len()
        invariant
            i <= values.len(),
            m == max_value_id(values@.take(i as int)),
        decreases values.len() - i,
    {
        assert(values@.take(i + 1).drop_last() =~= values@.take(i as int));
        let id = *values[i].id.as_u32();
        if id > m {
            m = id;
        }
        i += 1;
    }
    assert(values@.take(values.len() as int) =~= values@);
    m
}

/// Adds a value of that name under an identifier that no value has yet.
pub fn insert_value(tx: &mut Storage, name: &str) -> (r: Result<Value, Error>)
    ensures
        same_but(old(tx), final(tx), false, true, false, false, false),
        match r {
            Ok(v) => max_value_id(old(tx).values@) < u32::MAX && v.id.id() == max_value_id(
                old(tx).values@,
            ) + 1 && v.name@ == name@ && final(tx).values@ == old(tx).values@.push(v),
            Err(e) => max_value_id(old(tx).values@) == u32::MAX && e
                == Error::IdentifiersExhausted && final(tx).values@ == old(tx).values@,
        },
{
    let m = largest_value_id(&tx.values);
    if m == u32::MAX {
        return Err(Error::IdentifiersExhausted);
    }
    let value = Value { id: ValueId::from_unchecked(m + 1), name: name.to_owned() };
    tx.values.push(value.duplicate());
    Ok(value)
}

/// The rows as file tags, each explicit and not implicit.
pub fn as_file_tags(rows: &Vec<FileTagRow>) -> (r: Vec<FileTag>)
    ensures
        r@.len() == rows@.len(),
        forall|i: int|
            0 <= i < r@.len() ==> (#[trigger] r@[i]).row() == rows@[i] && r@[i].explicit
                && !r@[i].implicit,
{
    let mut out: Vec<FileTag> = Vec::new();
    let mut i: usize = 0;
    while i < rows.len()
        invariant
            i <= rows.len(),
            out@.len() == i,
            forall|j: int|
                0 <= j < i ==> (#[trigger] out@[j]).row() == rows@[j] && out@[j].explicit
                    && !out@[j].implicit,
        decreases rows.len() - i,
    {
        let row = rows[i];
        out.push(
            FileTag {
                file_id: FileId(row.file),
                tag_id: TagId(row.tag),
                value_id: OptionalValueId::from_id(row.value),
                explicit: true,
                implicit: false,
            },
        );
        i += 1;
    }
    out
}

pub fn file_tags_by_tag_id(tx: &Storage, tag_id: &TagId) -> (r: Vec<FileTagRow>)
    ensures
        r@ == tx.file_tags@.filter(row_pred(RowKey::OfTag(tag_id.0), true)),
{
    pick_rows(&tx.file_tags, RowKey::OfTag(tag_id.0), true)
}

pub fn file_tags_by_value_id(tx: &Storage, value_id: &ValueId) -> (r: Vec<FileTagRow>)
    ensures
        r@ == tx.file_tags@.filter(row_pred(RowKey::OfValue(value_id.id()), true)),
{
    pick_rows(&tx.file_tags, RowKey::OfValue(*value_id.as_u32()), true)
}

pub fn file_tags_by_file_id(tx: &Storage, file_id: &FileId) -> (r: Vec<FileTagRow>)
    ensures
        r@ == tx.file_tags@.filter(row_pred(RowKey::OfFile(file_id.0), true)),
{
    pick_rows(&tx.file_tags, RowKey::OfFile(file_id.0), true)
}

fn holds_row(rows: &Vec<FileTagRow>, row: FileTagRow) -> (r: bool)
    ensures
        r == rows@.contains(row),
{
    let mut k: usize = 0;
    while k < rows.len()
        invariant
            k <= rows.len(),
            forall|j: int| 0 <= j < k ==> rows@[j] != row,
        decreases rows.len() - k,
    {
        if rows[k] == row {
            return true;
        }
        k += 1;
    }
    false
}

/// Adds a file tag unless the table holds it. Says how many rows were
/// added.
pub fn add_file_tag(tx: &mut Storage, file_id: &FileId, tag_id: &TagId, value_id: OptionalValueId) -> (r: usize)
    ensures
        same_but(old(tx), final(tx), false, false, false, true, false),
        ({
            let row = FileTagRow { file: file_id.0, tag: tag_id.0, value: value_id.raw() };
            if old(tx).file_tags@.contains(row) {
                r == 0 && final(tx).file_tags@ == old(tx).file_tags@
            } else {
                r == 1 && final(tx).file_tags@ == old(tx).file_tags@.push(row)
            }
        }),
{
    let row = FileTagRow { file: file_id.0, tag: tag_id.0, value: value_id.as_u32() };
    if holds_row(&tx.file_tags, row) {
        0
    } else {
        tx.file_tags.push(row);
        1
    }
}

/// Removes the file tags that the key selects. Says how many they were.
pub fn delete_file_tags(tx: &mut Storage, key: RowKey) -> (r: usize)
    ensures
        same_but(old(tx), final(tx), false, false, false, true, false),
        final(tx).file_tags@ == old(tx).file_tags@.filter(row_pred(key, false)),
        r == old(tx).file_tags@.len() - final(tx).file_tags@.len(),
{
    let kept = pick_rows(&tx.file_tags, key, false);
    proof {
        tx.file_tags@.lemma_filter_len(row_pred(key, false));
    }
    let n = tx.file_tags.len() - kept.len();
    tx.file_tags = kept;
    n
}

pub fn delete_file_tags_by_tag_id(tx: &mut Storage, tag_id: &TagId) -> (r: usize)
    ensures
        same_but(old(tx), final(tx), false, false, false, true, false),
        final(tx).file_tags@ == old(tx).file_tags@.filter(row_pred(RowKey::OfTag(tag_id.0), false)),
        r == old(tx).file_tags@.len() - final(tx).file_tags@.len(),
{
    delete_file_tags(tx, RowKey::OfTag(tag_id.0))
}

pub fn delete_file_tags_by_value_id(tx: &mut Storage, value_id: &ValueId) -> (r: usize)
    ensures
        same_but(old(tx), final(tx), false, false, false, true, false),
        final(tx).file_tags@ == old(tx).file_tags@.filter(
            row_pred(RowKey::OfValue(value_id.id()), false),
        ),
        r == old(tx).file_tags@.len() - final(tx).file_tags@.len(),
{
    delete_file_tags(tx, RowKey::OfValue(*value_id.as_u32()))
}

pub fn delete_file_tags_by_file_id(tx: &mut Storage, file_id: &FileId) -> (r: usize)
    ensures
        same_but(old(tx), final(tx), false, false, false, true, false),
        final(tx).file_tags@ == old(tx).file_tags@.filter(row_pred(RowKey::OfFile(file_id.0), false)),
        r == old(tx).file_tags@.len() - final(tx).file_tags@.len(),
{
    delete_file_tags(tx, RowKey::OfFile(file_id.0))
}

pub fn delete_file_tag(tx: &mut Storage, file_id: &FileId, tag_id: &TagId, value_id: &OptionalValueId) -> (r: usize)
    ensures
        same_but(old(tx), final(tx), false, false, false, true, false),
        final(tx).file_tags@ == old(tx).file_tags@.filter(
            row_pred(
                RowKey::Exactly(
                    FileTagRow { file: file_id.0, tag: tag_id.0, value: value_id.raw() },
                ),
                false,
            ),
        ),
        r == old(tx).file_tags@.len() - final(tx).file_tags@.len(),
{
    delete_file_tags(
        tx,
        RowKey::Exactly(FileTagRow { file: file_id.0, tag: tag_id.0, value: value_id.as_u32() }),
    )
}

fn is_tagged(rows: &Vec<FileTagRow>, file: u32) -> (r: bool)
    ensures
        r == tagged(rows@, file),
{
    let mut k: usize = 0;
    while k < rows.len()
        invariant
            k <= rows.len(),
            forall|j: int| 0 <= j < k ==> (#[trigger] rows@[j]).file != file,
        decreases rows.len() - k,
    {
        if rows[k].file == file {
            return true;
        }
        k += 1;
    }
    false
}

/// Removes those files of the touched rows that have no file tag left.
pub fn delete_untagged_files(tx: &mut Storage, touched: &Vec<FileTagRow>)
    ensures
        same_but(old(tx), final(tx), false, false, true, false, false),
        final(tx).files@ == old(tx).files@.filter(purge_pred(touched@, old(tx).file_tags@)),
{
    let mut out: Vec<File> = Vec::new();
    let mut i: usize = 0;
    let ghost pred = purge_pred(touched@, tx.file_tags@);
    proof {
        reveal(Seq::filter);
        assert(tx.files@.take(0) =~= Seq::<File>::empty());
    }
    while i < tx.files.len()
        invariant
            i <= tx.files.len(),
            pred == purge_pred(touched@, tx.file_tags@),
            out@ == tx.files@.take(i as int).filter(pred),
        decreases tx.files.len() - i,
    {
        proof {
            tx.files@.take(i as int).lemma_filter_push(tx.files@[i as int], pred);
            assert(tx.files@.take(i + 1) =~= tx.files@.take(i as int).push(tx.files@[i as int]));
        }
        let id = tx.files[i].id.0;
        if !is_tagged(touched, id) || is_tagged(&tx.file_tags, id) {
            out.push(tx.files[i].duplicate());
        }
        i += 1;
    }
    assert(tx.files@.take(tx.files.len() as int) =~= tx.files@);
    tx.files = out;
}

/// Removes the implications that the key selects. Says how many they were.
pub fn delete_implications(tx: &mut Storage, key: EdgeKey) -> (r: usize)
    ensures
        same_but(old(tx), final(tx), false, false, false, false, true),
        final(tx).implications@ == old(tx).implications@.filter(edge_pred(key, false)),
        r == old(tx).implications@.len() - final(tx).implications@.len(),
{
    let kept = pick_edges(&tx.implications, key, false);
    proof {
        tx.implications@.lemma_filter_len(edge_pred(key, false));
    }
    let n = tx.implications.len() - kept.len();
    tx.implications = kept;
    n
}

pub fn delete_implications_by_tag_id(tx: &mut Storage, tag_id: &TagId) -> (r: usize)
    ensures
        same_but(old(tx), final(tx), false, false, false, false, true),
        final(tx).implications@ == old(tx).implications@.filter(
            edge_pred(EdgeKey::WithTag(tag_id.0), false),
        ),
        r == old(tx).implications@.len() - final(tx).implications@.len(),
{
    delete_implications(tx, EdgeKey::WithTag(tag_id.0))
}

pub fn delete_implications_by_value_id(tx: &mut Storage, value_id: &ValueId) -> (r: usize)
    ensures
        same_but(old(tx), final(tx), false, false, false, false, true),
        final(tx).implications@ == old(tx).implications@.filter(
            edge_pred(EdgeKey::WithValue(value_id.id()), false),
        ),
        r == old(tx).implications@.len() - final(tx).implications@.len(),
{
    delete_implications(tx, EdgeKey::WithValue(*value_id.as_u32()))
}

/// Removes one implication. Fails where the table does not hold it, or
/// holds it more than once.
pub fn delete_implication(tx: &mut Storage, implying: &TagIdValueIdPair, implied: &TagIdValueIdPair) -> (r: Result<(), Error>)
    ensures
        same_but(old(tx), final(tx), false, false, false, false, true),
        ({
            let key = EdgeKey::Exactly(Edge { implying: implying.node(), implied: implied.node() });
            let gone = old(tx).implications@.len() - old(tx).implications@.filter(
                edge_pred(key, false),
            ).len();
            &&& final(tx).implications@ == old(tx).implications@.filter(edge_pred(key, false))
            &&& match r {
                Ok(_) => gone == 1,
                Err(e) => if gone == 0 {
                    e == Error::NoSuchImplication
                } else {
                    gone > 1 && e == Error::UnaffectedRows(1, gone as usize)
                },
            }
        }),
{
    let key = EdgeKey::Exactly(Edge { implying: implying.to_node(), implied: implied.to_node() });
    let n = delete_implications(tx, key);
    if n == 1 {
        Ok(())
    } else if n == 0 {
        Err(Error::NoSuchImplication)
    } else {
        Err(Error::UnaffectedRows(1, n))
    }
}

/// Adds an implication unless the table holds it. Says how many rows
/// were added.
pub fn add_implication(tx: &mut Storage, implying: &TagIdValueIdPair, implied: &TagIdValueIdPair) -> (r: usize)
    ensures
        same_but(old(tx), final(tx), false, false, false, false, true),
        ({
            let e = Edge { implying: implying.node(), implied: implied.node() };
            if old(tx).implications@.contains(e) {
                r == 0 && final(tx).implications@ == old(tx).implications@
            } else {
                r == 1 && final(tx).implications@ == old(tx).implications@.push(e)
            }
        }),
{
    let e = Edge { implying: implying.to_node(), implied: implied.to_node() };
    if crate::implication::holds_edge(&tx.implications, e) {
        0
    } else {
        tx.implications.push(e);
        1
    }
}

/// Removes the tag row of that identifier. Fails unless exactly one row
/// goes.
pub fn delete_tag(tx: &mut Storage, tag_id: &TagId) -> (r: Result<(), Error>)
    ensures
        same_but(old(tx), final(tx), true, false, false, false, false),
        final(tx).tags@ == old(tx).tags@.filter(tag_pred(tag_id.0, false)),
        ({
            let gone = old(tx).tags@.len() - final(tx).tags@.len();
            match r {
                Ok(_) => gone == 1,
                Err(e) => gone != 1 && e == Error::UnaffectedRows(1, gone as usize),
            }
        }),
{
    let mut out: Vec<Tag> = Vec::new();
    let mut i: usize = 0;
    let ghost pred = tag_pred(tag_id.0, false);
    proof {
        reveal(Seq::filter);
        assert(tx.tags@.take(0) =~= Seq::<Tag>::empty());
    }
    while i < tx.tags.len()
        invariant
            i <= tx.tags.len(),
            pred == tag_pred(tag_id.0, false),
            out@ == tx.tags@.take(i as int).filter(pred),
        decreases tx.tags.len() - i,
    {
        proof {
            tx.tags@.take(i as int).lemma_filter_push(tx.tags@[i as int], pred);
            assert(tx.tags@.take(i + 1) =~= tx.tags@.take(i as int).push(tx.tags@[i as int]));
        }
        if tx.tags[i].id.0 != tag_id.0 {
            out.push(tx.tags[i].duplicate());
        }
        i += 1;
    }
    proof {
        assert(tx.tags@.take(tx.tags.len() as int) =~= tx.tags@);
        tx.tags@.lemma_filter_len(pred);
    }
    let n = tx.tags.len() - out.len();
    tx.tags = out;
    if n == 1 {
        Ok(())
    } else {
        Err(Error::UnaffectedRows(1, n))
    }
}

/// Removes the value row of that identifier. Fails unless exactly one
/// row goes.
pub fn delete_value(tx: &mut Storage, value_id: &ValueId) -> (r: Result<(), Error>)
    ensures
        same_but(old(tx), final(tx), false, true, false, false, false),
        final(tx).values@ == old(tx).values@.filter(value_pred(value_id.id(), false)),
        ({
            let gone = old(tx).values@.len() - final(tx).values@.len();
            match r {
                Ok(_) => gone == 1,
                Err(e) => gone != 1 && e == Error::UnaffectedRows(1, gone as usize),
            }
        }),
{
    let mut out: Vec<Value> = Vec::new();
    let mut i: usize = 0;
    let id = *value_id.as_u32();
    let ghost pred = value_pred(id, false);
    proof {
        reveal(Seq::filter);
        assert(tx.values@.take(0) =~= Seq::<Value>::empty());
    }
    while i < tx.values.len()
        invariant
            i <= tx.values.len(),
            pred == value_pred(id, false),
            out@ == tx.values@.take(i as int).filter(pred),
        decreases tx.values.len() - i,
    {
        proof {
            tx.values@.take(i as int).lemma_filter_push(tx.values@[i as int], pred);
            assert(tx.values@.take(i + 1) =~= tx.values@.take(i as int).push(
                tx.values@[i as int],
            ));
        }
        if *tx.values[i].id.as_u32() != id {
            out.push(tx.values[i].duplicate());
        }
        i += 1;
    }
    proof {
        assert(tx.values@.take(tx.values.len() as int) =~= tx.values@);
        tx.values@.lemma_filter_len(pred);
    }
    let n = tx.values.len() - out.len();
    tx.values = out;
    if n == 1 {
        Ok(())
    } else {
        Err(Error::UnaffectedRows(1, n))
    }
}

} // verus!
