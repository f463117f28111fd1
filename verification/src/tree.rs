//! A tree of paths, component by component. Each node knows whether its
//! path was added itself and whether it is a directory.

use vstd::prelude::*;
use crate::path::texts;
use crate::text::{chars_of, same_chars, string_of};

verus! {

/// One node of the tree. The nodes stand in one list, each behind its
/// parent; a node without a parent hangs on the root.
pub struct Node {
    pub name: Vec<char>,
    pub path: Vec<char>,
    pub parent: Option<usize>,
    pub is_real: bool,
    pub is_dir: bool,
}

/// A node as mathematics.
pub struct NodeView {
    pub name: Seq<char>,
    pub path: Seq<char>,
    pub parent: Option<int>,
    pub is_real: bool,
    pub is_dir: bool,
}

impl View for Node {
    type V = NodeView;

    open spec fn view(&self) -> NodeView {
        NodeView {
            name: self.name@,
            path: self.path@,
            parent: match self.parent {
                Some(p) => Some(p as int),
                None => None,
            },
            is_real: self.is_real,
            is_dir: self.is_dir,
        }
    }
}

pub struct Tree {
    pub nodes: Vec<Node>,
}

impl View for Tree {
    type V = Seq<NodeView>;

    open spec fn view(&self) -> Seq<NodeView> {
        self.nodes@.map_values(|n: Node| n@)
    }
}

/// The pieces of `s` between separators from position `i` on, empty
/// ones too, where `cur` holds the piece that `i` stands in.
pub open spec fn pieces_from(s: Seq<char>, i: int, cur: Seq<char>) -> Seq<Seq<char>>
    decreases s.len() - i,
{
    if i < 0 || i >= s.len() {
        seq![cur]
    } else if s[i] == '/' {
        seq![cur] + pieces_from(s, i + 1, seq![])
    } else {
        pieces_from(s, i + 1, cur.push(s[i]))
    }
}

/// The pieces of a path between separators, empty ones too.
pub open spec fn pieces(s: Seq<char>) -> Seq<Seq<char>> {
    pieces_from(s, 0, seq![])
}

/// The name of the node of a piece: the piece, or `/` for an empty one.
pub open spec fn label(piece: Seq<char>) -> Seq<char> {
    if piece.len() == 0 {
        seq!['/']
    } else {
        piece
    }
}

/// The path of a node from the path of its parent and its name.
pub open spec fn extended(prefix: Seq<char>, name: Seq<char>) -> Seq<char> {
    if prefix.len() == 0 {
        name
    } else if prefix == seq!['/'] {
        prefix + name
    } else {
        prefix.push('/') + name
    }
}

/// The path of a node that may be absent; the root has the empty path.
pub open spec fn path_of(nodes: Seq<NodeView>, at: Option<int>) -> Seq<char> {
    match at {
        Some(p) => if 0 <= p < nodes.len() {
            nodes[p].path
        } else {
            seq![]
        },
        None => seq![],
    }
}

/// The first node from `i` on with that parent and that name.
pub open spec fn child_from(
    nodes: Seq<NodeView>,
    parent: Option<int>,
    name: Seq<char>,
    i: int,
) -> Option<int>
    decreases nodes.len() - i,
{
    if i < 0 || i >= nodes.len() {
        None
    } else if nodes[i].parent == parent && nodes[i].name == name {
        Some(i)
    } else {
        child_from(nodes, parent, name, i + 1)
    }
}

/// The nodes with the node at `at` marked as a directory or not.
pub open spec fn with_dir(nodes: Seq<NodeView>, at: Option<int>, is_dir: bool) -> Seq<NodeView> {
    match at {
        Some(p) => if 0 <= p < nodes.len() {
            nodes.update(p, NodeView { is_dir, ..nodes[p] })
        } else {
            nodes
        },
        None => nodes,
    }
}

/// The nodes after the pieces from `k` on were added below `parent`:
/// each piece goes to the child of that name, which is made where there
/// is none; the last becomes real; every node on the way is a directory,
/// and the last is one as `is_dir` says.
pub open spec fn grown(
    nodes: Seq<NodeView>,
    parts: Seq<Seq<char>>,
    k: int,
    parent: Option<int>,
    is_dir: bool,
) -> Seq<NodeView>
    decreases parts.len() - k,
{
    if k < 0 || k >= parts.len() {
        with_dir(nodes, parent, is_dir)
    } else {
        let name = label(parts[k]);
        let last = k == parts.len() - 1;
        let marked = with_dir(nodes, parent, true);
        match child_from(marked, parent, name, 0) {
            Some(c) => grown(
                if last && 0 <= c < marked.len() {
                    marked.update(c, NodeView { is_real: true, ..marked[c] })
                } else {
                    marked
                },
                parts,
                k + 1,
                Some(c),
                is_dir,
            ),
            None => grown(
                marked.push(
                    NodeView {
                        name,
                        path: extended(path_of(marked, parent), name),
                        parent,
                        is_real: last,
                        is_dir: true,
                    },
                ),
                parts,
                k + 1,
                Some(marked.len() as int),
                is_dir,
            ),
        }
    }
}

/// Whether no node above the one at `i` is real.
pub open spec fn kept(nodes: Seq<NodeView>, i: int) -> bool
    decreases i,
{
    if i < 0 || i >= nodes.len() {
        false
    } else {
        match nodes[i].parent {
            None => true,
            Some(p) => 0 <= p < i && kept(nodes, p) && !nodes[p].is_real,
        }
    }
}

/// What a node shows: its name, its path and its two marks.
pub open spec fn shown(n: NodeView) -> (Seq<char>, Seq<char>, bool, bool) {
    (n.name, n.path, n.is_real, n.is_dir)
}

/// What the kept nodes below `upto` show, in their order.
pub open spec fn pruned(nodes: Seq<NodeView>, upto: int) -> Seq<(Seq<char>, Seq<char>, bool, bool)>
    decreases upto,
{
    if upto <= 0 {
        seq![]
    } else {
        pruned(nodes, upto - 1) + if kept(nodes, upto - 1) {
            seq![shown(nodes[upto - 1])]
        } else {
            seq![]
        }
    }
}

/// The paths of the real nodes among the first `upto` of what a list of
/// nodes shows, in their order.
pub open spec fn real_paths(nodes: Seq<(Seq<char>, Seq<char>, bool, bool)>, upto: int) -> Seq<
    Seq<char>,
>
    decreases upto,
{
    if upto <= 0 {
        seq![]
    } else {
        real_paths(nodes, upto - 1) + if nodes[upto - 1].2 {
            seq![nodes[upto - 1].1]
        } else {
            seq![]
        }
    }
}

/// What the nodes of a tree show.
pub open spec fn showing(nodes: Seq<NodeView>) -> Seq<(Seq<char>, Seq<char>, bool, bool)> {
    nodes.map_values(|n: NodeView| shown(n))
}

/// Whether `a` comes before `b` or is `b`, by the first character in
/// which they differ; a text comes behind each of its beginnings.
pub open spec fn lex_le(a: Seq<char>, b: Seq<char>) -> bool
    decreases a.len(),
{
    if a.len() == 0 {
        true
    } else if b.len() == 0 {
        false
    } else if (a[0] as u32) != (b[0] as u32) {
        (a[0] as u32) < (b[0] as u32)
    } else {
        lex_le(a.drop_first(), b.drop_first())
    }
}

pub proof fn lemma_lex_total(a: Seq<char>, b: Seq<char>)
    ensures
        lex_le(a, b) || lex_le(b, a),
    decreases a.len(),
{
    if a.len() > 0 && b.len() > 0 && (a[0] as u32) == (b[0] as u32) {
        lemma_lex_total(a.drop_first(), b.drop_first());
    }
}

pub proof fn lemma_lex_trans(a: Seq<char>, b: Seq<char>, c: Seq<char>)
    requires
        lex_le(a, b),
        lex_le(b, c),
    ensures
        lex_le(a, c),
    decreases a.len(),
{
    if a.len() > 0 && b.len() > 0 && c.len() > 0 {
        if (a[0] as u32) == (b[0] as u32) && (b[0] as u32) == (c[0] as u32) {
            lemma_lex_trans(a.drop_first(), b.drop_first(), c.drop_first());
        }
    }
}

/// Whether each text comes before those behind it or equals them.
pub open spec fn ascending(s: Seq<Seq<char>>) -> bool {
    forall|i: int, j: int| 0 <= i < j < s.len() ==> lex_le(#[trigger] s[i], #[trigger] s[j])
}

fn comes_first(a: &Vec<char>, b: &Vec<char>) -> (r: bool)
    ensures
        r == lex_le(a@, b@),
{
    let mut i: usize = 0;
    assert(a@.skip(0) =~= a@ && b@.skip(0) =~= b@);
    while i < a.len() && i < b.len()
        invariant
            i <= a.len(),
            i <= b.len(),
            lex_le(a@, b@) == lex_le(a@.skip(i as int), b@.skip(i as int)),
        decreases a.len() - i,
    {
        assert(a@.skip(i as int)[0] == a@[i as int] && b@.skip(i as int)[0] == b@[i as int]);
        assert(a@.skip(i as int).drop_first() =~= a@.skip(i + 1));
        assert(b@.skip(i as int).drop_first() =~= b@.skip(i + 1));
        if (a[i] as u32) != (b[i] as u32) {
            return (a[i] as u32) < (b[i] as u32);
        }
        i += 1;
    }
    i == a.len()
}

/// The first position from `from` on whose text comes behind `x`; the
/// end where there is none.
pub open spec fn slot(keys: Seq<Seq<char>>, x: Seq<char>, from: int) -> int
    decreases keys.len() - from,
{
    if from < 0 || from >= keys.len() {
        keys.len() as int
    } else if !lex_le(keys[from], x) {
        from
    } else {
        slot(keys, x, from + 1)
    }
}

/// Where a text belongs among ascending texts: behind all that come
/// before it or equal it.
pub fn place_for(keys: &Vec<Vec<char>>, x: &Vec<char>) -> (p: usize)
    ensures
        p == slot(texts(keys@), x@, 0),
        p <= keys@.len(),
        forall|j: int| 0 <= j < p ==> lex_le(#[trigger] texts(keys@)[j], x@),
        p < keys@.len() ==> !lex_le(texts(keys@)[p as int], x@),
{
    let mut p: usize = 0;
    while p < keys.len() && comes_first(&keys[p], x)
        invariant
            p <= keys.len(),
            texts(keys@).len() == keys.len(),
            slot(texts(keys@), x@, 0) == slot(texts(keys@), x@, p as int),
            forall|j: int| 0 <= j < p ==> lex_le(#[trigger] texts(keys@)[j], x@),
        decreases keys.len() - p,
    {
        assert(texts(keys@)[p as int] == keys@[p as int]@);
        p += 1;
    }
    if p < keys.len() {
        assert(texts(keys@)[p as int] == keys@[p as int]@);
    }
    p
}

/// Ascending texts stay ascending when a text is put where it belongs.
pub proof fn lemma_insert_keeps_ascending(was: Seq<Seq<char>>, p: int, x: Seq<char>)
    requires
        ascending(was),
        0 <= p <= was.len(),
        forall|j: int| 0 <= j < p ==> lex_le(#[trigger] was[j], x),
        p < was.len() ==> !lex_le(was[p], x),
    ensures
        ascending(was.insert(p, x)),
{
    let now = was.insert(p, x);
    if p < was.len() {
        lemma_lex_total(was[p], x);
    }
    assert forall|i: int, j: int| 0 <= i < j < now.len() implies lex_le(
        #[trigger] now[i],
        #[trigger] now[j],
    ) by {
        if j < p {
            assert(now[i] == was[i] && now[j] == was[j]);
        } else if j == p {
            assert(now[i] == was[i]);
        } else if i < p {
            assert(now[i] == was[i] && now[j] == was[j - 1]);
        } else if i == p {
            assert(now[j] == was[j - 1]);
            if j - 1 > p {
                assert(lex_le(was[p], was[j - 1]));
                lemma_lex_trans(x, was[p], was[j - 1]);
            }
        } else {
            assert(now[i] == was[i - 1] && now[j] == was[j - 1]);
        }
    }
}

/// The same texts in ascending order.
pub fn sorted(items: Vec<Vec<char>>) -> (out: Vec<Vec<char>>)
    ensures
        ascending(texts(out@)),
        out@.len() == items@.len(),
        forall|t: Seq<char>| texts(out@).contains(t) <==> texts(items@).contains(t),
{
    let mut out: Vec<Vec<char>> = Vec::new();
    let mut k: usize = 0;
    while k < items.len()
        invariant
            k <= items.len(),
            out@.len() == k,
            ascending(texts(out@)),
            forall|t: Seq<char>|
                texts(out@).contains(t) <==> texts(items@).subrange(0, k as int).contains(t),
        decreases items.len() - k,
    {
        let x = items[k].clone();
        assert(x@ == texts(items@)[k as int]);
        let p = place_for(&out, &x);
        let ghost was = texts(out@);
        out.insert(p, x);
        proof {
            let now = texts(out@);
            assert(now =~= was.insert(p as int, x@));
            lemma_insert_keeps_ascending(was, p as int, x@);
            let before = texts(items@).subrange(0, k as int);
            let after = texts(items@).subrange(0, k + 1);
            assert forall|t: Seq<char>| now.contains(t) <==> after.contains(t) by {
                if now.contains(t) {
                    let w = choose|w: int| 0 <= w < now.len() && now[w] == t;
                    if w == p {
                        assert(after[k as int] == t);
                    } else {
                        let v = if w < p {
                            w
                        } else {
                            w - 1
                        };
                        assert(was[v] == t);
                        assert(was.contains(t));
                        let u = choose|u: int| 0 <= u < before.len() && before[u] == t;
                        assert(after[u] == t);
                    }
                }
                if after.contains(t) {
                    let u = choose|u: int| 0 <= u < after.len() && after[u] == t;
                    if u == k {
                        assert(now[p as int] == t);
                    } else {
                        assert(before[u] == t);
                        assert(before.contains(t));
                        assert(was.contains(t));
                        let w = choose|w: int| 0 <= w < was.len() && was[w] == t;
                        let v = if w < p {
                            w
                        } else {
                            w + 1
                        };
                        assert(now[v] == t);
                    }
                }
            }
        }
        k += 1;
    }
    assert(texts(items@).subrange(0, items@.len() as int) =~= texts(items@));
    out
}

/// The same names in ascending order.
pub fn sorted_names(names: &Vec<String>) -> (out: Vec<String>)
    ensures
        ascending(crate::query::names_of(out@)),
        out@.len() == names@.len(),
        forall|t: Seq<char>|
            crate::query::names_of(out@).contains(t) <==> crate::query::names_of(names@).contains(
                t,
            ),
{
    let mut items: Vec<Vec<char>> = Vec::new();
    let mut i: usize = 0;
    assert(texts(items@) =~= crate::query::names_of(names@).subrange(0, 0));
    while i < names.len()
        invariant
            i <= names.len(),
            texts(items@) == crate::query::names_of(names@).subrange(0, i as int),
        decreases names.len() - i,
    {
        let ghost before = texts(items@);
        let one = chars_of(names[i].as_str());
        assert(crate::query::names_of(names@)[i as int] == one@);
        items.push(one);
        assert(texts(items@) =~= before.push(one@));
        i += 1;
        assert(texts(items@) =~= crate::query::names_of(names@).subrange(0, i as int));
    }
    assert(crate::query::names_of(names@).subrange(0, names@.len() as int)
        =~= crate::query::names_of(names@));
    let ordered = sorted(items);
    let mut out: Vec<String> = Vec::new();
    let mut k: usize = 0;
    while k < ordered.len()
        invariant
            k <= ordered.len(),
            crate::query::names_of(out@) == texts(ordered@).subrange(0, k as int),
        decreases ordered.len() - k,
    {
        let ghost before = crate::query::names_of(out@);
        let one = string_of(&ordered[k], 0, ordered[k].len());
        assert(one@ =~= ordered@[k as int]@);
        assert(texts(ordered@)[k as int] == ordered@[k as int]@);
        out.push(one);
        assert(crate::query::names_of(out@) =~= before.push(one@));
        k += 1;
        assert(crate::query::names_of(out@) =~= texts(ordered@).subrange(0, k as int));
    }
    assert(texts(ordered@).subrange(0, ordered@.len() as int) =~= texts(ordered@));
    out
}

/// The pieces of a path between separators, empty ones too.
fn split_raw(s: &Vec<char>) -> (r: Vec<Vec<char>>)
    ensures
        texts(r@) == pieces(s@),
{
    let mut out: Vec<Vec<char>> = Vec::new();
    let mut cur: Vec<char> = Vec::new();
    let mut i: usize = 0;
    assert(texts(out@) + pieces_from(s@, 0, cur@) =~= pieces(s@));
    while i < s.len()
        invariant
            i <= s.len(),
            pieces(s@) == texts(out@) + pieces_from(s@, i as int, cur@),
        decreases s.len() - i,
    {
        if s[i] == '/' {
            let ghost before = texts(out@);
            let ghost piece = cur@;
            let ghost rest = pieces_from(s@, i + 1, seq![]);
            out.push(cur);
            assert(texts(out@) =~= before + seq![piece]);
            cur = Vec::new();
            assert(texts(out@) + pieces_from(s@, i + 1, cur@) =~= before + (seq![piece] + rest));
        } else {
            cur.push(s[i]);
        }
        i += 1;
    }
    let ghost before = texts(out@);
    let ghost piece = cur@;
    out.push(cur);
    assert(texts(out@) =~= before + seq![piece]);
    out
}

/// The parent of a node as mathematics.
pub open spec fn place(at: Option<usize>) -> Option<int> {
    match at {
        Some(p) => Some(p as int),
        None => None,
    }
}

fn same_place(a: &Option<usize>, b: &Option<usize>) -> (r: bool)
    ensures
        r == (place(*a) == place(*b)),
{
    match (a, b) {
        (Some(x), Some(y)) => *x == *y,
        (None, None) => true,
        _ => false,
    }
}

impl Tree {
    pub fn new() -> (r: Self)
        ensures
            r@ == Seq::<NodeView>::empty(),
    {
        let r = Tree { nodes: Vec::new() };
        assert(r@ =~= Seq::<NodeView>::empty());
        r
    }

    fn child(&self, parent: &Option<usize>, name: &Vec<char>) -> (r: Option<usize>)
        ensures
            place(r) == child_from(self@, place(*parent), name@, 0),
            r is Some ==> r->0 < self.nodes.len(),
    {
        let mut i: usize = 0;
        while i < self.nodes.len()
            invariant
                i <= self.nodes.len(),
                self@.len() == self.nodes.len(),
                child_from(self@, place(*parent), name@, 0) == child_from(
                    self@,
                    place(*parent),
                    name@,
                    i as int,
                ),
            decreases self.nodes.len() - i,
        {
            assert(self@[i as int] == self.nodes@[i as int]@);
            if same_place(&self.nodes[i].parent, parent) && same_chars(&self.nodes[i].name, name) {
                return Some(i);
            }
            i += 1;
        }
        None
    }

    /// Sets the marks of the node at `at`, each where one is given.
    fn mark(&mut self, at: usize, is_real: Option<bool>, is_dir: Option<bool>)
        requires
            at < old(self).nodes.len(),
        ensures
            final(self).nodes.len() == old(self).nodes.len(),
            final(self)@ == old(self)@.update(
                at as int,
                NodeView {
                    is_real: match is_real {
                        Some(b) => b,
                        None => old(self)@[at as int].is_real,
                    },
                    is_dir: match is_dir {
                        Some(b) => b,
                        None => old(self)@[at as int].is_dir,
                    },
                    ..old(self)@[at as int]
                },
            ),
    {
        let node = &self.nodes[at];
        let changed = Node {
            name: node.name.clone(),
            path: node.path.clone(),
            parent: node.parent,
            is_real: match is_real {
                Some(b) => b,
                None => node.is_real,
            },
            is_dir: match is_dir {
                Some(b) => b,
                None => node.is_dir,
            },
        };
        assert(old(self)@[at as int] == old(self).nodes@[at as int]@);
        self.nodes.set(at, changed);
        assert(self@ =~= old(self)@.update(
            at as int,
            NodeView {
                is_real: match is_real {
                    Some(b) => b,
                    None => old(self)@[at as int].is_real,
                },
                is_dir: match is_dir {
                    Some(b) => b,
                    None => old(self)@[at as int].is_dir,
                },
                ..old(self)@[at as int]
            },
        ));
    }

    /// Adds a path to the tree.
    pub fn add(&mut self, path: &str, is_dir: bool)
        ensures
            final(self)@ == grown(old(self)@, pieces(path@), 0, None, is_dir),
    {
        let parts = split_raw(&chars_of(path));
        let mut current: Option<usize> = None;
        let mut k: usize = 0;
        while k < parts.len()
            invariant
                k <= parts.len(),
                texts(parts@) == pieces(path@),
                self@.len() == self.nodes.len(),
                current is Some ==> current->0 < self.nodes.len(),
                grown(old(self)@, pieces(path@), 0, None, is_dir) == grown(
                    self@,
                    pieces(path@),
                    k as int,
                    place(current),
                    is_dir,
                ),
            decreases parts.len() - k,
        {
            assert(texts(parts@)[k as int] == parts@[k as int]@);
            let mut name = parts[k].clone();
            if name.len() == 0 {
                name.push('/');
                assert(name@ =~= seq!['/']);
            }
            let last = k == parts.len() - 1;
            match current {
                Some(p) => self.mark(p, None, Some(true)),
                None => {},
            }
            let ghost marked = self@;
            match self.child(&current, &name) {
                Some(c) => {
                    if last {
                        self.mark(c, Some(true), None);
                    }
                    current = Some(c);
                },
                None => {
                    let mut full: Vec<char> = Vec::new();
                    match current {
                        Some(p) => {
                            assert(self@[p as int] == self.nodes@[p as int]@);
                            full = self.nodes[p].path.clone();
                        },
                        None => {},
                    }
                    assert(full@ == path_of(marked, place(current)));
                    let ghost prefix = full@;
                    if full.len() > 0 && !(full.len() == 1 && full[0] == '/') {
                        full.push('/');
                    }
                    proof {
                        if prefix.len() == 1 && prefix[0] == '/' {
                            assert(prefix =~= seq!['/']);
                        } else if prefix.len() > 0 {
                            assert(seq!['/'].len() == 1);
                            assert(seq!['/'][0] == '/');
                        }
                    }
                    let ghost head = full@;
                    let mut i: usize = 0;
                    while i < name.len()
                        invariant
                            i <= name.len(),
                            full@ == head + name@.subrange(0, i as int),
                        decreases name.len() - i,
                    {
                        full.push(name[i]);
                        i += 1;
                        assert(full@ =~= head + name@.subrange(0, i as int));
                    }
                    assert(name@.subrange(0, name.len() as int) =~= name@);
                    assert(full@ =~= extended(prefix, name@));
                    let at = self.nodes.len();
                    self.nodes.push(
                        Node { name, path: full, parent: current, is_real: last, is_dir: true },
                    );
                    assert(self@ =~= marked.push(
                        NodeView {
                            name: label(pieces(path@)[k as int]),
                            path: extended(path_of(marked, place(current)), label(
                                pieces(path@)[k as int],
                            )),
                            parent: place(current),
                            is_real: last,
                            is_dir: true,
                        },
                    ));
                    current = Some(at);
                },
            }
            k += 1;
        }
        match current {
            Some(p) => self.mark(p, None, Some(is_dir)),
            None => {},
        }
    }

    /// The paths that were added, in ascending order.
    pub fn paths(&self) -> (r: Vec<String>)
        ensures
            ascending(crate::query::names_of(r@)),
            r@.len() == real_paths(showing(self@), self@.len() as int).len(),
            forall|t: Seq<char>|
                crate::query::names_of(r@).contains(t) <==> real_paths(
                    showing(self@),
                    self@.len() as int,
                ).contains(t),
    {
        let mut found: Vec<Vec<char>> = Vec::new();
        let mut i: usize = 0;
        assert(texts(found@) =~= real_paths(showing(self@), 0));
        while i < self.nodes.len()
            invariant
                i <= self.nodes.len(),
                self@.len() == self.nodes.len(),
                texts(found@) == real_paths(showing(self@), i as int),
            decreases self.nodes.len() - i,
        {
            assert(self@[i as int] == self.nodes@[i as int]@);
            assert(showing(self@)[i as int] == shown(self@[i as int]));
            let ghost before = texts(found@);
            if self.nodes[i].is_real {
                found.push(self.nodes[i].path.clone());
                assert(texts(found@) =~= before + seq![self@[i as int].path]);
            } else {
                assert(before + Seq::<Seq<char>>::empty() =~= before);
            }
            i += 1;
        }
        let ordered = sorted(found);
        let mut out: Vec<String> = Vec::new();
        let mut k: usize = 0;
        while k < ordered.len()
            invariant
                k <= ordered.len(),
                crate::query::names_of(out@) == texts(ordered@).subrange(0, k as int),
            decreases ordered.len() - k,
        {
            let ghost before = crate::query::names_of(out@);
            let one = string_of(&ordered[k], 0, ordered[k].len());
            assert(one@ =~= ordered@[k as int]@);
            assert(texts(ordered@)[k as int] == ordered@[k as int]@);
            out.push(one);
            assert(crate::query::names_of(out@) =~= before.push(one@));
            k += 1;
            assert(crate::query::names_of(out@) =~= texts(ordered@).subrange(0, k as int));
        }
        assert(texts(ordered@).subrange(0, ordered@.len() as int) =~= texts(ordered@));
        out
    }

    /// The tree of the nodes that have no real node above them.
    pub fn top_level(&self) -> (r: Tree)
        ensures
            showing(r@) == pruned(self@, self@.len() as int),
    {
        let mut keep: Vec<bool> = Vec::new();
        let mut moved_to: Vec<usize> = Vec::new();
        let mut result = Tree::new();
        let mut i: usize = 0;
        assert(showing(result@) =~= pruned(self@, 0));
        while i < self.nodes.len()
            invariant
                i <= self.nodes.len(),
                self@.len() == self.nodes.len(),
                keep.len() == i,
                moved_to.len() == i,
                result@.len() == result.nodes.len(),
                result.nodes.len() <= i,
                forall|j: int| 0 <= j < i ==> #[trigger] keep@[j] == kept(self@, j),
                showing(result@) == pruned(self@, i as int),
            decreases self.nodes.len() - i,
        {
            assert(self@[i as int] == self.nodes@[i as int]@);
            let node = &self.nodes[i];
            let (stays, parent) = match node.parent {
                None => (true, None),
                Some(p) => {
                    if p < i && keep[p] && !self.nodes[p].is_real {
                        assert(self@[p as int] == self.nodes@[p as int]@);
                        (true, Some(moved_to[p]))
                    } else {
                        if p < i {
                            assert(self@[p as int] == self.nodes@[p as int]@);
                        }
                        (false, None)
                    }
                },
            };
            assert(stays == kept(self@, i as int));
            keep.push(stays);
            moved_to.push(result.nodes.len());
            if stays {
                let ghost before = result@;
                result.nodes.push(
                    Node {
                        name: node.name.clone(),
                        path: node.path.clone(),
                        parent,
                        is_real: node.is_real,
                        is_dir: node.is_dir,
                    },
                );
                assert(showing(result@) =~= showing(before).push(shown(self@[i as int])));
            } else {
                assert(pruned(self@, i as int) + Seq::<
                    (Seq<char>, Seq<char>, bool, bool),
                >::empty() =~= pruned(self@, i as int));
            }
            i += 1;
        }
        result
    }
}

} // verus!
