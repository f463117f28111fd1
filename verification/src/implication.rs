//! Implications between tags: what follows from a set of tagged pairs,
//! and whether a new implication would close a cycle.
//!
//! A node is a tag with or without a value; an implication leads from an
//! implying node to an implied one. An implying node without a value
//! stands for the tag with any value.

use vstd::prelude::*;
use crate::entities::TagIdValueIdPair;
use crate::errors::Error;

verus! {

/// A tag and a value, as the store numbers them; 0 for no value.
#[derive(Debug, Clone, Copy, PartialEq, Eq, Hash, Structural)]
pub struct Node {
    pub tag: u32,
    pub value: u32,
}

/// One implication.
#[derive(Debug, Clone, Copy, PartialEq, Eq, Hash, Structural)]
pub struct Edge {
    pub implying: Node,
    pub implied: Node,
}

impl TagIdValueIdPair {
    /// The pair as a node.
    pub open spec fn node(self) -> Node {
        Node { tag: self.tag_id.0, value: self.value_id.raw() }
    }

    pub fn to_node(&self) -> (n: Node)
        ensures
            n == self.node(),
    {
        Node { tag: self.tag_id.0, value: self.value_id.as_u32() }
    }
}

/// Whether an implying node applies to a node: the tags agree, and the
/// implying node has no value or has the node's value.
pub open spec fn applies(implying: Node, n: Node) -> bool {
    implying.tag == n.tag && (implying.value == 0 || implying.value == n.value)
}

/// Whether one implication leads from `a` to `b`.
pub open spec fn step(edges: Seq<Edge>, a: Node, b: Node) -> bool {
    exists|i: int|
        #![trigger edges[i]]
        0 <= i < edges.len() && applies(edges[i].implying, a) && edges[i].implied == b
}

/// Whether `n` implications in a row lead from `a` to `b`.
pub open spec fn reach_in(edges: Seq<Edge>, a: Node, b: Node, n: nat) -> bool
    decreases n,
{
    if n == 0 {
        a == b
    } else {
        exists|m: Node|
            #![trigger step(edges, m, b)]
            reach_in(edges, a, m, (n - 1) as nat) && step(edges, m, b)
    }
}

/// Whether implications lead from `a` to `b`; none are needed where the
/// two are the same.
pub open spec fn reaches(edges: Seq<Edge>, a: Node, b: Node) -> bool {
    exists|n: nat| reach_in(edges, a, b, n)
}

/// Whether implications lead from one of `start` to `b`.
pub open spec fn reached(edges: Seq<Edge>, start: Set<Node>, b: Node) -> bool {
    exists|a: Node| #![trigger reaches(edges, a, b)] start.contains(a) && reaches(edges, a, b)
}

/// Whether an implication applies to a node that `start` leads to.
pub open spec fn follows(edges: Seq<Edge>, start: Set<Node>, e: Edge) -> bool {
    edges.contains(e) && exists|m: Node|
        #![trigger reached(edges, start, m)]
        reached(edges, start, m) && applies(e.implying, m)
}

/// The implications that follow from a set of nodes, directly or through
/// others.
pub open spec fn closure(edges: Seq<Edge>, start: Set<Node>) -> Set<Edge> {
    Set::new(|e: Edge| follows(edges, start, e))
}

/// Whether the implication from `implying` to `implied` would close a
/// cycle: `implying` applies to `implied` or to a node that it leads to.
pub open spec fn would_cycle(edges: Seq<Edge>, implying: Node, implied: Node) -> bool {
    exists|n: Node|
        #![trigger reaches(edges, implied, n)]
        reaches(edges, implied, n) && applies(implying, n)
}

/// Whether no implication lies on a cycle.
pub open spec fn acyclic(edges: Seq<Edge>) -> bool {
    forall|i: int|
        #![trigger edges[i]]
        0 <= i < edges.len() ==> !would_cycle(edges, edges[i].implying, edges[i].implied)
}

pub proof fn lemma_reach_extend(edges: Seq<Edge>, a: Node, m: Node, b: Node)
    requires
        reaches(edges, a, m),
        step(edges, m, b),
    ensures
        reaches(edges, a, b),
{
    let n = choose|n: nat| reach_in(edges, a, m, n);
    assert(reach_in(edges, a, m, ((n + 1) - 1) as nat));
    assert(reach_in(edges, a, b, n + 1));
}

pub proof fn lemma_reach_self(edges: Seq<Edge>, a: Node)
    ensures
        reaches(edges, a, a),
{
    assert(reach_in(edges, a, a, 0));
}

proof fn lemma_reach_trans_in(edges: Seq<Edge>, a: Node, b: Node, c: Node, n: nat)
    requires
        reaches(edges, a, b),
        reach_in(edges, b, c, n),
    ensures
        reaches(edges, a, c),
    decreases n,
{
    if n > 0 {
        let m = choose|m: Node|
            #![trigger step(edges, m, c)]
            reach_in(edges, b, m, (n - 1) as nat) && step(edges, m, c);
        lemma_reach_trans_in(edges, a, b, m, (n - 1) as nat);
        lemma_reach_extend(edges, a, m, c);
    }
}

/// Reaching is transitive.
pub proof fn lemma_reach_trans(edges: Seq<Edge>, a: Node, b: Node, c: Node)
    requires
        reaches(edges, a, b),
        reaches(edges, b, c),
    ensures
        reaches(edges, a, c),
{
    let n = choose|n: nat| reach_in(edges, b, c, n);
    lemma_reach_trans_in(edges, a, b, c, n);
}

/// What follows from two sets together holds all that follows from
/// either of them.
pub proof fn lemma_closure_monotone(edges: Seq<Edge>, s1: Set<Node>, s2: Set<Node>)
    ensures
        closure(edges, s1).union(closure(edges, s2)).subset_of(closure(edges, s1.union(s2))),
{
    let u = s1.union(s2);
    assert forall|e: Edge| closure(edges, s1).contains(e) || closure(edges, s2).contains(
        e,
    ) implies closure(edges, u).contains(e) by {
        if closure(edges, s1).contains(e) {
            let m = choose|m: Node|
                #![trigger reached(edges, s1, m)]
                reached(edges, s1, m) && applies(e.implying, m);
            let a = choose|a: Node| #![trigger reaches(edges, a, m)] s1.contains(a) && reaches(edges, a, m);
            assert(u.contains(a));
            assert(reached(edges, u, m));
        } else {
            let m = choose|m: Node|
                #![trigger reached(edges, s2, m)]
                reached(edges, s2, m) && applies(e.implying, m);
            let a = choose|a: Node| #![trigger reaches(edges, a, m)] s2.contains(a) && reaches(edges, a, m);
            assert(u.contains(a));
            assert(reached(edges, u, m));
        }
    }
}

/// A path through the implications with one more, from `x` to `y`, is a
/// path without it, or `x` leads to a node that the new one applies to
/// and its implied node leads to `y`.
proof fn lemma_split(edges: Seq<Edge>, e: Edge, x: Node, y: Node, k: nat)
    requires
        reach_in(edges.push(e), x, y, k),
    ensures
        reaches(edges, x, y) || (would_cycle(edges, e.implying, x) && reaches(
            edges,
            e.implied,
            y,
        )),
    decreases k,
{
    let more = edges.push(e);
    if k == 0 {
        lemma_reach_self(edges, x);
    } else {
        let m = choose|m: Node|
            #![trigger step(more, m, y)]
            reach_in(more, x, m, (k - 1) as nat) && step(more, m, y);
        lemma_split(edges, e, x, m, (k - 1) as nat);
        let i = choose|i: int|
            #![trigger more[i]]
            0 <= i < more.len() && applies(more[i].implying, m) && more[i].implied == y;
        if i < edges.len() {
            assert(more[i] == edges[i]);
            assert(step(edges, m, y));
            if reaches(edges, x, m) {
                lemma_reach_extend(edges, x, m, y);
            } else {
                lemma_reach_extend(edges, e.implied, m, y);
            }
        } else {
            assert(more[i] == e);
            lemma_reach_self(edges, e.implied);
            if reaches(edges, x, m) {
                assert(would_cycle(edges, e.implying, x));
            }
        }
    }
}

/// Adding an implication that would close no cycle to implications
/// without a cycle leaves them without one.
pub proof fn lemma_add_keeps_acyclic(edges: Seq<Edge>, e: Edge)
    requires
        acyclic(edges),
        !would_cycle(edges, e.implying, e.implied),
    ensures
        acyclic(edges.push(e)),
{
    let more = edges.push(e);
    assert forall|i: int| #![trigger more[i]] 0 <= i < more.len() implies !would_cycle(
        more,
        more[i].implying,
        more[i].implied,
    ) by {
        let f = more[i];
        if would_cycle(more, f.implying, f.implied) {
            let n = choose|n: Node|
                #![trigger reaches(more, f.implied, n)]
                reaches(more, f.implied, n) && applies(f.implying, n);
            let k = choose|k: nat| reach_in(more, f.implied, n, k);
            lemma_split(edges, e, f.implied, n, k);
            if i < edges.len() {
                assert(f == edges[i]);
                if reaches(edges, f.implied, n) {
                    assert(would_cycle(edges, edges[i].implying, edges[i].implied));
                } else {
                    // the new implication's target leads to n, from where f leads on
                    assert(step(edges, n, f.implied));
                    lemma_reach_extend(edges, e.implied, n, f.implied);
                    let t = choose|t: Node|
                        #![trigger reaches(edges, f.implied, t)]
                        reaches(edges, f.implied, t) && applies(e.implying, t);
                    lemma_reach_trans(edges, e.implied, f.implied, t);
                    assert(would_cycle(edges, e.implying, e.implied));
                }
            } else {
                assert(f == e);
                if reaches(edges, e.implied, n) {
                    assert(would_cycle(edges, e.implying, e.implied));
                }
            }
        }
    }
}


/// How many entries are false.
pub open spec fn unmarked(m: Seq<bool>) -> nat
    decreases m.len(),
{
    if m.len() == 0 {
        0
    } else {
        unmarked(m.drop_last()) + if m.last() {
            0nat
        } else {
            1nat
        }
    }
}

proof fn lemma_mark(m: Seq<bool>, i: int)
    requires
        0 <= i < m.len(),
        !m[i],
    ensures
        unmarked(m.update(i, true)) + 1 == unmarked(m),
    decreases m.len(),
{
    if i == m.len() - 1 {
        assert(m.update(i, true).drop_last() =~= m.drop_last());
    } else {
        lemma_mark(m.drop_last(), i);
        assert(m.update(i, true).drop_last() =~= m.drop_last().update(i, true));
    }
}

/// Whether every implication that applies to one of the nodes has its
/// implied node among them.
pub open spec fn saturated(edges: Seq<Edge>, nodes: Seq<Node>) -> bool {
    forall|i: int, k: int|
        #![trigger edges[i], nodes[k]]
        0 <= i < edges.len() && 0 <= k < nodes.len() && applies(edges[i].implying, nodes[k])
            ==> nodes.contains(edges[i].implied)
}

proof fn lemma_saturated_holds_all(edges: Seq<Edge>, nodes: Seq<Node>, a: Node, b: Node, n: nat)
    requires
        saturated(edges, nodes),
        nodes.contains(a),
        reach_in(edges, a, b, n),
    ensures
        nodes.contains(b),
    decreases n,
{
    if n > 0 {
        let m = choose|m: Node|
            #![trigger step(edges, m, b)]
            reach_in(edges, a, m, (n - 1) as nat) && step(edges, m, b);
        lemma_saturated_holds_all(edges, nodes, a, m, (n - 1) as nat);
        let i = choose|i: int|
            #![trigger edges[i]]
            0 <= i < edges.len() && applies(edges[i].implying, m) && edges[i].implied == b;
        let k = choose|k: int| 0 <= k < nodes.len() && nodes[k] == m;
        assert(applies(edges[i].implying, nodes[k]));
    }
}

fn applies_to(implying: Node, n: Node) -> (r: bool)
    ensures
        r == applies(implying, n),
{
    implying.tag == n.tag && (implying.value == 0 || implying.value == n.value)
}

/// The first of the nodes that an implying node applies to.
fn first_applying(implying: Node, nodes: &Vec<Node>) -> (r: Option<usize>)
    ensures
        match r {
            Some(k) => k < nodes.len() && applies(implying, nodes@[k as int]),
            None => forall|k: int| 0 <= k < nodes.len() ==> !applies(implying, #[trigger] nodes@[k]),
        },
{
    let mut k: usize = 0;
    while k < nodes.len()
        invariant
            k <= nodes.len(),
            forall|j: int| 0 <= j < k ==> !applies(implying, #[trigger] nodes@[j]),
        decreases nodes.len() - k,
    {
        if applies_to(implying, nodes[k]) {
            return Some(k);
        }
        k += 1;
    }
    None
}

pub(crate) fn holds_edge(list: &Vec<Edge>, e: Edge) -> (r: bool)
    ensures
        r == list@.contains(e),
{
    let mut k: usize = 0;
    while k < list.len()
        invariant
            k <= list.len(),
            forall|j: int| 0 <= j < k ==> list@[j] != e,
        decreases list.len() - k,
    {
        if list[k] == e {
            return true;
        }
        k += 1;
    }
    false
}

/// The state of a search through the implications.
pub open spec fn search_ok(
    edges: Seq<Edge>,
    pairs: Seq<Node>,
    nodes: Seq<Node>,
    marked: Seq<bool>,
    found: Seq<Edge>,
) -> bool {
    &&& marked.len() == edges.len()
    &&& nodes.len() >= pairs.len()
    &&& forall|j: int| 0 <= j < pairs.len() ==> #[trigger] nodes[j] == pairs[j]
    &&& forall|k: int| 0 <= k < nodes.len() ==> reached(edges, pairs.to_set(), #[trigger] nodes[k])
    &&& forall|i: int|
        0 <= i < edges.len() && #[trigger] marked[i] ==> found.contains(edges[i]) && nodes.contains(
            edges[i].implied,
        )
    &&& forall|x: int| 0 <= x < found.len() ==> follows(edges, pairs.to_set(), #[trigger] found[x])
    &&& found.no_duplicates()
}

/// Whether no unmarked implication among the first `upto` applies to a node.
pub open spec fn settled(edges: Seq<Edge>, nodes: Seq<Node>, marked: Seq<bool>, upto: int) -> bool {
    forall|i: int, k: int|
        #![trigger marked[i], nodes[k]]
        0 <= i < upto && 0 <= k < nodes.len() && !marked[i] ==> !applies(
            edges[i].implying,
            nodes[k],
        )
}

/// Follows the implications from the given nodes until nothing new is
/// found. Gives the implications followed and the nodes met, the given
/// ones among them.
pub fn explore(edges: &Vec<Edge>, pairs: &Vec<Node>) -> (r: (Vec<Edge>, Vec<Node>))
    ensures
        forall|e: Edge| r.0@.contains(e) <==> follows(edges@, pairs@.to_set(), e),
        forall|n: Node| r.1@.contains(n) <==> reached(edges@, pairs@.to_set(), n),
        r.0@.no_duplicates(),
{
    let mut nodes: Vec<Node> = Vec::new();
    let mut j: usize = 0;
    while j < pairs.len()
        invariant
            j <= pairs.len(),
            nodes@ == pairs@.subrange(0, j as int),
        decreases pairs.len() - j,
    {
        nodes.push(pairs[j]);
        j += 1;
        assert(nodes@ =~= pairs@.subrange(0, j as int));
    }
    let mut marked: Vec<bool> = Vec::new();
    let mut i: usize = 0;
    while i < edges.len()
        invariant
            i <= edges.len(),
            marked.len() == i,
            forall|x: int| 0 <= x < i ==> !marked@[x],
        decreases edges.len() - i,
    {
        marked.push(false);
        i += 1;
    }
    let mut found: Vec<Edge> = Vec::new();
    proof {
        assert forall|k: int| 0 <= k < nodes.len() implies reached(
            edges@,
            pairs@.to_set(),
            #[trigger] nodes@[k],
        ) by {
            lemma_reach_self(edges@, nodes@[k]);
            assert(pairs@.contains(pairs@[k]));
        }
    }
    let mut changed = true;
    while changed
        invariant
            search_ok(edges@, pairs@, nodes@, marked@, found@),
            !changed ==> settled(edges@, nodes@, marked@, edges.len() as int),
        decreases unmarked(marked@), changed as int,
    {
        changed = false;
        let ghost before = unmarked(marked@);
        let mut i: usize = 0;
        while i < edges.len()
            invariant
                i <= edges.len(),
                search_ok(edges@, pairs@, nodes@, marked@, found@),
                !changed ==> settled(edges@, nodes@, marked@, i as int),
                !changed ==> unmarked(marked@) == before,
                changed ==> unmarked(marked@) < before,
            decreases edges.len() - i,
        {
            if !marked[i] {
                let e = edges[i];
                match first_applying(e.implying, &nodes) {
                    Some(k) => {
                        let ghost m = nodes@[k as int];
                        proof {
                            lemma_mark(marked@, i as int);
                            let a = choose|a: Node|
                                #![trigger reaches(edges@, a, m)]
                                pairs@.to_set().contains(a) && reaches(edges@, a, m);
                            assert(step(edges@, m, e.implied));
                            lemma_reach_extend(edges@, a, m, e.implied);
                            assert(reached(edges@, pairs@.to_set(), e.implied));
                            assert(edges@.contains(e));
                            assert(follows(edges@, pairs@.to_set(), e));
                        }
                        let ghost old_nodes = nodes@;
                        let ghost old_found = found@;
                        let ghost old_marked = marked@;
                        marked.set(i, true);
                        nodes.push(e.implied);
                        if !holds_edge(&found, e) {
                            found.push(e);
                            assert(found@[old_found.len() as int] == e);
                        }
                        changed = true;
                        proof {
                            assert(found@.contains(e));
                            assert(nodes@[old_nodes.len() as int] == e.implied);
                            assert forall|x: int|
                                0 <= x < edges.len() && #[trigger] marked@[x] implies found@.contains(
                                edges@[x],
                            ) && nodes@.contains(edges@[x].implied) by {
                                if x == i {
                                    assert(found@.contains(e));
                                } else {
                                    assert(old_marked[x]);
                                    let w = choose|w: int|
                                        0 <= w < old_found.len() && old_found[w] == edges@[x];
                                    assert(found@[w] == edges@[x]);
                                    let v = choose|v: int|
                                        0 <= v < old_nodes.len() && old_nodes[v]
                                            == edges@[x].implied;
                                    assert(nodes@[v] == edges@[x].implied);
                                }
                            }
                        }
                    },
                    None => {},
                }
            }
            i += 1;
        }
    }
    proof {
        let start = pairs@.to_set();
        assert(saturated(edges@, nodes@)) by {
            assert forall|i: int, k: int|
                #![trigger edges@[i], nodes@[k]]
                0 <= i < edges.len() && 0 <= k < nodes.len() && applies(
                    edges@[i].implying,
                    nodes@[k],
                ) implies nodes@.contains(edges@[i].implied) by {
                if !marked@[i] {
                    assert(!applies(edges@[i].implying, nodes@[k]));
                }
            }
        }
        assert forall|n: Node| reached(edges@, start, n) implies nodes@.contains(n) by {
            let a = choose|a: Node|
                #![trigger reaches(edges@, a, n)]
                start.contains(a) && reaches(edges@, a, n);
            let len = choose|len: nat| reach_in(edges@, a, n, len);
            let j = choose|j: int| 0 <= j < pairs.len() && pairs@[j] == a;
            assert(nodes@[j] == a);
            lemma_saturated_holds_all(edges@, nodes@, a, n, len);
        }
        assert forall|e: Edge| follows(edges@, start, e) implies found@.contains(e) by {
            let m = choose|m: Node|
                #![trigger reached(edges@, start, m)]
                reached(edges@, start, m) && applies(e.implying, m);
            let i = choose|i: int| 0 <= i < edges.len() && edges@[i] == e;
            assert(nodes@.contains(m));
            let k = choose|k: int| 0 <= k < nodes.len() && nodes@[k] == m;
            if !marked@[i] {
                assert(!applies(edges@[i].implying, nodes@[k]));
            }
        }
    }
    (found, nodes)
}

/// The implications that follow from the given pairs, directly or
/// through other implications, each once.
pub fn implications_for(edges: &Vec<Edge>, pairs: &Vec<Node>) -> (r: Vec<Edge>)
    ensures
        r@.to_set() == closure(edges@, pairs@.to_set()),
        r@.no_duplicates(),
{
    let (found, _) = explore(edges, pairs);
    assert(found@.to_set() =~= closure(edges@, pairs@.to_set()));
    found
}

/// The implications that follow from one pair.
pub fn transitive_implications_for(edges: &Vec<Edge>, initial_pair: &TagIdValueIdPair) -> (r:
    Vec<Edge>)
    ensures
        r@.to_set() == closure(edges@, set![initial_pair.node()]),
        r@.no_duplicates(),
{
    let mut pairs: Vec<Node> = Vec::new();
    pairs.push(initial_pair.to_node());
    assert(pairs@.to_set() =~= set![initial_pair.node()]) by {
        assert(pairs@[0] == initial_pair.node());
    }
    implications_for(edges, &pairs)
}

/// Refuses an implication that would close a cycle.
pub fn check_for_implication_cycles(
    edges: &Vec<Edge>,
    implying: &TagIdValueIdPair,
    implied: &TagIdValueIdPair,
) -> (r: Result<(), Error>)
    ensures
        r is Err <==> would_cycle(edges@, implying.node(), implied.node()),
        r is Err ==> r->Err_0 == Error::ImplicationCycle,
{
    let from = implying.to_node();
    let to = implied.to_node();
    let mut pairs: Vec<Node> = Vec::new();
    pairs.push(to);
    let (_, nodes) = explore(edges, &pairs);
    let hit = first_applying(from, &nodes);
    proof {
        let start = pairs@.to_set();
        assert(pairs@[0] == to);
        assert(start.contains(to));
        if hit is Some {
            let n = nodes@[hit->0 as int];
            assert(nodes@.contains(n));
            assert(reached(edges@, start, n));
            let a = choose|a: Node|
                #![trigger reaches(edges@, a, n)]
                start.contains(a) && reaches(edges@, a, n);
            assert(a == to);
        } else {
            if would_cycle(edges@, from, to) {
                let n = choose|n: Node|
                    #![trigger reaches(edges@, to, n)]
                    reaches(edges@, to, n) && applies(from, n);
                assert(reached(edges@, start, n));
                assert(nodes@.contains(n));
                let k = choose|k: int| 0 <= k < nodes.len() && nodes@[k] == n;
                assert(!applies(from, nodes@[k]));
            }
        }
    }
    match hit {
        Some(_) => Err(Error::ImplicationCycle),
        None => Ok(()),
    }
}

/// Whether two optional values are the same value; two absent ones are not.
pub fn equal_values(val1: &Option<crate::entities::ValueId>, val2: &Option<crate::entities::Value>) -> (r: bool)
    ensures
        r == (val1 is Some && val2 is Some && val1->0.id() == val2->0.id.id()),
{
    match val1 {
        Some(id1) => match val2 {
            Some(v2) => *id1.as_u32() == *v2.id.as_u32(),
            None => false,
        },
        None => false,
    }
}

} // verus!
