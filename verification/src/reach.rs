//! Reachability along the edges of a graph, and the facts the cycle
//! check rests on.  Both edge kinds order their endpoints, so paths
//! follow every edge alike.

use vstd::prelude::*;
use crate::edge::Edge;
use crate::edge::edge_source;
use crate::edge::edge_target;

verus! {

/// Some edge goes directly from `a` to `b`.
pub open spec fn connects(edges: Seq<Edge>, a: usize, b: usize) -> bool {
    exists|k: int|
        0 <= k < edges.len() && edge_source(edges[k]) == a && edge_target(edges[k]) == b
}

/// `p` lists nodes that successive edges of the graph join.
pub open spec fn is_path(edges: Seq<Edge>, p: Seq<usize>) -> bool {
    &&& p.len() >= 1
    &&& forall|k: int| 0 <= k < p.len() - 1 ==> connects(edges, #[trigger] p[k], p[k + 1])
}

/// `b` can be reached from `a` by following zero or more edges.
/// Every node reaches itself.
pub open spec fn reaches(edges: Seq<Edge>, a: usize, b: usize) -> bool {
    exists|p: Seq<usize>| is_path(edges, p) && p.first() == a && p.last() == b
}

/// No edge closes a cycle: nothing an edge points at leads back to the
/// node the edge came from.
pub open spec fn acyclic(edges: Seq<Edge>) -> bool {
    forall|a: usize, b: usize| #[trigger] connects(edges, a, b) ==> !reaches(edges, b, a)
}

/// A node reaches itself.
pub proof fn lemma_reaches_refl(edges: Seq<Edge>, a: usize)
    ensures
        reaches(edges, a, a),
{
    let p = seq![a];
    assert(is_path(edges, p) && p.first() == a && p.last() == a);
}

/// An edge is a path of one step.
pub proof fn lemma_connects_reaches(edges: Seq<Edge>, a: usize, b: usize)
    requires
        connects(edges, a, b),
    ensures
        reaches(edges, a, b),
{
    let p = seq![a, b];
    assert(p.first() == a && p.last() == b);
    assert forall|k: int| 0 <= k < p.len() - 1 implies connects(edges, #[trigger] p[k], p[k + 1]) by {
        assert(p[k] == a && p[k + 1] == b);
    }
}

/// A path can be extended by one more edge.
pub proof fn lemma_reaches_step(edges: Seq<Edge>, a: usize, b: usize, c: usize)
    requires
        reaches(edges, a, b),
        connects(edges, b, c),
    ensures
        reaches(edges, a, c),
{
    let p = choose|p: Seq<usize>| is_path(edges, p) && p.first() == a && p.last() == b;
    let q = p.push(c);
    assert(q.first() == a);
    assert(q.last() == c);
    assert forall|k: int| 0 <= k < q.len() - 1 implies connects(edges, #[trigger] q[k], q[k + 1]) by {
        if k < p.len() - 1 {
            assert(connects(edges, p[k], p[k + 1]));
            assert(q[k] == p[k] && q[k + 1] == p[k + 1]);
        } else {
            assert(q[k] == p.last() && q[k + 1] == c);
        }
    }
    assert(is_path(edges, q));
}

/// A node that reaches the head of a path reaches its end.
proof fn lemma_reaches_along(edges: Seq<Edge>, a: usize, q: Seq<usize>)
    requires
        is_path(edges, q),
        reaches(edges, a, q.first()),
    ensures
        reaches(edges, a, q.last()),
    decreases q.len(),
{
    if q.len() > 1 {
        assert(connects(edges, q[0], q[1]));
        lemma_reaches_step(edges, a, q.first(), q[1]);
        let q2 = q.drop_first();
        assert forall|k: int| 0 <= k < q2.len() - 1 implies connects(edges, #[trigger] q2[k], q2[k + 1]) by {
            assert(q2[k] == q[k + 1] && q2[k + 1] == q[k + 2]);
            assert(connects(edges, q[k + 1], q[k + 2]));
        }
        assert(is_path(edges, q2) && q2.first() == q[1] && q2.last() == q.last());
        lemma_reaches_along(edges, a, q2);
    }
}

/// Reachability is transitive.
pub proof fn lemma_reaches_trans(edges: Seq<Edge>, a: usize, b: usize, c: usize)
    requires
        reaches(edges, a, b),
        reaches(edges, b, c),
    ensures
        reaches(edges, a, c),
{
    let q = choose|q: Seq<usize>| is_path(edges, q) && q.first() == b && q.last() == c;
    lemma_reaches_along(edges, a, q);
}


/// A path of the grown graph either avoids the new edge, and is a path
/// of the old graph, or crosses it, and then the old graph leads from
/// the path's head to the new edge's source and from the new edge's
/// target to the path's end.
proof fn lemma_path_with_new_edge(edges: Seq<Edge>, e: Edge, p: Seq<usize>)
    requires
        is_path(edges.push(e), p),
    ensures
        is_path(edges, p) || (reaches(edges, p.first(), edge_source(e)) && reaches(
            edges,
            edge_target(e),
            p.last(),
        )),
    decreases p.len(),
{
    let s = edge_source(e);
    let t = edge_target(e);
    if p.len() > 1 {
        let p2 = p.drop_first();
        assert forall|k: int| 0 <= k < p2.len() - 1 implies connects(
            edges.push(e),
            #[trigger] p2[k],
            p2[k + 1],
        ) by {
            assert(p2[k] == p[k + 1] && p2[k + 1] == p[k + 2]);
            assert(connects(edges.push(e), p[k + 1], p[k + 2]));
        }
        assert(is_path(edges.push(e), p2) && p2.first() == p[1] && p2.last() == p.last());
        lemma_path_with_new_edge(edges, e, p2);
        assert(connects(edges.push(e), p[0], p[1]));
        let k0 = choose|k0: int|
            0 <= k0 < edges.push(e).len() && edge_source(edges.push(e)[k0]) == p[0]
                && edge_target(edges.push(e)[k0]) == p[1];
        if k0 < edges.len() {
            assert(edges.push(e)[k0] == edges[k0]);
            assert(connects(edges, p[0], p[1]));
            if is_path(edges, p2) {
                assert forall|k: int| 0 <= k < p.len() - 1 implies connects(
                    edges,
                    #[trigger] p[k],
                    p[k + 1],
                ) by {
                    if k == 0 {
                    } else {
                        assert(p2[k - 1] == p[k] && p2[k] == p[k + 1]);
                        assert(connects(edges, p2[k - 1], p2[k]));
                    }
                }
                assert(is_path(edges, p));
            } else {
                lemma_connects_reaches(edges, p[0], p[1]);
                lemma_reaches_trans(edges, p[0], p[1], s);
            }
        } else {
            assert(edges.push(e)[k0] == e);
            assert(p[0] == s && p[1] == t);
            lemma_reaches_refl(edges, s);
            if is_path(edges, p2) {
                assert(reaches(edges, t, p.last()));
            }
        }
    }
}

/// Adding an edge whose target does not already lead back to its
/// source keeps the graph acyclic.
pub proof fn lemma_acyclic_push(edges: Seq<Edge>, e: Edge)
    requires
        acyclic(edges),
        !reaches(edges, edge_target(e), edge_source(e)),
    ensures
        acyclic(edges.push(e)),
{
    let s = edge_source(e);
    let t = edge_target(e);
    let grown = edges.push(e);
    assert forall|a: usize, b: usize| #[trigger] connects(grown, a, b) implies !reaches(
        grown,
        b,
        a,
    ) by {
        if reaches(grown, b, a) {
            let p = choose|p: Seq<usize>| is_path(grown, p) && p.first() == b && p.last() == a;
            lemma_path_with_new_edge(edges, e, p);
            let k0 = choose|k0: int|
                0 <= k0 < grown.len() && edge_source(grown[k0]) == a && edge_target(grown[k0]) == b;
            if k0 < edges.len() {
                assert(grown[k0] == edges[k0]);
                assert(connects(edges, a, b));
                if is_path(edges, p) {
                    assert(reaches(edges, b, a));
                    assert(false);
                } else {
                    lemma_connects_reaches(edges, a, b);
                    lemma_reaches_trans(edges, t, a, b);
                    lemma_reaches_trans(edges, t, b, s);
                    assert(false);
                }
            } else {
                assert(grown[k0] == e);
                assert(a == s && b == t);
                if is_path(edges, p) {
                    assert(reaches(edges, t, s));
                    assert(false);
                } else {
                    assert(reaches(edges, t, s));
                    assert(false);
                }
            }
        }
    }
}

/// A set of nodes that holds the head of a path and is closed under
/// the graph's edges holds the path's end.
pub proof fn lemma_closed_covers(edges: Seq<Edge>, flags: Seq<bool>, p: Seq<usize>)
    requires
        is_path(edges, p),
        forall|k: int|
            0 <= k < edges.len() ==> edge_source(#[trigger] edges[k]) < flags.len()
                && edge_target(edges[k]) < flags.len(),
        p.first() < flags.len(),
        flags[p.first() as int],
        forall|a: usize, b: usize|
            a < flags.len() && flags[a as int] && #[trigger] connects(edges, a, b) ==> b
                < flags.len() && flags[b as int],
    ensures
        p.last() < flags.len() && flags[p.last() as int],
    decreases p.len(),
{
    if p.len() > 1 {
        assert(connects(edges, p[0], p[1]));
        let p2 = p.drop_first();
        assert forall|k: int| 0 <= k < p2.len() - 1 implies connects(edges, #[trigger] p2[k], p2[k + 1]) by {
            assert(p2[k] == p[k + 1] && p2[k + 1] == p[k + 2]);
            assert(connects(edges, p[k + 1], p[k + 2]));
        }
        assert(is_path(edges, p2) && p2.first() == p[1] && p2.last() == p.last());
        lemma_closed_covers(edges, flags, p2);
    }
}

/// How many entries of a flag sequence are set.  The fixpoint search
/// of the cycle check terminates because this count grows every round.
pub open spec fn count_true(s: Seq<bool>) -> int
    decreases s.len(),
{
    if s.len() == 0 {
        0
    } else {
        count_true(s.drop_last()) + if s.last() {
            1int
        } else {
            0int
        }
    }
}

/// At most every entry is set.
pub proof fn lemma_count_true_le(s: Seq<bool>)
    ensures
        0 <= count_true(s) <= s.len(),
    decreases s.len(),
{
    if s.len() > 0 {
        lemma_count_true_le(s.drop_last());
    }
}

/// Setting a clear entry raises the count by one.
pub proof fn lemma_count_true_update(s: Seq<bool>, j: int)
    requires
        0 <= j < s.len(),
        !s[j],
    ensures
        count_true(s.update(j, true)) == count_true(s) + 1,
    decreases s.len(),
{
    let s2 = s.update(j, true);
    if j == s.len() - 1 {
        assert(s2.drop_last() =~= s.drop_last());
        assert(s2.last());
    } else {
        assert(s2.drop_last() =~= s.drop_last().update(j, true));
        lemma_count_true_update(s.drop_last(), j);
        assert(s2.last() == s.last());
    }
}

/// A sequence of clear flags has count zero.
pub proof fn lemma_count_true_all_clear(s: Seq<bool>)
    requires
        forall|j: int| 0 <= j < s.len() ==> !s[j],
    ensures
        count_true(s) == 0,
    decreases s.len(),
{
    if s.len() > 0 {
        lemma_count_true_all_clear(s.drop_last());
    }
}

/// From a node without outgoing edges, only the node itself can be
/// reached.
pub proof fn lemma_no_outgoing(edges: Seq<Edge>, a: usize, b: usize)
    requires
        forall|k: int| 0 <= k < edges.len() ==> edge_source(#[trigger] edges[k]) != a,
        reaches(edges, a, b),
    ensures
        a == b,
{
    let p = choose|p: Seq<usize>| is_path(edges, p) && p.first() == a && p.last() == b;
    if p.len() > 1 {
        assert(connects(edges, p[0], p[1]));
        let k0 = choose|k0: int|
            0 <= k0 < edges.len() && edge_source(edges[k0]) == p[0] && edge_target(edges[k0]) == p[1];
        assert(false);
    }
}

} // verus!
