use vstd::prelude::*;
use crate::target::{
    Node, Graph, succ, walk, push_rev, unvisited, index_bound, lemma_unvisited_push, closure_of,
    on_cycle, all_edges,
};

verus! {

/// `p` is a path of the graph: each step follows an edge of the node before it
/// (with `all`, a library's `source_deps` count as edges too).
pub open spec fn is_path(nodes: Seq<Node>, p: Seq<u32>, all: bool) -> bool {
    &&& p.len() >= 1
    &&& forall|k: int| 0 <= k < p.len() - 1 ==> #[trigger] step_ok(nodes, p, k, all)
}

/// Step `k` of `p` follows an edge.
pub open spec fn step_ok(nodes: Seq<Node>, p: Seq<u32>, k: int, all: bool) -> bool {
    (p[k] as int) < nodes.len() && succ(nodes[p[k] as int], all).contains(p[k + 1])
}

/// Some path leads from `a` to `b`.
pub open spec fn reaches(nodes: Seq<Node>, a: u32, b: u32, all: bool) -> bool {
    exists|p: Seq<u32>| #[trigger] is_path(nodes, p, all) && p[0] == a && p.last() == b
}

/// Some path of at least one step leads from `a` to `b`.
pub open spec fn reaches_by_steps(nodes: Seq<Node>, a: u32, b: u32, all: bool) -> bool {
    exists|p: Seq<u32>| #[trigger]
        is_path(nodes, p, all) && p.len() >= 2 && p[0] == a && p.last() == b
}

proof fn lemma_push_rev_contains(s: Seq<u32>, e: Seq<u32>, y: u32)
    requires
        push_rev(s, e).contains(y),
    ensures
        s.contains(y) || e.contains(y),
    decreases e.len(),
{
    if e.len() > 0 {
        lemma_push_rev_contains(s.push(e.last()), e.drop_last(), y);
        if s.push(e.last()).contains(y) {
            crate::target::lemma_contains_push(s, e.last(), y);
            if y == e.last() {
                assert(e[e.len() - 1] == y);
            }
        }
        if e.drop_last().contains(y) {
            let k = choose|k: int| 0 <= k < e.len() - 1 && e.drop_last()[k] == y;
            assert(e[k] == y);
        }
    }
}

proof fn lemma_path_extend(nodes: Seq<Node>, p: Seq<u32>, c: u32, all: bool)
    requires
        is_path(nodes, p, all),
        (p.last() as int) < nodes.len(),
        succ(nodes[p.last() as int], all).contains(c),
    ensures
        is_path(nodes, p.push(c), all),
        p.push(c)[0] == p[0],
        p.push(c).last() == c,
{
    let q = p.push(c);
    assert forall|k: int| 0 <= k < q.len() - 1 implies #[trigger] step_ok(nodes, q, k, all) by {
        if k < p.len() - 1 {
            assert(q[k] == p[k] && q[k + 1] == p[k + 1]);
            assert(step_ok(nodes, p, k, all));
        } else {
            assert(q[k] == p.last() && q[k + 1] == c);
        }
    }
}

/// Everything the traversal lists is reached from `a` when everything it
/// starts from is.
proof fn lemma_walk_sound(
    nodes: Seq<Node>,
    stack: Seq<u32>,
    visited: Seq<u32>,
    all: bool,
    a: u32,
    steps: bool,
)
    requires
        forall|y: u32| #[trigger] stack.contains(y) ==> (if steps {
            reaches_by_steps(nodes, a, y, all)
        } else {
            reaches(nodes, a, y, all)
        }),
        forall|y: u32| #[trigger] visited.contains(y) ==> (if steps {
            reaches_by_steps(nodes, a, y, all)
        } else {
            reaches(nodes, a, y, all)
        }),
    ensures
        forall|y: u32| #[trigger] walk(nodes, stack, visited, all).contains(y) ==> (if steps {
            reaches_by_steps(nodes, a, y, all)
        } else {
            reaches(nodes, a, y, all)
        }),
    decreases unvisited(index_bound(nodes.len()), visited), stack.len(),
{
    if stack.len() > 0 {
        let top = stack.last();
        let rest = stack.drop_last();
        assert(stack[stack.len() - 1] == top);
        assert(stack.contains(top));
        assert forall|y: u32| #[trigger] rest.contains(y) implies stack.contains(y) by {
            let k = choose|k: int| 0 <= k < rest.len() && rest[k] == y;
            assert(stack[k] == y);
        }
        if (top as int) >= nodes.len() || visited.contains(top) {
            lemma_walk_sound(nodes, rest, visited, all, a, steps);
            assert(walk(nodes, stack, visited, all) == walk(nodes, rest, visited, all));
        } else {
            lemma_unvisited_push(index_bound(nodes.len()), visited, top);
            let e = succ(nodes[top as int], all);
            let s2 = push_rev(rest, e);
            let v2 = visited.push(top);
            assert forall|y: u32| #[trigger] s2.contains(y) implies (if steps {
                reaches_by_steps(nodes, a, y, all)
            } else {
                reaches(nodes, a, y, all)
            }) by {
                lemma_push_rev_contains(rest, e, y);
                if !rest.contains(y) {
                    if steps {
                        let p = choose|p: Seq<u32>| #[trigger]
                            is_path(nodes, p, all) && p.len() >= 2 && p[0] == a && p.last() == top;
                        lemma_path_extend(nodes, p, y, all);
                        assert(is_path(nodes, p.push(y), all));
                    } else {
                        let p = choose|p: Seq<u32>| #[trigger]
                            is_path(nodes, p, all) && p[0] == a && p.last() == top;
                        lemma_path_extend(nodes, p, y, all);
                        assert(is_path(nodes, p.push(y), all));
                    }
                }
            }
            assert forall|y: u32| #[trigger] v2.contains(y) implies (if steps {
                reaches_by_steps(nodes, a, y, all)
            } else {
                reaches(nodes, a, y, all)
            }) by {
                crate::target::lemma_contains_push(visited, top, y);
            }
            lemma_walk_sound(nodes, s2, v2, all, a, steps);
            assert(walk(nodes, stack, visited, all) == walk(nodes, s2, v2, all));
        }
    } else {
        assert(walk(nodes, stack, visited, all) == visited);
    }
}

/// A dependent's closure follows only propagated edges (group members and the
/// `deps` of libraries and executables): every node in it is reached from
/// the root by a path that never takes a `source_deps` edge, so a node that
/// only some library's `source_deps` lead to is never in it.
pub proof fn lemma_closure_isolates_source_deps(nodes: Seq<Node>, root: u32, x: u32)
    requires
        closure_of(nodes, root).contains(x),
    ensures
        reaches(nodes, root, x, false),
{
    let p = seq![root];
    assert(is_path(nodes, p, false));
    assert forall|y: u32| #[trigger] seq![root].contains(y) implies reaches(nodes, root, y, false) by {
        assert(seq![root][0] == root);
    }
    lemma_walk_sound(nodes, seq![root], Seq::empty(), false, root, false);
}

/// The closure is a function of the graph and the root: two graphs with the
/// same nodes give the same ordered sequence from the same root.
pub proof fn lemma_closure_deterministic(g1: Graph, g2: Graph, root: u32)
    requires
        g1.targets@ == g2.targets@,
    ensures
        closure_of(g1.targets@, root) == closure_of(g2.targets@, root),
{
}

/// A node that validation flags does lie on a cycle: a path of at least
/// one step, over every kind of dependency edge, leads from it back to it.
pub proof fn lemma_cycle_found_is_real(nodes: Seq<Node>, x: u32)
    requires
        (x as int) < nodes.len(),
        on_cycle(nodes, x),
    ensures
        reaches_by_steps(nodes, x, x, true),
{
    let e = all_edges(nodes[x as int]);
    let s = push_rev(Seq::empty(), e);
    assert forall|y: u32| #[trigger] s.contains(y) implies reaches_by_steps(nodes, x, y, true) by {
        lemma_push_rev_contains(Seq::empty(), e, y);
        let p = seq![x, y];
        assert(succ(nodes[x as int], true) == e);
        assert(p[0] == x && p[1] == y);
        assert(step_ok(nodes, p, 0, true));
        assert(is_path(nodes, p, true));
    }
    lemma_walk_sound(nodes, s, Seq::empty(), true, x, true);
}

proof fn lemma_push_rev_keeps(s: Seq<u32>, e: Seq<u32>, y: u32)
    requires
        s.contains(y) || e.contains(y),
    ensures
        push_rev(s, e).contains(y),
    decreases e.len(),
{
    if e.len() > 0 {
        crate::target::lemma_contains_push(s, e.last(), y);
        if e.contains(y) && !s.contains(y) && y != e.last() {
            let k = choose|k: int| 0 <= k < e.len() && e[k] == y;
            assert(k != e.len() - 1);
            assert(e.drop_last()[k] == y);
        }
        lemma_push_rev_keeps(s.push(e.last()), e.drop_last(), y);
    }
}

/// Every child of a visited node is visited, pending on the stack, or names
/// no node.
pub open spec fn frontier_closed(nodes: Seq<Node>, stack: Seq<u32>, visited: Seq<u32>, all: bool) -> bool {
    forall|v: u32, c: u32|
        #[trigger] visited.contains(v) && (v as int) < nodes.len() && #[trigger] succ(
            nodes[v as int],
            all,
        ).contains(c) ==> visited.contains(c) || stack.contains(c) || (c as int) >= nodes.len()
}

/// The traversal keeps what was visited, reaches every pending node, and
/// ends closed under edges.
proof fn lemma_walk_complete(nodes: Seq<Node>, stack: Seq<u32>, visited: Seq<u32>, all: bool)
    requires
        frontier_closed(nodes, stack, visited, all),
    ensures
        forall|y: u32| #[trigger] visited.contains(y) ==> walk(nodes, stack, visited, all).contains(y),
        forall|y: u32|
            #[trigger] stack.contains(y) && (y as int) < nodes.len() ==> walk(
                nodes,
                stack,
                visited,
                all,
            ).contains(y),
        frontier_closed(nodes, Seq::empty(), walk(nodes, stack, visited, all), all),
    decreases unvisited(index_bound(nodes.len()), visited), stack.len(),
{
    let r = walk(nodes, stack, visited, all);
    if stack.len() == 0 {
        assert(r == visited);
        assert forall|v: u32, c: u32|
            #[trigger] r.contains(v) && (v as int) < nodes.len() && #[trigger] succ(
                nodes[v as int],
                all,
            ).contains(c) implies r.contains(c) || Seq::<u32>::empty().contains(c) || (c as int)
            >= nodes.len() by {}
    } else {
        let top = stack.last();
        let rest = stack.drop_last();
        assert forall|y: u32| #[trigger] stack.contains(y) implies rest.contains(y) || y == top by {
            let k = choose|k: int| 0 <= k < stack.len() && stack[k] == y;
            if k < stack.len() - 1 {
                assert(rest[k] == y);
            }
        }
        if (top as int) >= nodes.len() || visited.contains(top) {
            assert(r == walk(nodes, rest, visited, all));
            assert forall|v: u32, c: u32|
                #[trigger] visited.contains(v) && (v as int) < nodes.len() && #[trigger] succ(
                    nodes[v as int],
                    all,
                ).contains(c) implies visited.contains(c) || rest.contains(c) || (c as int)
                >= nodes.len() by {}
            lemma_walk_complete(nodes, rest, visited, all);
        } else {
            lemma_unvisited_push(index_bound(nodes.len()), visited, top);
            let e = succ(nodes[top as int], all);
            let s2 = push_rev(rest, e);
            let v2 = visited.push(top);
            assert(r == walk(nodes, s2, v2, all));
            assert forall|y: u32| #[trigger] v2.contains(y) == (visited.contains(y) || y == top) by {
                crate::target::lemma_contains_push(visited, top, y);
            }
            assert forall|v: u32, c: u32|
                #[trigger] v2.contains(v) && (v as int) < nodes.len() && #[trigger] succ(
                    nodes[v as int],
                    all,
                ).contains(c) implies v2.contains(c) || s2.contains(c) || (c as int)
                >= nodes.len() by {
                if v == top {
                    lemma_push_rev_keeps(rest, e, c);
                } else if rest.contains(c) {
                    lemma_push_rev_keeps(rest, e, c);
                }
            }
            lemma_walk_complete(nodes, s2, v2, all);
            assert forall|y: u32| #[trigger] rest.contains(y) implies s2.contains(y) by {
                lemma_push_rev_keeps(rest, e, y);
            }
            assert(v2.contains(top));
            assert forall|y: u32| #[trigger] visited.contains(y) implies r.contains(y) by {
                assert(v2.contains(y));
            }
        }
    }
}

/// Validation misses no cycle: a node that a path of at least one step,
/// over every kind of dependency edge, leads back to is flagged.
pub proof fn lemma_real_cycle_found(nodes: Seq<Node>, x: u32)
    requires
        (x as int) < nodes.len(),
        reaches_by_steps(nodes, x, x, true),
    ensures
        on_cycle(nodes, x),
{
    let p = choose|p: Seq<u32>| #[trigger]
        is_path(nodes, p, true) && p.len() >= 2 && p[0] == x && p.last() == x;
    let e = all_edges(nodes[x as int]);
    let s = push_rev(Seq::empty(), e);
    let r = walk(nodes, s, Seq::empty(), true);
    lemma_walk_complete(nodes, s, Seq::empty(), true);
    assert(step_ok(nodes, p, 0, true));
    assert(succ(nodes[x as int], true) == e);
    lemma_push_rev_keeps(Seq::empty(), e, p[1]);
    assert(forall|j: int| 1 <= j < p.len() ==> (#[trigger] p[j] as int) < nodes.len()) by {
        assert forall|j: int| 1 <= j < p.len() implies (#[trigger] p[j] as int) < nodes.len() by {
            if j < p.len() - 1 {
                assert(step_ok(nodes, p, j, true));
            }
        }
    }
    assert(r.contains(p[1]));
    lemma_path_in_closed(nodes, p, r, 1, true);
}

proof fn lemma_path_in_closed(nodes: Seq<Node>, p: Seq<u32>, r: Seq<u32>, k: int, all: bool)
    requires
        is_path(nodes, p, all),
        1 <= k < p.len(),
        r.contains(p[k]),
        forall|j: int| 1 <= j < p.len() ==> (#[trigger] p[j] as int) < nodes.len(),
        frontier_closed(nodes, Seq::empty(), r, all),
    ensures
        r.contains(p.last()),
    decreases p.len() - k,
{
    if k < p.len() - 1 {
        assert(step_ok(nodes, p, k, all));
        assert(r.contains(p[k + 1]) || Seq::<u32>::empty().contains(p[k + 1]) || (p[k + 1] as int)
            >= nodes.len());
        lemma_path_in_closed(nodes, p, r, k + 1, all);
    }
}

/// The closure misses nothing: every node that propagated edges lead to from
/// the root is in it.
pub proof fn lemma_closure_complete(nodes: Seq<Node>, root: u32, x: u32)
    requires
        (root as int) < nodes.len(),
        (x as int) < nodes.len(),
        reaches(nodes, root, x, false),
    ensures
        closure_of(nodes, root).contains(x),
{
    let p = choose|p: Seq<u32>| #[trigger] is_path(nodes, p, false) && p[0] == root && p.last() == x;
    let s = seq![root];
    let r = walk(nodes, s, Seq::empty(), false);
    assert(s[0] == root);
    assert(s.contains(root));
    lemma_walk_complete(nodes, s, Seq::empty(), false);
    assert(r.contains(root));
    if p.len() == 1 {
        assert(p.last() == p[0]);
    } else {
        assert(step_ok(nodes, p, 0, false));
        assert forall|j: int| 1 <= j < p.len() implies (#[trigger] p[j] as int) < nodes.len() by {
            if j < p.len() - 1 {
                assert(step_ok(nodes, p, j, false));
            }
        }
        lemma_path_in_closed_from_root(nodes, p, r);
    }
}

proof fn lemma_path_in_closed_from_root(nodes: Seq<Node>, p: Seq<u32>, r: Seq<u32>)
    requires
        is_path(nodes, p, false),
        p.len() >= 2,
        r.contains(p[0]),
        (p[0] as int) < nodes.len(),
        forall|j: int| 1 <= j < p.len() ==> (#[trigger] p[j] as int) < nodes.len(),
        frontier_closed(nodes, Seq::empty(), r, false),
    ensures
        r.contains(p.last()),
{
    assert(step_ok(nodes, p, 0, false));
    assert(r.contains(p[1]) || Seq::<u32>::empty().contains(p[1]) || (p[1] as int) >= nodes.len());
    lemma_path_in_closed(nodes, p, r, 1, false);
}

} // verus!
