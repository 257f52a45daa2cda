//! Mathematical model of a directed graph given by its edge list, in the
//! order in which the edges were added.
use vstd::prelude::*;

verus! {

/// An edge: source node index, target node index, relationship code.
pub type Edge = (usize, usize, i32);

/// Targets of the edges leaving `a`, most recently added edge first.
pub open spec fn out_nbrs(edges: Seq<Edge>, a: usize) -> Seq<usize>
    decreases edges.len(),
{
    if edges.len() == 0 {
        Seq::empty()
    } else {
        let e = edges.last();
        let rest = out_nbrs(edges.drop_last(), a);
        if e.0 == a {
            seq![e.1] + rest
        } else {
            rest
        }
    }
}

/// Sources of the edges entering `a`, most recently added edge first.
pub open spec fn in_nbrs(edges: Seq<Edge>, a: usize) -> Seq<usize>
    decreases edges.len(),
{
    if edges.len() == 0 {
        Seq::empty()
    } else {
        let e = edges.last();
        let rest = in_nbrs(edges.drop_last(), a);
        if e.1 == a {
            seq![e.0] + rest
        } else {
            rest
        }
    }
}

/// There is an edge from `u` to `v`.
pub open spec fn has_edge(edges: Seq<Edge>, u: usize, v: usize) -> bool {
    exists|k: int| 0 <= k < edges.len() && (#[trigger] edges[k]).0 == u && edges[k].1 == v
}

/// `p` is a walk: consecutive nodes are joined by edges.
pub open spec fn is_walk(edges: Seq<Edge>, p: Seq<usize>) -> bool {
    &&& p.len() >= 1
    &&& forall|i: int| 0 <= i < p.len() - 1 ==> has_edge(edges, #[trigger] p[i], p[i + 1])
}

/// `v` can be reached from `u` by following zero or more edges.
pub open spec fn reaches(edges: Seq<Edge>, u: usize, v: usize) -> bool {
    exists|p: Seq<usize>| is_walk(edges, p) && p[0] == u && p.last() == v
}

/// `v` can be reached from `u` by following one or more edges.
pub open spec fn reaches_plus(edges: Seq<Edge>, u: usize, v: usize) -> bool {
    exists|p: Seq<usize>| is_walk(edges, p) && p.len() >= 2 && p[0] == u && p.last() == v
}

/// The graph has a directed cycle (a self-loop counts).
pub open spec fn is_cyclic(edges: Seq<Edge>) -> bool {
    exists|p: Seq<usize>| is_walk(edges, p) && p.len() >= 2 && p[0] == p.last()
}

/// Every edge joins two of the first `n` nodes.
pub open spec fn edges_within(edges: Seq<Edge>, n: nat) -> bool {
    forall|k: int| 0 <= k < edges.len() ==> (#[trigger] edges[k]).0 < n && edges[k].1 < n
}

/// Number of clear positions.
pub open spec fn count_false(s: Seq<bool>) -> nat
    decreases s.len(),
{
    if s.len() == 0 {
        0
    } else {
        count_false(s.drop_last()) + if s.last() {
            0nat
        } else {
            1nat
        }
    }
}

/// Setting a clear position lowers the number of clear positions by one.
pub proof fn lemma_count_false_set(s: Seq<bool>, i: int)
    requires
        0 <= i < s.len(),
        !s[i],
    ensures
        count_false(s.update(i, true)) + 1 == count_false(s),
    decreases s.len(),
{
    let t = s.update(i, true);
    if i == s.len() - 1 {
        assert(t.drop_last() =~= s.drop_last());
    } else {
        assert(t.drop_last() =~= s.drop_last().update(i, true));
        lemma_count_false_set(s.drop_last(), i);
    }
}

/// The members of `nbrs`, in order, whose position in `visited` is clear.
pub open spec fn unvisited_targets(nbrs: Seq<usize>, visited: Seq<bool>) -> Seq<usize>
    decreases nbrs.len(),
{
    if nbrs.len() == 0 {
        Seq::empty()
    } else {
        let r = unvisited_targets(nbrs.drop_last(), visited);
        let x = nbrs.last();
        if x < visited.len() && !visited[x as int] {
            r.push(x)
        } else {
            r
        }
    }
}

/// The packages that a depth-first walk towards the roots reports, in the
/// order of reporting. The walk keeps a stack and a set of visited nodes: it
/// pops a node, and when that node was not yet visited it marks it and reports
/// and pushes every out-neighbor that is still unvisited, in neighbor order.
/// A node can be reported more than once when two paths lead to it.
pub open spec fn ancestor_walk(edges: Seq<Edge>, stack: Seq<usize>, visited: Seq<bool>) -> Seq<usize>
    decreases count_false(visited), stack.len(),
{
    if stack.len() == 0 {
        Seq::empty()
    } else {
        let node = stack.last();
        let rest = stack.drop_last();
        if node < visited.len() && !visited[node as int] {
            let visited2 = visited.update(node as int, true);
            let fresh = unvisited_targets(out_nbrs(edges, node), visited2);
            proof {
                lemma_count_false_set(visited, node as int);
            }
            fresh + ancestor_walk(edges, rest + fresh, visited2)
        } else {
            ancestor_walk(edges, rest, visited)
        }
    }
}

/// The ancestor walk of a graph with `n` nodes, started at `start`.
pub open spec fn ancestors_of(edges: Seq<Edge>, n: nat, start: usize) -> Seq<usize> {
    ancestor_walk(edges, seq![start], Seq::new(n, |i: int| false))
}

/// An out-neighbor list holds exactly the targets of the edges from `a`.
pub proof fn lemma_out_nbrs_contains(edges: Seq<Edge>, a: usize, w: usize)
    ensures
        out_nbrs(edges, a).contains(w) <==> has_edge(edges, a, w),
    decreases edges.len(),
{
    if edges.len() > 0 {
        let pre = edges.drop_last();
        lemma_out_nbrs_contains(pre, a, w);
        let e = edges.last();
        let rest = out_nbrs(pre, a);
        let all = out_nbrs(edges, a);
        assert(edges[edges.len() - 1] == e);
        if has_edge(edges, a, w) {
            let k = choose|k: int| 0 <= k < edges.len() && (#[trigger] edges[k]).0 == a && edges[k].1 == w;
            if k < edges.len() - 1 {
                assert(pre[k] == edges[k]);
                assert(has_edge(pre, a, w));
                let j = choose|j: int| 0 <= j < rest.len() && rest[j] == w;
                if e.0 == a {
                    assert(all[j + 1] == w);
                } else {
                    assert(all[j] == w);
                }
            } else {
                assert(all[0] == w);
            }
        }
        if all.contains(w) {
            if !(e.0 == a && e.1 == w) {
                let j = choose|j: int| 0 <= j < all.len() && all[j] == w;
                if e.0 == a {
                    assert(rest[j - 1] == w);
                } else {
                    assert(rest[j] == w);
                }
                assert(rest.contains(w));
                let k = choose|k: int| 0 <= k < pre.len() && (#[trigger] pre[k]).0 == a && pre[k].1 == w;
                assert(edges[k] == pre[k]);
            }
        }
    }
}

/// An in-neighbor list holds exactly the sources of the edges into `a`.
pub proof fn lemma_in_nbrs_contains(edges: Seq<Edge>, a: usize, w: usize)
    ensures
        in_nbrs(edges, a).contains(w) <==> has_edge(edges, w, a),
    decreases edges.len(),
{
    if edges.len() > 0 {
        let pre = edges.drop_last();
        lemma_in_nbrs_contains(pre, a, w);
        let e = edges.last();
        let rest = in_nbrs(pre, a);
        let all = in_nbrs(edges, a);
        assert(edges[edges.len() - 1] == e);
        if has_edge(edges, w, a) {
            let k = choose|k: int| 0 <= k < edges.len() && (#[trigger] edges[k]).0 == w && edges[k].1 == a;
            if k < edges.len() - 1 {
                assert(pre[k] == edges[k]);
                assert(has_edge(pre, w, a));
                let j = choose|j: int| 0 <= j < rest.len() && rest[j] == w;
                if e.1 == a {
                    assert(all[j + 1] == w);
                } else {
                    assert(all[j] == w);
                }
            } else {
                assert(all[0] == w);
            }
        }
        if all.contains(w) {
            if !(e.1 == a && e.0 == w) {
                let j = choose|j: int| 0 <= j < all.len() && all[j] == w;
                if e.1 == a {
                    assert(rest[j - 1] == w);
                } else {
                    assert(rest[j] == w);
                }
                assert(rest.contains(w));
                let k = choose|k: int| 0 <= k < pre.len() && (#[trigger] pre[k]).0 == w && pre[k].1 == a;
                assert(edges[k] == pre[k]);
            }
        }
    }
}

/// `unvisited_targets` keeps exactly the unvisited members of the list.
pub proof fn lemma_unvisited_targets_contains(nbrs: Seq<usize>, visited: Seq<bool>, x: usize)
    ensures
        unvisited_targets(nbrs, visited).contains(x) <==> (nbrs.contains(x) && x < visited.len()
            && !visited[x as int]),
    decreases nbrs.len(),
{
    if nbrs.len() > 0 {
        let pre = nbrs.drop_last();
        lemma_unvisited_targets_contains(pre, visited, x);
        let r = unvisited_targets(pre, visited);
        if nbrs.contains(x) && x < visited.len() && !visited[x as int] {
            let j = choose|j: int| 0 <= j < nbrs.len() && nbrs[j] == x;
            if j < nbrs.len() - 1 {
                assert(pre[j] == x);
                assert(r.contains(x));
                let i = choose|i: int| 0 <= i < r.len() && r[i] == x;
                assert(r.push(nbrs.last())[i] == x);
            } else {
                assert(r.push(x)[r.len() as int] == x);
            }
        }
        if unvisited_targets(nbrs, visited).contains(x) {
            if nbrs.last() == x {
                assert(nbrs[nbrs.len() - 1] == x);
            } else {
                let t = unvisited_targets(nbrs, visited);
                let i = choose|i: int| 0 <= i < t.len() && t[i] == x;
                assert(r[i] == x);
                assert(r.contains(x));
                let j = choose|j: int| 0 <= j < pre.len() && pre[j] == x;
                assert(nbrs[j] == x);
            }
        }
    }
}

/// Every member of the list `unvisited_targets` returns is in range and
/// unvisited.
pub proof fn lemma_unvisited_targets_members(nbrs: Seq<usize>, visited: Seq<bool>)
    ensures
        forall|i: int|
            0 <= i < unvisited_targets(nbrs, visited).len() ==> {
                let x = #[trigger] unvisited_targets(nbrs, visited)[i];
                &&& x < visited.len()
                &&& !visited[x as int]
                &&& nbrs.contains(x)
            },
{
    assert forall|i: int| 0 <= i < unvisited_targets(nbrs, visited).len() implies {
        let x = #[trigger] unvisited_targets(nbrs, visited)[i];
        &&& x < visited.len()
        &&& !visited[x as int]
        &&& nbrs.contains(x)
    } by {
        let x = unvisited_targets(nbrs, visited)[i];
        assert(unvisited_targets(nbrs, visited).contains(x));
        lemma_unvisited_targets_contains(nbrs, visited, x);
    }
}

/// Following one more edge from a node reached from `s` (or from `s`
/// itself) reaches a node in one or more steps.
pub proof fn lemma_reaches_plus_extend(edges: Seq<Edge>, s: usize, u: usize, w: usize)
    requires
        u == s || reaches_plus(edges, s, u),
        has_edge(edges, u, w),
    ensures
        reaches_plus(edges, s, w),
{
    if u == s {
        let p = seq![s, w];
        assert(is_walk(edges, p));
        assert(p[0] == s && p.last() == w);
    } else {
        let p = choose|p: Seq<usize>| is_walk(edges, p) && p.len() >= 2 && p[0] == s && p.last() == u;
        let q = p.push(w);
        assert forall|i: int| 0 <= i < q.len() - 1 implies has_edge(edges, #[trigger] q[i], q[i + 1]) by {
            if i < p.len() - 1 {
                assert(q[i] == p[i] && q[i + 1] == p[i + 1]);
            }
        }
        assert(is_walk(edges, q));
        assert(q[0] == s && q.last() == w && q.len() >= 2);
    }
}

/// When the marked positions are closed under edges, a walk that starts at a
/// marked node ends at one.
pub proof fn lemma_walk_stays_marked(edges: Seq<Edge>, marked: Seq<bool>, p: Seq<usize>)
    requires
        is_walk(edges, p),
        edges_within(edges, marked.len()),
        p[0] < marked.len() && marked[p[0] as int],
        forall|u: usize, w: usize|
            u < marked.len() && marked[u as int] && #[trigger] has_edge(edges, u, w) ==> marked[w as int],
    ensures
        p.last() < marked.len() && marked[p.last() as int],
    decreases p.len(),
{
    if p.len() > 1 {
        let q = p.drop_last();
        assert forall|i: int| 0 <= i < q.len() - 1 implies has_edge(edges, #[trigger] q[i], q[i + 1]) by {
            assert(q[i] == p[i] && q[i + 1] == p[i + 1]);
        }
        lemma_walk_stays_marked(edges, marked, q);
        let u = q.last();
        let w = p.last();
        assert(has_edge(edges, p[p.len() - 2], p[p.len() - 1]));
        let k = choose|k: int| 0 <= k < edges.len() && (#[trigger] edges[k]).0 == u && edges[k].1 == w;
        assert(w < marked.len());
    }
}

/// What holds of the ancestor walk's stack, visited bits and reported
/// nodes between its steps: stack entries are nodes; the start node is
/// visited unless nothing has happened yet; everything on the stack or
/// reported is reached from the start (reported nodes in one or more steps,
/// and never the start); stack entries and visited nodes other than the start
/// have been reported; and the out-neighbors of a visited node are visited or
/// on the stack.
pub open spec fn walk_inv(
    edges: Seq<Edge>,
    n: nat,
    node: usize,
    stack: Seq<usize>,
    bits: Seq<bool>,
    out: Seq<usize>,
) -> bool {
    &&& node < n
    &&& bits.len() == n
    &&& forall|j: int| 0 <= j < stack.len() ==> #[trigger] stack[j] < n
    &&& forall|j: int| 0 <= j < out.len() ==> #[trigger] out[j] < n
    &&& bits[node as int] || (stack == seq![node] && out.len() == 0)
    &&& forall|j: int| 0 <= j < out.len() ==> #[trigger] out[j] != node && reaches_plus(edges, node, out[j])
    &&& forall|j: int| 0 <= j < stack.len() ==> #[trigger] stack[j] == node || reaches_plus(edges, node, stack[j])
    &&& forall|j: int| 0 <= j < stack.len() ==> #[trigger] stack[j] == node || out.contains(stack[j])
    &&& forall|u: usize| u < n && #[trigger] bits[u as int] ==> u == node || out.contains(u)
    &&& forall|u: usize, w: usize|
        u < n && bits[u as int] && #[trigger] has_edge(edges, u, w) ==> bits[w as int] || stack.contains(w)
}

/// A step of the ancestor walk that pops an unvisited node keeps `walk_inv`.
pub proof fn lemma_walk_inv_visit(
    edges: Seq<Edge>,
    n: nat,
    node: usize,
    stack0: Seq<usize>,
    bits0: Seq<bool>,
    out0: Seq<usize>,
)
    requires
        edges_within(edges, n),
        walk_inv(edges, n, node, stack0, bits0, out0),
        stack0.len() > 0,
        !bits0[stack0.last() as int],
    ensures
        ({
            let cur = stack0.last();
            let bits2 = bits0.update(cur as int, true);
            let fresh = unvisited_targets(out_nbrs(edges, cur), bits2);
            walk_inv(edges, n, node, stack0.drop_last() + fresh, bits2, out0 + fresh)
        }),
{
    let cur = stack0.last();
    let rest = stack0.drop_last();
    let bits2 = bits0.update(cur as int, true);
    let nbrs = out_nbrs(edges, cur);
    let fresh = unvisited_targets(nbrs, bits2);
    let stack = rest + fresh;
    let out = out0 + fresh;
    assert(stack0[stack0.len() - 1] == cur);
    lemma_unvisited_targets_members(nbrs, bits2);
    assert(bits2[node as int]);
    assert forall|j: int| 0 <= j < stack.len() implies #[trigger] stack[j] < n by {
        if j < rest.len() {
            assert(stack[j] == stack0[j]);
        }
    }
    assert forall|j: int| 0 <= j < out.len() implies #[trigger] out[j] < n by {
        if j < out0.len() {
            assert(out[j] == out0[j]);
        }
    }
    assert forall|j: int| 0 <= j < out.len() implies #[trigger] out[j] != node && reaches_plus(edges, node, out[j]) by {
        if j >= out0.len() {
            let x = fresh[j - out0.len()];
            assert(out[j] == x);
            lemma_out_nbrs_contains(edges, cur, x);
            assert(stack0[stack0.len() - 1] == cur);
            lemma_reaches_plus_extend(edges, node, cur, x);
        } else {
            assert(out[j] == out0[j]);
        }
    }
    assert forall|j: int| 0 <= j < stack.len() implies #[trigger] stack[j] == node || reaches_plus(edges, node, stack[j]) by {
        if j >= rest.len() {
            assert(out[out0.len() + j - rest.len()] == stack[j]);
        } else {
            assert(stack[j] == stack0[j]);
        }
    }
    assert forall|j: int| 0 <= j < stack.len() implies #[trigger] stack[j] == node || out.contains(stack[j]) by {
        if j >= rest.len() {
            assert(out[out0.len() + j - rest.len()] == stack[j]);
        } else {
            assert(stack[j] == stack0[j]);
            if stack[j] != node {
                let i = choose|i: int| 0 <= i < out0.len() && out0[i] == stack0[j];
                assert(out[i] == stack[j]);
            }
        }
    }
    assert forall|u: usize| u < n && #[trigger] bits2[u as int] implies u == node || out.contains(u) by {
        if u == cur {
            if cur != node {
                let i = choose|i: int| 0 <= i < out0.len() && out0[i] == cur;
                assert(out[i] == cur);
            }
        } else {
            assert(bits0[u as int]);
            if u != node {
                let i = choose|i: int| 0 <= i < out0.len() && out0[i] == u;
                assert(out[i] == u);
            }
        }
    }
    assert forall|u: usize, w: usize|
        u < n && bits2[u as int] && #[trigger] has_edge(edges, u, w) implies bits2[w as int] || stack.contains(w) by {
        let k2 = choose|k2: int| 0 <= k2 < edges.len() && (#[trigger] edges[k2]).0 == u && edges[k2].1 == w;
        assert(w < n);
        if u == cur {
            lemma_out_nbrs_contains(edges, cur, w);
            lemma_unvisited_targets_contains(nbrs, bits2, w);
            if !bits2[w as int] {
                let i = choose|i: int| 0 <= i < fresh.len() && fresh[i] == w;
                assert(stack[rest.len() + i] == w);
            }
        } else {
            assert(bits0[u as int]);
            if !bits2[w as int] {
                let i = choose|i: int| 0 <= i < stack0.len() && stack0[i] == w;
                if i < rest.len() {
                    assert(stack[i] == w);
                }
            }
        }
    }
}

/// A step of the ancestor walk that pops a visited node keeps `walk_inv`.
pub proof fn lemma_walk_inv_skip(
    edges: Seq<Edge>,
    n: nat,
    node: usize,
    stack0: Seq<usize>,
    bits0: Seq<bool>,
    out0: Seq<usize>,
)
    requires
        walk_inv(edges, n, node, stack0, bits0, out0),
        stack0.len() > 0,
        bits0[stack0.last() as int],
    ensures
        walk_inv(edges, n, node, stack0.drop_last(), bits0, out0),
{
    let cur = stack0.last();
    let stack = stack0.drop_last();
    assert(stack0[stack0.len() - 1] == cur);
    assert forall|u: usize, w: usize|
        u < n && bits0[u as int] && #[trigger] has_edge(edges, u, w) implies bits0[w as int] || stack.contains(w) by {
        if !bits0[w as int] {
            let i = choose|i: int| 0 <= i < stack0.len() && stack0[i] == w;
            if i < stack.len() {
                assert(stack[i] == w);
            }
        }
    }
    assert forall|j: int| 0 <= j < stack.len() implies #[trigger] stack[j] < n by {
        assert(stack[j] == stack0[j]);
    }
    assert forall|j: int| 0 <= j < stack.len() implies #[trigger] stack[j] == node || reaches_plus(edges, node, stack[j]) by {
        assert(stack[j] == stack0[j]);
    }
    assert forall|j: int| 0 <= j < stack.len() implies #[trigger] stack[j] == node || out0.contains(stack[j]) by {
        assert(stack[j] == stack0[j]);
    }
}

/// When the ancestor walk's stack is empty, the reported nodes are exactly
/// the nodes other than the start reached in one or more steps.
pub proof fn lemma_walk_inv_done(edges: Seq<Edge>, n: nat, node: usize, bits: Seq<bool>, out: Seq<usize>)
    requires
        edges_within(edges, n),
        walk_inv(edges, n, node, Seq::empty(), bits, out),
    ensures
        forall|v: usize| out.contains(v) <==> (v != node && reaches_plus(edges, node, v)),
{
    assert(bits[node as int]) by {
        if !bits[node as int] {
            assert(seq![node].len() == 1);
        }
    }
    assert forall|v: usize| out.contains(v) <==> (v != node && reaches_plus(edges, node, v)) by {
        if v != node && reaches_plus(edges, node, v) {
            let p = choose|p: Seq<usize>| is_walk(edges, p) && p.len() >= 2 && p[0] == node && p.last() == v;
            lemma_walk_stays_marked(edges, bits, p);
        }
        if out.contains(v) {
            let j = choose|j: int| 0 <= j < out.len() && out[j] == v;
        }
    }
}

/// `walk_inv` holds before the ancestor walk's first step.
pub proof fn lemma_walk_inv_start(edges: Seq<Edge>, n: nat, node: usize)
    requires
        node < n,
    ensures
        walk_inv(edges, n, node, seq![node], Seq::new(n, |i: int| false), Seq::empty()),
{
    let bits = Seq::new(n, |i: int| false);
    assert forall|u: usize, w: usize|
        u < n && bits[u as int] && #[trigger] has_edge(edges, u, w) implies bits[w as int] || seq![node].contains(w) by {
    }
}

/// The nodes among the first `n` that reach `v` in zero or more steps.
pub open spec fn reachers(edges: Seq<Edge>, n: nat, v: usize) -> Set<int> {
    Set::new(|w: int| 0 <= w < n && reaches(edges, w as usize, v))
}

/// Appending a node joined by an edge to the end of a walk gives a walk.
pub proof fn lemma_walk_push(edges: Seq<Edge>, p: Seq<usize>, x: usize)
    requires
        is_walk(edges, p),
        has_edge(edges, p.last(), x),
    ensures
        is_walk(edges, p.push(x)),
{
    let q = p.push(x);
    assert forall|i: int| 0 <= i < q.len() - 1 implies has_edge(edges, #[trigger] q[i], q[i + 1]) by {
        if i < p.len() - 1 {
            assert(q[i] == p[i] && q[i + 1] == p[i + 1]);
        } else {
            assert(q[i] == p.last() && q[i + 1] == x);
        }
    }
}

/// In an acyclic graph, a predecessor `u` of `v` is reached from fewer nodes
/// than `v` is.
pub proof fn lemma_reachers_shrink(edges: Seq<Edge>, n: nat, u: usize, v: usize)
    requires
        !is_cyclic(edges),
        has_edge(edges, u, v),
        v < n,
    ensures
        reachers(edges, n, u).len() < reachers(edges, n, v).len(),
{
    let ru = reachers(edges, n, u);
    let rv = reachers(edges, n, v);
    vstd::set_lib::lemma_int_range(0, n as int);
    vstd::set_lib::lemma_len_subset(rv, vstd::set_lib::set_int_range(0, n as int));
    let single = seq![v];
    assert(is_walk(edges, single) && single[0] == v && single.last() == v);
    assert(rv.contains(v as int));
    assert forall|w: int| ru.contains(w) implies rv.remove(v as int).contains(w) by {
        let p = choose|p: Seq<usize>| is_walk(edges, p) && p[0] == w as usize && p.last() == u;
        lemma_walk_push(edges, p, v);
        let q = p.push(v);
        assert(q[0] == w as usize && q.last() == v);
        assert(reaches(edges, w as usize, v));
        if w == v as int {
            assert(q.len() >= 2 && q[0] == q.last());
            assert(is_cyclic(edges));
        }
    }
    vstd::set_lib::lemma_len_subset(ru, rv.remove(v as int));
}

} // verus!
