//! Directed graphs over node indices `0..n`, given as adjacency lists:
//! reachability, a verified depth-first search, and the lemma that adding
//! an edge whose target cannot reach its source keeps a graph acyclic.
use vstd::prelude::*;
use vstd::set_lib::*;

verus! {

/// `b` is a direct successor of `a`.
pub open spec fn edge(adj: Seq<Vec<usize>>, a: usize, b: usize) -> bool {
    a < adj.len() && adj[a as int]@.contains(b)
}

/// Every successor named in the lists is itself a node.
pub open spec fn graph_wf(adj: Seq<Vec<usize>>) -> bool {
    forall|i: int, j: int|
        0 <= i < adj.len() && 0 <= j < adj[i]@.len() ==> #[trigger] adj[i]@[j] < adj.len()
}

/// The successor relation of an adjacency list.
pub open spec fn adj_rel(adj: Seq<Vec<usize>>) -> spec_fn(usize, usize) -> bool {
    |a: usize, b: usize| edge(adj, a, b)
}

/// A walk along edges (at least one node).
pub open spec fn is_path<T>(e: spec_fn(T, T) -> bool, p: Seq<T>) -> bool {
    &&& p.len() >= 1
    &&& forall|i: int| 0 <= i < p.len() - 1 ==> e(#[trigger] p[i], p[i + 1])
}

/// `b` can be reached from `a` in zero or more steps.
pub open spec fn reach<T>(e: spec_fn(T, T) -> bool, a: T, b: T) -> bool {
    exists|p: Seq<T>| #[trigger] is_path(e, p) && p[0] == a && p.last() == b
}

/// No edge `a -> b` whose target reaches back to its source: no cycle.
pub open spec fn acyclic<T>(e: spec_fn(T, T) -> bool) -> bool {
    forall|a: T, b: T| #[trigger] e(a, b) ==> !reach(e, b, a)
}

pub proof fn lemma_reach_refl<T>(e: spec_fn(T, T) -> bool, a: T)
    ensures
        reach(e, a, a),
{
    let p = seq![a];
    assert(is_path(e, p));
}

pub proof fn lemma_reach_edge<T>(e: spec_fn(T, T) -> bool, a: T, b: T)
    requires
        e(a, b),
    ensures
        reach(e, a, b),
{
    let p = seq![a, b];
    assert(is_path(e, p));
}

pub proof fn lemma_reach_trans<T>(e: spec_fn(T, T) -> bool, a: T, b: T, c: T)
    requires
        reach(e, a, b),
        reach(e, b, c),
    ensures
        reach(e, a, c),
{
    let p = choose|p: Seq<T>| #[trigger] is_path(e, p) && p[0] == a && p.last() == b;
    let q = choose|q: Seq<T>| #[trigger] is_path(e, q) && q[0] == b && q.last() == c;
    let r = p + q.drop_first();
    assert forall|i: int| 0 <= i < r.len() - 1 implies e(#[trigger] r[i], r[i + 1]) by {
        if i < p.len() - 1 {
            assert(r[i] == p[i] && r[i + 1] == p[i + 1]);
        } else if i == p.len() - 1 {
            assert(r[i] == b);
            assert(r[i + 1] == q[1]);
            assert(e(q[0], q[1]));
        } else {
            let k = i - p.len() + 1;
            assert(r[i] == q[k] && r[i + 1] == q[k + 1]);
            assert(e(q[k], q[k + 1]));
        }
    }
    assert(is_path(e, r));
    if q.len() == 1 {
        assert(r.last() == p.last());
    } else {
        assert(r.last() == q.last());
    }
}

pub proof fn lemma_reach_prepend<T>(e: spec_fn(T, T) -> bool, a: T, b: T, c: T)
    requires
        e(a, b),
        reach(e, b, c),
    ensures
        reach(e, a, c),
{
    lemma_reach_edge(e, a, b);
    lemma_reach_trans(e, a, b, c);
}

/// Paths of a graph with one more edge `k -> j`: either they avoid the new
/// edge, or their prefix before its first use reaches `k`.
pub proof fn lemma_reach_added_edge<T>(
    e: spec_fn(T, T) -> bool,
    e2: spec_fn(T, T) -> bool,
    k: T,
    j: T,
    p: Seq<T>,
)
    requires
        forall|x: T, y: T| #[trigger] e2(x, y) ==> e(x, y) || (x == k && y == j),
        is_path(e2, p),
    ensures
        reach(e, p[0], p.last()) || reach(e, p[0], k),
    decreases p.len(),
{
    if p.len() == 1 {
        lemma_reach_refl(e, p[0]);
    } else {
        assert(e2(p[0], p[1]));
        let t = p.drop_first();
        assert forall|i: int| 0 <= i < t.len() - 1 implies e2(#[trigger] t[i], t[i + 1]) by {
            assert(t[i] == p[i + 1] && t[i + 1] == p[i + 2]);
        }
        if p[0] == k {
            lemma_reach_refl(e, k);
        } else {
            assert(e(p[0], p[1]));
            lemma_reach_added_edge(e, e2, k, j, t);
            assert(t.last() == p.last());
            if reach(e, t[0], t.last()) {
                lemma_reach_prepend(e, p[0], p[1], p.last());
            } else {
                lemma_reach_prepend(e, p[0], p[1], k);
            }
        }
    }
}

/// Every path of the smaller graph is a path of the larger one.
pub proof fn lemma_reach_monotone<T>(e: spec_fn(T, T) -> bool, e2: spec_fn(T, T) -> bool, a: T, b: T)
    requires
        forall|x: T, y: T| #[trigger] e(x, y) ==> e2(x, y),
        reach(e, a, b),
    ensures
        reach(e2, a, b),
{
    let p = choose|p: Seq<T>| #[trigger] is_path(e, p) && p[0] == a && p.last() == b;
    assert forall|i: int| 0 <= i < p.len() - 1 implies e2(#[trigger] p[i], p[i + 1]) by {
        assert(e(p[i], p[i + 1]));
    }
    assert(is_path(e2, p));
}

/// Paths of a graph with one more edge `k -> j`: either they avoid the new
/// edge, or their suffix after its last use starts at `j`.
pub proof fn lemma_reach_added_edge_suffix<T>(
    e: spec_fn(T, T) -> bool,
    e2: spec_fn(T, T) -> bool,
    k: T,
    j: T,
    p: Seq<T>,
)
    requires
        forall|x: T, y: T| #[trigger] e2(x, y) ==> e(x, y) || (x == k && y == j),
        is_path(e2, p),
    ensures
        reach(e, p[0], p.last()) || reach(e, j, p.last()),
    decreases p.len(),
{
    if p.len() == 1 {
        lemma_reach_refl(e, p[0]);
    } else {
        assert(e2(p[0], p[1]));
        let t = p.drop_first();
        assert forall|i: int| 0 <= i < t.len() - 1 implies e2(#[trigger] t[i], t[i + 1]) by {
            assert(t[i] == p[i + 1] && t[i + 1] == p[i + 2]);
        }
        lemma_reach_added_edge_suffix(e, e2, k, j, t);
        assert(t.last() == p.last());
        if reach(e, t[0], t.last()) {
            if e(p[0], p[1]) {
                lemma_reach_prepend(e, p[0], p[1], p.last());
            } else {
                assert(p[1] == j);
            }
        }
    }
}

/// Adding `k -> j` to an acyclic graph keeps it acyclic when `j` cannot
/// already reach `k`.
pub proof fn lemma_acyclic_add_edge<T>(e: spec_fn(T, T) -> bool, e2: spec_fn(T, T) -> bool, k: T, j: T)
    requires
        forall|x: T, y: T| #[trigger] e2(x, y) ==> e(x, y) || (x == k && y == j),
        acyclic(e),
        !reach(e, j, k),
    ensures
        acyclic(e2),
{
    assert forall|a: T, b: T| #[trigger] e2(a, b) implies !reach(e2, b, a) by {
        if reach(e2, b, a) {
            let p = choose|p: Seq<T>| #[trigger] is_path(e2, p) && p[0] == b && p.last() == a;
            lemma_reach_added_edge(e, e2, k, j, p);
            lemma_reach_added_edge_suffix(e, e2, k, j, p);
            if e(a, b) {
                assert(!reach(e, b, a));
                // j ~> a -> b ~> k without the new edge
                lemma_reach_prepend(e, a, b, k);
                lemma_reach_trans(e, j, a, k);
            } else {
                assert(a == k && b == j);
            }
        }
    }
}

/// Depth-first search: whether `to` can be reached from `from`.
pub fn reaches(adj: &Vec<Vec<usize>>, from: usize, to: usize) -> (r: bool)
    requires
        graph_wf(adj@),
        from < adj@.len(),
        to < adj@.len(),
    ensures
        r == reach(adj_rel(adj@), from, to),
{
    let n = adj.len();
    let mut visited: Vec<bool> = Vec::new();
    let mut i: usize = 0;
    while i < n
        invariant
            i <= n,
            visited@.len() == i,
            forall|x: int| 0 <= x < i ==> !visited@[x],
        decreases n - i,
    {
        visited.push(false);
        i = i + 1;
    }
    let mut stack: Vec<usize> = Vec::new();
    stack.push(from);
    let ghost mut seen: Set<usize> = Set::empty();
    let mut count: usize = 0;
    proof {
        lemma_reach_refl(adj_rel(adj@), from);
        assert(stack@[0] == from);
    }
    while stack.len() > 0
        invariant
            n == adj@.len(),
            graph_wf(adj@),
            from < n,
            to < n,
            visited@.len() == n,
            seen.finite(),
            seen.len() == count,
            forall|x: usize| #[trigger] seen.contains(x) <==> (x < n && visited@[x as int]),
            forall|x: int| 0 <= x < stack@.len() ==> #[trigger] stack@[x] < n,
            forall|x: int| 0 <= x < stack@.len() ==> reach(adj_rel(adj@), from, #[trigger] stack@[x]),
            forall|x: usize| #[trigger] seen.contains(x) ==> reach(adj_rel(adj@), from, x),
            forall|x: usize, y: usize|
                seen.contains(x) && #[trigger] edge(adj@, x, y) ==> seen.contains(y) || stack@.contains(y),
            seen.contains(from) || stack@.contains(from),
            !seen.contains(to),
        decreases n - count, stack@.len(),
    {
        let ghost old_stack = stack@;
        let node = stack.pop().unwrap();
        assert(old_stack == stack@.push(node));
        assert(old_stack[old_stack.len() - 1] == node);
        if node == to {
            return true;
        }
        if visited[node] {
            proof {
            assert(seen.contains(node));
            assert forall|x: usize, y: usize|
                seen.contains(x) && #[trigger] edge(adj@, x, y) implies seen.contains(y) || stack@.contains(y) by {
                if !seen.contains(y) {
                    assert(old_stack.contains(y));
                    let w = choose|w: int| 0 <= w < old_stack.len() && old_stack[w] == y;
                    if w < stack@.len() {
                        assert(stack@[w] == y);
                    }
                }
            }
            if !seen.contains(from) {
                let w = choose|w: int| 0 <= w < old_stack.len() && old_stack[w] == from;
                if w < stack@.len() {
                    assert(stack@[w] == from);
                }
            }
            }
            continue;
        }
        proof {
            assert(!seen.contains(node));
            let full = Set::new(|x: usize| x < n);
            assert(full =~= Set::new(|x: usize| 0 <= x < n));
            lemma_set_int_range_usize(n);
            assert(seen.insert(node).subset_of(full));
            lemma_len_subset(seen.insert(node), full);
        }
        visited.set(node, true);
        proof {
            seen = seen.insert(node);
        }
        count = count + 1;
        let succ = &adj[node];
        let m = succ.len();
        let mut j: usize = 0;
        let ghost base_stack = stack@;
        while j < m
            invariant
                n == adj@.len(),
                graph_wf(adj@),
                node < n,
                succ == adj@[node as int],
                m == succ@.len(),
                j <= m,
                stack@ == base_stack + succ@.take(j as int),
                reach(adj_rel(adj@), from, node),
                forall|x: int| 0 <= x < base_stack.len() ==> #[trigger] base_stack[x] < n,
                forall|x: int| 0 <= x < base_stack.len() ==> reach(adj_rel(adj@), from, #[trigger] base_stack[x]),
            decreases m - j,
        {
            let y = succ[j];
            proof {
                assert(succ@[j as int] == y);
                assert(adj@[node as int]@[j as int] < n);
            }
            stack.push(y);
            proof {
                assert(succ@.take(j + 1) =~= succ@.take(j as int).push(y));
            }
            j = j + 1;
        }
        proof {
            assert(succ@.take(m as int) =~= succ@);
            assert forall|x: int| 0 <= x < stack@.len() implies #[trigger] stack@[x] < n && reach(adj_rel(adj@), from, stack@[x]) by {
                if x >= base_stack.len() {
                    let k = x - base_stack.len();
                    assert(stack@[x] == succ@[k]);
                    assert(adj@[node as int]@[k] < n);
                    assert(edge(adj@, node, succ@[k]));
                    lemma_reach_edge(adj_rel(adj@), node, succ@[k]);
                    lemma_reach_trans(adj_rel(adj@), from, node, succ@[k]);
                } else {
                    assert(stack@[x] == base_stack[x]);
                }
            }
            assert forall|x: usize, y: usize|
                seen.contains(x) && #[trigger] edge(adj@, x, y) implies seen.contains(y) || stack@.contains(y) by {
                if x == node {
                    let k = choose|k: int| 0 <= k < succ@.len() && succ@[k] == y;
                    assert(stack@[base_stack.len() + k] == y);
                } else if !seen.contains(y) {
                    assert(old_stack.contains(y));
                    let w = choose|w: int| 0 <= w < old_stack.len() && old_stack[w] == y;
                    if w < base_stack.len() {
                        assert(stack@[w] == y);
                    } else {
                        assert(y == node);
                    }
                }
            }
            if !seen.contains(from) {
                let w = choose|w: int| 0 <= w < old_stack.len() && old_stack[w] == from;
                if w < base_stack.len() {
                    assert(stack@[w] == from);
                }
            }
        }
    }
    proof {
        if reach(adj_rel(adj@), from, to) {
            assert(!stack@.contains(from));
            assert forall|x: usize, y: usize| seen.contains(x) && #[trigger] edge(adj@, x, y) implies seen.contains(y) by {
                assert(!stack@.contains(y));
            }
            lemma_closed_contains_reachable(adj_rel(adj@), seen, from, to);
        }
    }
    false
}

proof fn lemma_set_int_range_usize(n: usize)
    ensures
        Set::new(|x: usize| x < n).finite(),
        Set::new(|x: usize| x < n).len() == n,
    decreases n,
{
    if n == 0 {
        assert(Set::new(|x: usize| x < n) =~= Set::<usize>::empty());
    } else {
        lemma_set_int_range_usize((n - 1) as usize);
        assert(Set::new(|x: usize| x < n) =~= Set::new(|x: usize| x < (n - 1) as usize).insert((n - 1) as usize));
    }
}

/// A node set that contains `from` and is closed under successors holds
/// every node reachable from `from`.
proof fn lemma_closed_contains_reachable(e: spec_fn(usize, usize) -> bool, s: Set<usize>, from: usize, to: usize)
    requires
        s.contains(from),
        forall|x: usize, y: usize| s.contains(x) && #[trigger] e(x, y) ==> s.contains(y),
        reach(e, from, to),
    ensures
        s.contains(to),
{
    let p = choose|p: Seq<usize>| #[trigger] is_path(e, p) && p[0] == from && p.last() == to;
    assert forall|i: int| 0 <= i < p.len() implies s.contains(#[trigger] p[i]) by {
        lemma_path_prefix_in(e, s, p, i);
    }
}

proof fn lemma_path_prefix_in(e: spec_fn(usize, usize) -> bool, s: Set<usize>, p: Seq<usize>, i: int)
    requires
        is_path(e, p),
        s.contains(p[0]),
        forall|x: usize, y: usize| s.contains(x) && #[trigger] e(x, y) ==> s.contains(y),
        0 <= i < p.len(),
    ensures
        s.contains(p[i]),
    decreases i,
{
    if i > 0 {
        lemma_path_prefix_in(e, s, p, i - 1);
        assert(e(p[i - 1], p[i]));
    }
}

} // verus!
