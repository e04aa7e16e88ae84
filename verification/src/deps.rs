//! The dependency graph between tasks (edges `task -> depends_on`, by uuid):
//! the cycle check that `add`/`edit` run before adding an edge, the list of
//! tasks that sit on a cycle (for `doctor`), and the edits of `edit`.
use vstd::prelude::*;
use crate::error::{CliError, is_user_error, user};
use crate::graph::{acyclic, adj_rel, edge, is_path, lemma_acyclic_add_edge, reach, reaches};
use crate::strgraph::{build_graph, has_link, is_spath, lemma_sreach_index, represents, sreach, str_reaches, IndexGraph, Link};
use crate::strs::seq_view;
use crate::text::str_eq;

verus! {

/// Adding `task -> new_dep` closes a cycle exactly when `new_dep` already
/// reaches `task` (or is `task`).
pub fn would_create_cycle(deps: &Vec<Link>, task_uuid: &String, new_dep: &String) -> (r: bool)
    ensures
        r == sreach(deps@, new_dep@, task_uuid@),
{
    str_reaches(deps, new_dep, task_uuid)
}

/// `u` lies on a cycle: one of its edges leads back to it.
pub open spec fn on_cycle(links: Seq<Link>, u: Seq<char>) -> bool {
    exists|i: int| 0 <= i < links.len() && #[trigger] links[i].from@ == u && sreach(links, links[i].to@, u)
}

/// Whether node `a` of the index graph has an edge whose target reaches back to `a`.
fn has_cycle_edge(g: &IndexGraph, a: usize) -> (r: bool)
    requires
        a < g.adj@.len(),
        crate::graph::graph_wf(g.adj@),
    ensures
        r == exists|b: usize| #[trigger] edge(g.adj@, a, b) && reach(adj_rel(g.adj@), b, a),
{
    let row = &g.adj[a];
    let mut k: usize = 0;
    while k < row.len()
        invariant
            a < g.adj@.len(),
            crate::graph::graph_wf(g.adj@),
            row == &g.adj@[a as int],
            k <= row@.len(),
            forall|j: int| 0 <= j < k ==> !reach(adj_rel(g.adj@), #[trigger] row@[j], a),
        decreases row@.len() - k,
    {
        let b = row[k];
        assert(b < g.adj@.len());
        if reaches(&g.adj, b, a) {
            assert(edge(g.adj@, a, b));
            return true;
        }
        k = k + 1;
    }
    proof {
        assert forall|b: usize| #[trigger] edge(g.adj@, a, b) implies !reach(adj_rel(g.adj@), b, a) by {
            let j = choose|j: int| 0 <= j < row@.len() && row@[j] == b;
            assert(!reach(adj_rel(g.adj@), row@[j], a));
        }
    }
    false
}

/// For a named node, lying on a cycle is the index-graph property.
proof fn lemma_on_cycle_index(g: IndexGraph, links: Seq<Link>, a: usize)
    requires
        represents(g, links),
        a < g.names@.len(),
    ensures
        on_cycle(links, g.names@[a as int]@) <==> exists|b: usize| #[trigger] edge(g.adj@, a, b) && reach(adj_rel(g.adj@), b, a),
{
    let u = g.names@[a as int]@;
    if on_cycle(links, u) {
        let i = choose|i: int| 0 <= i < links.len() && #[trigger] links[i].from@ == u && sreach(links, links[i].to@, u);
        assert(seq_view(g.names@).contains(links[i].to@));
        let j = choose|j: int| 0 <= j < seq_view(g.names@).len() && seq_view(g.names@)[j] == links[i].to@;
        let b = j as usize;
        assert(has_link(links, u, g.names@[b as int]@));
        assert(edge(g.adj@, a, b));
        lemma_sreach_index(g, links, b, a);
        assert(reach(adj_rel(g.adj@), b, a));
    }
    if exists|b: usize| #[trigger] edge(g.adj@, a, b) && reach(adj_rel(g.adj@), b, a) {
        let b = choose|b: usize| #[trigger] edge(g.adj@, a, b) && reach(adj_rel(g.adj@), b, a);
        let t = g.adj@[a as int]@;
        let j = choose|j: int| 0 <= j < t.len() && t[j] == b;
        assert(g.adj@[a as int]@[j] < g.adj@.len());
        assert(has_link(links, u, g.names@[b as int]@));
        let i = choose|i: int| 0 <= i < links.len() && #[trigger] links[i].from@ == u && links[i].to@ == g.names@[b as int]@;
        lemma_sreach_index(g, links, b, a);
        assert(sreach(links, links[i].to@, u));
    }
}

/// Every task uuid that lies on at least one dependency cycle, each once.
pub fn find_cycle_participants(deps: &Vec<Link>) -> (r: Vec<String>)
    ensures
        seq_view(r@).no_duplicates(),
        forall|u: Seq<char>| #[trigger] seq_view(r@).contains(u) <==> on_cycle(deps@, u),
{
    let g = build_graph(deps);
    let mut out: Vec<String> = Vec::new();
    let mut a: usize = 0;
    while a < g.names.len()
        invariant
            represents(g, deps@),
            a <= g.names@.len(),
            seq_view(out@).no_duplicates(),
            forall|k: int| 0 <= k < out@.len() ==> exists|x: int| 0 <= x < a && #[trigger] g.names@[x]@ == (#[trigger] out@[k])@,
            forall|x: int| 0 <= x < a ==> (on_cycle(deps@, #[trigger] g.names@[x]@) <==> seq_view(out@).contains(g.names@[x]@)),
        decreases g.names@.len() - a,
    {
        let ghost before = out@;
        proof { lemma_on_cycle_index(g, deps@, a); }
        if has_cycle_edge(&g, a) {
            proof {
                assert forall|k: int| 0 <= k < before.len() implies before[k]@ != g.names@[a as int]@ by {
                    let x = choose|x: int| 0 <= x < a && #[trigger] g.names@[x]@ == (#[trigger] before[k])@;
                    assert(seq_view(g.names@)[x] == seq_view(g.names@)[a as int] ==> x == a as int);
                }
            }
            out.push(g.names[a].clone());
            proof {
                assert(seq_view(out@) =~= seq_view(before).push(g.names@[a as int]@));
                assert forall|p: int, q: int| 0 <= p < q < seq_view(out@).len() implies seq_view(out@)[p] != seq_view(out@)[q] by {
                    if q == before.len() {
                        assert(seq_view(out@)[p] == before[p]@);
                    }
                }
                assert forall|k: int| 0 <= k < out@.len() implies exists|x: int| 0 <= x < a + 1 && #[trigger] g.names@[x]@ == (#[trigger] out@[k])@ by {
                    if k < before.len() {
                        assert(out@[k] == before[k]);
                        let x = choose|x: int| 0 <= x < a && #[trigger] g.names@[x]@ == (#[trigger] before[k])@;
                        assert(g.names@[x]@ == out@[k]@);
                    } else {
                        assert(g.names@[a as int]@ == out@[k]@);
                    }
                }
                assert forall|x: int| 0 <= x < a + 1 implies (on_cycle(deps@, #[trigger] g.names@[x]@) <==> seq_view(out@).contains(g.names@[x]@)) by {
                    if x < a {
                        if seq_view(before).contains(g.names@[x]@) {
                            let k = choose|k: int| 0 <= k < seq_view(before).len() && seq_view(before)[k] == g.names@[x]@;
                            assert(seq_view(out@)[k] == g.names@[x]@);
                        }
                        if seq_view(out@).contains(g.names@[x]@) {
                            let k = choose|k: int| 0 <= k < seq_view(out@).len() && seq_view(out@)[k] == g.names@[x]@;
                            if k < before.len() {
                                assert(seq_view(before)[k] == g.names@[x]@);
                            } else {
                                assert(seq_view(g.names@)[x] == seq_view(g.names@)[a as int]);
                            }
                        }
                    } else {
                        assert(seq_view(out@)[before.len() as int] == g.names@[x]@);
                    }
                }
            }
        } else {
            proof {
                assert forall|x: int| 0 <= x < a + 1 implies (on_cycle(deps@, #[trigger] g.names@[x]@) <==> seq_view(out@).contains(g.names@[x]@)) by {
                    if x == a {
                        if seq_view(out@).contains(g.names@[x]@) {
                            let k = choose|k: int| 0 <= k < seq_view(out@).len() && seq_view(out@)[k] == g.names@[x]@;
                            let y = choose|y: int| 0 <= y < a && #[trigger] g.names@[y]@ == (#[trigger] out@[k])@;
                            assert(seq_view(g.names@)[y] == seq_view(g.names@)[x]);
                        }
                    }
                }
            }
        }
        a = a + 1;
    }
    proof {
        assert forall|u: Seq<char>| #[trigger] seq_view(out@).contains(u) <==> on_cycle(deps@, u) by {
            if seq_view(out@).contains(u) {
                let k = choose|k: int| 0 <= k < seq_view(out@).len() && seq_view(out@)[k] == u;
                let x = choose|x: int| 0 <= x < a && #[trigger] g.names@[x]@ == (#[trigger] out@[k])@;
                assert(g.names@[x]@ == u);
            }
            if on_cycle(deps@, u) {
                let i = choose|i: int| 0 <= i < deps@.len() && #[trigger] deps@[i].from@ == u && sreach(deps@, deps@[i].to@, u);
                assert(seq_view(g.names@).contains(deps@[i].from@));
                let x = choose|x: int| 0 <= x < seq_view(g.names@).len() && seq_view(g.names@)[x] == u;
                assert(g.names@[x]@ == u);
            }
        }
    }
    out
}

/// The link relation as a relation on names.
pub open spec fn link_rel(links: Seq<Link>) -> spec_fn(Seq<char>, Seq<char>) -> bool {
    |a: Seq<char>, b: Seq<char>| has_link(links, a, b)
}

/// No dependency edge whose target reaches back to its source.
pub open spec fn deps_acyclic(links: Seq<Link>) -> bool {
    acyclic(link_rel(links))
}

proof fn lemma_sreach_rel(links: Seq<Link>, a: Seq<char>, b: Seq<char>)
    ensures
        sreach(links, a, b) <==> reach(link_rel(links), a, b),
{
    if sreach(links, a, b) {
        let p = choose|p: Seq<Seq<char>>| #[trigger] is_spath(links, p) && p[0] == a && p.last() == b;
        assert forall|i: int| 0 <= i < p.len() - 1 implies link_rel(links)(#[trigger] p[i], p[i + 1]) by {
            assert(has_link(links, p[i], p[i + 1]));
        }
        assert(is_path(link_rel(links), p));
    }
    if reach(link_rel(links), a, b) {
        let p = choose|p: Seq<Seq<char>>| #[trigger] is_path(link_rel(links), p) && p[0] == a && p.last() == b;
        assert forall|i: int| 0 <= i < p.len() - 1 implies has_link(links, #[trigger] p[i], p[i + 1]) by {
            assert(link_rel(links)(p[i], p[i + 1]));
        }
        assert(is_spath(links, p));
    }
}

/// The dependency edges once `task` has gained an edge to each of `adds`, in order.
pub open spec fn with_dep_adds(deps: Seq<Link>, task: String, adds: Seq<String>) -> Seq<Link> {
    deps + adds.map_values(|d: String| Link { from: task, to: d })
}

/// No added edge closes a cycle with the edges that stand before it.
pub open spec fn dep_adds_accepted(deps: Seq<Link>, task: String, adds: Seq<String>) -> bool {
    forall|k: int| 0 <= k < adds.len() ==> !sreach(with_dep_adds(deps, task, adds.take(k)), #[trigger] adds[k]@, task@)
}

fn copy_links(v: &Vec<Link>) -> (r: Vec<Link>)
    ensures
        r@ == v@,
{
    let mut out: Vec<Link> = Vec::new();
    let mut i: usize = 0;
    while i < v.len()
        invariant
            i <= v@.len(),
            out@ == v@.take(i as int),
        decreases v@.len() - i,
    {
        out.push(Link { from: v[i].from.clone(), to: v[i].to.clone() });
        assert(v@.take(i + 1) =~= v@.take(i as int).push(v@[i as int]));
        i = i + 1;
    }
    assert(v@.take(v@.len() as int) =~= v@);
    out
}

/// The cycle check of `edit --add-dep`: each new edge `task -> d` is
/// checked against the edges as they stand, those added before it included.
pub fn check_dep_adds(deps: &Vec<Link>, task_uuid: &String, adds: &Vec<String>) -> (r: Result<(), CliError>)
    ensures
        r is Ok <==> dep_adds_accepted(deps@, *task_uuid, adds@),
        r matches Err(e) ==> is_user_error(e, "adding this dependency would create a cycle"@),
{
    let mut cur = copy_links(deps);
    let mut k: usize = 0;
    assert(cur@ =~= with_dep_adds(deps@, *task_uuid, adds@.take(0)));
    while k < adds.len()
        invariant
            k <= adds@.len(),
            cur@ == with_dep_adds(deps@, *task_uuid, adds@.take(k as int)),
            forall|j: int| 0 <= j < k ==> !sreach(with_dep_adds(deps@, *task_uuid, adds@.take(j)), #[trigger] adds@[j]@, task_uuid@),
        decreases adds@.len() - k,
    {
        if would_create_cycle(&cur, task_uuid, &adds[k]) {
            return Err(CliError::User("adding this dependency would create a cycle".to_string()));
        }
        cur.push(Link { from: task_uuid.clone(), to: adds[k].clone() });
        assert(adds@.take(k + 1) =~= adds@.take(k as int).push(adds@[k as int]));
        assert(cur@ =~= with_dep_adds(deps@, *task_uuid, adds@.take(k + 1)));
        k = k + 1;
    }
    Ok(())
}

/// Adding `task -> d` to an acyclic dependency graph where `d` cannot reach
/// `task` keeps it acyclic.
proof fn lemma_add_dep_acyclic(deps: Seq<Link>, task: String, d: String)
    requires
        deps_acyclic(deps),
        !sreach(deps, d@, task@),
    ensures
        deps_acyclic(deps.push(Link { from: task, to: d })),
{
    let l2 = deps.push(Link { from: task, to: d });
    assert forall|x: Seq<char>, y: Seq<char>| #[trigger] link_rel(l2)(x, y) implies link_rel(deps)(x, y) || (x == task@ && y == d@) by {
        assert(has_link(l2, x, y));
        let w = choose|w: int| 0 <= w < l2.len() && #[trigger] l2[w].from@ == x && l2[w].to@ == y;
        if w < deps.len() {
            assert(l2[w] == deps[w]);
            assert(has_link(deps, x, y));
        }
    }
    lemma_sreach_rel(deps, d@, task@);
    lemma_acyclic_add_edge(link_rel(deps), link_rel(l2), task@, d@);
}

/// Law: dependency edits accepted by the cycle check keep an acyclic
/// dependency graph acyclic.
pub proof fn law_accepted_dep_adds_keep_acyclic(deps: Seq<Link>, task: String, adds: Seq<String>)
    requires
        deps_acyclic(deps),
        dep_adds_accepted(deps, task, adds),
    ensures
        deps_acyclic(with_dep_adds(deps, task, adds)),
    decreases adds.len(),
{
    if adds.len() == 0 {
        assert(with_dep_adds(deps, task, adds) =~= deps);
    } else {
        let k = adds.len() - 1;
        let front = adds.take(k);
        assert forall|j: int| 0 <= j < front.len() implies !sreach(with_dep_adds(deps, task, front.take(j)), #[trigger] front[j]@, task@) by {
            assert(front.take(j) =~= adds.take(j));
            assert(front[j] == adds[j]);
            assert(!sreach(with_dep_adds(deps, task, adds.take(j)), adds[j]@, task@));
        }
        law_accepted_dep_adds_keep_acyclic(deps, task, front);
        assert(!sreach(with_dep_adds(deps, task, adds.take(k)), adds[k]@, task@));
        lemma_add_dep_acyclic(with_dep_adds(deps, task, front), task, adds[k]);
        assert(with_dep_adds(deps, task, front).push(Link { from: task, to: adds[k] }) =~= with_dep_adds(deps, task, adds));
    }
}

} // verus!
