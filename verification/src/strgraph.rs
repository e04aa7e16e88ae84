//! Graphs whose nodes are strings (task uuids), given as a list of edges:
//! string-level reachability, decided through the index graph.
use vstd::prelude::*;
use crate::graph::{adj_rel, edge, graph_wf, is_path, lemma_reach_edge, lemma_reach_refl, lemma_reach_trans, reach, reaches};
use crate::strs::seq_view;
use crate::text::str_eq;

verus! {

/// A directed edge between two named nodes.
#[derive(Debug)]
pub struct Link {
    pub from: String,
    pub to: String,
}

pub open spec fn has_link(links: Seq<Link>, a: Seq<char>, b: Seq<char>) -> bool {
    exists|i: int| 0 <= i < links.len() && #[trigger] links[i].from@ == a && links[i].to@ == b
}

/// A walk along links (at least one node).
pub open spec fn is_spath(links: Seq<Link>, p: Seq<Seq<char>>) -> bool {
    &&& p.len() >= 1
    &&& forall|i: int| 0 <= i < p.len() - 1 ==> has_link(links, #[trigger] p[i], p[i + 1])
}

/// `b` can be reached from `a` in zero or more steps.
pub open spec fn sreach(links: Seq<Link>, a: Seq<char>, b: Seq<char>) -> bool {
    exists|p: Seq<Seq<char>>| #[trigger] is_spath(links, p) && p[0] == a && p.last() == b
}

/// An index graph for a list of links.
pub struct IndexGraph {
    pub names: Vec<String>,
    pub adj: Vec<Vec<usize>>,
}

/// `g` stands for `links`: distinct names, and an index edge exactly where
/// a link joins the two names.
pub open spec fn represents(g: IndexGraph, links: Seq<Link>) -> bool {
    &&& g.adj@.len() == g.names@.len()
    &&& g.names@.len() <= usize::MAX
    &&& graph_wf(g.adj@)
    &&& seq_view(g.names@).no_duplicates()
    &&& forall|i: int| 0 <= i < links.len() ==> seq_view(g.names@).contains(#[trigger] links[i].from@) && seq_view(g.names@).contains(links[i].to@)
    &&& forall|a: usize, b: usize| a < g.names@.len() && b < g.names@.len() ==>
        (#[trigger] edge(g.adj@, a, b) <==> has_link(links, g.names@[a as int]@, g.names@[b as int]@))
}

fn index_of(names: &Vec<String>, s: &String) -> (r: Option<usize>)
    ensures
        match r {
            Some(i) => i < names@.len() && names@[i as int]@ == s@,
            None => !seq_view(names@).contains(s@),
        },
{
    let mut i: usize = 0;
    while i < names.len()
        invariant
            i <= names@.len(),
            forall|j: int| 0 <= j < i ==> names@[j]@ != s@,
        decreases names@.len() - i,
    {
        if str_eq(names[i].as_str(), s.as_str()) {
            return Some(i);
        }
        i = i + 1;
    }
    None
}

fn intern(names: &mut Vec<String>, adj: &mut Vec<Vec<usize>>, s: &String) -> (r: usize)
    requires
        seq_view(old(names)@).no_duplicates(),
        old(adj)@.len() == old(names)@.len(),
        graph_wf(old(adj)@),
    ensures
        seq_view(final(names)@).no_duplicates(),
        final(adj)@.len() == final(names)@.len(),
        graph_wf(final(adj)@),
        r < final(names)@.len(),
        final(names)@[r as int]@ == s@,
        final(names)@.len() >= old(names)@.len(),
        forall|i: int| 0 <= i < old(names)@.len() ==> final(names)@[i] == old(names)@[i],
        forall|i: int| 0 <= i < old(adj)@.len() ==> final(adj)@[i] == old(adj)@[i],
        forall|i: int| old(adj)@.len() <= i < final(adj)@.len() ==> (#[trigger] final(adj)@[i])@.len() == 0,
        seq_view(final(names)@).to_set() == seq_view(old(names)@).to_set().insert(s@),
{
    match index_of(names, s) {
        Some(i) => {
            assert(seq_view(names@)[i as int] == s@);
            assert(seq_view(names@).contains(s@));
            assert(seq_view(names@).to_set().insert(s@) =~= seq_view(names@).to_set());
            i
        },
        None => {
            let ghost n0 = seq_view(names@);
            let ghost a0 = adj@;
            names.push(s.clone());
            adj.push(Vec::new());
            assert(seq_view(names@) =~= n0.push(s@));
            proof { crate::strs::lemma_push_to_set(n0, s@); }
            assert forall|x: int, y: int| 0 <= x < seq_view(names@).len() && 0 <= y < seq_view(names@).len() && x != y
                implies seq_view(names@)[x] != seq_view(names@)[y] by {
                if y == n0.len() { assert(n0.contains(n0[x])); }
                if x == n0.len() { assert(n0.contains(n0[y])); }
            }
            assert forall|i2: int, j2: int| 0 <= i2 < adj@.len() && 0 <= j2 < adj@[i2]@.len() implies #[trigger] adj@[i2]@[j2] < adj@.len() by {
                assert(adj@[i2] == a0[i2]);
                assert(a0[i2]@[j2] < a0.len());
            }
            names.len() - 1
        },
    }
}

/// Builds the index graph of a list of links.
pub fn build_graph(links: &Vec<Link>) -> (g: IndexGraph)
    ensures
        represents(g, links@),
{
    let mut names: Vec<String> = Vec::new();
    let mut adj: Vec<Vec<usize>> = Vec::new();
    let mut i: usize = 0;
    while i < links.len()
        invariant
            i <= links@.len(),
            seq_view(names@).no_duplicates(),
            adj@.len() == names@.len(),
            graph_wf(adj@),
            forall|x: int| 0 <= x < i ==> seq_view(names@).contains(#[trigger] links@[x].from@) && seq_view(names@).contains(links@[x].to@),
            forall|a: usize, b: usize| a < names@.len() && b < names@.len() ==>
                (#[trigger] edge(adj@, a, b) <==> has_link(links@.take(i as int), names@[a as int]@, names@[b as int]@)),
        decreases links@.len() - i,
    {
        let ghost names0 = names@;
        let ghost adj0 = adj@;
        let a = intern(&mut names, &mut adj, &links[i].from);
        let ghost names1 = names@;
        let ghost adj1 = adj@;
        let b = intern(&mut names, &mut adj, &links[i].to);
        let ghost names2 = names@;
        let ghost adj2 = adj@;
        proof {
            assert forall|x: usize, y: usize| x < names2.len() && y < names2.len() implies
                (#[trigger] edge(adj2, x, y) <==> has_link(links@.take(i as int), names2[x as int]@, names2[y as int]@)) by {
                if x < names0.len() && y < names0.len() {
                    assert(adj2[x as int] == adj0[x as int]);
                    assert(names2[x as int] == names0[x as int]);
                    assert(names2[y as int] == names0[y as int]);
                    assert(edge(adj2, x, y) == edge(adj0, x, y));
                } else {
                    if x >= adj0.len() {
                        assert(adj2[x as int]@.len() == 0);
                    } else {
                        assert(adj2[x as int] == adj0[x as int]);
                        if edge(adj0, x, y) {
                            let w = choose|w: int| 0 <= w < adj0[x as int]@.len() && adj0[x as int]@[w] == y;
                            assert(adj0[x as int]@[w] < adj0.len());
                        }
                    }
                    // a name not yet interned before this step is on no earlier link
                    let nv = if x >= names0.len() { names2[x as int]@ } else { names2[y as int]@ };
                    assert(!seq_view(names0).contains(nv)) by {
                        if seq_view(names0).contains(nv) {
                            let w = choose|w: int| 0 <= w < seq_view(names0).len() && seq_view(names0)[w] == nv;
                            assert(names2[w]@ == nv);
                            if x >= names0.len() {
                                assert(seq_view(names2)[w] == seq_view(names2)[x as int]);
                            } else {
                                assert(seq_view(names2)[w] == seq_view(names2)[y as int]);
                            }
                        }
                    }
                    if has_link(links@.take(i as int), names2[x as int]@, names2[y as int]@) {
                        let w = choose|w: int| 0 <= w < links@.take(i as int).len() && #[trigger] links@.take(i as int)[w].from@ == names2[x as int]@ && links@.take(i as int)[w].to@ == names2[y as int]@;
                        assert(links@[w] == links@.take(i as int)[w]);
                    }
                }
            }
        }
        let ghost adj_before = adj@;
        // add the edge a -> b
        let had = contains_idx(&adj[a], b);
        if !had {
            let mut row = adj[a].clone();
            assert(row@ =~= adj_before[a as int]@);
            row.push(b);
            adj.set(a, row);
            assert(adj@[a as int]@ == adj_before[a as int]@.push(b));
        }
        proof {
            assert(names@ == names2);
            assert(links@.take(i + 1) =~= links@.take(i as int).push(links@[i as int]));
            assert forall|x: usize, y: usize| x < names@.len() && y < names@.len() implies
                (#[trigger] edge(adj@, x, y) <==> (edge(adj_before, x, y) || (x == a && y == b))) by {
                if x == a && y == b {
                    if had {
                        assert(adj@ == adj_before);
                        let w = choose|w: int| 0 <= w < adj@[a as int]@.len() && adj@[a as int]@[w] == b;
                        assert(adj@[x as int]@[w] == y);
                    } else {
                        assert(adj@[x as int]@[adj_before[a as int]@.len() as int] == y);
                    }
                }
                if edge(adj@, x, y) && !(x == a && y == b) {
                    if x == a {
                        let w = choose|w: int| 0 <= w < adj@[x as int]@.len() && adj@[x as int]@[w] == y;
                        if w < adj_before[x as int]@.len() {
                            assert(adj_before[x as int]@[w] == y);
                        }
                    } else {
                        assert(adj@[x as int] == adj_before[x as int]);
                    }
                }
                if edge(adj_before, x, y) {
                    if x == a {
                        let w = choose|w: int| 0 <= w < adj_before[x as int]@.len() && adj_before[x as int]@[w] == y;
                        assert(adj@[x as int]@[w] == y);
                    } else {
                        assert(adj@[x as int] == adj_before[x as int]);
                    }
                }
            }
            assert forall|x: usize, y: usize| x < names@.len() && y < names@.len() implies
                (#[trigger] edge(adj@, x, y) <==> has_link(links@.take(i + 1), names@[x as int]@, names@[y as int]@)) by {
                lemma_has_link_push(links@, i as int, names@[x as int]@, names@[y as int]@);
                if names@[x as int]@ == links@[i as int].from@ {
                    assert(seq_view(names@)[x as int] == seq_view(names@)[a as int]);
                }
                if names@[y as int]@ == links@[i as int].to@ {
                    assert(seq_view(names@)[y as int] == seq_view(names@)[b as int]);
                }
            }
            assert forall|i2: int, j2: int| 0 <= i2 < adj@.len() && 0 <= j2 < adj@[i2]@.len() implies #[trigger] adj@[i2]@[j2] < adj@.len() by {
                if i2 != a { assert(adj@[i2] == adj_before[i2]); } else if j2 < adj_before[i2]@.len() { assert(adj@[i2]@[j2] == adj_before[i2]@[j2]); }
            }
            assert forall|x: int| 0 <= x < i + 1 implies seq_view(names@).contains(#[trigger] links@[x].from@) && seq_view(names@).contains(links@[x].to@) by {
                if x < i {
                    assert(seq_view(names0).contains(links@[x].from@));
                    assert(seq_view(names0).to_set().contains(links@[x].from@));
                    assert(seq_view(names@).to_set().contains(links@[x].from@));
                    assert(seq_view(names0).contains(links@[x].to@));
                    assert(seq_view(names0).to_set().contains(links@[x].to@));
                    assert(seq_view(names@).to_set().contains(links@[x].to@));
                } else {
                    assert(seq_view(names@)[a as int] == links@[x].from@);
                    assert(seq_view(names@)[b as int] == links@[x].to@);
                }
            }
        }
        let ghost i0 = i;
        i = i + 1;
        assert forall|x: int| 0 <= x < i implies seq_view(names@).contains(#[trigger] links@[x].from@) && seq_view(names@).contains(links@[x].to@) by {
            let t = links@[x].from@;
            assert(0 <= x < i0 + 1);
        }
    }
    assert(links@.take(links@.len() as int) =~= links@);
    let ghost adj_final = adj@;
    let _n = names.len();
    let g = IndexGraph { names, adj };
    assert(g.adj@.len() == g.names@.len());
    assert(graph_wf(g.adj@));
    assert(seq_view(g.names@).no_duplicates());
    assert forall|x: int| 0 <= x < links@.len() implies seq_view(g.names@).contains(#[trigger] links@[x].from@) && seq_view(g.names@).contains(links@[x].to@) by {
        let t = links@[x].from@;
    }
    assert forall|a: usize, b: usize| a < g.names@.len() && b < g.names@.len() implies
        (#[trigger] edge(g.adj@, a, b) <==> has_link(links@, g.names@[a as int]@, g.names@[b as int]@)) by {
        assert(edge(adj_final, a, b) <==> has_link(links@.take(links@.len() as int), g.names@[a as int]@, g.names@[b as int]@));
    }
    g
}

/// Every link endpoint of a walk of two or more nodes is a named node.
proof fn lemma_spath_reach(g: IndexGraph, links: Seq<Link>, p: Seq<Seq<char>>, a: usize)
    requires
        represents(g, links),
        is_spath(links, p),
        a < g.names@.len(),
        g.names@[a as int]@ == p[0],
    ensures
        exists|b: usize| b < g.names@.len() && g.names@[b as int]@ == p.last() && #[trigger] reach(adj_rel(g.adj@), a, b),
    decreases p.len(),
{
    if p.len() == 1 {
        lemma_reach_refl(adj_rel(g.adj@), a);
        assert(reach(adj_rel(g.adj@), a, a));
    } else {
        let q = p.drop_last();
        assert forall|i: int| 0 <= i < q.len() - 1 implies has_link(links, #[trigger] q[i], q[i + 1]) by {
            assert(q[i] == p[i] && q[i + 1] == p[i + 1]);
            assert(has_link(links, p[i], p[i + 1]));
        }
        lemma_spath_reach(g, links, q, a);
        let b0 = choose|b: usize| b < g.names@.len() && g.names@[b as int]@ == q.last() && #[trigger] reach(adj_rel(g.adj@), a, b);
        let k = p.len() - 2;
        assert(has_link(links, p[k], p[k + 1]));
        let w = choose|w: int| 0 <= w < links.len() && #[trigger] links[w].from@ == p[k] && links[w].to@ == p[k + 1];
        assert(seq_view(g.names@).contains(links[w].to@));
        let j = choose|j: int| 0 <= j < seq_view(g.names@).len() && seq_view(g.names@)[j] == links[w].to@;
        let b = j as usize;
        assert(g.names@[b as int]@ == p.last());
        assert(q.last() == p[k]);
        assert(edge(g.adj@, b0, b));
        assert(adj_rel(g.adj@)(b0, b));
        lemma_reach_edge(adj_rel(g.adj@), b0, b);
        lemma_reach_trans(adj_rel(g.adj@), a, b0, b);
    }
}

/// An index walk read through the names is a walk along the links.
proof fn lemma_path_spath(g: IndexGraph, links: Seq<Link>, q: Seq<usize>)
    requires
        represents(g, links),
        is_path(adj_rel(g.adj@), q),
    ensures
        is_spath(links, q.map_values(|x: usize| g.names@[x as int]@)),
{
    let p = q.map_values(|x: usize| g.names@[x as int]@);
    assert forall|i: int| 0 <= i < p.len() - 1 implies has_link(links, #[trigger] p[i], p[i + 1]) by {
        let x = q[i];
        let y = q[i + 1];
        assert(adj_rel(g.adj@)(x, y));
        assert(edge(g.adj@, x, y));
        let j = choose|j: int| 0 <= j < g.adj@[x as int]@.len() && g.adj@[x as int]@[j] == y;
        assert(g.adj@[x as int]@[j] < g.adj@.len());
        assert(p[i] == g.names@[x as int]@);
        assert(p[i + 1] == g.names@[y as int]@);
    }
}

/// Over a represented link list, string reachability between two named
/// nodes is index reachability.
pub proof fn lemma_sreach_index(g: IndexGraph, links: Seq<Link>, a: usize, b: usize)
    requires
        represents(g, links),
        a < g.names@.len(),
        b < g.names@.len(),
    ensures
        sreach(links, g.names@[a as int]@, g.names@[b as int]@) <==> reach(adj_rel(g.adj@), a, b),
{
    if sreach(links, g.names@[a as int]@, g.names@[b as int]@) {
        let p = choose|p: Seq<Seq<char>>| #[trigger] is_spath(links, p) && p[0] == g.names@[a as int]@ && p.last() == g.names@[b as int]@;
        lemma_spath_reach(g, links, p, a);
        let b2 = choose|b2: usize| b2 < g.names@.len() && g.names@[b2 as int]@ == p.last() && #[trigger] reach(adj_rel(g.adj@), a, b2);
        assert(seq_view(g.names@)[b2 as int] == seq_view(g.names@)[b as int]);
        assert(b2 == b);
    }
    if reach(adj_rel(g.adj@), a, b) {
        let q = choose|q: Seq<usize>| #[trigger] is_path(adj_rel(g.adj@), q) && q[0] == a && q.last() == b;
        lemma_path_spath(g, links, q);
        let p = q.map_values(|x: usize| g.names@[x as int]@);
        assert(p[0] == g.names@[a as int]@);
        assert(p.last() == g.names@[b as int]@);
        assert(is_spath(links, p));
    }
}

/// A node that starts no link reaches only itself.
proof fn lemma_sreach_from_unlinked(links: Seq<Link>, s: Seq<char>, t: Seq<char>)
    requires
        forall|i: int| 0 <= i < links.len() ==> #[trigger] links[i].from@ != s,
    ensures
        sreach(links, s, t) <==> s == t,
{
    if s == t {
        let p = seq![s];
        assert(is_spath(links, p));
    }
    if sreach(links, s, t) {
        let p = choose|p: Seq<Seq<char>>| #[trigger] is_spath(links, p) && p[0] == s && p.last() == t;
        if p.len() > 1 {
            assert(has_link(links, p[0], p[1]));
            let w = choose|w: int| 0 <= w < links.len() && #[trigger] links[w].from@ == p[0] && links[w].to@ == p[1];
            assert(false);
        }
    }
}

/// A node that ends no link is reached only from itself.
proof fn lemma_sreach_to_untargeted(links: Seq<Link>, s: Seq<char>, t: Seq<char>)
    requires
        forall|i: int| 0 <= i < links.len() ==> #[trigger] links[i].to@ != t,
    ensures
        sreach(links, s, t) <==> s == t,
{
    if s == t {
        let p = seq![s];
        assert(is_spath(links, p));
    }
    if sreach(links, s, t) {
        let p = choose|p: Seq<Seq<char>>| #[trigger] is_spath(links, p) && p[0] == s && p.last() == t;
        if p.len() > 1 {
            let k = p.len() - 2;
            assert(has_link(links, p[k], p[k + 1]));
            let w = choose|w: int| 0 <= w < links.len() && #[trigger] links[w].from@ == p[k] && links[w].to@ == p[k + 1];
            assert(false);
        }
    }
}

/// Whether `to` can be reached from `from` along the links.
pub fn str_reaches(links: &Vec<Link>, from: &String, to: &String) -> (r: bool)
    ensures
        r == sreach(links@, from@, to@),
{
    if str_eq(from.as_str(), to.as_str()) {
        proof {
            let p = seq![from@];
            assert(is_spath(links@, p));
        }
        return true;
    }
    let g = build_graph(links);
    match index_of(&g.names, from) {
        None => {
            proof {
                assert forall|i: int| 0 <= i < links@.len() implies #[trigger] links@[i].from@ != from@ by {
                    assert(seq_view(g.names@).contains(links@[i].from@));
                }
                lemma_sreach_from_unlinked(links@, from@, to@);
            }
            false
        },
        Some(a) => {
            match index_of(&g.names, to) {
                None => {
                    proof {
                        assert forall|i: int| 0 <= i < links@.len() implies #[trigger] links@[i].to@ != to@ by {
                            let t = links@[i].from@;
                            assert(seq_view(g.names@).contains(links@[i].to@));
                        }
                        lemma_sreach_to_untargeted(links@, from@, to@);
                    }
                    false
                },
                Some(b) => {
                    proof { lemma_sreach_index(g, links@, a, b); }
                    reaches(&g.adj, a, b)
                },
            }
        },
    }
}

proof fn lemma_has_link_push(links: Seq<Link>, i: int, p: Seq<char>, q: Seq<char>)
    requires
        0 <= i < links.len(),
    ensures
        has_link(links.take(i + 1), p, q) <==> (has_link(links.take(i), p, q) || (links[i].from@ == p && links[i].to@ == q)),
{
    let t0 = links.take(i);
    let t1 = links.take(i + 1);
    if has_link(t0, p, q) {
        let w = choose|w: int| 0 <= w < t0.len() && #[trigger] t0[w].from@ == p && t0[w].to@ == q;
        assert(t1[w] == t0[w]);
    }
    if links[i].from@ == p && links[i].to@ == q {
        assert(t1[i] == links[i]);
    }
    if has_link(t1, p, q) {
        let w = choose|w: int| 0 <= w < t1.len() && #[trigger] t1[w].from@ == p && t1[w].to@ == q;
        if w < i {
            assert(t0[w] == t1[w]);
        }
    }
}

pub fn contains_idx(v: &Vec<usize>, x: usize) -> (r: bool)
    ensures
        r == v@.contains(x),
{
    let mut i: usize = 0;
    while i < v.len()
        invariant
            i <= v@.len(),
            forall|j: int| 0 <= j < i ==> v@[j] != x,
        decreases v@.len() - i,
    {
        if v[i] == x {
            return true;
        }
        i = i + 1;
    }
    false
}

} // verus!
