//! The rows that `add` and `edit` write to the link tables (`tags`, `deps`,
//! `related`): which pairs are inserted and deleted, in what order, and what
//! the table holds afterwards. A `related` link is written in both
//! directions, so the relation stays mutual.
use vstd::prelude::*;
use crate::strgraph::Link;
use crate::strs::seq_view;

verus! {

/// One write to a two-column table: `INSERT OR IGNORE` or `DELETE` of a row.
#[derive(Debug)]
pub enum RowWrite {
    Insert(Link),
    Delete(Link),
}

/// A write as plain values: whether it inserts, and the row.
pub open spec fn write_view(w: RowWrite) -> (bool, Seq<char>, Seq<char>) {
    match w {
        RowWrite::Insert(l) => (true, l.from@, l.to@),
        RowWrite::Delete(l) => (false, l.from@, l.to@),
    }
}

pub open spec fn writes_view(ws: Seq<RowWrite>) -> Seq<(bool, Seq<char>, Seq<char>)> {
    ws.map_values(|w: RowWrite| write_view(w))
}

/// The table after one write: inserting a row already there, or deleting
/// one that is not, leaves it as it was.
pub open spec fn apply_write(t: Set<(Seq<char>, Seq<char>)>, w: (bool, Seq<char>, Seq<char>)) -> Set<(Seq<char>, Seq<char>)> {
    if w.0 {
        t.insert((w.1, w.2))
    } else {
        t.remove((w.1, w.2))
    }
}

/// The table after the writes, made in order.
pub open spec fn apply_writes(t: Set<(Seq<char>, Seq<char>)>, ws: Seq<(bool, Seq<char>, Seq<char>)>) -> Set<(Seq<char>, Seq<char>)>
    decreases ws.len(),
{
    if ws.len() == 0 {
        t
    } else {
        apply_write(apply_writes(t, ws.drop_last()), ws.last())
    }
}

/// One write of `(me, x)` for each `x`.
pub open spec fn one_way(ins: bool, me: Seq<char>, xs: Seq<Seq<char>>) -> Seq<(bool, Seq<char>, Seq<char>)> {
    Seq::new(xs.len(), |i: int| (ins, me, xs[i]))
}

/// Writes of `(me, x)` and then `(x, me)` for each `x`.
pub open spec fn both_ways(ins: bool, me: Seq<char>, xs: Seq<Seq<char>>) -> Seq<(bool, Seq<char>, Seq<char>)> {
    Seq::new(2 * xs.len(), |i: int| if i % 2 == 0 { (ins, me, xs[i / 2]) } else { (ins, xs[i / 2], me) })
}

/// The writes for a tag or dependency change of task `me`: the additions,
/// then the removals.
pub open spec fn link_writes_spec(me: Seq<char>, add: Seq<Seq<char>>, rm: Seq<Seq<char>>) -> Seq<(bool, Seq<char>, Seq<char>)> {
    one_way(true, me, add) + one_way(false, me, rm)
}

/// The writes for a `related` change of task `me`: each pair in both
/// directions, the additions first.
pub open spec fn related_writes_spec(me: Seq<char>, add: Seq<Seq<char>>, rm: Seq<Seq<char>>) -> Seq<(bool, Seq<char>, Seq<char>)> {
    both_ways(true, me, add) + both_ways(false, me, rm)
}

/// Every row is there in both directions.
pub open spec fn is_mutual(t: Set<(Seq<char>, Seq<char>)>) -> bool {
    forall|a: Seq<char>, b: Seq<char>| #[trigger] t.contains((a, b)) ==> t.contains((b, a))
}

proof fn lemma_apply_concat(t: Set<(Seq<char>, Seq<char>)>, a: Seq<(bool, Seq<char>, Seq<char>)>, b: Seq<(bool, Seq<char>, Seq<char>)>)
    ensures
        apply_writes(t, a + b) == apply_writes(apply_writes(t, a), b),
    decreases b.len(),
{
    if b.len() == 0 {
        assert(a + b =~= a);
    } else {
        assert((a + b).drop_last() =~= a + b.drop_last());
        lemma_apply_concat(t, a, b.drop_last());
    }
}

proof fn lemma_contains_split(xs: Seq<Seq<char>>)
    requires
        xs.len() > 0,
    ensures
        forall|y: Seq<char>| #[trigger] xs.contains(y) <==> (xs.drop_last().contains(y) || y == xs.last()),
{
    let z = xs.last();
    assert forall|y: Seq<char>| #[trigger] xs.contains(y) <==> (xs.drop_last().contains(y) || y == z) by {
        if xs.contains(y) && y != z {
            let i = choose|i: int| 0 <= i < xs.len() && xs[i] == y;
            assert(xs.drop_last()[i] == y);
        }
        if xs.drop_last().contains(y) {
            let i = choose|i: int| 0 <= i < xs.drop_last().len() && xs.drop_last()[i] == y;
            assert(xs[i] == y);
        }
        if y == z {
            assert(xs[xs.len() - 1] == y);
        }
    }
}

proof fn lemma_one_way(t: Set<(Seq<char>, Seq<char>)>, ins: bool, me: Seq<char>, xs: Seq<Seq<char>>)
    ensures
        forall|x: Seq<char>, y: Seq<char>| #[trigger] apply_writes(t, one_way(ins, me, xs)).contains((x, y)) <==>
            if x == me && xs.contains(y) { ins } else { t.contains((x, y)) },
    decreases xs.len(),
{
    if xs.len() > 0 {
        let ws = one_way(ins, me, xs);
        assert(ws.drop_last() =~= one_way(ins, me, xs.drop_last()));
        lemma_one_way(t, ins, me, xs.drop_last());
        let z = xs.last();
        lemma_contains_split(xs);
        let prev = apply_writes(t, one_way(ins, me, xs.drop_last()));
        assert(ws.last() == (ins, me, z));
        assert(apply_writes(t, ws) == apply_write(prev, (ins, me, z)));
        assert forall|x: Seq<char>, y: Seq<char>| #[trigger] apply_writes(t, ws).contains((x, y)) <==>
            if x == me && xs.contains(y) { ins } else { t.contains((x, y)) } by {
            assert(prev.contains((x, y)) <==> if x == me && xs.drop_last().contains(y) { ins } else { t.contains((x, y)) });
        }
    } else {
        assert(one_way(ins, me, xs) =~= Seq::empty());
    }
}

proof fn lemma_both_ways(t: Set<(Seq<char>, Seq<char>)>, ins: bool, me: Seq<char>, xs: Seq<Seq<char>>)
    ensures
        forall|x: Seq<char>, y: Seq<char>| #[trigger] apply_writes(t, both_ways(ins, me, xs)).contains((x, y)) <==>
            if (x == me && xs.contains(y)) || (y == me && xs.contains(x)) { ins } else { t.contains((x, y)) },
    decreases xs.len(),
{
    if xs.len() > 0 {
        let ws = both_ways(ins, me, xs);
        let n = xs.len();
        let z = xs.last();
        assert(ws.drop_last().drop_last() =~= both_ways(ins, me, xs.drop_last()));
        assert(ws.last() == (ins, z, me));
        assert(ws.drop_last().last() == (ins, me, z));
        lemma_both_ways(t, ins, me, xs.drop_last());
        lemma_contains_split(xs);
        let prev = apply_writes(t, both_ways(ins, me, xs.drop_last()));
        assert(apply_writes(t, ws.drop_last()) == apply_write(prev, (ins, me, z)));
        assert(apply_writes(t, ws) == apply_write(apply_write(prev, (ins, me, z)), (ins, z, me)));
        assert forall|x: Seq<char>, y: Seq<char>| #[trigger] apply_writes(t, ws).contains((x, y)) <==>
            if (x == me && xs.contains(y)) || (y == me && xs.contains(x)) { ins } else { t.contains((x, y)) } by {
            assert(prev.contains((x, y)) <==>
                if (x == me && xs.drop_last().contains(y)) || (y == me && xs.drop_last().contains(x)) { ins } else { t.contains((x, y)) });
        }
    } else {
        assert(both_ways(ins, me, xs) =~= Seq::empty());
    }
}

/// After the writes for a tag or dependency change of task `me`, a row
/// `(me, x)` is there when `x` was removed: no; when it was added: yes;
/// otherwise, and for every other row, as before.
pub proof fn law_link_writes_rows(t: Set<(Seq<char>, Seq<char>)>, me: Seq<char>, add: Seq<Seq<char>>, rm: Seq<Seq<char>>)
    ensures
        forall|x: Seq<char>, y: Seq<char>| #[trigger] apply_writes(t, link_writes_spec(me, add, rm)).contains((x, y)) <==>
            if x == me && rm.contains(y) { false } else if x == me && add.contains(y) { true } else { t.contains((x, y)) },
{
    lemma_apply_concat(t, one_way(true, me, add), one_way(false, me, rm));
    lemma_one_way(t, true, me, add);
    lemma_one_way(apply_writes(t, one_way(true, me, add)), false, me, rm);
}

/// After the writes for a `related` change of task `me`, the link between
/// `me` and `x` is gone in both directions when `x` was removed, there in
/// both directions when it was added, and otherwise, like every other row,
/// as before.
pub proof fn law_related_writes_rows(t: Set<(Seq<char>, Seq<char>)>, me: Seq<char>, add: Seq<Seq<char>>, rm: Seq<Seq<char>>)
    ensures
        forall|x: Seq<char>, y: Seq<char>| #[trigger] apply_writes(t, related_writes_spec(me, add, rm)).contains((x, y)) <==>
            if (x == me && rm.contains(y)) || (y == me && rm.contains(x)) {
                false
            } else if (x == me && add.contains(y)) || (y == me && add.contains(x)) {
                true
            } else {
                t.contains((x, y))
            },
{
    lemma_apply_concat(t, both_ways(true, me, add), both_ways(false, me, rm));
    lemma_both_ways(t, true, me, add);
    lemma_both_ways(apply_writes(t, both_ways(true, me, add)), false, me, rm);
}

/// A `related` change keeps the relation mutual: linking A to B shows the
/// link on both tasks, and unlinking removes it from both.
pub proof fn law_related_writes_keep_mutual(t: Set<(Seq<char>, Seq<char>)>, me: Seq<char>, add: Seq<Seq<char>>, rm: Seq<Seq<char>>)
    requires
        is_mutual(t),
    ensures
        is_mutual(apply_writes(t, related_writes_spec(me, add, rm))),
{
    law_related_writes_rows(t, me, add, rm);
    let u = apply_writes(t, related_writes_spec(me, add, rm));
    assert forall|a: Seq<char>, b: Seq<char>| #[trigger] u.contains((a, b)) implies u.contains((b, a)) by {
        if !((a == me && rm.contains(b)) || (b == me && rm.contains(a))) && !((a == me && add.contains(b)) || (b == me && add.contains(a))) {
            assert(t.contains((a, b)));
            assert(t.contains((b, a)));
        }
    }
}

fn link(from: &str, to: &str) -> (l: Link)
    ensures
        l.from@ == from@,
        l.to@ == to@,
{
    Link { from: from.to_string(), to: to.to_string() }
}

/// The writes for a tag or dependency change of task `me`: insert `(me, x)`
/// for each addition, then delete `(me, x)` for each removal.
pub fn link_writes(me: &str, add: &Vec<String>, rm: &Vec<String>) -> (ws: Vec<RowWrite>)
    ensures
        writes_view(ws@) == link_writes_spec(me@, seq_view(add@), seq_view(rm@)),
        forall|t: Set<(Seq<char>, Seq<char>)>, x: Seq<char>, y: Seq<char>|
            #[trigger] apply_writes(t, writes_view(ws@)).contains((x, y)) <==>
            if x == me@ && seq_view(rm@).contains(y) { false } else if x == me@ && seq_view(add@).contains(y) { true } else { t.contains((x, y)) },
{
    let mut ws: Vec<RowWrite> = Vec::new();
    let mut i: usize = 0;
    while i < add.len()
        invariant
            i <= add@.len(),
            ws@.len() == i,
            forall|k: int| 0 <= k < i ==> write_view(#[trigger] ws@[k]) == (true, me@, add@[k]@),
        decreases add@.len() - i,
    {
        ws.push(RowWrite::Insert(link(me, add[i].as_str())));
        i = i + 1;
    }
    let mut j: usize = 0;
    while j < rm.len()
        invariant
            j <= rm@.len(),
            ws@.len() == add@.len() + j,
            forall|k: int| 0 <= k < add@.len() ==> write_view(#[trigger] ws@[k]) == (true, me@, add@[k]@),
            forall|k: int| 0 <= k < j ==> write_view(#[trigger] ws@[add@.len() + k]) == (false, me@, rm@[k]@),
        decreases rm@.len() - j,
    {
        ws.push(RowWrite::Delete(link(me, rm[j].as_str())));
        proof {
            assert(ws@[add@.len() + j] == ws@.last());
        }
        j = j + 1;
    }
    proof {
        assert forall|k: int| add@.len() <= k < ws@.len() implies write_view(#[trigger] ws@[k]) == (false, me@, rm@[k - add@.len()]@) by {
            assert(ws@[add@.len() + (k - add@.len())] == ws@[k]);
        }
        assert(writes_view(ws@) =~= link_writes_spec(me@, seq_view(add@), seq_view(rm@)));
        assert forall|t: Set<(Seq<char>, Seq<char>)>, x: Seq<char>, y: Seq<char>|
            #[trigger] apply_writes(t, writes_view(ws@)).contains((x, y)) <==>
            if x == me@ && seq_view(rm@).contains(y) { false } else if x == me@ && seq_view(add@).contains(y) { true } else { t.contains((x, y)) } by {
            law_link_writes_rows(t, me@, seq_view(add@), seq_view(rm@));
        }
    }
    ws
}

/// The writes for a `related` change of task `me`: for each addition,
/// insert `(me, x)` and `(x, me)`; then for each removal, delete both. Made
/// on any table, they keep a mutual relation mutual, remove the link
/// between `me` and each removed task in both directions, add it in both
/// directions for each added one that is not removed, and leave every
/// other row as it was.
pub fn related_writes(me: &str, add: &Vec<String>, rm: &Vec<String>) -> (ws: Vec<RowWrite>)
    requires
        2 * (add@.len() + rm@.len()) <= usize::MAX,
    ensures
        writes_view(ws@) == related_writes_spec(me@, seq_view(add@), seq_view(rm@)),
        forall|t: Set<(Seq<char>, Seq<char>)>| is_mutual(t) ==> is_mutual(#[trigger] apply_writes(t, writes_view(ws@))),
        forall|t: Set<(Seq<char>, Seq<char>)>, x: Seq<char>, y: Seq<char>|
            #[trigger] apply_writes(t, writes_view(ws@)).contains((x, y)) <==>
            if (x == me@ && seq_view(rm@).contains(y)) || (y == me@ && seq_view(rm@).contains(x)) {
                false
            } else if (x == me@ && seq_view(add@).contains(y)) || (y == me@ && seq_view(add@).contains(x)) {
                true
            } else {
                t.contains((x, y))
            },
{
    let mut ws: Vec<RowWrite> = Vec::new();
    let mut i: usize = 0;
    while i < add.len()
        invariant
            i <= add@.len(),
            ws@.len() == 2 * i,
            forall|k: int| 0 <= k < 2 * i ==> write_view(#[trigger] ws@[k]) ==
                if k % 2 == 0 { (true, me@, add@[k / 2]@) } else { (true, add@[k / 2]@, me@) },
        decreases add@.len() - i,
    {
        ws.push(RowWrite::Insert(link(me, add[i].as_str())));
        ws.push(RowWrite::Insert(link(add[i].as_str(), me)));
        i = i + 1;
    }
    let a: usize = 2 * add.len();
    let mut j: usize = 0;
    while j < rm.len()
        invariant
            j <= rm@.len(),
            a == 2 * add@.len(),
            2 * (add@.len() + rm@.len()) <= usize::MAX,
            ws@.len() == a + 2 * j,
            forall|k: int| 0 <= k < a ==> write_view(#[trigger] ws@[k]) ==
                if k % 2 == 0 { (true, me@, add@[k / 2]@) } else { (true, add@[k / 2]@, me@) },
            forall|k: int| 0 <= k < 2 * j ==> write_view(#[trigger] ws@[a + k]) ==
                if k % 2 == 0 { (false, me@, rm@[k / 2]@) } else { (false, rm@[k / 2]@, me@) },
        decreases rm@.len() - j,
    {
        ws.push(RowWrite::Delete(link(me, rm[j].as_str())));
        ws.push(RowWrite::Delete(link(rm[j].as_str(), me)));
        proof {
            assert forall|k: int| 0 <= k < 2 * (j + 1) implies write_view(#[trigger] ws@[a + k]) ==
                if k % 2 == 0 { (false, me@, rm@[k / 2]@) } else { (false, rm@[k / 2]@, me@) } by {
                if k == 2 * j {
                    assert(k / 2 == j);
                } else if k == 2 * j + 1 {
                    assert(k / 2 == j);
                }
            }
        }
        j = j + 1;
    }
    proof {
        assert forall|k: int| a <= k < ws@.len() implies write_view(#[trigger] ws@[k]) ==
            if (k - a) % 2 == 0 { (false, me@, rm@[(k - a) / 2]@) } else { (false, rm@[(k - a) / 2]@, me@) } by {
            assert(ws@[a + (k - a)] == ws@[k]);
        }
        assert(writes_view(ws@) =~= related_writes_spec(me@, seq_view(add@), seq_view(rm@)));
        assert forall|t: Set<(Seq<char>, Seq<char>)>| is_mutual(t) implies is_mutual(#[trigger] apply_writes(t, writes_view(ws@))) by {
            law_related_writes_keep_mutual(t, me@, seq_view(add@), seq_view(rm@));
        }
        assert forall|t: Set<(Seq<char>, Seq<char>)>, x: Seq<char>, y: Seq<char>|
            #[trigger] apply_writes(t, writes_view(ws@)).contains((x, y)) <==>
            if (x == me@ && seq_view(rm@).contains(y)) || (y == me@ && seq_view(rm@).contains(x)) {
                false
            } else if (x == me@ && seq_view(add@).contains(y)) || (y == me@ && seq_view(add@).contains(x)) {
                true
            } else {
                t.contains((x, y))
            } by {
            law_related_writes_rows(t, me@, seq_view(add@), seq_view(rm@));
        }
    }
    ws
}

} // verus!
