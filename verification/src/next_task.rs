//! `next`: the task to work on now. Three tiers, each skipping gates:
//! the oldest in-progress task; else the best unblocked partial task
//! (resume paused work first); else the best unblocked pending task.
use vstd::prelude::*;
use crate::status::Status;
use crate::strs::opt_view;
use crate::text::{lex_lt, str_eq, str_lt};

verus! {

/// What `next` reads of a task row.
#[derive(Debug)]
pub struct Candidate {
    pub status: Status,
    pub is_gate: bool,
    /// Some dependency of the task is not done.
    pub blocked: bool,
    pub priority: i64,
    pub id: i64,
    pub started_at: Option<String>,
    pub created_at: String,
}

/// SQL `ASC` order on a nullable text column: NULL first, then by code point.
pub open spec fn opt_text_lt(a: Option<Seq<char>>, b: Option<Seq<char>>) -> bool {
    match (a, b) {
        (None, Some(_)) => true,
        (Some(x), Some(y)) => lex_lt(x, y),
        _ => false,
    }
}

/// The tier (1, 2 or 3) a task belongs to, 0 when `next` never picks it.
pub open spec fn tier_of(c: Candidate) -> int {
    if c.is_gate {
        0
    } else if c.status == Status::InProgress {
        1
    } else if c.status == Status::Partial && !c.blocked {
        2
    } else if c.status == Status::Pending && !c.blocked {
        3
    } else {
        0
    }
}

/// The order within a tier: tier 1 by `started_at, id`; tier 2 by
/// `priority, started_at, id`; tier 3 by `priority, created_at, id`.
pub open spec fn next_before(tier: int, a: Candidate, b: Candidate) -> bool {
    let sa = opt_view(a.started_at);
    let sb = opt_view(b.started_at);
    if tier == 1 {
        opt_text_lt(sa, sb) || (sa == sb && a.id < b.id)
    } else if tier == 2 {
        a.priority < b.priority || (a.priority == b.priority && (opt_text_lt(sa, sb) || (sa == sb && a.id < b.id)))
    } else {
        a.priority < b.priority || (a.priority == b.priority && (lex_lt(a.created_at@, b.created_at@)
            || (a.created_at@ == b.created_at@ && a.id < b.id)))
    }
}

/// `i` is a first pick of tier `t`: in the tier, and nothing in the tier
/// comes before it.
pub open spec fn best_of_tier(cs: Seq<Candidate>, t: int, i: int) -> bool {
    &&& 0 <= i < cs.len()
    &&& tier_of(cs[i]) == t
    &&& forall|j: int| 0 <= j < cs.len() && tier_of(#[trigger] cs[j]) == t ==> !next_before(t, cs[j], cs[i])
}

pub open spec fn tier_empty(cs: Seq<Candidate>, t: int) -> bool {
    forall|j: int| 0 <= j < cs.len() ==> tier_of(#[trigger] cs[j]) != t
}

pub proof fn lemma_lex_lt_trans(a: Seq<char>, b: Seq<char>, c: Seq<char>)
    requires
        lex_lt(a, b),
        lex_lt(b, c),
    ensures
        lex_lt(a, c),
    decreases a.len(),
{
    if a.len() > 0 && b.len() > 0 && c.len() > 0 && a[0] == b[0] && b[0] == c[0] {
        lemma_lex_lt_trans(a.drop_first(), b.drop_first(), c.drop_first());
    }
}

proof fn lemma_lex_lt_irrefl(a: Seq<char>)
    ensures
        !lex_lt(a, a),
    decreases a.len(),
{
    if a.len() > 0 {
        lemma_lex_lt_irrefl(a.drop_first());
    }
}

proof fn lemma_opt_lt_trans(a: Option<Seq<char>>, b: Option<Seq<char>>, c: Option<Seq<char>>)
    ensures
        opt_text_lt(a, b) && opt_text_lt(b, c) ==> opt_text_lt(a, c),
        opt_text_lt(a, b) && b == c ==> opt_text_lt(a, c),
        a == b && opt_text_lt(b, c) ==> opt_text_lt(a, c),
        !opt_text_lt(a, a),
{
    match (a, b, c) {
        (Some(x), Some(y), Some(z)) => {
            if lex_lt(x, y) && lex_lt(y, z) {
                lemma_lex_lt_trans(x, y, z);
            }
        },
        _ => {},
    }
    if let Some(x) = a {
        lemma_lex_lt_irrefl(x);
    }
}

proof fn lemma_next_before_trans(t: int, a: Candidate, b: Candidate, c: Candidate)
    ensures
        next_before(t, a, b) && next_before(t, b, c) ==> next_before(t, a, c),
        !next_before(t, a, a),
{
    lemma_opt_lt_trans(opt_view(a.started_at), opt_view(b.started_at), opt_view(c.started_at));
    lemma_lex_lt_irrefl(a.created_at@);
    if lex_lt(a.created_at@, b.created_at@) && lex_lt(b.created_at@, c.created_at@) {
        lemma_lex_lt_trans(a.created_at@, b.created_at@, c.created_at@);
    }
}

fn opt_text_before(a: &Option<String>, b: &Option<String>) -> (r: bool)
    ensures
        r == opt_text_lt(opt_view(*a), opt_view(*b)),
{
    match (a, b) {
        (None, Some(_)) => true,
        (Some(x), Some(y)) => str_lt(x.as_str(), y.as_str()),
        _ => false,
    }
}

fn opt_text_eq(a: &Option<String>, b: &Option<String>) -> (r: bool)
    ensures
        r == (opt_view(*a) == opt_view(*b)),
{
    match (a, b) {
        (None, None) => true,
        (Some(x), Some(y)) => str_eq(x.as_str(), y.as_str()),
        _ => false,
    }
}

fn tier(c: &Candidate) -> (r: u8)
    ensures
        r as int == tier_of(*c),
{
    if c.is_gate {
        0
    } else {
        match c.status {
            Status::InProgress => 1,
            Status::Partial => if c.blocked { 0 } else { 2 },
            Status::Pending => if c.blocked { 0 } else { 3 },
            _ => 0,
        }
    }
}

fn before(t: u8, a: &Candidate, b: &Candidate) -> (r: bool)
    ensures
        r == next_before(t as int, *a, *b),
{
    if t == 1 {
        opt_text_before(&a.started_at, &b.started_at)
            || (opt_text_eq(&a.started_at, &b.started_at) && a.id < b.id)
    } else if t == 2 {
        a.priority < b.priority || (a.priority == b.priority && (opt_text_before(&a.started_at, &b.started_at)
            || (opt_text_eq(&a.started_at, &b.started_at) && a.id < b.id)))
    } else {
        a.priority < b.priority || (a.priority == b.priority && (str_lt(a.created_at.as_str(), b.created_at.as_str())
            || (str_eq(a.created_at.as_str(), b.created_at.as_str()) && a.id < b.id)))
    }
}

/// A first pick of tier `t`, if the tier holds any task.
fn best_in_tier(cs: &Vec<Candidate>, t: u8) -> (r: Option<usize>)
    ensures
        match r {
            Some(i) => best_of_tier(cs@, t as int, i as int),
            None => tier_empty(cs@, t as int),
        },
{
    let mut best: Option<usize> = None;
    let mut j: usize = 0;
    while j < cs.len()
        invariant
            j <= cs@.len(),
            match best {
                Some(b) => b < j && tier_of(cs@[b as int]) == t as int
                    && forall|k: int| 0 <= k < j && tier_of(#[trigger] cs@[k]) == t as int ==> !next_before(t as int, cs@[k], cs@[b as int]),
                None => forall|k: int| 0 <= k < j ==> tier_of(#[trigger] cs@[k]) != t as int,
            },
        decreases cs@.len() - j,
    {
        if tier(&cs[j]) == t {
            match best {
                None => {
                    proof { lemma_next_before_trans(t as int, cs@[j as int], cs@[j as int], cs@[j as int]); }
                    best = Some(j);
                },
                Some(b) => {
                    if before(t, &cs[j], &cs[b]) {
                        proof {
                            assert forall|k: int| 0 <= k < j + 1 && tier_of(#[trigger] cs@[k]) == t as int implies !next_before(t as int, cs@[k], cs@[j as int]) by {
                                lemma_next_before_trans(t as int, cs@[k], cs@[j as int], cs@[b as int]);
                            }
                        }
                        best = Some(j);
                    }
                },
            }
        }
        j = j + 1;
    }
    best
}

/// A task someone can work on now: not a gate, and either in progress, or
/// partial or pending with every dependency done.
pub open spec fn candidate_workable(c: Candidate) -> bool {
    !c.is_gate && (c.status == Status::InProgress
        || ((c.status == Status::Partial || c.status == Status::Pending) && !c.blocked))
}

/// What `next` may pick: a workable task; an in-progress one whenever some
/// non-gate task is in progress; a partial one whenever no non-gate task is
/// in progress and some unblocked partial task exists.
pub open spec fn next_pick_allowed(cs: Seq<Candidate>, i: int) -> bool {
    &&& 0 <= i < cs.len()
    &&& candidate_workable(cs[i])
    &&& (exists|j: int| 0 <= j < cs.len() && !(#[trigger] cs[j]).is_gate && cs[j].status == Status::InProgress)
        ==> cs[i].status == Status::InProgress
    &&& (forall|j: int| 0 <= j < cs.len() ==> !(!(#[trigger] cs[j]).is_gate && cs[j].status == Status::InProgress))
        && (exists|j: int| 0 <= j < cs.len() && !(#[trigger] cs[j]).is_gate && cs[j].status == Status::Partial && !cs[j].blocked)
        ==> cs[i].status == Status::Partial
}

/// Law: the task `next` picks is never a gate and never blocked (a partial
/// or pending task it picks has every dependency done); in-progress work
/// comes first, then unblocked partial work; and it picks nothing only when
/// no task is workable.
pub proof fn law_next_pick_is_workable(cs: Seq<Candidate>)
    ensures
        forall|i: int, t: int| 1 <= t <= 3 && #[trigger] best_of_tier(cs, t, i)
            && (forall|u: int| 1 <= u < t ==> #[trigger] tier_empty(cs, u)) ==> next_pick_allowed(cs, i),
        (forall|u: int| 1 <= u <= 3 ==> #[trigger] tier_empty(cs, u))
            ==> forall|j: int| 0 <= j < cs.len() ==> !candidate_workable(#[trigger] cs[j]),
{
    assert forall|i: int, t: int| 1 <= t <= 3 && #[trigger] best_of_tier(cs, t, i)
        && (forall|u: int| 1 <= u < t ==> #[trigger] tier_empty(cs, u)) implies next_pick_allowed(cs, i) by {
        if exists|j: int| 0 <= j < cs.len() && !(#[trigger] cs[j]).is_gate && cs[j].status == Status::InProgress {
            let j = choose|j: int| 0 <= j < cs.len() && !(#[trigger] cs[j]).is_gate && cs[j].status == Status::InProgress;
            assert(tier_of(cs[j]) == 1);
            if t > 1 {
                assert(tier_empty(cs, 1));
            }
        }
        if exists|j: int| 0 <= j < cs.len() && !(#[trigger] cs[j]).is_gate && cs[j].status == Status::Partial && !cs[j].blocked {
            let j = choose|j: int| 0 <= j < cs.len() && !(#[trigger] cs[j]).is_gate && cs[j].status == Status::Partial && !cs[j].blocked;
            assert(tier_of(cs[j]) == 2);
            if t > 2 {
                assert(tier_empty(cs, 2));
            }
        }
    }
    if forall|u: int| 1 <= u <= 3 ==> #[trigger] tier_empty(cs, u) {
        assert forall|j: int| 0 <= j < cs.len() implies !candidate_workable(#[trigger] cs[j]) by {
            assert(tier_empty(cs, 1) && tier_empty(cs, 2) && tier_empty(cs, 3));
            assert(tier_of(cs[j]) != 1 && tier_of(cs[j]) != 2 && tier_of(cs[j]) != 3);
        }
    }
}

/// The row `next` shows: the first pick of the first non-empty tier, if any.
pub fn select_next(cs: &Vec<Candidate>) -> (r: Option<usize>)
    ensures
        match r {
            Some(i) => exists|t: int| 1 <= t <= 3 && #[trigger] best_of_tier(cs@, t, i as int)
                && forall|u: int| 1 <= u < t ==> #[trigger] tier_empty(cs@, u),
            None => forall|u: int| 1 <= u <= 3 ==> #[trigger] tier_empty(cs@, u),
        },
        r matches Some(i) ==> next_pick_allowed(cs@, i as int),
        r is None ==> forall|j: int| 0 <= j < cs@.len() ==> !candidate_workable(#[trigger] cs@[j]),
{
    proof { law_next_pick_is_workable(cs@); }
    match best_in_tier(cs, 1) {
        Some(i) => {
            assert(best_of_tier(cs@, 1, i as int));
            return Some(i);
        },
        None => {},
    }
    match best_in_tier(cs, 2) {
        Some(i) => {
            assert(best_of_tier(cs@, 2, i as int));
            assert(tier_empty(cs@, 1));
            return Some(i);
        },
        None => {},
    }
    match best_in_tier(cs, 3) {
        Some(i) => {
            assert(best_of_tier(cs@, 3, i as int));
            assert(tier_empty(cs@, 1) && tier_empty(cs@, 2));
            Some(i)
        },
        None => {
            assert(tier_empty(cs@, 1) && tier_empty(cs@, 2) && tier_empty(cs@, 3));
            None
        },
    }
}

/// A gate that is still open (pending, partial or in progress).
pub fn has_open_gate(cs: &Vec<Candidate>) -> (r: bool)
    ensures
        r == exists|j: int| 0 <= j < cs@.len() && (#[trigger] cs@[j]).is_gate && cs@[j].status.spec_is_open(),
{
    let mut j: usize = 0;
    while j < cs.len()
        invariant
            j <= cs@.len(),
            forall|k: int| 0 <= k < j ==> !((#[trigger] cs@[k]).is_gate && cs@[k].status.spec_is_open()),
        decreases cs@.len() - j,
    {
        if cs[j].is_gate && cs[j].status.is_open() {
            return true;
        }
        j = j + 1;
    }
    false
}

} // verus!
