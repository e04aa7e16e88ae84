//! Helpers over optional strings and string lists: equality, cloning,
//! membership, set-like union, prefix stripping.
use vstd::prelude::*;
use crate::text::str_eq;

verus! {

/// The character-sequence view of an optional string.
pub open spec fn opt_view(o: Option<String>) -> Option<Seq<char>> {
    match o {
        Some(s) => Some(s@),
        None => None,
    }
}

/// The views of a list of strings.
pub open spec fn seq_view(v: Seq<String>) -> Seq<Seq<char>> {
    v.map_values(|s: String| s@)
}

pub fn opt_eq(a: &Option<String>, b: &Option<String>) -> (r: bool)
    ensures
        r == (opt_view(*a) == opt_view(*b)),
{
    match (a, b) {
        (Some(x), Some(y)) => str_eq(x.as_str(), y.as_str()),
        (None, None) => true,
        _ => false,
    }
}

pub fn clone_opt(a: &Option<String>) -> (r: Option<String>)
    ensures
        opt_view(r) == opt_view(*a),
{
    match a {
        Some(x) => Some(x.clone()),
        None => None,
    }
}

/// `o.as_deref().unwrap_or("")`.
pub open spec fn text_or_empty(o: Option<Seq<char>>) -> Seq<char> {
    match o {
        Some(s) => s,
        None => Seq::empty(),
    }
}

pub fn or_empty(a: &Option<String>) -> (r: String)
    ensures
        r@ == text_or_empty(opt_view(*a)),
{
    match a {
        Some(x) => x.clone(),
        None => String::new(),
    }
}

/// Copies a list of strings.
pub fn clone_strings(v: &Vec<String>) -> (r: Vec<String>)
    ensures
        seq_view(r@) == seq_view(v@),
{
    let mut out: Vec<String> = Vec::new();
    let mut i: usize = 0;
    while i < v.len()
        invariant
            i <= v@.len(),
            seq_view(out@) =~= seq_view(v@.take(i as int)),
        decreases v@.len() - i,
    {
        let ghost before = out@;
        let c = v[i].clone();
        out.push(c);
        assert(out@ =~= before.push(c));
        assert(v@.take(i + 1) =~= v@.take(i as int).push(v@[i as int]));
        assert(seq_view(out@) =~= seq_view(before).push(c@));
        assert(seq_view(v@.take(i + 1)) =~= seq_view(v@.take(i as int)).push(v@[i as int]@));
        i = i + 1;
    }
    assert(v@.take(v@.len() as int) =~= v@);
    out
}

/// Whether the list holds the string.
pub fn contains_str(v: &Vec<String>, s: &str) -> (r: bool)
    ensures
        r == seq_view(v@).contains(s@),
{
    let mut i: usize = 0;
    while i < v.len()
        invariant
            i <= v@.len(),
            forall|j: int| 0 <= j < i ==> v@[j]@ != s@,
        decreases v@.len() - i,
    {
        if str_eq(v[i].as_str(), s) {
            assert(seq_view(v@)[i as int] == s@);
            return true;
        }
        i = i + 1;
    }
    assert forall|j: int| 0 <= j < seq_view(v@).len() implies seq_view(v@)[j] != s@ by {
        assert(seq_view(v@)[j] == v@[j]@);
    }
    false
}

/// Appends each string of `src` that `dst` does not hold yet.
pub fn extend_unique(dst: &mut Vec<String>, src: &Vec<String>)
    requires
        seq_view(old(dst)@).no_duplicates(),
    ensures
        seq_view(final(dst)@).no_duplicates(),
        seq_view(final(dst)@).to_set() == seq_view(old(dst)@).to_set() + seq_view(src@).to_set(),
{
    let ghost d0 = seq_view(dst@).to_set();
    let mut i: usize = 0;
    while i < src.len()
        invariant
            i <= src@.len(),
            seq_view(dst@).no_duplicates(),
            seq_view(dst@).to_set() == d0 + seq_view(src@.take(i as int)).to_set(),
        decreases src@.len() - i,
    {
        let ghost before = seq_view(dst@);
        let s = &src[i];
        if !contains_str(dst, s.as_str()) {
            dst.push(s.clone());
            assert(seq_view(dst@) =~= before.push(s@));
            assert forall|a: int, b: int| 0 <= a < b < seq_view(dst@).len() implies seq_view(dst@)[a] != seq_view(dst@)[b] by {
                if b == before.len() {
                    assert(before.contains(before[a]));
                }
            }
        }
        assert(seq_view(src@.take(i + 1)) =~= seq_view(src@.take(i as int)).push(s@));
        assert(seq_view(src@.take(i + 1)).to_set() =~= seq_view(src@.take(i as int)).to_set().insert(s@)) by {
            lemma_push_to_set(seq_view(src@.take(i as int)), s@);
        }
        assert(seq_view(dst@).to_set() =~= d0 + seq_view(src@.take(i + 1)).to_set()) by {
            if before.contains(s@) {
                assert(seq_view(dst@) == before);
            } else {
                lemma_push_to_set(before, s@);
            }
        }
        i = i + 1;
    }
    assert(src@.take(src@.len() as int) =~= src@);
}

pub proof fn lemma_push_to_set<A>(sq: Seq<A>, e: A)
    ensures
        sq.push(e).to_set() =~= sq.to_set().insert(e),
{
    assert(sq.push(e) =~= sq + seq![e]);
    Seq::lemma_to_set_insert_commutes(sq, e);
}

/// `p` is a prefix of `s`.
pub open spec fn is_prefix(p: Seq<char>, s: Seq<char>) -> bool {
    p.len() <= s.len() && s.take(p.len() as int) == p
}

/// `str::strip_prefix`.
pub fn strip_prefix(s: &str, p: &str) -> (r: Option<String>)
    ensures
        match r {
            Some(rest) => is_prefix(p@, s@) && rest@ == s@.skip(p@.len() as int),
            None => !is_prefix(p@, s@),
        },
{
    let ns = s.unicode_len();
    let np = p.unicode_len();
    if np > ns {
        return None;
    }
    let mut i: usize = 0;
    while i < np
        invariant
            ns == s@.len(),
            np == p@.len(),
            np <= ns,
            i <= np,
            forall|j: int| 0 <= j < i ==> s@[j] == p@[j],
        decreases np - i,
    {
        if s.get_char(i) != p.get_char(i) {
            assert(s@.take(np as int)[i as int] != p@[i as int]);
            return None;
        }
        i = i + 1;
    }
    assert(s@.take(np as int) =~= p@);
    let rest = s.substring_char(np, ns);
    assert(rest@ =~= s@.skip(np as int));
    Some(rest.to_string())
}

/// `s` with every leading `'\n'` removed (`trim_start_matches('\n')`).
pub open spec fn trim_newlines_start(s: Seq<char>) -> Seq<char>
    decreases s.len(),
{
    if s.len() > 0 && s[0] == '\n' {
        trim_newlines_start(s.drop_first())
    } else {
        s
    }
}

pub fn trim_leading_newlines(s: &str) -> (r: String)
    ensures
        r@ == trim_newlines_start(s@),
{
    let n = s.unicode_len();
    let mut a: usize = 0;
    assert(s@.skip(0) =~= s@);
    while a < n && s.get_char(a) == '\n'
        invariant
            n == s@.len(),
            a <= n,
            trim_newlines_start(s@) == trim_newlines_start(s@.skip(a as int)),
        decreases n - a,
    {
        assert(s@.skip(a as int).drop_first() =~= s@.skip(a + 1));
        a = a + 1;
    }
    let r = s.substring_char(a, n);
    assert(r@ =~= s@.skip(a as int));
    r.to_string()
}

} // verus!
