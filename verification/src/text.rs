//! String helpers with exact specifications: decimal rendering and parsing
//! of integers, whitespace trimming, lexicographic comparison.
use vstd::prelude::*;

verus! {

/// Appends one character (std `String::push`).
#[verifier::external_body]
pub(crate) fn push_char(s: &mut String, c: char)
    ensures
        final(s)@ == old(s)@.push(c),
{
    s.push(c);
}

/// Appends a string slice.
pub fn push_str(s: &mut String, t: &str)
    ensures
        final(s)@ == old(s)@ + t@,
{
    s.append(t);
}

/// The decimal digit character for `d` (0..=9).
pub open spec fn digit_char(d: nat) -> char {
    if d == 0 { '0' }
    else if d == 1 { '1' }
    else if d == 2 { '2' }
    else if d == 3 { '3' }
    else if d == 4 { '4' }
    else if d == 5 { '5' }
    else if d == 6 { '6' }
    else if d == 7 { '7' }
    else if d == 8 { '8' }
    else { '9' }
}

/// Decimal representation of a natural number, without leading zeros.
pub open spec fn nat_to_dec(n: nat) -> Seq<char>
    decreases n,
{
    if n < 10 {
        seq![digit_char(n)]
    } else {
        nat_to_dec(n / 10).push(digit_char(n % 10))
    }
}

/// Decimal representation of an integer, with a leading `-` when negative
/// (what `i64`'s `Display` writes).
pub open spec fn int_to_dec(n: int) -> Seq<char> {
    if n < 0 {
        seq!['-'] + nat_to_dec((-n) as nat)
    } else {
        nat_to_dec(n as nat)
    }
}

fn digit_to_char(d: u64) -> (c: char)
    requires
        d < 10,
    ensures
        c == digit_char(d as nat),
{
    if d == 0 { '0' }
    else if d == 1 { '1' }
    else if d == 2 { '2' }
    else if d == 3 { '3' }
    else if d == 4 { '4' }
    else if d == 5 { '5' }
    else if d == 6 { '6' }
    else if d == 7 { '7' }
    else if d == 8 { '8' }
    else { '9' }
}

/// Decimal rendering of an unsigned value.
pub fn u64_to_string(n: u64) -> (s: String)
    ensures
        s@ == nat_to_dec(n as nat),
    decreases n,
{
    if n < 10 {
        let mut s = String::new();
        push_char(&mut s, digit_to_char(n));
        assert(s@ =~= nat_to_dec(n as nat));
        s
    } else {
        let mut s = u64_to_string(n / 10);
        push_char(&mut s, digit_to_char(n % 10));
        s
    }
}

/// Decimal rendering of a signed value, as `i64`'s `Display` writes it.
pub fn i64_to_string(n: i64) -> (s: String)
    ensures
        s@ == int_to_dec(n as int),
{
    if n < 0 {
        let mag: u64 = if n == i64::MIN {
            9223372036854775808u64
        } else {
            (-n) as u64
        };
        let digits = u64_to_string(mag);
        let mut s = String::new();
        push_char(&mut s, '-');
        push_str(&mut s, digits.as_str());
        assert(s@ =~= int_to_dec(n as int));
        s
    } else {
        u64_to_string(n as u64)
    }
}

/// Whether `c` is an ASCII decimal digit.
pub open spec fn is_digit(c: char) -> bool {
    '0' <= c && c <= '9'
}

pub open spec fn digit_value(c: char) -> int {
    (c as int) - ('0' as int)
}

/// Every character of `s` is an ASCII digit.
pub open spec fn all_digits(s: Seq<char>) -> bool {
    forall|i: int| 0 <= i < s.len() ==> is_digit(#[trigger] s[i])
}

/// The value of a string of decimal digits.
pub open spec fn dec_value(s: Seq<char>) -> int
    decreases s.len(),
{
    if s.len() == 0 {
        0
    } else {
        dec_value(s.drop_last()) * 10 + digit_value(s.last())
    }
}

/// What `str::parse::<i64>` accepts: an optional `+` or `-`, then at least
/// one ASCII digit and nothing else, with the value in `i64`'s range.
pub open spec fn parse_i64_spec(s: Seq<char>) -> Option<int> {
    let neg = s.len() > 0 && s[0] == '-';
    let body = if s.len() > 0 && (s[0] == '-' || s[0] == '+') { s.drop_first() } else { s };
    if body.len() == 0 || !all_digits(body) {
        None
    } else {
        let v = if neg { -dec_value(body) } else { dec_value(body) };
        if i64::MIN <= v && v <= i64::MAX { Some(v) } else { None }
    }
}

proof fn lemma_dec_value_nonneg(s: Seq<char>)
    requires
        all_digits(s),
    ensures
        dec_value(s) >= 0,
    decreases s.len(),
{
    if s.len() > 0 {
        assert(is_digit(s[s.len() - 1]));
        lemma_dec_value_nonneg(s.drop_last());
    }
}

proof fn lemma_dec_value_grows(s: Seq<char>, i: int)
    requires
        all_digits(s),
        0 <= i <= s.len(),
    ensures
        dec_value(s.take(i)) <= dec_value(s),
    decreases s.len() - i,
{
    if i < s.len() {
        lemma_dec_value_grows(s, i + 1);
        let t = s.take(i + 1);
        assert(t.drop_last() =~= s.take(i));
        assert(is_digit(s[i]));
        assert(all_digits(s.take(i)));
        lemma_dec_value_nonneg(s.take(i));
    } else {
        assert(s.take(i) =~= s);
    }
}

proof fn lemma_digit_char(d: nat)
    requires
        d < 10,
    ensures
        is_digit(digit_char(d)),
        digit_value(digit_char(d)) == d,
{
}

proof fn lemma_nat_to_dec(m: nat)
    ensures
        nat_to_dec(m).len() >= 1,
        all_digits(nat_to_dec(m)),
        dec_value(nat_to_dec(m)) == m,
    decreases m,
{
    if m < 10 {
        lemma_digit_char(m);
        let s = nat_to_dec(m);
        assert(s =~= seq![digit_char(m)]);
        assert(s.drop_last() =~= Seq::<char>::empty());
        assert(dec_value(Seq::<char>::empty()) == 0);
        assert(dec_value(s) == dec_value(s.drop_last()) * 10 + digit_value(s.last()));
    } else {
        let q = m / 10;
        let r = m % 10;
        lemma_nat_to_dec(q);
        lemma_digit_char(r as nat);
        let s = nat_to_dec(m);
        assert(s == nat_to_dec(q).push(digit_char(r as nat)));
        assert(s.drop_last() =~= nat_to_dec(q));
        assert forall|i: int| 0 <= i < s.len() implies is_digit(#[trigger] s[i]) by {
            if i < s.len() - 1 {
                assert(s[i] == nat_to_dec(q)[i]);
            }
        }
        assert(q * 10 + r == m) by (nonlinear_arith)
            requires q == m / 10, r == m % 10;
        assert(s.last() == digit_char(r as nat));
        assert(dec_value(s) == dec_value(s.drop_last()) * 10 + digit_value(s.last()));
    }
}

/// Law: the decimal text printed for a number (a display id, say) parses
/// back to that number.
pub proof fn law_decimal_round_trip(n: i64)
    ensures
        parse_i64_spec(int_to_dec(n as int)) == Some(n as int),
{
    if n >= 0 {
        lemma_nat_to_dec(n as nat);
        let s = nat_to_dec(n as nat);
        assert(is_digit(s[0]));
    } else {
        lemma_nat_to_dec((-n) as nat);
        let s = int_to_dec(n as int);
        assert(s.drop_first() =~= nat_to_dec((-n) as nat));
    }
}

/// `str::parse::<i64>`, written out.
pub fn parse_i64(s: &str) -> (r: Option<i64>)
    ensures
        match r {
            Some(v) => parse_i64_spec(s@) == Some(v as int),
            None => parse_i64_spec(s@) is None,
        },
{
    let n = s.unicode_len();
    if n == 0 {
        return None;
    }
    let c0 = s.get_char(0);
    let neg = c0 == '-';
    let start: usize = if c0 == '-' || c0 == '+' { 1 } else { 0 };
    let ghost body = if c0 == '-' || c0 == '+' { s@.drop_first() } else { s@ };
    if start == n {
        return None;
    }
    let bound: u128 = 9223372036854775808u128;
    assert(body.take(0) =~= Seq::<char>::empty());
    let mut acc: u128 = 0;
    let mut i: usize = start;
    while i < n
        invariant
            n == s@.len(),
            start <= i <= n,
            start == 0 || start == 1,
            body =~= s@.subrange(start as int, n as int),
            all_digits(body.take(i - start)),
            acc == dec_value(body.take(i - start)),
            acc <= bound,
            bound == 9223372036854775808u128,
            c0 == s@[0],
            body == (if c0 == '-' || c0 == '+' { s@.drop_first() } else { s@ }),
        decreases n - i,
    {
        let c = s.get_char(i);
        if !('0' <= c && c <= '9') {
            assert(body[i - start] == c);
            assert(!is_digit(body[i - start]));
            assert(!all_digits(body));
            return None;
        }
        let d = (c as u32 - '0' as u32) as u128;
        assert(acc * 10 <= bound * 10) by (nonlinear_arith)
            requires acc <= bound;
        let next = acc * 10 + d;
        proof {
            let t = body.take(i + 1 - start);
            assert(t.drop_last() =~= body.take(i - start));
            assert(t.last() == c);
            assert(all_digits(t));
        }
        if next > bound {
            proof {
                assert(all_digits(body.take(i + 1 - start)));
                if all_digits(body) {
                    lemma_dec_value_grows(body, i + 1 - start);
                }
            }
            return None;
        }
        acc = next;
        i = i + 1;
    }
    assert(body.take(n - start) =~= body);
    if neg {
        let v: i128 = -(acc as i128);
        Some(v as i64)
    } else {
        if acc > 9223372036854775807u128 {
            return None;
        }
        Some(acc as i64)
    }
}

/// Unicode `White_Space`, which `char::is_whitespace` tests.
pub open spec fn is_ws(c: char) -> bool {
    ||| ('\u{9}' <= c && c <= '\u{d}')
    ||| c == ' '
    ||| c == '\u{85}'
    ||| c == '\u{a0}'
    ||| c == '\u{1680}'
    ||| ('\u{2000}' <= c && c <= '\u{200a}')
    ||| c == '\u{2028}'
    ||| c == '\u{2029}'
    ||| c == '\u{202f}'
    ||| c == '\u{205f}'
    ||| c == '\u{3000}'
}

fn char_is_ws(c: char) -> (b: bool)
    ensures
        b == is_ws(c),
{
    ('\u{9}' <= c && c <= '\u{d}') || c == ' ' || c == '\u{85}' || c == '\u{a0}'
        || c == '\u{1680}' || ('\u{2000}' <= c && c <= '\u{200a}') || c == '\u{2028}'
        || c == '\u{2029}' || c == '\u{202f}' || c == '\u{205f}' || c == '\u{3000}'
}

/// `s` with leading white space removed.
pub open spec fn trim_start_spec(s: Seq<char>) -> Seq<char>
    decreases s.len(),
{
    if s.len() > 0 && is_ws(s[0]) {
        trim_start_spec(s.drop_first())
    } else {
        s
    }
}

/// `s` with trailing white space removed.
pub open spec fn trim_end_spec(s: Seq<char>) -> Seq<char>
    decreases s.len(),
{
    if s.len() > 0 && is_ws(s.last()) {
        trim_end_spec(s.drop_last())
    } else {
        s
    }
}

/// What `str::trim` returns.
pub open spec fn trim_spec(s: Seq<char>) -> Seq<char> {
    trim_end_spec(trim_start_spec(s))
}

/// `str::trim`, written out.
pub fn trim(s: &str) -> (r: String)
    ensures
        r@ == trim_spec(s@),
{
    let n = s.unicode_len();
    let mut a: usize = 0;
    assert(s@.subrange(0, n as int) =~= s@);
    while a < n && char_is_ws(s.get_char(a))
        invariant
            n == s@.len(),
            a <= n,
            trim_start_spec(s@) == trim_start_spec(s@.subrange(a as int, n as int)),
        decreases n - a,
    {
        assert(s@.subrange(a as int, n as int).drop_first() =~= s@.subrange(a + 1, n as int));
        a = a + 1;
    }
    let ghost left = s@.subrange(a as int, n as int);
    assert(trim_start_spec(left) == left) by {
        if left.len() > 0 {
            assert(left[0] == s@[a as int]);
        }
    }
    let mut b: usize = n;
    while b > a && char_is_ws(s.get_char(b - 1))
        invariant
            n == s@.len(),
            a <= b <= n,
            left == s@.subrange(a as int, n as int),
            trim_end_spec(left) == trim_end_spec(s@.subrange(a as int, b as int)),
        decreases b - a,
    {
        assert(s@.subrange(a as int, b as int).drop_last() =~= s@.subrange(a as int, b - 1));
        b = b - 1;
    }
    let ghost mid = s@.subrange(a as int, b as int);
    assert(trim_end_spec(mid) == mid) by {
        if mid.len() > 0 {
            assert(mid.last() == s@[b - 1]);
        }
    }
    let r = s.substring_char(a, b);
    r.to_string()
}

/// Lexicographic order by code point (SQLite's BINARY collation on UTF-8
/// text orders the same way).
pub open spec fn lex_lt(a: Seq<char>, b: Seq<char>) -> bool
    decreases a.len(),
{
    if a.len() == 0 {
        b.len() > 0
    } else if b.len() == 0 {
        false
    } else if a[0] != b[0] {
        a[0] < b[0]
    } else {
        lex_lt(a.drop_first(), b.drop_first())
    }
}

pub open spec fn lex_le(a: Seq<char>, b: Seq<char>) -> bool {
    a == b || lex_lt(a, b)
}

/// Strict lexicographic comparison of two strings.
pub fn str_lt(a: &str, b: &str) -> (r: bool)
    ensures
        r == lex_lt(a@, b@),
{
    let na = a.unicode_len();
    let nb = b.unicode_len();
    let mut i: usize = 0;
    assert(a@.skip(0) =~= a@);
    assert(b@.skip(0) =~= b@);
    while i < na && i < nb
        invariant
            na == a@.len(),
            nb == b@.len(),
            i <= na,
            i <= nb,
            lex_lt(a@, b@) == lex_lt(a@.skip(i as int), b@.skip(i as int)),
        decreases na - i,
    {
        let ca = a.get_char(i);
        let cb = b.get_char(i);
        assert(a@.skip(i as int)[0] == ca);
        assert(b@.skip(i as int)[0] == cb);
        if ca != cb {
            return ca < cb;
        }
        assert(a@.skip(i as int).drop_first() =~= a@.skip(i + 1));
        assert(b@.skip(i as int).drop_first() =~= b@.skip(i + 1));
        i = i + 1;
    }
    i == na && i < nb
}

/// Lexicographic `a <= b`.
pub fn str_le(a: &str, b: &str) -> (r: bool)
    ensures
        r == lex_le(a@, b@),
{
    if str_lt(a, b) {
        true
    } else {
        proof { lemma_lex_not_lt_both(a@, b@); }
        str_lt(b, a) == false && a.unicode_len() == b.unicode_len() && str_eq(a, b)
    }
}

/// Equality of two string slices.
pub fn str_eq(a: &str, b: &str) -> (r: bool)
    ensures
        r == (a@ == b@),
{
    let na = a.unicode_len();
    let nb = b.unicode_len();
    if na != nb {
        return false;
    }
    let mut i: usize = 0;
    while i < na
        invariant
            na == a@.len(),
            nb == b@.len(),
            na == nb,
            i <= na,
            forall|j: int| 0 <= j < i ==> a@[j] == b@[j],
        decreases na - i,
    {
        if a.get_char(i) != b.get_char(i) {
            return false;
        }
        i = i + 1;
    }
    assert(a@ =~= b@);
    true
}

/// When neither of two texts is lexicographically below the other, they
/// are equal.
pub proof fn lemma_lex_not_lt_both(a: Seq<char>, b: Seq<char>)
    ensures
        !lex_lt(a, b) && !lex_lt(b, a) ==> a == b,
    decreases a.len(),
{
    if a.len() > 0 && b.len() > 0 && a[0] == b[0] {
        lemma_lex_not_lt_both(a.drop_first(), b.drop_first());
        if !lex_lt(a, b) && !lex_lt(b, a) {
            assert(a.drop_first() == b.drop_first());
            assert(a =~= seq![a[0]] + a.drop_first());
            assert(b =~= seq![b[0]] + b.drop_first());
        }
    } else if a.len() > 0 && b.len() > 0 {
    }
}

/// Lexicographic `<` is irreflexive and asymmetric.
pub proof fn lemma_lex_lt_asym(a: Seq<char>, b: Seq<char>)
    ensures
        lex_lt(a, b) ==> a != b && !lex_lt(b, a),
    decreases a.len(),
{
    if a.len() > 0 && b.len() > 0 && a[0] == b[0] {
        lemma_lex_lt_asym(a.drop_first(), b.drop_first());
        if lex_lt(a, b) && a == b {
            assert(a.drop_first() == b.drop_first());
        }
    }
}

} // verus!
