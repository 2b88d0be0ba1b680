//! Character-level pieces of the text forms: trimming, splitting into
//! fields, reading and writing numbers.
use crate::common::ALPHA_ONE;
use vstd::prelude::*;

verus! {

/// The characters that Unicode calls white space.
pub open spec fn is_space(c: char) -> bool {
    let u = c as u32;
    u == 0x20 || (0x09 <= u <= 0x0D) || u == 0x85 || u == 0xA0 || u == 0x1680 || (0x2000 <= u
        <= 0x200A) || u == 0x2028 || u == 0x2029 || u == 0x202F || u == 0x205F || u == 0x3000
}

/// `s` without white space at either end.
pub open spec fn trim(s: Seq<char>) -> Seq<char>
    decreases s.len(),
{
    if s.len() > 0 && is_space(s[0]) {
        trim(s.drop_first())
    } else if s.len() > 0 && is_space(s.last()) {
        trim(s.drop_last())
    } else {
        s
    }
}

/// `c` is `p` or, where `p` is an ASCII lower-case letter, its upper case.
pub open spec fn same_ci(c: char, p: char) -> bool {
    c == p || ('a' <= p <= 'z' && c as u32 + 32 == p as u32)
}

/// `s` begins with `p`, ignoring ASCII case (`p` is in lower case).
pub open spec fn starts_with_ci(s: Seq<char>, p: Seq<char>) -> bool {
    p.len() <= s.len() && forall|i: int| 0 <= i < p.len() ==> #[trigger] same_ci(s[i], p[i])
}

pub open spec fn is_digit(c: char) -> bool {
    '0' <= c <= '9'
}

pub open spec fn digit_val(c: char) -> int {
    c as int - '0' as int
}

pub open spec fn all_digits(s: Seq<char>) -> bool {
    forall|i: int| 0 <= i < s.len() ==> #[trigger] is_digit(s[i])
}

/// The number that a string of decimal digits writes.
pub open spec fn digits_val(s: Seq<char>) -> int
    decreases s.len(),
{
    if s.len() == 0 {
        0
    } else {
        10 * digits_val(s.drop_last()) + digit_val(s.last())
    }
}

/// `s` without one leading `+`.
pub open spec fn unsigned_part(s: Seq<char>) -> Seq<char> {
    if s.len() > 0 && s[0] == '+' {
        s.drop_first()
    } else {
        s
    }
}

/// An unsigned integer written in decimal, with an optional leading `+`,
/// that does not exceed `max`.
pub open spec fn parse_uint(s: Seq<char>, max: int) -> Option<int> {
    let d = unsigned_part(s);
    if d.len() > 0 && all_digits(d) && digits_val(d) <= max {
        Some(digits_val(d))
    } else {
        None
    }
}

/// Index of the first `c` in `s`, or its length when it has none.
pub open spec fn index_of(s: Seq<char>, c: char) -> int
    decreases s.len(),
{
    if s.len() == 0 {
        0
    } else if s[0] == c {
        0
    } else {
        1 + index_of(s.drop_first(), c)
    }
}

/// The pieces of `s` between commas; one more than there are commas.
pub open spec fn split_commas(s: Seq<char>) -> Seq<Seq<char>>
    decreases s.len(),
{
    let i = index_of(s, ',');
    if 0 <= i < s.len() {
        seq![s.take(i)] + split_commas(s.skip(i + 1))
    } else {
        seq![s]
    }
}

/// `s` without the percent signs at its end.
pub open spec fn strip_percent(s: Seq<char>) -> Seq<char>
    decreases s.len(),
{
    if s.len() > 0 && s.last() == '%' {
        strip_percent(s.drop_last())
    } else {
        s
    }
}

/// Relies on `String::push`, which appends one character.
#[verifier::external_body]
pub(crate) fn push_char(s: &mut String, c: char)
    ensures
        final(s)@ == old(s)@.push(c),
{
    s.push(c)
}

/// The characters of `s`, one by one.
pub(crate) fn chars_of(s: &str) -> (v: Vec<char>)
    ensures
        v@ == s@,
{
    let n = s.unicode_len();
    let mut v: Vec<char> = Vec::new();
    let mut i: usize = 0;
    #[verifier::loop_isolation(false)]
    while i < n
        invariant
            i <= n,
            n == s@.len(),
            v@ == s@.take(i as int),
        decreases n - i,
    {
        v.push(s.get_char(i));
        i += 1;
        assert(v@ =~= s@.take(i as int));
    }
    assert(v@ =~= s@);
    v
}

pub(crate) fn is_space_char(c: char) -> (b: bool)
    ensures
        b == is_space(c),
{
    let u = c as u32;
    u == 0x20 || (0x09 <= u && u <= 0x0D) || u == 0x85 || u == 0xA0 || u == 0x1680 || (0x2000
        <= u && u <= 0x200A) || u == 0x2028 || u == 0x2029 || u == 0x202F || u == 0x205F || u
        == 0x3000
}

pub(crate) fn same_ci_char(c: char, p: char) -> (b: bool)
    ensures
        b == same_ci(c, p),
{
    c == p || ('a' <= p && p <= 'z' && c as u32 + 32 == p as u32)
}

/// Bounds of `v[lo..hi]` with the white space at both ends left out.
pub(crate) fn trim_range(v: &Vec<char>, lo: usize, hi: usize) -> (r: (usize, usize))
    requires
        lo <= hi <= v@.len(),
    ensures
        lo <= r.0 <= r.1 <= hi,
        v@.subrange(r.0 as int, r.1 as int) == trim(v@.subrange(lo as int, hi as int)),
{
    let mut a = lo;
    let mut b = hi;
    while a < b && is_space_char(v[a])
        invariant
            lo <= a <= b <= hi,
            b == hi,
            hi <= v@.len(),
            trim(v@.subrange(lo as int, hi as int)) == trim(v@.subrange(a as int, b as int)),
        decreases b - a,
    {
        assert(v@.subrange(a as int, b as int).drop_first() =~= v@.subrange(a + 1, b as int));
        a += 1;
    }
    while a < b && is_space_char(v[b - 1])
        invariant
            lo <= a <= b <= hi,
            hi <= v@.len(),
            a < b ==> !is_space(v@[a as int]),
            trim(v@.subrange(lo as int, hi as int)) == trim(v@.subrange(a as int, b as int)),
        decreases b - a,
    {
        assert(v@.subrange(a as int, b as int).drop_last() =~= v@.subrange(a as int, b - 1));
        b -= 1;
    }
    (a, b)
}

/// Bounds of `v[lo..hi]` with the percent signs at its end left out.
pub(crate) fn strip_percent_range(v: &Vec<char>, lo: usize, hi: usize) -> (e: usize)
    requires
        lo <= hi <= v@.len(),
    ensures
        lo <= e <= hi,
        v@.subrange(lo as int, e as int) == strip_percent(v@.subrange(lo as int, hi as int)),
{
    let mut e = hi;
    while e > lo && v[e - 1] == '%'
        invariant
            lo <= e <= hi,
            hi <= v@.len(),
            strip_percent(v@.subrange(lo as int, hi as int)) == strip_percent(
                v@.subrange(lo as int, e as int),
            ),
        decreases e,
    {
        assert(v@.subrange(lo as int, e as int).drop_last() =~= v@.subrange(lo as int, e - 1));
        e -= 1;
    }
    e
}

proof fn lemma_digits_val_prefix(s: Seq<char>, k: int)
    requires
        all_digits(s),
        0 <= k <= s.len(),
    ensures
        0 <= digits_val(s.take(k)) <= digits_val(s),
    decreases s.len(),
{
    if k == s.len() {
        assert(s.take(k) =~= s);
        lemma_digits_val_nonneg(s);
    } else {
        let t = s.drop_last();
        assert(t.take(k) =~= s.take(k));
        lemma_digits_val_prefix(t, k);
        assert(is_digit(s[s.len() - 1]));
    }
}

proof fn lemma_digits_val_nonneg(s: Seq<char>)
    requires
        all_digits(s),
    ensures
        digits_val(s) >= 0,
    decreases s.len(),
{
    if s.len() > 0 {
        lemma_digits_val_nonneg(s.drop_last());
        assert(is_digit(s[s.len() - 1]));
    }
}

/// Reads `v[lo..hi]` as an unsigned decimal integer of at most `max`.
pub(crate) fn parse_uint_range(v: &Vec<char>, lo: usize, hi: usize, max: u32) -> (r: Option<u32>)
    requires
        lo <= hi <= v@.len(),
    ensures
        match parse_uint(v@.subrange(lo as int, hi as int), max as int) {
            Some(x) => r == Some(x as u32) && 0 <= x <= max,
            None => r is None,
        },
{
    let ghost s = v@.subrange(lo as int, hi as int);
    let mut i = lo;
    if lo < hi && v[lo] == '+' {
        i = lo + 1;
    }
    let start = i;
    let ghost d = v@.subrange(start as int, hi as int);
    assert(d =~= unsigned_part(s));
    if start == hi {
        return None;
    }
    let mut acc: u32 = 0;
    while i < hi
        invariant
            start <= i <= hi,
            hi <= v@.len(),
            d == v@.subrange(start as int, hi as int),
            s == v@.subrange(lo as int, hi as int),
            d == unsigned_part(s),
            d.len() > 0,
            all_digits(v@.subrange(start as int, i as int)),
            acc as int == digits_val(v@.subrange(start as int, i as int)),
            acc <= max,
        decreases hi - i,
    {
        let c = v[i];
        if c < '0' || c > '9' {
            assert(d[i - start] == c);
            assert(!is_digit(d[i - start]));
            assert(!all_digits(d));
            return None;
        }
        let dv = (c as u32) - ('0' as u32);
        let ghost next = v@.subrange(start as int, i + 1);
        assert(next.drop_last() =~= v@.subrange(start as int, i as int));
        assert(all_digits(next));
        if dv > max || acc > (max - dv) / 10 {
            proof {
                assert(digits_val(next) == 10 * acc + dv);
                if all_digits(d) {
                    assert(d.take(i + 1 - start) =~= next);
                    lemma_digits_val_prefix(d, i + 1 - start);
                }
            }
            return None;
        }
        acc = acc * 10 + dv;
        i += 1;
    }
    assert(v@.subrange(start as int, i as int) =~= d);
    proof {
        lemma_digits_val_nonneg(d);
    }
    Some(acc)
}

proof fn lemma_index_of_none(s: Seq<char>, c: char)
    requires
        forall|j: int| 0 <= j < s.len() ==> s[j] != c,
    ensures
        index_of(s, c) == s.len(),
    decreases s.len(),
{
    if s.len() > 0 {
        lemma_index_of_none(s.drop_first(), c);
    }
}

proof fn lemma_index_of_at(s: Seq<char>, k: int, c: char)
    requires
        0 <= k < s.len(),
        s[k] == c,
        forall|j: int| 0 <= j < k ==> s[j] != c,
    ensures
        index_of(s, c) == k,
    decreases s.len(),
{
    if k > 0 {
        lemma_index_of_at(s.drop_first(), k - 1, c);
    }
}

/// Bounds of the comma-separated fields of `v[lo..hi]`.
pub(crate) fn split_range(v: &Vec<char>, lo: usize, hi: usize) -> (r: Vec<(usize, usize)>)
    requires
        lo <= hi <= v@.len(),
    ensures
        r@.len() == split_commas(v@.subrange(lo as int, hi as int)).len(),
        forall|j: int|
            0 <= j < r@.len() ==> lo <= (#[trigger] r@[j]).0 <= r@[j].1 <= hi && v@.subrange(
                r@[j].0 as int,
                r@[j].1 as int,
            ) == split_commas(v@.subrange(lo as int, hi as int))[j],
{
    let mut out: Vec<(usize, usize)> = Vec::new();
    let ghost mut parts: Seq<Seq<char>> = Seq::empty();
    let mut start = lo;
    let mut i = lo;
    while i < hi
        invariant
            lo <= start <= i <= hi,
            hi <= v@.len(),
            out@.len() == parts.len(),
            forall|j: int|
                0 <= j < out@.len() ==> lo <= (#[trigger] out@[j]).0 <= out@[j].1 <= hi
                    && v@.subrange(out@[j].0 as int, out@[j].1 as int) == parts[j],
            split_commas(v@.subrange(lo as int, hi as int)) == parts + split_commas(
                v@.subrange(start as int, hi as int),
            ),
            forall|j: int| start <= j < i ==> v@[j] != ',',
        decreases hi - i,
    {
        if v[i] == ',' {
            let ghost t = v@.subrange(start as int, hi as int);
            proof {
                lemma_index_of_at(t, i - start, ',');
                assert(t.take(i - start) =~= v@.subrange(start as int, i as int));
                assert(t.skip(i - start + 1) =~= v@.subrange(i + 1, hi as int));
                assert(split_commas(t) == seq![v@.subrange(start as int, i as int)]
                    + split_commas(v@.subrange(i + 1, hi as int)));
                assert(parts + split_commas(t) =~= parts.push(v@.subrange(start as int, i as int))
                    + split_commas(v@.subrange(i + 1, hi as int)));
                parts = parts.push(v@.subrange(start as int, i as int));
            }
            out.push((start, i));
            start = i + 1;
        }
        i += 1;
    }
    let ghost t = v@.subrange(start as int, hi as int);
    proof {
        lemma_index_of_none(t, ',');
        assert(split_commas(t) == seq![t]);
        assert(parts + split_commas(t) =~= parts.push(t));
        parts = parts.push(t);
    }
    out.push((start, hi));
    out
}

/// The fields of a call form `head ... )` (with `head` ending in `(` and in
/// lower case), after white space at both ends is dropped; `None` where the
/// text has another shape.
pub open spec fn call_fields(s: Seq<char>, head: Seq<char>) -> Option<Seq<Seq<char>>> {
    let t = trim(s);
    if t.len() > head.len() && starts_with_ci(t, head) && t.last() == ')' {
        Some(split_commas(t.subrange(head.len() as int, t.len() - 1)))
    } else {
        None
    }
}

/// A whole-number field: white space around it allowed.
pub open spec fn uint_field(f: Seq<char>, max: int) -> Option<int> {
    parse_uint(trim(f), max)
}

/// A whole-number field that may end in percent signs.
pub open spec fn percent_field(f: Seq<char>, max: int) -> Option<int> {
    parse_uint(strip_percent(trim(f)), max)
}

/// Bounds of the fields of the call form `head ... )` in `v`.
pub(crate) fn call_field_ranges(v: &Vec<char>, head: &Vec<char>) -> (r: Option<Vec<(usize, usize)>>)
    ensures
        match call_fields(v@, head@) {
            None => r is None,
            Some(f) => r matches Some(rs) && rs@.len() == f.len() && forall|j: int|
                0 <= j < rs@.len() ==> (#[trigger] rs@[j]).0 <= rs@[j].1 <= v@.len()
                    && v@.subrange(rs@[j].0 as int, rs@[j].1 as int) == f[j],
        },
{
    let (a, b) = trim_range(v, 0, v.len());
    assert(v@.subrange(0, v@.len() as int) =~= v@);
    let ghost t = v@.subrange(a as int, b as int);
    let n = head.len();
    if b - a <= n || v[b - 1] != ')' {
        return None;
    }
    let mut i: usize = 0;
    #[verifier::loop_isolation(false)]
    while i < n
        invariant
            i <= n,
            n == head@.len(),
            a + n < b <= v@.len(),
            t == v@.subrange(a as int, b as int),
            forall|j: int| 0 <= j < i ==> #[trigger] same_ci(t[j], head@[j]),
        decreases n - i,
    {
        if !same_ci_char(v[a + i], head[i]) {
            assert(t[i as int] == v@[a + i]);
            assert(!same_ci(t[i as int], head@[i as int]));
            assert(!starts_with_ci(t, head@));
            return None;
        }
        i += 1;
    }
    assert(starts_with_ci(t, head@));
    let rs = split_range(v, a + n, b - 1);
    assert(t.subrange(n as int, t.len() - 1) =~= v@.subrange(a + n, b - 1));
    Some(rs)
}

/// Reads the whole-number field `v[lo..hi]`.
pub(crate) fn read_uint_field(v: &Vec<char>, lo: usize, hi: usize, max: u32) -> (r: Option<u32>)
    requires
        lo <= hi <= v@.len(),
    ensures
        match uint_field(v@.subrange(lo as int, hi as int), max as int) {
            Some(x) => r == Some(x as u32) && 0 <= x <= max,
            None => r is None,
        },
{
    let (a, b) = trim_range(v, lo, hi);
    parse_uint_range(v, a, b, max)
}

/// Reads the whole-number field `v[lo..hi]`, which may end in percent signs.
pub(crate) fn read_percent_field(v: &Vec<char>, lo: usize, hi: usize, max: u32) -> (r: Option<
    u32,
>)
    requires
        lo <= hi <= v@.len(),
    ensures
        match percent_field(v@.subrange(lo as int, hi as int), max as int) {
            Some(x) => r == Some(x as u32) && 0 <= x <= max,
            None => r is None,
        },
{
    let (a, b) = trim_range(v, lo, hi);
    let e = strip_percent_range(v, a, b);
    parse_uint_range(v, a, e, max)
}

/// `10` to the power `n`.
pub open spec fn pow10(n: nat) -> int
    decreases n,
{
    if n == 0 {
        1
    } else {
        10 * pow10((n - 1) as nat)
    }
}

/// `floor(m * 0.f)` for the fraction digits `f`, computed from the last
/// digit to the first; equal to `m * digits_val(f) / pow10(f.len())`.
pub open spec fn scaled_fraction(f: Seq<char>, m: int) -> int
    decreases f.len(),
{
    if f.len() == 0 {
        0
    } else {
        (m * digit_val(f[0]) + scaled_fraction(f.drop_first(), m)) / 10
    }
}

/// A decimal number: an optional sign, digits, and optionally a point and
/// more digits, with at least one digit in all. Gives whether it is
/// negative, the digits before the point and those after it.
pub open spec fn decimal_parts(s: Seq<char>) -> Option<(bool, Seq<char>, Seq<char>)> {
    let neg = s.len() > 0 && s[0] == '-';
    let rest = if s.len() > 0 && (s[0] == '-' || s[0] == '+') {
        s.drop_first()
    } else {
        s
    };
    let k = index_of(rest, '.');
    let ip = rest.take(k);
    let fp = if k < rest.len() {
        rest.skip(k + 1)
    } else {
        Seq::empty()
    };
    if all_digits(ip) && all_digits(fp) && ip.len() + fp.len() > 0 {
        Some((neg, ip, fp))
    } else {
        None
    }
}

/// The decimal number lies in `[0, 1]`.
pub open spec fn unit_range(neg: bool, ip: Seq<char>, fp: Seq<char>) -> bool {
    if neg {
        digits_val(ip) == 0 && digits_val(fp) == 0
    } else {
        digits_val(ip) == 0 || (digits_val(ip) == 1 && digits_val(fp) == 0)
    }
}

/// A fraction in `[0, 1]`, as alpha units rounded to the nearest (halves up).
pub open spec fn alpha_units(ip: Seq<char>, fp: Seq<char>) -> int {
    if digits_val(ip) >= 1 {
        ALPHA_ONE as int
    } else {
        (2 * ALPHA_ONE * digits_val(fp) / pow10(fp.len()) + 1) / 2
    }
}

/// An alpha field: a decimal number with white space around it. Gives
/// whether it lies in `[0, 1]`, and its value in alpha units where it does.
pub open spec fn alpha_field(f: Seq<char>) -> Option<(bool, int)> {
    match decimal_parts(trim(f)) {
        None => None,
        Some(p) => Some(
            (unit_range(p.0, p.1, p.2), if unit_range(p.0, p.1, p.2) {
                alpha_units(p.1, p.2)
            } else {
                0
            }),
        ),
    }
}

/// An alpha read in range is at most one.
pub proof fn lemma_alpha_field_bound(f: Seq<char>)
    requires
        alpha_field(f) matches Some(p) && p.0,
    ensures
        0 <= alpha_field(f).unwrap().1 <= ALPHA_ONE,
{
    let p = decimal_parts(trim(f))->0;
    if digits_val(p.1) < 1 {
        lemma_scaled_fraction_bound(p.2, 2 * ALPHA_ONE);
        lemma_scaled_fraction_direct(p.2, 2 * ALPHA_ONE);
    }
}

proof fn lemma_pow10_pos(n: nat)
    ensures
        pow10(n) >= 1,
    decreases n,
{
    if n > 0 {
        lemma_pow10_pos((n - 1) as nat);
    }
}

/// A string of digits is its first digit times a power of ten plus the rest.
proof fn lemma_digits_val_front(f: Seq<char>)
    requires
        f.len() >= 1,
    ensures
        digits_val(f) == digit_val(f[0]) * pow10((f.len() - 1) as nat) + digits_val(f.drop_first()),
    decreases f.len(),
{
    if f.len() == 1 {
        assert(f.drop_last() =~= Seq::<char>::empty());
        assert(f.drop_first() =~= Seq::<char>::empty());
    } else {
        let t = f.drop_last();
        lemma_digits_val_front(t);
        assert(t.drop_first() =~= f.drop_first().drop_last());
        assert(f.drop_first().last() == f.last());
        let p = pow10((f.len() - 2) as nat);
        assert(10 * (digit_val(f[0]) * p) == digit_val(f[0]) * (10 * p)) by (nonlinear_arith);
    }
}

/// The digit-by-digit fraction equals its closed form.
pub proof fn lemma_scaled_fraction_direct(f: Seq<char>, m: int)
    requires
        all_digits(f),
        m >= 0,
    ensures
        scaled_fraction(f, m) == m * digits_val(f) / pow10(f.len()),
    decreases f.len(),
{
    if f.len() == 0 {
        assert(m * 0 == 0);
    } else {
        let rest = f.drop_first();
        lemma_scaled_fraction_direct(rest, m);
        lemma_digits_val_front(f);
        lemma_digits_val_nonneg(rest);
        lemma_pow10_pos(rest.len());
        assert(is_digit(f[0]));
        let p = pow10(rest.len());
        let a = m * digit_val(f[0]);
        let b = m * digits_val(rest);
        assert(b >= 0) by (nonlinear_arith)
            requires
                m >= 0,
                digits_val(rest) >= 0,
                b == m * digits_val(rest),
        ;
        assert(digit_val(f[0]) >= 0);
        assert(a >= 0) by (nonlinear_arith)
            requires
                m >= 0,
                digit_val(f[0]) >= 0,
                a == m * digit_val(f[0]),
        ;
        assert(m * digits_val(f) == a * p + b) by (nonlinear_arith)
            requires
                digits_val(f) == digit_val(f[0]) * p + digits_val(rest),
                a == m * digit_val(f[0]),
                b == m * digits_val(rest),
        ;
        vstd::arithmetic::div_mod::lemma_hoist_over_denominator(b, a, p as nat);
        assert(a + b / p == (b + a * p) / p);
        assert(pow10(f.len()) == 10 * p);
        vstd::arithmetic::div_mod::lemma_div_denominator(a * p + b, p, 10);
        assert(p * 10 == 10 * p);
    }
}

proof fn lemma_scaled_fraction_bound(f: Seq<char>, m: int)
    requires
        all_digits(f),
        m >= 0,
    ensures
        0 <= scaled_fraction(f, m) <= m,
    decreases f.len(),
{
    if f.len() > 0 {
        lemma_scaled_fraction_bound(f.drop_first(), m);
        assert(is_digit(f[0]));
        let d = digit_val(f[0]);
        assert(0 <= m * d <= 9 * m) by (nonlinear_arith)
            requires
                0 <= d <= 9,
                m >= 0,
        ;
    }
}

/// `min(value, cap)` of the digits `v[lo..hi]`; `None` where one is not a
/// digit.
fn capped_digits(v: &Vec<char>, lo: usize, hi: usize, cap: u32) -> (r: Option<u32>)
    requires
        lo <= hi <= v@.len(),
        cap <= 10,
    ensures
        all_digits(v@.subrange(lo as int, hi as int)) ==> r == Some(
            if digits_val(v@.subrange(lo as int, hi as int)) < cap {
                digits_val(v@.subrange(lo as int, hi as int)) as u32
            } else {
                cap
            },
        ),
        !all_digits(v@.subrange(lo as int, hi as int)) ==> r is None,
{
    let mut acc: u32 = 0;
    let mut i = lo;
    while i < hi
        invariant
            lo <= i <= hi <= v@.len(),
            cap <= 10,
            all_digits(v@.subrange(lo as int, i as int)),
            acc <= cap,
            acc == (if digits_val(v@.subrange(lo as int, i as int)) < cap {
                digits_val(v@.subrange(lo as int, i as int))
            } else {
                cap as int
            }),
        decreases hi - i,
    {
        let c = v[i];
        if c < '0' || c > '9' {
            assert(v@.subrange(lo as int, hi as int)[i - lo] == c);
            assert(!is_digit(v@.subrange(lo as int, hi as int)[i - lo]));
            return None;
        }
        let ghost prev = v@.subrange(lo as int, i as int);
        let ghost next = v@.subrange(lo as int, i + 1);
        assert(next.drop_last() =~= prev);
        assert(all_digits(next));
        proof {
            lemma_digits_val_nonneg(prev);
        }
        let d = (c as u32) - ('0' as u32);
        let t = acc * 10 + d;
        acc = if t < cap {
            t
        } else {
            cap
        };
        i += 1;
    }
    Some(acc)
}

/// `floor(m * 0.f)` for the digits `f = v[lo..hi]`.
fn scale_fraction(v: &Vec<char>, lo: usize, hi: usize, m: u32) -> (q: u32)
    requires
        lo <= hi <= v@.len(),
        all_digits(v@.subrange(lo as int, hi as int)),
        m <= 1_000_000,
    ensures
        q == scaled_fraction(v@.subrange(lo as int, hi as int), m as int),
        q <= m,
{
    let mut q: u32 = 0;
    let mut i = hi;
    while i > lo
        invariant
            lo <= i <= hi <= v@.len(),
            all_digits(v@.subrange(lo as int, hi as int)),
            m <= 1_000_000,
            q == scaled_fraction(v@.subrange(i as int, hi as int), m as int),
            q <= m,
        decreases i,
    {
        assert(v@.subrange(i - 1, hi as int).drop_first() =~= v@.subrange(i as int, hi as int));
        assert(v@.subrange(lo as int, hi as int)[i - 1 - lo] == v@[i - 1]);
        assert(is_digit(v@.subrange(lo as int, hi as int)[i - 1 - lo]));
        let d = (v[i - 1] as u32) - ('0' as u32);
        assert(m * d <= 9 * m) by (nonlinear_arith)
            requires
                d <= 9,
        ;
        q = (m * d + q) / 10;
        i -= 1;
    }
    q
}

/// Reads the alpha field `v[lo..hi]`: whether it lies in `[0, 1]`, and its
/// value in alpha units where it does.
pub(crate) fn read_alpha_field(v: &Vec<char>, lo: usize, hi: usize) -> (r: Option<(bool, u32)>)
    requires
        lo <= hi <= v@.len(),
    ensures
        match alpha_field(v@.subrange(lo as int, hi as int)) {
            None => r is None,
            Some(p) => r == Some((p.0, p.1 as u32)),
        },
{
    let (a, b) = trim_range(v, lo, hi);
    let ghost s = v@.subrange(a as int, b as int);
    let neg = a < b && v[a] == '-';
    let start = if a < b && (v[a] == '-' || v[a] == '+') {
        a + 1
    } else {
        a
    };
    let ghost rest = v@.subrange(start as int, b as int);
    assert(rest =~= (if s.len() > 0 && (s[0] == '-' || s[0] == '+') {
        s.drop_first()
    } else {
        s
    }));
    let mut k = start;
    #[verifier::loop_isolation(false)]
    while k < b && v[k] != '.'
        invariant
            start <= k <= b <= v@.len(),
            rest == v@.subrange(start as int, b as int),
            forall|j: int| 0 <= j < k - start ==> rest[j] != '.',
        decreases b - k,
    {
        k += 1;
    }
    proof {
        if k < b {
            lemma_index_of_at(rest, k - start, '.');
        } else {
            lemma_index_of_none(rest, '.');
        }
    }
    let fs = if k < b {
        k + 1
    } else {
        b
    };
    assert(rest.take(k - start) =~= v@.subrange(start as int, k as int));
    assert((if k < b {
        rest.skip(k - start + 1)
    } else {
        Seq::empty()
    }) =~= v@.subrange(fs as int, b as int));
    let ghost ip = v@.subrange(start as int, k as int);
    let ghost fp = v@.subrange(fs as int, b as int);
    if k - start + (b - fs) == 0 {
        return None;
    }
    let iv = match capped_digits(v, start, k, 2) {
        Some(x) => x,
        None => return None,
    };
    let fv = match capped_digits(v, fs, b, 1) {
        Some(x) => x,
        None => return None,
    };
    assert(decimal_parts(s) == Some((neg, ip, fp)));
    proof {
        lemma_digits_val_nonneg(ip);
        lemma_digits_val_nonneg(fp);
    }
    let in_range = if neg {
        iv == 0 && fv == 0
    } else {
        iv == 0 || (iv == 1 && fv == 0)
    };
    if !in_range {
        return Some((false, 0));
    }
    if iv >= 1 {
        return Some((true, ALPHA_ONE));
    }
    let q = scale_fraction(v, fs, b, 2 * ALPHA_ONE);
    proof {
        lemma_scaled_fraction_direct(fp, 2 * ALPHA_ONE);
    }
    Some((true, (q + 1) / 2))
}

/// The digit for `d` in base 16 (upper case); `0`-`9` for `d < 10`.
pub open spec fn digit_char(d: int) -> char {
    if d < 10 {
        ((48 + d) as u8) as char
    } else {
        ((55 + d) as u8) as char
    }
}

/// `n` written in decimal, without leading zeros.
pub open spec fn dec(n: int) -> Seq<char>
    decreases n,
{
    if n < 10 {
        seq![digit_char(n)]
    } else {
        dec(n / 10).push(digit_char(n % 10))
    }
}

/// A byte as two upper-case hexadecimal digits.
pub open spec fn hex2(b: int) -> Seq<char> {
    seq![digit_char(b / 16), digit_char(b % 16)]
}

/// An alpha value, given in alpha units, as a number with exactly two
/// decimals (rounded to the nearest hundredth).
pub open spec fn alpha_text(a: int) -> Seq<char> {
    let h = crate::common::round_ratio(100 * a, ALPHA_ONE as int);
    dec(h / 100) + seq!['.', digit_char((h % 100) / 10), digit_char(h % 10)]
}

pub(crate) fn digit_char_exec(d: u32) -> (c: char)
    requires
        d < 16,
    ensures
        c == digit_char(d as int),
{
    if d < 10 {
        (48 + d as u8) as char
    } else {
        (55 + d as u8) as char
    }
}

/// Appends `n` in decimal.
pub(crate) fn push_dec(out: &mut String, n: u32)
    ensures
        final(out)@ == old(out)@ + dec(n as int),
    decreases n,
{
    if n >= 10 {
        push_dec(out, n / 10);
    }
    push_char(out, digit_char_exec(n % 10));
    assert(final(out)@ =~= old(out)@ + dec(n as int));
}

/// Appends a byte as two upper-case hexadecimal digits.
pub(crate) fn push_hex2(out: &mut String, b: u8)
    ensures
        final(out)@ == old(out)@ + hex2(b as int),
{
    push_char(out, digit_char_exec((b / 16) as u32));
    push_char(out, digit_char_exec((b % 16) as u32));
    assert(final(out)@ =~= old(out)@ + hex2(b as int));
}

/// Appends an alpha value with two decimals.
pub(crate) fn push_alpha(out: &mut String, a: u32)
    requires
        a <= ALPHA_ONE,
    ensures
        final(out)@ == old(out)@ + alpha_text(a as int),
{
    proof {
        crate::common::lemma_round_ratio_bound(100 * a as int, ALPHA_ONE as int, 100);
    }
    let h = ((200 * a as u64 + ALPHA_ONE as u64) / (2 * ALPHA_ONE as u64)) as u32;
    push_dec(out, h / 100);
    push_char(out, '.');
    push_char(out, digit_char_exec((h % 100) / 10));
    push_char(out, digit_char_exec(h % 10));
    assert(final(out)@ =~= old(out)@ + alpha_text(a as int));
}

/// The value of a hexadecimal digit, in either case.
pub open spec fn hex_val(c: char) -> Option<int> {
    if '0' <= c <= '9' {
        Some(c as int - '0' as int)
    } else if 'a' <= c <= 'f' {
        Some(c as int - 'a' as int + 10)
    } else if 'A' <= c <= 'F' {
        Some(c as int - 'A' as int + 10)
    } else {
        None
    }
}

/// The byte that a chunk of hexadecimal digits gives: its first two
/// digits, or its one digit twice.
pub open spec fn chunk_byte(ch: Seq<char>) -> Option<int> {
    let second = if ch.len() >= 2 {
        ch[1]
    } else {
        ch[0]
    };
    match (hex_val(ch[0]), hex_val(second)) {
        (Some(x), Some(y)) => Some(16 * x + y),
        _ => None,
    }
}

/// The bytes of the chunks of `n` characters of `s` (the last one may be
/// shorter), leaving out each chunk that does not begin with hexadecimal
/// digits.
pub open spec fn hex_chunks(s: Seq<char>, n: int) -> Seq<u8>
    decreases s.len(),
{
    if s.len() == 0 || n <= 0 {
        Seq::empty()
    } else {
        let k = if n < s.len() {
            n
        } else {
            s.len() as int
        };
        let rest = hex_chunks(s.skip(k), n);
        match chunk_byte(s.take(k)) {
            Some(b) => seq![b as u8] + rest,
            None => rest,
        }
    }
}

pub(crate) fn hex_value(c: char) -> (r: Option<u8>)
    ensures
        match hex_val(c) {
            Some(x) => r == Some(x as u8) && 0 <= x < 16,
            None => r is None,
        },
{
    if '0' <= c && c <= '9' {
        Some((c as u32 - '0' as u32) as u8)
    } else if 'a' <= c && c <= 'f' {
        Some((c as u32 - 'a' as u32 + 10) as u8)
    } else if 'A' <= c && c <= 'F' {
        Some((c as u32 - 'A' as u32 + 10) as u8)
    } else {
        None
    }
}

/// Decimal digits are digits, and read back as the number written.
pub proof fn lemma_dec(n: int)
    requires
        n >= 0,
    ensures
        dec(n).len() >= 1,
        all_digits(dec(n)),
        digits_val(dec(n)) == n,
        !is_space(dec(n)[0]),
        !is_space(dec(n).last()),
        dec(n)[0] != '+',
        dec(n).last() != '%',
        forall|i: int| 0 <= i < dec(n).len() ==> #[trigger] dec(n)[i] != ',' && dec(n)[i] != '.',
    decreases n,
{
    if n < 10 {
        assert(dec(n).drop_last() =~= Seq::<char>::empty());
        assert(digit_val(digit_char(n)) == n);
        assert(digits_val(dec(n)) == 10 * digits_val(Seq::<char>::empty()) + digit_val(
            digit_char(n),
        ));
    } else {
        lemma_dec(n / 10);
        let d = dec(n / 10);
        assert(dec(n) == d.push(digit_char(n % 10)));
        assert(dec(n).drop_last() =~= d);
        assert(digit_val(digit_char(n % 10)) == n % 10);
        assert(dec(n).last() == digit_char(n % 10));
        assert(digits_val(dec(n)) == 10 * digits_val(d) + digit_val(digit_char(n % 10)));
        assert(n == 10 * (n / 10) + n % 10);
        assert forall|i: int| 0 <= i < dec(n).len() implies #[trigger] is_digit(dec(n)[i]) by {
            if i < d.len() {
                assert(is_digit(d[i]));
            }
        }
    }
}

/// An alpha in whole hundredths, written with two decimals, reads back as
/// the same alpha.
pub proof fn lemma_alpha_text(k: int)
    requires
        0 <= k <= 100,
    ensures
        alpha_field(alpha_text(255 * k)) == Some((true, 255 * k)),
        forall|i: int| 0 <= i < alpha_text(255 * k).len() ==> #[trigger] alpha_text(255 * k)[i] != ',',
{
    let a = 255 * k;
    let h = crate::common::round_ratio(100 * a, ALPHA_ONE as int);
    assert(h == k) by (nonlinear_arith)
        requires
            h == (2 * (100 * a) + 25500int) / (2 * 25500int),
            a == 255 * k,
    ;
    let d1 = (h % 100) / 10;
    let d2 = h % 10;
    let ip = dec(h / 100);
    let fp = seq![digit_char(d1), digit_char(d2)];
    let t = alpha_text(a);
    assert(t == ip + seq!['.'] + fp);
    lemma_dec(h / 100);
    assert(t[0] == ip[0]);
    assert(t.last() == digit_char(d2));
    lemma_trim_id(t);
    lemma_index_of_at(t, ip.len() as int, '.');
    assert(t.take(ip.len() as int) =~= ip);
    assert(t.skip(ip.len() as int + 1) =~= fp);
    assert(is_digit(fp[0]) && is_digit(fp[1]));
    assert(all_digits(fp));
    assert(decimal_parts(t) == Some((false, ip, fp)));
    assert(fp.drop_first() =~= seq![digit_char(d2)]);
    assert(seq![digit_char(d2)].drop_first() =~= Seq::<char>::empty());
    assert(fp.drop_last() =~= seq![digit_char(d1)]);
    assert(seq![digit_char(d1)].drop_last() =~= Seq::<char>::empty());
    assert(digit_val(digit_char(d1)) == d1);
    assert(digit_val(digit_char(d2)) == d2);
    assert(seq![digit_char(d1)].last() == digit_char(d1));
    assert(digits_val(Seq::<char>::empty()) == 0);
    assert(digits_val(seq![digit_char(d1)]) == 10 * digits_val(Seq::<char>::empty()) + digit_val(
        digit_char(d1),
    ));
    assert(digits_val(seq![digit_char(d1)]) == d1);
    assert(fp.last() == digit_char(d2));
    assert(digits_val(fp) == 10 * d1 + d2);
    assert(scaled_fraction(Seq::<char>::empty(), 2 * ALPHA_ONE) == 0);
    assert(seq![digit_char(d2)][0] == digit_char(d2));
    assert((51000 * d2) / 10 == 5100 * d2) by (nonlinear_arith);
    assert(scaled_fraction(seq![digit_char(d2)], 2 * ALPHA_ONE) == (51000 * d2 + 0) / 10);
    assert(scaled_fraction(seq![digit_char(d2)], 2 * ALPHA_ONE) == 5100 * d2);
    assert(fp[0] == digit_char(d1));
    assert((51000 * d1 + 5100 * d2) / 10 == 5100 * d1 + 510 * d2) by (nonlinear_arith);
    assert(scaled_fraction(fp, 2 * ALPHA_ONE) == (51000 * d1 + 5100 * d2) / 10);
    assert(scaled_fraction(fp, 2 * ALPHA_ONE) == 5100 * d1 + 510 * d2);
    lemma_scaled_fraction_direct(fp, 2 * ALPHA_ONE);
    if k == 100 {
        assert(digits_val(ip) == 1);
    } else {
        assert(digits_val(ip) == 0);
        assert(k == 10 * d1 + d2);
    }
    assert forall|i: int| 0 <= i < t.len() implies #[trigger] t[i] != ',' by {
        if i < ip.len() {
            assert(t[i] == ip[i]);
        }
    }
}

/// The digits of a byte in hexadecimal read back as the byte.
pub proof fn lemma_hex2_chunks(x: int, rest: Seq<char>)
    requires
        0 <= x <= 255,
    ensures
        hex_chunks(hex2(x) + rest, 2) == seq![x as u8] + hex_chunks(rest, 2),
        !is_space(hex2(x)[0]),
        !is_space(hex2(x)[1]),
{
    let s = hex2(x) + rest;
    assert(s.take(2) =~= hex2(x));
    assert(s.skip(2) =~= rest);
    assert(hex_val(digit_char(x / 16)) == Some(x / 16));
    assert(hex_val(digit_char(x % 16)) == Some(x % 16));
}

/// Trimming leaves text alone that neither begins nor ends with white space.
pub proof fn lemma_trim_id(s: Seq<char>)
    requires
        s.len() > 0 ==> !is_space(s[0]) && !is_space(s.last()),
    ensures
        trim(s) == s,
{
}

/// The first piece of `a , b` is `a`, where `a` holds no comma.
pub proof fn lemma_split_cons(a: Seq<char>, b: Seq<char>)
    requires
        forall|i: int| 0 <= i < a.len() ==> a[i] != ',',
    ensures
        split_commas(a + seq![','] + b) == seq![a] + split_commas(b),
{
    let s = a + seq![','] + b;
    lemma_index_of_at(s, a.len() as int, ',');
    assert(s.take(a.len() as int) =~= a);
    assert(s.skip(a.len() as int + 1) =~= b);
}

/// Text without commas is a single piece.
pub proof fn lemma_split_single(a: Seq<char>)
    requires
        forall|i: int| 0 <= i < a.len() ==> a[i] != ',',
    ensures
        split_commas(a) == seq![a],
{
    lemma_index_of_none(a, ',');
}

/// A number written in decimal reads back as a field.
pub proof fn lemma_uint_field_dec(n: int, max: int)
    requires
        0 <= n <= max,
    ensures
        uint_field(dec(n), max) == Some(n),
        percent_field(dec(n), max) == Some(n),
        percent_field(dec(n) + seq!['%'], max) == Some(n),
{
    lemma_dec(n);
    lemma_trim_id(dec(n));
    let p = dec(n) + seq!['%'];
    assert(p.last() == '%');
    assert(p[0] == dec(n)[0]);
    lemma_trim_id(p);
    assert(p.drop_last() =~= dec(n));
    assert(strip_percent(p) == strip_percent(dec(n)));
}

/// The fields of `head ... )` are the pieces of what stands between.
pub proof fn lemma_call_fields(head: Seq<char>, body: Seq<char>)
    requires
        head.len() > 0,
        !is_space(head[0]),
        forall|i: int| 0 <= i < head.len() ==> 'a' <= #[trigger] head[i] <= 'z' || head[i] == '(',
    ensures
        call_fields(head + body + seq![')'], head) == Some(split_commas(body)),
{
    let t = head + body + seq![')'];
    assert(t[0] == head[0]);
    lemma_trim_id(t);
    assert forall|i: int| 0 <= i < head.len() implies #[trigger] same_ci(t[i], head[i]) by {
        assert(t[i] == head[i]);
    }
    assert(t.subrange(head.len() as int, t.len() - 1) =~= body);
}

/// Three decimal numbers joined by commas split back into them.
pub proof fn lemma_split_three(a: Seq<char>, b: Seq<char>, c: Seq<char>)
    requires
        forall|i: int| 0 <= i < a.len() ==> a[i] != ',',
        forall|i: int| 0 <= i < b.len() ==> b[i] != ',',
        forall|i: int| 0 <= i < c.len() ==> c[i] != ',',
    ensures
        split_commas(a + seq![','] + b + seq![','] + c) == seq![a, b, c],
{
    lemma_split_single(c);
    lemma_split_cons(b, c);
    assert(a + seq![','] + b + seq![','] + c =~= a + seq![','] + (b + seq![','] + c));
    lemma_split_cons(a, b + seq![','] + c);
    assert(seq![a] + (seq![b] + seq![c]) =~= seq![a, b, c]);
}

/// Four pieces joined by commas split back into them.
pub proof fn lemma_split_four(a: Seq<char>, b: Seq<char>, c: Seq<char>, d: Seq<char>)
    requires
        forall|i: int| 0 <= i < a.len() ==> a[i] != ',',
        forall|i: int| 0 <= i < b.len() ==> b[i] != ',',
        forall|i: int| 0 <= i < c.len() ==> c[i] != ',',
        forall|i: int| 0 <= i < d.len() ==> d[i] != ',',
    ensures
        split_commas(a + seq![','] + b + seq![','] + c + seq![','] + d) == seq![a, b, c, d],
{
    lemma_split_three(b, c, d);
    assert(a + seq![','] + b + seq![','] + c + seq![','] + d =~= a + seq![','] + (b + seq![',']
        + c + seq![','] + d));
    lemma_split_cons(a, b + seq![','] + c + seq![','] + d);
    assert(seq![a] + seq![b, c, d] =~= seq![a, b, c, d]);
}

} // verus!
