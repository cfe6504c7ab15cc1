//! Text helpers: white space, trimming, integer parsing and decimal output.

use vstd::prelude::*;
use vstd::string::StrSliceExecFns;

verus! {

/// Unicode white space, the set that `char::is_whitespace` tests.
pub open spec fn is_ws(c: char) -> bool {
    ('\u{9}' <= c && c <= '\u{d}') || c == ' ' || c == '\u{85}' || c == '\u{a0}'
        || c == '\u{1680}' || ('\u{2000}' <= c && c <= '\u{200a}') || c == '\u{2028}'
        || c == '\u{2029}' || c == '\u{202f}' || c == '\u{205f}' || c == '\u{3000}'
}

pub fn is_whitespace(c: char) -> (r: bool)
    ensures
        r == is_ws(c),
{
    ('\u{9}' <= c && c <= '\u{d}') || c == ' ' || c == '\u{85}' || c == '\u{a0}'
        || c == '\u{1680}' || ('\u{2000}' <= c && c <= '\u{200a}') || c == '\u{2028}'
        || c == '\u{2029}' || c == '\u{202f}' || c == '\u{205f}' || c == '\u{3000}'
}

/// `s` without its leading white space.
pub open spec fn trim_start(s: Seq<char>) -> Seq<char>
    decreases s.len(),
{
    if s.len() > 0 && is_ws(s[0]) {
        trim_start(s.drop_first())
    } else {
        s
    }
}

/// `s` without its trailing white space.
pub open spec fn trim_end(s: Seq<char>) -> Seq<char>
    decreases s.len(),
{
    if s.len() > 0 && is_ws(s.last()) {
        trim_end(s.drop_last())
    } else {
        s
    }
}

/// `s` without white space at either end.
pub open spec fn trim(s: Seq<char>) -> Seq<char> {
    trim_end(trim_start(s))
}

proof fn lemma_trim_start_from(s: Seq<char>, i: int)
    requires
        0 <= i <= s.len(),
        forall|k: int| 0 <= k < i ==> is_ws(#[trigger] s[k]),
    ensures
        trim_start(s) == trim_start(s.subrange(i, s.len() as int)),
    decreases i,
{
    if i > 0 {
        assert(s.drop_first() == s.subrange(1, s.len() as int));
        let t = s.drop_first();
        lemma_trim_start_from(t, i - 1);
        assert(t.subrange(i - 1, t.len() as int) == s.subrange(i, s.len() as int));
    } else {
        assert(s.subrange(0, s.len() as int) == s);
    }
}

proof fn lemma_trim_end_to(s: Seq<char>, j: int)
    requires
        0 <= j <= s.len(),
        forall|k: int| j <= k < s.len() ==> is_ws(#[trigger] s[k]),
    ensures
        trim_end(s) == trim_end(s.subrange(0, j)),
    decreases s.len() - j,
{
    if j < s.len() {
        let t = s.drop_last();
        lemma_trim_end_to(t, j);
        assert(t.subrange(0, j) == s.subrange(0, j));
    } else {
        assert(s.subrange(0, j) == s);
    }
}

/// The characters of `s[from..to]` with white space at both ends removed.
pub fn trim_range(s: &Vec<char>, from: usize, to: usize) -> (r: Vec<char>)
    requires
        from <= to <= s@.len(),
    ensures
        r@ == trim(s@.subrange(from as int, to as int)),
{
    let ghost t = s@.subrange(from as int, to as int);
    let mut i: usize = from;
    while i < to && is_whitespace(s[i])
        invariant
            from <= i <= to <= s@.len(),
            t == s@.subrange(from as int, to as int),
            forall|k: int| from <= k < i ==> is_ws(#[trigger] s@[k]),
        decreases to - i,
    {
        i = i + 1;
    }
    proof {
        assert forall|k: int| 0 <= k < i - from implies is_ws(#[trigger] t[k]) by {
            assert(t[k] == s@[k + from]);
        }
        lemma_trim_start_from(t, i - from);
        assert(t.subrange(i - from, t.len() as int) == s@.subrange(i as int, to as int));
    }
    let mut j: usize = to;
    while j > i && is_whitespace(s[j - 1])
        invariant
            from <= i <= j <= to <= s@.len(),
            forall|k: int| j <= k < to ==> is_ws(#[trigger] s@[k]),
        decreases j,
    {
        j = j - 1;
    }
    let ghost u = s@.subrange(i as int, to as int);
    proof {
        assert forall|k: int| j - i <= k < u.len() implies is_ws(#[trigger] u[k]) by {
            assert(u[k] == s@[k + i]);
        }
        lemma_trim_end_to(u, j - i);
        assert(u.subrange(0, j - i) == s@.subrange(i as int, j as int));
        if j > i {
            assert(!is_ws(s@[i as int]));
        }
        if j == i {
            assert(trim_start(u) == u || u.len() == 0);
        }
    }
    let mut r: Vec<char> = Vec::new();
    let mut k: usize = i;
    while k < j
        invariant
            i <= k <= j <= s@.len(),
            r@ == s@.subrange(i as int, k as int),
        decreases j - k,
    {
        r.push(s[k]);
        k = k + 1;
        assert(r@ == s@.subrange(i as int, k as int));
    }
    r
}

/// The characters of a string slice, in order.
pub fn chars_of(s: &str) -> (r: Vec<char>)
    ensures
        r@ == s@,
{
    let n = s.unicode_len();
    let mut r: Vec<char> = Vec::new();
    let mut i: usize = 0;
    while i < n
        invariant
            n == s@.len(),
            i <= n,
            r@ == s@.subrange(0, i as int),
        decreases n - i,
    {
        r.push(s.get_char(i));
        i = i + 1;
        assert(r@ == s@.subrange(0, i as int));
    }
    assert(r@ == s@);
    r
}

/// Relies on `FromIterator<char>` for `String`: the string holds the given
/// characters in order.
#[verifier::external_body]
pub(crate) fn string_of(v: &Vec<char>) -> (r: String)
    ensures
        r@ == v@,
{
    v.iter().collect()
}

/// The value of digit `c` in base `radix`, as `char::to_digit` gives it.
pub open spec fn digit_val(c: char, radix: int) -> Option<int> {
    let d: int = if '0' <= c && c <= '9' {
        c as int - '0' as int
    } else if 'a' <= c && c <= 'z' {
        c as int - 'a' as int + 10
    } else if 'A' <= c && c <= 'Z' {
        c as int - 'A' as int + 10
    } else {
        radix
    };
    if d < radix { Some(d) } else { None }
}

pub open spec fn all_digits(s: Seq<char>, radix: int) -> bool {
    forall|k: int| 0 <= k < s.len() ==> (#[trigger] digit_val(s[k], radix)) is Some
}

/// The value of the digit string `s` in base `radix`.
pub open spec fn digits_value(s: Seq<char>, radix: int) -> int
    decreases s.len(),
{
    if s.len() == 0 {
        0
    } else {
        digits_value(s.drop_last(), radix) * radix + digit_val(s.last(), radix).unwrap()
    }
}

/// What std's integer parsing (`str::parse`, `from_str_radix`) gives for
/// `s` in base `radix` with the type's range `lo..=hi`: an optional `+`
/// (or `-` where the type is signed), then at least one digit.
pub open spec fn parse_int_spec(s: Seq<char>, radix: int, signed: bool, lo: int, hi: int) -> Option<int> {
    if s.len() == 0 {
        None
    } else {
        let neg = signed && s[0] == '-';
        let d = if s[0] == '+' || neg { s.drop_first() } else { s };
        let v = if neg { -digits_value(d, radix) } else { digits_value(d, radix) };
        if d.len() == 0 || !all_digits(d, radix) || v < lo || v > hi {
            None
        } else {
            Some(v)
        }
    }
}

proof fn lemma_digits_value_nonneg(s: Seq<char>, radix: int)
    requires
        all_digits(s, radix),
        radix >= 2,
    ensures
        digits_value(s, radix) >= 0,
    decreases s.len(),
{
    if s.len() > 0 {
        let p = s.drop_last();
        assert(digit_val(s[s.len() - 1], radix) is Some);
        assert forall|k: int| 0 <= k < p.len() implies (#[trigger] digit_val(p[k], radix)) is Some by {
            assert(p[k] == s[k]);
        }
        lemma_digits_value_nonneg(p, radix);
        assert(digits_value(p, radix) * radix >= 0) by (nonlinear_arith)
            requires digits_value(p, radix) >= 0, radix >= 2;
    }
}

proof fn lemma_digits_value_grows(s: Seq<char>, i: int, radix: int)
    requires
        all_digits(s, radix),
        radix >= 2,
        0 <= i <= s.len(),
    ensures
        digits_value(s, radix) >= digits_value(s.subrange(0, i), radix),
    decreases s.len() - i,
{
    if i < s.len() {
        let p = s.drop_last();
        assert forall|k: int| 0 <= k < p.len() implies (#[trigger] digit_val(p[k], radix)) is Some by {
            assert(p[k] == s[k]);
        }
        assert(digit_val(s[s.len() - 1], radix) is Some);
        lemma_digits_value_grows(p, i, radix);
        assert(p.subrange(0, i) == s.subrange(0, i));
        lemma_digits_value_nonneg(p, radix);
        let a = digits_value(p, radix);
        assert(a * radix >= a) by (nonlinear_arith)
            requires a >= 0, radix >= 2;
    } else {
        assert(s.subrange(0, i) == s);
    }
}

/// The value of digit `c` in base `radix`, if it is one.
fn digit(c: char, radix: u32) -> (r: Option<u32>)
    requires
        2 <= radix <= 36,
    ensures
        r matches Some(d) ==> digit_val(c, radix as int) == Some(d as int),
        r is None ==> digit_val(c, radix as int) is None,
{
    let d: u32 = if '0' <= c && c <= '9' {
        (c as u32) - ('0' as u32)
    } else if 'a' <= c && c <= 'z' {
        (c as u32) - ('a' as u32) + 10
    } else if 'A' <= c && c <= 'Z' {
        (c as u32) - ('A' as u32) + 10
    } else {
        radix
    };
    if d < radix { Some(d) } else { None }
}

/// Parses `s[from..]` as an integer in base `radix` within `lo..=hi`,
/// following std's rules for integer parsing.
pub fn parse_int(s: &Vec<char>, from: usize, radix: u32, signed: bool, lo: i64, hi: i64) -> (r: Option<i64>)
    requires
        from <= s@.len(),
        2 <= radix <= 36,
        lo <= 0 <= hi,
    ensures
        r matches Some(v) ==> parse_int_spec(s@.subrange(from as int, s@.len() as int), radix as int, signed, lo as int, hi as int) == Some(v as int),
        r is None ==> parse_int_spec(s@.subrange(from as int, s@.len() as int), radix as int, signed, lo as int, hi as int) is None,
{
    let ghost t = s@.subrange(from as int, s@.len() as int);
    let n = s.len();
    if from >= n {
        return None;
    }
    let neg = signed && s[from] == '-';
    assert(t[0] == s@[from as int]);
    let start: usize = if s[from] == '+' || neg { from + 1 } else { from };
    let ghost d = s@.subrange(start as int, n as int);
    proof {
        if s[from as int] == '+' || neg {
            assert(d == t.drop_first());
        } else {
            assert(d == t);
        }
    }
    if start >= n {
        return None;
    }
    let cap: u128 = if neg { (0i128 - lo as i128) as u128 } else { hi as u128 };
    assert(cap as int == if neg { -(lo as int) } else { hi as int });
    let mut acc: u128 = 0;
    let mut i: usize = start;
    assert(s@.subrange(start as int, i as int) =~= Seq::<char>::empty());
    while i < n
        invariant
            from <= start <= i <= n == s@.len(),
            d == s@.subrange(start as int, n as int),
            t == s@.subrange(from as int, n as int),
            t.len() > 0,
            neg == (signed && t[0] == '-'),
            d == (if t[0] == '+' || neg { t.drop_first() } else { t }),
            cap as int == if neg { -(lo as int) } else { hi as int },
            2 <= radix <= 36,
            all_digits(s@.subrange(start as int, i as int), radix as int),
            acc as int == digits_value(s@.subrange(start as int, i as int), radix as int),
            acc <= cap,
            cap <= 0x8000_0000_0000_0000,
        decreases n - i,
    {
        let ghost p = s@.subrange(start as int, i as int);
        let ghost q = s@.subrange(start as int, i + 1);
        assert(q.drop_last() == p);
        match digit(s[i], radix) {
            None => {
                proof {
                    assert(d[i - start] == s@[i as int]);
                    assert(digit_val(d[i - start], radix as int) is None);
                    assert(!all_digits(d, radix as int));
                }
                return None;
            },
            Some(dv) => {
                assert(acc * (radix as u128) <= 36 * 0x8000_0000_0000_0000u128) by (nonlinear_arith)
                    requires acc <= 0x8000_0000_0000_0000u128, radix <= 36;
                let next: u128 = acc * (radix as u128) + (dv as u128);
                assert(next as int == digits_value(q, radix as int));
                assert forall|k: int| 0 <= k < q.len() implies (#[trigger] digit_val(q[k], radix as int)) is Some by {
                    if k < p.len() {
                        assert(q[k] == p[k]);
                    }
                }
                if next > cap {
                    proof {
                        if all_digits(d, radix as int) {
                            assert(d.subrange(0, i + 1 - start) == q);
                            lemma_digits_value_grows(d, i + 1 - start, radix as int);
                            assert(digits_value(d, radix as int) > cap as int);
                        }
                    }
                    return None;
                }
                acc = next;
            },
        }
        i = i + 1;
    }
    assert(s@.subrange(start as int, i as int) == d);
    let v: i64 = if neg { (0i128 - acc as i128) as i64 } else { acc as i64 };
    Some(v)
}

/// The decimal digits of a natural number.
pub open spec fn nat_digits(n: nat) -> Seq<char>
    decreases n,
{
    if n < 10 {
        seq![(n + '0' as nat) as char]
    } else {
        nat_digits(n / 10) + seq![((n % 10) + '0' as nat) as char]
    }
}

/// The decimal form of an integer, as `Display` writes it.
pub open spec fn decimal(v: int) -> Seq<char> {
    if v < 0 {
        seq!['-'] + nat_digits((-v) as nat)
    } else {
        nat_digits(v as nat)
    }
}

/// Appends the decimal digits of `n` to `out`.
pub fn push_nat_digits(out: &mut Vec<char>, n: u64)
    ensures
        final(out)@ == old(out)@ + nat_digits(n as nat),
    decreases n,
{
    if n >= 10 {
        push_nat_digits(out, n / 10);
    }
    let c = ((n % 10) as u8 + 48u8) as char;
    out.push(c);
    proof {
        if n < 10 {
            assert(nat_digits(n as nat) == seq![c]);
        }
    }
}

/// Appends the decimal form of `v` to `out`.
pub fn push_decimal(out: &mut Vec<char>, v: i64)
    ensures
        final(out)@ == old(out)@ + decimal(v as int),
{
    if v < 0 {
        out.push('-');
        let m: u64 = (0i128 - v as i128) as u64;
        push_nat_digits(out, m);
    } else {
        push_nat_digits(out, v as u64);
    }
}

} // verus!
