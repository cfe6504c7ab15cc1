//! Character-level helpers of the assembler: prefixes, searches, splitting
//! into words and into statement parts.

use vstd::prelude::*;
use vstd::string::StrSliceExecFns;
use crate::text::{is_whitespace, is_ws, parse_int_spec, trim, trim_range};

verus! {

/// The views of a sequence of character vectors.
pub open spec fn views(v: Seq<Vec<char>>) -> Seq<Seq<char>> {
    v.map_values(|p: Vec<char>| p@)
}

/// `s` begins with `p`.
pub open spec fn starts_with(s: Seq<char>, p: Seq<char>) -> bool {
    p.len() <= s.len() && s.subrange(0, p.len() as int) == p
}

/// Some character of `s` is white space.
pub open spec fn has_ws(s: Seq<char>) -> bool {
    exists|i: int| 0 <= i < s.len() && is_ws(#[trigger] s[i])
}

/// The index of the first `c` in `s`.
pub open spec fn find_first(s: Seq<char>, c: char) -> Option<int>
    decreases s.len(),
{
    if s.len() == 0 {
        None
    } else if s[0] == c {
        Some(0)
    } else {
        match find_first(s.drop_first(), c) {
            Some(i) => Some(i + 1),
            None => None,
        }
    }
}

/// The index of the last `c` in `s`.
pub open spec fn find_last(s: Seq<char>, c: char) -> Option<int>
    decreases s.len(),
{
    if s.len() == 0 {
        None
    } else if s.last() == c {
        Some(s.len() - 1)
    } else {
        find_last(s.drop_last(), c)
    }
}

/// Splitting on white space: the finished words, and the word in progress.
pub open spec fn ws_fold(s: Seq<char>) -> (Seq<Seq<char>>, Seq<char>)
    decreases s.len(),
{
    if s.len() == 0 {
        (seq![], seq![])
    } else {
        let (ws, cur) = ws_fold(s.drop_last());
        if is_ws(s.last()) {
            if cur.len() > 0 { (ws.push(cur), seq![]) } else { (ws, cur) }
        } else {
            (ws, cur.push(s.last()))
        }
    }
}

/// The words of `s`, as `str::split_whitespace` gives them.
pub open spec fn split_ws(s: Seq<char>) -> Seq<Seq<char>> {
    let (ws, cur) = ws_fold(s);
    if cur.len() > 0 { ws.push(cur) } else { ws }
}

/// Tokenizing a statement: finished parts, the part in progress, and
/// whether a `[` is open.
pub open spec fn tok_fold(s: Seq<char>) -> (Seq<Seq<char>>, Seq<char>, bool)
    decreases s.len(),
{
    if s.len() == 0 {
        (seq![], seq![], false)
    } else {
        let (ps, cur, inb) = tok_fold(s.drop_last());
        let c = s.last();
        if c == '[' {
            (ps, cur.push(c), true)
        } else if c == ']' {
            (ps, cur.push(c), false)
        } else if (c == ',' || is_ws(c)) && !inb {
            if trim(cur).len() > 0 { (ps.push(trim(cur)), seq![], inb) } else { (ps, cur, inb) }
        } else {
            (ps, cur.push(c), inb)
        }
    }
}

/// The parts of a statement: split on white space and commas, except
/// inside a bracketed address, each part trimmed and none empty.
pub open spec fn tokens(s: Seq<char>) -> Seq<Seq<char>> {
    let (ps, cur, _) = tok_fold(s);
    if trim(cur).len() > 0 { ps.push(trim(cur)) } else { ps }
}

/// `s` without the copies of `c` at its end.
pub open spec fn trim_end_char(s: Seq<char>, c: char) -> Seq<char>
    decreases s.len(),
{
    if s.len() > 0 && s.last() == c { trim_end_char(s.drop_last(), c) } else { s }
}

/// `s` without the copies of `c` at its start.
pub open spec fn trim_start_char(s: Seq<char>, c: char) -> Seq<char>
    decreases s.len(),
{
    if s.len() > 0 && s[0] == c { trim_start_char(s.drop_first(), c) } else { s }
}

/// A register operand: `r` or `R`, then a decimal index that fits a byte.
pub open spec fn register_spec(s: Seq<char>) -> Option<u8> {
    if s.len() > 0 && (s[0] == 'r' || s[0] == 'R') {
        match parse_int_spec(s.drop_first(), 10, false, 0, 255) {
            Some(v) => Some(v as u8),
            None => None,
        }
    } else {
        None
    }
}

/// An immediate operand: `#` and a decimal, `0x` and a hexadecimal, or a
/// bare decimal, each a 32-bit signed value.
pub open spec fn immediate_spec(s: Seq<char>) -> Option<i32> {
    let r = if s.len() > 0 && s[0] == '#' {
        parse_int_spec(s.drop_first(), 10, true, i32::MIN as int, i32::MAX as int)
    } else if starts_with(s, "0x"@) {
        parse_int_spec(s.subrange(2, s.len() as int), 16, true, i32::MIN as int, i32::MAX as int)
    } else {
        parse_int_spec(s, 10, true, i32::MIN as int, i32::MAX as int)
    };
    match r {
        Some(v) => Some(v as i32),
        None => None,
    }
}

/// Whether `s` begins with the characters of `p`.
pub fn has_prefix(s: &Vec<char>, p: &str) -> (r: bool)
    ensures
        r == starts_with(s@, p@),
{
    let n = p.unicode_len();
    if n > s.len() {
        return false;
    }
    let mut i: usize = 0;
    while i < n
        invariant
            n == p@.len() <= s@.len(),
            i <= n,
            forall|k: int| 0 <= k < i ==> s@[k] == p@[k],
        decreases n - i,
    {
        if s[i] != p.get_char(i) {
            assert(s@.subrange(0, n as int)[i as int] != p@[i as int]);
            return false;
        }
        i = i + 1;
    }
    assert(s@.subrange(0, n as int) =~= p@);
    true
}

/// Whether `s` is exactly the characters of `p`.
pub fn equals_str(s: &Vec<char>, p: &str) -> (r: bool)
    ensures
        r == (s@ == p@),
{
    if s.len() != p.unicode_len() {
        return false;
    }
    let r = has_prefix(s, p);
    assert(s@.subrange(0, s@.len() as int) == s@);
    r
}

/// A copy of `s[from..to]`.
pub fn slice_of(s: &Vec<char>, from: usize, to: usize) -> (r: Vec<char>)
    requires
        from <= to <= s@.len(),
    ensures
        r@ == s@.subrange(from as int, to as int),
{
    let mut r: Vec<char> = Vec::new();
    let mut k: usize = from;
    while k < to
        invariant
            from <= k <= to <= s@.len(),
            r@ == s@.subrange(from as int, k as int),
        decreases to - k,
    {
        r.push(s[k]);
        k = k + 1;
        assert(r@ =~= s@.subrange(from as int, k as int));
    }
    r
}

/// The index of the first `c` in `s`.
pub fn first_index(s: &Vec<char>, c: char) -> (r: Option<usize>)
    ensures
        r matches Some(i) ==> find_first(s@, c) == Some(i as int),
        r is None ==> find_first(s@, c) is None,
{
    let mut i: usize = 0;
    assert(s@.subrange(0, s@.len() as int) == s@);
    while i < s.len()
        invariant
            i <= s@.len(),
            find_first(s@, c) == match find_first(s@.subrange(i as int, s@.len() as int), c) {
                Some(j) => Some(j + i),
                None => None,
            },
        decreases s@.len() - i,
    {
        let ghost t = s@.subrange(i as int, s@.len() as int);
        assert(t.drop_first() == s@.subrange(i + 1, s@.len() as int));
        if s[i] == c {
            return Some(i);
        }
        i = i + 1;
    }
    assert(s@.subrange(i as int, s@.len() as int).len() == 0);
    None
}

/// The index of the last `c` in `s`.
pub fn last_index(s: &Vec<char>, c: char) -> (r: Option<usize>)
    ensures
        r matches Some(i) ==> find_last(s@, c) == Some(i as int),
        r is None ==> find_last(s@, c) is None,
{
    let mut j: usize = s.len();
    assert(s@.subrange(0, s@.len() as int) == s@);
    while j > 0
        invariant
            j <= s@.len(),
            find_last(s@, c) == find_last(s@.subrange(0, j as int), c),
        decreases j,
    {
        let ghost t = s@.subrange(0, j as int);
        assert(t.drop_last() == s@.subrange(0, j - 1));
        if s[j - 1] == c {
            return Some(j - 1);
        }
        j = j - 1;
    }
    None
}

/// Whether some character of `s` is white space.
pub fn contains_ws(s: &Vec<char>) -> (r: bool)
    ensures
        r == has_ws(s@),
{
    let mut i: usize = 0;
    while i < s.len()
        invariant
            i <= s@.len(),
            forall|k: int| 0 <= k < i ==> !is_ws(#[trigger] s@[k]),
        decreases s@.len() - i,
    {
        if is_whitespace(s[i]) {
            return true;
        }
        i = i + 1;
    }
    false
}

/// The words of `s`, split on white space.
pub fn split_whitespace(s: &Vec<char>) -> (r: Vec<Vec<char>>)
    ensures
        views(r@) == split_ws(s@),
{
    let mut ws: Vec<Vec<char>> = Vec::new();
    let mut cur: Vec<char> = Vec::new();
    let mut i: usize = 0;
    while i < s.len()
        invariant
            i <= s@.len(),
            (views(ws@), cur@) == ws_fold(s@.subrange(0, i as int)),
        decreases s@.len() - i,
    {
        let ghost t = s@.subrange(0, i + 1);
        assert(t.drop_last() == s@.subrange(0, i as int));
        let c = s[i];
        if is_whitespace(c) {
            if cur.len() > 0 {
                ws.push(cur);
                cur = Vec::new();
                assert(views(ws@) =~= ws_fold(t).0);
                assert(cur@ =~= ws_fold(t).1);
            }
        } else {
            cur.push(c);
        }
        i = i + 1;
    }
    assert(s@.subrange(0, i as int) == s@);
    if cur.len() > 0 {
        ws.push(cur);
        assert(views(ws@) =~= split_ws(s@));
    }
    ws
}

/// `s` with white space at both ends removed.
pub fn trimmed(s: &Vec<char>) -> (r: Vec<char>)
    ensures
        r@ == trim(s@),
{
    let r = trim_range(s, 0, s.len());
    assert(s@.subrange(0, s@.len() as int) == s@);
    r
}

/// `s` without the copies of `c` at its end.
pub fn strip_end(s: &Vec<char>, c: char) -> (r: Vec<char>)
    ensures
        r@ == trim_end_char(s@, c),
{
    let mut j: usize = s.len();
    assert(s@.subrange(0, s@.len() as int) == s@);
    while j > 0 && s[j - 1] == c
        invariant
            j <= s@.len(),
            trim_end_char(s@, c) == trim_end_char(s@.subrange(0, j as int), c),
        decreases j,
    {
        let ghost t = s@.subrange(0, j as int);
        assert(t.drop_last() == s@.subrange(0, j - 1));
        j = j - 1;
    }
    slice_of(s, 0, j)
}

/// `s` without the copies of `c` at its start.
pub fn strip_start(s: &Vec<char>, c: char) -> (r: Vec<char>)
    ensures
        r@ == trim_start_char(s@, c),
{
    let mut i: usize = 0;
    assert(s@.subrange(0, s@.len() as int) == s@);
    while i < s.len() && s[i] == c
        invariant
            i <= s@.len(),
            trim_start_char(s@, c) == trim_start_char(s@.subrange(i as int, s@.len() as int), c),
        decreases s@.len() - i,
    {
        let ghost t = s@.subrange(i as int, s@.len() as int);
        assert(t.drop_first() == s@.subrange(i + 1, s@.len() as int));
        i = i + 1;
    }
    slice_of(s, i, s.len())
}


} // verus!
