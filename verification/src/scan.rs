//! Text scanning over character sequences: Unicode whitespace, trimming, pattern search
//! and hexadecimal numbers — the pieces the log and profiler adapters cut their fields with.
use crate::text::{chars_of, string_of};
use vstd::prelude::*;

verus! {

/// `char::is_whitespace`: the Unicode `White_Space` property.
pub open spec fn is_space(c: char) -> bool {
    ('\u{9}' <= c && c <= '\u{d}') || c == ' ' || c == '\u{85}' || c == '\u{a0}' || c == '\u{1680}'
        || ('\u{2000}' <= c && c <= '\u{200a}') || c == '\u{2028}' || c == '\u{2029}' || c
        == '\u{202f}' || c == '\u{205f}' || c == '\u{3000}'
}

/// `char::is_whitespace`.
pub fn space(c: char) -> (r: bool)
    ensures
        r == is_space(c),
{
    ('\u{9}' <= c && c <= '\u{d}') || c == ' ' || c == '\u{85}' || c == '\u{a0}' || c == '\u{1680}'
        || ('\u{2000}' <= c && c <= '\u{200a}') || c == '\u{2028}' || c == '\u{2029}' || c
        == '\u{202f}' || c == '\u{205f}' || c == '\u{3000}'
}

/// `s` without leading whitespace.
pub open spec fn trim_start(s: Seq<char>) -> Seq<char>
    decreases s.len(),
{
    if s.len() > 0 && is_space(s[0]) {
        trim_start(s.drop_first())
    } else {
        s
    }
}

/// `s` without trailing whitespace.
pub open spec fn trim_end(s: Seq<char>) -> Seq<char>
    decreases s.len(),
{
    if s.len() > 0 && is_space(s.last()) {
        trim_end(s.drop_last())
    } else {
        s
    }
}

/// `str::trim`: `s` without leading or trailing whitespace.
pub open spec fn trimmed(s: Seq<char>) -> Seq<char> {
    trim_end(trim_start(s))
}

/// `str::trim` over characters.
pub fn trim_chars(s: &Vec<char>) -> (r: Vec<char>)
    ensures
        r@ == trimmed(s@),
{
    let mut lo: usize = 0;
    assert(s@.skip(0) =~= s@);
    while lo < s.len() && space(s[lo])
        invariant
            lo <= s.len(),
            trim_start(s@) == trim_start(s@.skip(lo as int)),
        decreases s.len() - lo,
    {
        assert(s@.skip(lo as int).drop_first() =~= s@.skip(lo + 1));
        lo = lo + 1;
    }
    let ghost front = s@.skip(lo as int);
    assert(trim_start(front) == front);
    let mut hi: usize = s.len();
    assert(front.take((hi - lo) as int) =~= front);
    while hi > lo && space(s[hi - 1])
        invariant
            lo <= hi <= s.len(),
            front == s@.skip(lo as int),
            trim_end(front) == trim_end(front.take((hi - lo) as int)),
        decreases hi,
    {
        assert(front.take((hi - lo) as int).drop_last() =~= front.take((hi - lo - 1) as int));
        hi = hi - 1;
    }
    let mut out: Vec<char> = Vec::new();
    let mut i = lo;
    while i < hi
        invariant
            lo <= i <= hi <= s.len(),
            out@ == s@.subrange(lo as int, i as int),
        decreases hi - i,
    {
        out.push(s[i]);
        i = i + 1;
        assert(out@ =~= s@.subrange(lo as int, i as int));
    }
    assert(out@ =~= front.take((hi - lo) as int));
    out
}

/// `p` occurs in `s` at `i`.
pub open spec fn occurs_at(s: Seq<char>, p: Seq<char>, i: int) -> bool {
    0 <= i && i + p.len() <= s.len() && s.subrange(i, i + p.len()) == p
}

/// The first position at or after `from` where `p` occurs in `s`.
pub open spec fn find_from(s: Seq<char>, p: Seq<char>, from: int) -> Option<int>
    decreases s.len() + 1 - from,
{
    if from < 0 || from + p.len() > s.len() {
        None
    } else if occurs_at(s, p, from) {
        Some(from)
    } else {
        find_from(s, p, from + 1)
    }
}

/// A position the search finds is an occurrence at or after where it started.
pub proof fn lemma_find_from_found(s: Seq<char>, p: Seq<char>, from: int)
    requires
        find_from(s, p, from).is_some(),
    ensures
        from <= find_from(s, p, from).unwrap(),
        occurs_at(s, p, find_from(s, p, from).unwrap()),
    decreases s.len() + 1 - from,
{
    if from < 0 || from + p.len() > s.len() {
    } else if occurs_at(s, p, from) {
    } else {
        lemma_find_from_found(s, p, from + 1);
    }
}

/// The first position where `p` occurs in `s`.
pub open spec fn find_first(s: Seq<char>, p: Seq<char>) -> Option<int> {
    find_from(s, p, 0)
}

/// The first position at or after `from` where `p` occurs in `s`.
pub fn find_chars(s: &Vec<char>, p: &Vec<char>, from: usize) -> (r: Option<usize>)
    requires
        p@.len() > 0,
    ensures
        r.is_some() == find_from(s@, p@, from as int).is_some(),
        r.is_some() ==> r.unwrap() as int == find_from(s@, p@, from as int).unwrap(),
        r.is_some() ==> from <= r.unwrap() && r.unwrap() + p@.len() <= s@.len(),
{
    let mut i = from;
    while i < s.len() && p.len() <= s.len() - i
        invariant
            from <= i,
            find_from(s@, p@, from as int) == find_from(s@, p@, i as int),
        decreases s.len() - i,
    {
        let mut k: usize = 0;
        let mut same = true;
        assert(s@.subrange(i as int, i as int) =~= p@.take(0));
        while k < p.len()
            invariant
                k <= p.len(),
                i + p.len() <= s.len(),
                same == (s@.subrange(i as int, i + k) == p@.take(k as int)),
            decreases p.len() - k,
        {
            let ghost was = same;
            assert(s@.subrange(i as int, i + k + 1) =~= s@.subrange(i as int, i + k).push(s@[i + k]));
            assert(p@.take(k + 1) =~= p@.take(k as int).push(p@[k as int]));
            if s[i + k] != p[k] {
                same = false;
            }
            proof {
                if was && s@[i + k] == p@[k as int] {
                    assert(s@.subrange(i as int, i + k + 1) == p@.take(k + 1));
                } else if !was {
                    if s@.subrange(i as int, i + k + 1) == p@.take(k + 1) {
                        assert(s@.subrange(i as int, i + k + 1).drop_last() == p@.take(k + 1).drop_last());
                        assert(s@.subrange(i as int, i + k + 1).drop_last() =~= s@.subrange(i as int, i + k));
                        assert(p@.take(k + 1).drop_last() =~= p@.take(k as int));
                    }
                } else {
                    assert(s@.subrange(i as int, i + k + 1).last() != p@.take(k + 1).last());
                }
            }
            k = k + 1;
        }
        assert(p@.take(p.len() as int) =~= p@);
        if same {
            return Some(i);
        }
        i = i + 1;
    }
    proof {
        if find_from(s@, p@, i as int).is_some() {
            lemma_find_from_found(s@, p@, i as int);
        }
    }
    None
}

/// The characters of `s` from `lo` up to `hi`.
pub fn slice_chars(s: &Vec<char>, lo: usize, hi: usize) -> (r: Vec<char>)
    requires
        lo <= hi <= s.len(),
    ensures
        r@ == s@.subrange(lo as int, hi as int),
{
    let mut out: Vec<char> = Vec::new();
    let mut i = lo;
    while i < hi
        invariant
            lo <= i <= hi <= s.len(),
            out@ == s@.subrange(lo as int, i as int),
        decreases hi - i,
    {
        out.push(s[i]);
        i = i + 1;
        assert(out@ =~= s@.subrange(lo as int, i as int));
    }
    out
}

/// The piece of `s` after the first occurrence of `p`, up to the next one (or the end):
/// `s.split(p).nth(1)`.
pub open spec fn second_piece(s: Seq<char>, p: Seq<char>) -> Option<Seq<char>> {
    match find_first(s, p) {
        None => None,
        Some(i) => {
            let rest = s.skip(i + p.len());
            match find_first(rest, p) {
                Some(j) => Some(rest.take(j)),
                None => Some(rest),
            }
        },
    }
}

/// The piece of `s` before the first occurrence of `p` (all of `s` when it has none):
/// `s.split(p).next()`.
pub open spec fn first_piece(s: Seq<char>, p: Seq<char>) -> Seq<char> {
    match find_first(s, p) {
        Some(i) => s.take(i),
        None => s,
    }
}

/// A relocated search: looking in a suffix is looking in the whole from its start.
pub proof fn lemma_find_skip(s: Seq<char>, p: Seq<char>, k: int, from: int)
    requires
        0 <= k <= s.len(),
        0 <= from,
        p.len() > 0,
    ensures
        find_from(s.skip(k), p, from) == match find_from(s, p, k + from) {
            Some(i) => Some(i - k),
            None => None,
        },
    decreases s.len() - k - from,
{
    let t = s.skip(k);
    if from + p.len() > t.len() {
    } else {
        assert(t.subrange(from, from + p.len()) =~= s.subrange(k + from, k + from + p.len()));
        if !occurs_at(t, p, from) {
            lemma_find_skip(s, p, k, from + 1);
        }
    }
}

/// `s.split(p).nth(1)`.
pub fn second_piece_of(s: &Vec<char>, p: &Vec<char>) -> (r: Option<Vec<char>>)
    requires
        p@.len() > 0,
    ensures
        r.is_some() == second_piece(s@, p@).is_some(),
        r.is_some() ==> r.unwrap()@ == second_piece(s@, p@).unwrap(),
{
    let i = match find_chars(s, p, 0) {
        Some(i) => i,
        None => return None,
    };
    assert(i + p@.len() <= s@.len());
    assert(p@.len() == p.len() && s@.len() == s.len());
    let start = i + p.len();
    let rest = slice_chars(s, start, s.len());
    assert(rest@ =~= s@.skip(start as int));
    match find_chars(&rest, p, 0) {
        Some(j) => {
            let piece = slice_chars(&rest, 0, j);
            assert(piece@ =~= rest@.take(j as int));
            Some(piece)
        },
        None => Some(rest),
    }
}

/// `s.split(p).next()`.
pub fn first_piece_of(s: &Vec<char>, p: &Vec<char>) -> (r: Vec<char>)
    requires
        p@.len() > 0,
    ensures
        r@ == first_piece(s@, p@),
{
    match find_chars(s, p, 0) {
        Some(i) => {
            let piece = slice_chars(s, 0, i);
            assert(piece@ =~= s@.take(i as int));
            piece
        },
        None => slice_chars(s, 0, s.len()),
    }
}

/// The value of a hexadecimal digit (either case).
pub open spec fn hex_digit_value(c: char) -> Option<nat> {
    if '0' <= c && c <= '9' {
        Some((c as int - '0' as int) as nat)
    } else if 'a' <= c && c <= 'f' {
        Some((c as int - 'a' as int + 10) as nat)
    } else if 'A' <= c && c <= 'F' {
        Some((c as int - 'A' as int + 10) as nat)
    } else {
        None
    }
}

/// Every character of `d` is a hexadecimal digit.
pub open spec fn all_hex(d: Seq<char>) -> bool {
    forall|i: int| 0 <= i < d.len() ==> (#[trigger] hex_digit_value(d[i])).is_some()
}

/// The value of a run of hexadecimal digits.
pub open spec fn hex_value(d: Seq<char>) -> nat
    decreases d.len(),
{
    if d.len() == 0 {
        0
    } else {
        hex_value(d.drop_last()) * 16 + hex_digit_value(d.last()).unwrap_or(0)
    }
}

/// `u16::from_str_radix(t, 16)`: an optional `+`, then one or more hex digits whose value
/// fits in 16 bits.
pub open spec fn radix16_u16(t: Seq<char>) -> Option<u16> {
    let digits = if t.len() > 0 && t[0] == '+' {
        t.drop_first()
    } else {
        t
    };
    if digits.len() == 0 || !all_hex(digits) || hex_value(digits) > 0xFFFF {
        None
    } else {
        Some(hex_value(digits) as u16)
    }
}

/// Hex values only grow as digits are appended.
proof fn lemma_hex_value_grows(d: Seq<char>, k: int)
    requires
        0 <= k <= d.len(),
    ensures
        hex_value(d.take(k)) <= hex_value(d),
    decreases d.len() - k,
{
    if k < d.len() {
        lemma_hex_value_grows(d, k + 1);
        assert(d.take(k + 1).drop_last() =~= d.take(k));
    } else {
        assert(d.take(k) =~= d);
    }
}

/// `u16::from_str_radix(t, 16)`.
pub fn parse_radix16_u16(t: &Vec<char>) -> (r: Option<u16>)
    ensures
        r == radix16_u16(t@),
{
    let start: usize = if t.len() > 0 && t[0] == '+' {
        1
    } else {
        0
    };
    let ghost digits = t@.skip(start as int);
    assert(digits =~= if t@.len() > 0 && t@[0] == '+' { t@.drop_first() } else { t@ });
    if start == t.len() {
        return None;
    }
    let mut acc: u32 = 0;
    let mut i = start;
    while i < t.len()
        invariant
            start <= i <= t.len(),
            digits == t@.skip(start as int),
            digits == (if t@.len() > 0 && t@[0] == '+' { t@.drop_first() } else { t@ }),
            acc as nat == hex_value(digits.take(i - start)),
            acc <= 0xFFFF,
            all_hex(digits.take(i - start)),
        decreases t.len() - i,
    {
        let c = t[i];
        let v: u32 = if '0' <= c && c <= '9' {
            (c as u32) - ('0' as u32)
        } else if 'a' <= c && c <= 'f' {
            (c as u32) - ('a' as u32) + 10
        } else if 'A' <= c && c <= 'F' {
            (c as u32) - ('A' as u32) + 10
        } else {
            assert(digits[i - start] == c);
            assert(hex_digit_value(digits[i - start]).is_none());
            assert(!all_hex(digits));
            return None;
        };
        assert(digits.take(i + 1 - start).drop_last() =~= digits.take(i - start));
        assert(digits.take(i + 1 - start).last() == c);
        assert(hex_digit_value(c) == Some(v as nat));
        acc = acc * 16 + v;
        assert(acc as nat == hex_value(digits.take(i + 1 - start)));
        if acc > 0xFFFF {
            proof {
                lemma_hex_value_grows(digits, i + 1 - start);
                assert(hex_value(digits) > 0xFFFF);
            }
            return None;
        }
        assert(all_hex(digits.take(i + 1 - start))) by {
            assert forall|j: int| 0 <= j < digits.take(i + 1 - start).len() implies (#[trigger] hex_digit_value(
                digits.take(i + 1 - start)[j],
            )).is_some() by {
                if j < i - start {
                    assert(digits.take(i + 1 - start)[j] == digits.take(i - start)[j]);
                }
            }
        }
        i = i + 1;
    }
    assert(digits.take(t.len() - start) =~= digits);
    Some(acc as u16)
}

} // verus!
