//! Positions in a line of markup: literal matches, runs of one character
//! class, and attribute values.

use vstd::prelude::*;
use crate::text::{chars_of, digits_value, is_digit, is_whitespace, is_ws};

verus! {

/// `pat` occurs in `t` at `pos`.
pub open spec fn has_at(t: Seq<char>, pos: int, pat: Seq<char>) -> bool {
    0 <= pos && pos + pat.len() <= t.len() && t.subrange(pos, pos + pat.len()) == pat
}

/// The first position at or after `pos` that holds no whitespace.
pub open spec fn skip_ws(t: Seq<char>, pos: int) -> int
    decreases t.len() - pos,
{
    if 0 <= pos < t.len() && is_ws(t[pos]) {
        skip_ws(t, pos + 1)
    } else {
        pos
    }
}

/// The first position at or after `pos` that holds no ASCII digit.
pub open spec fn digits_end(t: Seq<char>, pos: int) -> int
    decreases t.len() - pos,
{
    if 0 <= pos < t.len() && is_digit(t[pos]) {
        digits_end(t, pos + 1)
    } else {
        pos
    }
}

/// Characters of a character reference name: ASCII alphanumerics and `#`.
pub open spec fn is_entity_char(c: char) -> bool {
    let u = c as u32;
    (48 <= u <= 57) || (65 <= u <= 90) || (97 <= u <= 122) || u == 35
}

pub open spec fn entity_end(t: Seq<char>, pos: int) -> int
    decreases t.len() - pos,
{
    if 0 <= pos < t.len() && is_entity_char(t[pos]) {
        entity_end(t, pos + 1)
    } else {
        pos
    }
}

/// The first position at or after `pos` that holds `c`, or the length.
pub open spec fn find_char(t: Seq<char>, pos: int, c: char) -> int
    decreases t.len() - pos,
{
    if pos < 0 || pos >= t.len() {
        t.len() as int
    } else if t[pos] == c {
        pos
    } else {
        find_char(t, pos + 1, c)
    }
}

/// The first occurrence of `pat` at or after `from`.
pub open spec fn find_at(s: Seq<char>, pat: Seq<char>, from: int) -> Option<int>
    decreases s.len() + 1 - from,
{
    if from < 0 || from + pat.len() > s.len() {
        None
    } else if has_at(s, from, pat) {
        Some(from)
    } else {
        find_at(s, pat, from + 1)
    }
}

/// The number a run of digits reads as, or 0 when it does not fit in 64 bits.
pub open spec fn numeric(ds: Seq<char>) -> u64 {
    if digits_value(ds) <= u64::MAX {
        digits_value(ds) as u64
    } else {
        0
    }
}

/// An optional attribute ` KEY="digits"` at `pos` (`key` holds `KEY="`):
/// its value and the position after it, or 0 and `pos` when it is absent.
pub open spec fn attr_value(t: Seq<char>, pos: int, key: Seq<char>) -> (u64, int) {
    let p = skip_ws(t, pos);
    let q = p + key.len();
    let e = digits_end(t, q);
    if p > pos && has_at(t, p, key) && e > q && e < t.len() && t[e] == '"' {
        (numeric(t.subrange(q, e)), e + 1)
    } else {
        (0, pos)
    }
}

pub fn has_at_exec(t: &Vec<char>, pos: usize, pat: &str) -> (r: bool)
    ensures
        r == has_at(t@, pos as int, pat@),
{
    let p = chars_of(pat);
    if pos > t.len() || p.len() > t.len() - pos {
        return false;
    }
    let mut k: usize = 0;
    while k < p.len()
        invariant
            k <= p@.len(),
            pos + p@.len() <= t@.len(),
            t@.len() <= usize::MAX,
            p@ == pat@,
            forall|j: int| 0 <= j < k ==> t@[pos + j] == #[trigger] p@[j],
        decreases p.len() - k,
    {
        assert(pos + k < t@.len());
        if t[pos + k] != p[k] {
            assert(t@.subrange(pos as int, pos + p@.len())[k as int] != pat@[k as int]);
            return false;
        }
        k = k + 1;
    }
    assert(t@.subrange(pos as int, pos + p@.len()) =~= pat@);
    true
}

pub fn skip_ws_exec(t: &Vec<char>, pos: usize) -> (r: usize)
    requires
        pos <= t@.len(),
    ensures
        r as int == skip_ws(t@, pos as int),
        pos <= r <= t@.len(),
        forall|k: int| pos <= k < r ==> is_ws(#[trigger] t@[k]),
{
    let mut i = pos;
    while i < t.len() && is_whitespace(t[i])
        invariant
            pos <= i <= t@.len(),
            skip_ws(t@, pos as int) == skip_ws(t@, i as int),
            forall|k: int| pos <= k < i ==> is_ws(#[trigger] t@[k]),
        decreases t.len() - i,
    {
        i = i + 1;
    }
    i
}

pub fn is_ascii_digit(c: char) -> (r: bool)
    ensures
        r == is_digit(c),
{
    let u = c as u32;
    48 <= u && u <= 57
}

pub fn digits_end_exec(t: &Vec<char>, pos: usize) -> (r: usize)
    requires
        pos <= t@.len(),
    ensures
        r as int == digits_end(t@, pos as int),
        pos <= r <= t@.len(),
        forall|k: int| pos <= k < r ==> is_digit(#[trigger] t@[k]),
{
    let mut i = pos;
    while i < t.len() && is_ascii_digit(t[i])
        invariant
            pos <= i <= t@.len(),
            digits_end(t@, pos as int) == digits_end(t@, i as int),
            forall|k: int| pos <= k < i ==> is_digit(#[trigger] t@[k]),
        decreases t.len() - i,
    {
        i = i + 1;
    }
    i
}

fn is_entity_char_exec(c: char) -> (r: bool)
    ensures
        r == is_entity_char(c),
{
    let u = c as u32;
    (48 <= u && u <= 57) || (65 <= u && u <= 90) || (97 <= u && u <= 122) || u == 35
}

pub fn entity_end_exec(t: &Vec<char>, pos: usize) -> (r: usize)
    requires
        pos <= t@.len(),
    ensures
        r as int == entity_end(t@, pos as int),
        pos <= r <= t@.len(),
{
    let mut i = pos;
    while i < t.len() && is_entity_char_exec(t[i])
        invariant
            pos <= i <= t@.len(),
            entity_end(t@, pos as int) == entity_end(t@, i as int),
        decreases t.len() - i,
    {
        i = i + 1;
    }
    i
}

pub fn find_char_exec(t: &Vec<char>, pos: usize, c: char) -> (r: usize)
    requires
        pos <= t@.len(),
    ensures
        r as int == find_char(t@, pos as int, c),
        pos <= r <= t@.len(),
        forall|k: int| pos <= k < r ==> #[trigger] t@[k] != c,
{
    let mut i = pos;
    while i < t.len() && t[i] != c
        invariant
            pos <= i <= t@.len(),
            find_char(t@, pos as int, c) == find_char(t@, i as int, c),
            forall|k: int| pos <= k < i ==> #[trigger] t@[k] != c,
        decreases t.len() - i,
    {
        i = i + 1;
    }
    i
}

pub fn find_at_exec(s: &Vec<char>, pat: &str, from: usize) -> (r: Option<usize>)
    requires
        from <= s@.len(),
    ensures
        match r {
            Some(i) => find_at(s@, pat@, from as int) == Some(i as int) && from <= i && i
                + pat@.len() <= s@.len(),
            None => find_at(s@, pat@, from as int) is None,
        },
{
    let m = pat.unicode_len();
    if m == 0 {
        assert(has_at(s@, from as int, pat@)) by {
            assert(s@.subrange(from as int, from as int) =~= pat@);
        }
        return Some(from);
    }
    let n = s.len();
    let mut j = from;
    while j <= s.len() && m <= s.len() - j
        invariant
            from <= j,
            m == pat@.len(),
            m > 0,
            s@.len() <= usize::MAX,
            find_at(s@, pat@, from as int) == find_at(s@, pat@, j as int),
        decreases s.len() + 1 - j,
    {
        if has_at_exec(s, j, pat) {
            return Some(j);
        }
        j = j + 1;
    }
    None
}

/// The value of the digits between `lo` and `hi`, or 0 when it overflows.
pub fn numeric_exec(t: &Vec<char>, lo: usize, hi: usize) -> (r: u64)
    requires
        lo <= hi <= t@.len(),
        forall|k: int| lo <= k < hi ==> is_digit(#[trigger] t@[k]),
    ensures
        r == numeric(t@.subrange(lo as int, hi as int)),
{
    let mut v: u64 = 0;
    let mut over = false;
    let mut i = lo;
    assert(t@.subrange(lo as int, lo as int) =~= Seq::<char>::empty());
    while i < hi
        invariant
            lo <= i <= hi,
            hi <= t@.len(),
            forall|k: int| lo <= k < hi ==> is_digit(#[trigger] t@[k]),
            !over ==> v == digits_value(t@.subrange(lo as int, i as int)),
            over ==> digits_value(t@.subrange(lo as int, i as int)) > u64::MAX,
        decreases hi - i,
    {
        let ghost sub = t@.subrange(lo as int, i + 1);
        assert(sub.drop_last() =~= t@.subrange(lo as int, i as int));
        assert(sub.last() == t@[i as int]);
        assert(is_digit(t@[i as int]));
        let d = (t[i] as u32 - 48) as u64;
        if !over {
            if v > (u64::MAX - d) / 10 {
                over = true;
            } else {
                v = v * 10 + d;
            }
        }
        i = i + 1;
    }
    if over {
        0
    } else {
        v
    }
}

pub fn attr_exec(t: &Vec<char>, pos: usize, key: &str) -> (r: (u64, usize))
    requires
        pos <= t@.len(),
    ensures
        r.0 == attr_value(t@, pos as int, key@).0,
        r.1 as int == attr_value(t@, pos as int, key@).1,
        r.1 <= t@.len(),
{
    let p = skip_ws_exec(t, pos);
    if p > pos && has_at_exec(t, p, key) {
        let klen = key.unicode_len();
        assert(p + klen <= t@.len());
        assert(t@.len() == t.len());
        let q = p + klen;
        let e = digits_end_exec(t, q);
        if e > q && e < t.len() && t[e] == '"' {
            let v = numeric_exec(t, q, e);
            return (v, e + 1);
        }
    }
    (0, pos)
}

} // verus!
