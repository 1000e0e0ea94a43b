//! Search matching as the article cache performs it: SQL `LIKE` with the
//! pattern `%query%`, where `%` in the query matches any run of characters,
//! `_` any one character, and ASCII letters match regardless of case.

use vstd::prelude::*;
use crate::text::chars_of;

verus! {

/// The code point of a character once an ASCII capital letter is lowercased.
pub open spec fn folded_code(c: char) -> u32 {
    let u = c as u32;
    if 0x41 <= u <= 0x5A {
        (u + 32) as u32
    } else {
        u
    }
}

/// Whether two characters are equal once ASCII letters are lowercased.
pub open spec fn same_ignoring_ascii_case(a: char, b: char) -> bool {
    folded_code(a) == folded_code(b)
}

/// SQL `LIKE`: whether `text` matches `pattern`, where `%` matches any run of
/// characters (possibly empty), `_` matches exactly one character, and every
/// other character matches itself ignoring ASCII case.
pub open spec fn like_match(pattern: Seq<char>, text: Seq<char>) -> bool
    decreases pattern.len(), text.len(),
{
    if pattern.len() == 0 {
        text.len() == 0
    } else if pattern[0] == '%' {
        like_match(pattern.drop_first(), text) || (text.len() > 0 && like_match(
            pattern,
            text.drop_first(),
        ))
    } else if text.len() == 0 {
        false
    } else if pattern[0] == '_' || same_ignoring_ascii_case(pattern[0], text[0]) {
        like_match(pattern.drop_first(), text.drop_first())
    } else {
        false
    }
}

/// Whether `text` matches the search pattern `%query%`.
pub open spec fn like_contains(text: Seq<char>, query: Seq<char>) -> bool {
    like_match(seq!['%'] + query + seq!['%'], text)
}

/// Whether two characters are equal once ASCII letters are lowercased.
fn chars_match(a: char, b: char) -> (r: bool)
    ensures
        r == same_ignoring_ascii_case(a, b),
{
    let x: u32 = a as u32;
    let y: u32 = b as u32;
    let fx: u32 = if 0x41 <= x && x <= 0x5A {
        x + 32
    } else {
        x
    };
    let fy: u32 = if 0x41 <= y && y <= 0x5A {
        y + 32
    } else {
        y
    };
    fx == fy
}

/// Whether `text` matches the SQL `LIKE` pattern `pattern`.
pub fn like(pattern: &Vec<char>, text: &Vec<char>) -> (r: bool)
    ensures
        r == like_match(pattern@, text@),
{
    let pl = pattern.len();
    let tl = text.len();
    // `next[j]` holds the answer for pattern[i+1..] against text[j..].
    let mut next: Vec<bool> = Vec::new();
    let mut j: usize = 0;
    while j < tl
        invariant
            j <= tl,
            tl == text.len(),
            next.len() == j,
            forall|k: int| 0 <= k < j ==> next@[k] == false,
        decreases tl - j,
    {
        next.push(false);
        j = j + 1;
    }
    next.push(true);
    assert forall|k: int| 0 <= k <= tl implies next@[k] == like_match(
        pattern@.skip(pl as int),
        text@.skip(k),
    ) by {
        assert(pattern@.skip(pl as int).len() == 0);
    }
    let mut i: usize = pl;
    while i > 0
        invariant
            i <= pl,
            pl == pattern.len(),
            tl == text.len(),
            next.len() == tl + 1,
            forall|k: int|
                0 <= k <= tl ==> next@[k] == like_match(pattern@.skip(i as int), text@.skip(k)),
        decreases i,
    {
        i = i - 1;
        let pc = pattern[i];
        let ghost p = pattern@.skip(i as int);
        assert(p.drop_first() =~= pattern@.skip(i + 1));
        assert(p[0] == pc);
        let mut cur: Vec<bool> = Vec::new();
        let mut k: usize = 0;
        while k < next.len()
            invariant
                k <= next.len(),
                next.len() == tl + 1,
                cur.len() == k,
            decreases next.len() - k,
        {
            cur.push(false);
            k = k + 1;
        }
        let mut m: usize = tl + 1;
        while m > 0
            invariant
                m <= tl + 1,
                tl == text.len(),
                cur.len() == tl + 1,
                next.len() == tl + 1,
                p == pattern@.skip(i as int),
                p.drop_first() == pattern@.skip(i + 1),
                p.len() > 0,
                p[0] == pc,
                forall|k: int|
                    0 <= k <= tl ==> next@[k] == like_match(p.drop_first(), text@.skip(k)),
                forall|k: int| m <= k <= tl ==> cur@[k] == like_match(p, text@.skip(k)),
            decreases m,
        {
            m = m - 1;
            let ghost t = text@.skip(m as int);
            assert(m < tl ==> t.drop_first() =~= text@.skip(m + 1));
            assert(m < tl ==> t[0] == text@[m as int]);
            let value: bool = if pc == '%' {
                next[m] || (m < tl && cur[m + 1])
            } else if m == tl {
                false
            } else if pc == '_' || chars_match(pc, text[m]) {
                next[m + 1]
            } else {
                false
            };
            assert(value == like_match(p, t));
            cur.set(m, value);
        }
        next = cur;
    }
    assert(pattern@.skip(0) =~= pattern@);
    assert(text@.skip(0) =~= text@);
    next[0]
}

/// Whether `text` matches the search pattern `%query%`.
pub fn like_contains_chars(text: &Vec<char>, query: &Vec<char>) -> (r: bool)
    ensures
        r == like_contains(text@, query@),
{
    let mut pattern: Vec<char> = Vec::new();
    pattern.push('%');
    let mut i: usize = 0;
    while i < query.len()
        invariant
            i <= query.len(),
            pattern@ == seq!['%'] + query@.take(i as int),
        decreases query.len() - i,
    {
        pattern.push(query[i]);
        i = i + 1;
        assert(pattern@ =~= seq!['%'] + query@.take(i as int));
    }
    pattern.push('%');
    assert(query@.take(query@.len() as int) =~= query@);
    assert(pattern@ =~= seq!['%'] + query@ + seq!['%']);
    like(&pattern, text)
}

/// Whether a string matches the search pattern `%query%`.
pub fn like_contains_str(text: &str, query: &Vec<char>) -> (r: bool)
    ensures
        r == like_contains(text@, query@),
{
    let t = chars_of(text);
    like_contains_chars(&t, query)
}

} // verus!
