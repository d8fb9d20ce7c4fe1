//! How much memory is available, as the system tells it.

use vstd::prelude::*;
use crate::text;
use crate::text::{chars_of, lines, starts_with, text_of, white};

verus! {

/// The first place from `i` on that holds white space, or that holds none, or
/// the end of the text.
pub open spec fn place_of_white(s: Seq<char>, is_white: bool, i: int) -> int
    decreases s.len() - i,
{
    if i < 0 || i >= s.len() {
        s.len() as int
    } else if text::is_white(s[i]) == is_white {
        i
    } else {
        place_of_white(s, is_white, i + 1)
    }
}

/// The second of the words of a text that white space parts.
pub open spec fn second_word(s: Seq<char>) -> Option<Seq<char>> {
    let first = place_of_white(s, false, 0);
    let gap = place_of_white(s, true, first);
    let second = place_of_white(s, false, gap);
    let end = place_of_white(s, true, second);
    if second < s.len() {
        Some(s.subrange(second, end))
    } else {
        None
    }
}

fn find_white(v: &Vec<char>, is_white: bool, from: usize) -> (r: usize)
    requires
        from <= v@.len(),
    ensures
        r == place_of_white(v@, is_white, from as int),
        from <= r <= v@.len(),
{
    let mut i: usize = from;
    while i < v.len()
        invariant
            from <= i <= v@.len(),
            place_of_white(v@, is_white, i as int) == place_of_white(v@, is_white, from as int),
        decreases v@.len() - i,
    {
        if white(v[i]) == is_white {
            return i;
        }
        i += 1;
    }
    i
}

/// The second word of a text.
pub fn take_second_word(s: &str) -> (r: Option<String>)
    ensures
        r.deep_view() == second_word(s@),
{
    let v = chars_of(s);
    let first: usize = find_white(&v, false, 0);
    let gap: usize = find_white(&v, true, first);
    let second: usize = find_white(&v, false, gap);
    let end: usize = find_white(&v, true, second);
    if second < v.len() {
        Some(text_of(&v, second, end))
    } else {
        None
    }
}

/// The number without sign that a text denotes, where it fits 64 bits.
pub open spec fn unsigned_value(s: Seq<char>) -> Option<nat> {
    let digits = if s.len() > 0 && s[0] == '+' {
        s.skip(1)
    } else {
        s
    };
    match text::digits_value(digits) {
        Some(n) => if n <= u64::MAX {
            Some(n)
        } else {
            None
        },
        None => None,
    }
}

/// The number without sign that a text denotes, where it fits 64 bits.
#[verifier::loop_isolation(false)]
pub fn parse_u64(s: &str) -> (r: Option<u64>)
    ensures
        match r {
            Some(n) => unsigned_value(s@) == Some(n as nat),
            None => unsigned_value(s@) is None,
        },
{
    let v = chars_of(s);
    let start: usize = if v.len() > 0 && v[0] == '+' {
        1
    } else {
        0
    };
    let ghost body = s@.skip(start as int);
    assert(s@.skip(0) =~= s@);
    if start == v.len() {
        return None;
    }
    let mut acc: u128 = 0;
    let mut i: usize = start;
    while i < v.len()
        invariant
            start <= i <= v@.len(),
            body == s@.skip(start as int),
            acc <= 0xffff_ffff_ffff_ffffu128,
            i == start ==> acc == 0,
            i > start ==> text::digits_value(body.take(i - start)) == Some(acc as nat),
        decreases v@.len() - i,
    {
        let c = v[i];
        assert(body.take(i - start + 1).last() == c);
        assert(body.take(i - start + 1).drop_last() =~= body.take(i - start));
        if !('0' <= c && c <= '9') {
            proof {
                if text::digits_value(body) is Some {
                    text::lemma_digits_grow(body, i - start + 1);
                }
            }
            return None;
        }
        let b: u8 = c as u8;
        let d: u8 = b - 48;
        acc = acc * 10 + d as u128;
        assert(text::digits_value(body.take(i - start + 1)) == Some(acc as nat));
        if acc > 0xffff_ffff_ffff_ffffu128 {
            proof {
                if text::digits_value(body) is Some {
                    text::lemma_digits_grow(body, i - start + 1);
                }
            }
            return None;
        }
        i += 1;
    }
    assert(body.take(i - start) =~= body);
    Some(acc as u64)
}

/// The first line from place `i` on that tells what is available.
pub open spec fn memory_line(lines: Seq<Seq<char>>, i: int) -> Option<Seq<char>>
    decreases lines.len() - i,
{
    if i < 0 || i >= lines.len() {
        None
    } else if "MemAvailable:"@.is_prefix_of(lines[i]) {
        Some(lines[i])
    } else {
        memory_line(lines, i + 1)
    }
}

/// The number of available kilobytes in what the system tells of its memory.
pub open spec fn available_in(info: Seq<char>) -> Option<nat> {
    match memory_line(text::text_lines(info), 0) {
        Some(line) => match second_word(line) {
            Some(w) => unsigned_value(w),
            None => None,
        },
        None => None,
    }
}

/// The number of available kilobytes in what the system tells of its memory: the
/// second word of the line `MemAvailable:`.
#[verifier::loop_isolation(false)]
pub fn available_kilobytes(info: &str) -> (r: Option<u64>)
    ensures
        match r {
            Some(n) => available_in(info@) == Some(n as nat),
            None => available_in(info@) is None,
        },
{
    let all = lines(info);
    let ghost lm = all.deep_view();
    let mut i: usize = 0;
    while i < all.len()
        invariant
            i <= all@.len(),
            lm == all.deep_view(),
            memory_line(lm, i as int) == memory_line(lm, 0),
        decreases all@.len() - i,
    {
        assert(lm[i as int] == all@[i as int]@);
        if starts_with(all[i].as_str(), "MemAvailable:") {
            return match take_second_word(all[i].as_str()) {
                Some(w) => parse_u64(w.as_str()),
                None => None,
            };
        }
        i += 1;
    }
    None
}

} // verus!
