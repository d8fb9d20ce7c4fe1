//! What holds of texts that are split, joined, trimmed and read as numbers.

use vstd::prelude::*;
use crate::list_laws;
use crate::text;

verus! {

proof fn lemma_joined_first(first: Seq<char>, rest: Seq<Seq<char>>, sep: Seq<char>)
    requires
        rest.len() > 0,
    ensures
        text::joined(seq![first] + rest, sep) == first + sep + text::joined(rest, sep),
    decreases rest.len(),
{
    let all = seq![first] + rest;
    let d = rest.drop_last();
    assert(all.drop_last() =~= seq![first] + d);
    assert(all.last() == rest.last());
    if d.len() > 0 {
        lemma_joined_first(first, d, sep);
        assert(text::joined(all, sep) =~= first + sep + text::joined(rest, sep));
    } else {
        let one = seq![first] + d;
        assert(one =~= seq![first]);
        assert(text::joined(one, sep) == first);
        assert(rest[0] == rest.last());
    }
}

/// A text is what its pieces make with the separator between each two, and no piece holds
/// the separator.
pub proof fn law_pieces_make_text(s: Seq<char>, sep: char)
    ensures
        text::joined(text::pieces(s, sep), seq![sep]) == s,
        forall|i: int|
            0 <= i < text::pieces(s, sep).len() ==> list_laws::lacks(
                #[trigger] text::pieces(s, sep)[i],
                sep,
            ),
    decreases s.len(),
{
    text::lemma_char_at_or_end(s, sep, 0);
    let n = text::char_at_or_end(s, sep, 0);
    let all = text::pieces(s, sep);
    if n < s.len() {
        let rest = s.skip(n + 1);
        let more = text::pieces(rest, sep);
        law_pieces_make_text(rest, sep);
        lemma_joined_first(s.take(n), more, seq![sep]);
        assert(s =~= s.take(n) + seq![sep] + rest);
        assert forall|i: int| 0 <= i < all.len() implies list_laws::lacks(
            #[trigger] all[i],
            sep,
        ) by {
            if i > 0 {
                assert(all[i] == more[i - 1]);
            }
        }
    } else {
        assert(all[0] == s);
        assert(list_laws::lacks(s, sep));
    }
}

/// Whether a text is made of white space.
pub open spec fn is_blank(s: Seq<char>) -> bool {
    forall|i: int| 0 <= i < s.len() ==> text::is_white(#[trigger] s[i])
}

/// Whether a text is another one between white space.
pub open spec fn lies_in(s: Seq<char>, a: Seq<char>, core: Seq<char>, b: Seq<char>) -> bool {
    s == a + core + b && is_blank(a) && is_blank(b)
}

proof fn lemma_start(s: Seq<char>)
    ensures
        ({
            let r = text::trimmed_start(s);
            let n = s.len() - r.len();
            &&& 0 <= n
            &&& s.skip(n) == r
            &&& is_blank(s.take(n))
            &&& r.len() > 0 ==> !text::is_white(r[0])
        }),
    decreases s.len(),
{
    let r = text::trimmed_start(s);
    if s.len() > 0 && text::is_white(s[0]) {
        let d = s.drop_first();
        lemma_start(d);
        let n = s.len() - r.len();
        assert(s.skip(n) =~= d.skip(n - 1));
        assert forall|i: int| 0 <= i < n implies text::is_white(#[trigger] s.take(n)[i]) by {
            if i > 0 {
                assert(d.take(n - 1)[i - 1] == s.take(n)[i]);
            }
        }
    } else {
        assert(s.skip(0) =~= s);
    }
}

proof fn lemma_end(s: Seq<char>)
    ensures
        ({
            let r = text::trimmed_end(s);
            let n = r.len() as int;
            &&& n <= s.len()
            &&& s.take(n) == r
            &&& is_blank(s.skip(n))
            &&& n > 0 ==> !text::is_white(r[n - 1])
        }),
    decreases s.len(),
{
    let r = text::trimmed_end(s);
    if s.len() > 0 && text::is_white(s.last()) {
        let d = s.drop_last();
        lemma_end(d);
        let n = r.len() as int;
        assert(s.take(n) =~= d.take(n));
        assert forall|i: int| 0 <= i < s.skip(n).len() implies text::is_white(
            #[trigger] s.skip(n)[i],
        ) by {
            if n + i < d.len() {
                assert(d.skip(n)[i] == s.skip(n)[i]);
            }
        }
    } else {
        assert(s.take(s.len() as int) =~= s);
    }
}

/// Trimming takes white space away at both ends, all of it, and nothing else.
pub proof fn law_trimming_takes_blank_away(s: Seq<char>)
    ensures
        ({
            let r = text::trimmed(s);
            &&& exists|a: Seq<char>, b: Seq<char>| #[trigger] lies_in(s, a, r, b)
            &&& r.len() > 0 ==> !text::is_white(r[0]) && !text::is_white(r[r.len() - 1])
        }),
{
    let t = text::trimmed_start(s);
    let r = text::trimmed(s);
    lemma_start(s);
    lemma_end(t);
    let a = s.take(s.len() - t.len());
    let b = t.skip(r.len() as int);
    assert(s =~= a + t) by {
        assert(s.skip(s.len() - t.len()) == t);
    }
    assert(t =~= r + b) by {
        assert(t.take(r.len() as int) == r);
    }
    assert(a + (r + b) =~= a + r + b);
    assert(lies_in(s, a, r, b));
    if r.len() > 0 {
        assert(r[0] == t[0]);
    }
}

proof fn lemma_digits(n: nat)
    ensures
        text::digits_value(text::decimal(n)) == Some(n),
        text::decimal(n).len() > 0,
        '0' <= text::decimal(n)[0] <= '9',
    decreases n,
{
    let s = text::decimal(n);
    let d = n % 10;
    assert('0' as u32 == 48);
    assert(text::digit(d) as u32 == 48 + d);
    if n < 10 {
        assert(s.last() == text::digit(n));
    } else {
        lemma_digits(n / 10);
        assert(s.drop_last() =~= text::decimal(n / 10));
        assert(s.last() == text::digit(d));
        assert(s[0] == text::decimal(n / 10)[0]);
    }
}

/// A number that is written in decimals is read back.
pub proof fn law_numbers_are_read_back(n: int)
    ensures
        text::number_value(text::decimal_int(n)) == Some(n),
{
    if n < 0 {
        lemma_digits((-n) as nat);
        assert(text::decimal_int(n).skip(1) =~= text::decimal((-n) as nat));
    } else {
        lemma_digits(n as nat);
    }
}

proof fn lemma_none_at(s: Seq<char>, pat: Seq<char>, from: int)
    requires
        0 <= from,
        forall|i: int| from <= i ==> !(#[trigger] text::occurs_at(s, pat, i)),
    ensures
        text::first_at(s, pat, from) is None,
    decreases s.len() - from + 1,
{
    if from + pat.len() <= s.len() {
        lemma_none_at(s, pat, from + 1);
    }
}

proof fn lemma_replaced_tail(s: Seq<char>, pat: Seq<char>, by: Seq<char>, from: int, k: int)
    requires
        0 <= k <= from <= s.len(),
        pat.len() > 0,
    ensures
        text::replaced_from(s, pat, by, from) == text::replaced_from(s.skip(k), pat, by, from - k),
    decreases s.len() - from,
{
    lemma_first_tail(s, pat, from, k);
    match text::first_at(s, pat, from) {
        Some(i) => {
            text::lemma_first_at(s, pat, from);
            lemma_replaced_tail(s, pat, by, i + pat.len(), k);
            assert(s.subrange(from, i) =~= s.skip(k).subrange(from - k, i - k));
        },
        None => {
            assert(s.skip(from) =~= s.skip(k).skip(from - k));
        },
    }
}

proof fn lemma_first_tail(s: Seq<char>, pat: Seq<char>, from: int, k: int)
    requires
        0 <= k <= from,
        k <= s.len(),
    ensures
        text::first_at(s.skip(k), pat, from - k) == match text::first_at(s, pat, from) {
            Some(i) => Some(i - k),
            None => None,
        },
    decreases s.len() - from + 1,
{
    if from + pat.len() <= s.len() {
        assert(s.subrange(from, from + pat.len()) =~= s.skip(k).subrange(
            from - k,
            from - k + pat.len(),
        ));
        lemma_first_tail(s, pat, from + 1, k);
    }
}

/// Replacing changes each occurrence of a pattern, from the left, and nothing else.
pub proof fn law_replacing_changes_occurrences(
    a: Seq<char>,
    pat: Seq<char>,
    by: Seq<char>,
    b: Seq<char>,
)
    requires
        pat.len() > 0,
        forall|i: int| 0 <= i < a.len() ==> !(#[trigger] text::occurs_at(a + pat + b, pat, i)),
    ensures
        text::replaced(a + pat + b, pat, by) == a + by + text::replaced(b, pat, by),
        !text::has_text(b, pat) ==> text::replaced(b, pat, by) == b,
{
    let s = a + pat + b;
    let n = a.len() as int;
    let m = n + pat.len();
    assert(s.subrange(n, m) =~= pat);
    list_laws::lemma_first_at(s, pat, 0, n);
    lemma_replaced_tail(s, pat, by, m, m);
    assert(s.skip(m) =~= b);
    assert(s.subrange(0, n) =~= a);
    if !text::has_text(b, pat) {
        lemma_none_at(b, pat, 0);
        assert(b.skip(0) =~= b);
    }
}

/// Texts that are joined stand in order, with the separator between each two.
pub proof fn law_joined_texts_stand_in_order(
    a: Seq<Seq<char>>,
    b: Seq<Seq<char>>,
    sep: Seq<char>,
)
    requires
        a.len() > 0,
        b.len() > 0,
    ensures
        text::joined(a + b, sep) == text::joined(a, sep) + sep + text::joined(b, sep),
        a.len() == 1 ==> text::joined(a, sep) == a[0],
    decreases b.len(),
{
    assert((a + b).drop_last() =~= a + b.drop_last());
    assert((a + b).last() == b.last());
    if b.len() > 1 {
        law_joined_texts_stand_in_order(a, b.drop_last(), sep);
        assert(text::joined(a + b, sep) =~= text::joined(a, sep) + sep + text::joined(b, sep));
    } else {
        assert(a + b.drop_last() =~= a);
        assert(b[0] == b.last());
    }
}

/// The lines of a text are those of its first line and of what stands behind it.
pub proof fn law_first_line_comes_first(line: Seq<char>, rest: Seq<char>)
    requires
        list_laws::lacks(line, '\n'),
    ensures
        text::text_lines(line + seq!['\n'] + rest) == seq![
            if line.len() > 0 && line[line.len() - 1] == '\r' {
                line.drop_last()
            } else {
                line
            },
        ] + text::text_lines(rest),
        line.len() > 0 ==> text::text_lines(line) == seq![line],
{
    let s = line + seq!['\n'] + rest;
    let n = line.len() as int;
    text::lemma_char_at_or_end(s, '\n', 0);
    text::lemma_char_at_or_end(line, '\n', 0);
    assert(s[n] == '\n');
    let q = text::char_at_or_end(s, '\n', 0);
    if q < n {
        assert(s[q] == line[q]);
    }
    assert(s.take(n) =~= line);
    assert(s.skip(n + 1) =~= rest);
}

} // verus!
