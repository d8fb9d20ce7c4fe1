//! That escaping a text and decoding its entities gives the text back.

use vstd::prelude::*;
use crate::loca;
use crate::lsx_writer;
use crate::text;

verus! {

/// What a character is written as while `<`, `>` and `&` are still escaped as far
/// as asked for. A quotation mark is escaped in each case.
pub open spec fn partly_escaped(c: char, lt: bool, gt: bool, amp: bool) -> Seq<char> {
    if c == '&' && amp {
        "&amp;"@
    } else if c == '<' && lt {
        "&lt;"@
    } else if c == '>' && gt {
        "&gt;"@
    } else if c == '"' {
        "&quot;"@
    } else {
        seq![c]
    }
}

/// The writer of characters that are escaped as far as asked for.
pub open spec fn part_writer(lt: bool, gt: bool, amp: bool) -> spec_fn(char) -> Seq<char> {
    |c: char| partly_escaped(c, lt, gt, amp)
}

/// The writer of characters as they are.
pub open spec fn plain_writer() -> spec_fn(char) -> Seq<char> {
    |c: char| seq![c]
}

/// Where the character in place `k` begins once all are written.
pub open spec fn begins_at(s: Seq<char>, f: spec_fn(char) -> Seq<char>, k: int) -> int {
    text::concat_of(s.take(k), f).len() as int
}

proof fn lemma_parts(s: Seq<char>, f: spec_fn(char) -> Seq<char>, k: int)
    requires
        0 <= k < s.len(),
    ensures
        begins_at(s, f, k + 1) == begins_at(s, f, k) + f(s[k]).len(),
        begins_at(s, f, k + 1) <= text::concat_of(s, f).len(),
        text::concat_of(s, f).subrange(begins_at(s, f, k), begins_at(s, f, k + 1)) == f(s[k]),
        forall|j: int|
            0 <= j < f(s[k]).len() ==> text::concat_of(s, f)[begins_at(s, f, k) + j]
                == #[trigger] f(s[k])[j],
    decreases s.len(),
{
    let all = text::concat_of(s, f);
    let d = s.drop_last();
    text::lemma_concat_step(s, f, k);
    if k == s.len() - 1 {
        assert(s.take(k) =~= d);
        assert(s.take(k + 1) =~= s);
    } else {
        lemma_parts(d, f, k);
        assert(d.take(k) =~= s.take(k));
        assert(d.take(k + 1) =~= s.take(k + 1));
        let before = text::concat_of(d, f);
        let a = begins_at(s, f, k);
        let b = begins_at(s, f, k + 1);
        assert(all == before + f(s.last()));
        assert(all.subrange(a, b) =~= before.subrange(a, b));
    }
    let a = begins_at(s, f, k);
    let b = begins_at(s, f, k + 1);
    assert forall|j: int| 0 <= j < f(s[k]).len() implies all[a + j] == #[trigger] f(s[k])[j] by {
        assert(all.subrange(a, b)[j] == all[a + j]);
    }
}

proof fn lemma_replaced_step(s: Seq<char>, pat: Seq<char>, by: Seq<char>, from: int)
    requires
        pat.len() > 0,
        0 <= from < s.len(),
    ensures
        text::replaced_from(s, pat, by, from) == if text::occurs_at(s, pat, from) {
            by + text::replaced_from(s, pat, by, from + pat.len())
        } else {
            seq![s[from]] + text::replaced_from(s, pat, by, from + 1)
        },
{
    text::lemma_first_at(s, pat, from);
    text::lemma_first_at(s, pat, from + 1);
    if text::occurs_at(s, pat, from) {
        assert(s.subrange(from, from) + by =~= by);
    } else {
        match text::first_at(s, pat, from) {
            Some(i) => {
                assert(text::first_at(s, pat, from + 1) == Some(i));
                let rest = text::replaced_from(s, pat, by, i + pat.len());
                assert(s.subrange(from, i) + by + rest =~= seq![s[from]] + (s.subrange(from + 1, i)
                    + by + rest));
            },
            None => {
                assert(text::first_at(s, pat, from + 1) is None);
                assert(s.skip(from) =~= seq![s[from]] + s.skip(from + 1));
            },
        }
    }
}

proof fn lemma_replaced_run(s: Seq<char>, pat: Seq<char>, by: Seq<char>, from: int, n: nat)
    requires
        pat.len() > 0,
        0 <= from,
        from + n <= s.len(),
        forall|j: int| from <= j < from + n ==> #[trigger] s[j] != pat[0],
    ensures
        text::replaced_from(s, pat, by, from) == s.subrange(from, from + n) + text::replaced_from(
            s,
            pat,
            by,
            from + n,
        ),
    decreases n,
{
    if n == 0 {
        assert(s.subrange(from, from) + text::replaced_from(s, pat, by, from)
            =~= text::replaced_from(s, pat, by, from));
    } else {
        if text::occurs_at(s, pat, from) {
            assert(s.subrange(from, from + pat.len())[0] == s[from]);
        }
        lemma_replaced_step(s, pat, by, from);
        lemma_replaced_run(s, pat, by, from + 1, (n - 1) as nat);
        let rest = text::replaced_from(s, pat, by, from + n);
        assert(seq![s[from]] + (s.subrange(from + 1, from + n) + rest) =~= s.subrange(
            from,
            from + n,
        ) + rest);
    }
}

/// Whether the character in place `k` stays as it is written when `pat` is
/// replaced.
pub open spec fn stays(s: Seq<char>, f: spec_fn(char) -> Seq<char>, pat: Seq<char>, k: int) -> bool {
    &&& f(s[k]).len() > 0
    &&& !text::occurs_at(text::concat_of(s, f), pat, begins_at(s, f, k))
    &&& forall|j: int| 0 < j < f(s[k]).len() ==> #[trigger] f(s[k])[j] != pat[0]
}

proof fn lemma_replaced_from_char(
    s: Seq<char>,
    f: spec_fn(char) -> Seq<char>,
    g: spec_fn(char) -> Seq<char>,
    pat: Seq<char>,
    by: Seq<char>,
    k: int,
)
    requires
        pat.len() > 0,
        0 <= k <= s.len(),
        forall|i: int|
            0 <= i < s.len() ==> (f(#[trigger] s[i]) == pat && g(s[i]) == by) || (g(s[i]) == f(s[i])
                && stays(s, f, pat, i)),
    ensures
        text::concat_of(s.take(k), g) + text::replaced_from(
            text::concat_of(s, f),
            pat,
            by,
            begins_at(s, f, k),
        ) == text::concat_of(s, g),
    decreases s.len() - k,
{
    let all = text::concat_of(s, f);
    let a = begins_at(s, f, k);
    if k == s.len() {
        assert(s.take(k) =~= s);
        assert(text::first_at(all, pat, a) is None);
        assert(all.skip(a) =~= Seq::<char>::empty());
        assert(text::concat_of(s, g) + Seq::<char>::empty() =~= text::concat_of(s, g));
    } else {
        lemma_replaced_from_char(s, f, g, pat, by, k + 1);
        lemma_parts(s, f, k);
        text::lemma_concat_step(s, g, k);
        let b = begins_at(s, f, k + 1);
        let c = s[k];
        let rest = text::replaced_from(all, pat, by, b);
        assert(text::replaced_from(all, pat, by, a) == g(c) + rest) by {
            if f(c) == pat && g(c) == by {
                assert(text::occurs_at(all, pat, a));
                lemma_replaced_step(all, pat, by, a);
            } else {
                assert(stays(s, f, pat, k));
                lemma_replaced_step(all, pat, by, a);
                assert forall|j: int| a + 1 <= j < b implies #[trigger] all[j] != pat[0] by {
                    assert(all[a + (j - a)] == f(c)[j - a]);
                }
                lemma_replaced_run(all, pat, by, a + 1, (b - a - 1) as nat);
                assert(all[a] == f(c)[0]);
                assert(seq![all[a]] + (all.subrange(a + 1, b) + rest) =~= all.subrange(a, b)
                    + rest);
            }
        }
        assert(text::concat_of(s.take(k), g) + (g(c) + rest) =~= text::concat_of(s.take(k), g)
            + g(c) + rest);
    }
}

/// Replacing what one character was written as writes that character otherwise.
proof fn lemma_replaced(
    s: Seq<char>,
    f: spec_fn(char) -> Seq<char>,
    g: spec_fn(char) -> Seq<char>,
    pat: Seq<char>,
    by: Seq<char>,
)
    requires
        pat.len() > 0,
        forall|i: int|
            0 <= i < s.len() ==> (f(#[trigger] s[i]) == pat && g(s[i]) == by) || (g(s[i]) == f(s[i])
                && stays(s, f, pat, i)),
    ensures
        text::replaced(text::concat_of(s, f), pat, by) == text::concat_of(s, g),
{
    lemma_replaced_from_char(s, f, g, pat, by, 0);
    assert(s.take(0) =~= Seq::<char>::empty());
    assert(text::concat_of(s.take(0), g) + text::replaced(text::concat_of(s, f), pat, by)
        =~= text::replaced(text::concat_of(s, f), pat, by));
}

proof fn lemma_other_stays(s: Seq<char>, f: spec_fn(char) -> Seq<char>, pat: Seq<char>, k: int)
    requires
        0 <= k < s.len(),
        pat.len() > 1,
        f(s[k]).len() > 0,
        f(s[k])[0] != pat[0] || (f(s[k]).len() > 1 && f(s[k])[1] != pat[1]),
        forall|j: int| 0 < j < f(s[k]).len() ==> #[trigger] f(s[k])[j] != pat[0],
    ensures
        stays(s, f, pat, k),
{
    let all = text::concat_of(s, f);
    let a = begins_at(s, f, k);
    lemma_parts(s, f, k);
    if text::occurs_at(all, pat, a) {
        let found = all.subrange(a, a + pat.len());
        assert(found[0] == all[a]);
        assert(found[1] == all[a + 1]);
        assert(all[a + 0] == f(s[k])[0]);
        if f(s[k]).len() > 1 {
            assert(all[a + 1] == f(s[k])[1]);
        }
    }
}

/// What is found in a text in which only quotation marks are escaped was in the
/// text before.
proof fn lemma_found_before(s: Seq<char>, pat: Seq<char>, k: int, n: int)
    requires
        0 <= k < s.len(),
        s[k] == '&',
        pat.len() > 0,
        pat[0] == '&',
        forall|j: int| 0 < j < pat.len() ==> #[trigger] pat[j] != '&' && pat[j] != '"',
        text::occurs_at(
            text::concat_of(s, part_writer(false, false, false)),
            pat,
            begins_at(s, part_writer(false, false, false), k),
        ),
        1 <= n <= pat.len(),
    ensures
        k + n <= s.len(),
        begins_at(s, part_writer(false, false, false), k + n) == begins_at(
            s,
            part_writer(false, false, false),
            k,
        ) + n,
        forall|j: int| 0 <= j < n ==> s[k + j] == #[trigger] pat[j],
    decreases n,
{
    let f = part_writer(false, false, false);
    let all = text::concat_of(s, f);
    let a = begins_at(s, f, k);
    reveal_strlit("&quot;");
    lemma_parts(s, f, k);
    if n > 1 {
        lemma_found_before(s, pat, k, n - 1);
        let m = k + n - 1;
        if m == s.len() {
            assert(s.take(m) =~= s);
        }
        assert(m < s.len());
        lemma_parts(s, f, m);
        assert(all.subrange(a, a + pat.len())[n - 1] == all[a + n - 1]);
        assert(all[begins_at(s, f, m) + 0] == f(s[m])[0]);
        assert(pat[n - 1] == f(s[m])[0]);
    }
}

proof fn lemma_absent_stays(s: Seq<char>, pat: Seq<char>, k: int)
    requires
        0 <= k < s.len(),
        s[k] != '"',
        pat.len() > 0,
        pat[0] == '&',
        forall|j: int| 0 < j < pat.len() ==> #[trigger] pat[j] != '&' && pat[j] != '"',
        !text::has_text(s, pat),
    ensures
        stays(s, part_writer(false, false, false), pat, k),
{
    let f = part_writer(false, false, false);
    let all = text::concat_of(s, f);
    let a = begins_at(s, f, k);
    lemma_parts(s, f, k);
    if text::occurs_at(all, pat, a) {
        assert(all.subrange(a, a + pat.len())[0] == all[a]);
        assert(all[a + 0] == f(s[k])[0]);
        lemma_found_before(s, pat, k, pat.len() as int);
        assert(s.subrange(k, k + pat.len()) =~= pat);
        assert(text::occurs_at(s, pat, k));
    }
}

proof fn lemma_plain(s: Seq<char>)
    ensures
        text::concat_of(s, plain_writer()) == s,
    decreases s.len(),
{
    if s.len() > 0 {
        lemma_plain(s.drop_last());
        assert(s.drop_last() + seq![s.last()] =~= s);
    } else {
        assert(s =~= Seq::<char>::empty());
    }
}

proof fn lemma_same_writer(
    s: Seq<char>,
    f: spec_fn(char) -> Seq<char>,
    g: spec_fn(char) -> Seq<char>,
)
    requires
        forall|c: char| #[trigger] f(c) == g(c),
    ensures
        text::concat_of(s, f) == text::concat_of(s, g),
    decreases s.len(),
{
    if s.len() > 0 {
        lemma_same_writer(s.drop_last(), f, g);
        assert(f(s.last()) == g(s.last()));
    }
}

/// Decoding the entities of an escaped text gives the text back, unless it holds
/// `&quot;` or `&apos;` as text: what stands behind an escaped ampersand is then
/// taken for another entity.
pub proof fn law_decoding_undoes_escaping(s: Seq<char>)
    requires
        !text::has_text(s, "&quot;"@),
        !text::has_text(s, "&apos;"@),
    ensures
        loca::decoded(lsx_writer::escaped(s)) == s,
{
    reveal_strlit("&amp;");
    reveal_strlit("&lt;");
    reveal_strlit("&gt;");
    reveal_strlit("&quot;");
    reveal_strlit("&apos;");
    reveal_strlit("<");
    reveal_strlit(">");
    reveal_strlit("&");
    reveal_strlit("'");
    reveal_strlit("\"");
    assert("<"@ =~= seq!['<']);
    assert(">"@ =~= seq!['>']);
    assert("&"@ =~= seq!['&']);
    assert("\""@ =~= seq!['"']);
    let f0 = part_writer(true, true, true);
    let f1 = part_writer(false, true, true);
    let f2 = part_writer(false, false, true);
    let f3 = part_writer(false, false, false);
    lemma_same_writer(s, lsx_writer::char_writer(), f0);
    assert forall|i: int| 0 <= i < s.len() implies (f0(#[trigger] s[i]) == "&lt;"@ && f1(s[i])
        == "<"@) || (f1(s[i]) == f0(s[i]) && stays(s, f0, "&lt;"@, i)) by {
        if s[i] != '<' {
            lemma_other_stays(s, f0, "&lt;"@, i);
        }
    }
    lemma_replaced(s, f0, f1, "&lt;"@, "<"@);
    assert forall|i: int| 0 <= i < s.len() implies (f1(#[trigger] s[i]) == "&gt;"@ && f2(s[i])
        == ">"@) || (f2(s[i]) == f1(s[i]) && stays(s, f1, "&gt;"@, i)) by {
        if s[i] != '>' {
            lemma_other_stays(s, f1, "&gt;"@, i);
        }
    }
    lemma_replaced(s, f1, f2, "&gt;"@, ">"@);
    assert forall|i: int| 0 <= i < s.len() implies (f2(#[trigger] s[i]) == "&amp;"@ && f3(s[i])
        == "&"@) || (f3(s[i]) == f2(s[i]) && stays(s, f2, "&amp;"@, i)) by {
        if s[i] != '&' {
            lemma_other_stays(s, f2, "&amp;"@, i);
        }
    }
    lemma_replaced(s, f2, f3, "&amp;"@, "&"@);
    assert forall|i: int| 0 <= i < s.len() implies (f3(#[trigger] s[i]) == "&apos;"@ && f3(s[i])
        == "'"@) || (f3(s[i]) == f3(s[i]) && stays(s, f3, "&apos;"@, i)) by {
        if s[i] == '"' {
            lemma_other_stays(s, f3, "&apos;"@, i);
        } else {
            lemma_absent_stays(s, "&apos;"@, i);
        }
    }
    lemma_replaced(s, f3, f3, "&apos;"@, "'"@);
    let plain = plain_writer();
    assert forall|i: int| 0 <= i < s.len() implies (f3(#[trigger] s[i]) == "&quot;"@ && plain(s[i])
        == "\""@) || (plain(s[i]) == f3(s[i]) && stays(s, f3, "&quot;"@, i)) by {
        if s[i] != '"' {
            lemma_absent_stays(s, "&quot;"@, i);
        }
    }
    lemma_replaced(s, f3, plain, "&quot;"@, "\""@);
    lemma_plain(s);
}

} // verus!
