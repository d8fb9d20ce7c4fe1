//! The pieces that the stats text files are made of.

use vstd::prelude::*;
use vstd::string::*;
use crate::text;
use crate::text::{chars_of, contains, ends_with, position_of, text_of, to_ascii_lower, trim, white};

verus! {

// ---------------------------------------------------------------------------
// Comma-separated values
// ---------------------------------------------------------------------------

/// The first place at or after `i` that holds neither a space nor a tab.
pub open spec fn past_blanks(s: Seq<char>, i: int) -> int
    decreases s.len() - i,
{
    if 0 <= i < s.len() && (s[i] == ' ' || s[i] == '\t') {
        past_blanks(s, i + 1)
    } else {
        i
    }
}

/// The first place at or after `i` that holds no comma, space or tab.
pub open spec fn past_commas(s: Seq<char>, i: int) -> int
    decreases s.len() - i,
{
    if 0 <= i < s.len() && (s[i] == ',' || s[i] == ' ' || s[i] == '\t') {
        past_commas(s, i + 1)
    } else {
        i
    }
}

/// The place after `i`, or the end.
pub open spec fn next_or_end(s: Seq<char>, i: int) -> int {
    if i < s.len() {
        i + 1
    } else {
        s.len() as int
    }
}

/// Skipping goes forward and stays in the text.
pub proof fn lemma_past(s: Seq<char>, i: int)
    requires
        0 <= i <= s.len(),
    ensures
        i <= past_blanks(s, i) <= s.len(),
        i <= past_commas(s, i) <= s.len(),
    decreases s.len() - i,
{
    if i < s.len() {
        lemma_past(s, i + 1);
    }
}

/// The values of a line from place `i` on. A value in quotation marks is taken
/// as it stands, any other one up to the next comma and without the white space
/// around it; two commas in a row hold an empty value.
pub open spec fn csv_from(s: Seq<char>, i: int) -> Seq<Seq<char>>
    decreases s.len() - i,
{
    let j = past_blanks(s, i);
    if i < 0 || i > s.len() || j >= s.len() {
        Seq::empty()
    } else if s[j] == '"' {
        let e = text::char_at_or_end(s, '"', j + 1);
        proof {
            lemma_past(s, i);
            text::lemma_char_at_or_end(s, '"', j + 1);
            lemma_past(s, next_or_end(s, e));
        }
        seq![s.subrange(j + 1, e)] + csv_from(s, past_commas(s, next_or_end(s, e)))
    } else if s[j] == ',' {
        proof {
            lemma_past(s, i);
        }
        seq![Seq::<char>::empty()] + csv_from(s, j + 1)
    } else {
        let e = text::char_at_or_end(s, ',', j);
        proof {
            lemma_past(s, i);
            text::lemma_char_at_or_end(s, ',', j);
        }
        seq![text::trimmed(s.subrange(j, e))] + csv_from(s, next_or_end(s, e))
    }
}

fn skip_blanks(v: &Vec<char>, from: usize) -> (r: usize)
    requires
        from <= v@.len(),
    ensures
        r == past_blanks(v@, from as int),
        from <= r <= v@.len(),
{
    let mut i: usize = from;
    while i < v.len() && (v[i] == ' ' || v[i] == '\t')
        invariant
            from <= i <= v@.len(),
            past_blanks(v@, from as int) == past_blanks(v@, i as int),
        decreases v@.len() - i,
    {
        i += 1;
    }
    i
}

fn skip_commas(v: &Vec<char>, from: usize) -> (r: usize)
    requires
        from <= v@.len(),
    ensures
        r == past_commas(v@, from as int),
        from <= r <= v@.len(),
{
    let mut i: usize = from;
    while i < v.len() && (v[i] == ',' || v[i] == ' ' || v[i] == '\t')
        invariant
            from <= i <= v@.len(),
            past_commas(v@, from as int) == past_commas(v@, i as int),
        decreases v@.len() - i,
    {
        i += 1;
    }
    i
}

/// The comma-separated values of a line.
#[verifier::loop_isolation(false)]
pub fn parse_csv_values(input: &str) -> (r: Vec<String>)
    ensures
        r.deep_view() == csv_from(input@, 0),
{
    let v = chars_of(input);
    let ghost s = input@;
    let mut r: Vec<String> = Vec::new();
    let mut i: usize = 0;
    assert(r.deep_view() + csv_from(s, 0) =~= csv_from(s, 0));
    while i < v.len()
        invariant
            i <= v@.len(),
            r.deep_view() + csv_from(s, i as int) == csv_from(s, 0),
        decreases v@.len() - i,
    {
        let ghost before = r.deep_view();
        let j: usize = skip_blanks(&v, i);
        if j >= v.len() {
            assert(r.deep_view() =~= csv_from(s, 0));
            return r;
        }
        if v[j] == '"' {
            let e: usize = position_of(&v, '"', j + 1);
            r.push(text_of(&v, j + 1, e));
            let n: usize = if e < v.len() { e + 1 } else { e };
            let k: usize = skip_commas(&v, n);
            assert(r.deep_view() =~= before.push(s.subrange(j + 1, e as int)));
            assert(r.deep_view() + csv_from(s, k as int) =~= before + csv_from(s, i as int));
            i = k;
        } else if v[j] == ',' {
            r.push(String::new());
            assert(r.deep_view() =~= before.push(Seq::<char>::empty()));
            assert(r.deep_view() + csv_from(s, j + 1) =~= before + csv_from(s, i as int));
            i = j + 1;
        } else {
            let e: usize = position_of(&v, ',', j);
            let raw = text_of(&v, j, e);
            r.push(trim(raw.as_str()));
            let n: usize = if e < v.len() { e + 1 } else { e };
            assert(r.deep_view() =~= before.push(text::trimmed(s.subrange(j as int, e as int))));
            assert(r.deep_view() + csv_from(s, n as int) =~= before + csv_from(s, i as int));
            proof {
                text::lemma_char_at_or_end(s, ',', j as int);
            }
            i = n;
        }
    }
    assert(csv_from(s, i as int) =~= Seq::<Seq<char>>::empty());
    assert(r.deep_view() =~= csv_from(s, 0));
    r
}

// ---------------------------------------------------------------------------
// Words and quoted names
// ---------------------------------------------------------------------------

/// Whether a character ends a keyword.
pub open spec fn ends_word(c: char) -> bool {
    text::is_white(c) || c == '"'
}

/// The first run of characters that do not end a keyword.
pub open spec fn first_word(s: Seq<char>) -> Seq<char>
    decreases s.len(),
{
    if s.len() > 0 && ends_word(s[0]) {
        first_word(s.drop_first())
    } else {
        leading_word(s)
    }
}

/// The characters up to the first that ends a keyword.
pub open spec fn leading_word(s: Seq<char>) -> Seq<char>
    decreases s.len(),
{
    if s.len() > 0 && !ends_word(s[0]) {
        seq![s[0]] + leading_word(s.drop_first())
    } else {
        Seq::empty()
    }
}

/// The first keyword of a text, which is empty where there is none.
#[verifier::loop_isolation(false)]
pub fn keyword_of(s: &str) -> (r: String)
    ensures
        r@ == first_word(s@),
{
    let v = chars_of(s);
    let mut i: usize = 0;
    assert(s@.skip(0) =~= s@);
    while i < v.len() && (white(v[i]) || v[i] == '"')
        invariant
            i <= v@.len(),
            first_word(s@.skip(i as int)) == first_word(s@),
        decreases v@.len() - i,
    {
        assert(s@.skip(i as int).drop_first() =~= s@.skip(i + 1));
        i += 1;
    }
    assert(first_word(s@) == leading_word(s@.skip(i as int)));
    let mut r = String::new();
    while i < v.len() && !white(v[i]) && v[i] != '"'
        invariant
            i <= v@.len(),
            r@ + leading_word(s@.skip(i as int)) == first_word(s@),
        decreases v@.len() - i,
    {
        let ghost before = r@;
        r.push(v[i]);
        assert(s@.skip(i as int).drop_first() =~= s@.skip(i + 1));
        assert(r@ + leading_word(s@.skip(i + 1)) =~= before + leading_word(s@.skip(i as int)));
        i += 1;
    }
    assert(r@ =~= first_word(s@));
    r
}

/// The text up to the next quotation mark, where there is one.
pub open spec fn until_quote(s: Seq<char>) -> Option<Seq<char>> {
    let e = text::char_at_or_end(s, '"', 0);
    if 0 <= e < s.len() {
        Some(s.take(e))
    } else {
        None
    }
}

/// The text up to the next quotation mark, where there is one.
pub fn before_quote(s: &str) -> (r: Option<String>)
    ensures
        r.deep_view() == until_quote(s@),
{
    let v = chars_of(s);
    let e: usize = position_of(&v, '"', 0);
    if e < v.len() {
        assert(v@.subrange(0, e as int) =~= v@.take(e as int));
        Some(text_of(&v, 0, e))
    } else {
        None
    }
}

/// The text from the first quotation mark on, where there is one.
pub open spec fn from_quote(s: Seq<char>) -> Option<Seq<char>> {
    let e = text::char_at_or_end(s, '"', 0);
    if 0 <= e < s.len() {
        Some(s.skip(e))
    } else {
        None
    }
}

/// The text from the first quotation mark on, where there is one.
pub fn quoted_rest(s: &str) -> (r: Option<String>)
    ensures
        r.deep_view() == from_quote(s@),
{
    let v = chars_of(s);
    let e: usize = position_of(&v, '"', 0);
    if e < v.len() {
        assert(v@.subrange(e as int, v@.len() as int) =~= v@.skip(e as int));
        Some(text_of(&v, e, v.len()))
    } else {
        None
    }
}

/// The first place at or after `i` that holds no white space.
pub open spec fn past_white(s: Seq<char>, i: int) -> int
    decreases s.len() - i,
{
    if 0 <= i < s.len() && text::is_white(s[i]) {
        past_white(s, i + 1)
    } else {
        i
    }
}

/// The place behind `word`, in any case, and the white space that must follow
/// it.
pub open spec fn past_word(s: Seq<char>, word: Seq<char>, i: int) -> Option<int> {
    let e = i + word.len();
    if 0 <= i && e < s.len() && text::ascii_lowered(s.subrange(i, e)) == word && text::is_white(
        s[e],
    ) {
        Some(past_white(s, e))
    } else {
        None
    }
}

/// Whether a line opens an entry: `new entry "`, with any white space between
/// the parts and in any case.
pub open spec fn opens_entry(s: Seq<char>) -> bool {
    match past_word(s, "new"@, 0) {
        Some(i) => match past_word(s, "entry"@, i) {
            Some(j) => j < s.len() && s[j] == '"',
            None => false,
        },
        None => false,
    }
}

#[verifier::loop_isolation(false)]
fn skip_word(v: &Vec<char>, word: &str, i: usize) -> (r: Option<usize>)
    requires
        i <= v@.len(),
    ensures
        match r {
            Some(j) => j <= v@.len() && past_word(v@, word@, i as int) == Some(j as int),
            None => past_word(v@, word@, i as int) is None,
        },
{
    let n: usize = chars_of(word).len();
    if v.len() - i <= n {
        return None;
    }
    let head = text_of(v, i, i + n);
    let lower = to_ascii_lower(head.as_str());
    if !text::text_eq(lower.as_str(), word) || !white(v[i + n]) {
        return None;
    }
    let mut k: usize = i + n;
    while k < v.len() && white(v[k])
        invariant
            i + n <= k <= v@.len(),
            past_white(v@, i + n) == past_white(v@, k as int),
        decreases v@.len() - k,
    {
        k += 1;
    }
    Some(k)
}

/// Whether a line opens an entry.
pub fn is_new_entry(line: &str) -> (r: bool)
    ensures
        r == opens_entry(line@),
{
    let v = chars_of(line);
    match skip_word(&v, "new", 0) {
        Some(i) => match skip_word(&v, "entry", i) {
            Some(j) => j < v.len() && v[j] == '"',
            None => false,
        },
        None => false,
    }
}

/// The upper-case form of a character, which may be several characters: what
/// `char::to_uppercase` yields.
pub uninterp spec fn upper_case(c: char) -> Seq<char>;

/// Calls `char::to_uppercase` and collects what it yields. The mapping is that
/// of Unicode; it depends on the character alone. Of ASCII characters it changes
/// the letters `a` to `z`, and no others.
#[verifier::external_body]
fn to_upper(c: char) -> (r: String)
    ensures
        r@ == upper_case(c),
        (c as u32) < 128 ==> r@ == seq![text::ascii_upper(c)],
{
    c.to_uppercase().collect::<String>()
}

/// `s` with its first character replaced by `upper`.
pub open spec fn with_first(upper: Seq<char>, s: Seq<char>) -> Seq<char> {
    if s.len() == 0 {
        s
    } else {
        upper + s.drop_first()
    }
}

/// `s` with its first character in upper case.
pub open spec fn capitalized(s: Seq<char>) -> Seq<char> {
    with_first(upper_case(s[0]), s)
}

/// `s` with its first character replaced by `upper`.
pub fn replace_first(upper: &str, s: &str) -> (r: String)
    ensures
        r@ == with_first(upper@, s@),
{
    let v = chars_of(s);
    if v.len() == 0 {
        return text::owned(s);
    }
    let mut r = text::owned(upper);
    let rest = text_of(&v, 1, v.len());
    r.append(rest.as_str());
    assert(r@ =~= upper@ + s@.drop_first());
    r
}

/// The text with its first character in upper case.
pub fn capitalize_first(s: &str) -> (r: String)
    ensures
        r@ == capitalized(s@),
        s@.len() > 0 && (s@[0] as u32) < 128 ==> r@ == with_first(
            seq![text::ascii_upper(s@[0])],
            s@,
        ),
{
    let v = chars_of(s);
    if v.len() == 0 {
        return String::new();
    }
    let upper = to_upper(v[0]);
    replace_first(upper.as_str(), s)
}

// ---------------------------------------------------------------------------
// Localized columns
// ---------------------------------------------------------------------------

/// Whether a stats column holds a localization handle and its version: it is a
/// name or a description, and not the parameters of one.
pub open spec fn loca_column(col: Seq<char>) -> bool {
    let lower = text::ascii_lowered(col);
    &&& !"_version"@.is_suffix_of(lower)
    &&& text::has_text(lower, "displayname"@) || text::has_text(lower, "description"@)
    &&& !text::has_text(lower, "params"@)
}

/// Whether a stats column holds a localization handle and its version.
pub fn is_stats_loca_column(col_name: &str) -> (r: bool)
    ensures
        r == loca_column(col_name@),
{
    let lower = to_ascii_lower(col_name);
    let l = lower.as_str();
    !ends_with(l, "_version") && (contains(l, "displayname") || contains(l, "description"))
        && !contains(l, "params")
}

} // verus!
