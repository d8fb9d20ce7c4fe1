//! Text as sequences of characters: comparison, searching, splitting, trimming
//! and decimal notation.

use vstd::prelude::*;
use vstd::string::*;

verus! {

/// `String::push` appends one character to the end of the string.
pub assume_specification[ String::push ](s: &mut String, c: char)
    ensures
        final(s)@ == old(s)@.push(c),
;

/// `==` on `str` compares the two texts character by character.
pub assume_specification[ <str as PartialEq>::eq ](a: &str, b: &str) -> (r: bool)
    ensures
        r == (a@ == b@),
;

/// Calls `String::from_utf8`: it gives the text that the bytes encode, and fails
/// where they are not valid UTF-8. What the error says is left to the standard
/// library.
#[verifier::external_body]
pub(crate) fn from_utf8(bytes: &Vec<u8>) -> (r: Result<String, String>)
    ensures
        match r {
            Ok(s) => vstd::utf8::valid_utf8(bytes@) && s@ == vstd::utf8::decode_utf8(bytes@),
            Err(_) => !vstd::utf8::valid_utf8(bytes@),
        },
{
    String::from_utf8(bytes.clone()).map_err(|e| e.to_string())
}

/// Whether two texts are the same.
pub fn text_eq(a: &str, b: &str) -> (r: bool)
    ensures
        r == (a@ == b@),
{
    *a == *b
}

/// A fresh `String` with the given text.
pub fn owned(s: &str) -> (r: String)
    ensures
        r@ == s@,
{
    s.to_owned()
}

/// The characters of a text.
pub fn chars_of(s: &str) -> (v: Vec<char>)
    ensures
        v@ == s@,
{
    let mut v: Vec<char> = Vec::new();
    for c in it: s.chars()
        invariant
            v@ == it.seq().take(it.index() as int),
            it.seq() == s@,
    {
        v.push(c);
    }
    v
}

/// The text made of the characters from `from` up to (not with) `to`.
#[verifier::loop_isolation(false)]
pub fn text_of(v: &Vec<char>, from: usize, to: usize) -> (s: String)
    requires
        from <= to <= v@.len(),
    ensures
        s@ == v@.subrange(from as int, to as int),
{
    let mut s = String::new();
    let mut i: usize = from;
    while i < to
        invariant
            from <= i <= to,
            s@ == v@.subrange(from as int, i as int),
        decreases to - i,
    {
        s.push(v[i]);
        i += 1;
    }
    s
}


// ---------------------------------------------------------------------------
// Characters
// ---------------------------------------------------------------------------

/// The characters with the Unicode `White_Space` property.
pub open spec fn is_white(c: char) -> bool {
    ||| '\u{9}' <= c <= '\u{d}'
    ||| c == ' '
    ||| c == '\u{85}'
    ||| c == '\u{a0}'
    ||| c == '\u{1680}'
    ||| '\u{2000}' <= c <= '\u{200a}'
    ||| c == '\u{2028}'
    ||| c == '\u{2029}'
    ||| c == '\u{202f}'
    ||| c == '\u{205f}'
    ||| c == '\u{3000}'
}

/// Whether a character is white space.
pub fn white(c: char) -> (r: bool)
    ensures
        r == is_white(c),
{
    ('\u{9}' <= c && c <= '\u{d}') || c == ' ' || c == '\u{85}' || c == '\u{a0}' || c == '\u{1680}'
        || ('\u{2000}' <= c && c <= '\u{200a}') || c == '\u{2028}' || c == '\u{2029}' || c
        == '\u{202f}' || c == '\u{205f}' || c == '\u{3000}'
}

/// ASCII letters and digits.
pub open spec fn is_ascii_alnum(c: char) -> bool {
    ||| 'a' <= c <= 'z'
    ||| 'A' <= c <= 'Z'
    ||| '0' <= c <= '9'
}

/// ASCII letters, digits and the underscore.
pub open spec fn is_word(c: char) -> bool {
    is_ascii_alnum(c) || c == '_'
}

/// Whether a character is an ASCII letter or digit or an underscore.
pub fn word_char(c: char) -> (r: bool)
    ensures
        r == is_word(c),
{
    ('a' <= c && c <= 'z') || ('A' <= c && c <= 'Z') || ('0' <= c && c <= '9') || c == '_'
}

/// The lower-case form of an ASCII letter; every other character is itself.
pub open spec fn ascii_lower(c: char) -> char {
    if 'A' <= c <= 'Z' {
        (c as u32 + 32) as char
    } else {
        c
    }
}

/// The upper-case form of an ASCII letter; any other character stays as it is.
pub open spec fn ascii_upper(c: char) -> char {
    if 'a' <= c <= 'z' {
        (c as u32 - 32) as char
    } else {
        c
    }
}

/// Whether all characters of a text are those of ASCII.
pub open spec fn all_ascii(s: Seq<char>) -> bool {
    forall|i: int| 0 <= i < s.len() ==> (#[trigger] s[i] as u32) < 128
}

/// The lower-case form of an ASCII letter.
pub fn lower_char(c: char) -> (r: char)
    ensures
        r == ascii_lower(c),
{
    if 'A' <= c && c <= 'Z' {
        let n: u8 = c as u8;
        let m: u8 = n + 32;
        m as char
    } else {
        c
    }
}

/// A text with its ASCII letters in lower case.
pub open spec fn ascii_lowered(s: Seq<char>) -> Seq<char> {
    s.map_values(|c: char| ascii_lower(c))
}

/// The text with its ASCII letters in lower case.
#[verifier::loop_isolation(false)]
pub fn to_ascii_lower(s: &str) -> (r: String)
    ensures
        r@ == ascii_lowered(s@),
{
    let v = chars_of(s);
    let mut r = String::new();
    let mut i: usize = 0;
    while i < v.len()
        invariant
            i <= v@.len(),
            r@ == ascii_lowered(s@.take(i as int)),
        decreases v@.len() - i,
    {
        r.push(lower_char(v[i]));
        i += 1;
        assert(s@.take(i as int) =~= s@.take(i - 1).push(s@[i - 1]));
        assert(r@ =~= ascii_lowered(s@.take(i as int)));
    }
    assert(s@.take(i as int) =~= s@);
    r
}

/// Whether two texts are equal up to the case of ASCII letters.
pub fn eq_ignore_case(a: &str, b: &str) -> (r: bool)
    ensures
        r == (ascii_lowered(a@) == ascii_lowered(b@)),
{
    let x = to_ascii_lower(a);
    let y = to_ascii_lower(b);
    text_eq(x.as_str(), y.as_str())
}

// ---------------------------------------------------------------------------
// Searching
// ---------------------------------------------------------------------------

/// Whether `pat` stands in `s` at position `i`.
pub open spec fn occurs_at(s: Seq<char>, pat: Seq<char>, i: int) -> bool {
    0 <= i && i + pat.len() <= s.len() && s.subrange(i, i + pat.len()) == pat
}

/// Whether `pat` stands somewhere in `s`.
pub open spec fn has_text(s: Seq<char>, pat: Seq<char>) -> bool {
    exists|i: int| occurs_at(s, pat, i)
}

/// The position of the first occurrence of `pat` in `s` at or after `from`.
pub open spec fn first_at(s: Seq<char>, pat: Seq<char>, from: int) -> Option<int>
    decreases s.len() - from + 1,
{
    if from < 0 || from + pat.len() > s.len() {
        None
    } else if occurs_at(s, pat, from) {
        Some(from)
    } else {
        first_at(s, pat, from + 1)
    }
}

/// The position of the first occurrence of a character at or after `from`,
/// or the length of the text.
pub open spec fn char_at_or_end(s: Seq<char>, c: char, from: int) -> int
    decreases s.len() - from,
{
    if from < 0 || from >= s.len() {
        s.len() as int
    } else if s[from] == c {
        from
    } else {
        char_at_or_end(s, c, from + 1)
    }
}

/// `char_at_or_end` is the first position that holds the character.
pub proof fn lemma_char_at_or_end(s: Seq<char>, c: char, from: int)
    requires
        0 <= from <= s.len(),
    ensures
        from <= char_at_or_end(s, c, from) <= s.len(),
        forall|k: int| from <= k < char_at_or_end(s, c, from) ==> s[k] != c,
        char_at_or_end(s, c, from) < s.len() ==> s[char_at_or_end(s, c, from)] == c,
    decreases s.len() - from,
{
    if from < s.len() && s[from] != c {
        lemma_char_at_or_end(s, c, from + 1);
    }
}

/// A text is found by `first_at` if and only if it occurs at or after `from`.
pub proof fn lemma_first_at(s: Seq<char>, pat: Seq<char>, from: int)
    requires
        0 <= from,
    ensures
        match first_at(s, pat, from) {
            Some(i) => from <= i && occurs_at(s, pat, i) && (forall|k: int|
                from <= k < i ==> !occurs_at(s, pat, k)),
            None => forall|k: int| from <= k ==> !occurs_at(s, pat, k),
        },
    decreases s.len() - from + 1,
{
    if from + pat.len() <= s.len() && !occurs_at(s, pat, from) {
        lemma_first_at(s, pat, from + 1);
    }
}

/// Whether `pat` stands in `v` at position `i`.
#[verifier::loop_isolation(false)]
pub fn stands_at(v: &Vec<char>, pat: &Vec<char>, i: usize) -> (r: bool)
    ensures
        r == occurs_at(v@, pat@, i as int),
{
    if v.len() < pat.len() || v.len() - pat.len() < i {
        return false;
    }
    let mut k: usize = 0;
    while k < pat.len()
        invariant
            i + pat@.len() <= v@.len(),
            k <= pat@.len(),
            forall|j: int| 0 <= j < k ==> v@[i + j] == pat@[j],
        decreases pat@.len() - k,
    {
        if v[i + k] != pat[k] {
            assert(v@.subrange(i as int, i + pat@.len())[k as int] != pat@[k as int]);
            return false;
        }
        k += 1;
    }
    assert(v@.subrange(i as int, i + pat@.len()) =~= pat@);
    true
}

/// The first position at or after `from` where `pat` stands.
pub fn find_from(v: &Vec<char>, pat: &Vec<char>, from: usize) -> (r: Option<usize>)
    ensures
        match r {
            Some(i) => first_at(v@, pat@, from as int) == Some(i as int),
            None => first_at(v@, pat@, from as int) is None,
        },
{
    let mut i: usize = from;
    while i <= v.len() && pat.len() <= v.len() - i
        invariant
            from <= i,
            first_at(v@, pat@, from as int) == first_at(v@, pat@, i as int),
        decreases v@.len() - i,
    {
        if stands_at(v, pat, i) {
            return Some(i);
        }
        assert(pat@.len() == 0 ==> v@.subrange(i as int, i as int) =~= pat@);
        i += 1;
    }
    None
}

/// The first position at or after `from` that holds `c`, or the length.
pub fn position_of(v: &Vec<char>, c: char, from: usize) -> (r: usize)
    requires
        from <= v@.len(),
    ensures
        r == char_at_or_end(v@, c, from as int),
        from <= r <= v@.len(),
{
    let mut i: usize = from;
    while i < v.len()
        invariant
            from <= i <= v@.len(),
            char_at_or_end(v@, c, from as int) == char_at_or_end(v@, c, i as int),
        decreases v@.len() - i,
    {
        if v[i] == c {
            return i;
        }
        i += 1;
    }
    i
}

/// Whether `pat` stands somewhere in `s`.
pub fn contains(s: &str, pat: &str) -> (r: bool)
    ensures
        r == has_text(s@, pat@),
{
    let v = chars_of(s);
    let p = chars_of(pat);
    proof {
        lemma_first_at(s@, pat@, 0);
    }
    find_from(&v, &p, 0).is_some()
}

/// Whether `s` begins with `pat`.
pub fn starts_with(s: &str, pat: &str) -> (r: bool)
    ensures
        r == pat@.is_prefix_of(s@),
{
    let v = chars_of(s);
    let p = chars_of(pat);
    stands_at(&v, &p, 0)
}

/// Whether `s` ends with `pat`.
pub fn ends_with(s: &str, pat: &str) -> (r: bool)
    ensures
        r == pat@.is_suffix_of(s@),
{
    let v = chars_of(s);
    let p = chars_of(pat);
    if v.len() < p.len() {
        return false;
    }
    let at: usize = v.len() - p.len();
    stands_at(&v, &p, at)
}

/// What follows `pat` in a text that begins with it.
pub open spec fn stripped(s: Seq<char>, pat: Seq<char>) -> Option<Seq<char>> {
    if pat.is_prefix_of(s) {
        Some(s.skip(pat.len() as int))
    } else {
        None
    }
}

/// What follows `pat` in a text that begins with it.
pub fn strip_prefix(s: &str, pat: &str) -> (r: Option<String>)
    ensures
        r.deep_view() == stripped(s@, pat@),
{
    let v = chars_of(s);
    let p = chars_of(pat);
    if stands_at(&v, &p, 0) {
        Some(text_of(&v, p.len(), v.len()))
    } else {
        None
    }
}

/// What follows `pat`, in any case of its ASCII letters, in a text that begins
/// with it.
pub open spec fn stripped_any_case(s: Seq<char>, pat: Seq<char>) -> Option<Seq<char>> {
    let n = pat.len() as int;
    if n <= s.len() && ascii_lowered(s.take(n)) == ascii_lowered(pat) {
        Some(s.skip(n))
    } else {
        None
    }
}

/// What follows `pat`, in any case of its ASCII letters, in a text that begins
/// with it.
pub fn strip_prefix_ci(s: &str, pat: &str) -> (r: Option<String>)
    ensures
        r.deep_view() == stripped_any_case(s@, pat@),
{
    let v = chars_of(s);
    let n: usize = chars_of(pat).len();
    if n <= v.len() {
        let head = text_of(&v, 0, n);
        assert(v@.subrange(0, n as int) =~= v@.take(n as int));
        if eq_ignore_case(head.as_str(), pat) {
            assert(v@.subrange(n as int, v@.len() as int) =~= v@.skip(n as int));
            return Some(text_of(&v, n, v.len()));
        }
    }
    None
}

/// Whether a list of texts holds `key`.
pub open spec fn listed(list: Seq<Seq<char>>, key: Seq<char>) -> bool {
    list.contains(key)
}

/// Whether a list of texts holds `key`.
#[verifier::loop_isolation(false)]
pub fn list_has(list: &Vec<String>, key: &str) -> (r: bool)
    ensures
        r == listed(list.deep_view(), key@),
{
    let mut i: usize = 0;
    while i < list.len()
        invariant
            i <= list@.len(),
            forall|k: int| 0 <= k < i ==> list.deep_view()[k] != key@,
        decreases list@.len() - i,
    {
        if text_eq(list[i].as_str(), key) {
            assert(list.deep_view()[i as int] == key@);
            return true;
        }
        i += 1;
    }
    false
}

/// Whether one of the texts of `list` stands in `s`.
pub open spec fn has_any(s: Seq<char>, list: Seq<Seq<char>>) -> bool {
    exists|k: int| 0 <= k < list.len() && has_text(s, #[trigger] list[k])
}

// ---------------------------------------------------------------------------
// Changing and splitting
// ---------------------------------------------------------------------------

/// A text with every `from` replaced by `to`.
pub open spec fn swapped(s: Seq<char>, from: char, to: char) -> Seq<char> {
    s.map_values(|c: char| if c == from { to } else { c })
}

/// The text with every `from` replaced by `to`.
#[verifier::loop_isolation(false)]
pub fn replace_char(s: &str, from: char, to: char) -> (r: String)
    ensures
        r@ == swapped(s@, from, to),
{
    let v = chars_of(s);
    let mut r = String::new();
    let mut i: usize = 0;
    while i < v.len()
        invariant
            i <= v@.len(),
            r@ == swapped(s@.take(i as int), from, to),
        decreases v@.len() - i,
    {
        let c = v[i];
        r.push(if c == from { to } else { c });
        i += 1;
        assert(s@.take(i as int) =~= s@.take(i - 1).push(s@[i - 1]));
        assert(r@ =~= swapped(s@.take(i as int), from, to));
    }
    assert(s@.take(i as int) =~= s@);
    r
}

/// The pieces of a text between the occurrences of a separator.
pub open spec fn pieces(s: Seq<char>, sep: char) -> Seq<Seq<char>>
    decreases s.len(),
{
    let n = char_at_or_end(s, sep, 0);
    if 0 <= n < s.len() {
        seq![s.take(n)] + pieces(s.skip(n + 1), sep)
    } else {
        seq![s]
    }
}

/// `char_at_or_end` on a tail of a text.
pub proof fn lemma_char_at_tail(s: Seq<char>, c: char, from: int, k: int)
    requires
        0 <= from <= k <= s.len(),
    ensures
        char_at_or_end(s.skip(from), c, k - from) == char_at_or_end(s, c, k) - from,
    decreases s.len() - k,
{
    if k < s.len() && s[k] != c {
        lemma_char_at_tail(s, c, from, k + 1);
    }
}

/// The pieces of a text between the occurrences of a separator.
#[verifier::loop_isolation(false)]
pub fn split(s: &str, sep: char) -> (r: Vec<String>)
    ensures
        r.deep_view() == pieces(s@, sep),
{
    let v = chars_of(s);
    let mut r: Vec<String> = Vec::new();
    let mut pos: usize = 0;
    let mut done = false;
    assert(s@.skip(0) =~= s@);
    assert(r.deep_view() + pieces(s@.skip(0), sep) =~= pieces(s@, sep));
    while !done
        invariant
            pos <= v@.len(),
            !done ==> r.deep_view() + pieces(s@.skip(pos as int), sep) == pieces(s@, sep),
            done ==> r.deep_view() == pieces(s@, sep),
        decreases v@.len() - pos + (if done { 0int } else { 1int }),
    {
        let n: usize = position_of(&v, sep, pos);
        proof {
            lemma_char_at_tail(s@, sep, pos as int, pos as int);
        }
        let ghost before = r.deep_view();
        let ghost tail = s@.skip(pos as int);
        r.push(text_of(&v, pos, n));
        assert(v@.subrange(pos as int, n as int) =~= tail.take(n - pos));
        assert(r.deep_view() =~= before.push(tail.take(n - pos)));
        if n < v.len() {
            assert(tail.skip(n - pos + 1) =~= s@.skip(n + 1));
            assert(pieces(tail, sep) == seq![tail.take(n - pos)] + pieces(s@.skip(n + 1), sep));
            assert(r.deep_view() + pieces(s@.skip(n + 1), sep) =~= before + pieces(tail, sep));
            pos = n + 1;
        } else {
            assert(tail.take(n - pos) =~= tail);
            assert(r.deep_view() =~= before + pieces(tail, sep));
            done = true;
        }
    }
    r
}

/// A text before and after the first `c`, where it has one.
pub open spec fn halves(s: Seq<char>, c: char) -> Option<(Seq<char>, Seq<char>)> {
    let i = char_at_or_end(s, c, 0);
    if i < s.len() {
        Some((s.take(i), s.skip(i + 1)))
    } else {
        None
    }
}

/// The text before and after the first `c`, where it has one.
pub fn split_once(s: &str, c: char) -> (r: Option<(String, String)>)
    ensures
        r.deep_view() == halves(s@, c),
{
    let v = chars_of(s);
    let n: usize = v.len();
    proof {
        lemma_char_at_or_end(s@, c, 0);
    }
    let i: usize = position_of(&v, c, 0);
    if i < n {
        assert(s@.subrange(0, i as int) =~= s@.take(i as int));
        assert(s@.subrange(i + 1, n as int) =~= s@.skip(i + 1));
        Some((text_of(&v, 0, i), text_of(&v, i + 1, n)))
    } else {
        None
    }
}

/// What follows the first `pat`, where the text has it.
pub open spec fn rest_after(s: Seq<char>, pat: Seq<char>) -> Option<Seq<char>> {
    match first_at(s, pat, 0) {
        Some(i) => Some(s.skip(i + pat.len())),
        None => None,
    }
}

/// What follows the first `pat`, where the text has it.
pub fn after_text(s: &str, pat: &str) -> (r: Option<String>)
    ensures
        r.deep_view() == rest_after(s@, pat@),
{
    let v = chars_of(s);
    let p = chars_of(pat);
    let n: usize = v.len();
    proof {
        lemma_first_at(s@, pat@, 0);
    }
    match find_from(&v, &p, 0) {
        Some(i) => {
            assert(occurs_at(s@, pat@, i as int));
            assert(s@.subrange(i + pat@.len(), n as int) =~= s@.skip(i + pat@.len()));
            Some(text_of(&v, i + p.len(), n))
        },
        None => None,
    }
}

/// The text from place `from` on, with every occurrence of `pat` replaced by
/// `by`, from left to right.
pub open spec fn replaced_from(
    s: Seq<char>,
    pat: Seq<char>,
    by: Seq<char>,
    from: int,
) -> Seq<char>
    decreases s.len() - from,
{
    match first_at(s, pat, from) {
        Some(i) => if pat.len() > 0 && 0 <= from {
            proof {
                lemma_first_at(s, pat, from);
            }
            s.subrange(from, i) + by + replaced_from(s, pat, by, i + pat.len())
        } else {
            s.skip(from)
        },
        None => s.skip(from),
    }
}

/// A text with every occurrence of `pat` replaced by `by`.
pub open spec fn replaced(s: Seq<char>, pat: Seq<char>, by: Seq<char>) -> Seq<char> {
    replaced_from(s, pat, by, 0)
}

/// The text with every occurrence of `pat` replaced by `by`.
#[verifier::loop_isolation(false)]
pub fn replace_all(s: &str, pat: &str, by: &str) -> (r: String)
    requires
        pat@.len() > 0,
    ensures
        r@ == replaced(s@, pat@, by@),
{
    let v = chars_of(s);
    let p = chars_of(pat);
    let n: usize = v.len();
    let mut r = String::new();
    let mut from: usize = 0;
    let mut done = false;
    assert(r@ + replaced_from(s@, pat@, by@, 0) =~= replaced(s@, pat@, by@));
    while !done
        invariant
            from <= n,
            !done ==> r@ + replaced_from(s@, pat@, by@, from as int) == replaced(s@, pat@, by@),
            done ==> r@ == replaced(s@, pat@, by@),
        decreases n - from + (if done { 0int } else { 1int }),
    {
        let ghost before = r@;
        proof {
            lemma_first_at(s@, pat@, from as int);
        }
        match find_from(&v, &p, from) {
            Some(i) => {
                assert(occurs_at(s@, pat@, i as int));
                let piece = text_of(&v, from, i);
                r.append(piece.as_str());
                r.append(by);
                let next: usize = i + p.len();
                assert(r@ + replaced_from(s@, pat@, by@, next as int) =~= before + replaced_from(
                    s@,
                    pat@,
                    by@,
                    from as int,
                ));
                from = next;
            },
            None => {
                let piece = text_of(&v, from, n);
                r.append(piece.as_str());
                assert(s@.subrange(from as int, n as int) =~= s@.skip(from as int));
                assert(r@ =~= before + replaced_from(s@, pat@, by@, from as int));
                done = true;
            },
        }
    }
    r
}

/// A text with the first `pat` replaced by `by`.
pub open spec fn replaced_once(s: Seq<char>, pat: Seq<char>, by: Seq<char>) -> Seq<char> {
    match first_at(s, pat, 0) {
        Some(i) => s.take(i) + by + s.skip(i + pat.len()),
        None => s,
    }
}

/// The text with the first `pat` replaced by `by`.
pub fn replace_once(s: &str, pat: &str, by: &str) -> (r: String)
    ensures
        r@ == replaced_once(s@, pat@, by@),
{
    let v = chars_of(s);
    let p = chars_of(pat);
    let n: usize = v.len();
    proof {
        lemma_first_at(s@, pat@, 0);
    }
    match find_from(&v, &p, 0) {
        Some(i) => {
            assert(occurs_at(s@, pat@, i as int));
            assert(s@.subrange(0, i as int) =~= s@.take(i as int));
            assert(s@.subrange(i + pat@.len(), n as int) =~= s@.skip(i + pat@.len()));
            let mut r = text_of(&v, 0, i);
            let rest = text_of(&v, i + p.len(), n);
            r.append(by);
            r.append(rest.as_str());
            r
        },
        None => owned(s),
    }
}

/// A line without the carriage return at its end.
pub open spec fn without_cr(s: Seq<char>) -> Seq<char> {
    if s.len() > 0 && s.last() == '\r' {
        s.drop_last()
    } else {
        s
    }
}

/// The lines of a text: each ends in a line feed, with or without a carriage
/// return before it, and the last one may lack the line feed.
pub open spec fn text_lines(s: Seq<char>) -> Seq<Seq<char>>
    decreases s.len(),
{
    let n = char_at_or_end(s, '\n', 0);
    if s.len() == 0 {
        Seq::empty()
    } else if 0 <= n < s.len() {
        seq![without_cr(s.take(n))] + text_lines(s.skip(n + 1))
    } else {
        seq![s]
    }
}

/// The lines of a text.
#[verifier::loop_isolation(false)]
pub fn lines(s: &str) -> (r: Vec<String>)
    ensures
        r.deep_view() == text_lines(s@),
{
    let v = chars_of(s);
    let mut r: Vec<String> = Vec::new();
    let mut pos: usize = 0;
    assert(s@.skip(0) =~= s@);
    assert(r.deep_view() + text_lines(s@.skip(0)) =~= text_lines(s@));
    while pos < v.len()
        invariant
            pos <= v@.len(),
            r.deep_view() + text_lines(s@.skip(pos as int)) == text_lines(s@),
        decreases v@.len() - pos,
    {
        let n: usize = position_of(&v, '\n', pos);
        proof {
            lemma_char_at_tail(s@, '\n', pos as int, pos as int);
        }
        let ghost before = r.deep_view();
        let ghost tail = s@.skip(pos as int);
        if n < v.len() {
            let end: usize = if n > pos && v[n - 1] == '\r' { n - 1 } else { n };
            r.push(text_of(&v, pos, end));
            assert(v@.subrange(pos as int, end as int) =~= without_cr(tail.take(n - pos)));
            assert(r.deep_view() =~= before.push(without_cr(tail.take(n - pos))));
            assert(tail.skip(n - pos + 1) =~= s@.skip(n + 1));
            assert(r.deep_view() + text_lines(s@.skip(n + 1)) =~= before + text_lines(tail));
            pos = n + 1;
        } else {
            r.push(text_of(&v, pos, n));
            assert(v@.subrange(pos as int, n as int) =~= tail);
            assert(r.deep_view() =~= before.push(tail));
            assert(text_lines(s@.skip(n as int)) =~= Seq::<Seq<char>>::empty());
            assert(r.deep_view() + text_lines(s@.skip(n as int)) =~= before + text_lines(tail));
            pos = n;
        }
    }
    assert(text_lines(s@.skip(pos as int)) =~= Seq::<Seq<char>>::empty());
    assert(r.deep_view() =~= text_lines(s@));
    r
}

/// A text without the white space at its start.
pub open spec fn trimmed_start(s: Seq<char>) -> Seq<char>
    decreases s.len(),
{
    if s.len() > 0 && is_white(s[0]) {
        trimmed_start(s.drop_first())
    } else {
        s
    }
}

/// A text without the white space at its end.
pub open spec fn trimmed_end(s: Seq<char>) -> Seq<char>
    decreases s.len(),
{
    if s.len() > 0 && is_white(s.last()) {
        trimmed_end(s.drop_last())
    } else {
        s
    }
}

/// A text without the white space at both ends.
pub open spec fn trimmed(s: Seq<char>) -> Seq<char> {
    trimmed_end(trimmed_start(s))
}

/// The text without the white space at both ends.
#[verifier::loop_isolation(false)]
pub fn trim(s: &str) -> (r: String)
    ensures
        r@ == trimmed(s@),
{
    let v = chars_of(s);
    let mut from: usize = 0;
    assert(s@.skip(0) =~= s@);
    while from < v.len() && white(v[from])
        invariant
            from <= v@.len(),
            trimmed_start(s@.skip(from as int)) == trimmed_start(s@),
        decreases v@.len() - from,
    {
        assert(s@.skip(from as int).drop_first() =~= s@.skip(from + 1));
        from += 1;
    }
    assert(trimmed_start(s@) == s@.skip(from as int));
    let mut to: usize = v.len();
    assert(s@.subrange(from as int, to as int) =~= s@.skip(from as int));
    while to > from && white(v[to - 1])
        invariant
            from <= to <= v@.len(),
            trimmed_end(s@.subrange(from as int, to as int)) == trimmed(s@),
        decreases to,
    {
        assert(s@.subrange(from as int, to as int).drop_last() =~= s@.subrange(
            from as int,
            to - 1,
        ));
        to -= 1;
    }
    text_of(&v, from, to)
}

/// Texts in order, with a separator between each two.
pub open spec fn joined(parts: Seq<Seq<char>>, sep: Seq<char>) -> Seq<char>
    decreases parts.len(),
{
    if parts.len() == 0 {
        Seq::empty()
    } else if parts.len() == 1 {
        parts[0]
    } else {
        joined(parts.drop_last(), sep) + sep + parts.last()
    }
}

/// Texts in order, with a separator between each two.
#[verifier::loop_isolation(false)]
pub fn join(parts: &Vec<String>, sep: &str) -> (r: String)
    ensures
        r@ == joined(parts.deep_view(), sep@),
{
    let mut r = String::new();
    let mut i: usize = 0;
    while i < parts.len()
        invariant
            i <= parts@.len(),
            r@ == joined(parts.deep_view().take(i as int), sep@),
        decreases parts@.len() - i,
    {
        if i > 0 {
            r.append(sep);
        }
        r.append(parts[i].as_str());
        i += 1;
        assert(parts.deep_view().take(i as int).drop_last() =~= parts.deep_view().take(i - 1));
        assert(r@ =~= joined(parts.deep_view().take(i as int), sep@));
    }
    assert(parts.deep_view().take(i as int) =~= parts.deep_view());
    r
}

// ---------------------------------------------------------------------------
// Decimal notation
// ---------------------------------------------------------------------------

/// The decimal digit of a number below ten.
pub open spec fn digit(d: nat) -> char {
    ('0' as u32 + d) as char
}

/// A number in decimal notation.
pub open spec fn decimal(n: nat) -> Seq<char>
    decreases n,
{
    if n < 10 {
        seq![digit(n)]
    } else {
        decimal(n / 10).push(digit(n % 10))
    }
}

/// A whole number in decimal notation, with a sign where it is negative.
pub open spec fn decimal_int(n: int) -> Seq<char> {
    if n < 0 {
        seq!['-'] + decimal((-n) as nat)
    } else {
        decimal(n as nat)
    }
}

/// The number in decimal notation.
pub fn decimal_text(n: u64) -> (r: String)
    ensures
        r@ == decimal(n as nat),
    decreases n,
{
    let d: u8 = (n % 10) as u8;
    let c: u8 = 48 + d;
    let mut r = if n < 10 {
        String::new()
    } else {
        decimal_text(n / 10)
    };
    r.push(c as char);
    assert(r@ =~= decimal(n as nat));
    r
}

/// The whole number in decimal notation.
pub fn int_text(n: i64) -> (r: String)
    ensures
        r@ == decimal_int(n as int),
{
    if n < 0 {
        let mut r = owned("-");
        let m: u64 = if n == i64::MIN {
            0x8000_0000_0000_0000u64
        } else {
            (-n) as u64
        };
        let d = decimal_text(m);
        r.append(d.as_str());
        proof {
            reveal_strlit("-");
        }
        assert(r@ =~= decimal_int(n as int));
        r
    } else {
        decimal_text(n as u64)
    }
}

/// The value of a decimal digit.
pub open spec fn digit_value(c: char) -> Option<nat> {
    if '0' <= c <= '9' {
        Some((c as u32 - '0' as u32) as nat)
    } else {
        None
    }
}

/// The value of a text of decimal digits, at least one.
pub open spec fn digits_value(s: Seq<char>) -> Option<nat>
    decreases s.len(),
{
    if s.len() == 0 {
        None
    } else {
        match digit_value(s.last()) {
            None => None,
            Some(d) => if s.len() == 1 {
                Some(d)
            } else {
                match digits_value(s.drop_last()) {
                    None => None,
                    Some(v) => Some(v * 10 + d),
                }
            },
        }
    }
}

/// The number that a text denotes: an optional sign and decimal digits.
pub open spec fn number_value(s: Seq<char>) -> Option<int> {
    if s.len() > 0 && s[0] == '-' {
        match digits_value(s.skip(1)) {
            Some(v) => Some(-(v as int)),
            None => None,
        }
    } else if s.len() > 0 && s[0] == '+' {
        match digits_value(s.skip(1)) {
            Some(v) => Some(v as int),
            None => None,
        }
    } else {
        match digits_value(s) {
            Some(v) => Some(v as int),
            None => None,
        }
    }
}

/// The number that a text denotes, if it lies between the two bounds.
pub open spec fn number_within(s: Seq<char>, min: int, max: int) -> Option<int> {
    match number_value(s) {
        Some(v) => if min <= v <= max {
            Some(v)
        } else {
            None
        },
        None => None,
    }
}

/// A text of digits denotes at least what its beginning denotes, and every
/// beginning of it is made of digits.
pub proof fn lemma_digits_grow(s: Seq<char>, k: int)
    requires
        1 <= k <= s.len(),
        digits_value(s) is Some,
    ensures
        digits_value(s.take(k)) is Some,
        digits_value(s.take(k))->0 <= digits_value(s)->0,
    decreases s.len(),
{
    if k == s.len() {
        assert(s.take(k) =~= s);
    } else {
        lemma_digits_grow(s.drop_last(), k);
        assert(s.drop_last().take(k) =~= s.take(k));
    }
}

/// The number that a text denotes, if it fits the 64-bit range.
#[verifier::loop_isolation(false)]
pub fn parse_i64(s: &str) -> (r: Option<i64>)
    ensures
        match r {
            Some(n) => number_within(s@, i64::MIN as int, i64::MAX as int) == Some(n as int),
            None => number_within(s@, i64::MIN as int, i64::MAX as int) is None,
        },
{
    let v = chars_of(s);
    let negative = v.len() > 0 && v[0] == '-';
    let signed = v.len() > 0 && (v[0] == '-' || v[0] == '+');
    let start: usize = if signed { 1 } else { 0 };
    let ghost body = s@.skip(start as int);
    assert(s@.skip(0) =~= s@);
    if start == v.len() {
        return None;
    }
    let mut acc: u128 = 0;
    let mut i: usize = start;
    while i < v.len()
        invariant
            start <= i <= v@.len(),
            body == s@.skip(start as int),
            acc <= 0x8000_0000_0000_0000u128,
            i == start ==> acc == 0,
            i > start ==> digits_value(body.take(i - start)) == Some(acc as nat),
        decreases v@.len() - i,
    {
        let c = v[i];
        assert(body.take(i - start + 1).last() == c);
        assert(body.take(i - start + 1).drop_last() =~= body.take(i - start));
        if !('0' <= c && c <= '9') {
            proof {
                if digits_value(body) is Some {
                    lemma_digits_grow(body, i - start + 1);
                }
            }
            return None;
        }
        let b: u8 = c as u8;
        let d: u8 = b - 48;
        acc = acc * 10 + d as u128;
        assert(digits_value(body.take(i - start + 1)) == Some(acc as nat));
        if acc > 0x8000_0000_0000_0000u128 {
            proof {
                if digits_value(body) is Some {
                    lemma_digits_grow(body, i - start + 1);
                }
            }
            return None;
        }
        i += 1;
    }
    assert(body.take(i - start) =~= body);
    if negative {
        if acc == 0x8000_0000_0000_0000u128 {
            Some(i64::MIN)
        } else {
            Some(-(acc as i64))
        }
    } else if acc == 0x8000_0000_0000_0000u128 {
        None
    } else {
        Some(acc as i64)
    }
}

// ---------------------------------------------------------------------------
// Building
// ---------------------------------------------------------------------------

/// A run of spaces.
pub open spec fn spaces(n: nat) -> Seq<char> {
    Seq::new(n, |i: int| ' ')
}

/// A run of spaces.
#[verifier::loop_isolation(false)]
pub fn padding(n: usize) -> (r: String)
    ensures
        r@ == spaces(n as nat),
{
    let mut r = String::new();
    let mut i: usize = 0;
    while i < n
        invariant
            i <= n,
            r@ == spaces(i as nat),
        decreases n - i,
    {
        r.push(' ');
        i += 1;
        assert(r@ =~= spaces(i as nat));
    }
    r
}

/// What `f` makes of each element, one after the other.
pub open spec fn concat_of<T>(s: Seq<T>, f: spec_fn(T) -> Seq<char>) -> Seq<char>
    decreases s.len(),
{
    if s.len() == 0 {
        Seq::empty()
    } else {
        concat_of(s.drop_last(), f) + f(s.last())
    }
}

/// One element more in `concat_of`.
pub proof fn lemma_concat_step<T>(s: Seq<T>, f: spec_fn(T) -> Seq<char>, i: int)
    requires
        0 <= i < s.len(),
    ensures
        concat_of(s.take(i + 1), f) == concat_of(s.take(i), f) + f(s[i]),
{
    assert(s.take(i + 1).drop_last() =~= s.take(i));
}

/// What an optional text holds, or else the empty text.
pub open spec fn or_empty(s: Option<Seq<char>>) -> Seq<char> {
    match s {
        Some(t) => t,
        None => Seq::empty(),
    }
}

/// An optional text that is there and not empty.
pub open spec fn nonempty(s: Option<Seq<char>>) -> Option<Seq<char>> {
    match s {
        Some(t) => if t.len() > 0 {
            Some(t)
        } else {
            None
        },
        None => None,
    }
}

/// A copy of an optional text.
pub fn copy_opt(s: &Option<String>) -> (r: Option<String>)
    ensures
        r.deep_view() == s.deep_view(),
{
    match s {
        Some(t) => Some(t.clone()),
        None => None,
    }
}

/// The optional text, if it is there and not empty.
pub fn keep_nonempty(s: &Option<String>) -> (r: Option<String>)
    ensures
        r.deep_view() == nonempty(s.deep_view()),
{
    match s {
        Some(t) => if t.as_str().is_empty() {
            None
        } else {
            Some(t.clone())
        },
        None => None,
    }
}

/// A copy of a list of texts.
#[verifier::loop_isolation(false)]
pub fn copy_list(list: &Vec<String>) -> (r: Vec<String>)
    ensures
        r.deep_view() == list.deep_view(),
{
    let mut r: Vec<String> = Vec::new();
    let mut i: usize = 0;
    while i < list.len()
        invariant
            i <= list@.len(),
            r.deep_view() == list.deep_view().take(i as int),
        decreases list@.len() - i,
    {
        r.push(list[i].clone());
        i += 1;
        assert(r.deep_view() =~= list.deep_view().take(i as int));
    }
    assert(list.deep_view().take(i as int) =~= list.deep_view());
    r
}

} // verus!
