//! Localization files as entries.

use vstd::prelude::*;
use vstd::string::*;
use crate::text;
use crate::text::{contains, copy_opt, from_utf8, parse_i64, replace_all, trim};

verus! {

/// A localized text.
#[derive(Debug)]
pub struct ParsedLocaEntry {
    pub contentuid: String,
    pub version: i64,
    pub text: Option<String>,
}

/// What a localized text says.
pub struct LocaModel {
    pub contentuid: Seq<char>,
    pub version: i64,
    pub text: Option<Seq<char>>,
}

impl DeepView for ParsedLocaEntry {
    type V = LocaModel;

    open spec fn deep_view(&self) -> LocaModel {
        LocaModel {
            contentuid: self.contentuid@,
            version: self.version,
            text: self.text.deep_view(),
        }
    }
}

// ---------------------------------------------------------------------------
// The XML form
// ---------------------------------------------------------------------------

/// The five entities of XML as characters, one kind after the other.
pub open spec fn decoded(s: Seq<char>) -> Seq<char> {
    let lt = text::replaced(s, "&lt;"@, "<"@);
    let gt = text::replaced(lt, "&gt;"@, ">"@);
    let amp = text::replaced(gt, "&amp;"@, "&"@);
    let apos = text::replaced(amp, "&apos;"@, "'"@);
    text::replaced(apos, "&quot;"@, "\""@)
}

/// The five entities of XML as characters.
pub fn decode_xml_entities(s: &str) -> (r: String)
    ensures
        r@ == decoded(s@),
{
    proof {
        reveal_strlit("&lt;");
        reveal_strlit("&gt;");
        reveal_strlit("&amp;");
        reveal_strlit("&apos;");
        reveal_strlit("&quot;");
    }
    let lt = replace_all(s, "&lt;", "<");
    let gt = replace_all(lt.as_str(), "&gt;", ">");
    let amp = replace_all(gt.as_str(), "&amp;", "&");
    let apos = replace_all(amp.as_str(), "&apos;", "'");
    replace_all(apos.as_str(), "&quot;", "\"")
}

/// The groups of every match of the regular expression `pattern` in `text`, from
/// left to right, and none where the pattern is not valid: what
/// `regex::Regex::captures_iter` yields. Group zero is the whole match.
pub uninterp spec fn regex_groups(pattern: Seq<char>, text: Seq<char>) -> Seq<
    Seq<Option<Seq<char>>>,
>;

/// Calls `regex::Regex::new` and, where the pattern compiles,
/// `regex::Regex::captures_iter`, and takes over the text of each group. Which
/// matches there are is left to the regex crate; the result depends on the
/// pattern and the text alone.
#[verifier::external_body]
fn regex_captures(pattern: &str, text: &str) -> (r: Vec<Vec<Option<String>>>)
    ensures
        r.deep_view() == regex_groups(pattern@, text@),
{
    match regex::Regex::new(pattern) {
        Ok(re) => re.captures_iter(text)
            .map(|c| c.iter().map(|m| m.map(|m| m.as_str().to_string())).collect())
            .collect(),
        Err(_) => Vec::new(),
    }
}

/// The text of a group, where it took part in the match.
pub open spec fn group_text(groups: Seq<Option<Seq<char>>>, i: int) -> Option<Seq<char>> {
    if 0 <= i < groups.len() {
        groups[i]
    } else {
        None
    }
}

/// The version that a text denotes, or zero.
pub open spec fn version_of(s: Option<Seq<char>>) -> i64 {
    match s {
        Some(t) => match text::number_within(t, i64::MIN as int, i64::MAX as int) {
            Some(n) => n as i64,
            None => 0,
        },
        None => 0,
    }
}

/// The localized text that the groups of a match hold: its handle, its version
/// and its text.
pub open spec fn entry_of_groups(groups: Seq<Option<Seq<char>>>) -> LocaModel {
    LocaModel {
        contentuid: text::or_empty(group_text(groups, 1)),
        version: version_of(group_text(groups, 2)),
        text: match group_text(groups, 3) {
            Some(t) => Some(decoded(t)),
            None => None,
        },
    }
}

fn take_group(groups: &Vec<Option<String>>, i: usize) -> (r: Option<String>)
    ensures
        r.deep_view() == group_text(groups.deep_view(), i as int),
{
    if i < groups.len() {
        assert(groups.deep_view()[i as int] == groups@[i as int].deep_view());
        copy_opt(&groups[i])
    } else {
        None
    }
}

fn make_entry(groups: &Vec<Option<String>>) -> (r: ParsedLocaEntry)
    ensures
        r.deep_view() == entry_of_groups(groups.deep_view()),
{
    let contentuid = match take_group(groups, 1) {
        Some(s) => s,
        None => String::new(),
    };
    let version: i64 = match take_group(groups, 2) {
        Some(s) => match parse_i64(s.as_str()) {
            Some(n) => n,
            None => 0,
        },
        None => 0,
    };
    let text = match take_group(groups, 3) {
        Some(s) => Some(decode_xml_entities(s.as_str())),
        None => None,
    };
    ParsedLocaEntry { contentuid, version, text }
}

/// The localized texts that the groups of the matches hold.
#[verifier::loop_isolation(false)]
pub fn entries_of_matches(matches: &Vec<Vec<Option<String>>>) -> (r: Vec<ParsedLocaEntry>)
    ensures
        r.deep_view() == matches.deep_view().map_values(
            |g: Seq<Option<Seq<char>>>| entry_of_groups(g),
        ),
{
    let ghost want = matches.deep_view().map_values(
        |g: Seq<Option<Seq<char>>>| entry_of_groups(g),
    );
    let mut r: Vec<ParsedLocaEntry> = Vec::new();
    let mut i: usize = 0;
    while i < matches.len()
        invariant
            i <= matches@.len(),
            r.deep_view() == want.take(i as int),
        decreases matches@.len() - i,
    {
        r.push(make_entry(&matches[i]));
        i += 1;
        assert(r.deep_view() =~= want.take(i as int));
    }
    assert(want.take(i as int) =~= want);
    r
}

/// The form of a localized text in a localization file.
pub open spec fn content_pattern() -> Seq<char> {
    "<content\\s+contentuid=\"([^\"]*)\"\\s+version=\"(\\d+)\"(?:\\s*/>|>([\\s\\S]*?)</content>)"@
}

/// Whether a localization file says that it holds nothing.
pub open spec fn empty_file(content: Seq<char>) -> bool {
    text::trimmed(content).len() == 0 || text::has_text(content, "<contentList />"@)
        || text::has_text(content, "<contentList/>"@)
}

/// The localized texts of a localization file.
pub open spec fn xml_entries(content: Seq<char>) -> Seq<LocaModel> {
    if empty_file(content) {
        Seq::empty()
    } else {
        regex_groups(content_pattern(), content).map_values(
            |g: Seq<Option<Seq<char>>>| entry_of_groups(g),
        )
    }
}

/// The localized texts of a localization file.
pub fn parse_loca_xml_entries(content: &str) -> (r: Vec<ParsedLocaEntry>)
    ensures
        r.deep_view() == xml_entries(content@),
{
    let trimmed = trim(content);
    if trimmed.as_str().is_empty() || contains(content, "<contentList />") || contains(
        content,
        "<contentList/>",
    ) {
        let none: Vec<ParsedLocaEntry> = Vec::new();
        assert(none.deep_view() =~= Seq::<LocaModel>::empty());
        return none;
    }
    let matches = regex_captures(
        "<content\\s+contentuid=\"([^\"]*)\"\\s+version=\"(\\d+)\"(?:\\s*/>|>([\\s\\S]*?)</content>)",
        content,
    );
    entries_of_matches(&matches)
}

// ---------------------------------------------------------------------------
// The binary form
// ---------------------------------------------------------------------------

/// The number that two bytes hold, the lower one first.
pub open spec fn le16(b: Seq<u8>, i: int) -> int {
    b[i] + 256 * b[i + 1]
}

/// The number that four bytes hold, the lowest one first.
pub open spec fn le32(b: Seq<u8>, i: int) -> int {
    b[i] + 256 * b[i + 1] + 65536 * b[i + 2] + 16777216 * b[i + 3]
}

/// The bytes of a header: signature, number of entries, place of the texts.
pub const HEADER_SIZE: usize = 12;

/// The bytes of an entry: a handle of 64 bytes, its version, the size of its
/// text.
pub const ENTRY_SIZE: usize = 70;

/// The bytes before the first zero.
pub open spec fn before_zero(b: Seq<u8>) -> Seq<u8>
    decreases b.len(),
{
    if b.len() == 0 || b[0] == 0 {
        Seq::empty()
    } else {
        seq![b[0]] + before_zero(b.drop_first())
    }
}

/// The text that bytes up to the first zero encode.
pub open spec fn zero_text(b: Seq<u8>) -> Option<Seq<char>> {
    if vstd::utf8::valid_utf8(before_zero(b)) {
        Some(vstd::utf8::decode_utf8(before_zero(b)))
    } else {
        None
    }
}

/// The entries from number `k` on, where the text of that entry stands at
/// `at`. There are none where the file ends too early or a text is not valid.
pub open spec fn records_from(b: Seq<u8>, count: int, k: int, at: int) -> Option<Seq<LocaModel>>
    decreases count - k,
{
    if k >= count {
        Some(Seq::empty())
    } else {
        let e = 12 + 70 * k;
        let size = le32(b, e + 66);
        if e + 70 > b.len() || at + size > b.len() {
            None
        } else {
            let key = zero_text(b.subrange(e, e + 64));
            let body = zero_text(b.subrange(at, at + size));
            let rest = records_from(b, count, k + 1, at + size);
            if key is Some && body is Some && rest is Some {
                Some(
                    seq![
                        LocaModel {
                            contentuid: key->0,
                            version: le16(b, e + 64) as i64,
                            text: body,
                        },
                    ] + rest->0,
                )
            } else {
                None
            }
        }
    }
}

/// The entries of a binary localization file, unless it is malformed.
pub open spec fn records(b: Seq<u8>) -> Option<Seq<LocaModel>> {
    if b.len() < 12 || le32(b, 0) != 0x4143_4f4c {
        None
    } else {
        records_from(b, le32(b, 4), 0, le32(b, 8))
    }
}

fn read16(b: &Vec<u8>, i: usize) -> (r: u64)
    requires
        i + 2 <= b@.len(),
    ensures
        r == le16(b@, i as int),
{
    let n: usize = b.len();
    assert(i + 2 <= n);
    b[i] as u64 + 256 * (b[i + 1] as u64)
}

fn read32(b: &Vec<u8>, i: usize) -> (r: u64)
    requires
        i + 4 <= b@.len(),
    ensures
        r == le32(b@, i as int),
        r <= 0xffff_ffff,
{
    let n: usize = b.len();
    assert(i + 4 <= n);
    b[i] as u64 + 256 * (b[i + 1] as u64) + 65536 * (b[i + 2] as u64) + 16777216 * (b[i
        + 3] as u64)
}

#[verifier::loop_isolation(false)]
fn read_zero_text(b: &Vec<u8>, from: usize, to: usize) -> (r: Option<String>)
    requires
        from <= to <= b@.len(),
    ensures
        r.deep_view() == zero_text(b@.subrange(from as int, to as int)),
{
    let ghost all = b@.subrange(from as int, to as int);
    let mut v: Vec<u8> = Vec::new();
    let mut i: usize = from;
    assert(v@ + before_zero(all) =~= before_zero(all));
    while i < to && b[i] != 0
        invariant
            from <= i <= to,
            v@ + before_zero(b@.subrange(i as int, to as int)) == before_zero(all),
        decreases to - i,
    {
        let ghost before = v@;
        let ghost tail = b@.subrange(i as int, to as int);
        v.push(b[i]);
        assert(tail.drop_first() =~= b@.subrange(i + 1, to as int));
        assert(v@ + before_zero(tail.drop_first()) =~= before + before_zero(tail));
        i += 1;
    }
    assert(before_zero(b@.subrange(i as int, to as int)) =~= Seq::<u8>::empty());
    assert(v@ =~= before_zero(all));
    match from_utf8(&v) {
        Ok(s) => Some(s),
        Err(_) => None,
    }
}

/// The localized texts of a binary localization file, unless it is malformed.
#[verifier::loop_isolation(false)]
pub fn parse_loca(bytes: &Vec<u8>) -> (r: Option<Vec<ParsedLocaEntry>>)
    ensures
        r.deep_view() == records(bytes@),
{
    let n: usize = bytes.len();
    if n < HEADER_SIZE || read32(bytes, 0) != 0x4143_4f4c {
        return None;
    }
    let count: u64 = read32(bytes, 4);
    let start: u64 = read32(bytes, 8);
    let mut r: Vec<ParsedLocaEntry> = Vec::new();
    let mut k: u64 = 0;
    let mut e: usize = HEADER_SIZE;
    let mut at: u64 = start;
    let ghost want = records(bytes@);
    proof {
        match want {
            Some(all) => {
                assert(r.deep_view() + all =~= all);
            },
            None => {},
        }
    }
    while k < count
        invariant
            k <= count <= 0xffff_ffff,
            e == 12 + 70 * k,
            k > 0 ==> e <= n && at <= n,
            at <= n || at <= 0xffff_ffff,
            match records_from(bytes@, count as int, k as int, at as int) {
                Some(rest) => want == Some(r.deep_view() + rest),
                None => want is None,
            },
        decreases count - k,
    {
        if n < e || n - e < ENTRY_SIZE {
            return None;
        }
        let size: u64 = read32(bytes, e + 66);
        if at > n as u64 || (n as u64) - at < size {
            return None;
        }
        let from: usize = at as usize;
        let to: usize = (at + size) as usize;
        let key = read_zero_text(bytes, e, e + 64);
        let body = read_zero_text(bytes, from, to);
        let version: i64 = read16(bytes, e + 64) as i64;
        let ghost before = r.deep_view();
        match (key, body) {
            (Some(contentuid), Some(text)) => {
                let entry = ParsedLocaEntry { contentuid, version, text: Some(text) };
                r.push(entry);
                proof {
                    assert(r.deep_view() =~= before.push(entry.deep_view()));
                    match records_from(bytes@, count as int, k + 1, at + size) {
                        Some(rest) => {
                            assert(r.deep_view() + rest =~= before + (seq![entry.deep_view()]
                                + rest));
                        },
                        None => {},
                    }
                }
            },
            _ => {
                return None;
            },
        }
        k += 1;
        e = e + ENTRY_SIZE;
        at = at + size;
    }
    assert(r.deep_view() + Seq::<LocaModel>::empty() =~= r.deep_view());
    Some(r)
}

} // verus!
