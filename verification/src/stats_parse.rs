//! The stats text files as entries.

use vstd::prelude::*;
use vstd::string::*;
use crate::discovery::glued;
use crate::files;
use crate::files::place_after_last;
use crate::schema::{DiscoveredSchema, SchemaModel};
use crate::stats_discovery;
use crate::stats_discovery::{is_idle, table_for_stats};
use crate::stats_text;
use crate::stats_text::{before_quote, capitalize_first, parse_csv_values, quoted_rest};
use crate::text;
use crate::text::{chars_of, copy_opt, decimal_text, join, lines, owned, position_of, starts_with,
    strip_prefix, strip_prefix_ci, text_of, trim, white};
use crate::textmap;
use crate::textmap::place_of;

verus! {

/// An entry of a stats file.
#[derive(Debug)]
pub struct ParsedStatsEntry {
    pub table_name: String,
    pub entry_name: String,
    pub entry_type: String,
    pub entry_using: Option<String>,
    /// The fields and their values
    pub data: Vec<(String, String)>,
}

/// What an entry of a stats file says.
pub struct StatsModel {
    pub table_name: Seq<char>,
    pub entry_name: Seq<char>,
    pub entry_type: Seq<char>,
    pub entry_using: Option<Seq<char>>,
    pub data: Seq<(Seq<char>, Seq<char>)>,
}

impl DeepView for ParsedStatsEntry {
    type V = StatsModel;

    open spec fn deep_view(&self) -> StatsModel {
        StatsModel {
            table_name: self.table_name@,
            entry_name: self.entry_name@,
            entry_type: self.entry_type@,
            entry_using: self.entry_using.deep_view(),
            data: self.data.deep_view(),
        }
    }
}

/// A copy of a list of pairs of texts.
#[verifier::loop_isolation(false)]
pub fn copy_pairs(list: &Vec<(String, String)>) -> (r: Vec<(String, String)>)
    ensures
        r.deep_view() == list.deep_view(),
{
    let mut r: Vec<(String, String)> = Vec::new();
    let mut i: usize = 0;
    while i < list.len()
        invariant
            i <= list@.len(),
            r.deep_view() == list.deep_view().take(i as int),
        decreases list@.len() - i,
    {
        r.push((list[i].0.clone(), list[i].1.clone()));
        i += 1;
        assert(r.deep_view() =~= list.deep_view().take(i as int));
    }
    assert(list.deep_view().take(i as int) =~= list.deep_view());
    r
}

// ---------------------------------------------------------------------------
// Entries in the usual form
// ---------------------------------------------------------------------------

/// The field and the value of a data line, behind the first quotation mark.
/// The value reaches to the last quotation mark of the line.
pub open spec fn field_and_value(rest: Seq<char>) -> Option<(Seq<char>, Seq<char>)> {
    let e = text::char_at_or_end(rest, '"', 0);
    let remainder = rest.skip(e + 1);
    let v = text::char_at_or_end(remainder, '"', 0);
    let value = remainder.skip(v + 1);
    let q = files::after_last(value, '"');
    if 0 <= e < rest.len() && 0 <= v < remainder.len() {
        Some(
            (
                rest.take(e),
                if q > 0 {
                    value.take(q - 1)
                } else {
                    text::trimmed(value)
                },
            ),
        )
    } else {
        None
    }
}

/// The field and the value of a data line, behind the first quotation mark.
pub fn split_data_line(rest: &str) -> (r: Option<(String, String)>)
    ensures
        r.deep_view() == field_and_value(rest@),
{
    let v = chars_of(rest);
    let n: usize = v.len();
    let e: usize = position_of(&v, '"', 0);
    if e >= n {
        return None;
    }
    let ghost remainder = rest@.skip(e + 1);
    let at: usize = position_of(&v, '"', e + 1);
    proof {
        text::lemma_char_at_tail(rest@, '"', e + 1, e + 1);
    }
    if at >= n {
        return None;
    }
    let ghost value = remainder.skip(at - e);
    assert(value =~= v@.subrange(at + 1, n as int));
    let q: usize = place_after_last(&v, at + 1, n, '"');
    assert(v@.subrange(0, e as int) =~= rest@.take(e as int));
    let field = text_of(&v, 0, e);
    if q > at + 1 {
        assert(v@.subrange(at + 1, q - 1) =~= value.take(q - 1 - (at + 1)));
        Some((field, text_of(&v, at + 1, q - 1)))
    } else {
        let raw = text_of(&v, at + 1, n);
        Some((field, trim(raw.as_str())))
    }
}

/// What was read of a stats file so far.
pub struct EntryScanModel {
    pub name: Option<Seq<char>>,
    pub etype: Option<Seq<char>>,
    pub using: Option<Seq<char>>,
    pub data: Seq<(Seq<char>, Seq<char>)>,
    pub has_entries: bool,
    pub last_type: Option<Seq<char>>,
    pub entries: Seq<StatsModel>,
}

/// A file of which nothing was read.
pub open spec fn unread() -> EntryScanModel {
    EntryScanModel {
        name: None,
        etype: None,
        using: None,
        data: Seq::empty(),
        has_entries: false,
        last_type: None,
        entries: Seq::empty(),
    }
}

/// The entries with the one that was being read: it counts where its name and
/// its type are known and there is a table for the type.
pub open spec fn closed_entries(st: EntryScanModel, schema: SchemaModel) -> Seq<StatsModel> {
    if st.name is Some && st.etype is Some && textmap::has_key(
        schema.tables,
        stats_discovery::stats_table_name(st.etype->0),
    ) {
        st.entries.push(
            StatsModel {
                table_name: stats_discovery::stats_table_name(st.etype->0),
                entry_name: st.name->0,
                entry_type: st.etype->0,
                entry_using: st.using,
                data: st.data,
            },
        )
    } else {
        st.entries
    }
}

/// The fields with one more. Where each field stands once, a new value takes
/// the place of the old one.
pub open spec fn with_field(
    data: Seq<(Seq<char>, Seq<char>)>,
    field: Seq<char>,
    value: Seq<char>,
    keyed: bool,
) -> Seq<(Seq<char>, Seq<char>)> {
    if keyed {
        textmap::with_value(data, field, value)
    } else {
        data.push((field, value))
    }
}

/// What was read after one more line.
pub open spec fn entry_step(
    st: EntryScanModel,
    line: Seq<char>,
    schema: SchemaModel,
    keyed: bool,
) -> EntryScanModel {
    let t = text::trimmed(line);
    let opened = text::stripped_any_case(t, "new entry \""@);
    let typed = text::stripped_any_case(t, "type \""@);
    let using = text::stripped_any_case(t, "using \""@);
    let data = text::stripped_any_case(t, "data \""@);
    if stats_discovery::idle_line(t) {
        st
    } else if opened is Some {
        match stats_text::until_quote(opened->0) {
            Some(n) => EntryScanModel {
                name: Some(n),
                etype: None,
                using: None,
                data: Seq::empty(),
                has_entries: true,
                last_type: st.last_type,
                entries: closed_entries(st, schema),
            },
            None => st,
        }
    } else if typed is Some {
        match stats_text::until_quote(typed->0) {
            Some(n) => EntryScanModel { etype: Some(n), last_type: Some(n), ..st },
            None => st,
        }
    } else if using is Some {
        match stats_text::until_quote(using->0) {
            Some(n) => EntryScanModel { using: Some(n), ..st },
            None => st,
        }
    } else if data is Some {
        match field_and_value(data->0) {
            Some(p) => EntryScanModel { data: with_field(st.data, p.0, p.1, keyed), ..st },
            None => st,
        }
    } else {
        st
    }
}

/// What was read after several lines.
pub open spec fn entry_scan(
    ls: Seq<Seq<char>>,
    schema: SchemaModel,
    keyed: bool,
) -> EntryScanModel
    decreases ls.len(),
{
    if ls.len() == 0 {
        unread()
    } else {
        entry_step(entry_scan(ls.drop_last(), schema, keyed), ls.last(), schema, keyed)
    }
}

/// What was read of a whole file.
pub open spec fn file_scan(content: Seq<char>, schema: SchemaModel, keyed: bool) -> EntryScanModel {
    let st = entry_scan(text::text_lines(content), schema, keyed);
    EntryScanModel { entries: closed_entries(st, schema), ..st }
}

struct EntryScan {
    name: Option<String>,
    etype: Option<String>,
    using: Option<String>,
    data: Vec<(String, String)>,
    has_entries: bool,
    last_type: Option<String>,
    entries: Vec<ParsedStatsEntry>,
}

impl DeepView for EntryScan {
    type V = EntryScanModel;

    closed spec fn deep_view(&self) -> EntryScanModel {
        EntryScanModel {
            name: self.name.deep_view(),
            etype: self.etype.deep_view(),
            using: self.using.deep_view(),
            data: self.data.deep_view(),
            has_entries: self.has_entries,
            last_type: self.last_type.deep_view(),
            entries: self.entries.deep_view(),
        }
    }
}

fn close_entry(st: &mut EntryScan, schema: &DiscoveredSchema)
    ensures
        final(st).deep_view() == (EntryScanModel {
            entries: closed_entries(old(st).deep_view(), schema.deep_view()),
            ..old(st).deep_view()
        }),
{
    if let (Some(name), Some(etype)) = (copy_opt(&st.name), copy_opt(&st.etype)) {
        let table_name = table_for_stats(etype.as_str());
        if schema.tables.contains_key(table_name.as_str()) {
            let ghost before = st.entries.deep_view();
            let e = ParsedStatsEntry {
                table_name,
                entry_name: name,
                entry_type: etype,
                entry_using: copy_opt(&st.using),
                data: copy_pairs(&st.data),
            };
            st.entries.push(e);
            assert(st.entries.deep_view() =~= before.push(e.deep_view()));
        }
    }
}

fn scan_entry_line(st: &mut EntryScan, line: &str, schema: &DiscoveredSchema, keyed: bool)
    ensures
        final(st).deep_view() == entry_step(
            old(st).deep_view(),
            line@,
            schema.deep_view(),
            keyed,
        ),
{
    let trimmed = trim(line);
    let t = trimmed.as_str();
    if is_idle(t) {
        return;
    }
    if let Some(rest) = strip_prefix_ci(t, "new entry \"") {
        if let Some(n) = before_quote(rest.as_str()) {
            close_entry(st, schema);
            st.name = Some(n);
            st.etype = None;
            st.using = None;
            st.data = Vec::new();
            assert(st.data.deep_view() =~= Seq::<(Seq<char>, Seq<char>)>::empty());
            st.has_entries = true;
        }
    } else if let Some(rest) = strip_prefix_ci(t, "type \"") {
        if let Some(n) = before_quote(rest.as_str()) {
            st.last_type = Some(n.clone());
            st.etype = Some(n);
        }
    } else if let Some(rest) = strip_prefix_ci(t, "using \"") {
        if let Some(n) = before_quote(rest.as_str()) {
            st.using = Some(n);
        }
    } else if let Some(rest) = strip_prefix_ci(t, "data \"") {
        if let Some((field, value)) = split_data_line(rest.as_str()) {
            let ghost before = st.data.deep_view();
            if keyed {
                match place_of(&st.data, field.as_str()) {
                    Some(i) => {
                        st.data.set(i, (field, value));
                        assert(st.data.deep_view() =~= before.update(i as int, (field@, value@)));
                    },
                    None => {
                        st.data.push((field, value));
                        assert(st.data.deep_view() =~= before.push((field@, value@)));
                    },
                }
            } else {
                st.data.push((field, value));
                assert(st.data.deep_view() =~= before.push((field@, value@)));
            }
        }
    }
}

#[verifier::loop_isolation(false)]
fn scan_file(content: &str, schema: &DiscoveredSchema, keyed: bool) -> (r: EntryScan)
    ensures
        r.deep_view() == file_scan(content@, schema.deep_view(), keyed),
{
    let ls = lines(content);
    let ghost all = ls.deep_view();
    let mut st = EntryScan {
        name: None,
        etype: None,
        using: None,
        data: Vec::new(),
        has_entries: false,
        last_type: None,
        entries: Vec::new(),
    };
    assert(st.data.deep_view() =~= Seq::<(Seq<char>, Seq<char>)>::empty());
    assert(st.entries.deep_view() =~= Seq::<StatsModel>::empty());
    let mut i: usize = 0;
    while i < ls.len()
        invariant
            i <= ls@.len(),
            st.deep_view() == entry_scan(all.take(i as int), schema.deep_view(), keyed),
        decreases ls@.len() - i,
    {
        scan_entry_line(&mut st, ls[i].as_str(), schema, keyed);
        assert(all.take(i + 1).drop_last() =~= all.take(i as int));
        i += 1;
    }
    assert(all.take(i as int) =~= all);
    close_entry(&mut st, schema);
    st
}

/// What a stats file holds.
#[derive(Debug)]
pub struct StatsContent {
    pub entries: Vec<ParsedStatsEntry>,
    pub last_type: Option<String>,
    /// The text itself, where it holds no entry.
    pub raw_content: Option<String>,
}

/// What a stats file holds.
pub struct StatsContentModel {
    pub entries: Seq<StatsModel>,
    pub last_type: Option<Seq<char>>,
    pub raw_content: Option<Seq<char>>,
}

impl DeepView for StatsContent {
    type V = StatsContentModel;

    open spec fn deep_view(&self) -> StatsContentModel {
        StatsContentModel {
            entries: self.entries.deep_view(),
            last_type: self.last_type.deep_view(),
            raw_content: self.raw_content.deep_view(),
        }
    }
}

/// A text in the usual form as entries.
pub open spec fn usual_content(
    content: Seq<char>,
    schema: SchemaModel,
    keyed: bool,
) -> StatsContentModel {
    let st = file_scan(content, schema, keyed);
    StatsContentModel {
        entries: st.entries,
        last_type: st.last_type,
        raw_content: if !st.has_entries && text::trimmed(content).len() > 0 {
            Some(content)
        } else {
            None
        },
    }
}

/// Reads entries in the usual form. With `keyed`, each field of an entry
/// stands once, and its last value counts.
pub fn read_entries(content: &str, schema: &DiscoveredSchema, keyed: bool) -> (r: StatsContent)
    ensures
        r.deep_view() == usual_content(content@, schema.deep_view(), keyed),
{
    let st = scan_file(content, schema, keyed);
    let trimmed = trim(content);
    let raw_content = if !st.has_entries && !trimmed.as_str().is_empty() {
        Some(owned(content))
    } else {
        None
    };
    StatsContent { entries: st.entries, last_type: st.last_type, raw_content }
}

/// Reads entries in the usual form, with all the fields that they list.
pub fn parse_stats_entries_content(content: &str, schema: &DiscoveredSchema) -> (r: StatsContent)
    ensures
        r.deep_view() == usual_content(content@, schema.deep_view(), false),
{
    read_entries(content, schema, false)
}

// ---------------------------------------------------------------------------
// Entries in other forms
// ---------------------------------------------------------------------------

/// What was read of a file in another form so far.
pub struct OddScanModel {
    pub name: Option<Seq<char>>,
    pub data: Seq<(Seq<char>, Seq<char>)>,
    pub entries: Seq<StatsModel>,
}

/// An entry of a file in another form.
pub open spec fn odd_entry(
    stem: Seq<char>,
    name: Seq<char>,
    data: Seq<(Seq<char>, Seq<char>)>,
) -> StatsModel {
    StatsModel {
        table_name: stats_discovery::stats_table_name(stem),
        entry_name: name,
        entry_type: stem,
        entry_using: None,
        data,
    }
}

/// The entries with the one that was being read.
pub open spec fn odd_closed(st: OddScanModel, stem: Seq<char>) -> Seq<StatsModel> {
    match st.name {
        Some(n) => st.entries.push(odd_entry(stem, n, st.data)),
        None => st.entries,
    }
}

/// The values behind the name, by their places.
pub open spec fn positional(values: Seq<Seq<char>>) -> Seq<(Seq<char>, Seq<char>)>
    decreases values.len(),
{
    if values.len() <= 1 {
        Seq::empty()
    } else {
        positional(values.drop_last()).push(
            ("Param"@ + text::decimal((values.len() - 1) as nat), values.last()),
        )
    }
}

/// The fields with the values of a sub-entry: several sub-entries of a kind
/// stand in one field, with a bar between them.
pub open spec fn with_sub_entry(
    data: Seq<(Seq<char>, Seq<char>)>,
    column: Seq<char>,
    value: Seq<char>,
) -> Seq<(Seq<char>, Seq<char>)> {
    match textmap::key_pos(data, column) {
        Some(i) => data.update(i, (column, data[i].1 + "|"@ + value)),
        None => data.push((column, value)),
    }
}

/// The place of the first character that ends a keyword.
pub open spec fn word_end(s: Seq<char>, i: int) -> int
    decreases s.len() - i,
{
    if 0 <= i < s.len() && !stats_text::ends_word(s[i]) {
        word_end(s, i + 1)
    } else {
        i
    }
}

/// The comma-separated values from the first quotation mark on.
pub open spec fn quoted_values(t: Seq<char>) -> Option<Seq<Seq<char>>> {
    match stats_text::from_quote(t) {
        Some(q) => Some(stats_text::csv_from(q, 0)),
        None => None,
    }
}

/// The entry that a line with a key and a value makes.
pub open spec fn key_entries(t: Seq<char>, stem: Seq<char>) -> Seq<StatsModel> {
    match quoted_values(t) {
        Some(values) => if values.len() > 1 {
            seq![odd_entry(stem, values[0], seq![("Value"@, values[1])])]
        } else if values.len() == 1 {
            seq![odd_entry(stem, values[0], Seq::empty())]
        } else {
            Seq::empty()
        },
        None => Seq::empty(),
    }
}

/// What was read after one more line.
pub open spec fn odd_step(st: OddScanModel, line: Seq<char>, stem: Seq<char>) -> OddScanModel {
    let t = text::trimmed(line);
    let rest = text::stripped(t, "add "@);
    if stats_discovery::idle_line(t) {
        OddScanModel {
            name: None,
            data: if st.name is Some {
                Seq::empty()
            } else {
                st.data
            },
            entries: odd_closed(st, stem),
        }
    } else if "key "@.is_prefix_of(t) || "key\t"@.is_prefix_of(t) {
        OddScanModel {
            name: None,
            data: Seq::empty(),
            entries: odd_closed(st, stem) + key_entries(t, stem),
        }
    } else if "new "@.is_prefix_of(t) {
        match quoted_values(t) {
            Some(values) => OddScanModel {
                name: if values.len() > 0 {
                    Some(values[0])
                } else {
                    None
                },
                data: positional(values),
                entries: odd_closed(st, stem),
            },
            None => OddScanModel {
                name: None,
                data: Seq::empty(),
                entries: odd_closed(st, stem),
            },
        }
    } else if rest is Some && word_end(rest->0, 0) < rest->0.len() {
        let e = word_end(rest->0, 0);
        OddScanModel {
            data: with_sub_entry(
                st.data,
                stats_text::capitalized(rest->0.take(e)),
                text::joined(
                    stats_text::csv_from(text::trimmed(rest->0.skip(e)), 0),
                    ";"@,
                ),
            ),
            ..st
        }
    } else {
        st
    }
}

/// What was read after several lines.
pub open spec fn odd_scan(ls: Seq<Seq<char>>, stem: Seq<char>) -> OddScanModel
    decreases ls.len(),
{
    if ls.len() == 0 {
        OddScanModel { name: None, data: Seq::empty(), entries: Seq::empty() }
    } else {
        odd_step(odd_scan(ls.drop_last(), stem), ls.last(), stem)
    }
}

/// A text in another form as entries. Where there is no table for the file,
/// the text is kept as it stands.
pub open spec fn odd_content(
    content: Seq<char>,
    stem: Seq<char>,
    schema: SchemaModel,
) -> StatsContentModel {
    if textmap::has_key(schema.tables, stats_discovery::stats_table_name(stem)) {
        StatsContentModel {
            entries: odd_closed(odd_scan(text::text_lines(content), stem), stem),
            last_type: Some(stem),
            raw_content: None,
        }
    } else {
        StatsContentModel {
            entries: Seq::empty(),
            last_type: Some(stem),
            raw_content: Some(content),
        }
    }
}

struct OddScan {
    name: Option<String>,
    data: Vec<(String, String)>,
    entries: Vec<ParsedStatsEntry>,
}

impl DeepView for OddScan {
    type V = OddScanModel;

    closed spec fn deep_view(&self) -> OddScanModel {
        OddScanModel {
            name: self.name.deep_view(),
            data: self.data.deep_view(),
            entries: self.entries.deep_view(),
        }
    }
}

fn make_odd_entry(stem: &str, name: String, data: Vec<(String, String)>) -> (r: ParsedStatsEntry)
    ensures
        r.deep_view() == odd_entry(stem@, name@, data.deep_view()),
{
    ParsedStatsEntry {
        table_name: table_for_stats(stem),
        entry_name: name,
        entry_type: owned(stem),
        entry_using: None,
        data,
    }
}

fn close_odd(st: &mut OddScan, stem: &str)
    ensures
        final(st).deep_view() == (OddScanModel {
            entries: odd_closed(old(st).deep_view(), stem@),
            ..old(st).deep_view()
        }),
{
    if let Some(name) = copy_opt(&st.name) {
        let ghost before = st.entries.deep_view();
        let e = make_odd_entry(stem, name, copy_pairs(&st.data));
        st.entries.push(e);
        assert(st.entries.deep_view() =~= before.push(e.deep_view()));
    }
}

#[verifier::loop_isolation(false)]
fn params_of(values: &Vec<String>) -> (r: Vec<(String, String)>)
    ensures
        r.deep_view() == positional(values.deep_view()),
{
    let ghost all = values.deep_view();
    let mut r: Vec<(String, String)> = Vec::new();
    assert(r.deep_view() =~= Seq::<(Seq<char>, Seq<char>)>::empty());
    if values.len() == 0 {
        return r;
    }
    let mut i: usize = 1;
    while i < values.len()
        invariant
            1 <= i <= values@.len(),
            r.deep_view() == positional(all.take(i as int)),
        decreases values@.len() - i,
    {
        let ghost before = r.deep_view();
        let d = decimal_text(i as u64);
        r.push((glued("Param", d.as_str()), values[i].clone()));
        assert(all.take(i + 1).drop_last() =~= all.take(i as int));
        assert(r.deep_view() =~= before.push(("Param"@ + text::decimal(i as nat), all[i as int])));
        i += 1;
    }
    assert(all.take(i as int) =~= all);
    r
}

fn note_sub_entry(data: &mut Vec<(String, String)>, column: String, value: &str)
    ensures
        final(data).deep_view() == with_sub_entry(old(data).deep_view(), column@, value@),
{
    let ghost before = data.deep_view();
    match place_of(data, column.as_str()) {
        Some(i) => {
            let ghost held = data@;
            let mut v = data[i].1.clone();
            assert(before[i as int].1 == held[i as int].1@);
            v.append("|");
            v.append(value);
            data.set(i, (column, v));
            assert(data.deep_view() =~= before.update(
                i as int,
                (column@, before[i as int].1 + "|"@ + value@),
            ));
        },
        None => {
            data.push((column, owned(value)));
            assert(data.deep_view() =~= before.push((column@, value@)));
        },
    }
}

fn find_word_end(v: &Vec<char>) -> (r: usize)
    ensures
        r <= v@.len(),
        r == word_end(v@, 0),
{
    let mut i: usize = 0;
    while i < v.len() && !white(v[i]) && v[i] != '"'
        invariant
            i <= v@.len(),
            word_end(v@, 0) == word_end(v@, i as int),
        decreases v@.len() - i,
    {
        i += 1;
    }
    i
}

fn scan_key_line(st: &mut OddScan, t: &str, stem: &str)
    ensures
        final(st).deep_view() == (OddScanModel {
            name: None,
            data: Seq::empty(),
            entries: odd_closed(old(st).deep_view(), stem@) + key_entries(t@, stem@),
        }),
{
    close_odd(st, stem);
    st.name = None;
    st.data = Vec::new();
    assert(st.data.deep_view() =~= Seq::<(Seq<char>, Seq<char>)>::empty());
    let ghost before = st.entries.deep_view();
    if let Some(q) = quoted_rest(t) {
        let values = parse_csv_values(q.as_str());
        if values.len() > 0 {
            let mut data: Vec<(String, String)> = Vec::new();
            assert(data.deep_view() =~= Seq::<(Seq<char>, Seq<char>)>::empty());
            if values.len() > 1 {
                data.push((owned("Value"), values[1].clone()));
                assert(data.deep_view() =~= seq![("Value"@, values.deep_view()[1])]);
            }
            let e = make_odd_entry(stem, values[0].clone(), data);
            st.entries.push(e);
            assert(st.entries.deep_view() =~= before.push(e.deep_view()));
        }
    }
    assert(st.entries.deep_view() =~= before + key_entries(t@, stem@));
}

fn scan_odd_line(st: &mut OddScan, line: &str, stem: &str)
    ensures
        final(st).deep_view() == odd_step(old(st).deep_view(), line@, stem@),
{
    let trimmed = trim(line);
    let t = trimmed.as_str();
    if is_idle(t) {
        if st.name.is_some() {
            close_odd(st, stem);
            st.name = None;
            st.data = Vec::new();
            assert(st.data.deep_view() =~= Seq::<(Seq<char>, Seq<char>)>::empty());
        }
    } else if starts_with(t, "key ") || starts_with(t, "key\t") {
        scan_key_line(st, t, stem);
    } else if starts_with(t, "new ") {
        close_odd(st, stem);
        match quoted_rest(t) {
            Some(q) => {
                let values = parse_csv_values(q.as_str());
                st.data = params_of(&values);
                st.name = if values.len() > 0 {
                    Some(values[0].clone())
                } else {
                    None
                };
            },
            None => {
                st.name = None;
                st.data = Vec::new();
                assert(st.data.deep_view() =~= Seq::<(Seq<char>, Seq<char>)>::empty());
            },
        }
    } else if let Some(rest) = strip_prefix(t, "add ") {
        let v = chars_of(rest.as_str());
        let e: usize = find_word_end(&v);
        if e < v.len() {
            assert(v@.subrange(0, e as int) =~= rest@.take(e as int));
            assert(v@.subrange(e as int, v@.len() as int) =~= rest@.skip(e as int));
            let keyword = text_of(&v, 0, e);
            let tail = text_of(&v, e, v.len());
            let remainder = trim(tail.as_str());
            let values = parse_csv_values(remainder.as_str());
            let value = join(&values, ";");
            note_sub_entry(&mut st.data, capitalize_first(keyword.as_str()), value.as_str());
        }
    }
}

/// Reads entries in another form: comma-separated entries, keys with values,
/// or groups.
#[verifier::loop_isolation(false)]
pub fn parse_nonstandard_stats_content(
    content: &str,
    file_stem: &str,
    schema: &DiscoveredSchema,
) -> (r: StatsContent)
    ensures
        r.deep_view() == odd_content(content@, file_stem@, schema.deep_view()),
{
    let table_name = table_for_stats(file_stem);
    if !schema.tables.contains_key(table_name.as_str()) {
        let r = StatsContent {
            entries: Vec::new(),
            last_type: Some(owned(file_stem)),
            raw_content: Some(owned(content)),
        };
        assert(r.entries.deep_view() =~= Seq::<StatsModel>::empty());
        return r;
    }
    let ls = lines(content);
    let ghost all = ls.deep_view();
    let mut st = OddScan { name: None, data: Vec::new(), entries: Vec::new() };
    assert(st.data.deep_view() =~= Seq::<(Seq<char>, Seq<char>)>::empty());
    assert(st.entries.deep_view() =~= Seq::<StatsModel>::empty());
    let mut i: usize = 0;
    while i < ls.len()
        invariant
            i <= ls@.len(),
            st.deep_view() == odd_scan(all.take(i as int), file_stem@),
        decreases ls@.len() - i,
    {
        scan_odd_line(&mut st, ls[i].as_str(), file_stem);
        assert(all.take(i + 1).drop_last() =~= all.take(i as int));
        i += 1;
    }
    assert(all.take(i as int) =~= all);
    close_odd(&mut st, file_stem);
    StatsContent { entries: st.entries, last_type: Some(owned(file_stem)), raw_content: None }
}

} // verus!
