//! What stats text files tell about tables and columns.

use vstd::prelude::*;
use crate::discovery::{glued, FileDiscovery, RawModel, RawTableInfo};
use crate::files;
use crate::files::sanitize_id;
use crate::fixed_tables;
use crate::fixed_tables::table_with;
use crate::stats_text;
use crate::stats_text::{before_quote, capitalize_first, is_new_entry, is_stats_loca_column,
    keyword_of, parse_csv_values, quoted_rest};
use crate::text;
use crate::text::{contains, copy_opt, decimal_text, lines, owned, starts_with, strip_prefix,
    to_ascii_lower, trim};
use crate::textmap;
use crate::textmap::{add_member, place_of, TextMap};

verus! {

/// A line that holds nothing: it is empty or a comment.
pub open spec fn idle_line(t: Seq<char>) -> bool {
    t.len() == 0 || "//"@.is_prefix_of(t)
}

/// Whether a trimmed line holds nothing.
pub fn is_idle(t: &str) -> (r: bool)
    ensures
        r == idle_line(t@),
{
    t.is_empty() || starts_with(t, "//")
}

/// A stats table without data columns.
pub open spec fn stats_table() -> RawModel {
    fixed_tables::fixed_table(
        "stats"@,
        seq![
            ("_entry_name"@, "FixedString"@),
            ("_type"@, "FixedString"@),
            ("_using"@, "FixedString"@),
        ],
    )
}

fn make_stats_table() -> (r: RawTableInfo)
    ensures
        r.deep_view() == stats_table(),
{
    let columns: Vec<(&'static str, &'static str)> = vec![
        ("_entry_name", "FixedString"),
        ("_type", "FixedString"),
        ("_using", "FixedString"),
    ];
    assert(columns.deep_view() =~= stats_table().columns);
    table_with("stats", &columns)
}

/// The table of a type of stats entries.
pub open spec fn stats_table_name(stype: Seq<char>) -> Seq<char> {
    "stats__"@ + files::sanitized(stype)
}

/// The table of a type of stats entries.
pub fn table_for_stats(stype: &str) -> (r: String)
    ensures
        r@ == stats_table_name(stype@),
{
    let s = sanitize_id(stype);
    glued("stats__", s.as_str())
}

/// The table with other columns, or a stats table with them.
pub open spec fn with_stats_columns(
    tables: Seq<(Seq<char>, RawModel)>,
    name: Seq<char>,
    columns: spec_fn(Seq<(Seq<char>, Seq<char>)>) -> Seq<(Seq<char>, Seq<char>)>,
) -> Seq<(Seq<char>, RawModel)> {
    let base = match textmap::value_of(tables, name) {
        Some(t) => t,
        None => stats_table(),
    };
    textmap::with_value(tables, name, RawModel { columns: columns(base.columns), ..base })
}

/// The columns with those of a data field. A localized field also gets a
/// column for its version.
pub open spec fn field_columns(
    columns: Seq<(Seq<char>, Seq<char>)>,
    field: Seq<char>,
) -> Seq<(Seq<char>, Seq<char>)> {
    let plain = textmap::with_default(columns, field, "FixedString"@);
    if stats_text::loca_column(field) {
        textmap::with_default(plain, field + "_version"@, "int32"@)
    } else {
        plain
    }
}

/// What a data field adds to the columns.
pub open spec fn field_adder(field: Seq<char>) -> spec_fn(Seq<(Seq<char>, Seq<char>)>) -> Seq<
    (Seq<char>, Seq<char>),
> {
    |columns: Seq<(Seq<char>, Seq<char>)>| field_columns(columns, field)
}

/// What was seen of a stats file so far.
pub struct StatsSeen {
    pub current: Option<Seq<char>>,
    pub has_entries: bool,
    pub tables: Seq<(Seq<char>, RawModel)>,
}

/// What is known after a line.
pub open spec fn after_line(st: StatsSeen, line: Seq<char>) -> StatsSeen {
    let t = text::trimmed(line);
    let typed = text::stripped(t, "type \""@);
    let data = text::stripped(t, "data \""@);
    if idle_line(t) {
        st
    } else if stats_text::opens_entry(t) {
        StatsSeen { has_entries: true, ..st }
    } else if typed is Some {
        match stats_text::until_quote(typed->0) {
            Some(name) => StatsSeen { current: Some(name), ..st },
            None => st,
        }
    } else if data is Some && stats_text::until_quote(data->0) is Some && st.current is Some {
        StatsSeen {
            tables: with_stats_columns(
                st.tables,
                stats_table_name(st.current->0),
                field_adder(stats_text::until_quote(data->0)->0),
            ),
            ..st
        }
    } else {
        st
    }
}

/// What is known after several lines.
pub open spec fn after_lines(ls: Seq<Seq<char>>) -> StatsSeen
    decreases ls.len(),
{
    if ls.len() == 0 {
        StatsSeen { current: None, has_entries: false, tables: Seq::empty() }
    } else {
        after_line(after_lines(ls.drop_last()), ls.last())
    }
}

fn note_field(tables: &mut TextMap<RawTableInfo>, stype: &str, field: &str)
    ensures
        final(tables).deep_view() == with_stats_columns(
            old(tables).deep_view(),
            stats_table_name(stype@),
            field_adder(field@),
        ),
{
    let ghost m = tables.deep_view();
    let name = table_for_stats(stype);
    if !tables.contains_key(name.as_str()) {
        tables.entries.push((name.clone(), make_stats_table()));
        assert(tables.deep_view() =~= m.push((name@, stats_table())));
    }
    let ghost m2 = tables.deep_view();
    proof {
        textmap::lemma_key_pos(m, name@);
        textmap::lemma_key_pos(m2, name@);
        if !textmap::has_key(m, name@) {
            textmap::lemma_key_pos_is(m2, name@, m.len() as int);
        }
    }
    match place_of(&tables.entries, name.as_str()) {
        Some(i) => {
            let ghost held = tables.entries@;
            assert(m2[i as int].1 == held[i as int].1.deep_view());
            let info = &mut tables.entries[i].1;
            info.columns.insert_new(owned(field), owned("FixedString"));
            if is_stats_loca_column(field) {
                info.columns.insert_new(glued(field, "_version"), owned("int32"));
            }
            assert(tables.entries@[i as int].1.deep_view() == (RawModel {
                columns: field_columns(m2[i as int].1.columns, field@),
                ..m2[i as int].1
            }));
            assert(tables.deep_view() =~= with_stats_columns(m, name@, field_adder(field@)));
        },
        None => {},
    }
}

/// What was seen of a file that does not hold entries in the usual form.
pub struct OddSeen {
    pub has_key: bool,
    pub has_new: bool,
    pub max_params: nat,
    pub adds: Seq<Seq<char>>,
}

/// Whether a line opens something that is neither an entry nor equipment.
pub open spec fn opens_other(t: Seq<char>) -> bool {
    let lower = text::ascii_lowered(t);
    "new "@.is_prefix_of(t) && !"new entry "@.is_prefix_of(lower) && !"new equipment "@.is_prefix_of(
        lower,
    )
}

/// Whether a line gives a key and a value.
pub open spec fn gives_key(t: Seq<char>) -> bool {
    ("key "@.is_prefix_of(t) || "key\t"@.is_prefix_of(t)) && text::has_text(t, "\""@)
}

/// What is known after a line.
pub open spec fn after_odd_line(st: OddSeen, line: Seq<char>) -> OddSeen {
    let t = text::trimmed(line);
    let rest = text::stripped(t, "add "@);
    if idle_line(t) {
        st
    } else if gives_key(t) {
        OddSeen { has_key: true, ..st }
    } else if opens_other(t) {
        let n = match stats_text::from_quote(t) {
            Some(q) => stats_text::csv_from(q, 0).len(),
            None => 0,
        };
        OddSeen {
            has_new: true,
            max_params: if n > st.max_params {
                n
            } else {
                st.max_params
            },
            ..st
        }
    } else if rest is Some && stats_text::first_word(rest->0).len() > 0 {
        OddSeen { adds: textmap::with_member(st.adds, stats_text::first_word(rest->0)), ..st }
    } else {
        st
    }
}

/// What is known after several lines.
pub open spec fn after_odd_lines(ls: Seq<Seq<char>>) -> OddSeen
    decreases ls.len(),
{
    if ls.len() == 0 {
        OddSeen { has_key: false, has_new: false, max_params: 0, adds: Seq::empty() }
    } else {
        after_odd_line(after_odd_lines(ls.drop_last()), ls.last())
    }
}

/// The columns with those of the positional values behind the name.
pub open spec fn param_columns(columns: Seq<(Seq<char>, Seq<char>)>, n: nat) -> Seq<
    (Seq<char>, Seq<char>),
>
    decreases n,
{
    if n <= 1 {
        columns
    } else {
        textmap::with_default(
            param_columns(columns, (n - 1) as nat),
            "Param"@ + text::decimal((n - 1) as nat),
            "FixedString"@,
        )
    }
}

/// The columns with one for each keyword.
pub open spec fn keyword_columns(
    columns: Seq<(Seq<char>, Seq<char>)>,
    adds: Seq<Seq<char>>,
) -> Seq<(Seq<char>, Seq<char>)>
    decreases adds.len(),
{
    if adds.len() == 0 {
        columns
    } else {
        textmap::with_default(
            keyword_columns(columns, adds.drop_last()),
            stats_text::capitalized(adds.last()),
            "FixedString"@,
        )
    }
}

/// The columns with those of a file that does not hold entries in the usual
/// form.
pub open spec fn odd_columns(
    columns: Seq<(Seq<char>, Seq<char>)>,
    st: OddSeen,
) -> Seq<(Seq<char>, Seq<char>)> {
    let valued = if st.has_key {
        textmap::with_default(columns, "Value"@, "FixedString"@)
    } else {
        columns
    };
    if st.has_new {
        keyword_columns(param_columns(valued, st.max_params), st.adds)
    } else {
        valued
    }
}

/// What such a file adds to the columns.
pub open spec fn odd_adder(st: OddSeen) -> spec_fn(Seq<(Seq<char>, Seq<char>)>) -> Seq<
    (Seq<char>, Seq<char>),
> {
    |columns: Seq<(Seq<char>, Seq<char>)>| odd_columns(columns, st)
}

/// The tables with that of a file that does not hold entries in the usual
/// form.
pub open spec fn with_odd_table(
    tables: Seq<(Seq<char>, RawModel)>,
    content: Seq<char>,
    file_stem: Seq<char>,
) -> Seq<(Seq<char>, RawModel)> {
    let st = after_odd_lines(text::text_lines(content));
    if st.has_key || st.has_new {
        with_stats_columns(tables, stats_table_name(file_stem), odd_adder(st))
    } else {
        tables
    }
}

#[verifier::loop_isolation(false)]
fn add_params(columns: &mut TextMap<String>, n: usize)
    ensures
        final(columns).deep_view() == param_columns(old(columns).deep_view(), n as nat),
{
    let ghost start = columns.deep_view();
    let mut i: usize = 1;
    while i < n
        invariant
            1 <= i,
            i <= n || i == 1,
            columns.deep_view() == param_columns(start, i as nat),
        decreases n - i,
    {
        let d = decimal_text(i as u64);
        columns.insert_new(glued("Param", d.as_str()), owned("FixedString"));
        i += 1;
    }
}

#[verifier::loop_isolation(false)]
fn add_keywords(columns: &mut TextMap<String>, adds: &Vec<String>)
    ensures
        final(columns).deep_view() == keyword_columns(old(columns).deep_view(), adds.deep_view()),
{
    let ghost start = columns.deep_view();
    let ghost all = adds.deep_view();
    let mut i: usize = 0;
    while i < adds.len()
        invariant
            i <= adds@.len(),
            columns.deep_view() == keyword_columns(start, all.take(i as int)),
        decreases adds@.len() - i,
    {
        columns.insert_new(capitalize_first(adds[i].as_str()), owned("FixedString"));
        assert(all.take(i + 1).drop_last() =~= all.take(i as int));
        i += 1;
    }
    assert(all.take(i as int) =~= all);
}

struct OddScan {
    has_key: bool,
    has_new: bool,
    max_params: usize,
    adds: Vec<String>,
}

impl DeepView for OddScan {
    type V = OddSeen;

    closed spec fn deep_view(&self) -> OddSeen {
        OddSeen {
            has_key: self.has_key,
            has_new: self.has_new,
            max_params: self.max_params as nat,
            adds: self.adds.deep_view(),
        }
    }
}

fn scan_odd_line(st: &mut OddScan, line: &str)
    ensures
        final(st).deep_view() == after_odd_line(old(st).deep_view(), line@),
{
    let trimmed = trim(line);
    let t = trimmed.as_str();
    if is_idle(t) {
        return;
    }
    let lower = to_ascii_lower(t);
    if (starts_with(t, "key ") || starts_with(t, "key\t")) && contains(t, "\"") {
        st.has_key = true;
    } else if starts_with(t, "new ") && !starts_with(lower.as_str(), "new entry ") && !starts_with(
        lower.as_str(),
        "new equipment ",
    ) {
        st.has_new = true;
        if let Some(q) = quoted_rest(t) {
            let params = parse_csv_values(q.as_str());
            if params.len() > st.max_params {
                st.max_params = params.len();
            }
        }
    } else if let Some(rest) = strip_prefix(t, "add ") {
        let kw = keyword_of(rest.as_str());
        if !kw.as_str().is_empty() {
            add_member(&mut st.adds, kw.as_str());
        }
    }
}

#[verifier::loop_isolation(false)]
fn scan_odd(content: &str) -> (r: OddScan)
    ensures
        r.deep_view() == after_odd_lines(text::text_lines(content@)),
{
    let ls = lines(content);
    let ghost all = ls.deep_view();
    let mut st = OddScan { has_key: false, has_new: false, max_params: 0, adds: Vec::new() };
    assert(st.adds.deep_view() =~= Seq::<Seq<char>>::empty());
    let mut i: usize = 0;
    while i < ls.len()
        invariant
            i <= ls@.len(),
            st.deep_view() == after_odd_lines(all.take(i as int)),
        decreases ls@.len() - i,
    {
        scan_odd_line(&mut st, ls[i].as_str());
        assert(all.take(i + 1).drop_last() =~= all.take(i as int));
        i += 1;
    }
    assert(all.take(i as int) =~= all);
    st
}

/// Notes the table of a file that does not hold entries in the usual form:
/// comma-separated entries, keys with values, or groups.
pub fn discover_nonstandard_stats(
    content: &str,
    file_stem: &str,
    tables: &mut TextMap<RawTableInfo>,
)
    ensures
        final(tables).deep_view() == with_odd_table(
            old(tables).deep_view(),
            content@,
            file_stem@,
        ),
{
    let ghost m = tables.deep_view();
    let st = scan_odd(content);
    if !st.has_key && !st.has_new {
        return;
    }
    let name = table_for_stats(file_stem);
    if !tables.contains_key(name.as_str()) {
        tables.entries.push((name.clone(), make_stats_table()));
        assert(tables.deep_view() =~= m.push((name@, stats_table())));
    }
    let ghost m2 = tables.deep_view();
    proof {
        textmap::lemma_key_pos(m, name@);
        textmap::lemma_key_pos(m2, name@);
        if !textmap::has_key(m, name@) {
            textmap::lemma_key_pos_is(m2, name@, m.len() as int);
        }
    }
    match place_of(&tables.entries, name.as_str()) {
        Some(i) => {
            let ghost held = tables.entries@;
            assert(m2[i as int].1 == held[i as int].1.deep_view());
            let info = &mut tables.entries[i].1;
            if st.has_key {
                info.columns.insert_new(owned("Value"), owned("FixedString"));
            }
            if st.has_new {
                add_params(&mut info.columns, st.max_params);
                add_keywords(&mut info.columns, &st.adds);
            }
            assert(tables.entries@[i as int].1.deep_view() == (RawModel {
                columns: odd_columns(m2[i as int].1.columns, st.deep_view()),
                ..m2[i as int].1
            }));
            assert(tables.deep_view() =~= with_stats_columns(m, name@, odd_adder(st.deep_view())));
        },
        None => {},
    }
}

/// The table for text that is kept as it stands.
pub open spec fn raw_text_table() -> RawModel {
    fixed_tables::fixed_table("txt"@, seq![("content"@, "TEXT"@)])
}

/// The tables that a stats file tells of. Where it holds no entry in the usual
/// form, the other forms are tried, and at last the text is kept as it stands.
pub open spec fn stats_tables(content: Seq<char>, file_stem: Seq<char>) -> Seq<
    (Seq<char>, RawModel),
> {
    let st = after_lines(text::text_lines(content));
    if st.has_entries || text::trimmed(content).len() == 0 {
        st.tables
    } else {
        let tried = if file_stem.len() > 0 {
            with_odd_table(st.tables, content, file_stem)
        } else {
            st.tables
        };
        if tried.len() == 0 {
            seq![("txt__raw"@, raw_text_table())]
        } else {
            tried
        }
    }
}

struct StatsScan {
    current: Option<String>,
    has_entries: bool,
    tables: TextMap<RawTableInfo>,
}

impl DeepView for StatsScan {
    type V = StatsSeen;

    closed spec fn deep_view(&self) -> StatsSeen {
        StatsSeen {
            current: self.current.deep_view(),
            has_entries: self.has_entries,
            tables: self.tables.deep_view(),
        }
    }
}

fn scan_line(st: &mut StatsScan, line: &str)
    ensures
        final(st).deep_view() == after_line(old(st).deep_view(), line@),
{
    let trimmed = trim(line);
    let t = trimmed.as_str();
    if is_idle(t) {
        return;
    }
    if is_new_entry(t) {
        st.has_entries = true;
    } else if let Some(rest) = strip_prefix(t, "type \"") {
        if let Some(name) = before_quote(rest.as_str()) {
            st.current = Some(name);
        }
    } else if let Some(rest) = strip_prefix(t, "data \"") {
        if let Some(field) = before_quote(rest.as_str()) {
            if let Some(stype) = copy_opt(&st.current) {
                note_field(&mut st.tables, stype.as_str(), field.as_str());
            }
        }
    }
}

/// What a stats file told; a file that could not be read told nothing.
#[verifier::loop_isolation(false)]
pub fn discover_stats(content: &Option<String>, file_stem: &str) -> (r: FileDiscovery)
    ensures
        r.deep_view().regions.len() == 0,
        r.deep_view().tables == (match content {
            Some(c) => stats_tables(c@, file_stem@),
            None => Seq::empty(),
        }),
{
    let mut d = FileDiscovery::new();
    let body = match content {
        Some(c) => c,
        None => {
            return d;
        },
    };
    let ls = lines(body.as_str());
    let ghost all = ls.deep_view();
    let mut st = StatsScan { current: None, has_entries: false, tables: TextMap::new() };
    let mut i: usize = 0;
    while i < ls.len()
        invariant
            i <= ls@.len(),
            st.deep_view() == after_lines(all.take(i as int)),
        decreases ls@.len() - i,
    {
        scan_line(&mut st, ls[i].as_str());
        assert(all.take(i + 1).drop_last() =~= all.take(i as int));
        i += 1;
    }
    assert(all.take(i as int) =~= all);
    let trimmed = trim(body.as_str());
    if !st.has_entries && !trimmed.as_str().is_empty() {
        if !file_stem.is_empty() {
            discover_nonstandard_stats(body.as_str(), file_stem, &mut st.tables);
        }
        if st.tables.is_empty() {
            let columns: Vec<(&'static str, &'static str)> = vec![("content", "TEXT")];
            assert(columns.deep_view() =~= raw_text_table().columns);
            st.tables.entries.push((owned("txt__raw"), table_with("txt", &columns)));
            assert(st.tables.deep_view() =~= seq![("txt__raw"@, raw_text_table())]);
        }
    }
    d.tables = st.tables;
    d
}

} // verus!
