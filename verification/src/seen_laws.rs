//! What holds of the tables that stats files tell of.

use vstd::prelude::*;
use crate::discovery::RawModel;
use crate::discovery_laws;
use crate::files;
use crate::stats_discovery;
use crate::stats_text;
use crate::text;
use crate::textmap;

verus! {

// ---------------------------------------------------------------------------
// Files with entries
// ---------------------------------------------------------------------------

/// What a line says behind a keyword and a quotation mark, up to the next one. The keyword
/// stands as it is, with white space before it.
pub open spec fn tells(line: Seq<char>, keyword: Seq<char>) -> Option<Seq<char>> {
    let t = text::trimmed(line);
    let n = keyword.len() as int;
    let q = text::char_at_or_end(t.skip(n), '"', 0);
    if n <= t.len() && t.take(n) == keyword && q < t.skip(n).len() {
        Some(t.skip(n).take(q))
    } else {
        None
    }
}

/// The last of what lines tell behind a keyword.
pub open spec fn last_told(ls: Seq<Seq<char>>, keyword: Seq<char>) -> Option<Seq<char>>
    decreases ls.len(),
{
    if ls.len() == 0 {
        None
    } else if tells(ls.last(), keyword) is Some {
        tells(ls.last(), keyword)
    } else {
        last_told(ls.drop_last(), keyword)
    }
}

/// Whether a line tells of a field of entries of a type: it names the field, and the last
/// type that was named before it is this one.
pub open spec fn tells_field(
    ls: Seq<Seq<char>>,
    i: int,
    stype: Seq<char>,
    field: Seq<char>,
) -> bool {
    &&& 0 <= i < ls.len()
    &&& tells(ls[i], "data \""@) == Some(field)
    &&& last_told(ls.take(i), "type \""@) == Some(stype)
}

/// Whether a table has a column for a field, and one for its version where it is localized.
pub open spec fn has_field(t: RawModel, field: Seq<char>) -> bool {
    &&& textmap::has_key(t.columns, field)
    &&& stats_text::loca_column(field) ==> textmap::has_key(t.columns, field + "_version"@)
}

/// Whether a table has the columns that all tables of entries have.
pub open spec fn is_entry_table(t: RawModel) -> bool {
    &&& t.source_type == "stats"@
    &&& textmap::has_key(t.columns, "_entry_name"@)
    &&& textmap::has_key(t.columns, "_type"@)
    &&& textmap::has_key(t.columns, "_using"@)
}

/// Whether some line tells of a field of the entries of a table.
pub open spec fn is_told(ls: Seq<Seq<char>>, table: Seq<char>) -> bool {
    exists|i: int, stype: Seq<char>, field: Seq<char>| #[trigger]
        tells_field(ls, i, stype, field) && table == "stats__"@ + files::sanitized(stype)
}

proof fn lemma_starts(t: Seq<char>, word: Seq<char>, c: char)
    requires
        text::stripped(t, word) is Some,
        word.len() > 0,
        word[0] == c,
    ensures
        t.len() > 0,
        t[0] == c,
{
    assert(t.subrange(0, word.len() as int)[0] == t[0]);
}

proof fn lemma_tells(line: Seq<char>, keyword: Seq<char>)
    ensures
        tells(line, keyword) == match text::stripped(text::trimmed(line), keyword) {
            Some(rest) => stats_text::until_quote(rest),
            None => None,
        },
{
    let t = text::trimmed(line);
    let n = keyword.len() as int;
    if n <= t.len() {
        assert(t.take(n) =~= t.subrange(0, n));
        text::lemma_char_at_or_end(t.skip(n), '"', 0);
    }
}

proof fn lemma_words(t: Seq<char>)
    ensures
        text::stripped(t, "type \""@) is Some ==> {
            &&& !stats_discovery::idle_line(t)
            &&& !stats_text::opens_entry(t)
            &&& text::stripped(t, "data \""@) is None
        },
        text::stripped(t, "data \""@) is Some ==> {
            &&& !stats_discovery::idle_line(t)
            &&& !stats_text::opens_entry(t)
        },
{
    reveal_strlit("type \"");
    reveal_strlit("data \"");
    reveal_strlit("//");
    reveal_strlit("new");
    if text::stripped(t, "type \""@) is Some {
        lemma_starts(t, "type \""@, 't');
    }
    if text::stripped(t, "data \""@) is Some {
        lemma_starts(t, "data \""@, 'd');
    }
    if "//"@.is_prefix_of(t) {
        assert(t.subrange(0, 2)[0] == t[0]);
    }
    if stats_text::opens_entry(t) {
        let w = t.subrange(0, 3);
        assert(text::ascii_lowered(w)[0] == text::ascii_lower(w[0]));
        assert("new"@[0] == 'n');
        assert(w[0] == t[0]);
    }
}

proof fn lemma_default_keeps(
    m: Seq<(Seq<char>, Seq<char>)>,
    k: Seq<char>,
    v: Seq<char>,
)
    ensures
        textmap::has_key(textmap::with_default(m, k, v), k),
        forall|c: Seq<char>| #[trigger]
            textmap::has_key(m, c) ==> textmap::has_key(textmap::with_default(m, k, v), c),
{
    let r = textmap::with_default(m, k, v);
    if !textmap::has_key(m, k) {
        textmap::lemma_key_pos(r, k);
        assert(r[m.len() as int].0 == k);
        assert forall|c: Seq<char>| #[trigger] textmap::has_key(m, c) implies textmap::has_key(
            r,
            c,
        ) by {
            assert(r.drop_last() =~= m);
        }
    }
}

proof fn lemma_fields_kept(columns: Seq<(Seq<char>, Seq<char>)>, field: Seq<char>)
    ensures
        ({
            let after = stats_discovery::field_columns(columns, field);
            &&& textmap::has_key(after, field)
            &&& stats_text::loca_column(field) ==> textmap::has_key(after, field + "_version"@)
            &&& forall|c: Seq<char>| #[trigger]
                textmap::has_key(columns, c) ==> textmap::has_key(after, c)
        }),
{
    lemma_default_keeps(columns, field, "FixedString"@);
    let plain = textmap::with_default(columns, field, "FixedString"@);
    lemma_default_keeps(plain, field + "_version"@, "int32"@);
}

proof fn lemma_stats_table()
    ensures
        is_entry_table(stats_discovery::stats_table()),
{
    let c = stats_discovery::stats_table().columns;
    textmap::lemma_key_pos(c, "_entry_name"@);
    textmap::lemma_key_pos(c, "_type"@);
    textmap::lemma_key_pos(c, "_using"@);
    assert(c[0].0 == "_entry_name"@ && c[1].0 == "_type"@ && c[2].0 == "_using"@);
}

spec fn sound_seen(ls: Seq<Seq<char>>, st: stats_discovery::StatsSeen) -> bool {
    &&& st.current == last_told(ls, "type \""@)
    &&& forall|n: Seq<char>| #[trigger]
        textmap::has_key(st.tables, n) ==> is_entry_table(textmap::value_of(st.tables, n)->0)
            && is_told(ls, n)
    &&& forall|i: int, stype: Seq<char>, field: Seq<char>| #[trigger]
        tells_field(ls, i, stype, field) ==> {
            let n = "stats__"@ + files::sanitized(stype);
            textmap::has_key(st.tables, n) && has_field(textmap::value_of(st.tables, n)->0, field)
        }
}

proof fn lemma_told_stays(ls: Seq<Seq<char>>, n: Seq<char>)
    requires
        ls.len() > 0,
        is_told(ls.drop_last(), n),
    ensures
        is_told(ls, n),
{
    let d = ls.drop_last();
    let (i, stype, field) = choose|i: int, stype: Seq<char>, field: Seq<char>| #[trigger]
        tells_field(d, i, stype, field) && n == "stats__"@ + files::sanitized(stype);
    assert(d.take(i) =~= ls.take(i));
    assert(tells_field(ls, i, stype, field));
}

proof fn lemma_field_told(
    ls: Seq<Seq<char>>,
    st: stats_discovery::StatsSeen,
    stype: Seq<char>,
    field: Seq<char>,
)
    requires
        ls.len() > 0,
        sound_seen(ls.drop_last(), st),
        tells_field(ls, ls.len() - 1, stype, field),
        last_told(ls, "type \""@) == last_told(ls.drop_last(), "type \""@),
    ensures
        sound_seen(
            ls,
            stats_discovery::StatsSeen {
                tables: stats_discovery::with_stats_columns(
                    st.tables,
                    stats_discovery::stats_table_name(stype),
                    stats_discovery::field_adder(field),
                ),
                ..st
            },
        ),
{
    let d = ls.drop_last();
    let name = stats_discovery::stats_table_name(stype);
    let base = match textmap::value_of(st.tables, name) {
        Some(t) => t,
        None => stats_discovery::stats_table(),
    };
    let now = RawModel {
        columns: stats_discovery::field_columns(base.columns, field),
        ..base
    };
    let after = textmap::with_value(st.tables, name, now);
    assert(after == stats_discovery::with_stats_columns(
        st.tables,
        name,
        stats_discovery::field_adder(field),
    ));
    lemma_stats_table();
    lemma_fields_kept(base.columns, field);
    if textmap::has_key(st.tables, name) {
        assert(is_entry_table(textmap::value_of(st.tables, name)->0));
    }
    assert(is_entry_table(base));
    assert(is_entry_table(now));
    discovery_laws::lemma_set(st.tables, name, now, name);
    assert forall|n: Seq<char>| #[trigger]
        textmap::has_key(after, n) implies is_entry_table(textmap::value_of(after, n)->0)
        && is_told(ls, n) by {
        discovery_laws::lemma_set(st.tables, name, now, n);
        if n == name {
            assert(tells_field(ls, ls.len() - 1, stype, field));
        } else {
            assert(textmap::has_key(st.tables, n));
            lemma_told_stays(ls, n);
        }
    }
    assert forall|i: int, s: Seq<char>, f: Seq<char>| #[trigger]
        tells_field(ls, i, s, f) implies {
        let n = "stats__"@ + files::sanitized(s);
        textmap::has_key(after, n) && has_field(textmap::value_of(after, n)->0, f)
    } by {
        let n = "stats__"@ + files::sanitized(s);
        discovery_laws::lemma_set(st.tables, name, now, n);
        if i < d.len() {
            assert(d.take(i) =~= ls.take(i));
            assert(tells_field(d, i, s, f));
            let was = textmap::value_of(st.tables, n)->0;
            assert(has_field(was, f));
            if n == name {
                assert(textmap::has_key(base.columns, f));
                assert(stats_text::loca_column(f) ==> textmap::has_key(
                    base.columns,
                    f + "_version"@,
                ));
            }
        } else {
            assert(ls.take(ls.len() - 1) =~= d);
        }
    }
}

proof fn lemma_seen(ls: Seq<Seq<char>>)
    ensures
        sound_seen(ls, stats_discovery::after_lines(ls)),
    decreases ls.len(),
{
    let after = stats_discovery::after_lines(ls);
    if ls.len() > 0 {
        let d = ls.drop_last();
        let before = stats_discovery::after_lines(d);
        let line = ls.last();
        lemma_seen(d);
        lemma_tells(line, "type \""@);
        lemma_tells(line, "data \""@);
        lemma_words(text::trimmed(line));
        assert(ls.take(ls.len() - 1) =~= d);
        if tells(line, "data \""@) is Some && before.current is Some {
            lemma_field_told(ls, before, before.current->0, tells(line, "data \""@)->0);
        } else {
            assert(after.tables == before.tables);
            assert forall|n: Seq<char>| #[trigger]
                textmap::has_key(after.tables, n) implies is_entry_table(
                textmap::value_of(after.tables, n)->0,
            ) && is_told(ls, n) by {
                lemma_told_stays(ls, n);
            }
            assert forall|i: int, stype: Seq<char>, field: Seq<char>| #[trigger]
                tells_field(ls, i, stype, field) implies {
                let n = "stats__"@ + files::sanitized(stype);
                textmap::has_key(after.tables, n) && has_field(
                    textmap::value_of(after.tables, n)->0,
                    field,
                )
            } by {
                if i < d.len() {
                    assert(d.take(i) =~= ls.take(i));
                    assert(tells_field(d, i, stype, field));
                }
            }
        }
    }
}

/// A stats file tells of the tables of those types whose fields it names, and of no
/// others; each has the columns of all entries and one for each field.
pub proof fn law_fields_become_columns(ls: Seq<Seq<char>>)
    ensures
        ({
            let tables = stats_discovery::after_lines(ls).tables;
            &&& forall|i: int, stype: Seq<char>, field: Seq<char>| #[trigger]
                tells_field(ls, i, stype, field) ==> {
                    let n = "stats__"@ + files::sanitized(stype);
                    textmap::has_key(tables, n) && has_field(
                        textmap::value_of(tables, n)->0,
                        field,
                    )
                }
            &&& forall|n: Seq<char>| #[trigger]
                textmap::has_key(tables, n) ==> is_told(ls, n) && is_entry_table(
                    textmap::value_of(tables, n)->0,
                )
        }),
{
    lemma_seen(ls);
}

// ---------------------------------------------------------------------------
// Files in other forms
// ---------------------------------------------------------------------------

/// Whether a line holds something and begins with a word as it stands.
pub open spec fn leads(line: Seq<char>, word: Seq<char>) -> bool {
    word.is_prefix_of(text::trimmed(line))
}

/// Whether a line gives a key and a value.
pub open spec fn is_key_line(line: Seq<char>) -> bool {
    (leads(line, "key "@) || leads(line, "key\t"@)) && text::has_text(text::trimmed(line), "\""@)
}

/// Whether a line opens something that is neither an entry nor equipment.
pub open spec fn is_new_line(line: Seq<char>) -> bool {
    let lower = text::ascii_lowered(text::trimmed(line));
    leads(line, "new "@) && !"new entry "@.is_prefix_of(lower) && !"new equipment "@.is_prefix_of(
        lower,
    )
}

/// Whether a line adds something under a keyword.
pub open spec fn adds_under(line: Seq<char>, word: Seq<char>) -> bool {
    leads(line, "add "@) && word.len() > 0 && word == stats_text::first_word(
        text::trimmed(line).skip(4),
    )
}

/// Whether a line holds values, the first of them in quotation marks.
pub open spec fn holds_values(line: Seq<char>, n: nat) -> bool {
    let t = text::trimmed(line);
    let q = text::char_at_or_end(t, '"', 0);
    q < t.len() && stats_text::csv_from(t.skip(q), 0).len() == n
}

spec fn sound_odd(ls: Seq<Seq<char>>, st: stats_discovery::OddSeen) -> bool {
    &&& forall|i: int| 0 <= i < ls.len() && is_key_line(#[trigger] ls[i]) ==> st.has_key
    &&& forall|i: int| 0 <= i < ls.len() && is_new_line(#[trigger] ls[i]) ==> st.has_new
    &&& forall|i: int, n: nat|
        0 <= i < ls.len() && is_new_line(ls[i]) && #[trigger] holds_values(ls[i], n)
            ==> st.max_params >= n
    &&& forall|i: int, w: Seq<char>|
        0 <= i < ls.len() && #[trigger] adds_under(ls[i], w) ==> st.adds.contains(w)
}

proof fn lemma_odd_words(line: Seq<char>)
    ensures
        is_key_line(line) ==> !is_new_line(line) && !stats_discovery::idle_line(
            text::trimmed(line),
        ),
        is_new_line(line) ==> !stats_discovery::idle_line(text::trimmed(line)),
        leads(line, "add "@) ==> {
            &&& !is_key_line(line)
            &&& !is_new_line(line)
            &&& !stats_discovery::idle_line(text::trimmed(line))
            &&& text::stripped(text::trimmed(line), "add "@) == Some(text::trimmed(line).skip(4))
        },
{
    reveal_strlit("key ");
    reveal_strlit("key\t");
    reveal_strlit("new ");
    reveal_strlit("add ");
    reveal_strlit("//");
    let t = text::trimmed(line);
    if t.len() >= 4 {
        assert(t.subrange(0, 4)[0] == t[0]);
    }
    if "//"@.is_prefix_of(t) {
        assert(t.subrange(0, 2)[0] == t[0]);
    }
}

proof fn lemma_odd_seen(ls: Seq<Seq<char>>)
    ensures
        sound_odd(ls, stats_discovery::after_odd_lines(ls)),
    decreases ls.len(),
{
    let after = stats_discovery::after_odd_lines(ls);
    if ls.len() > 0 {
        let d = ls.drop_last();
        let before = stats_discovery::after_odd_lines(d);
        let line = ls.last();
        let t = text::trimmed(line);
        lemma_odd_seen(d);
        lemma_odd_words(line);
        text::lemma_char_at_or_end(t, '"', 0);
        assert forall|i: int, n: nat|
            0 <= i < ls.len() && is_new_line(ls[i]) && #[trigger] holds_values(
                ls[i],
                n,
            ) implies after.max_params >= n by {
            if i < d.len() {
                assert(d[i] == ls[i]);
                assert(holds_values(d[i], n));
            }
        }
        assert forall|i: int, w: Seq<char>|
            0 <= i < ls.len() && #[trigger] adds_under(ls[i], w) implies after.adds.contains(w) by {
            if i < d.len() {
                assert(d[i] == ls[i]);
                assert(adds_under(d[i], w));
                assert(before.adds.contains(w));
                let k = choose|k: int| 0 <= k < before.adds.len() && before.adds[k] == w;
                assert(after.adds[k] == w);
            } else if !before.adds.contains(w) {
                assert(after.adds[before.adds.len() as int] == w);
            }
        }
        assert forall|i: int| 0 <= i < ls.len() && is_key_line(#[trigger] ls[i]) implies after.has_key by {
            if i < d.len() {
                assert(d[i] == ls[i]);
            }
        }
        assert forall|i: int| 0 <= i < ls.len() && is_new_line(#[trigger] ls[i]) implies after.has_new by {
            if i < d.len() {
                assert(d[i] == ls[i]);
            }
        }
    }
}

proof fn lemma_params(columns: Seq<(Seq<char>, Seq<char>)>, n: nat)
    ensures
        forall|k: nat|
            1 <= k < n ==> textmap::has_key(
                stats_discovery::param_columns(columns, n),
                "Param"@ + #[trigger] text::decimal(k),
            ),
        forall|c: Seq<char>| #[trigger]
            textmap::has_key(columns, c) ==> textmap::has_key(
                stats_discovery::param_columns(columns, n),
                c,
            ),
    decreases n,
{
    if n > 1 {
        let m = (n - 1) as nat;
        lemma_params(columns, m);
        lemma_default_keeps(
            stats_discovery::param_columns(columns, m),
            "Param"@ + text::decimal(m),
            "FixedString"@,
        );
    }
}

proof fn lemma_keywords(columns: Seq<(Seq<char>, Seq<char>)>, adds: Seq<Seq<char>>)
    ensures
        forall|w: Seq<char>| #[trigger]
            adds.contains(w) ==> textmap::has_key(
                stats_discovery::keyword_columns(columns, adds),
                stats_text::capitalized(w),
            ),
        forall|c: Seq<char>| #[trigger]
            textmap::has_key(columns, c) ==> textmap::has_key(
                stats_discovery::keyword_columns(columns, adds),
                c,
            ),
    decreases adds.len(),
{
    if adds.len() > 0 {
        let d = adds.drop_last();
        let before = stats_discovery::keyword_columns(columns, d);
        let after = stats_discovery::keyword_columns(columns, adds);
        lemma_keywords(columns, d);
        lemma_default_keeps(before, stats_text::capitalized(adds.last()), "FixedString"@);
        assert forall|w: Seq<char>| #[trigger] adds.contains(w) implies textmap::has_key(
            after,
            stats_text::capitalized(w),
        ) by {
            let k = choose|k: int| 0 <= k < adds.len() && adds[k] == w;
            if k < d.len() {
                assert(d[k] == w);
                assert(d.contains(w));
                assert(textmap::has_key(before, stats_text::capitalized(w)));
            }
        }
    }
}

/// A stats file without entries in the usual form tells of one table under its own name.
/// The table has a column for the values of keys, one for each place behind a name, and
/// one for each keyword under which something is added.
pub proof fn law_other_forms_become_columns(content: Seq<char>, stem: Seq<char>)
    requires
        stem.len() > 0,
        text::trimmed(content).len() > 0,
        !stats_discovery::after_lines(text::text_lines(content)).has_entries,
    ensures
        ({
            let ls = text::text_lines(content);
            let tables = stats_discovery::stats_tables(content, stem);
            let name = "stats__"@ + files::sanitized(stem);
            let columns = textmap::value_of(tables, name)->0.columns;
            &&& forall|i: int|
                0 <= i < ls.len() && is_key_line(#[trigger] ls[i]) ==> textmap::has_key(
                    tables,
                    name,
                ) && textmap::has_key(columns, "Value"@)
            &&& forall|i: int|
                0 <= i < ls.len() && is_new_line(#[trigger] ls[i]) ==> textmap::has_key(
                    tables,
                    name,
                )
            &&& forall|i: int, n: nat, k: nat|
                0 <= i < ls.len() && is_new_line(ls[i]) && #[trigger] holds_values(ls[i], n) && 1
                    <= k < n ==> textmap::has_key(columns, "Param"@ + #[trigger] text::decimal(k))
            &&& forall|j: int, i: int, w: Seq<char>|
                0 <= j < ls.len() && #[trigger] is_new_line(ls[j]) && 0 <= i < ls.len()
                    && #[trigger] adds_under(ls[i], w) ==> textmap::has_key(
                    columns,
                    stats_text::capitalized(w),
                )
        }),
{
    let ls = text::text_lines(content);
    let seen = stats_discovery::after_lines(ls);
    let st = stats_discovery::after_odd_lines(ls);
    let name = stats_discovery::stats_table_name(stem);
    lemma_odd_seen(ls);
    let base = match textmap::value_of(seen.tables, name) {
        Some(t) => t,
        None => stats_discovery::stats_table(),
    };
    let valued = if st.has_key {
        textmap::with_default(base.columns, "Value"@, "FixedString"@)
    } else {
        base.columns
    };
    lemma_default_keeps(base.columns, "Value"@, "FixedString"@);
    lemma_params(valued, st.max_params);
    lemma_keywords(stats_discovery::param_columns(valued, st.max_params), st.adds);
    let now = RawModel { columns: stats_discovery::odd_columns(base.columns, st), ..base };
    discovery_laws::lemma_set(seen.tables, name, now, name);
    let tables = stats_discovery::stats_tables(content, stem);
    if st.has_key || st.has_new {
        assert(tables == textmap::with_value(seen.tables, name, now));
    }
    let columns = textmap::value_of(tables, name)->0.columns;
    assert forall|i: int, n: nat, k: nat|
        0 <= i < ls.len() && is_new_line(ls[i]) && #[trigger] holds_values(ls[i], n) && 1 <= k
            < n implies textmap::has_key(columns, "Param"@ + #[trigger] text::decimal(k)) by {
        assert(st.has_new && st.max_params >= n);
        assert(textmap::has_key(
            stats_discovery::param_columns(valued, st.max_params),
            "Param"@ + text::decimal(k),
        ));
    }
    assert forall|j: int, i: int, w: Seq<char>|
        0 <= j < ls.len() && #[trigger] is_new_line(ls[j]) && 0 <= i < ls.len()
            && #[trigger] adds_under(ls[i], w) implies textmap::has_key(
        columns,
        stats_text::capitalized(w),
    ) by {
        assert(st.adds.contains(w));
    }
}

} // verus!
