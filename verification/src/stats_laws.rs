//! What holds of the entries that are read from stats files.

use vstd::prelude::*;
use crate::files;
use crate::schema::SchemaModel;
use crate::stats_discovery;
use crate::stats_parse;
use crate::stats_parse::{EntryScanModel, StatsModel};
use crate::stats_text;
use crate::text;
use crate::textmap;

verus! {

// ---------------------------------------------------------------------------
// Lines
// ---------------------------------------------------------------------------

/// Whether a text holds no quotation mark.
pub open spec fn unquoted(s: Seq<char>) -> bool {
    forall|i: int| 0 <= i < s.len() ==> #[trigger] s[i] != '"'
}

/// What a line says behind a keyword and a quotation mark, up to the next one. The
/// keyword may stand in any case, with white space before it.
pub open spec fn said(line: Seq<char>, keyword: Seq<char>) -> Option<Seq<char>> {
    let t = text::trimmed(line);
    let n = keyword.len() as int;
    let rest = t.skip(n);
    let q = text::char_at_or_end(rest, '"', 0);
    if n <= t.len() && text::ascii_lowered(t.take(n)) == keyword && q < rest.len() {
        Some(rest.take(q))
    } else {
        None
    }
}

/// The name of the entry that a line opens.
pub open spec fn opened(line: Seq<char>) -> Option<Seq<char>> {
    said(line, "new entry \""@)
}

/// The last of what lines say behind a keyword.
pub open spec fn last_said(ls: Seq<Seq<char>>, keyword: Seq<char>) -> Option<Seq<char>>
    decreases ls.len(),
{
    if ls.len() == 0 {
        None
    } else if said(ls.last(), keyword) is Some {
        said(ls.last(), keyword)
    } else {
        last_said(ls.drop_last(), keyword)
    }
}

/// Whether a line is made of the word `data`, a field in quotation marks, and what stands
/// behind the next quotation mark.
pub open spec fn has_parts(line: Seq<char>, field: Seq<char>, gap: Seq<char>, rest: Seq<char>) -> bool {
    let t = text::trimmed(line);
    &&& t.len() >= 6
    &&& text::ascii_lowered(t.take(6)) == "data \""@
    &&& t.skip(6) == field + seq!['"'] + gap + seq!['"'] + rest
    &&& unquoted(field)
    &&& unquoted(gap)
}

/// Whether a text is a value and what closes it: the value reaches to the last quotation
/// mark, or to the end where there is none.
pub open spec fn closes_value(rest: Seq<char>, value: Seq<char>) -> bool {
    ||| exists|tail: Seq<char>| #[trigger] unquoted(tail) && rest == value + seq!['"'] + tail
    ||| unquoted(rest) && value == text::trimmed(rest)
}

/// Whether a line gives a field a value: `data "FIELD" "VALUE"`.
pub open spec fn gives(line: Seq<char>, field: Seq<char>, value: Seq<char>) -> bool {
    exists|gap: Seq<char>, rest: Seq<char>| #[trigger]
        has_parts(line, field, gap, rest) && closes_value(rest, value)
}

/// Whether a line gives a field a value.
pub open spec fn gives_some(line: Seq<char>) -> bool {
    exists|field: Seq<char>, gap: Seq<char>, rest: Seq<char>| #[trigger]
        has_parts(line, field, gap, rest)
}

/// Whether fields are those that lines give, one after another.
pub open spec fn given_by(data: Seq<(Seq<char>, Seq<char>)>, ls: Seq<Seq<char>>) -> bool
    decreases ls.len(),
{
    if ls.len() == 0 {
        data.len() == 0
    } else if gives_some(ls.last()) {
        data.len() > 0 && gives(ls.last(), data.last().0, data.last().1) && given_by(
            data.drop_last(),
            ls.drop_last(),
        )
    } else {
        given_by(data, ls.drop_last())
    }
}

proof fn lemma_lowered(s: Seq<char>)
    requires
        forall|i: int| 0 <= i < s.len() ==> !('A' <= #[trigger] s[i] <= 'Z'),
    ensures
        text::ascii_lowered(s) == s,
{
    assert(text::ascii_lowered(s) =~= s);
}

/// What a line says behind a keyword is what follows the keyword, up to a quotation mark.
pub proof fn lemma_said(line: Seq<char>, keyword: Seq<char>)
    requires
        forall|i: int| 0 <= i < keyword.len() ==> !('A' <= #[trigger] keyword[i] <= 'Z'),
    ensures
        said(line, keyword) == match text::stripped_any_case(text::trimmed(line), keyword) {
            Some(rest) => stats_text::until_quote(rest),
            None => None,
        },
{
    lemma_lowered(keyword);
    let t = text::trimmed(line);
    let n = keyword.len() as int;
    if n <= t.len() {
        text::lemma_char_at_or_end(t.skip(n), '"', 0);
    }
}

/// A text that begins with a keyword begins with its first letter.
pub proof fn lemma_first_letter(t: Seq<char>, keyword: Seq<char>, c: char)
    requires
        text::stripped_any_case(t, keyword) is Some,
        keyword.len() > 0,
        keyword[0] == c,
        'a' <= c <= 'z',
    ensures
        t.len() > 0,
        text::ascii_lower(t[0]) == c,
{
    let n = keyword.len() as int;
    let a = text::ascii_lowered(t.take(n));
    let b = text::ascii_lowered(keyword);
    assert(a[0] == text::ascii_lower(t.take(n)[0]));
    assert(b[0] == text::ascii_lower(keyword[0]));
    assert(text::ascii_lower(c) == c);
}

/// A line that begins with a letter holds something.
pub proof fn lemma_not_idle(t: Seq<char>, c: char)
    requires
        t.len() > 0,
        text::ascii_lower(t[0]) == c,
        'a' <= c <= 'z',
    ensures
        !stats_discovery::idle_line(t),
{
    reveal_strlit("//");
    if "//"@.is_prefix_of(t) {
        assert(t.subrange(0, 2)[0] == t[0]);
        assert("//"@[0] == '/');
    }
}

proof fn lemma_quote_at(a: Seq<char>, b: Seq<char>)
    requires
        unquoted(a),
    ensures
        text::char_at_or_end(a + seq!['"'] + b, '"', 0) == a.len(),
{
    let s = a + seq!['"'] + b;
    text::lemma_char_at_or_end(s, '"', 0);
    assert(s[a.len() as int] == '"');
    let n = text::char_at_or_end(s, '"', 0);
    if n < a.len() {
        assert(s[n] == a[n]);
    }
}

proof fn lemma_after_last_is(s: Seq<char>)
    ensures
        ({
            let q = files::after_last(s, '"');
            &&& 0 <= q <= s.len()
            &&& q > 0 ==> s[q - 1] == '"' && unquoted(s.skip(q))
            &&& q == 0 ==> unquoted(s)
        }),
    decreases s.len(),
{
    if s.len() > 0 && s.last() != '"' {
        let d = s.drop_last();
        lemma_after_last_is(d);
        let q = files::after_last(d, '"');
        assert forall|i: int| 0 <= i < s.skip(q).len() implies #[trigger] s.skip(q)[i] != '"' by {
            if q + i < d.len() {
                if q > 0 {
                    assert(d.skip(q)[i] == s[q + i]);
                } else {
                    assert(d[i] == s[i]);
                }
            }
        }
        if q == 0 {
            assert(s.skip(0) =~= s);
        }
    } else if s.len() > 0 {
        assert(s[s.len() - 1] == '"');
        assert(s.skip(s.len() as int).len() == 0);
    }
}

proof fn lemma_field(line: Seq<char>)
    ensures
        ({
            let found = match text::stripped_any_case(text::trimmed(line), "data \""@) {
                Some(rest) => stats_parse::field_and_value(rest),
                None => None,
            };
            &&& found is Some <==> gives_some(line)
            &&& found is Some ==> gives(line, (found->0).0, (found->0).1)
        }),
{
    reveal_strlit("data \"");
    lemma_lowered("data \""@);
    let t = text::trimmed(line);
    let rest = t.skip(6);
    let found = match text::stripped_any_case(t, "data \""@) {
        Some(r) => stats_parse::field_and_value(r),
        None => None,
    };
    if found is Some {
        text::lemma_char_at_or_end(rest, '"', 0);
        let e = text::char_at_or_end(rest, '"', 0);
        let remainder = rest.skip(e + 1);
        text::lemma_char_at_or_end(remainder, '"', 0);
        let v = text::char_at_or_end(remainder, '"', 0);
        let value = remainder.skip(v + 1);
        let field = rest.take(e);
        let gap = remainder.take(v);
        assert(rest =~= field + seq!['"'] + gap + seq!['"'] + value);
        assert(has_parts(line, field, gap, value));
        lemma_after_last_is(value);
        let q = files::after_last(value, '"');
        if q > 0 {
            assert(unquoted(value.skip(q)));
            assert(value =~= value.take(q - 1) + seq!['"'] + value.skip(q));
        }
        assert(closes_value(value, (found->0).1));
        assert(gives(line, field, (found->0).1));
    }
    if gives_some(line) {
        let (field, gap, tail) = choose|field: Seq<char>, gap: Seq<char>, tail: Seq<char>| #[trigger]
            has_parts(line, field, gap, tail);
        assert(rest =~= field + seq!['"'] + (gap + seq!['"'] + tail));
        lemma_quote_at(field, gap + seq!['"'] + tail);
        assert(rest.skip(field.len() as int + 1) =~= gap + seq!['"'] + tail);
        lemma_quote_at(gap, tail);
    }
}

/// What a line does, said by itself.
spec fn stepped(
    st: EntryScanModel,
    line: Seq<char>,
    schema: SchemaModel,
    keyed: bool,
) -> EntryScanModel {
    let found = match text::stripped_any_case(text::trimmed(line), "data \""@) {
        Some(rest) => stats_parse::field_and_value(rest),
        None => None,
    };
    if opened(line) is Some {
        EntryScanModel {
            name: opened(line),
            etype: None,
            using: None,
            data: Seq::empty(),
            has_entries: true,
            last_type: st.last_type,
            entries: stats_parse::closed_entries(st, schema),
        }
    } else if said(line, "type \""@) is Some {
        EntryScanModel {
            etype: said(line, "type \""@),
            last_type: said(line, "type \""@),
            ..st
        }
    } else if said(line, "using \""@) is Some {
        EntryScanModel { using: said(line, "using \""@), ..st }
    } else if found is Some {
        EntryScanModel {
            data: stats_parse::with_field(st.data, (found->0).0, (found->0).1, keyed),
            ..st
        }
    } else {
        st
    }
}

proof fn lemma_step(st: EntryScanModel, line: Seq<char>, schema: SchemaModel, keyed: bool)
    ensures
        stats_parse::entry_step(st, line, schema, keyed) == stepped(st, line, schema, keyed),
        opened(line) is Some ==> said(line, "type \""@) is None && said(line, "using \""@) is None
            && !gives_some(line),
        said(line, "type \""@) is Some ==> said(line, "using \""@) is None && !gives_some(line),
        said(line, "using \""@) is Some ==> !gives_some(line),
{
    reveal_strlit("new entry \"");
    reveal_strlit("type \"");
    reveal_strlit("using \"");
    reveal_strlit("data \"");
    let t = text::trimmed(line);
    lemma_said(line, "new entry \""@);
    lemma_said(line, "type \""@);
    lemma_said(line, "using \""@);
    lemma_field(line);
    assert("new entry \""@[0] == 'n' && "type \""@[0] == 't' && "using \""@[0] == 'u' && "data \""@[0]
        == 'd');
    if text::stripped_any_case(t, "new entry \""@) is Some {
        lemma_first_letter(t, "new entry \""@, 'n');
        lemma_not_idle(t, 'n');
    }
    if text::stripped_any_case(t, "type \""@) is Some {
        lemma_first_letter(t, "type \""@, 't');
        lemma_not_idle(t, 't');
    }
    if text::stripped_any_case(t, "using \""@) is Some {
        lemma_first_letter(t, "using \""@, 'u');
        lemma_not_idle(t, 'u');
    }
    if text::stripped_any_case(t, "data \""@) is Some {
        lemma_first_letter(t, "data \""@, 'd');
        lemma_not_idle(t, 'd');
    }
}

// ---------------------------------------------------------------------------
// Entries apart from each other
// ---------------------------------------------------------------------------

/// The entries that lines hold.
pub open spec fn entries_on(ls: Seq<Seq<char>>, schema: SchemaModel, keyed: bool) -> Seq<StatsModel> {
    stats_parse::closed_entries(stats_parse::entry_scan(ls, schema, keyed), schema)
}

spec fn same_entry(a: EntryScanModel, b: EntryScanModel, before: Seq<StatsModel>) -> bool {
    &&& a.name == b.name
    &&& a.etype == b.etype
    &&& a.using == b.using
    &&& a.data == b.data
    &&& a.has_entries == b.has_entries
    &&& a.entries == before + b.entries
    &&& b.last_type is Some ==> a.last_type == b.last_type
}

proof fn lemma_apart(
    a: Seq<Seq<char>>,
    b: Seq<Seq<char>>,
    schema: SchemaModel,
    keyed: bool,
)
    requires
        b.len() > 0,
        opened(b[0]) is Some,
    ensures
        same_entry(
            stats_parse::entry_scan(a + b, schema, keyed),
            stats_parse::entry_scan(b, schema, keyed),
            entries_on(a, schema, keyed),
        ),
    decreases b.len(),
{
    let x = stats_parse::entry_scan(a + b, schema, keyed);
    let y = stats_parse::entry_scan(b, schema, keyed);
    let d = b.drop_last();
    assert((a + b).drop_last() =~= a + d);
    assert((a + b).last() == b.last());
    let xs = stats_parse::entry_scan(a + d, schema, keyed);
    let ys = stats_parse::entry_scan(d, schema, keyed);
    lemma_step(xs, b.last(), schema, keyed);
    lemma_step(ys, b.last(), schema, keyed);
    if d.len() == 0 {
        assert(a + d =~= a);
        assert(b.last() == b[0]);
        assert(ys == stats_parse::unread());
        assert(x.entries =~= entries_on(a, schema, keyed) + y.entries);
    } else {
        assert(d[0] == b[0]);
        lemma_apart(a, d, schema, keyed);
        let before = entries_on(a, schema, keyed);
        assert(stats_parse::closed_entries(xs, schema) =~= before + stats_parse::closed_entries(
            ys,
            schema,
        ));
    }
}

proof fn lemma_lines_both(a: Seq<char>, b: Seq<char>)
    requires
        a.len() == 0 || a.last() == '\n',
    ensures
        text::text_lines(a + b) == text::text_lines(a) + text::text_lines(b),
    decreases a.len(),
{
    if a.len() == 0 {
        assert(a + b =~= b);
        assert(text::text_lines(a) + text::text_lines(b) =~= text::text_lines(b));
    } else {
        text::lemma_char_at_or_end(a, '\n', 0);
        text::lemma_char_at_or_end(a + b, '\n', 0);
        let n = text::char_at_or_end(a, '\n', 0);
        let m = text::char_at_or_end(a + b, '\n', 0);
        assert(a[a.len() - 1] == '\n');
        assert(n < a.len());
        assert((a + b)[n] == '\n');
        assert(m == n) by {
            if m < n {
                assert((a + b)[m] == a[m]);
            }
        }
        let rest = a.skip(n + 1);
        assert((a + b).skip(n + 1) =~= rest + b);
        assert((a + b).take(n) =~= a.take(n));
        assert(rest.len() > 0 ==> rest.last() == a.last());
        lemma_lines_both(rest, b);
        let head = seq![text::without_cr(a.take(n))];
        assert(head + (text::text_lines(rest) + text::text_lines(b)) =~= (head + text::text_lines(
            rest,
        )) + text::text_lines(b));
    }
}

/// Entries are read apart from each other: where a text ends with a line break and
/// another begins with the line that opens an entry, the entries of both together are
/// those of the first and then those of the second.
pub proof fn law_entries_are_read_apart(
    a: Seq<char>,
    b: Seq<char>,
    schema: SchemaModel,
    keyed: bool,
)
    requires
        a.len() == 0 || a.last() == '\n',
        text::text_lines(b).len() > 0,
        opened(text::text_lines(b)[0]) is Some,
    ensures
        stats_parse::usual_content(a + b, schema, keyed).entries == stats_parse::usual_content(
            a,
            schema,
            keyed,
        ).entries + stats_parse::usual_content(b, schema, keyed).entries,
{
    let la = text::text_lines(a);
    let lb = text::text_lines(b);
    lemma_lines_both(a, b);
    lemma_apart(la, lb, schema, keyed);
    let x = stats_parse::entry_scan(la + lb, schema, keyed);
    let y = stats_parse::entry_scan(lb, schema, keyed);
    let before = entries_on(la, schema, keyed);
    assert(stats_parse::closed_entries(x, schema) =~= before + stats_parse::closed_entries(
        y,
        schema,
    ));
}

// ---------------------------------------------------------------------------
// What an entry says
// ---------------------------------------------------------------------------

/// Whether lines hold one entry: the first opens it, and no other opens one.
pub open spec fn one_entry(ls: Seq<Seq<char>>) -> bool {
    &&& ls.len() > 0
    &&& opened(ls[0]) is Some
    &&& forall|i: int| 0 < i < ls.len() ==> opened(#[trigger] ls[i]) is None
}

proof fn lemma_one_entry(ls: Seq<Seq<char>>, schema: SchemaModel)
    requires
        one_entry(ls),
    ensures
        ({
            let st = stats_parse::entry_scan(ls, schema, false);
            &&& st.name == opened(ls[0])
            &&& st.etype == last_said(ls, "type \""@)
            &&& st.using == last_said(ls, "using \""@)
            &&& given_by(st.data, ls)
            &&& st.entries.len() == 0
        }),
    decreases ls.len(),
{
    let d = ls.drop_last();
    let before = stats_parse::entry_scan(d, schema, false);
    let st = stats_parse::entry_scan(ls, schema, false);
    let line = ls.last();
    lemma_step(before, line, schema, false);
    lemma_field(line);
    if d.len() == 0 {
        assert(line == ls[0]);
        assert(before == stats_parse::unread());
        assert(last_said(d, "type \""@) is None);
        assert(last_said(d, "using \""@) is None);
        assert(given_by(Seq::empty(), d));
    } else {
        assert(d[0] == ls[0]);
        assert forall|i: int| 0 < i < d.len() implies opened(#[trigger] d[i]) is None by {
            assert(d[i] == ls[i]);
        }
        lemma_one_entry(d, schema);
        assert(opened(ls[ls.len() - 1]) is None);
        if gives_some(line) {
            assert(st.data.drop_last() =~= before.data);
        }
    }
}

/// An entry says what its own lines say: its name is that of the line that opens it, its
/// type and the entry that it builds on are the last that its lines name, and its fields
/// are those of its data lines, in order. It counts where it has a type and there is a
/// table for it.
pub proof fn law_entry_says_its_lines(ls: Seq<Seq<char>>, schema: SchemaModel)
    requires
        one_entry(ls),
    ensures
        ({
            let r = entries_on(ls, schema, false);
            let ty = last_said(ls, "type \""@);
            &&& r.len() <= 1
            &&& r.len() == 1 <==> ty is Some && textmap::has_key(
                schema.tables,
                "stats__"@ + files::sanitized(ty->0),
            )
            &&& r.len() == 1 ==> {
                &&& Some(r[0].entry_name) == opened(ls[0])
                &&& Some(r[0].entry_type) == ty
                &&& r[0].table_name == "stats__"@ + files::sanitized(ty->0)
                &&& r[0].entry_using == last_said(ls, "using \""@)
                &&& given_by(r[0].data, ls)
            }
        }),
{
    lemma_one_entry(ls, schema);
}

/// Lines of which none opens an entry hold none.
pub proof fn law_no_entry_without_name(ls: Seq<Seq<char>>, schema: SchemaModel, keyed: bool)
    requires
        forall|i: int| 0 <= i < ls.len() ==> opened(#[trigger] ls[i]) is None,
    ensures
        entries_on(ls, schema, keyed).len() == 0,
        !stats_parse::entry_scan(ls, schema, keyed).has_entries,
{
    lemma_nameless(ls, schema, keyed);
}

proof fn lemma_nameless(ls: Seq<Seq<char>>, schema: SchemaModel, keyed: bool)
    requires
        forall|i: int| 0 <= i < ls.len() ==> opened(#[trigger] ls[i]) is None,
    ensures
        ({
            let st = stats_parse::entry_scan(ls, schema, keyed);
            st.name is None && st.entries.len() == 0 && !st.has_entries
        }),
    decreases ls.len(),
{
    if ls.len() > 0 {
        let d = ls.drop_last();
        assert forall|i: int| 0 <= i < d.len() implies opened(#[trigger] d[i]) is None by {
            assert(d[i] == ls[i]);
        }
        lemma_nameless(d, schema, keyed);
        lemma_step(stats_parse::entry_scan(d, schema, keyed), ls.last(), schema, keyed);
        assert(opened(ls[ls.len() - 1]) is None);
    }
}

/// The last value of a field.
pub open spec fn last_value(data: Seq<(Seq<char>, Seq<char>)>, field: Seq<char>) -> Option<Seq<char>>
    decreases data.len(),
{
    if data.len() == 0 {
        None
    } else if data.last().0 == field {
        Some(data.last().1)
    } else {
        last_value(data.drop_last(), field)
    }
}

/// Whether fields are others with each field once, with its last value.
pub open spec fn once_each(
    keyed: Seq<(Seq<char>, Seq<char>)>,
    data: Seq<(Seq<char>, Seq<char>)>,
) -> bool {
    &&& textmap::distinct(keyed)
    &&& forall|f: Seq<char>| #[trigger] textmap::value_of(keyed, f) == last_value(data, f)
}

proof fn lemma_once_more(
    keyed: Seq<(Seq<char>, Seq<char>)>,
    data: Seq<(Seq<char>, Seq<char>)>,
    field: Seq<char>,
    value: Seq<char>,
)
    requires
        once_each(keyed, data),
    ensures
        once_each(textmap::with_value(keyed, field, value), data.push((field, value))),
{
    let after = textmap::with_value(keyed, field, value);
    let more = data.push((field, value));
    assert(more.drop_last() =~= data);
    textmap::law_with_value(keyed, field, value, field);
    assert forall|f: Seq<char>| #[trigger] textmap::value_of(after, f) == last_value(more, f) by {
        textmap::law_with_value(keyed, field, value, f);
        assert(textmap::value_of(keyed, f) == last_value(data, f));
    }
}

spec fn same_but_data(a: StatsModel, b: StatsModel) -> bool {
    &&& a == StatsModel { data: a.data, ..b }
    &&& once_each(a.data, b.data)
}

proof fn lemma_keyed(ls: Seq<Seq<char>>, schema: SchemaModel)
    ensures
        ({
            let k = stats_parse::entry_scan(ls, schema, true);
            let p = stats_parse::entry_scan(ls, schema, false);
            &&& k.name == p.name && k.etype == p.etype && k.using == p.using && k.has_entries
                == p.has_entries && k.last_type == p.last_type
            &&& once_each(k.data, p.data)
            &&& k.entries.len() == p.entries.len()
            &&& forall|i: int|
                0 <= i < k.entries.len() ==> same_but_data(#[trigger] k.entries[i], p.entries[i])
        }),
    decreases ls.len(),
{
    let k = stats_parse::entry_scan(ls, schema, true);
    let p = stats_parse::entry_scan(ls, schema, false);
    if ls.len() > 0 {
        let d = ls.drop_last();
        lemma_keyed(d, schema);
        let kb = stats_parse::entry_scan(d, schema, true);
        let pb = stats_parse::entry_scan(d, schema, false);
        lemma_step(kb, ls.last(), schema, true);
        lemma_step(pb, ls.last(), schema, false);
        let found = match text::stripped_any_case(text::trimmed(ls.last()), "data \""@) {
            Some(rest) => stats_parse::field_and_value(rest),
            None => None,
        };
        if found is Some {
            lemma_once_more(kb.data, pb.data, (found->0).0, (found->0).1);
        }
        lemma_once_none();
    } else {
        lemma_once_none();
    }
}

proof fn lemma_once_none()
    ensures
        once_each(Seq::empty(), Seq::empty()),
{
    let none = Seq::<(Seq<char>, Seq<char>)>::empty();
    assert forall|f: Seq<char>| #[trigger] textmap::value_of(none, f) == last_value(none, f) by {
        textmap::lemma_key_pos(none, f);
    }
}

/// Reading entries with each field once gives the same entries, and of each field the last
/// of its values.
pub proof fn law_keyed_entries_keep_last_values(content: Seq<char>, schema: SchemaModel)
    ensures
        ({
            let k = stats_parse::usual_content(content, schema, true);
            let p = stats_parse::usual_content(content, schema, false);
            &&& k.last_type == p.last_type
            &&& k.raw_content == p.raw_content
            &&& k.entries.len() == p.entries.len()
            &&& forall|i: int|
                0 <= i < k.entries.len() ==> {
                    &&& (#[trigger] k.entries[i]).table_name == p.entries[i].table_name
                    &&& k.entries[i].entry_name == p.entries[i].entry_name
                    &&& k.entries[i].entry_type == p.entries[i].entry_type
                    &&& k.entries[i].entry_using == p.entries[i].entry_using
                    &&& once_each(k.entries[i].data, p.entries[i].data)
                }
        }),
{
    lemma_keyed(text::text_lines(content), schema);
    let k = stats_parse::usual_content(content, schema, true);
    let p = stats_parse::usual_content(content, schema, false);
    assert forall|i: int| 0 <= i < k.entries.len() implies (#[trigger] k.entries[i]).table_name
        == p.entries[i].table_name && k.entries[i].entry_name == p.entries[i].entry_name
        && k.entries[i].entry_type == p.entries[i].entry_type && k.entries[i].entry_using
        == p.entries[i].entry_using && once_each(k.entries[i].data, p.entries[i].data) by {
        let ks = stats_parse::entry_scan(text::text_lines(content), schema, true);
        let ps = stats_parse::entry_scan(text::text_lines(content), schema, false);
        if i < ks.entries.len() {
            assert(same_but_data(ks.entries[i], ps.entries[i]));
            assert(k.entries[i] == ks.entries[i]);
            assert(p.entries[i] == ps.entries[i]);
        }
    }
}

/// What else is kept of a file: the last type that it names, and its text where it is not
/// blank and opens no entry.
pub proof fn law_file_keeps_type_and_text(content: Seq<char>, schema: SchemaModel, keyed: bool)
    ensures
        ({
            let r = stats_parse::usual_content(content, schema, keyed);
            let ls = text::text_lines(content);
            &&& r.last_type == last_said(ls, "type \""@)
            &&& r.raw_content == if text::trimmed(content).len() > 0 && (forall|i: int|
                0 <= i < ls.len() ==> opened(#[trigger] ls[i]) is None) {
                Some(content)
            } else {
                None
            }
        }),
{
    lemma_last_type(text::text_lines(content), schema, keyed);
}

proof fn lemma_last_type(ls: Seq<Seq<char>>, schema: SchemaModel, keyed: bool)
    ensures
        ({
            let st = stats_parse::entry_scan(ls, schema, keyed);
            &&& st.last_type == last_said(ls, "type \""@)
            &&& st.has_entries == !(forall|i: int|
                0 <= i < ls.len() ==> opened(#[trigger] ls[i]) is None)
        }),
    decreases ls.len(),
{
    if ls.len() > 0 {
        let d = ls.drop_last();
        lemma_last_type(d, schema, keyed);
        lemma_step(stats_parse::entry_scan(d, schema, keyed), ls.last(), schema, keyed);
        let l = ls.len() - 1;
        assert(ls[l] == ls.last());
        if forall|i: int| 0 <= i < ls.len() ==> opened(#[trigger] ls[i]) is None {
            assert forall|i: int| 0 <= i < d.len() implies opened(#[trigger] d[i]) is None by {
                assert(d[i] == ls[i]);
            }
            assert(opened(ls[l]) is None);
        } else {
            if opened(ls[l]) is None {
                let i = choose|i: int| 0 <= i < ls.len() && opened(#[trigger] ls[i]) is Some;
                assert(d[i] == ls[i]);
            }
        }
    }
}

} // verus!
