//! What holds of the entries that are read from stats files in other forms.

use vstd::prelude::*;
use crate::discovery_laws;
use crate::files;
use crate::list_laws;
use crate::schema::SchemaModel;
use crate::seen_laws;
use crate::stats_laws;
use crate::stats_parse;
use crate::stats_parse::StatsModel;
use crate::stats_text;
use crate::text;
use crate::textmap;

verus! {

// ---------------------------------------------------------------------------
// Values with commas between them
// ---------------------------------------------------------------------------

/// Whether a text is how a value stands in a line: in quotation marks, or as it is where it
/// holds no comma, with white space behind it at most.
pub open spec fn writes_value(f: Seq<char>, v: Seq<char>) -> bool {
    ||| f == seq!['"'] + v + seq!['"'] && stats_laws::unquoted(v)
    ||| {
        &&& f.len() > 0
        &&& f[0] != ' ' && f[0] != '\t' && f[0] != '"'
        &&& list_laws::lacks(f, ',')
        &&& v == text::trimmed(f)
    }
}

/// Whether texts are how values stand in a line, one by one.
pub open spec fn write_values(fs: Seq<Seq<char>>, vs: Seq<Seq<char>>) -> bool {
    fs.len() == vs.len() && forall|i: int| 0 <= i < fs.len() ==> writes_value(#[trigger] fs[i], vs[i])
}

/// Texts with a comma between each two.
pub open spec fn with_commas(fs: Seq<Seq<char>>) -> Seq<char>
    decreases fs.len(),
{
    if fs.len() == 0 {
        Seq::empty()
    } else if fs.len() == 1 {
        fs[0]
    } else {
        fs[0] + seq![','] + with_commas(fs.drop_first())
    }
}

proof fn lemma_first_char(fs: Seq<Seq<char>>, vs: Seq<Seq<char>>)
    requires
        write_values(fs, vs),
        fs.len() > 0,
    ensures
        with_commas(fs).len() >= fs[0].len() > 0,
        with_commas(fs)[0] == fs[0][0],
        fs[0][0] != ' ',
        fs[0][0] != '\t',
        fs[0][0] != ',',
{
    assert(writes_value(fs[0], vs[0]));
}

proof fn lemma_char_from(s: Seq<char>, c: char, from: int, at: int)
    requires
        0 <= from <= at <= s.len(),
        forall|k: int| from <= k < at ==> s[k] != c,
        at < s.len() ==> s[at] == c,
    ensures
        text::char_at_or_end(s, c, from) == at,
    decreases at - from,
{
    if from < at {
        lemma_char_from(s, c, from + 1, at);
    }
}

proof fn lemma_values_from(s: Seq<char>, i: int, fs: Seq<Seq<char>>, vs: Seq<Seq<char>>)
    requires
        0 <= i <= s.len(),
        s.skip(i) == with_commas(fs),
        write_values(fs, vs),
    ensures
        stats_text::csv_from(s, i) == vs,
    decreases fs.len(),
{
    if fs.len() == 0 {
        assert(i == s.len());
        assert(vs =~= Seq::<Seq<char>>::empty());
    } else {
        let f = fs[0];
        let n = f.len() as int;
        let rest = fs.drop_first();
        let more = vs.drop_first();
        let w = with_commas(fs);
        lemma_first_char(fs, vs);
        assert forall|k: int| 0 <= k < w.len() implies s[i + k] == #[trigger] w[k] by {
            assert(s.skip(i)[k] == s[i + k]);
        }
        assert(s[i] == w[0]);
        assert forall|k: int| 0 <= k < n implies w[k] == f[k] by {}
        assert(writes_value(f, vs[0]));
        assert(write_values(rest, more)) by {
            assert forall|k: int| 0 <= k < rest.len() implies writes_value(
                #[trigger] rest[k],
                more[k],
            ) by {
                assert(rest[k] == fs[k + 1]);
            }
        }
        if fs.len() > 1 {
            assert(w[n] == ',');
            assert(s[i + n] == ',');
            assert(s.skip(i + n + 1) =~= with_commas(rest)) by {
                assert forall|k: int| 0 <= k < with_commas(rest).len() implies s.skip(i + n + 1)[k]
                    == with_commas(rest)[k] by {
                    assert(w[n + 1 + k] == with_commas(rest)[k]);
                }
            }
            lemma_first_char(rest, more);
            assert(s.skip(i + n + 1)[0] == s[i + n + 1]);
        } else {
            assert(i + n == s.len());
            assert(rest =~= Seq::<Seq<char>>::empty());
            assert(s.skip(i + n) =~= with_commas(rest));
        }
        let next = if fs.len() > 1 {
            i + n + 1
        } else {
            i + n
        };
        lemma_values_from(s, next, rest, more);
        if f == seq!['"'] + vs[0] + seq!['"'] && stats_laws::unquoted(vs[0]) {
            let e = i + n - 1;
            assert forall|k: int| i + 1 <= k < e implies s[k] != '"' by {
                assert(w[k - i] == f[k - i]);
                assert(f[k - i] == vs[0][k - i - 1]);
            }
            assert(w[n - 1] == f[n - 1]);
            assert(s[e] == '"');
            lemma_char_from(s, '"', i + 1, e);
            assert(s.subrange(i + 1, e) =~= vs[0]) by {
                assert forall|k: int| 0 <= k < vs[0].len() implies s.subrange(i + 1, e)[k]
                    == vs[0][k] by {
                    assert(w[k + 1] == f[k + 1]);
                    assert(f[k + 1] == vs[0][k]);
                }
            }
            reveal_with_fuel(stats_text::past_commas, 2);
            assert(stats_text::past_commas(s, i + n) == next);
        } else {
            assert forall|k: int| i <= k < i + n implies s[k] != ',' by {
                assert(w[k - i] == f[k - i]);
            }
            lemma_char_from(s, ',', i, i + n);
            assert(s.subrange(i, i + n) =~= f) by {
                assert forall|k: int| 0 <= k < n implies s.subrange(i, i + n)[k] == f[k] by {
                    assert(w[k] == f[k]);
                }
            }
        }
        assert(seq![vs[0]] + more =~= vs);
    }
}

/// Values that are written with commas between them are read back.
pub proof fn law_written_values_are_read_back(fs: Seq<Seq<char>>, vs: Seq<Seq<char>>)
    requires
        write_values(fs, vs),
    ensures
        stats_text::csv_from(with_commas(fs), 0) == vs,
{
    assert(with_commas(fs).skip(0) =~= with_commas(fs));
    lemma_values_from(with_commas(fs), 0, fs, vs);
}

// ---------------------------------------------------------------------------
// Entries
// ---------------------------------------------------------------------------

/// The entries that lines hold.
pub open spec fn entries_of(ls: Seq<Seq<char>>, stem: Seq<char>) -> Seq<StatsModel> {
    stats_parse::odd_closed(stats_parse::odd_scan(ls, stem), stem)
}

/// Whether a line gives a key, or opens something.
pub open spec fn begins_anew(line: Seq<char>) -> bool {
    seen_laws::leads(line, "new "@) || seen_laws::leads(line, "key "@) || seen_laws::leads(
        line,
        "key\t"@,
    )
}

/// Whether a line holds nothing but white space or a comment.
pub open spec fn says_nothing(line: Seq<char>) -> bool {
    text::trimmed(line).len() == 0 || seen_laws::leads(line, "//"@)
}

/// Whether a line holds these values from its first quotation mark on.
pub open spec fn holds(line: Seq<char>, vs: Seq<Seq<char>>) -> bool {
    let t = text::trimmed(line);
    let q = text::char_at_or_end(t, '"', 0);
    q < t.len() && stats_text::csv_from(t.skip(q), 0) == vs
}

/// Whether an entry is one of a file: it has the file's table and type.
pub open spec fn is_of_file(e: StatsModel, stem: Seq<char>, name: Seq<char>) -> bool {
    &&& e.table_name == "stats__"@ + files::sanitized(stem)
    &&& e.entry_type == stem
    &&& e.entry_using is None
    &&& e.entry_name == name
}

proof fn lemma_leads(line: Seq<char>)
    ensures
        begins_anew(line) ==> !says_nothing(line),
        seen_laws::leads(line, "new "@) ==> !seen_laws::leads(line, "key "@)
            && !seen_laws::leads(line, "key\t"@),
        seen_laws::leads(line, "add "@) ==> !says_nothing(line) && !begins_anew(line),
{
    reveal_strlit("key ");
    reveal_strlit("key\t");
    reveal_strlit("new ");
    reveal_strlit("add ");
    reveal_strlit("//");
    let t = text::trimmed(line);
    if t.len() >= 4 {
        assert(t.subrange(0, 4)[0] == t[0]);
    }
    if "//"@.is_prefix_of(t) {
        assert(t.subrange(0, 2)[0] == t[0]);
    }
}

proof fn lemma_holds(line: Seq<char>, vs: Seq<Seq<char>>)
    requires
        holds(line, vs),
    ensures
        stats_parse::quoted_values(text::trimmed(line)) == Some(vs),
{
    text::lemma_char_at_or_end(text::trimmed(line), '"', 0);
}

proof fn lemma_joined(a: Seq<Seq<char>>, b: Seq<Seq<char>>, stem: Seq<char>)
    requires
        b.len() > 0,
        begins_anew(b[0]),
    ensures
        ({
            let both = stats_parse::odd_scan(a + b, stem);
            let second = stats_parse::odd_scan(b, stem);
            &&& both.name == second.name
            &&& both.data == second.data
            &&& both.entries == entries_of(a, stem) + second.entries
        }),
    decreases b.len(),
{
    let d = b.drop_last();
    assert((a + b).drop_last() =~= a + d);
    assert((a + b).last() == b.last());
    let first = entries_of(a, stem);
    let none = Seq::<StatsModel>::empty();
    if d.len() > 0 {
        assert(d[0] == b[0]);
        lemma_joined(a, d, stem);
        let x = stats_parse::odd_scan(a + d, stem);
        let y = stats_parse::odd_scan(d, stem);
        assert(stats_parse::odd_closed(x, stem) =~= first + stats_parse::odd_closed(y, stem));
        let k = stats_parse::key_entries(text::trimmed(b.last()), stem);
        assert(stats_parse::odd_closed(x, stem) + k =~= first + (stats_parse::odd_closed(y, stem)
            + k));
    } else {
        assert(a + d =~= a);
        assert(d =~= Seq::<Seq<char>>::empty());
        let k = stats_parse::key_entries(text::trimmed(b.last()), stem);
        lemma_leads(b[0]);
        assert(first + (none + k) =~= first + k);
        assert(first + none =~= first);
    }
}

/// Entries are read one after another: those of lines that begin anew are the same
/// whatever stands before them.
pub proof fn law_other_entries_are_read_apart(
    a: Seq<Seq<char>>,
    b: Seq<Seq<char>>,
    stem: Seq<char>,
)
    requires
        b.len() > 0,
        begins_anew(b[0]),
    ensures
        entries_of(a + b, stem) == entries_of(a, stem) + entries_of(b, stem),
{
    lemma_joined(a, b, stem);
    let both = stats_parse::odd_scan(a + b, stem);
    assert(entries_of(a + b, stem) =~= entries_of(a, stem) + entries_of(b, stem));
}

/// A line that gives a key makes an entry of its own, with the second value of the line as
/// its value.
pub proof fn law_key_line_is_an_entry(line: Seq<char>, stem: Seq<char>, vs: Seq<Seq<char>>)
    requires
        seen_laws::leads(line, "key "@) || seen_laws::leads(line, "key\t"@),
        holds(line, vs),
    ensures
        ({
            let r = entries_of(seq![line], stem);
            &&& vs.len() == 0 ==> r.len() == 0
            &&& vs.len() > 0 ==> r.len() == 1 && is_of_file(r[0], stem, vs[0])
            &&& vs.len() == 1 ==> r[0].data.len() == 0
            &&& vs.len() > 1 ==> r[0].data == seq![("Value"@, vs[1])]
        }),
{
    lemma_leads(line);
    lemma_holds(line, vs);
    let s = seq![line];
    assert(s.drop_last() =~= Seq::<Seq<char>>::empty());
    assert(s.last() == line);
    let st = stats_parse::odd_scan(s.drop_last(), stem);
    assert(stats_parse::odd_scan(s, stem) == stats_parse::odd_step(st, line, stem));
    let k = stats_parse::key_entries(text::trimmed(line), stem);
    assert(entries_of(s, stem) =~= k);
}

proof fn lemma_positional(vs: Seq<Seq<char>>)
    ensures
        vs.len() > 0 ==> stats_parse::positional(vs).len() == vs.len() - 1,
        forall|k: int|
            1 <= k < vs.len() ==> stats_parse::positional(vs)[k - 1] == (
                "Param"@ + text::decimal(k as nat),
                #[trigger] vs[k],
            ),
    decreases vs.len(),
{
    if vs.len() > 1 {
        let d = vs.drop_last();
        lemma_positional(d);
        assert forall|k: int| 1 <= k < vs.len() implies stats_parse::positional(vs)[k - 1] == (
            "Param"@ + text::decimal(k as nat),
            #[trigger] vs[k],
        ) by {
            if k < d.len() {
                assert(d[k] == vs[k]);
            }
        }
    }
}

/// A line that opens something makes an entry with the first value as its name, and the
/// others under their places.
pub proof fn law_new_line_is_an_entry(line: Seq<char>, stem: Seq<char>, vs: Seq<Seq<char>>)
    requires
        seen_laws::leads(line, "new "@),
        holds(line, vs),
    ensures
        ({
            let r = entries_of(seq![line], stem);
            &&& vs.len() == 0 ==> r.len() == 0
            &&& vs.len() > 0 ==> {
                &&& r.len() == 1
                &&& is_of_file(r[0], stem, vs[0])
                &&& r[0].data.len() == vs.len() - 1
                &&& forall|k: int|
                    1 <= k < vs.len() ==> r[0].data[k - 1] == (
                        "Param"@ + text::decimal(k as nat),
                        #[trigger] vs[k],
                    )
            }
        }),
{
    lemma_leads(line);
    lemma_holds(line, vs);
    lemma_positional(vs);
    let s = seq![line];
    assert(s.drop_last() =~= Seq::<Seq<char>>::empty());
    assert(s.last() == line);
    let st = stats_parse::odd_scan(s.drop_last(), stem);
    assert(stats_parse::odd_scan(s, stem) == stats_parse::odd_step(st, line, stem));
}

/// Whether a line adds values under a keyword: `add WORD VALUES`.
pub open spec fn adds(line: Seq<char>, word: Seq<char>, vs: Seq<Seq<char>>) -> bool {
    let rest = text::trimmed(line).skip(4);
    let n = word.len() as int;
    &&& seen_laws::leads(line, "add "@)
    &&& n < rest.len()
    &&& rest.take(n) == word
    &&& forall|i: int|
        0 <= i < n ==> !text::is_white(#[trigger] word[i]) && word[i] != '"'
    &&& text::is_white(rest[n]) || rest[n] == '"'
    &&& stats_text::csv_from(text::trimmed(rest.skip(n)), 0) == vs
}

proof fn lemma_word_end(s: Seq<char>, from: int, at: int)
    requires
        0 <= from <= at < s.len(),
        forall|i: int| from <= i < at ==> !stats_text::ends_word(#[trigger] s[i]),
        stats_text::ends_word(s[at]),
    ensures
        stats_parse::word_end(s, from) == at,
    decreases at - from,
{
    if from < at {
        lemma_word_end(s, from + 1, at);
    }
}

/// What is added under a keyword stands in one field of the entry that was opened last,
/// with a bar between what several lines add, and changes nothing else.
pub proof fn law_added_values_go_to_entry(
    ls: Seq<Seq<char>>,
    line: Seq<char>,
    stem: Seq<char>,
    word: Seq<char>,
    vs: Seq<Seq<char>>,
    other: Seq<char>,
)
    requires
        stats_parse::odd_scan(ls, stem).name is Some,
        adds(line, word, vs),
    ensures
        ({
            let before = entries_of(ls, stem);
            let after = entries_of(ls.push(line), stem);
            let n = before.len() - 1;
            let column = stats_text::capitalized(word);
            let value = text::joined(vs, ";"@);
            &&& n >= 0
            &&& after.len() == before.len()
            &&& after.drop_last() == before.drop_last()
            &&& after[n].entry_name == before[n].entry_name
            &&& after[n].entry_type == before[n].entry_type
            &&& textmap::value_of(after[n].data, column) == match textmap::value_of(
                before[n].data,
                column,
            ) {
                Some(old_value) => Some(old_value + "|"@ + value),
                None => Some(value),
            }
            &&& other != column ==> textmap::value_of(after[n].data, other) == textmap::value_of(
                before[n].data,
                other,
            )
        }),
{
    lemma_leads(line);
    reveal_strlit("add ");
    let t = text::trimmed(line);
    let rest = t.skip(4);
    let e = word.len() as int;
    assert forall|i: int| 0 <= i < e implies !stats_text::ends_word(#[trigger] rest[i]) by {
        assert(rest.take(e)[i] == word[i]);
    }
    lemma_word_end(rest, 0, e);
    assert(ls.push(line).drop_last() =~= ls);
    let st = stats_parse::odd_scan(ls, stem);
    let now = stats_parse::odd_step(st, line, stem);
    let column = stats_text::capitalized(word);
    let value = text::joined(vs, ";"@);
    assert(now.data == stats_parse::with_sub_entry(st.data, column, value));
    let put = match textmap::value_of(st.data, column) {
        Some(old_value) => old_value + "|"@ + value,
        None => value,
    };
    assert(now.data == textmap::with_value(st.data, column, put));
    discovery_laws::lemma_set(st.data, column, put, other);
    let before = entries_of(ls, stem);
    let after = entries_of(ls.push(line), stem);
    assert(after.drop_last() =~= st.entries);
    assert(before.drop_last() =~= st.entries);
}

/// A line that holds nothing ends an entry: what stands behind it belongs to none, until
/// a line begins anew.
pub proof fn law_empty_line_ends_entry(
    a: Seq<Seq<char>>,
    line: Seq<char>,
    b: Seq<Seq<char>>,
    stem: Seq<char>,
)
    requires
        says_nothing(line),
        forall|i: int| 0 <= i < b.len() ==> !begins_anew(#[trigger] b[i]),
    ensures
        entries_of(a.push(line) + b, stem) == entries_of(a, stem),
        stats_parse::odd_scan(a.push(line) + b, stem).name is None,
    decreases b.len(),
{
    let all = a.push(line) + b;
    if b.len() == 0 {
        assert(all.drop_last() =~= a);
        assert(all.last() == line);
    } else {
        let d = b.drop_last();
        assert(all.drop_last() =~= a.push(line) + d);
        assert(all.last() == b.last());
        assert forall|i: int| 0 <= i < d.len() implies !begins_anew(#[trigger] d[i]) by {
            assert(d[i] == b[i]);
        }
        law_empty_line_ends_entry(a, line, d, stem);
        assert(!begins_anew(b[b.len() - 1]));
    }
}

/// A file in another form whose table is known keeps its entries; any other one is kept as
/// it stands.
pub proof fn law_other_files_keep_entries_or_text(
    content: Seq<char>,
    stem: Seq<char>,
    schema: SchemaModel,
)
    ensures
        ({
            let c = stats_parse::odd_content(content, stem, schema);
            let known = textmap::has_key(schema.tables, "stats__"@ + files::sanitized(stem));
            &&& c.last_type == Some(stem)
            &&& known ==> c.raw_content is None && c.entries == entries_of(
                text::text_lines(content),
                stem,
            )
            &&& !known ==> c.raw_content == Some(content) && c.entries.len() == 0
        }),
{
}

} // verus!
