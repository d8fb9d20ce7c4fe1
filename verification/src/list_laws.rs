//! What holds of the lists and the localized texts that are read from files.

use vstd::prelude::*;
use crate::loca;
use crate::stats_discovery;
use crate::stats_laws;
use crate::stats_lists;
use crate::stats_lists::{EquipmentModel, ModifierModel, ValueModel};
use crate::text;

verus! {

// ---------------------------------------------------------------------------
// Equipment
// ---------------------------------------------------------------------------

/// Whether equipment sets are those that lines open, one after another.
pub open spec fn sets_opened(sets: Seq<EquipmentModel>, ls: Seq<Seq<char>>) -> bool
    decreases ls.len(),
{
    if ls.len() == 0 {
        sets.len() == 0
    } else {
        match stats_laws::said(ls.last(), "new equipment \""@) {
            Some(name) => if name.len() > 0 {
                sets.len() > 0 && sets.last().name == name && sets_opened(
                    sets.drop_last(),
                    ls.drop_last(),
                )
            } else {
                sets_opened(sets, ls.drop_last())
            },
            None => sets_opened(sets, ls.drop_last()),
        }
    }
}

/// The equipment sets of a text are those with a name that its lines open, in order.
pub proof fn law_equipment_is_opened_by_lines(ls: Seq<Seq<char>>)
    ensures
        sets_opened(stats_lists::equipment_in(ls), ls),
    decreases ls.len(),
{
    if ls.len() > 0 {
        let d = ls.drop_last();
        let before = stats_lists::equipment_in(d);
        law_equipment_is_opened_by_lines(d);
        reveal_strlit("new equipment \"");
        stats_laws::lemma_said(ls.last(), "new equipment \""@);
        let r = stats_lists::equipment_in(ls);
        if stats_lists::equipment_on(ls.last()) is Some {
            assert(r.drop_last() =~= before);
        }
    }
}

// ---------------------------------------------------------------------------
// Value lists
// ---------------------------------------------------------------------------

/// Whether a text holds a character nowhere.
pub open spec fn lacks(s: Seq<char>, c: char) -> bool {
    forall|i: int| 0 <= i < s.len() ==> #[trigger] s[i] != c
}

/// The number that a text denotes within the bounds of an index, or zero.
pub open spec fn index_of(s: Seq<char>) -> int {
    match text::number_within(text::trimmed(s), i64::MIN as int, i64::MAX as int) {
        Some(n) => n,
        None => 0,
    }
}

/// Whether a text is what stands before and behind its first colon.
pub open spec fn parted(s: Seq<char>, gap: Seq<char>, number: Seq<char>) -> bool {
    lacks(gap, ':') && s == gap + seq![':'] + number
}

/// Whether an index is the one that a text gives: the number behind its first colon, or
/// zero where it has none.
pub open spec fn gives_index(s: Seq<char>, index: int) -> bool {
    &&& lacks(s, ':') ==> index == 0
    &&& forall|gap: Seq<char>, number: Seq<char>| #[trigger]
        parted(s, gap, number) ==> index == index_of(number)
}

/// Whether values are those that lines give, one after another, each for the list that
/// was opened last before it.
pub open spec fn values_given(rows: Seq<ValueModel>, ls: Seq<Seq<char>>) -> bool
    decreases ls.len(),
{
    if ls.len() == 0 {
        rows.len() == 0
    } else {
        let d = ls.drop_last();
        let list = stats_laws::last_said(d, "valuelist \""@);
        let name = stats_laws::said(ls.last(), "value \""@);
        if list is Some && name is Some {
            &&& rows.len() > 0
            &&& rows.last().list_key == list->0
            &&& rows.last().value_name == name->0
            &&& gives_index(
                text::trimmed(ls.last()).skip(name->0.len() as int + 8),
                rows.last().value_index as int,
            )
            &&& values_given(rows.drop_last(), d)
        } else {
            values_given(rows, d)
        }
    }
}

proof fn lemma_char_at(a: Seq<char>, c: char, b: Seq<char>)
    requires
        lacks(a, c),
    ensures
        text::char_at_or_end(a + seq![c] + b, c, 0) == a.len(),
        (a + seq![c] + b).take(a.len() as int) == a,
        (a + seq![c] + b).skip(a.len() as int + 1) == b,
{
    let s = a + seq![c] + b;
    text::lemma_char_at_or_end(s, c, 0);
    assert(s[a.len() as int] == c);
    let n = text::char_at_or_end(s, c, 0);
    if n < a.len() {
        assert(s[n] == a[n]);
    }
    assert(s.take(a.len() as int) =~= a);
    assert(s.skip(a.len() as int + 1) =~= b);
}

proof fn lemma_index(rest: Seq<char>)
    ensures
        gives_index(rest, stats_lists::value_index(rest) as int),
{
    text::lemma_char_at_or_end(rest, ':', 0);
    let index = stats_lists::value_index(rest) as int;
    assert forall|gap: Seq<char>, number: Seq<char>| #[trigger]
        parted(rest, gap, number) implies index == index_of(number) by {
        lemma_char_at(gap, ':', number);
    }
}

proof fn lemma_value_words(t: Seq<char>)
    ensures
        text::stripped_any_case(t, "valuelist \""@) is Some ==> text::stripped_any_case(
            t,
            "value \""@,
        ) is None,
        text::stripped_any_case(t, "valuelist \""@) is Some ==> !stats_discovery::idle_line(t),
        text::stripped_any_case(t, "value \""@) is Some ==> !stats_discovery::idle_line(t),
{
    reveal_strlit("valuelist \"");
    reveal_strlit("value \"");
    let a = "valuelist \""@;
    let b = "value \""@;
    assert(a[0] == 'v' && b[0] == 'v');
    if text::stripped_any_case(t, a) is Some {
        stats_laws::lemma_first_letter(t, a, 'v');
        stats_laws::lemma_not_idle(t, 'v');
        if text::stripped_any_case(t, b) is Some {
            let x = text::ascii_lowered(t.take(11));
            let y = text::ascii_lowered(t.take(7));
            assert(x[5] == text::ascii_lower(t[5]));
            assert(y[5] == text::ascii_lower(t[5]));
            assert(text::ascii_lowered(a)[5] == text::ascii_lower(a[5]));
            assert(text::ascii_lowered(b)[5] == text::ascii_lower(b[5]));
            assert(a[5] == 'l' && b[5] == ' ');
        }
    }
    if text::stripped_any_case(t, b) is Some {
        stats_laws::lemma_first_letter(t, b, 'v');
        stats_laws::lemma_not_idle(t, 'v');
    }
}

proof fn lemma_values(ls: Seq<Seq<char>>)
    ensures
        stats_lists::value_scan(ls).current == stats_laws::last_said(ls, "valuelist \""@),
        values_given(stats_lists::value_scan(ls).rows, ls),
    decreases ls.len(),
{
    if ls.len() > 0 {
        let d = ls.drop_last();
        let line = ls.last();
        let t = text::trimmed(line);
        let before = stats_lists::value_scan(d);
        let after = stats_lists::value_scan(ls);
        lemma_values(d);
        reveal_strlit("valuelist \"");
        reveal_strlit("value \"");
        stats_laws::lemma_said(line, "valuelist \""@);
        stats_laws::lemma_said(line, "value \""@);
        lemma_value_words(t);
        if t.len() >= 11 {
            text::lemma_char_at_or_end(t.skip(11), '"', 0);
        }
        if t.len() >= 7 {
            text::lemma_char_at_or_end(t.skip(7), '"', 0);
        }
        let list = stats_laws::last_said(d, "valuelist \""@);
        let name = stats_laws::said(line, "value \""@);
        if list is Some && name is Some {
            let tail = t.skip(7);
            let q = text::char_at_or_end(tail, '"', 0);
            assert(after.rows.drop_last() =~= before.rows);
            assert(tail.skip(q + 1) =~= t.skip(q + 8));
            lemma_index(tail.skip(q + 1));
        }
    }
}

/// The values of a text are those that its lines give, in order: each belongs to the list
/// that was opened last before it, and has the index behind the colon.
pub proof fn law_values_belong_to_lists(ls: Seq<Seq<char>>)
    ensures
        values_given(stats_lists::value_scan(ls).rows, ls),
{
    lemma_values(ls);
}

// ---------------------------------------------------------------------------
// Modifiers
// ---------------------------------------------------------------------------

/// Whether a line gives a field its type: `modifier "FIELD","TYPE"`.
pub open spec fn types_field(line: Seq<char>, field: Seq<char>, ty: Seq<char>) -> bool {
    let t = text::trimmed(line);
    &&& t.len() >= 10
    &&& text::ascii_lowered(t.take(10)) == "modifier \""@
    &&& exists|gap: Seq<char>, tail: Seq<char>| #[trigger]
        splits_field(t.skip(10), field, gap, ty, tail)
}

/// Whether a text is a field, a gap, a type and a tail: the field ends at the first
/// quotation mark, the type begins at the next comma that a quotation mark follows, and
/// ends at the quotation mark after that.
pub open spec fn splits_field(
    s: Seq<char>,
    field: Seq<char>,
    gap: Seq<char>,
    ty: Seq<char>,
    tail: Seq<char>,
) -> bool {
    &&& s == field + seq!['"'] + (gap + ",\""@ + (ty + seq!['"'] + tail))
    &&& lacks(field, '"')
    &&& lacks(ty, '"')
    &&& forall|i: int|
        0 <= i < gap.len() ==> !((#[trigger] gap[i]) == ',' && (gap + ",\""@)[i + 1] == '"')
}

/// Whether a line gives a field a type.
pub open spec fn types_some(line: Seq<char>) -> bool {
    exists|field: Seq<char>, ty: Seq<char>| #[trigger] types_field(line, field, ty)
}

/// Whether fields are those that lines give, one after another, each for the modifier type
/// that was opened last before it.
pub open spec fn fields_given(rows: Seq<ModifierModel>, ls: Seq<Seq<char>>) -> bool
    decreases ls.len(),
{
    if ls.len() == 0 {
        rows.len() == 0
    } else {
        let d = ls.drop_last();
        let ty = stats_laws::last_said(d, "modifier type \""@);
        if ty is Some && types_some(ls.last()) {
            &&& rows.len() > 0
            &&& rows.last().modifier_type == ty->0
            &&& types_field(ls.last(), rows.last().field_name, rows.last().field_type)
            &&& fields_given(rows.drop_last(), d)
        } else {
            fields_given(rows, d)
        }
    }
}

/// A pattern is first found where it occurs and occurs nowhere before.
pub proof fn lemma_first_at(s: Seq<char>, pat: Seq<char>, from: int, at: int)
    requires
        0 <= from <= at,
        at + pat.len() <= s.len(),
        text::occurs_at(s, pat, at),
        forall|i: int| from <= i < at ==> !(#[trigger] text::occurs_at(s, pat, i)),
    ensures
        text::first_at(s, pat, from) == Some(at),
    decreases at - from,
{
    if from < at {
        lemma_first_at(s, pat, from + 1, at);
    }
}

proof fn lemma_first_found(s: Seq<char>, pat: Seq<char>, from: int)
    requires
        0 <= from,
    ensures
        text::first_at(s, pat, from) matches Some(at) ==> {
            &&& from <= at
            &&& at + pat.len() <= s.len()
            &&& text::occurs_at(s, pat, at)
            &&& forall|i: int| from <= i < at ==> !(#[trigger] text::occurs_at(s, pat, i))
        },
    decreases s.len() - from + 1,
{
    if from + pat.len() <= s.len() && !text::occurs_at(s, pat, from) {
        lemma_first_found(s, pat, from + 1);
    }
}

proof fn lemma_comma(s: Seq<char>, i: int)
    requires
        0 <= i,
        i + 2 <= s.len(),
    ensures
        text::occurs_at(s, ",\""@, i) <==> s[i] == ',' && s[i + 1] == '"',
{
    reveal_strlit(",\"");
    let w = s.subrange(i, i + 2);
    assert(w[0] == s[i] && w[1] == s[i + 1]);
    assert(",\""@[0] == ',' && ",\""@[1] == '"');
    if s[i] == ',' && s[i + 1] == '"' {
        assert(w =~= ",\""@);
    }
}

proof fn lemma_split_is(
    s: Seq<char>,
    field: Seq<char>,
    gap: Seq<char>,
    ty: Seq<char>,
    tail: Seq<char>,
)
    requires
        splits_field(s, field, gap, ty, tail),
    ensures
        stats_lists::modifier_field(s) == Some((field, ty)),
{
    reveal_strlit(",\"");
    let more = ty + seq!['"'] + tail;
    let rest = gap + ",\""@ + more;
    let n = gap.len() as int;
    lemma_char_at(field, '"', rest);
    lemma_char_at(ty, '"', tail);
    assert(rest[n] == ',' && rest[n + 1] == '"');
    lemma_comma(rest, n);
    assert forall|i: int| 0 <= i < n implies !(#[trigger] text::occurs_at(rest, ",\""@, i)) by {
        lemma_comma(rest, i);
        assert(rest[i] == gap[i]);
        assert(rest[i + 1] == (gap + ",\""@)[i + 1]);
    }
    lemma_first_at(rest, ",\""@, 0, n);
    assert(rest.skip(n + 2) =~= more);
}

proof fn lemma_split_found(s: Seq<char>)
    requires
        stats_lists::modifier_field(s) is Some,
    ensures
        ({
            let f = stats_lists::modifier_field(s)->0;
            exists|gap: Seq<char>, tail: Seq<char>| #[trigger]
                splits_field(s, f.0, gap, f.1, tail)
        }),
{
    reveal_strlit(",\"");
    let f = stats_lists::modifier_field(s)->0;
    text::lemma_char_at_or_end(s, '"', 0);
    let q = text::char_at_or_end(s, '"', 0);
    let rest = s.skip(q + 1);
    lemma_first_found(rest, ",\""@, 0);
    let n = text::first_at(rest, ",\""@, 0)->0;
    lemma_comma(rest, n);
    let gap = rest.take(n);
    let more = rest.skip(n + 2);
    text::lemma_char_at_or_end(more, '"', 0);
    let e = text::char_at_or_end(more, '"', 0);
    let tail = more.skip(e + 1);
    assert(more =~= f.1 + seq!['"'] + tail);
    assert(rest =~= gap + ",\""@ + more);
    assert(s =~= f.0 + seq!['"'] + rest);
    assert forall|i: int| 0 <= i < gap.len() implies !((#[trigger] gap[i]) == ',' && (gap
        + ",\""@)[i + 1] == '"') by {
        assert(!text::occurs_at(rest, ",\""@, i));
        lemma_comma(rest, i);
        assert((gap + ",\""@)[i + 1] == rest[i + 1]);
    }
    assert(splits_field(s, f.0, gap, f.1, tail));
}

proof fn lemma_field_line(line: Seq<char>)
    ensures
        ({
            let found = match text::stripped_any_case(text::trimmed(line), "modifier \""@) {
                Some(rest) => stats_lists::modifier_field(rest),
                None => None,
            };
            &&& found is Some <==> types_some(line)
            &&& found is Some ==> types_field(line, (found->0).0, (found->0).1)
        }),
{
    reveal_strlit("modifier \"");
    let t = text::trimmed(line);
    let found = match text::stripped_any_case(t, "modifier \""@) {
        Some(rest) => stats_lists::modifier_field(rest),
        None => None,
    };
    assert(text::ascii_lowered("modifier \""@) =~= "modifier \""@);
    if found is Some {
        lemma_split_found(t.skip(10));
        assert(types_field(line, (found->0).0, (found->0).1));
    }
    if types_some(line) {
        let (field, ty) = choose|field: Seq<char>, ty: Seq<char>| #[trigger]
            types_field(line, field, ty);
        let (gap, tail) = choose|gap: Seq<char>, tail: Seq<char>| #[trigger]
            splits_field(t.skip(10), field, gap, ty, tail);
        lemma_split_is(t.skip(10), field, gap, ty, tail);
    }
}

proof fn lemma_modifier_words(t: Seq<char>)
    ensures
        text::stripped_any_case(t, "modifier type \""@) is Some ==> text::stripped_any_case(
            t,
            "modifier \""@,
        ) is None,
        text::stripped_any_case(t, "modifier type \""@) is Some ==> !stats_discovery::idle_line(t),
        text::stripped_any_case(t, "modifier \""@) is Some ==> !stats_discovery::idle_line(t),
{
    reveal_strlit("modifier type \"");
    reveal_strlit("modifier \"");
    let a = "modifier type \""@;
    let b = "modifier \""@;
    assert(a[0] == 'm' && b[0] == 'm');
    if text::stripped_any_case(t, a) is Some {
        stats_laws::lemma_first_letter(t, a, 'm');
        stats_laws::lemma_not_idle(t, 'm');
        if text::stripped_any_case(t, b) is Some {
            let x = text::ascii_lowered(t.take(15));
            let y = text::ascii_lowered(t.take(10));
            assert(x[9] == text::ascii_lower(t[9]));
            assert(y[9] == text::ascii_lower(t[9]));
            assert(text::ascii_lowered(a)[9] == text::ascii_lower(a[9]));
            assert(text::ascii_lowered(b)[9] == text::ascii_lower(b[9]));
            assert(a[9] == 't' && b[9] == '"');
        }
    }
    if text::stripped_any_case(t, b) is Some {
        stats_laws::lemma_first_letter(t, b, 'm');
        stats_laws::lemma_not_idle(t, 'm');
    }
}

proof fn lemma_modifiers(ls: Seq<Seq<char>>)
    ensures
        stats_lists::modifier_scan(ls).current == stats_laws::last_said(ls, "modifier type \""@),
        fields_given(stats_lists::modifier_scan(ls).rows, ls),
    decreases ls.len(),
{
    if ls.len() > 0 {
        let d = ls.drop_last();
        let line = ls.last();
        let before = stats_lists::modifier_scan(d);
        let after = stats_lists::modifier_scan(ls);
        lemma_modifiers(d);
        reveal_strlit("modifier type \"");
        stats_laws::lemma_said(line, "modifier type \""@);
        lemma_modifier_words(text::trimmed(line));
        lemma_field_line(line);
        if stats_laws::last_said(d, "modifier type \""@) is Some && types_some(line) {
            assert(after.rows.drop_last() =~= before.rows);
        }
    }
}

/// The modifier fields of a text are those that its lines give, in order: each belongs to
/// the modifier type that was opened last before it.
pub proof fn law_fields_belong_to_modifiers(ls: Seq<Seq<char>>)
    ensures
        fields_given(stats_lists::modifier_scan(ls).rows, ls),
{
    lemma_modifiers(ls);
}

// ---------------------------------------------------------------------------
// Localized texts
// ---------------------------------------------------------------------------

/// How many bytes stand before the first zero, among `size` of them from `at` on.
pub open spec fn is_length(b: Seq<u8>, at: int, size: int, n: int) -> bool {
    &&& 0 <= n <= size
    &&& forall|i: int| at <= i < at + n ==> #[trigger] b[i] != 0
    &&& n < size ==> b[at + n] == 0
}

/// Whether a text is what the bytes from `at` on encode, up to the first zero among
/// `size` of them.
pub open spec fn reads(b: Seq<u8>, at: int, size: int, s: Seq<char>) -> bool {
    exists|n: int| #[trigger]
        is_length(b, at, size, n) && vstd::utf8::valid_utf8(b.subrange(at, at + n))
            && vstd::utf8::decode_utf8(b.subrange(at, at + n)) == s
}

/// The size of a text: the last four bytes of its record, the lowest first.
pub open spec fn text_size(b: Seq<u8>, k: int) -> int {
    let e = 12 + 70 * k + 66;
    b[e] + 256 * b[e + 1] + 65536 * b[e + 2] + 16777216 * b[e + 3]
}

/// How many bytes the texts of some records take up together.
pub open spec fn sizes(b: Seq<u8>, from: int, to: int) -> int
    decreases to - from,
{
    if from >= to {
        0
    } else {
        text_size(b, from) + sizes(b, from + 1, to)
    }
}

proof fn lemma_zero(s: Seq<u8>)
    ensures
        ({
            let n = loca::before_zero(s).len() as int;
            &&& n <= s.len()
            &&& loca::before_zero(s) == s.take(n)
            &&& forall|i: int| 0 <= i < n ==> #[trigger] s[i] != 0
            &&& n < s.len() ==> s[n] == 0
        }),
    decreases s.len(),
{
    let z = loca::before_zero(s);
    if s.len() > 0 && s[0] != 0 {
        let d = s.drop_first();
        lemma_zero(d);
        let n = loca::before_zero(d).len() as int;
        assert(z =~= s.take(n + 1)) by {
            assert forall|i: int| 0 <= i < n + 1 implies z[i] == s[i] by {
                if i > 0 {
                    assert(d[i - 1] == s[i]);
                    assert(d.take(n)[i - 1] == d[i - 1]);
                }
            }
        }
        assert forall|i: int| 0 <= i < n + 1 implies #[trigger] s[i] != 0 by {
            if i > 0 {
                assert(d[i - 1] == s[i]);
            }
        }
        if n + 1 < s.len() {
            assert(d[n] == s[n + 1]);
        }
    } else {
        assert(z =~= s.take(0));
    }
}

proof fn lemma_reads(b: Seq<u8>, at: int, size: int)
    requires
        0 <= at,
        0 <= size,
        at + size <= b.len(),
    ensures
        loca::zero_text(b.subrange(at, at + size)) matches Some(s) ==> reads(b, at, size, s),
{
    let w = b.subrange(at, at + size);
    lemma_zero(w);
    let n = loca::before_zero(w).len() as int;
    assert(w.take(n) =~= b.subrange(at, at + n));
    assert forall|i: int| at <= i < at + n implies #[trigger] b[i] != 0 by {
        assert(w[i - at] == b[i]);
    }
    assert(is_length(b, at, size, n));
}

proof fn lemma_records(b: Seq<u8>, count: int, from: int, at: int, k: int)
    requires
        0 <= from <= k < count,
        0 <= at,
        loca::records_from(b, count, from, at) is Some,
    ensures
        ({
            let all = loca::records_from(b, count, from, at)->0;
            let e = 12 + 70 * k;
            let place = at + sizes(b, from, k);
            &&& all.len() == count - from
            &&& e + 70 <= b.len()
            &&& place + text_size(b, k) <= b.len()
            &&& reads(b, e, 64, all[k - from].contentuid)
            &&& all[k - from].version == b[e + 64] + 256 * b[e + 65]
            &&& all[k - from].text matches Some(s) && reads(b, place, text_size(b, k), s)
        }),
    decreases count - from,
{
    let e = 12 + 70 * from;
    let size = text_size(b, from);
    let all = loca::records_from(b, count, from, at)->0;
    assert(size == loca::le32(b, e + 66));
    let rest = loca::records_from(b, count, from + 1, at + size)->0;
    assert(all == seq![all[0]] + rest);
    if from < k {
        lemma_records(b, count, from + 1, at + size, k);
        assert(all[k - from] == rest[k - from - 1]);
    } else {
        lemma_reads(b, e, 64);
        lemma_reads(b, at, size);
        if from + 1 < count {
            lemma_records(b, count, from + 1, at + size, from + 1);
        }
    }
}

/// The records of a binary localization file: there are as many as its header says, each
/// has the handle and the version of its own seventy bytes, and its text stands behind
/// those of the records before it.
pub proof fn law_records_stand_in_order(b: Seq<u8>, k: int)
    requires
        loca::records(b) is Some,
        0 <= k < loca::records(b)->0.len(),
    ensures
        ({
            let all = loca::records(b)->0;
            let start = b[8] + 256 * b[9] + 65536 * b[10] + 16777216 * b[11];
            let e = 12 + 70 * k;
            let place = start + sizes(b, 0, k);
            &&& all.len() == b[4] + 256 * b[5] + 65536 * b[6] + 16777216 * b[7]
            &&& reads(b, e, 64, all[k].contentuid)
            &&& all[k].version == b[e + 64] + 256 * b[e + 65]
            &&& all[k].text matches Some(s) && reads(b, place, text_size(b, k), s)
        }),
{
    let count = loca::le32(b, 4);
    let at = loca::le32(b, 8);
    if count > 0 {
        lemma_records(b, count, 0, at, 0);
        lemma_records(b, count, 0, at, k);
    }
}

/// Whether the bytes from `at` on encode a text, up to the first zero among `size` of them.
pub open spec fn is_text(b: Seq<u8>, at: int, size: int) -> bool {
    exists|s: Seq<char>| #[trigger] reads(b, at, size, s)
}

/// Whether a record lies within the file, and its handle and its text are texts.
pub open spec fn is_whole(b: Seq<u8>, start: int, k: int) -> bool {
    let e = 12 + 70 * k;
    let place = start + sizes(b, 0, k);
    &&& e + 70 <= b.len()
    &&& place + text_size(b, k) <= b.len()
    &&& is_text(b, e, 64)
    &&& is_text(b, place, text_size(b, k))
}

proof fn lemma_sizes_step(b: Seq<u8>, from: int, to: int)
    requires
        from <= to,
    ensures
        sizes(b, from, to + 1) == sizes(b, from, to) + text_size(b, to),
    decreases to - from,
{
    if from < to {
        lemma_sizes_step(b, from + 1, to);
    } else {
        assert(sizes(b, to + 1, to + 1) == 0);
    }
}

proof fn lemma_is_text(b: Seq<u8>, at: int, size: int)
    requires
        0 <= at,
        0 <= size,
        at + size <= b.len(),
        is_text(b, at, size),
    ensures
        loca::zero_text(b.subrange(at, at + size)) is Some,
{
    let s = choose|s: Seq<char>| #[trigger] reads(b, at, size, s);
    let n = choose|n: int| #[trigger]
        is_length(b, at, size, n) && vstd::utf8::valid_utf8(b.subrange(at, at + n))
            && vstd::utf8::decode_utf8(b.subrange(at, at + n)) == s;
    let w = b.subrange(at, at + size);
    lemma_zero(w);
    let z = loca::before_zero(w).len() as int;
    if z < n {
        assert(w[z] == b[at + z]);
    } else if n < z {
        assert(w[n] == b[at + n]);
    }
    assert(w.take(n) =~= b.subrange(at, at + n));
}

proof fn lemma_all_whole(b: Seq<u8>, count: int, start: int, from: int)
    requires
        0 <= from,
        0 <= start,
        0 <= sizes(b, 0, from),
        forall|k: int| from <= k < count ==> #[trigger] is_whole(b, start, k),
    ensures
        loca::records_from(b, count, from, start + sizes(b, 0, from)) is Some,
    decreases count - from,
{
    if from < count {
        assert(is_whole(b, start, from));
        let place = start + sizes(b, 0, from);
        lemma_sizes_step(b, 0, from);
        assert(text_size(b, from) == loca::le32(b, 12 + 70 * from + 66));
        lemma_is_text(b, 12 + 70 * from, 64);
        lemma_is_text(b, place, text_size(b, from));
        lemma_all_whole(b, count, start, from + 1);
    }
}

/// A binary localization file is taken where it bears its mark and all its records are
/// whole.
pub proof fn law_whole_files_are_read(b: Seq<u8>)
    requires
        b.len() >= 12,
        b[0] == 0x4c,
        b[1] == 0x4f,
        b[2] == 0x43,
        b[3] == 0x41,
        forall|k: int|
            0 <= k < b[4] + 256 * b[5] + 65536 * b[6] + 16777216 * b[7] ==> #[trigger] is_whole(
                b,
                b[8] + 256 * b[9] + 65536 * b[10] + 16777216 * b[11],
                k,
            ),
    ensures
        loca::records(b) is Some,
{
    lemma_all_whole(b, loca::le32(b, 4), loca::le32(b, 8), 0);
}

} // verus!
