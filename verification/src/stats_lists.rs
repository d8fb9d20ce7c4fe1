//! Stats text files that hold plain lists: equipment, value lists and
//! modifiers.

use vstd::prelude::*;
use crate::stats_discovery;
use crate::stats_discovery::is_idle;
use crate::stats_text;
use crate::stats_text::before_quote;
use crate::text;
use crate::text::{after_text, copy_opt, lines, parse_i64, split_once, strip_prefix_ci, trim};

verus! {

/// An equipment set.
#[derive(Debug)]
pub struct ParsedEquipmentEntry {
    pub name: String,
}

/// What an equipment set says.
pub struct EquipmentModel {
    pub name: Seq<char>,
}

impl DeepView for ParsedEquipmentEntry {
    type V = EquipmentModel;

    open spec fn deep_view(&self) -> EquipmentModel {
        EquipmentModel { name: self.name@ }
    }
}

/// A value of a value list.
#[derive(Debug)]
pub struct ParsedValueListRow {
    pub list_key: String,
    pub value_name: String,
    pub value_index: i64,
}

/// What a value of a value list says.
pub struct ValueModel {
    pub list_key: Seq<char>,
    pub value_name: Seq<char>,
    pub value_index: i64,
}

impl DeepView for ParsedValueListRow {
    type V = ValueModel;

    open spec fn deep_view(&self) -> ValueModel {
        ValueModel {
            list_key: self.list_key@,
            value_name: self.value_name@,
            value_index: self.value_index,
        }
    }
}

/// A field of a modifier type.
#[derive(Debug)]
pub struct ParsedModifierRow {
    pub modifier_type: String,
    pub field_name: String,
    pub field_type: String,
}

/// What a field of a modifier type says.
pub struct ModifierModel {
    pub modifier_type: Seq<char>,
    pub field_name: Seq<char>,
    pub field_type: Seq<char>,
}

impl DeepView for ParsedModifierRow {
    type V = ModifierModel;

    open spec fn deep_view(&self) -> ModifierModel {
        ModifierModel {
            modifier_type: self.modifier_type@,
            field_name: self.field_name@,
            field_type: self.field_type@,
        }
    }
}

// ---------------------------------------------------------------------------
// Equipment
// ---------------------------------------------------------------------------

/// The equipment set that a line opens: `new equipment "NAME"`.
pub open spec fn equipment_on(line: Seq<char>) -> Option<Seq<char>> {
    match text::stripped_any_case(text::trimmed(line), "new equipment \""@) {
        Some(rest) => text::nonempty(stats_text::until_quote(rest)),
        None => None,
    }
}

/// The equipment sets that lines open.
pub open spec fn equipment_in(ls: Seq<Seq<char>>) -> Seq<EquipmentModel>
    decreases ls.len(),
{
    if ls.len() == 0 {
        Seq::empty()
    } else {
        let before = equipment_in(ls.drop_last());
        match equipment_on(ls.last()) {
            Some(name) => before.push(EquipmentModel { name }),
            None => before,
        }
    }
}

fn read_equipment(line: &str) -> (r: Option<String>)
    ensures
        r.deep_view() == equipment_on(line@),
{
    let t = trim(line);
    match strip_prefix_ci(t.as_str(), "new equipment \"") {
        Some(rest) => match before_quote(rest.as_str()) {
            Some(name) => if name.as_str().is_empty() {
                None
            } else {
                Some(name)
            },
            None => None,
        },
        None => None,
    }
}

/// The equipment sets that a text holds.
#[verifier::loop_isolation(false)]
pub fn equipment_entries(content: &str) -> (r: Vec<ParsedEquipmentEntry>)
    ensures
        r.deep_view() == equipment_in(text::text_lines(content@)),
{
    let ls = lines(content);
    let ghost all = ls.deep_view();
    let mut r: Vec<ParsedEquipmentEntry> = Vec::new();
    assert(r.deep_view() =~= equipment_in(all.take(0)));
    let mut i: usize = 0;
    while i < ls.len()
        invariant
            i <= ls@.len(),
            all == ls.deep_view(),
            r.deep_view() == equipment_in(all.take(i as int)),
        decreases ls@.len() - i,
    {
        let ghost before = r.deep_view();
        assert(all[i as int] == ls@[i as int]@);
        assert(all.take(i + 1).drop_last() =~= all.take(i as int));
        match read_equipment(ls[i].as_str()) {
            Some(name) => {
                let entry = ParsedEquipmentEntry { name };
                r.push(entry);
                assert(r.deep_view() =~= before.push(entry.deep_view()));
            },
            None => {},
        }
        i += 1;
    }
    assert(all.take(i as int) =~= all);
    r
}

// ---------------------------------------------------------------------------
// Value lists
// ---------------------------------------------------------------------------

/// The value lists of a text so far: the list at hand and the values.
pub struct ValueScan {
    pub current: Option<Seq<char>>,
    pub rows: Seq<ValueModel>,
}

/// The index of a value: the number behind the first colon, or zero.
pub open spec fn value_index(rest: Seq<char>) -> i64 {
    match text::halves(rest, ':') {
        Some(h) => match text::number_within(
            text::trimmed(h.1),
            i64::MIN as int,
            i64::MAX as int,
        ) {
            Some(n) => n as i64,
            None => 0,
        },
        None => 0,
    }
}

/// The value lists after a line: `valuelist "KEY"` opens a list, `value "NAME" : N`
/// adds a value to it.
pub open spec fn value_step(st: ValueScan, line: Seq<char>) -> ValueScan {
    let t = text::trimmed(line);
    let opens = text::stripped_any_case(t, "valuelist \""@);
    let value = text::stripped_any_case(t, "value \""@);
    if stats_discovery::idle_line(t) {
        st
    } else if opens is Some {
        match text::halves(opens->0, '"') {
            Some(h) => ValueScan { current: Some(h.0), ..st },
            None => st,
        }
    } else if value is Some && st.current is Some {
        match text::halves(value->0, '"') {
            Some(h) => ValueScan {
                rows: st.rows.push(
                    ValueModel {
                        list_key: st.current->0,
                        value_name: h.0,
                        value_index: value_index(h.1),
                    },
                ),
                ..st
            },
            None => st,
        }
    } else {
        st
    }
}

/// The value lists after several lines.
pub open spec fn value_scan(ls: Seq<Seq<char>>) -> ValueScan
    decreases ls.len(),
{
    if ls.len() == 0 {
        ValueScan { current: None, rows: Seq::empty() }
    } else {
        value_step(value_scan(ls.drop_last()), ls.last())
    }
}

fn read_index(rest: &str) -> (r: i64)
    ensures
        r == value_index(rest@),
{
    match split_once(rest, ':') {
        Some(h) => {
            let number = trim(h.1.as_str());
            match parse_i64(number.as_str()) {
                Some(n) => n,
                None => 0,
            }
        },
        None => 0,
    }
}

fn scan_value_line(current: &mut Option<String>, rows: &mut Vec<ParsedValueListRow>, line: &str)
    ensures
        (ValueScan {
            current: final(current).deep_view(),
            rows: final(rows).deep_view(),
        }) == value_step(
            ValueScan { current: old(current).deep_view(), rows: old(rows).deep_view() },
            line@,
        ),
{
    let ghost before = rows.deep_view();
    let t = trim(line);
    if is_idle(t.as_str()) {
        return;
    }
    if let Some(rest) = strip_prefix_ci(t.as_str(), "valuelist \"") {
        if let Some(h) = split_once(rest.as_str(), '"') {
            *current = Some(h.0);
        }
        return;
    }
    if let Some(rest) = strip_prefix_ci(t.as_str(), "value \"") {
        if let Some(key) = copy_opt(current) {
            if let Some(h) = split_once(rest.as_str(), '"') {
                let index: i64 = read_index(h.1.as_str());
                let row = ParsedValueListRow { list_key: key, value_name: h.0, value_index: index };
                rows.push(row);
                assert(rows.deep_view() =~= before.push(row.deep_view()));
            }
        }
    }
}

/// The values of the value lists that a text holds.
#[verifier::loop_isolation(false)]
pub fn value_list_rows(content: &str) -> (r: Vec<ParsedValueListRow>)
    ensures
        r.deep_view() == value_scan(text::text_lines(content@)).rows,
{
    let ls = lines(content);
    let ghost all = ls.deep_view();
    let mut current: Option<String> = None;
    let mut r: Vec<ParsedValueListRow> = Vec::new();
    assert(r.deep_view() =~= value_scan(all.take(0)).rows);
    let mut i: usize = 0;
    while i < ls.len()
        invariant
            i <= ls@.len(),
            all == ls.deep_view(),
            value_scan(all.take(i as int)) == (ValueScan {
                current: current.deep_view(),
                rows: r.deep_view(),
            }),
        decreases ls@.len() - i,
    {
        assert(all[i as int] == ls@[i as int]@);
        assert(all.take(i + 1).drop_last() =~= all.take(i as int));
        scan_value_line(&mut current, &mut r, ls[i].as_str());
        i += 1;
    }
    assert(all.take(i as int) =~= all);
    r
}

// ---------------------------------------------------------------------------
// Modifiers
// ---------------------------------------------------------------------------

/// The modifiers of a text so far: the type at hand and the fields.
pub struct ModifierScan {
    pub current: Option<Seq<char>>,
    pub rows: Seq<ModifierModel>,
}

/// The field and its type in `FIELD","TYPE"`.
pub open spec fn modifier_field(rest: Seq<char>) -> Option<(Seq<char>, Seq<char>)> {
    match text::halves(rest, '"') {
        Some(h) => match text::rest_after(h.1, ",\""@) {
            Some(more) => match stats_text::until_quote(more) {
                Some(ty) => Some((h.0, ty)),
                None => None,
            },
            None => None,
        },
        None => None,
    }
}

/// The modifiers after a line: `modifier type "NAME"` opens a type,
/// `modifier "FIELD","TYPE"` adds a field to it.
pub open spec fn modifier_step(st: ModifierScan, line: Seq<char>) -> ModifierScan {
    let t = text::trimmed(line);
    let opens = text::stripped_any_case(t, "modifier type \""@);
    let field = text::stripped_any_case(t, "modifier \""@);
    if stats_discovery::idle_line(t) {
        st
    } else if opens is Some {
        match stats_text::until_quote(opens->0) {
            Some(name) => ModifierScan { current: Some(name), ..st },
            None => st,
        }
    } else if field is Some && st.current is Some {
        match modifier_field(field->0) {
            Some(f) => ModifierScan {
                rows: st.rows.push(
                    ModifierModel { modifier_type: st.current->0, field_name: f.0, field_type: f.1 },
                ),
                ..st
            },
            None => st,
        }
    } else {
        st
    }
}

/// The modifiers after several lines.
pub open spec fn modifier_scan(ls: Seq<Seq<char>>) -> ModifierScan
    decreases ls.len(),
{
    if ls.len() == 0 {
        ModifierScan { current: None, rows: Seq::empty() }
    } else {
        modifier_step(modifier_scan(ls.drop_last()), ls.last())
    }
}

fn read_modifier(rest: &str) -> (r: Option<(String, String)>)
    ensures
        r.deep_view() == modifier_field(rest@),
{
    match split_once(rest, '"') {
        Some(h) => match after_text(h.1.as_str(), ",\"") {
            Some(more) => match before_quote(more.as_str()) {
                Some(ty) => Some((h.0, ty)),
                None => None,
            },
            None => None,
        },
        None => None,
    }
}

fn scan_modifier_line(current: &mut Option<String>, rows: &mut Vec<ParsedModifierRow>, line: &str)
    ensures
        (ModifierScan {
            current: final(current).deep_view(),
            rows: final(rows).deep_view(),
        }) == modifier_step(
            ModifierScan { current: old(current).deep_view(), rows: old(rows).deep_view() },
            line@,
        ),
{
    let ghost before = rows.deep_view();
    let t = trim(line);
    if is_idle(t.as_str()) {
        return;
    }
    if let Some(rest) = strip_prefix_ci(t.as_str(), "modifier type \"") {
        if let Some(name) = before_quote(rest.as_str()) {
            *current = Some(name);
        }
        return;
    }
    if let Some(rest) = strip_prefix_ci(t.as_str(), "modifier \"") {
        if let Some(modifier_type) = copy_opt(current) {
            if let Some(f) = read_modifier(rest.as_str()) {
                let row = ParsedModifierRow { modifier_type, field_name: f.0, field_type: f.1 };
                rows.push(row);
                assert(rows.deep_view() =~= before.push(row.deep_view()));
            }
        }
    }
}

/// The fields of the modifier types that a text holds.
#[verifier::loop_isolation(false)]
pub fn modifier_rows(content: &str) -> (r: Vec<ParsedModifierRow>)
    ensures
        r.deep_view() == modifier_scan(text::text_lines(content@)).rows,
{
    let ls = lines(content);
    let ghost all = ls.deep_view();
    let mut current: Option<String> = None;
    let mut r: Vec<ParsedModifierRow> = Vec::new();
    assert(r.deep_view() =~= modifier_scan(all.take(0)).rows);
    let mut i: usize = 0;
    while i < ls.len()
        invariant
            i <= ls@.len(),
            all == ls.deep_view(),
            modifier_scan(all.take(i as int)) == (ModifierScan {
                current: current.deep_view(),
                rows: r.deep_view(),
            }),
        decreases ls@.len() - i,
    {
        assert(all[i as int] == ls@[i as int]@);
        assert(all.take(i + 1).drop_last() =~= all.take(i as int));
        scan_modifier_line(&mut current, &mut r, ls[i].as_str());
        i += 1;
    }
    assert(all.take(i as int) =~= all);
    r
}

} // verus!
