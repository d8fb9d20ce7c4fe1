//! The game's value types and how their values are stored.

use vstd::prelude::*;
use crate::reals;
use crate::reals::denotes_finite;
use crate::text;
use crate::text::{eq_ignore_case, owned, parse_i64, text_eq};

verus! {

/// The types that are stored as whole numbers.
pub open spec fn integer_type(t: Seq<char>) -> bool {
    t == "bool"@ || t == "int8"@ || t == "int16"@ || t == "int32"@ || t == "int64"@ || t == "uint8"@
        || t == "uint16"@ || t == "uint32"@ || t == "uint64"@
}

/// The types that are stored as real numbers.
pub open spec fn real_type(t: Seq<char>) -> bool {
    t == "float"@ || t == "double"@
}

/// The SQLite column type of a value type.
pub open spec fn affinity(t: Seq<char>) -> Seq<char> {
    if integer_type(t) {
        "INTEGER"@
    } else if real_type(t) {
        "REAL"@
    } else {
        "TEXT"@
    }
}

fn is_integer_type(t: &str) -> (r: bool)
    ensures
        r == integer_type(t@),
{
    text_eq(t, "bool") || text_eq(t, "int8") || text_eq(t, "int16") || text_eq(t, "int32")
        || text_eq(t, "int64") || text_eq(t, "uint8") || text_eq(t, "uint16") || text_eq(
        t,
        "uint32",
    ) || text_eq(t, "uint64")
}

fn is_real_type(t: &str) -> (r: bool)
    ensures
        r == real_type(t@),
{
    text_eq(t, "float") || text_eq(t, "double")
}

/// The SQLite column type of a value type.
pub fn sqlite_type(bg3_type: &str) -> (r: &'static str)
    ensures
        r@ == affinity(bg3_type@),
{
    if is_integer_type(bg3_type) {
        "INTEGER"
    } else if is_real_type(bg3_type) {
        "REAL"
    } else {
        "TEXT"
    }
}

/// A value to be stored.
#[derive(Debug)]
pub enum SqlValue {
    Null,
    Integer(i64),
    /// The text of a finite real number, which is stored as that number.
    Real(String),
    Text(String),
}

/// What a stored value is.
pub enum SqlModel {
    Null,
    Integer(int),
    Real(Seq<char>),
    Text(Seq<char>),
}

impl DeepView for SqlValue {
    type V = SqlModel;

    open spec fn deep_view(&self) -> SqlModel {
        match self {
            SqlValue::Null => SqlModel::Null,
            SqlValue::Integer(n) => SqlModel::Integer(*n as int),
            SqlValue::Real(s) => SqlModel::Real(s@),
            SqlValue::Text(s) => SqlModel::Text(s@),
        }
    }
}

impl Clone for SqlValue {
    fn clone(&self) -> (r: Self)
        ensures
            r.deep_view() == self.deep_view(),
    {
        match self {
            SqlValue::Null => SqlValue::Null,
            SqlValue::Integer(n) => SqlValue::Integer(*n),
            SqlValue::Real(s) => SqlValue::Real(s.clone()),
            SqlValue::Text(s) => SqlValue::Text(s.clone()),
        }
    }
}

/// Whether a text says yes: `true` in any case, or `1`.
pub open spec fn says_true(val: Seq<char>) -> bool {
    text::ascii_lowered(val) == text::ascii_lowered("true"@) || val == "1"@
}

/// A game value as it is stored: truth values as one and zero, whole numbers
/// as numbers where they fit, real numbers where they are finite, and everything
/// else as text.
pub open spec fn coerced(val: Seq<char>, bg3_type: Seq<char>) -> SqlModel {
    let n = text::number_within(val, i64::MIN as int, i64::MAX as int);
    if bg3_type == "bool"@ {
        SqlModel::Integer(
            if says_true(val) {
                1
            } else {
                0
            },
        )
    } else if integer_type(bg3_type) && n is Some {
        SqlModel::Integer(n->0)
    } else if real_type(bg3_type) && reals::finite_number(val) {
        SqlModel::Real(val)
    } else {
        SqlModel::Text(val)
    }
}

/// No type is stored both as whole numbers and as real numbers.
proof fn lemma_kinds_differ(t: Seq<char>)
    ensures
        !(integer_type(t) && real_type(t)),
{
    reveal_strlit("bool");
    reveal_strlit("float");
    reveal_strlit("double");
    reveal_strlit("int8");
    reveal_strlit("int16");
    reveal_strlit("int32");
    reveal_strlit("int64");
    reveal_strlit("uint8");
    reveal_strlit("uint16");
    reveal_strlit("uint32");
    reveal_strlit("uint64");
    assert("bool"@.len() == 4 && "bool"@[0] == 'b');
    assert("float"@.len() == 5 && "float"@[0] == 'f');
    assert("double"@.len() == 6 && "double"@[0] == 'd');
    assert("int8"@[0] == 'i' && "int16"@[0] == 'i' && "int32"@[0] == 'i' && "int64"@[0] == 'i');
    assert("uint8"@[0] == 'u' && "uint16"@[0] == 'u' && "uint32"@[0] == 'u' && "uint64"@[0] == 'u');
}

/// A game value as it is stored, taking over its text.
pub fn coerce_value_owned(val: String, bg3_type: &str) -> (r: SqlValue)
    ensures
        r.deep_view() == coerced(val@, bg3_type@),
{
    proof {
        lemma_kinds_differ(bg3_type@);
    }
    if text_eq(bg3_type, "bool") {
        if eq_ignore_case(val.as_str(), "true") || text_eq(val.as_str(), "1") {
            SqlValue::Integer(1)
        } else {
            SqlValue::Integer(0)
        }
    } else if is_integer_type(bg3_type) {
        match parse_i64(val.as_str()) {
            Some(n) => SqlValue::Integer(n),
            None => SqlValue::Text(val),
        }
    } else if is_real_type(bg3_type) && denotes_finite(val.as_str()) {
        SqlValue::Real(val)
    } else {
        SqlValue::Text(val)
    }
}

/// A game value as it is stored.
pub fn coerce_value(val: &str, bg3_type: &str) -> (r: SqlValue)
    ensures
        r.deep_view() == coerced(val@, bg3_type@),
{
    coerce_value_owned(owned(val), bg3_type)
}

/// What is stored of a value, whether its text is taken over or not: it is never
/// missing; a truth value is one or zero; a whole number that fits is that number; a
/// text that denotes a finite real number is that number where the type is real; and
/// every other value keeps its text.
pub proof fn law_coerced_keeps_value(val: Seq<char>, bg3_type: Seq<char>)
    ensures
        coerced(val, bg3_type) !is Null,
        bg3_type == "bool"@ ==> coerced(val, bg3_type) == SqlModel::Integer(
            if says_true(val) {
                1
            } else {
                0
            },
        ),
        integer_type(bg3_type) && bg3_type != "bool"@ ==> coerced(val, bg3_type) == match text::number_within(
            val,
            i64::MIN as int,
            i64::MAX as int,
        ) {
            Some(n) => SqlModel::Integer(n),
            None => SqlModel::Text(val),
        },
        real_type(bg3_type) ==> coerced(val, bg3_type) == if reals::finite_number(val) {
            SqlModel::Real(val)
        } else {
            SqlModel::Text(val)
        },
        !integer_type(bg3_type) && !real_type(bg3_type) ==> coerced(val, bg3_type)
            == SqlModel::Text(val),
{
    lemma_kinds_differ(bg3_type);
}

} // verus!
