//! The text of SQL statements.

use vstd::prelude::*;
use vstd::string::*;
use crate::text;
use crate::text::{decimal_text, join, owned};
use crate::types::{SqlModel, SqlValue};

verus! {

/// A statement with its parameters.
#[derive(Debug)]
pub struct Statement {
    /// What the statement does: an error says this first.
    pub what: String,
    pub sql: String,
    pub params: Vec<SqlValue>,
}

/// What a statement says.
pub struct StatementModel {
    pub what: Seq<char>,
    pub sql: Seq<char>,
    pub params: Seq<SqlModel>,
}

impl DeepView for Statement {
    type V = StatementModel;

    open spec fn deep_view(&self) -> StatementModel {
        StatementModel { what: self.what@, sql: self.sql@, params: self.params.deep_view() }
    }
}

/// What a statement does, with the name of what it does it to.
pub open spec fn naming(what: Seq<char>, name: Seq<char>) -> Seq<char> {
    what + " '"@ + name + "'"@
}

/// What a statement does, with the name of what it does it to.
pub fn name_in(what: &str, name: &str) -> (r: String)
    ensures
        r@ == naming(what@, name@),
{
    let mut r = owned(what);
    r.append(" '");
    r.append(name);
    r.append("'");
    r
}

/// A text as it is stored.
pub fn text_value(s: &str) -> (r: SqlValue)
    ensures
        r.deep_view() == SqlModel::Text(s@),
{
    SqlValue::Text(owned(s))
}

/// A text as it is stored, where there is one.
pub open spec fn optional_value(s: Option<Seq<char>>) -> SqlModel {
    match s {
        Some(t) => SqlModel::Text(t),
        None => SqlModel::Null,
    }
}

/// A text as it is stored, where there is one.
pub fn opt_value(s: &Option<String>) -> (r: SqlValue)
    ensures
        r.deep_view() == optional_value(s.deep_view()),
{
    match s {
        Some(t) => SqlValue::Text(t.clone()),
        None => SqlValue::Null,
    }
}

/// The statements that belong to the items of a list, one item after the
/// other.
pub open spec fn statements_of<T>(
    items: Seq<T>,
    f: spec_fn(T) -> Seq<StatementModel>,
) -> Seq<StatementModel>
    decreases items.len(),
{
    if items.len() == 0 {
        Seq::empty()
    } else {
        statements_of(items.drop_last(), f) + f(items.last())
    }
}

/// The statements of one item more.
pub proof fn lemma_statements_step<T>(
    items: Seq<T>,
    f: spec_fn(T) -> Seq<StatementModel>,
    i: int,
)
    requires
        0 <= i < items.len(),
    ensures
        statements_of(items.take(i + 1), f) == statements_of(items.take(i), f) + f(items[i]),
{
    assert(items.take(i + 1).drop_last() =~= items.take(i));
}

/// A name in double quotes.
pub open spec fn quoted(name: Seq<char>) -> Seq<char> {
    "\""@ + name + "\""@
}

/// The name in double quotes.
pub fn quote(name: &str) -> (r: String)
    ensures
        r@ == quoted(name@),
{
    let mut r = owned("\"");
    r.append(name);
    r.append("\"");
    r
}

/// Names in double quotes.
pub open spec fn all_quoted(names: Seq<Seq<char>>) -> Seq<Seq<char>> {
    Seq::new(names.len(), |i: int| quoted(names[i]))
}

/// Names in double quotes, separated by commas.
pub open spec fn name_list(names: Seq<Seq<char>>) -> Seq<char> {
    text::joined(all_quoted(names), ", "@)
}

/// The names in double quotes, separated by commas.
#[verifier::loop_isolation(false)]
pub fn list_names(names: &Vec<String>) -> (r: String)
    ensures
        r@ == name_list(names.deep_view()),
{
    let ghost want = all_quoted(names.deep_view());
    let mut parts: Vec<String> = Vec::new();
    let mut i: usize = 0;
    while i < names.len()
        invariant
            i <= names@.len(),
            parts.deep_view() == want.take(i as int),
        decreases names@.len() - i,
    {
        parts.push(quote(names[i].as_str()));
        i += 1;
        assert(parts.deep_view() =~= want.take(i as int));
    }
    assert(want.take(i as int) =~= want);
    join(&parts, ", ")
}

/// A numbered parameter.
pub open spec fn mark(n: nat) -> Seq<char> {
    "?"@ + text::decimal(n)
}

/// The numbered parameter.
pub fn param_mark(n: u64) -> (r: String)
    ensures
        r@ == mark(n as nat),
{
    let mut r = owned("?");
    let d = decimal_text(n);
    r.append(d.as_str());
    r
}

/// As many parameters as `count` says, from number `first` on.
pub open spec fn marks(first: nat, count: nat) -> Seq<Seq<char>> {
    Seq::new(count, |i: int| mark((first + i) as nat))
}

/// As many parameters as `count` says, from number `first` on, separated by
/// commas.
pub open spec fn mark_list(first: nat, count: nat) -> Seq<char> {
    text::joined(marks(first, count), ", "@)
}

/// As many parameters as `count` says, from number `first` on, separated by
/// commas.
#[verifier::loop_isolation(false)]
pub fn list_marks(first: u64, count: usize) -> (r: String)
    requires
        first + count <= u64::MAX + 1,
    ensures
        r@ == mark_list(first as nat, count as nat),
{
    let ghost want = marks(first as nat, count as nat);
    let mut parts: Vec<String> = Vec::new();
    let mut i: usize = 0;
    while i < count
        invariant
            i <= count,
            parts.deep_view() == want.take(i as int),
        decreases count - i,
    {
        parts.push(param_mark(first + i as u64));
        i += 1;
        assert(parts.deep_view() =~= want.take(i as int));
    }
    assert(want.take(i as int) =~= want);
    join(&parts, ", ")
}

/// A statement that inserts a row unless its key is there already.
pub open spec fn insert_sql(table: Seq<char>, columns: Seq<Seq<char>>) -> Seq<char> {
    "INSERT OR IGNORE INTO \""@ + table + "\" ("@ + name_list(columns) + ") VALUES ("@
        + mark_list(1, columns.len()) + ")"@
}

/// The statement that inserts a row unless its key is there already.
pub fn insert_statement(table: &str, columns: &Vec<String>) -> (r: String)
    ensures
        r@ == insert_sql(table@, columns.deep_view()),
{
    let names = list_names(columns);
    let values = list_marks(1, columns.len());
    let mut r = owned("INSERT OR IGNORE INTO \"");
    r.append(table);
    r.append("\" (");
    r.append(names.as_str());
    r.append(") VALUES (");
    r.append(values.as_str());
    r.append(")");
    r
}

/// A statement that links two rows.
pub open spec fn link_sql(junction: Seq<char>) -> Seq<char> {
    "INSERT OR IGNORE INTO \""@ + junction + "\" (parent_id, child_id) VALUES (?1, ?2)"@
}

/// The statement that links two rows.
pub fn link_statement(junction: &str) -> (r: String)
    ensures
        r@ == link_sql(junction@),
{
    let mut r = owned("INSERT OR IGNORE INTO \"");
    r.append(junction);
    r.append("\" (parent_id, child_id) VALUES (?1, ?2)");
    r
}

} // verus!
