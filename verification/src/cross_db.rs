//! References across databases that are attached to each other.

use vstd::prelude::*;
use vstd::string::*;
use crate::discovery::glued;
use crate::text;
use crate::text::{chars_of, copy_list, join, owned, replace_char, text_eq};

verus! {

/// The database of the plain game.
pub const ALIAS_BASE: &'static str = "base";

/// The database of the honour mode.
pub const ALIAS_HONOR: &'static str = "honor";

/// The database of the mods.
pub const ALIAS_MODS: &'static str = "mods";

/// Whether a name can stand for an attached database: it has only letters,
/// digits and underscores.
pub open spec fn valid_alias(alias: Seq<char>) -> bool {
    forall|i: int|
        0 <= i < alias.len() ==> text::is_ascii_alnum(#[trigger] alias[i]) || alias[i] == '_'
}

/// Whether a name can stand for an attached database.
#[verifier::loop_isolation(false)]
pub fn alias_is_valid(alias: &str) -> (r: bool)
    ensures
        r == valid_alias(alias@),
{
    let v = chars_of(alias);
    let mut i: usize = 0;
    while i < v.len()
        invariant
            i <= v@.len(),
            forall|j: int|
                0 <= j < i ==> text::is_ascii_alnum(#[trigger] alias@[j]) || alias@[j] == '_',
        decreases v@.len() - i,
    {
        let c = v[i];
        let alnum = ('a' <= c && c <= 'z') || ('A' <= c && c <= 'Z') || ('0' <= c && c <= '9');
        if !alnum && c != '_' {
            assert(!text::is_ascii_alnum(alias@[i as int]));
            return false;
        }
        i += 1;
    }
    true
}

/// The statement that attaches a database file, or what is wrong with the
/// alias.
pub fn attach_readonly(db_path: &str, alias: &str) -> (r: Result<String, String>)
    ensures
        match r {
            Ok(s) => valid_alias(alias@) && s@ == "ATTACH DATABASE '"@ + text::swapped(
                db_path@,
                '\\',
                '/',
            ) + "' AS \""@ + alias@ + "\""@,
            Err(e) => !valid_alias(alias@) && e@ == "Invalid alias: "@ + alias@,
        },
{
    if !alias_is_valid(alias) {
        return Err(glued("Invalid alias: ", alias));
    }
    let path = replace_char(db_path, '\\', '/');
    let mut s = owned("ATTACH DATABASE '");
    s.append(path.as_str());
    s.append("' AS \"");
    s.append(alias);
    s.append("\"");
    Ok(s)
}

/// The statement that detaches a database, or what is wrong with the alias.
pub fn detach(alias: &str) -> (r: Result<String, String>)
    ensures
        match r {
            Ok(s) => valid_alias(alias@) && s@ == "DETACH DATABASE \""@ + alias@ + "\""@,
            Err(e) => !valid_alias(alias@) && e@ == "Invalid alias: "@ + alias@,
        },
{
    if !alias_is_valid(alias) {
        return Err(glued("Invalid alias: ", alias));
    }
    let mut s = owned("DETACH DATABASE \"");
    s.append(alias);
    s.append("\"");
    Ok(s)
}

/// The databases that are attached, without the main and the temporary one.
pub open spec fn attached_of(rows: Seq<(Seq<char>, Seq<char>)>) -> Seq<(Seq<char>, Seq<char>)>
    decreases rows.len(),
{
    if rows.len() == 0 {
        Seq::empty()
    } else {
        let before = attached_of(rows.drop_last());
        let name = rows.last().0;
        if name != "main"@ && name != "temp"@ {
            before.push(rows.last())
        } else {
            before
        }
    }
}

/// The databases that are attached, of those that the connection lists.
#[verifier::loop_isolation(false)]
pub fn list_attached(rows: &Vec<(String, String)>) -> (r: Vec<(String, String)>)
    ensures
        r.deep_view() == attached_of(rows.deep_view()),
{
    let ghost all = rows.deep_view();
    let mut r: Vec<(String, String)> = Vec::new();
    assert(r.deep_view() =~= attached_of(all.take(0)));
    let mut i: usize = 0;
    while i < rows.len()
        invariant
            i <= rows@.len(),
            all == rows.deep_view(),
            r.deep_view() == attached_of(all.take(i as int)),
        decreases rows@.len() - i,
    {
        assert(all.take(i + 1).drop_last() =~= all.take(i as int));
        assert(all[i as int] == rows@[i as int].deep_view());
        let ghost before = r.deep_view();
        if !text_eq(rows[i].0.as_str(), "main") && !text_eq(rows[i].0.as_str(), "temp") {
            r.push((rows[i].0.clone(), rows[i].1.clone()));
            assert(r.deep_view() =~= before.push(all[i as int]));
        }
        i += 1;
    }
    assert(all.take(i as int) =~= all);
    r
}

/// Whether a database is attached under a name.
pub open spec fn is_attached(rows: Seq<(Seq<char>, Seq<char>)>, alias: Seq<char>) -> bool {
    exists|i: int| 0 <= i < rows.len() && (#[trigger] rows[i]).0 == alias
}

/// Whether a database is attached under a name.
#[verifier::loop_isolation(false)]
pub fn has_attached(rows: &Vec<(String, String)>, alias: &str) -> (r: bool)
    ensures
        r == is_attached(rows.deep_view(), alias@),
{
    let ghost all = rows.deep_view();
    let mut i: usize = 0;
    while i < rows.len()
        invariant
            i <= rows@.len(),
            all == rows.deep_view(),
            forall|j: int| 0 <= j < i ==> (#[trigger] all[j]).0 != alias@,
        decreases rows@.len() - i,
    {
        assert(all[i as int] == rows@[i as int].deep_view());
        if text_eq(rows[i].0.as_str(), alias) {
            return true;
        }
        i += 1;
    }
    false
}

// ---------------------------------------------------------------------------
// Lookups
// ---------------------------------------------------------------------------

/// Names as texts.
pub open spec fn names_of(names: Seq<&str>) -> Seq<Seq<char>> {
    Seq::new(names.len(), |i: int| names[i]@)
}

/// The lookup of a key in an attached database.
pub open spec fn exists_part(alias: Seq<char>, table: Seq<char>, pk: Seq<char>) -> Seq<char> {
    "SELECT \""@ + pk + "\" FROM \""@ + alias + "\".\""@ + table + "\" WHERE \""@ + pk
        + "\" = ?1"@
}

/// The lookup of a key in the main database and in those attached, in their
/// order.
pub open spec fn exists_sql(table: Seq<char>, pk: Seq<char>, aliases: Seq<Seq<char>>) -> Seq<char> {
    text::joined(
        seq!["SELECT \""@ + pk + "\" FROM main.\""@ + table + "\" WHERE \""@ + pk + "\" = ?1"@]
            + Seq::new(aliases.len(), |i: int| exists_part(aliases[i], table, pk)),
        " UNION ALL "@,
    ) + " LIMIT 1"@
}

fn make_exists_part(alias: &str, table: &str, pk: &str) -> (r: String)
    ensures
        r@ == exists_part(alias@, table@, pk@),
{
    let mut s = owned("SELECT \"");
    s.append(pk);
    s.append("\" FROM \"");
    s.append(alias);
    s.append("\".\"");
    s.append(table);
    s.append("\" WHERE \"");
    s.append(pk);
    s.append("\" = ?1");
    s
}

/// The lookup of a key in the main database and in those attached, in their
/// order.
#[verifier::loop_isolation(false)]
pub fn cross_db_exists_sql(table: &str, pk_column: &str, attached_aliases: &[&str]) -> (r: String)
    ensures
        r@ == exists_sql(table@, pk_column@, names_of(attached_aliases@)),
{
    let ghost names = names_of(attached_aliases@);
    let mut first = owned("SELECT \"");
    first.append(pk_column);
    first.append("\" FROM main.\"");
    first.append(table);
    first.append("\" WHERE \"");
    first.append(pk_column);
    first.append("\" = ?1");
    let mut parts: Vec<String> = vec![first];
    let ghost head = parts.deep_view();
    assert(head =~= seq![first@]);
    let ghost want = Seq::new(names.len(), |i: int| exists_part(names[i], table@, pk_column@));
    assert(head + want.take(0) =~= head);
    let mut i: usize = 0;
    while i < attached_aliases.len()
        invariant
            i <= attached_aliases@.len(),
            names == names_of(attached_aliases@),
            parts.deep_view() == head + want.take(i as int),
        decreases attached_aliases@.len() - i,
    {
        let alias = attached_aliases[i];
        assert(names[i as int] == alias@);
        let part = make_exists_part(alias, table, pk_column);
        let ghost before = parts.deep_view();
        parts.push(part);
        assert(parts.deep_view() =~= before.push(part@));
        assert(want.take(i + 1) =~= want.take(i as int).push(want[i as int]));
        assert(parts.deep_view() =~= head + want.take(i + 1));
        i += 1;
    }
    assert(want.take(i as int) =~= want);
    let body = join(&parts, " UNION ALL ");
    glued(body.as_str(), " LIMIT 1")
}

/// The rows of a table in an attached database.
pub open spec fn union_part(alias: Seq<char>, table: Seq<char>) -> Seq<char> {
    "SELECT *, '"@ + alias + "' AS _db FROM \""@ + alias + "\".\""@ + table + "\""@
}

/// The rows of a table in the main database and in those attached, each with the
/// database that it comes from.
pub open spec fn union_sql(table: Seq<char>, aliases: Seq<Seq<char>>) -> Seq<char> {
    text::joined(
        seq!["SELECT *, 'main' AS _db FROM main.\""@ + table + "\""@] + Seq::new(
            aliases.len(),
            |i: int| union_part(aliases[i], table),
        ),
        " UNION ALL "@,
    )
}

fn make_union_part(alias: &str, table: &str) -> (r: String)
    ensures
        r@ == union_part(alias@, table@),
{
    let mut s = owned("SELECT *, '");
    s.append(alias);
    s.append("' AS _db FROM \"");
    s.append(alias);
    s.append("\".\"");
    s.append(table);
    s.append("\"");
    s
}

/// The rows of a table in the main database and in those attached, each with the
/// database that it comes from.
#[verifier::loop_isolation(false)]
pub fn cross_db_union_sql(table: &str, attached_aliases: &[&str]) -> (r: String)
    ensures
        r@ == union_sql(table@, names_of(attached_aliases@)),
{
    let ghost names = names_of(attached_aliases@);
    let mut first = owned("SELECT *, 'main' AS _db FROM main.\"");
    first.append(table);
    first.append("\"");
    let mut parts: Vec<String> = vec![first];
    let ghost head = parts.deep_view();
    assert(head =~= seq![first@]);
    let ghost want = Seq::new(names.len(), |i: int| union_part(names[i], table@));
    assert(head + want.take(0) =~= head);
    let mut i: usize = 0;
    while i < attached_aliases.len()
        invariant
            i <= attached_aliases@.len(),
            names == names_of(attached_aliases@),
            parts.deep_view() == head + want.take(i as int),
        decreases attached_aliases@.len() - i,
    {
        let alias = attached_aliases[i];
        assert(names[i as int] == alias@);
        let part = make_union_part(alias, table);
        let ghost before = parts.deep_view();
        parts.push(part);
        assert(parts.deep_view() =~= before.push(part@));
        assert(want.take(i + 1) =~= want.take(i as int).push(want[i as int]));
        assert(parts.deep_view() =~= head + want.take(i + 1));
        i += 1;
    }
    assert(want.take(i as int) =~= want);
    join(&parts, " UNION ALL ")
}

// ---------------------------------------------------------------------------
// Validation
// ---------------------------------------------------------------------------

/// A reference that leads nowhere.
#[derive(Debug, Clone)]
pub struct FkViolation {
    pub table: String,
    pub rowid: i64,
    pub from_column: String,
    pub value: String,
    pub target_table: String,
    pub target_column: String,
}

/// What a reference that leads nowhere says.
pub struct ViolationModel {
    pub table: Seq<char>,
    pub rowid: i64,
    pub from_column: Seq<char>,
    pub value: Seq<char>,
    pub target_table: Seq<char>,
    pub target_column: Seq<char>,
}

impl DeepView for FkViolation {
    type V = ViolationModel;

    open spec fn deep_view(&self) -> ViolationModel {
        ViolationModel {
            table: self.table@,
            rowid: self.rowid,
            from_column: self.from_column@,
            value: self.value@,
            target_table: self.target_table@,
            target_column: self.target_column@,
        }
    }
}

/// What came of looking for a value in an attached database.
#[derive(Debug, Clone, Copy, PartialEq, Eq, Structural)]
pub enum Lookup {
    /// The database does not have the table.
    NoTable,
    /// The table does not have the value.
    Missing,
    Found,
}

impl DeepView for Lookup {
    type V = Lookup;

    open spec fn deep_view(&self) -> Lookup {
        *self
    }
}

/// A value that the main database does not have, and what came of looking for it
/// in the attached ones, up to the first that has it.
#[derive(Debug)]
pub struct Dangling {
    pub rowid: i64,
    pub value: String,
    pub lookups: Vec<Lookup>,
}

/// What a value that the main database does not have says.
pub struct DanglingModel {
    pub rowid: i64,
    pub value: Seq<char>,
    pub lookups: Seq<Lookup>,
}

impl DeepView for Dangling {
    type V = DanglingModel;

    open spec fn deep_view(&self) -> DanglingModel {
        DanglingModel { rowid: self.rowid, value: self.value@, lookups: self.lookups@ }
    }
}

/// A reference from a column of a table to another, and what the main database
/// says of it.
#[derive(Debug)]
pub struct FkCheck {
    pub table: String,
    pub target_table: String,
    pub from_column: String,
    pub to_column: String,
    /// Whether the main database has the target.
    pub target_exists: bool,
    /// The number of values of the column, without those that are NULL.
    pub checked: usize,
    /// The values that the target does not have, where they could be asked for.
    pub dangling: Option<Vec<Dangling>>,
}

/// What a reference from a column of a table to another says.
pub struct CheckModel {
    pub table: Seq<char>,
    pub target_table: Seq<char>,
    pub from_column: Seq<char>,
    pub to_column: Seq<char>,
    pub target_exists: bool,
    pub checked: nat,
    pub dangling: Option<Seq<DanglingModel>>,
}

impl DeepView for FkCheck {
    type V = CheckModel;

    open spec fn deep_view(&self) -> CheckModel {
        CheckModel {
            table: self.table@,
            target_table: self.target_table@,
            from_column: self.from_column@,
            to_column: self.to_column@,
            target_exists: self.target_exists,
            checked: self.checked as nat,
            dangling: self.dangling.deep_view(),
        }
    }
}

/// What came of validating references.
#[derive(Debug, Clone)]
pub struct CrossDbFkReport {
    /// The references that no database resolves.
    pub unresolved: Vec<FkViolation>,
    /// The number of references that an attached database resolves.
    pub cross_resolved: usize,
    /// The number of references that were checked.
    pub total_checked: usize,
    pub attached_schemas: Vec<String>,
}

/// What came of validating references.
pub struct ReportModel {
    pub unresolved: Seq<ViolationModel>,
    pub cross_resolved: nat,
    pub total_checked: nat,
    pub attached_schemas: Seq<Seq<char>>,
}

impl DeepView for CrossDbFkReport {
    type V = ReportModel;

    open spec fn deep_view(&self) -> ReportModel {
        ReportModel {
            unresolved: self.unresolved.deep_view(),
            cross_resolved: self.cross_resolved as nat,
            total_checked: self.total_checked as nat,
            attached_schemas: self.attached_schemas.deep_view(),
        }
    }
}

/// Whether an attached database has a value.
pub open spec fn resolved_elsewhere(d: DanglingModel) -> bool {
    d.lookups.contains(Lookup::Found)
}

/// The report with a value that the main database does not have.
pub open spec fn with_dangling(r: ReportModel, c: CheckModel, d: DanglingModel) -> ReportModel {
    if resolved_elsewhere(d) {
        ReportModel { cross_resolved: r.cross_resolved + 1, ..r }
    } else {
        ReportModel {
            unresolved: r.unresolved.push(
                ViolationModel {
                    table: c.table,
                    rowid: d.rowid,
                    from_column: c.from_column,
                    value: d.value,
                    target_table: c.target_table,
                    target_column: c.to_column,
                },
            ),
            ..r
        }
    }
}

/// The report with several values that the main database does not have.
pub open spec fn with_all_dangling(r: ReportModel, c: CheckModel, ds: Seq<DanglingModel>) -> ReportModel
    decreases ds.len(),
{
    if ds.len() == 0 {
        r
    } else {
        with_dangling(with_all_dangling(r, c, ds.drop_last()), c, ds.last())
    }
}

/// The report with a reference. One whose target is not there, or that could
/// not be checked, is left out.
pub open spec fn with_check(r: ReportModel, c: CheckModel) -> ReportModel {
    match c.dangling {
        Some(ds) => if c.target_exists {
            with_all_dangling(
                ReportModel { total_checked: r.total_checked + c.checked, ..r },
                c,
                ds,
            )
        } else {
            r
        },
        None => r,
    }
}

/// The report on references.
pub open spec fn report_on(aliases: Seq<Seq<char>>, checks: Seq<CheckModel>) -> ReportModel
    decreases checks.len(),
{
    if checks.len() == 0 {
        ReportModel {
            unresolved: Seq::empty(),
            cross_resolved: 0,
            total_checked: 0,
            attached_schemas: aliases,
        }
    } else {
        with_check(report_on(aliases, checks.drop_last()), checks.last())
    }
}

/// Whether a check is of a target that is there and could be asked for.
pub open spec fn is_checked(c: CheckModel) -> bool {
    c.target_exists && c.dangling is Some
}

/// Whether no check has more values that the target does not have than values.
pub open spec fn sound_checks(checks: Seq<CheckModel>) -> bool {
    forall|i: int|
        0 <= i < checks.len() && is_checked(#[trigger] checks[i]) ==> checks[i].dangling->0.len()
            <= checks[i].checked
}

/// The values that references lead to and that the main database does not have.
pub open spec fn dangling_count(checks: Seq<CheckModel>) -> nat
    decreases checks.len(),
{
    if checks.len() == 0 {
        0
    } else {
        let c = checks.last();
        dangling_count(checks.drop_last()) + (if is_checked(c) {
            c.dangling->0.len()
        } else {
            0
        })
    }
}

/// The values that are checked.
pub open spec fn checked_count(checks: Seq<CheckModel>) -> nat
    decreases checks.len(),
{
    if checks.len() == 0 {
        0
    } else {
        let c = checks.last();
        checked_count(checks.drop_last()) + (if is_checked(c) {
            c.checked
        } else {
            0
        })
    }
}

proof fn lemma_dangling_count(r: ReportModel, c: CheckModel, ds: Seq<DanglingModel>)
    ensures
        ({
            let after = with_all_dangling(r, c, ds);
            &&& after.unresolved.len() + after.cross_resolved == r.unresolved.len()
                + r.cross_resolved + ds.len()
            &&& after.total_checked == r.total_checked
            &&& after.attached_schemas == r.attached_schemas
            &&& after.cross_resolved <= r.cross_resolved + ds.len()
        }),
    decreases ds.len(),
{
    if ds.len() > 0 {
        lemma_dangling_count(r, c, ds.drop_last());
    }
}

/// Every value is accounted for: all are counted as checked, and of those that
/// the main database does not have, an attached database resolves each, or it is
/// reported.
pub proof fn law_report_complete(aliases: Seq<Seq<char>>, checks: Seq<CheckModel>)
    ensures
        ({
            let r = report_on(aliases, checks);
            &&& r.unresolved.len() + r.cross_resolved == dangling_count(checks)
            &&& r.total_checked == checked_count(checks)
        }),
    decreases checks.len(),
{
    if checks.len() > 0 {
        law_report_complete(aliases, checks.drop_last());
        let before = report_on(aliases, checks.drop_last());
        let c = checks.last();
        match c.dangling {
            Some(ds) => {
                lemma_dangling_count(
                    ReportModel { total_checked: before.total_checked + c.checked, ..before },
                    c,
                    ds,
                );
            },
            None => {},
        }
    }
}

/// No more references are reported or resolved elsewhere than were checked.
pub proof fn law_report_within_checked(aliases: Seq<Seq<char>>, checks: Seq<CheckModel>)
    requires
        sound_checks(checks),
    ensures
        ({
            let r = report_on(aliases, checks);
            r.unresolved.len() + r.cross_resolved <= r.total_checked
        }),
{
    law_report_complete(aliases, checks);
    lemma_dangling_checked(checks);
}

proof fn lemma_dangling_checked(checks: Seq<CheckModel>)
    requires
        sound_checks(checks),
    ensures
        dangling_count(checks) <= checked_count(checks),
    decreases checks.len(),
{
    if checks.len() > 0 {
        let d = checks.drop_last();
        assert forall|i: int| 0 <= i < d.len() && is_checked(#[trigger] d[i]) implies d[i].dangling->0.len()
            <= d[i].checked by {
            assert(d[i] == checks[i]);
        }
        lemma_dangling_checked(d);
        assert(checks.last() == checks[checks.len() - 1]);
    }
}

/// Whether a reported violation is that of a value: it names the table, the row and
/// the column that the value stands in, the value, and the table and column that
/// should have it.
pub open spec fn stands_for(v: ViolationModel, c: CheckModel, d: DanglingModel) -> bool {
    &&& v.table == c.table
    &&& v.rowid == d.rowid
    &&& v.from_column == c.from_column
    &&& v.value == d.value
    &&& v.target_table == c.target_table
    &&& v.target_column == c.to_column
}

/// Whether no database has the value in place `j` of those that the target of the
/// reference in place `i` does not have.
pub open spec fn in_no_database(checks: Seq<CheckModel>, i: int, j: int) -> bool {
    &&& 0 <= i < checks.len()
    &&& checks[i].target_exists
    &&& checks[i].dangling is Some
    &&& 0 <= j < checks[i].dangling->0.len()
    &&& forall|k: int|
        0 <= k < checks[i].dangling->0[j].lookups.len() ==> #[trigger] checks[i].dangling->0[j].lookups[k]
            != Lookup::Found
}

/// The report with two lists of violations and two numbers put together.
pub open spec fn put_together(a: ReportModel, b: ReportModel) -> ReportModel {
    ReportModel {
        unresolved: a.unresolved + b.unresolved,
        cross_resolved: a.cross_resolved + b.cross_resolved,
        total_checked: a.total_checked + b.total_checked,
        attached_schemas: a.attached_schemas,
    }
}

proof fn lemma_all_dangling_apart(r: ReportModel, c: CheckModel, ds: Seq<DanglingModel>)
    ensures
        ({
            let none = ReportModel {
                unresolved: Seq::empty(),
                cross_resolved: 0,
                total_checked: 0,
                attached_schemas: r.attached_schemas,
            };
            with_all_dangling(r, c, ds) == put_together(r, with_all_dangling(none, c, ds))
        }),
    decreases ds.len(),
{
    let none = ReportModel {
        unresolved: Seq::empty(),
        cross_resolved: 0,
        total_checked: 0,
        attached_schemas: r.attached_schemas,
    };
    if ds.len() == 0 {
        assert(r.unresolved + none.unresolved =~= r.unresolved);
    } else {
        lemma_all_dangling_apart(r, c, ds.drop_last());
        let a = with_all_dangling(r, c, ds);
        let b = put_together(r, with_all_dangling(none, c, ds));
        assert(a.unresolved =~= b.unresolved);
    }
}

proof fn lemma_check_apart(r: ReportModel, c: CheckModel)
    ensures
        with_check(r, c) == put_together(r, report_on(r.attached_schemas, seq![c])),
{
    let none = report_on(r.attached_schemas, Seq::empty());
    assert(seq![c].drop_last() =~= Seq::<CheckModel>::empty());
    match c.dangling {
        Some(ds) => if c.target_exists {
            let more = ReportModel { total_checked: r.total_checked + c.checked, ..r };
            let first = ReportModel { total_checked: none.total_checked + c.checked, ..none };
            lemma_all_dangling_apart(more, c, ds);
            lemma_all_dangling_apart(first, c, ds);
            let alone = with_all_dangling(none, c, ds);
            lemma_dangling_count(none, c, ds);
            assert(first.unresolved + alone.unresolved =~= alone.unresolved);
            assert(report_on(r.attached_schemas, seq![c]) == put_together(first, alone));
        } else {
            assert(r.unresolved + none.unresolved =~= r.unresolved);
        },
        None => {
            assert(r.unresolved + none.unresolved =~= r.unresolved);
        },
    }
}

/// References are reported on apart from each other: the report on some and then
/// others has the violations of the former before those of the latter, and adds up
/// their numbers. The attached databases are told as they were given.
pub proof fn law_reports_join(
    aliases: Seq<Seq<char>>,
    a: Seq<CheckModel>,
    b: Seq<CheckModel>,
)
    ensures
        report_on(aliases, a + b) == put_together(report_on(aliases, a), report_on(aliases, b)),
        report_on(aliases, a).attached_schemas == aliases,
    decreases b.len(),
{
    lemma_report_aliases(aliases, a);
    if b.len() == 0 {
        assert(a + b =~= a);
        let r = report_on(aliases, a);
        assert(r.unresolved + Seq::<ViolationModel>::empty() =~= r.unresolved);
    } else {
        let d = b.drop_last();
        law_reports_join(aliases, a, d);
        lemma_report_aliases(aliases, d);
        lemma_report_aliases(aliases, a + d);
        assert((a + b).drop_last() =~= a + d);
        lemma_check_apart(report_on(aliases, a + d), b.last());
        lemma_check_apart(report_on(aliases, d), b.last());
        let one = report_on(aliases, seq![b.last()]);
        let x = report_on(aliases, a);
        let y = report_on(aliases, d);
        assert((x.unresolved + y.unresolved) + one.unresolved =~= x.unresolved + (y.unresolved
            + one.unresolved));
    }
}

proof fn lemma_report_aliases(aliases: Seq<Seq<char>>, checks: Seq<CheckModel>)
    ensures
        report_on(aliases, checks).attached_schemas == aliases,
    decreases checks.len(),
{
    if checks.len() > 0 {
        lemma_report_aliases(aliases, checks.drop_last());
        let before = report_on(aliases, checks.drop_last());
        let c = checks.last();
        if c.dangling is Some {
            lemma_dangling_count(
                ReportModel { total_checked: before.total_checked + c.checked, ..before },
                c,
                c.dangling->0,
            );
        }
    }
}

/// The values of a reference are reported on apart from each other: a reference can
/// be taken for two that have a part of its values each.
pub proof fn law_check_can_be_split(
    aliases: Seq<Seq<char>>,
    c: CheckModel,
    n: nat,
    k: int,
)
    requires
        c.dangling is Some,
        0 <= k <= c.dangling->0.len(),
        n <= c.checked,
    ensures
        ({
            let a = CheckModel { checked: n, dangling: Some(c.dangling->0.take(k)), ..c };
            let b = CheckModel {
                checked: (c.checked - n) as nat,
                dangling: Some(c.dangling->0.skip(k)),
                ..c
            };
            report_on(aliases, seq![c]) == report_on(aliases, seq![a, b])
        }),
{
    let ds = c.dangling->0;
    let a = CheckModel { checked: n, dangling: Some(ds.take(k)), ..c };
    let b = CheckModel { checked: (c.checked - n) as nat, dangling: Some(ds.skip(k)), ..c };
    let none = report_on(aliases, Seq::empty());
    assert(seq![c].drop_last() =~= Seq::<CheckModel>::empty());
    assert(seq![a, b].drop_last() =~= seq![a]);
    assert(seq![a].drop_last() =~= Seq::<CheckModel>::empty());
    reveal_with_fuel(report_on, 3);
    assert(report_on(aliases, seq![c]) == with_check(none, c));
    assert(report_on(aliases, seq![a, b]) == with_check(with_check(none, a), b));
    if c.target_exists {
        let first = ReportModel { total_checked: n, ..none };
        let whole = ReportModel { total_checked: c.checked, ..none };
        lemma_dangling_of_parts(whole, c, ds, k);
        lemma_dangling_names_only(first, whole, a, c, ds.take(k));
        let x = with_all_dangling(first, a, ds.take(k));
        let y = with_all_dangling(whole, c, ds.take(k));
        lemma_dangling_count(first, a, ds.take(k));
        lemma_dangling_count(whole, c, ds.take(k));
        lemma_dangling_names_only(
            ReportModel { total_checked: x.total_checked + b.checked, ..x },
            y,
            b,
            c,
            ds.skip(k),
        );
        assert((ReportModel { total_checked: x.total_checked + b.checked, ..x }) == y);
        lemma_dangling_count(y, c, ds.skip(k));
    }
}

proof fn lemma_dangling_of_parts(
    r: ReportModel,
    c: CheckModel,
    ds: Seq<DanglingModel>,
    k: int,
)
    requires
        0 <= k <= ds.len(),
    ensures
        with_all_dangling(r, c, ds) == with_all_dangling(
            with_all_dangling(r, c, ds.take(k)),
            c,
            ds.skip(k),
        ),
    decreases ds.len(),
{
    if k == ds.len() {
        assert(ds.take(k) =~= ds);
    } else {
        lemma_dangling_of_parts(r, c, ds.drop_last(), k);
        assert(ds.drop_last().take(k) =~= ds.take(k));
        assert(ds.skip(k).drop_last() =~= ds.drop_last().skip(k));
        assert(ds.skip(k).last() == ds.last());
    }
}

/// What is reported depends on the names of a reference alone, and not on how many of
/// its values were checked.
proof fn lemma_dangling_names_only(
    q: ReportModel,
    r: ReportModel,
    a: CheckModel,
    c: CheckModel,
    ds: Seq<DanglingModel>,
)
    requires
        a == (CheckModel { checked: a.checked, dangling: a.dangling, ..c }),
        q == (ReportModel { total_checked: q.total_checked, ..r }),
    ensures
        with_all_dangling(q, a, ds) == (ReportModel {
            total_checked: q.total_checked,
            ..with_all_dangling(r, c, ds)
        }),
    decreases ds.len(),
{
    if ds.len() > 0 {
        lemma_dangling_names_only(q, r, a, c, ds.drop_last());
    }
}

/// Whether a value has its violation among those that are reported.
pub open spec fn is_reported(vs: Seq<ViolationModel>, c: CheckModel, d: DanglingModel) -> bool {
    exists|n: int| 0 <= n < vs.len() && stands_for(#[trigger] vs[n], c, d)
}

/// Whether a violation is that of one of the values of a reference, which no database
/// has.
pub open spec fn is_of_check(v: ViolationModel, checks: Seq<CheckModel>, i: int) -> bool {
    exists|j: int| #[trigger]
        in_no_database(checks, i, j) && stands_for(v, checks[i], checks[i].dangling->0[j])
}

/// Whether a violation is that of a value of one of the references.
pub open spec fn is_justified(v: ViolationModel, checks: Seq<CheckModel>) -> bool {
    exists|i: int| is_of_check(v, checks, i)
}

proof fn lemma_dangling_named(r: ReportModel, c: CheckModel, ds: Seq<DanglingModel>)
    ensures
        ({
            let after = with_all_dangling(r, c, ds).unresolved;
            &&& r.unresolved.len() <= after.len()
            &&& forall|n: int| 0 <= n < r.unresolved.len() ==> #[trigger] after[n] == r.unresolved[n]
            &&& forall|n: int|
                r.unresolved.len() <= n < after.len() ==> is_one_of(#[trigger] after[n], c, ds)
            &&& forall|j: int|
                0 <= j < ds.len() && !(#[trigger] ds[j]).lookups.contains(Lookup::Found)
                    ==> is_reported(after, c, ds[j])
        }),
    decreases ds.len(),
{
    if ds.len() > 0 {
        let d = ds.drop_last();
        lemma_dangling_named(r, c, d);
        let before = with_all_dangling(r, c, d).unresolved;
        let after = with_all_dangling(r, c, ds).unresolved;
        let l = ds.len() - 1;
        assert(ds[l] == ds.last());
        assert forall|n: int| r.unresolved.len() <= n < after.len() implies is_one_of(
            #[trigger] after[n],
            c,
            ds,
        ) by {
            if n < before.len() {
                assert(after[n] == before[n]);
                assert(is_one_of(before[n], c, d));
                let j = choose|j: int|
                    0 <= j < d.len() && !d[j].lookups.contains(Lookup::Found) && stands_for(
                        before[n],
                        c,
                        #[trigger] d[j],
                    );
                assert(ds[j] == d[j]);
            } else {
                assert(stands_for(after[n], c, ds[l]));
            }
        }
        assert forall|j: int|
            0 <= j < ds.len() && !(#[trigger] ds[j]).lookups.contains(
                Lookup::Found,
            ) implies is_reported(after, c, ds[j]) by {
            if j < l {
                assert(d[j] == ds[j]);
                assert(is_reported(before, c, d[j]));
                let n = choose|n: int|
                    0 <= n < before.len() && stands_for(#[trigger] before[n], c, d[j]);
                assert(after[n] == before[n]);
            } else {
                assert(stands_for(after[after.len() - 1], c, ds[j]));
            }
        }
    }
}

spec fn is_one_of(v: ViolationModel, c: CheckModel, ds: Seq<DanglingModel>) -> bool {
    exists|j: int|
        0 <= j < ds.len() && !ds[j].lookups.contains(Lookup::Found) && stands_for(
            v,
            c,
            #[trigger] ds[j],
        )
}

/// Every violation that is reported is that of a value which no database has, and
/// names where it stands and where it should lead; and every such value of a
/// reference that was checked has its violation.
pub proof fn law_violations_stand_for_values(aliases: Seq<Seq<char>>, checks: Seq<CheckModel>)
    ensures
        ({
            let r = report_on(aliases, checks).unresolved;
            &&& forall|n: int|
                0 <= n < r.len() ==> is_justified(#[trigger] r[n], checks)
            &&& forall|i: int, j: int| #[trigger]
                in_no_database(checks, i, j) ==> is_reported(
                    r,
                    checks[i],
                    checks[i].dangling->0[j],
                )
        }),
    decreases checks.len(),
{
    let r = report_on(aliases, checks).unresolved;
    if checks.len() > 0 {
        let d = checks.drop_last();
        law_violations_stand_for_values(aliases, d);
        let before = report_on(aliases, d).unresolved;
        let c = checks.last();
        let m = checks.len() - 1;
        assert(checks[m] == c);
        let asked = c.target_exists && c.dangling is Some;
        let ds = c.dangling->0;
        if asked {
            let b = report_on(aliases, d);
            lemma_dangling_named(
                ReportModel { total_checked: b.total_checked + c.checked, ..b },
                c,
                ds,
            );
        } else {
            assert(r == before);
        }
        assert forall|n: int| 0 <= n < r.len() implies is_justified(
            #[trigger] r[n],
            checks,
        ) by {
            if n < before.len() {
                assert(r[n] == before[n]);
                assert(is_justified(before[n], d));
                let i = choose|i: int| is_of_check(before[n], d, i);
                let j = choose|j: int| #[trigger]
                    in_no_database(d, i, j) && stands_for(before[n], d[i], d[i].dangling->0[j]);
                assert(d[i] == checks[i]);
                assert(in_no_database(checks, i, j));
                assert(is_of_check(r[n], checks, i));
            } else {
                assert(is_one_of(r[n], c, ds));
                let j = choose|j: int|
                    0 <= j < ds.len() && !ds[j].lookups.contains(Lookup::Found) && stands_for(
                        r[n],
                        c,
                        #[trigger] ds[j],
                    );
                assert(in_no_database(checks, m, j));
                assert(is_of_check(r[n], checks, m));
            }
        }
        assert forall|i: int, j: int| #[trigger] in_no_database(checks, i, j) implies is_reported(
            r,
            checks[i],
            checks[i].dangling->0[j],
        ) by {
            if i < m {
                assert(d[i] == checks[i]);
                assert(in_no_database(d, i, j));
                assert(is_reported(before, d[i], d[i].dangling->0[j]));
                let n = choose|n: int|
                    0 <= n < before.len() && stands_for(
                        #[trigger] before[n],
                        d[i],
                        d[i].dangling->0[j],
                    );
                assert(r[n] == before[n]);
            } else {
                if ds[j].lookups.contains(Lookup::Found) {
                    let k = choose|k: int|
                        0 <= k < ds[j].lookups.len() && ds[j].lookups[k] == Lookup::Found;
                    assert(checks[i].dangling->0[j].lookups[k] == Lookup::Found);
                }
                assert(is_reported(r, c, ds[j]));
            }
        }
    }
}

#[verifier::loop_isolation(false)]
fn found_elsewhere(d: &Dangling) -> (r: bool)
    ensures
        r == resolved_elsewhere(d.deep_view()),
{
    let mut i: usize = 0;
    while i < d.lookups.len()
        invariant
            i <= d.lookups@.len(),
            forall|j: int| 0 <= j < i ==> d.lookups@[j] != Lookup::Found,
        decreases d.lookups@.len() - i,
    {
        if d.lookups[i] == Lookup::Found {
            assert(d.lookups@[i as int] == Lookup::Found);
            return true;
        }
        i += 1;
    }
    false
}

#[verifier::loop_isolation(false)]
fn note_dangling(report: &mut CrossDbFkReport, c: &FkCheck, ds: &Vec<Dangling>)
    requires
        old(report).cross_resolved + ds@.len() <= usize::MAX,
    ensures
        final(report).deep_view() == with_all_dangling(
            old(report).deep_view(),
            c.deep_view(),
            ds.deep_view(),
        ),
{
    let ghost start = report.deep_view();
    let ghost model = c.deep_view();
    let ghost all = ds.deep_view();
    let mut i: usize = 0;
    while i < ds.len()
        invariant
            i <= ds@.len(),
            all == ds.deep_view(),
            model == c.deep_view(),
            report.cross_resolved <= start.cross_resolved + i,
            report.deep_view() == with_all_dangling(start, model, all.take(i as int)),
        decreases ds@.len() - i,
    {
        assert(all.take(i + 1).drop_last() =~= all.take(i as int));
        assert(all[i as int] == ds@[i as int].deep_view());
        let d = &ds[i];
        let ghost before = report.deep_view();
        if found_elsewhere(d) {
            report.cross_resolved = report.cross_resolved + 1;
        } else {
            let v = FkViolation {
                table: c.table.clone(),
                rowid: d.rowid,
                from_column: c.from_column.clone(),
                value: d.value.clone(),
                target_table: c.target_table.clone(),
                target_column: c.to_column.clone(),
            };
            report.unresolved.push(v);
            assert(report.unresolved.deep_view() =~= before.unresolved.push(v.deep_view()));
        }
        i += 1;
    }
    assert(all.take(i as int) =~= all);
}

/// The report on references between the columns of the main database, of which
/// some may lead to attached ones.
#[verifier::loop_isolation(false)]
pub fn validate_cross_db_fks(checks: &Vec<FkCheck>, attached_aliases: &Vec<String>) -> (r:
    CrossDbFkReport)
    requires
        dangling_count(checks.deep_view()) <= usize::MAX,
        checked_count(checks.deep_view()) <= usize::MAX,
    ensures
        r.deep_view() == report_on(attached_aliases.deep_view(), checks.deep_view()),
{
    let ghost all = checks.deep_view();
    let ghost aliases = attached_aliases.deep_view();
    let mut report = CrossDbFkReport {
        unresolved: Vec::new(),
        cross_resolved: 0,
        total_checked: 0,
        attached_schemas: copy_list(attached_aliases),
    };
    assert(report.unresolved.deep_view() =~= Seq::<ViolationModel>::empty());
    let mut i: usize = 0;
    while i < checks.len()
        invariant
            i <= checks@.len(),
            all == checks.deep_view(),
            dangling_count(all) <= usize::MAX,
            checked_count(all) <= usize::MAX,
            report.deep_view() == report_on(aliases, all.take(i as int)),
        decreases checks@.len() - i,
    {
        proof {
            assert(all.take(i + 1).drop_last() =~= all.take(i as int));
            assert(all[i as int] == checks@[i as int].deep_view());
            law_report_complete(aliases, all.take(i as int));
            lemma_count_grows(all, i + 1);
        }
        let c = &checks[i];
        if c.target_exists {
            match &c.dangling {
                Some(ds) => {
                    assert(all[i as int].dangling == Some(ds.deep_view()));
                    assert(ds.deep_view().len() == ds@.len());
                    report.total_checked = report.total_checked + c.checked;
                    note_dangling(&mut report, c, ds);
                },
                None => {},
            }
        }
        i += 1;
    }
    assert(all.take(i as int) =~= all);
    report
}

proof fn lemma_count_grows(checks: Seq<CheckModel>, k: int)
    requires
        0 <= k <= checks.len(),
    ensures
        dangling_count(checks.take(k)) <= dangling_count(checks),
        checked_count(checks.take(k)) <= checked_count(checks),
    decreases checks.len() - k,
{
    if k < checks.len() {
        lemma_count_grows(checks, k + 1);
        assert(checks.take(k + 1).drop_last() =~= checks.take(k));
    } else {
        assert(checks.take(k) =~= checks);
    }
}

/// The query for the references of a table.
pub fn fk_list_sql(table: &str) -> (r: String)
    ensures
        r@ == "PRAGMA main.foreign_key_list(\""@ + table@ + "\")"@,
{
    let mut s = owned("PRAGMA main.foreign_key_list(\"");
    s.append(table);
    s.append("\")");
    s
}

/// The query for the number of values of a column, without those that are NULL.
pub fn checked_sql(table: &str, from_col: &str) -> (r: String)
    ensures
        r@ == "SELECT COUNT(\""@ + from_col@ + "\") FROM main.\""@ + table@ + "\""@,
{
    let mut s = owned("SELECT COUNT(\"");
    s.append(from_col);
    s.append("\") FROM main.\"");
    s.append(table);
    s.append("\"");
    s
}

/// The query for the values of a column that the target of its reference does
/// not have.
pub fn dangling_sql(table: &str, from_col: &str, target_table: &str, to_col: &str) -> (r: String)
    ensures
        r@ == "SELECT rowid, \""@ + from_col@ + "\" FROM main.\""@ + table@ + "\" WHERE \""@
            + from_col@ + "\" IS NOT NULL AND \""@ + from_col@ + "\" NOT IN (SELECT \""@ + to_col@
            + "\" FROM main.\""@ + target_table@ + "\")"@,
{
    let mut s = owned("SELECT rowid, \"");
    s.append(from_col);
    s.append("\" FROM main.\"");
    s.append(table);
    s.append("\" WHERE \"");
    s.append(from_col);
    s.append("\" IS NOT NULL AND \"");
    s.append(from_col);
    s.append("\" NOT IN (SELECT \"");
    s.append(to_col);
    s.append("\" FROM main.\"");
    s.append(target_table);
    s.append("\")");
    s
}

/// The query for the number of tables of a given name in a database.
pub fn table_exists_sql(alias: &str) -> (r: String)
    ensures
        r@ == "SELECT COUNT(*) FROM \""@ + alias@
            + "\".sqlite_master WHERE type='table' AND name=?1"@,
{
    let mut s = owned("SELECT COUNT(*) FROM \"");
    s.append(alias);
    s.append("\".sqlite_master WHERE type='table' AND name=?1");
    s
}

/// The query for a value in an attached database.
pub fn lookup_sql(alias: &str, target_table: &str, to_col: &str) -> (r: String)
    ensures
        r@ == "SELECT 1 FROM \""@ + alias@ + "\".\""@ + target_table@ + "\" WHERE \""@ + to_col@
            + "\" = ?1 LIMIT 1"@,
{
    let mut s = owned("SELECT 1 FROM \"");
    s.append(alias);
    s.append("\".\"");
    s.append(target_table);
    s.append("\" WHERE \"");
    s.append(to_col);
    s.append("\" = ?1 LIMIT 1");
    s
}

} // verus!
