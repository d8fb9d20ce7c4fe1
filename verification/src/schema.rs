//! The tables of a reference database.

use vstd::prelude::*;
use crate::text;
use crate::text::{chars_of, find_from, owned, text_of};
use crate::textmap;
use crate::textmap::TextMap;

verus! {

/// How the primary key of a table is determined.
#[derive(Debug, Clone, Copy, PartialEq, Eq, Structural)]
pub enum PkStrategy {
    /// `UUID TEXT PRIMARY KEY`
    Uuid,
    /// `MapKey TEXT PRIMARY KEY`
    MapKey,
    /// `ID TEXT PRIMARY KEY` (bank resources)
    BankId,
    /// `_entry_name TEXT PRIMARY KEY` (stats tables)
    EntryName,
    /// `contentuid TEXT PRIMARY KEY` (localization)
    ContentUid,
    /// `_row_id INTEGER PRIMARY KEY`, for tables with no natural key
    Rowid,
}

impl PkStrategy {
    /// The name of the key column.
    pub open spec fn key_column(self) -> Seq<char> {
        match self {
            PkStrategy::Uuid => "UUID"@,
            PkStrategy::MapKey => "MapKey"@,
            PkStrategy::BankId => "ID"@,
            PkStrategy::EntryName => "_entry_name"@,
            PkStrategy::ContentUid => "contentuid"@,
            PkStrategy::Rowid => "_row_id"@,
        }
    }

    /// The SQL type of the key column.
    pub open spec fn key_type(self) -> Seq<char> {
        if self == PkStrategy::Rowid {
            "INTEGER"@
        } else {
            "TEXT"@
        }
    }

    /// The column name used as primary key.
    pub fn pk_column(&self) -> (r: &'static str)
        ensures
            r@ == self.key_column(),
    {
        match self {
            PkStrategy::Uuid => "UUID",
            PkStrategy::MapKey => "MapKey",
            PkStrategy::BankId => "ID",
            PkStrategy::EntryName => "_entry_name",
            PkStrategy::ContentUid => "contentuid",
            PkStrategy::Rowid => "_row_id",
        }
    }

    /// The SQL type of the primary key column.
    pub fn pk_sql_type(&self) -> (r: &'static str)
        ensures
            r@ == self.key_type(),
    {
        match self {
            PkStrategy::Rowid => "INTEGER",
            _ => "TEXT",
        }
    }
}

impl DeepView for PkStrategy {
    type V = PkStrategy;

    open spec fn deep_view(&self) -> PkStrategy {
        *self
    }
}

/// A data column.
#[derive(Debug)]
pub struct ColumnDef {
    pub name: String,
    pub bg3_type: String,
    pub sqlite_type: String,
}

/// What a data column says.
pub struct ColumnModel {
    pub name: Seq<char>,
    pub bg3_type: Seq<char>,
    pub sqlite_type: Seq<char>,
}

impl DeepView for ColumnDef {
    type V = ColumnModel;

    open spec fn deep_view(&self) -> ColumnModel {
        ColumnModel {
            name: self.name@,
            bg3_type: self.bg3_type@,
            sqlite_type: self.sqlite_type@,
        }
    }
}

impl Clone for ColumnDef {
    fn clone(&self) -> (r: Self)
        ensures
            r.deep_view() == self.deep_view(),
    {
        ColumnDef {
            name: self.name.clone(),
            bg3_type: self.bg3_type.clone(),
            sqlite_type: self.sqlite_type.clone(),
        }
    }
}

/// A reference from a column to a column of another table.
#[derive(Debug)]
pub struct FkConstraint {
    pub source_column: String,
    pub target_table: String,
    pub target_column: String,
}

/// What a reference says.
pub struct FkModel {
    pub source_column: Seq<char>,
    pub target_table: Seq<char>,
    pub target_column: Seq<char>,
}

impl DeepView for FkConstraint {
    type V = FkModel;

    open spec fn deep_view(&self) -> FkModel {
        FkModel {
            source_column: self.source_column@,
            target_table: self.target_table@,
            target_column: self.target_column@,
        }
    }
}

impl Clone for FkConstraint {
    fn clone(&self) -> (r: Self)
        ensures
            r.deep_view() == self.deep_view(),
    {
        FkConstraint {
            source_column: self.source_column.clone(),
            target_table: self.target_table.clone(),
            target_column: self.target_column.clone(),
        }
    }
}

/// The complete description of a table.
#[derive(Debug)]
pub struct TableSchema {
    pub table_name: String,
    pub pk_strategy: PkStrategy,
    /// `lsx`, `stats`, `loca`, `allspark` or `effect`
    pub source_type: String,
    pub region_id: Option<String>,
    pub node_id: Option<String>,
    /// The data columns, without the key and the internal columns
    pub columns: Vec<ColumnDef>,
    pub fk_constraints: Vec<FkConstraint>,
    /// Whether the table has a `_file_id` column
    pub has_file_id: bool,
    pub parent_tables: Vec<String>,
}

/// What a table description says.
pub struct TableModel {
    pub table_name: Seq<char>,
    pub pk_strategy: PkStrategy,
    pub source_type: Seq<char>,
    pub region_id: Option<Seq<char>>,
    pub node_id: Option<Seq<char>>,
    pub columns: Seq<ColumnModel>,
    pub fk_constraints: Seq<FkModel>,
    pub has_file_id: bool,
    pub parent_tables: Seq<Seq<char>>,
}

impl DeepView for TableSchema {
    type V = TableModel;

    open spec fn deep_view(&self) -> TableModel {
        TableModel {
            table_name: self.table_name@,
            pk_strategy: self.pk_strategy,
            source_type: self.source_type@,
            region_id: self.region_id.deep_view(),
            node_id: self.node_id.deep_view(),
            columns: self.columns.deep_view(),
            fk_constraints: self.fk_constraints.deep_view(),
            has_file_id: self.has_file_id,
            parent_tables: self.parent_tables.deep_view(),
        }
    }
}

/// A table that links rows of a parent table to rows of a child table.
#[derive(Debug)]
pub struct JunctionDef {
    pub table_name: String,
    pub parent_table: String,
    pub parent_pk_column: String,
    pub parent_pk_type: String,
    pub child_table: String,
    pub child_pk_column: String,
    pub child_pk_type: String,
}

/// What a junction table says.
pub struct JunctionModel {
    pub table_name: Seq<char>,
    pub parent_table: Seq<char>,
    pub parent_pk_column: Seq<char>,
    pub parent_pk_type: Seq<char>,
    pub child_table: Seq<char>,
    pub child_pk_column: Seq<char>,
    pub child_pk_type: Seq<char>,
}

impl DeepView for JunctionDef {
    type V = JunctionModel;

    open spec fn deep_view(&self) -> JunctionModel {
        JunctionModel {
            table_name: self.table_name@,
            parent_table: self.parent_table@,
            parent_pk_column: self.parent_pk_column@,
            parent_pk_type: self.parent_pk_type@,
            child_table: self.child_table@,
            child_pk_column: self.child_pk_column@,
            child_pk_type: self.child_pk_type@,
        }
    }
}

/// The description of all tables.
#[derive(Debug)]
pub struct DiscoveredSchema {
    /// All tables by name
    pub tables: TextMap<TableSchema>,
    /// The new names of tables whose region holds a single kind of node
    pub renames: TextMap<String>,
    /// The kinds of nodes that were seen in each region
    pub region_node_ids: TextMap<Vec<String>>,
    /// The tables that link parents to children
    pub junction_tables: Vec<JunctionDef>,
    /// Parent table, child table, junction table
    pub junction_lookup: TextMap<TextMap<String>>,
}

/// What the description of all tables says.
pub struct SchemaModel {
    pub tables: Seq<(Seq<char>, TableModel)>,
    pub renames: Seq<(Seq<char>, Seq<char>)>,
    pub region_node_ids: Seq<(Seq<char>, Seq<Seq<char>>)>,
    pub junction_tables: Seq<JunctionModel>,
    pub junction_lookup: Seq<(Seq<char>, Seq<(Seq<char>, Seq<char>)>)>,
}

impl DeepView for DiscoveredSchema {
    type V = SchemaModel;

    open spec fn deep_view(&self) -> SchemaModel {
        SchemaModel {
            tables: self.tables.deep_view(),
            renames: self.renames.deep_view(),
            region_node_ids: self.region_node_ids.deep_view(),
            junction_tables: self.junction_tables.deep_view(),
            junction_lookup: self.junction_lookup.deep_view(),
        }
    }
}

/// The name up to its second double underscore, where it has two:
/// `lsx__Region__Node` gives `lsx__Region`.
pub open spec fn consolidated(name: Seq<char>) -> Option<Seq<char>> {
    match text::first_at(name, "__"@, 0) {
        Some(i) => match text::first_at(name, "__"@, i + 2) {
            Some(j) => Some(name.take(j)),
            None => None,
        },
        None => None,
    }
}

/// The name up to its second double underscore, where it has two.
pub fn consolidate(name: &str) -> (r: Option<String>)
    ensures
        r.deep_view() == consolidated(name@),
{
    let v = chars_of(name);
    let n: usize = v.len();
    let sep = chars_of("__");
    proof {
        reveal_strlit("__");
        text::lemma_first_at(name@, "__"@, 0);
    }
    match find_from(&v, &sep, 0) {
        Some(i) => {
            assert("__"@.len() == 2);
            assert(text::occurs_at(name@, "__"@, i as int));
            assert(i + 2 <= n);
            proof {
                text::lemma_first_at(name@, "__"@, i + 2);
            }
            match find_from(&v, &sep, i + 2) {
                Some(j) => {
                    assert(v@.subrange(0, j as int) =~= v@.take(j as int));
                    Some(text_of(&v, 0, j))
                },
                None => None,
            }
        },
        None => None,
    }
}

/// The table that a name stands for: the table of that name, the one that it
/// was renamed to, or the one of its consolidated name.
pub open spec fn resolved(s: SchemaModel, name: Seq<char>) -> Option<Seq<char>> {
    let renamed = textmap::value_of(s.renames, name);
    let short = consolidated(name);
    if textmap::has_key(s.tables, name) {
        Some(name)
    } else if renamed is Some && textmap::has_key(s.tables, renamed->0) {
        renamed
    } else if short is Some && textmap::has_key(s.tables, short->0) {
        short
    } else {
        None
    }
}

impl DiscoveredSchema {
    /// The table that a name stands for.
    pub fn resolve_table(&self, name: &str) -> (r: Option<String>)
        ensures
            r.deep_view() == resolved(self.deep_view(), name@),
    {
        if self.tables.contains_key(name) {
            return Some(owned(name));
        }
        if let Some(renamed) = self.renames.get(name) {
            if self.tables.contains_key(renamed.as_str()) {
                return Some(renamed.clone());
            }
        }
        if let Some(short) = consolidate(name) {
            if self.tables.contains_key(short.as_str()) {
                return Some(short);
            }
        }
        None
    }
}

/// A name is only ever resolved to a table that exists, and a table that
/// exists stands for itself.
pub proof fn law_resolved_exists(s: SchemaModel, name: Seq<char>)
    ensures
        resolved(s, name) is Some ==> textmap::has_key(s.tables, resolved(s, name)->0),
        textmap::has_key(s.tables, name) ==> resolved(s, name) == Some(name),
{
}

/// Resolving twice gives what resolving once gives.
pub proof fn law_resolved_settles(s: SchemaModel, name: Seq<char>)
    ensures
        resolved(s, name) is Some ==> resolved(s, resolved(s, name)->0) == resolved(s, name),
{
}

} // verus!
