//! The catalog side of a reconciliation: the structural description of a
//! live database as the introspection collaborator reports it.  These are
//! read-only inputs; the engine never writes to the database.

use vstd::prelude::*;

verus! {

/// SQL dialect of the introspected database.  The dialect decides which
/// referential action a constraint without an explicit clause resolves to;
/// older and newer versions of the same dialect resolve differently.
#[derive(Clone, Copy, Debug, PartialEq, Eq, Structural)]
pub enum Dialect {
    /// MySQL as older engine versions interpret it.
    MySqlLegacy,
    /// MySQL as newer engine versions interpret it.
    MySql,
    Postgres,
    Sqlite,
}

/// Referential action of a foreign key, `ON DELETE` or `ON UPDATE`.
#[derive(Clone, Copy, Debug, PartialEq, Eq, Structural)]
pub enum ReferentialAction {
    NoAction,
    Restrict,
    Cascade,
    SetNull,
    SetDefault,
}

/// The action a dialect assumes for a constraint that carries no explicit
/// clause.
pub open spec fn spec_default_action(d: Dialect) -> ReferentialAction {
    match d {
        Dialect::MySqlLegacy => ReferentialAction::Restrict,
        Dialect::MySql => ReferentialAction::NoAction,
        Dialect::Postgres => ReferentialAction::NoAction,
        Dialect::Sqlite => ReferentialAction::NoAction,
    }
}

/// The action a live constraint resolves to: the explicit clause when there
/// is one, the dialect's default otherwise.
pub open spec fn spec_resolved_action(d: Dialect, a: Option<ReferentialAction>) -> ReferentialAction {
    match a {
        Option::Some(x) => x,
        Option::None => spec_default_action(d),
    }
}

/// Resolves a catalog-reported action against the dialect's default.
pub fn resolved_action(d: Dialect, a: Option<ReferentialAction>) -> (r: ReferentialAction)
    ensures
        r == spec_resolved_action(d, a),
{
    match a {
        Option::Some(x) => x,
        Option::None => match d {
            Dialect::MySqlLegacy => ReferentialAction::Restrict,
            Dialect::MySql => ReferentialAction::NoAction,
            Dialect::Postgres => ReferentialAction::NoAction,
            Dialect::Sqlite => ReferentialAction::NoAction,
        },
    }
}

/// A column of a catalog table.  `default` is the catalog-visible default,
/// if any; defaults that only exist application-side are invisible here.
#[derive(Clone, Debug)]
pub struct Column {
    pub name: String,
    pub tpe: String,
    pub length: Option<u64>,
    pub nullable: bool,
    pub default: Option<String>,
}

/// An index over a table's columns.
#[derive(Clone, Debug, PartialEq, Eq)]
pub struct Index {
    pub name: String,
    pub columns: Vec<String>,
    pub unique: bool,
}

/// A foreign-key constraint.  The action fields are `None` when the live
/// constraint carries no explicit clause.
#[derive(Clone, Debug)]
pub struct ForeignKey {
    pub columns: Vec<String>,
    pub referenced_table: String,
    pub referenced_columns: Vec<String>,
    pub on_delete: Option<ReferentialAction>,
    pub on_update: Option<ReferentialAction>,
}

/// A catalog table with its ordered columns and constraints.
#[derive(Clone, Debug)]
pub struct Table {
    pub name: String,
    pub columns: Vec<Column>,
    pub primary_key: Option<Vec<String>>,
    pub indexes: Vec<Index>,
    pub foreign_keys: Vec<ForeignKey>,
}

/// A named enum type, for dialects that support them, with its ordered
/// member list.
#[derive(Clone, Debug)]
pub struct EnumType {
    pub name: String,
    pub values: Vec<String>,
}

/// The whole catalog schema: tables and enum types in catalog-yield order.
#[derive(Clone, Debug)]
pub struct CatalogSchema {
    pub dialect: Dialect,
    pub tables: Vec<Table>,
    pub enums: Vec<EnumType>,
}

/// The index of the first column of `t` named `name`, if any.
pub open spec fn col_index(t: Table, name: Seq<char>) -> Option<int>
    decreases t.columns.len(),
{
    col_index_from(t, name, 0)
}

/// The index of the first column at or after `i` named `name`, if any.
pub open spec fn col_index_from(t: Table, name: Seq<char>, i: int) -> Option<int>
    decreases t.columns.len() - i,
{
    if i < 0 || i >= t.columns.len() {
        None
    } else if t.columns[i].name@ == name {
        Some(i)
    } else {
        col_index_from(t, name, i + 1)
    }
}

/// The index of the first table of `c` named `name`, if any.
pub open spec fn table_index(c: CatalogSchema, name: Seq<char>) -> Option<int>
    decreases c.tables.len(),
{
    table_index_from(c, name, 0)
}

/// The index of the first table at or after `i` named `name`, if any.
pub open spec fn table_index_from(c: CatalogSchema, name: Seq<char>, i: int) -> Option<int>
    decreases c.tables.len() - i,
{
    if i < 0 || i >= c.tables.len() {
        None
    } else if c.tables[i].name@ == name {
        Some(i)
    } else {
        table_index_from(c, name, i + 1)
    }
}

/// What `col_index_from` yields: the first hit, with its name, or a
/// guarantee that no column from `i` on has the name.
pub proof fn lemma_col_index_char(t: Table, name: Seq<char>, i: int)
    requires
        0 <= i <= t.columns.len(),
    ensures
        match col_index_from(t, name, i) {
            Some(k) => i <= k < t.columns.len() && t.columns[k].name@ == name && forall|m: int|
                i <= m < k ==> (#[trigger] t.columns[m]).name@ != name,
            None => forall|m: int|
                i <= m < t.columns.len() ==> (#[trigger] t.columns[m]).name@ != name,
        },
    decreases t.columns.len() - i,
{
    if i < t.columns.len() {
        if t.columns[i].name@ == name {
        } else {
            lemma_col_index_char(t, name, i + 1);
        }
    }
}

/// What `table_index_from` yields, as `lemma_col_index_char` does for
/// columns.
pub proof fn lemma_table_index_char(c: CatalogSchema, name: Seq<char>, i: int)
    requires
        0 <= i <= c.tables.len(),
    ensures
        match table_index_from(c, name, i) {
            Some(k) => i <= k < c.tables.len() && c.tables[k].name@ == name && forall|m: int|
                i <= m < k ==> (#[trigger] c.tables[m]).name@ != name,
            None => forall|m: int|
                i <= m < c.tables.len() ==> (#[trigger] c.tables[m]).name@ != name,
        },
    decreases c.tables.len() - i,
{
    if i < c.tables.len() {
        if c.tables[i].name@ == name {
        } else {
            lemma_table_index_char(c, name, i + 1);
        }
    }
}

/// Finds the first column of `t` named `name`.
pub fn find_col(t: &Table, name: &String) -> (r: Option<usize>)
    ensures
        match r {
            Option::Some(k) => col_index(*t, name@) == Some(k as int),
            Option::None => col_index(*t, name@) is None,
        },
{
    let mut i: usize = 0;
    while i < t.columns.len()
        invariant
            i <= t.columns@.len(),
            col_index(*t, name@) == col_index_from(*t, name@, i as int),
        decreases t.columns@.len() - i,
    {
        if t.columns[i].name == *name {
            return Option::Some(i);
        }
        i += 1;
    }
    Option::None
}

/// Finds the first table of `c` named `name`.
pub fn find_table(c: &CatalogSchema, name: &String) -> (r: Option<usize>)
    ensures
        match r {
            Option::Some(k) => table_index(*c, name@) == Some(k as int),
            Option::None => table_index(*c, name@) is None,
        },
{
    let mut i: usize = 0;
    while i < c.tables.len()
        invariant
            i <= c.tables@.len(),
            table_index(*c, name@) == table_index_from(*c, name@, i as int),
        decreases c.tables@.len() - i,
    {
        if c.tables[i].name == *name {
            return Option::Some(i);
        }
        i += 1;
    }
    Option::None
}

/// Well-formedness of one foreign key against its table and the catalog:
/// at least one constrained column, as many referenced columns as
/// constrained ones, every constrained column a column of `t`, and the
/// referenced table and columns present in the catalog.
pub open spec fn fk_wf(c: CatalogSchema, t: Table, fk: ForeignKey) -> bool {
    &&& fk.columns.len() >= 1
    &&& fk.referenced_columns.len() == fk.columns.len()
    &&& forall|i: int| 0 <= i < fk.columns.len() ==> col_index(t, #[trigger] fk.columns[i]@) is Some
    &&& table_index(c, fk.referenced_table@) matches Some(r)
        && forall|i: int|
            0 <= i < fk.referenced_columns.len() ==> col_index(
                c.tables[r],
                #[trigger] fk.referenced_columns[i]@,
            ) is Some
}

/// Well-formedness of one table: distinct column names and well-formed
/// foreign keys.
pub open spec fn table_wf(c: CatalogSchema, t: Table) -> bool {
    &&& forall|i: int, j: int|
        0 <= i < j < t.columns.len() ==> (#[trigger] t.columns[i]).name@ != (
        #[trigger] t.columns[j]).name@
    &&& forall|i: int| 0 <= i < t.foreign_keys.len() ==> fk_wf(c, t, #[trigger] t.foreign_keys[i])
}

/// Well-formedness of the catalog, as the introspection collaborator
/// guarantees it: distinct table names, distinct enum names, distinct
/// members within an enum, and well-formed tables.
pub open spec fn catalog_wf(c: CatalogSchema) -> bool {
    &&& forall|i: int, j: int|
        0 <= i < j < c.tables.len() ==> (#[trigger] c.tables[i]).name@ != (
        #[trigger] c.tables[j]).name@
    &&& forall|i: int, j: int|
        0 <= i < j < c.enums.len() ==> (#[trigger] c.enums[i]).name@ != (
        #[trigger] c.enums[j]).name@
    &&& forall|e: int, i: int, j: int|
        0 <= e < c.enums.len() && 0 <= i < j < c.enums[e].values.len() ==> (
        #[trigger] c.enums[e].values[i])@ != (#[trigger] c.enums[e].values[j])@
    &&& forall|i: int| 0 <= i < c.tables.len() ==> table_wf(c, #[trigger] c.tables[i])
}

} // verus!
