//! The description side of a reconciliation: the abstract syntax tree of
//! the previously authored schema description, and of the merged output.
//! The merge produces the same entity and variant kinds it consumes.

use vstd::prelude::*;
use crate::catalog::{Index, ReferentialAction};

verus! {

/// Arity of a field.
#[derive(Clone, Copy, Debug, PartialEq, Eq, Structural)]
pub enum FieldArity {
    Required,
    Optional,
    List,
}

/// A field default.  `DbGenerated` is catalog-visible; `Virtual` is an
/// application-side generator with no catalog representation, preserved
/// from the previous description as long as the column's shape is
/// unchanged.
#[derive(Clone, Debug, PartialEq, Eq)]
pub enum DefaultValue {
    DbGenerated(String),
    Virtual(String),
}

/// A scalar field, backed by exactly one catalog column.
#[derive(Clone, Debug, PartialEq, Eq)]
pub struct ScalarField {
    pub name: String,
    pub mapped_name: Option<String>,
    pub tpe: String,
    pub length: Option<u64>,
    pub arity: FieldArity,
    pub default: Option<DefaultValue>,
    pub updated_at: bool,
    pub ignored: bool,
    pub doc: Option<String>,
}

/// A relation field, forward or back-reference, backed by a foreign key or
/// by an implicit many-to-many join table.
#[derive(Clone, Debug, PartialEq, Eq)]
pub struct RelationField {
    pub name: String,
    pub relation_name: Option<String>,
    pub target: String,
    pub fields: Vec<String>,
    pub references: Vec<String>,
    pub arity: FieldArity,
    pub on_delete: Option<ReferentialAction>,
    pub on_update: Option<ReferentialAction>,
}

/// A model field: scalar or relation.
#[derive(Clone, Debug, PartialEq, Eq)]
pub enum Field {
    Scalar(ScalarField),
    Relation(RelationField),
}

/// A model, backed by a catalog table.
#[derive(Clone, Debug, PartialEq, Eq)]
pub struct Model {
    pub name: String,
    pub mapped_name: Option<String>,
    pub doc: Option<String>,
    pub fields: Vec<Field>,
    pub id_fields: Vec<String>,
    pub indexes: Vec<Index>,
    pub ignored: bool,
}

/// One value of a declared enum.
#[derive(Clone, Debug, PartialEq, Eq)]
pub struct EnumValue {
    pub name: String,
    pub mapped_name: Option<String>,
}

/// A declared enum, backed by a catalog enum type.
#[derive(Clone, Debug, PartialEq, Eq)]
pub struct Enum {
    pub name: String,
    pub mapped_name: Option<String>,
    pub doc: Option<String>,
    pub values: Vec<EnumValue>,
}

/// A whole schema description.
#[derive(Clone, Debug, PartialEq, Eq)]
pub struct Datamodel {
    pub models: Vec<Model>,
    pub enums: Vec<Enum>,
}

/// The view of an optional string.
pub open spec fn opt_view(o: Option<String>) -> Option<Seq<char>> {
    match o {
        Option::Some(s) => Option::Some(s@),
        Option::None => Option::None,
    }
}

/// Copies an optional string; the copy is equal to the original.
pub fn dup_opt_string(o: &Option<String>) -> (r: Option<String>)
    ensures
        r == *o,
{
    match o {
        Option::Some(s) => Option::Some(s.clone()),
        Option::None => Option::None,
    }
}

/// Copies a vector of strings; the copy's view is the original's.
pub fn dup_strings(v: &Vec<String>) -> (r: Vec<String>)
    ensures
        r@ == v@,
{
    let mut r: Vec<String> = Vec::new();
    let mut i: usize = 0;
    while i < v.len()
        invariant
            i <= v@.len(),
            r@.len() == i,
            forall|k: int| 0 <= k < i ==> r@[k] == v@[k],
        decreases v@.len() - i,
    {
        r.push(v[i].clone());
        i += 1;
    }
    proof {
        assert(r@ =~= v@);
    }
    r
}

impl DefaultValue {
    /// Copies the default; the copy is equal to the original.
    pub fn duplicate(&self) -> (r: DefaultValue)
        ensures
            r == *self,
    {
        match self {
            DefaultValue::DbGenerated(s) => DefaultValue::DbGenerated(s.clone()),
            DefaultValue::Virtual(s) => DefaultValue::Virtual(s.clone()),
        }
    }
}

/// Copies an optional default; the copy is equal to the original.
pub fn dup_opt_default(o: &Option<DefaultValue>) -> (r: Option<DefaultValue>)
    ensures
        r == *o,
{
    match o {
        Option::Some(d) => Option::Some(d.duplicate()),
        Option::None => Option::None,
    }
}

impl ScalarField {
    /// Copies the field; the copy is equal to the original.
    pub fn duplicate(&self) -> (r: ScalarField)
        ensures
            r == *self,
    {
        ScalarField {
            name: self.name.clone(),
            mapped_name: dup_opt_string(&self.mapped_name),
            tpe: self.tpe.clone(),
            length: self.length,
            arity: self.arity,
            default: dup_opt_default(&self.default),
            updated_at: self.updated_at,
            ignored: self.ignored,
            doc: dup_opt_string(&self.doc),
        }
    }
}

impl EnumValue {
    /// Copies the value; the copy is equal to the original.
    pub fn duplicate(&self) -> (r: EnumValue)
        ensures
            r == *self,
    {
        EnumValue { name: self.name.clone(), mapped_name: dup_opt_string(&self.mapped_name) }
    }
}

/// View equality of two optional strings.
pub open spec fn opt_str_eqv(a: Option<String>, b: Option<String>) -> bool {
    match (a, b) {
        (Option::Some(x), Option::Some(y)) => x@ == y@,
        (Option::None, Option::None) => true,
        _ => false,
    }
}

/// Decides view equality of two optional strings.
pub fn opt_str_eq(a: &Option<String>, b: &Option<String>) -> (r: bool)
    ensures
        r == opt_str_eqv(*a, *b),
{
    match (a, b) {
        (Option::Some(x), Option::Some(y)) => *x == *y,
        (Option::None, Option::None) => true,
        _ => false,
    }
}

/// View equality of two string sequences.
pub open spec fn strs_eqv(a: Seq<String>, b: Seq<String>) -> bool {
    a.len() == b.len() && forall|i: int| 0 <= i < a.len() ==> (#[trigger] a[i])@ == (#[trigger] b[i])@
}

/// View equality of two optional defaults.
pub open spec fn default_eqv(a: Option<DefaultValue>, b: Option<DefaultValue>) -> bool {
    match (a, b) {
        (Option::Some(DefaultValue::DbGenerated(x)), Option::Some(DefaultValue::DbGenerated(y))) =>
            x@ == y@,
        (Option::Some(DefaultValue::Virtual(x)), Option::Some(DefaultValue::Virtual(y))) => x@
            == y@,
        (Option::None, Option::None) => true,
        _ => false,
    }
}

/// View equality of two scalar fields.
pub open spec fn scalar_field_eqv(a: ScalarField, b: ScalarField) -> bool {
    &&& a.name@ == b.name@
    &&& opt_str_eqv(a.mapped_name, b.mapped_name)
    &&& a.tpe@ == b.tpe@
    &&& a.length == b.length
    &&& a.arity == b.arity
    &&& default_eqv(a.default, b.default)
    &&& a.updated_at == b.updated_at
    &&& a.ignored == b.ignored
    &&& opt_str_eqv(a.doc, b.doc)
}

/// View equality of two relation fields.
pub open spec fn relation_field_eqv(a: RelationField, b: RelationField) -> bool {
    &&& a.name@ == b.name@
    &&& opt_str_eqv(a.relation_name, b.relation_name)
    &&& a.target@ == b.target@
    &&& strs_eqv(a.fields@, b.fields@)
    &&& strs_eqv(a.references@, b.references@)
    &&& a.arity == b.arity
    &&& a.on_delete == b.on_delete
    &&& a.on_update == b.on_update
}

/// View equality of two fields.
pub open spec fn field_eqv(a: Field, b: Field) -> bool {
    match (a, b) {
        (Field::Scalar(x), Field::Scalar(y)) => scalar_field_eqv(x, y),
        (Field::Relation(x), Field::Relation(y)) => relation_field_eqv(x, y),
        _ => false,
    }
}

/// View equality of two indexes.
pub open spec fn index_eqv(a: Index, b: Index) -> bool {
    a.name@ == b.name@ && strs_eqv(a.columns@, b.columns@) && a.unique == b.unique
}

/// View equality of two models.
pub open spec fn model_eqv(a: Model, b: Model) -> bool {
    &&& a.name@ == b.name@
    &&& opt_str_eqv(a.mapped_name, b.mapped_name)
    &&& opt_str_eqv(a.doc, b.doc)
    &&& a.fields@.len() == b.fields@.len()
    &&& forall|i: int|
        0 <= i < a.fields@.len() ==> field_eqv(#[trigger] a.fields@[i], #[trigger] b.fields@[i])
    &&& strs_eqv(a.id_fields@, b.id_fields@)
    &&& a.indexes@.len() == b.indexes@.len()
    &&& forall|i: int|
        0 <= i < a.indexes@.len() ==> index_eqv(#[trigger] a.indexes@[i], #[trigger] b.indexes@[i])
    &&& a.ignored == b.ignored
}

/// View equality of two enum values.
pub open spec fn enum_value_eqv(a: EnumValue, b: EnumValue) -> bool {
    a.name@ == b.name@ && opt_str_eqv(a.mapped_name, b.mapped_name)
}

/// View equality of two enums.
pub open spec fn enum_eqv(a: Enum, b: Enum) -> bool {
    &&& a.name@ == b.name@
    &&& opt_str_eqv(a.mapped_name, b.mapped_name)
    &&& opt_str_eqv(a.doc, b.doc)
    &&& a.values@.len() == b.values@.len()
    &&& forall|i: int|
        0 <= i < a.values@.len() ==> enum_value_eqv(
            #[trigger] a.values@[i],
            #[trigger] b.values@[i],
        )
}

/// View equality of two schema descriptions.
pub open spec fn datamodel_eqv(a: Datamodel, b: Datamodel) -> bool {
    &&& a.models@.len() == b.models@.len()
    &&& forall|i: int|
        0 <= i < a.models@.len() ==> model_eqv(#[trigger] a.models@[i], #[trigger] b.models@[i])
    &&& a.enums@.len() == b.enums@.len()
    &&& forall|i: int|
        0 <= i < a.enums@.len() ==> enum_eqv(#[trigger] a.enums@[i], #[trigger] b.enums@[i])
}

} // verus!
