//! The attribute merger.
//!
//! Per matched pair, attributes partition into two disjoint classes.
//! Structural attributes — column type, length, nullability, catalog
//! defaults, primary key, indexes, referential actions — always come from
//! the catalog; previous values are discarded even when present.  Virtual
//! attributes — documentation, ignore markers, auto-update timestamp
//! markers, and default generators the catalog cannot see — are preserved
//! verbatim from the previous description; a virtual default is kept only
//! while the column's structural shape (type, length, arity) is unchanged.

use vstd::prelude::*;
use crate::ast::{dup_opt_string, DefaultValue, EnumValue, Field, FieldArity, ScalarField};
use crate::catalog::{Column, Table};
use crate::matching::MatchOutcome;

verus! {

/// The arity a catalog column imposes on its field.
pub open spec fn col_arity(nullable: bool) -> FieldArity {
    if nullable {
        FieldArity::Optional
    } else {
        FieldArity::Required
    }
}

/// Whether the column's structural shape equals the shape the previous
/// field declared.
pub open spec fn shape_unchanged(col: Column, prev: ScalarField) -> bool {
    &&& prev.tpe@ == col.tpe@
    &&& prev.length == col.length
    &&& prev.arity == col_arity(col.nullable)
}

/// The merged default of a matched column: a catalog-visible default wins;
/// with none, a previous virtual generator survives while the shape is
/// unchanged; everything else is dropped.
pub open spec fn merged_default(col: Column, prev: ScalarField) -> Option<DefaultValue> {
    match col.default {
        Option::Some(d) => Option::Some(DefaultValue::DbGenerated(d)),
        Option::None => match prev.default {
            Option::Some(DefaultValue::Virtual(g)) => if shape_unchanged(col, prev) {
                Option::Some(DefaultValue::Virtual(g))
            } else {
                Option::None
            },
            _ => Option::None,
        },
    }
}

/// The default of a fresh column.
pub open spec fn fresh_default(col: Column) -> Option<DefaultValue> {
    match col.default {
        Option::Some(d) => Option::Some(DefaultValue::DbGenerated(d)),
        Option::None => Option::None,
    }
}

/// The merged scalar field of a matched column: structure from the
/// catalog, name and virtual attributes from the previous field, and the
/// mapping kept exactly when the pair came from the mapped-name pass.
pub open spec fn merged_scalar(col: Column, prev: ScalarField, renamed: bool) -> ScalarField {
    ScalarField {
        name: prev.name,
        mapped_name: if renamed {
            Option::Some(col.name)
        } else {
            Option::None
        },
        tpe: col.tpe,
        length: col.length,
        arity: col_arity(col.nullable),
        default: merged_default(col, prev),
        updated_at: prev.updated_at,
        ignored: prev.ignored,
        doc: prev.doc,
    }
}

/// The scalar field of a fresh (unmatched) column: everything from the
/// catalog, no mapping, no virtual attributes.
pub open spec fn fresh_scalar(col: Column) -> ScalarField {
    ScalarField {
        name: col.name,
        mapped_name: Option::None,
        tpe: col.tpe,
        length: col.length,
        arity: col_arity(col.nullable),
        default: fresh_default(col),
        updated_at: false,
        ignored: false,
        doc: Option::None,
    }
}

/// The merged scalar field of column `ci` under the field outcomes `fo`.
pub open spec fn merged_col_field(
    t: Table,
    ps: Seq<ScalarField>,
    fo: Seq<MatchOutcome>,
    ci: int,
) -> ScalarField {
    match fo[ci] {
        MatchOutcome::Matched { prev: i, renamed } => merged_scalar(
            t.columns[ci],
            ps[i as int],
            renamed,
        ),
        MatchOutcome::Fresh => fresh_scalar(t.columns[ci]),
    }
}

/// The merged value of a matched catalog enum member.
pub open spec fn merged_value(raw: String, prev: EnumValue, renamed: bool) -> EnumValue {
    EnumValue {
        name: prev.name,
        mapped_name: if renamed {
            Option::Some(raw)
        } else {
            Option::None
        },
    }
}

/// The value of a fresh catalog enum member: the raw member is its
/// best-effort name, whether or not it is a valid identifier.
pub open spec fn fresh_value(raw: String) -> EnumValue {
    EnumValue { name: raw, mapped_name: Option::None }
}

fn opt_u64_eq(a: Option<u64>, b: Option<u64>) -> (r: bool)
    ensures
        r == (a == b),
{
    match (a, b) {
        (Option::Some(x), Option::Some(y)) => x == y,
        (Option::None, Option::None) => true,
        _ => false,
    }
}

/// Decides whether the column's shape is unchanged.
pub fn shape_check(col: &Column, prev: &ScalarField) -> (b: bool)
    ensures
        b == shape_unchanged(*col, *prev),
{
    let arity = if col.nullable {
        FieldArity::Optional
    } else {
        FieldArity::Required
    };
    prev.tpe == col.tpe && opt_u64_eq(prev.length, col.length) && prev.arity == arity
}

/// Merges one matched column with its previous field.
pub fn merge_scalar(col: &Column, prev: &ScalarField, renamed: bool) -> (r: ScalarField)
    ensures
        r == merged_scalar(*col, *prev, renamed),
{
    let default = match &col.default {
        Option::Some(d) => Option::Some(DefaultValue::DbGenerated(d.clone())),
        Option::None => match &prev.default {
            Option::Some(DefaultValue::Virtual(g)) => {
                if shape_check(col, prev) {
                    Option::Some(DefaultValue::Virtual(g.clone()))
                } else {
                    Option::None
                }
            },
            _ => Option::None,
        },
    };
    ScalarField {
        name: prev.name.clone(),
        mapped_name: if renamed {
            Option::Some(col.name.clone())
        } else {
            Option::None
        },
        tpe: col.tpe.clone(),
        length: col.length,
        arity: if col.nullable {
            FieldArity::Optional
        } else {
            FieldArity::Required
        },
        default,
        updated_at: prev.updated_at,
        ignored: prev.ignored,
        doc: dup_opt_string(&prev.doc),
    }
}

/// Builds the field of one fresh column.
pub fn build_fresh_scalar(col: &Column) -> (r: ScalarField)
    ensures
        r == fresh_scalar(*col),
{
    let default = match &col.default {
        Option::Some(d) => Option::Some(DefaultValue::DbGenerated(d.clone())),
        Option::None => Option::None,
    };
    ScalarField {
        name: col.name.clone(),
        mapped_name: Option::None,
        tpe: col.tpe.clone(),
        length: col.length,
        arity: if col.nullable {
            FieldArity::Optional
        } else {
            FieldArity::Required
        },
        default,
        updated_at: false,
        ignored: false,
        doc: Option::None,
    }
}

/// Merges one matched catalog enum member with its previous value.
pub fn merge_value(raw: &String, prev: &EnumValue, renamed: bool) -> (r: EnumValue)
    ensures
        r == merged_value(*raw, *prev, renamed),
{
    EnumValue {
        name: prev.name.clone(),
        mapped_name: if renamed {
            Option::Some(raw.clone())
        } else {
            Option::None
        },
    }
}

/// Builds the value of one fresh catalog enum member.
pub fn build_fresh_value(raw: &String) -> (r: EnumValue)
    ensures
        r == fresh_value(*raw),
{
    EnumValue { name: raw.clone(), mapped_name: Option::None }
}

/// The previous scalar fields of a model, in declaration order.
pub open spec fn scalar_fields(s: Seq<Field>) -> Seq<ScalarField>
    decreases s.len(),
{
    if s.len() == 0 {
        Seq::empty()
    } else {
        let rest = scalar_fields(s.drop_last());
        match s.last() {
            Field::Scalar(sf) => rest.push(sf),
            Field::Relation(_) => rest,
        }
    }
}

/// Extracts the scalar fields of a previous model.
pub fn scalar_fields_of(fields: &Vec<Field>) -> (r: Vec<ScalarField>)
    ensures
        r@ == scalar_fields(fields@),
{
    let mut r: Vec<ScalarField> = Vec::new();
    let mut i: usize = 0;
    while i < fields.len()
        invariant
            i <= fields@.len(),
            r@ == scalar_fields(fields@.take(i as int)),
        decreases fields@.len() - i,
    {
        proof {
            assert(fields@.take(i + 1 as int).drop_last() =~= fields@.take(i as int));
            assert(fields@.take(i + 1 as int).last() == fields@[i as int]);
        }
        match &fields[i] {
            Field::Scalar(sf) => {
                r.push(sf.duplicate());
            },
            Field::Relation(_) => {},
        }
        i += 1;
    }
    proof {
        assert(fields@.take(fields@.len() as int) =~= fields@);
    }
    r
}

/// Merges all columns of a matched table against the previous scalar
/// fields, one output field per column, in column order.
pub fn build_scalar_fields(t: &Table, ps: &Vec<ScalarField>, fo: &Vec<MatchOutcome>) -> (r: Vec<
    ScalarField,
>)
    requires
        fo@.len() == t.columns@.len(),
        forall|ci: int|
            0 <= ci < fo@.len() ==> match #[trigger] fo@[ci] {
                MatchOutcome::Matched { prev: i, .. } => i < ps@.len(),
                MatchOutcome::Fresh => true,
            },
    ensures
        r@.len() == t.columns@.len(),
        forall|ci: int| 0 <= ci < r@.len() ==> r@[ci] == merged_col_field(*t, ps@, fo@, ci),
{
    let mut r: Vec<ScalarField> = Vec::new();
    let mut ci: usize = 0;
    while ci < t.columns.len()
        invariant
            ci <= t.columns@.len(),
            fo@.len() == t.columns@.len(),
            forall|k: int|
                0 <= k < fo@.len() ==> match #[trigger] fo@[k] {
                    MatchOutcome::Matched { prev: i, .. } => i < ps@.len(),
                    MatchOutcome::Fresh => true,
                },
            r@.len() == ci,
            forall|k: int| 0 <= k < ci ==> r@[k] == merged_col_field(*t, ps@, fo@, k),
        decreases t.columns@.len() - ci,
    {
        let f = match fo[ci] {
            MatchOutcome::Matched { prev: i, renamed } => merge_scalar(&t.columns[ci], &ps[i], renamed),
            MatchOutcome::Fresh => build_fresh_scalar(&t.columns[ci]),
        };
        r.push(f);
        ci += 1;
    }
    r
}

} // verus!
