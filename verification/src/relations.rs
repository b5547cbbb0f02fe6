//! The relation resolver.
//!
//! Every foreign key on a matched model referencing another matched model
//! yields a forward relation field on the constrained side and a
//! back-reference field on the referenced side.  The identity of a
//! relation is its foreign-key column set, never a name: when a previous
//! relation pair with the same column set exists, its field names and
//! explicit relation-name label carry over, while referential actions are
//! always recomputed from the live constraint.
//!
//! An implicit many-to-many join table — exactly two single-column foreign
//! keys over its only two columns, with a composite unique index over both
//! — is never a model: it yields list-typed relation fields on both
//! related models.  When such a join table relates a model to itself, no
//! record proves which previous field pointed at which join column, so the
//! previous names are discarded and canonical names regenerated from the
//! referenced model and the join column.
//!
//! Fresh relation fields take canonical names: the target model and the
//! first constrained (or, for the back-reference, referenced) column,
//! joined by an underscore.

use vstd::prelude::*;
use vstd::string::{StrSliceExecFns, StringExecFns};
use crate::ast::{opt_str_eqv, Field, FieldArity, Model, RelationField};
use crate::catalog::{
    col_index, find_col, find_table, resolved_action, spec_resolved_action, table_index,
    CatalogSchema, ForeignKey, Index, Table,
};

verus! {

/// One resolved relation field, waiting to be appended to the model of
/// table `owner`.
#[derive(Debug)]
pub struct RelEntry {
    pub owner: usize,
    pub field: RelationField,
}

/// A unique index covering exactly the two named columns, in either order.
pub open spec fn index_covers_both(ix: Index, a: Seq<char>, b: Seq<char>) -> bool {
    &&& ix.unique
    &&& ix.columns.len() == 2
    &&& (ix.columns[0]@ == a && ix.columns[1]@ == b || ix.columns[0]@ == b && ix.columns[1]@ == a)
}

/// An implicit many-to-many join table: two columns, two single-column
/// foreign keys covering exactly those columns, and a composite unique
/// index over both.
pub open spec fn is_m2m_table(t: Table) -> bool {
    &&& t.columns.len() == 2
    &&& t.foreign_keys.len() == 2
    &&& t.foreign_keys[0].columns.len() == 1
    &&& t.foreign_keys[1].columns.len() == 1
    &&& (t.foreign_keys[0].columns[0]@ == t.columns[0].name@ && t.foreign_keys[1].columns[0]@
        == t.columns[1].name@ || t.foreign_keys[0].columns[0]@ == t.columns[1].name@
        && t.foreign_keys[1].columns[0]@ == t.columns[0].name@)
    &&& exists|i: int|
        0 <= i < t.indexes.len() && index_covers_both(
            #[trigger] t.indexes[i],
            t.columns[0].name@,
            t.columns[1].name@,
        )
}

/// The foreign key of a join table that constrains column `k`.
pub open spec fn m2m_fk(t: Table, k: int) -> ForeignKey {
    if t.foreign_keys[0].columns[0]@ == t.columns[k].name@ {
        t.foreign_keys[0]
    } else {
        t.foreign_keys[1]
    }
}

/// Whether a foreign key can become a relation: its referenced table is in
/// the catalog and is itself a model, not a join table.
pub open spec fn fk_linkable(cat: CatalogSchema, fk: ForeignKey) -> bool {
    match table_index(cat, fk.referenced_table@) {
        Some(r) => !is_m2m_table(cat.tables[r]),
        None => false,
    }
}

/// Whether both sides of a join table can become relation fields.
pub open spec fn m2m_linkable(cat: CatalogSchema, t: Table) -> bool {
    fk_linkable(cat, m2m_fk(t, 0)) && fk_linkable(cat, m2m_fk(t, 1))
}

/// The output field name of column `c` of `t`, given the table's output
/// field names `names` (one per column, in column order).
pub open spec fn field_name_of_col(t: Table, names: Seq<String>, c: Seq<char>) -> Seq<char> {
    match col_index(t, c) {
        Some(ci) => names[ci]@,
        None => c,
    }
}

/// Whether a previous relation field's foreign-key column set matches the
/// foreign key `fk`, column for column, through the output field names.
pub open spec fn rf_fields_match(
    rf: RelationField,
    t: Table,
    names: Seq<String>,
    fk: ForeignKey,
) -> bool {
    &&& rf.fields.len() == fk.columns.len()
    &&& forall|k: int|
        0 <= k < fk.columns.len() ==> (#[trigger] rf.fields[k])@ == field_name_of_col(
            t,
            names,
            fk.columns[k]@,
        )
}

/// The first previous relation field at or after `i` whose column set
/// matches `fk`, if any.
pub open spec fn prev_forward_from(
    fields: Seq<Field>,
    t: Table,
    names: Seq<String>,
    fk: ForeignKey,
    i: int,
) -> Option<int>
    decreases fields.len() - i,
{
    if i < 0 || i >= fields.len() {
        None
    } else {
        match fields[i] {
            Field::Relation(rf) => if rf_fields_match(rf, t, names, fk) {
                Some(i)
            } else {
                prev_forward_from(fields, t, names, fk, i + 1)
            },
            Field::Scalar(_) => prev_forward_from(fields, t, names, fk, i + 1),
        }
    }
}

/// The first previous back-reference at or after `i`: a relation field
/// with no foreign-key fields of its own, targeting `tgt` under the
/// relation-name label `label`.
pub open spec fn prev_back_from(
    fields: Seq<Field>,
    tgt: Seq<char>,
    label: Option<String>,
    i: int,
) -> Option<int>
    decreases fields.len() - i,
{
    if i < 0 || i >= fields.len() {
        None
    } else {
        match fields[i] {
            Field::Relation(rf) => if rf.fields.len() == 0 && rf.target@ == tgt && opt_str_eqv(
                rf.relation_name,
                label,
            ) {
                Some(i)
            } else {
                prev_back_from(fields, tgt, label, i + 1)
            },
            Field::Scalar(_) => prev_back_from(fields, tgt, label, i + 1),
        }
    }
}

/// The first previous many-to-many list field at or after `i` targeting
/// `tgt`.
pub open spec fn prev_m2m_from(fields: Seq<Field>, tgt: Seq<char>, i: int) -> Option<int>
    decreases fields.len() - i,
{
    if i < 0 || i >= fields.len() {
        None
    } else {
        match fields[i] {
            Field::Relation(rf) => if rf.fields.len() == 0 && rf.arity is List && rf.target@
                == tgt {
                Some(i)
            } else {
                prev_m2m_from(fields, tgt, i + 1)
            },
            Field::Scalar(_) => prev_m2m_from(fields, tgt, i + 1),
        }
    }
}

/// Whether some constrained column of `fk` is nullable.
pub open spec fn fk_has_nullable(t: Table, fk: ForeignKey) -> bool {
    exists|k: int|
        0 <= k < fk.columns.len() && match col_index(t, (#[trigger] fk.columns[k])@) {
            Some(ci) => t.columns[ci].nullable,
            None => false,
        }
}

/// View equality of a string sequence pair, as the unique-cover check
/// needs it.
pub open spec fn cols_eqv(a: Seq<String>, b: Seq<String>) -> bool {
    a.len() == b.len() && forall|k: int| 0 <= k < a.len() ==> (#[trigger] a[k])@ == (
    #[trigger] b[k])@
}

/// Whether the constrained column set of `fk` is uniquely constrained: the
/// primary key or a unique index covers exactly these columns, in order.
pub open spec fn fk_unique(t: Table, fk: ForeignKey) -> bool {
    ||| (match t.primary_key {
        Option::Some(pk) => cols_eqv(pk@, fk.columns@),
        Option::None => false,
    })
    ||| exists|i: int|
        0 <= i < t.indexes.len() && (#[trigger] t.indexes[i]).unique && cols_eqv(
            t.indexes[i].columns@,
            fk.columns@,
        )
}

/// A join-table name with one leading underscore removed.
pub open spec fn stripped(name: Seq<char>) -> Seq<char> {
    if name.len() > 0 && name[0] == '_' {
        name.subrange(1, name.len() as int)
    } else {
        name
    }
}

/// The forward arity of a relation: required when every constrained
/// column is non-nullable.
pub open spec fn forward_arity(t: Table, fk: ForeignKey) -> FieldArity {
    if fk_has_nullable(t, fk) {
        FieldArity::Optional
    } else {
        FieldArity::Required
    }
}

/// The back-reference arity: to-one when the constrained column set is
/// uniquely constrained, a list otherwise.
pub open spec fn back_arity(t: Table, fk: ForeignKey) -> FieldArity {
    if fk_unique(t, fk) {
        FieldArity::Optional
    } else {
        FieldArity::List
    }
}

/// The canonical name of a fresh relation field: target model, `_`, and a
/// distinguishing column.
pub open spec fn canonical_name(model: Seq<char>, col: Seq<char>) -> Seq<char> {
    model + "_"@ + col
}

/// What the forward relation field of foreign key `fi` on table `ti` must
/// hold.  `pm` are the previous models, `pot` the previous model matched
/// to each table, `ont` each table's output model name, and `oft` each
/// table's output scalar-field names in column order.
#[verifier::opaque]
pub open spec fn forward_props(
    e: RelEntry,
    cat: CatalogSchema,
    pm: Seq<Model>,
    pot: Seq<Option<usize>>,
    ont: Seq<String>,
    oft: Seq<Vec<String>>,
    ti: int,
    fi: int,
) -> bool {
    let t = cat.tables[ti];
    let fk = t.foreign_keys[fi];
    let r = table_index(cat, fk.referenced_table@)->Some_0;
    &&& e.owner == ti
    &&& e.field.target@ == ont[r]@
    &&& e.field.fields.len() == fk.columns.len()
    &&& forall|k: int|
        0 <= k < fk.columns.len() ==> (#[trigger] e.field.fields[k])@ == field_name_of_col(
            t,
            oft[ti]@,
            fk.columns[k]@,
        )
    &&& e.field.references.len() == fk.referenced_columns.len()
    &&& forall|k: int|
        0 <= k < fk.referenced_columns.len() ==> (#[trigger] e.field.references[k])@
            == field_name_of_col(cat.tables[r], oft[r]@, fk.referenced_columns[k]@)
    &&& e.field.arity == forward_arity(t, fk)
    &&& e.field.on_delete == Some(spec_resolved_action(cat.dialect, fk.on_delete))
    &&& e.field.on_update == Some(spec_resolved_action(cat.dialect, fk.on_update))
    &&& match pot[ti] {
        Option::Some(mi) => match prev_forward_from(pm[mi as int].fields@, t, oft[ti]@, fk, 0) {
            Some(pfi) => e.field.name == pm[mi as int].fields@[pfi]->Relation_0.name
                && e.field.relation_name == pm[mi as int].fields@[pfi]->Relation_0.relation_name,
            None => e.field.name@ == canonical_name(ont[r]@, fk.columns[0]@)
                && e.field.relation_name is None,
        },
        Option::None => e.field.name@ == canonical_name(ont[r]@, fk.columns[0]@)
            && e.field.relation_name is None,
    }
}

/// What the back-reference field of foreign key `fi` on table `ti` must
/// hold.
#[verifier::opaque]
pub open spec fn back_props(
    e: RelEntry,
    cat: CatalogSchema,
    pm: Seq<Model>,
    pot: Seq<Option<usize>>,
    ont: Seq<String>,
    oft: Seq<Vec<String>>,
    ti: int,
    fi: int,
) -> bool {
    let t = cat.tables[ti];
    let fk = t.foreign_keys[fi];
    let r = table_index(cat, fk.referenced_table@)->Some_0;
    &&& e.owner == r
    &&& e.field.target@ == ont[ti]@
    &&& e.field.fields.len() == 0
    &&& e.field.references.len() == 0
    &&& e.field.arity == back_arity(t, fk)
    &&& e.field.on_delete is None
    &&& e.field.on_update is None
    &&& match pot[ti] {
        Option::Some(mi) => match prev_forward_from(pm[mi as int].fields@, t, oft[ti]@, fk, 0) {
            Some(pfi) => {
                let prf = pm[mi as int].fields@[pfi]->Relation_0;
                &&& e.field.relation_name == prf.relation_name
                &&& match pot[r] {
                    Option::Some(mr) => match prev_back_from(
                        pm[mr as int].fields@,
                        pm[mi as int].name@,
                        prf.relation_name,
                        0,
                    ) {
                        Some(bfi) => e.field.name == pm[mr as int].fields@[bfi]->Relation_0.name,
                        None => e.field.name@ == canonical_name(
                            ont[ti]@,
                            fk.referenced_columns[0]@,
                        ),
                    },
                    Option::None => e.field.name@ == canonical_name(
                        ont[ti]@,
                        fk.referenced_columns[0]@,
                    ),
                }
            },
            None => e.field.name@ == canonical_name(ont[ti]@, fk.referenced_columns[0]@)
                && e.field.relation_name is None,
        },
        Option::None => e.field.name@ == canonical_name(ont[ti]@, fk.referenced_columns[0]@)
            && e.field.relation_name is None,
    }
}

/// What side `k` of the join table `ti` must hold.  For a self-relation,
/// previous names are discarded and the canonical stand-in regenerated;
/// otherwise a previous list pair carries its names over.
#[verifier::opaque]
pub open spec fn m2m_side_props(
    e: RelEntry,
    cat: CatalogSchema,
    pm: Seq<Model>,
    pot: Seq<Option<usize>>,
    ont: Seq<String>,
    ti: int,
    k: int,
) -> bool {
    let t = cat.tables[ti];
    let fk = m2m_fk(t, k);
    let fko = m2m_fk(t, 1 - k);
    let rk = table_index(cat, fk.referenced_table@)->Some_0;
    let ro = table_index(cat, fko.referenced_table@)->Some_0;
    &&& e.owner == ro
    &&& e.field.target@ == ont[rk]@
    &&& e.field.fields.len() == 0
    &&& e.field.references.len() == 0
    &&& e.field.arity == FieldArity::List
    &&& e.field.on_delete is None
    &&& e.field.on_update is None
    &&& if rk == ro {
        &&& e.field.name@ == canonical_name(ont[rk]@, t.columns[k].name@)
        &&& e.field.relation_name matches Option::Some(l) && l@ == stripped(t.name@)
    } else {
        match (pot[ro], pot[rk]) {
            (Option::Some(mo), Option::Some(mk)) => match prev_m2m_from(
                pm[mo as int].fields@,
                pm[mk as int].name@,
                0,
            ) {
                Some(pi) => e.field.name == pm[mo as int].fields@[pi]->Relation_0.name
                    && e.field.relation_name == pm[mo as int].fields@[pi]->Relation_0.relation_name,
                None => e.field.name@ == canonical_name(ont[rk]@, t.columns[k].name@) && (
                e.field.relation_name matches Option::Some(l) && l@ == stripped(t.name@)),
            },
            _ => e.field.name@ == canonical_name(ont[rk]@, t.columns[k].name@) && (
            e.field.relation_name matches Option::Some(l) && l@ == stripped(t.name@)),
        }
    }
}

proof fn lemma_prev_forward_char(fields: Seq<Field>, t: Table, names: Seq<String>, fk: ForeignKey, i: int)
    requires
        0 <= i <= fields.len(),
    ensures
        match prev_forward_from(fields, t, names, fk, i) {
            Some(kk) => i <= kk < fields.len() && fields[kk] is Relation && rf_fields_match(
                fields[kk]->Relation_0,
                t,
                names,
                fk,
            ),
            None => true,
        },
    decreases fields.len() - i,
{
    if i < fields.len() {
        match fields[i] {
            Field::Relation(rf) => {
                if !rf_fields_match(rf, t, names, fk) {
                    lemma_prev_forward_char(fields, t, names, fk, i + 1);
                }
            },
            Field::Scalar(_) => {
                lemma_prev_forward_char(fields, t, names, fk, i + 1);
            },
        }
    }
}

proof fn lemma_prev_back_char(fields: Seq<Field>, tgt: Seq<char>, label: Option<String>, i: int)
    requires
        0 <= i <= fields.len(),
    ensures
        match prev_back_from(fields, tgt, label, i) {
            Some(kk) => i <= kk < fields.len() && fields[kk] is Relation,
            None => true,
        },
    decreases fields.len() - i,
{
    if i < fields.len() {
        match fields[i] {
            Field::Relation(rf) => {
                if !(rf.fields.len() == 0 && rf.target@ == tgt && opt_str_eqv(
                    rf.relation_name,
                    label,
                )) {
                    lemma_prev_back_char(fields, tgt, label, i + 1);
                }
            },
            Field::Scalar(_) => {
                lemma_prev_back_char(fields, tgt, label, i + 1);
            },
        }
    }
}

/// Decides whether `t` is an implicit many-to-many join table.
#[verifier::loop_isolation(false)]
pub fn m2m_check(t: &Table) -> (b: bool)
    ensures
        b == is_m2m_table(*t),
{
    if t.columns.len() != 2 || t.foreign_keys.len() != 2 {
        return false;
    }
    if t.foreign_keys[0].columns.len() != 1 || t.foreign_keys[1].columns.len() != 1 {
        return false;
    }
    let covers = (t.foreign_keys[0].columns[0] == t.columns[0].name && t.foreign_keys[1].columns[0]
        == t.columns[1].name) || (t.foreign_keys[0].columns[0] == t.columns[1].name
        && t.foreign_keys[1].columns[0] == t.columns[0].name);
    if !covers {
        return false;
    }
    let mut i: usize = 0;
    while i < t.indexes.len()
        invariant
            i <= t.indexes@.len(),
            t.columns@.len() == 2,
            forall|m: int|
                0 <= m < i ==> !index_covers_both(
                    #[trigger] t.indexes@[m],
                    t.columns@[0].name@,
                    t.columns@[1].name@,
                ),
        decreases t.indexes@.len() - i,
    {
        let ix = &t.indexes[i];
        if ix.unique && ix.columns.len() == 2 {
            let m1 = ix.columns[0] == t.columns[0].name && ix.columns[1] == t.columns[1].name;
            let m2 = ix.columns[0] == t.columns[1].name && ix.columns[1] == t.columns[0].name;
            if m1 || m2 {
                proof {
                    assert(index_covers_both(
                        t.indexes@[i as int],
                        t.columns@[0].name@,
                        t.columns@[1].name@,
                    ));
                }
                return true;
            }
        }
        i += 1;
    }
    proof {
        assert(!is_m2m_table(*t)) by {
            if is_m2m_table(*t) {
                let ii = choose|ii: int|
                    0 <= ii < t.indexes.len() && index_covers_both(
                        #[trigger] t.indexes@[ii],
                        t.columns@[0].name@,
                        t.columns@[1].name@,
                    );
                assert(!index_covers_both(
                    t.indexes@[ii],
                    t.columns@[0].name@,
                    t.columns@[1].name@,
                ));
            }
        }
    }
    false
}

/// Decides whether some constrained column of `fk` is nullable.
fn fk_has_nullable_check(t: &Table, fk: &ForeignKey) -> (b: bool)
    ensures
        b == fk_has_nullable(*t, *fk),
{
    let mut k: usize = 0;
    while k < fk.columns.len()
        invariant
            k <= fk.columns@.len(),
            forall|m: int|
                0 <= m < k ==> !(match col_index(*t, (#[trigger] fk.columns@[m])@) {
                    Some(ci) => t.columns@[ci].nullable,
                    None => false,
                }),
        decreases fk.columns@.len() - k,
    {
        match find_col(t, &fk.columns[k]) {
            Option::Some(ci) => {
                proof {
                    crate::catalog::lemma_col_index_char(*t, fk.columns@[k as int]@, 0);
                }
                if t.columns[ci].nullable {
                    return true;
                }
            },
            Option::None => {},
        }
        k += 1;
    }
    proof {
        assert(!fk_has_nullable(*t, *fk)) by {
            if fk_has_nullable(*t, *fk) {
                let m = choose|m: int|
                    0 <= m < fk.columns.len() && match col_index(*t, (#[trigger] fk.columns[m])@) {
                        Some(ci) => t.columns[ci].nullable,
                        None => false,
                    };
                assert(!(match col_index(*t, fk.columns@[m]@) {
                    Some(ci) => t.columns@[ci].nullable,
                    None => false,
                }));
            }
        }
    }
    false
}

/// Decides view equality of two column-name lists.
fn cols_equal(a: &Vec<String>, b: &Vec<String>) -> (r: bool)
    ensures
        r == cols_eqv(a@, b@),
{
    if a.len() != b.len() {
        return false;
    }
    let mut k: usize = 0;
    while k < a.len()
        invariant
            k <= a@.len(),
            a@.len() == b@.len(),
            forall|m: int| 0 <= m < k ==> (#[trigger] a@[m])@ == (#[trigger] b@[m])@,
        decreases a@.len() - k,
    {
        if !(a[k] == b[k]) {
            return false;
        }
        k += 1;
    }
    true
}

/// Decides whether the constrained column set of `fk` is uniquely
/// constrained.
fn fk_unique_check(t: &Table, fk: &ForeignKey) -> (b: bool)
    ensures
        b == fk_unique(*t, *fk),
{
    match &t.primary_key {
        Option::Some(pk) => {
            if cols_equal(pk, &fk.columns) {
                return true;
            }
        },
        Option::None => {},
    }
    let mut i: usize = 0;
    while i < t.indexes.len()
        invariant
            i <= t.indexes@.len(),
            forall|m: int|
                0 <= m < i ==> !((#[trigger] t.indexes@[m]).unique && cols_eqv(
                    t.indexes@[m].columns@,
                    fk.columns@,
                )),
        decreases t.indexes@.len() - i,
    {
        let ix = &t.indexes[i];
        if ix.unique && cols_equal(&ix.columns, &fk.columns) {
            return true;
        }
        i += 1;
    }
    proof {
        assert(!(exists|ii: int|
            0 <= ii < t.indexes.len() && (#[trigger] t.indexes[ii]).unique && cols_eqv(
                t.indexes[ii].columns@,
                fk.columns@,
            ))) by {
            if exists|ii: int|
                0 <= ii < t.indexes.len() && (#[trigger] t.indexes[ii]).unique && cols_eqv(
                    t.indexes[ii].columns@,
                    fk.columns@,
                ) {
                let ii = choose|ii: int|
                    0 <= ii < t.indexes.len() && (#[trigger] t.indexes[ii]).unique && cols_eqv(
                        t.indexes[ii].columns@,
                        fk.columns@,
                    );
                assert(!(t.indexes@[ii].unique && cols_eqv(t.indexes@[ii].columns@, fk.columns@)));
            }
        }
    }
    false
}

/// Translates catalog column names to output field names, one for one.
pub(crate) fn translate_names(t: &Table, names: &Vec<String>, cols: &Vec<String>) -> (r: Vec<String>)
    requires
        names@.len() == t.columns@.len(),
    ensures
        r@.len() == cols@.len(),
        forall|k: int| 0 <= k < cols@.len() ==> (#[trigger] r@[k])@ == field_name_of_col(
            *t,
            names@,
            cols@[k]@,
        ),
{
    let mut r: Vec<String> = Vec::new();
    let mut k: usize = 0;
    while k < cols.len()
        invariant
            k <= cols@.len(),
            names@.len() == t.columns@.len(),
            r@.len() == k,
            forall|m: int| 0 <= m < k ==> (#[trigger] r@[m])@ == field_name_of_col(
                *t,
                names@,
                cols@[m]@,
            ),
        decreases cols@.len() - k,
    {
        match find_col(t, &cols[k]) {
            Option::Some(ci) => {
                proof {
                    crate::catalog::lemma_col_index_char(*t, cols@[k as int]@, 0);
                }
                r.push(names[ci].clone());
            },
            Option::None => {
                r.push(cols[k].clone());
            },
        }
        k += 1;
    }
    r
}

/// Decides whether a previous relation field's column set matches `fk`.
fn rf_fields_check(rf: &RelationField, t: &Table, names: &Vec<String>, fk: &ForeignKey) -> (b:
    bool)
    requires
        names@.len() == t.columns@.len(),
    ensures
        b == rf_fields_match(*rf, *t, names@, *fk),
{
    if rf.fields.len() != fk.columns.len() {
        return false;
    }
    let mut k: usize = 0;
    while k < fk.columns.len()
        invariant
            k <= fk.columns@.len(),
            names@.len() == t.columns@.len(),
            rf.fields@.len() == fk.columns@.len(),
            forall|m: int|
                0 <= m < k ==> (#[trigger] rf.fields@[m])@ == field_name_of_col(
                    *t,
                    names@,
                    fk.columns@[m]@,
                ),
        decreases fk.columns@.len() - k,
    {
        let same = match find_col(t, &fk.columns[k]) {
            Option::Some(ci) => {
                proof {
                    crate::catalog::lemma_col_index_char(*t, fk.columns@[k as int]@, 0);
                }
                rf.fields[k] == names[ci]
            },
            Option::None => rf.fields[k] == fk.columns[k],
        };
        if !same {
            return false;
        }
        k += 1;
    }
    true
}

/// Finds the previous relation field whose column set matches `fk`.
fn find_prev_forward(fields: &Vec<Field>, t: &Table, names: &Vec<String>, fk: &ForeignKey) -> (r:
    Option<usize>)
    requires
        names@.len() == t.columns@.len(),
    ensures
        match r {
            Option::Some(i) => prev_forward_from(fields@, *t, names@, *fk, 0) == Some(i as int)
                && i < fields@.len(),
            Option::None => prev_forward_from(fields@, *t, names@, *fk, 0) is None,
        },
{
    let mut i: usize = 0;
    while i < fields.len()
        invariant
            i <= fields@.len(),
            names@.len() == t.columns@.len(),
            prev_forward_from(fields@, *t, names@, *fk, 0) == prev_forward_from(
                fields@,
                *t,
                names@,
                *fk,
                i as int,
            ),
        decreases fields@.len() - i,
    {
        match &fields[i] {
            Field::Relation(rf) => {
                if rf_fields_check(rf, t, names, fk) {
                    return Option::Some(i);
                }
            },
            Field::Scalar(_) => {},
        }
        i += 1;
    }
    Option::None
}

/// Finds the previous back-reference targeting `tgt` under `label`.
fn find_prev_back(fields: &Vec<Field>, tgt: &String, label: &Option<String>) -> (r: Option<usize>)
    ensures
        match r {
            Option::Some(i) => prev_back_from(fields@, tgt@, *label, 0) == Some(i as int) && i
                < fields@.len(),
            Option::None => prev_back_from(fields@, tgt@, *label, 0) is None,
        },
{
    let mut i: usize = 0;
    while i < fields.len()
        invariant
            i <= fields@.len(),
            prev_back_from(fields@, tgt@, *label, 0) == prev_back_from(
                fields@,
                tgt@,
                *label,
                i as int,
            ),
        decreases fields@.len() - i,
    {
        match &fields[i] {
            Field::Relation(rf) => {
                if rf.fields.len() == 0 && rf.target == *tgt && crate::ast::opt_str_eq(
                    &rf.relation_name,
                    label,
                ) {
                    return Option::Some(i);
                }
            },
            Field::Scalar(_) => {},
        }
        i += 1;
    }
    Option::None
}

/// Finds the previous many-to-many list field targeting `tgt`.
fn find_prev_m2m(fields: &Vec<Field>, tgt: &String) -> (r: Option<usize>)
    ensures
        match r {
            Option::Some(i) => prev_m2m_from(fields@, tgt@, 0) == Some(i as int) && i
                < fields@.len(),
            Option::None => prev_m2m_from(fields@, tgt@, 0) is None,
        },
{
    let mut i: usize = 0;
    while i < fields.len()
        invariant
            i <= fields@.len(),
            prev_m2m_from(fields@, tgt@, 0) == prev_m2m_from(fields@, tgt@, i as int),
        decreases fields@.len() - i,
    {
        match &fields[i] {
            Field::Relation(rf) => {
                let is_list = match rf.arity {
                    FieldArity::List => true,
                    _ => false,
                };
                if rf.fields.len() == 0 && is_list && rf.target == *tgt {
                    return Option::Some(i);
                }
            },
            Field::Scalar(_) => {},
        }
        i += 1;
    }
    Option::None
}

/// Joins a model name and a column name into a canonical field name.
fn join_name(base: &String, suffix: &String) -> (r: String)
    ensures
        r@ == canonical_name(base@, suffix@),
{
    let mut s = base.clone();
    s.append("_");
    s.append(suffix.as_str());
    s
}

/// Removes one leading underscore from a join-table name.
fn strip_name(name: &String) -> (r: String)
    ensures
        r@ == stripped(name@),
{
    let s = name.as_str();
    let n = s.unicode_len();
    if n > 0 && s.get_char(0) == '_' {
        s.substring_char(1, n).to_owned()
    } else {
        name.clone()
    }
}

proof fn lemma_prev_m2m_char(fields: Seq<Field>, tgt: Seq<char>, i: int)
    requires
        0 <= i <= fields.len(),
    ensures
        match prev_m2m_from(fields, tgt, i) {
            Some(kk) => i <= kk < fields.len() && fields[kk] is Relation,
            None => true,
        },
    decreases fields.len() - i,
{
    if i < fields.len() {
        match fields[i] {
            Field::Relation(rf) => {
                if !(rf.fields.len() == 0 && rf.arity is List && rf.target@ == tgt) {
                    lemma_prev_m2m_char(fields, tgt, i + 1);
                }
            },
            Field::Scalar(_) => {
                lemma_prev_m2m_char(fields, tgt, i + 1);
            },
        }
    }
}

/// Equality of two relation fields up to allocation: every attribute
/// equal, the column lists compared by their views.
pub open spec fn rf_like(a: RelationField, b: RelationField) -> bool {
    &&& a.name == b.name
    &&& a.relation_name == b.relation_name
    &&& a.target == b.target
    &&& a.fields@ == b.fields@
    &&& a.references@ == b.references@
    &&& a.arity == b.arity
    &&& a.on_delete == b.on_delete
    &&& a.on_update == b.on_update
}

/// Copies a relation field.
pub fn dup_relation_field(rf: &RelationField) -> (r: RelationField)
    ensures
        rf_like(r, *rf),
{
    RelationField {
        name: rf.name.clone(),
        relation_name: crate::ast::dup_opt_string(&rf.relation_name),
        target: rf.target.clone(),
        fields: crate::ast::dup_strings(&rf.fields),
        references: crate::ast::dup_strings(&rf.references),
        arity: rf.arity,
        on_delete: rf.on_delete,
        on_update: rf.on_update,
    }
}

/// The relation fields owned by table `ti`, in entry order.
pub open spec fn owned_fields(rels: Seq<RelEntry>, ti: int) -> Seq<RelationField>
    decreases rels.len(),
{
    if rels.len() == 0 {
        Seq::empty()
    } else {
        owned_fields(rels.drop_last(), ti) + (if rels.last().owner == ti {
            seq![rels.last().field]
        } else {
            Seq::empty()
        })
    }
}

/// The resolver's context: the matched previous model of each table, each
/// table's output model name, and each table's output field names, all
/// aligned with the catalog's table list.
pub open spec fn ctx_ok(
    cat: CatalogSchema,
    pm: Seq<Model>,
    pot: Seq<Option<usize>>,
    ont: Seq<String>,
    oft: Seq<Vec<String>>,
) -> bool {
    &&& pot.len() == cat.tables.len()
    &&& ont.len() == cat.tables.len()
    &&& oft.len() == cat.tables.len()
    &&& forall|x: int|
        0 <= x < cat.tables.len() ==> (match #[trigger] pot[x] {
            Option::Some(m) => m < pm.len(),
            Option::None => true,
        })
    &&& forall|x: int|
        0 <= x < cat.tables.len() ==> (#[trigger] oft[x])@.len() == cat.tables[x].columns.len()
}

/// Builds the forward relation field of foreign key `fi` on table `ti`.
fn build_forward(
    cat: &CatalogSchema,
    pm: &Vec<Model>,
    pot: &Vec<Option<usize>>,
    ont: &Vec<String>,
    oft: &Vec<Vec<String>>,
    ti: usize,
    fi: usize,
) -> (e: RelEntry)
    requires
        ctx_ok(*cat, pm@, pot@, ont@, oft@),
        ti < cat.tables@.len(),
        fi < cat.tables@[ti as int].foreign_keys@.len(),
        fk_linkable(*cat, cat.tables@[ti as int].foreign_keys@[fi as int]),
        cat.tables@[ti as int].foreign_keys@[fi as int].columns@.len() >= 1,
    ensures
        forward_props(e, *cat, pm@, pot@, ont@, oft@, ti as int, fi as int),
{
    proof {
        reveal(forward_props);
    }
    let t = &cat.tables[ti];
    let fk = &t.foreign_keys[fi];
    let r = match find_table(cat, &fk.referenced_table) {
        Option::Some(r) => r,
        Option::None => {
            proof {
                assert(false);
            }
            0
        },
    };
    proof {
        crate::catalog::lemma_table_index_char(*cat, fk.referenced_table@, 0);
    }
    let fields = translate_names(t, &oft[ti], &fk.columns);
    let references = translate_names(&cat.tables[r], &oft[r], &fk.referenced_columns);
    let arity = if fk_has_nullable_check(t, fk) {
        FieldArity::Optional
    } else {
        FieldArity::Required
    };
    let on_delete = Option::Some(resolved_action(cat.dialect, fk.on_delete));
    let on_update = Option::Some(resolved_action(cat.dialect, fk.on_update));
    let (name, relation_name) = match pot[ti] {
        Option::Some(mi) => {
            match find_prev_forward(&pm[mi].fields, t, &oft[ti], fk) {
                Option::Some(pfi) => {
                    proof {
                        lemma_prev_forward_char(
                            pm@[mi as int].fields@,
                            *t,
                            oft@[ti as int]@,
                            *fk,
                            0,
                        );
                    }
                    match &pm[mi].fields[pfi] {
                        Field::Relation(prf) => (
                            prf.name.clone(),
                            crate::ast::dup_opt_string(&prf.relation_name),
                        ),
                        Field::Scalar(_) => {
                            proof {
                                assert(false);
                            }
                            (String::new(), Option::None)
                        },
                    }
                },
                Option::None => (join_name(&ont[r], &fk.columns[0]), Option::None),
            }
        },
        Option::None => (join_name(&ont[r], &fk.columns[0]), Option::None),
    };
    RelEntry {
        owner: ti,
        field: RelationField {
            name,
            relation_name,
            target: ont[r].clone(),
            fields,
            references,
            arity,
            on_delete,
            on_update,
        },
    }
}

/// Builds the back-reference field of foreign key `fi` on table `ti`.
fn build_back(
    cat: &CatalogSchema,
    pm: &Vec<Model>,
    pot: &Vec<Option<usize>>,
    ont: &Vec<String>,
    oft: &Vec<Vec<String>>,
    ti: usize,
    fi: usize,
) -> (e: RelEntry)
    requires
        ctx_ok(*cat, pm@, pot@, ont@, oft@),
        ti < cat.tables@.len(),
        fi < cat.tables@[ti as int].foreign_keys@.len(),
        fk_linkable(*cat, cat.tables@[ti as int].foreign_keys@[fi as int]),
        cat.tables@[ti as int].foreign_keys@[fi as int].referenced_columns@.len() >= 1,
    ensures
        back_props(e, *cat, pm@, pot@, ont@, oft@, ti as int, fi as int),
{
    proof {
        reveal(back_props);
    }
    let t = &cat.tables[ti];
    let fk = &t.foreign_keys[fi];
    let r = match find_table(cat, &fk.referenced_table) {
        Option::Some(r) => r,
        Option::None => {
            proof {
                assert(false);
            }
            0
        },
    };
    proof {
        crate::catalog::lemma_table_index_char(*cat, fk.referenced_table@, 0);
    }
    let arity = if fk_unique_check(t, fk) {
        FieldArity::Optional
    } else {
        FieldArity::List
    };
    let (name, relation_name) = match pot[ti] {
        Option::Some(mi) => {
            match find_prev_forward(&pm[mi].fields, t, &oft[ti], fk) {
                Option::Some(pfi) => {
                    proof {
                        lemma_prev_forward_char(
                            pm@[mi as int].fields@,
                            *t,
                            oft@[ti as int]@,
                            *fk,
                            0,
                        );
                    }
                    match &pm[mi].fields[pfi] {
                        Field::Relation(prf) => {
                            let rn = crate::ast::dup_opt_string(&prf.relation_name);
                            let nm = match pot[r] {
                                Option::Some(mr) => {
                                    match find_prev_back(
                                        &pm[mr].fields,
                                        &pm[mi].name,
                                        &prf.relation_name,
                                    ) {
                                        Option::Some(bfi) => {
                                            proof {
                                                lemma_prev_back_char(
                                                    pm@[mr as int].fields@,
                                                    pm@[mi as int].name@,
                                                    prf.relation_name,
                                                    0,
                                                );
                                            }
                                            match &pm[mr].fields[bfi] {
                                                Field::Relation(brf) => brf.name.clone(),
                                                Field::Scalar(_) => {
                                                    proof {
                                                        assert(false);
                                                    }
                                                    String::new()
                                                },
                                            }
                                        },
                                        Option::None => join_name(
                                            &ont[ti],
                                            &fk.referenced_columns[0],
                                        ),
                                    }
                                },
                                Option::None => join_name(&ont[ti], &fk.referenced_columns[0]),
                            };
                            (nm, rn)
                        },
                        Field::Scalar(_) => {
                            proof {
                                assert(false);
                            }
                            (String::new(), Option::None)
                        },
                    }
                },
                Option::None => (join_name(&ont[ti], &fk.referenced_columns[0]), Option::None),
            }
        },
        Option::None => (join_name(&ont[ti], &fk.referenced_columns[0]), Option::None),
    };
    RelEntry {
        owner: r,
        field: RelationField {
            name,
            relation_name,
            target: ont[ti].clone(),
            fields: Vec::new(),
            references: Vec::new(),
            arity,
            on_delete: Option::None,
            on_update: Option::None,
        },
    }
}

/// Builds side `k` of the join table `ti`.
fn build_m2m_side(
    cat: &CatalogSchema,
    pm: &Vec<Model>,
    pot: &Vec<Option<usize>>,
    ont: &Vec<String>,
    ti: usize,
    k: usize,
) -> (e: RelEntry)
    requires
        pot@.len() == cat.tables@.len(),
        ont@.len() == cat.tables@.len(),
        forall|x: int|
            0 <= x < cat.tables@.len() ==> (match #[trigger] pot@[x] {
                Option::Some(m) => m < pm@.len(),
                Option::None => true,
            }),
        ti < cat.tables@.len(),
        k < 2,
        is_m2m_table(cat.tables@[ti as int]),
        m2m_linkable(*cat, cat.tables@[ti as int]),
        cat.tables@[ti as int].columns@[0].name@ != cat.tables@[ti as int].columns@[1].name@,
    ensures
        m2m_side_props(e, *cat, pm@, pot@, ont@, ti as int, k as int),
{
    proof {
        reveal(m2m_side_props);
    }
    let t = &cat.tables[ti];
    let ko = 1 - k;
    let fk = if t.foreign_keys[0].columns[0] == t.columns[k].name {
        &t.foreign_keys[0]
    } else {
        &t.foreign_keys[1]
    };
    let fko = if t.foreign_keys[0].columns[0] == t.columns[ko].name {
        &t.foreign_keys[0]
    } else {
        &t.foreign_keys[1]
    };
    proof {
        assert(*fk == m2m_fk(*t, k as int));
        assert(*fko == m2m_fk(*t, 1 - k as int));
    }
    let rk = match find_table(cat, &fk.referenced_table) {
        Option::Some(r) => r,
        Option::None => {
            proof {
                assert(false);
            }
            0
        },
    };
    let ro = match find_table(cat, &fko.referenced_table) {
        Option::Some(r) => r,
        Option::None => {
            proof {
                assert(false);
            }
            0
        },
    };
    proof {
        crate::catalog::lemma_table_index_char(*cat, fk.referenced_table@, 0);
        crate::catalog::lemma_table_index_char(*cat, fko.referenced_table@, 0);
    }
    let label = strip_name(&t.name);
    if rk == ro {
        let name = join_name(&ont[rk], &t.columns[k].name);
        RelEntry {
            owner: ro,
            field: RelationField {
                name,
                relation_name: Option::Some(label),
                target: ont[rk].clone(),
                fields: Vec::new(),
                references: Vec::new(),
                arity: FieldArity::List,
                on_delete: Option::None,
                on_update: Option::None,
            },
        }
    } else {
        let carried: Option<(String, Option<String>)> = match (pot[ro], pot[rk]) {
            (Option::Some(mo), Option::Some(mk)) => {
                match find_prev_m2m(&pm[mo].fields, &pm[mk].name) {
                    Option::Some(pi) => {
                        proof {
                            lemma_prev_m2m_char(pm@[mo as int].fields@, pm@[mk as int].name@, 0);
                        }
                        match &pm[mo].fields[pi] {
                            Field::Relation(prf) => Option::Some(
                                (prf.name.clone(), crate::ast::dup_opt_string(&prf.relation_name)),
                            ),
                            Field::Scalar(_) => {
                                proof {
                                    assert(false);
                                }
                                Option::None
                            },
                        }
                    },
                    Option::None => Option::None,
                }
            },
            _ => Option::None,
        };
        let (name, relation_name) = match carried {
            Option::Some(nc) => nc,
            Option::None => (join_name(&ont[rk], &t.columns[k].name), Option::Some(label)),
        };
        RelEntry {
            owner: ro,
            field: RelationField {
                name,
                relation_name,
                target: ont[rk].clone(),
                fields: Vec::new(),
                references: Vec::new(),
                arity: FieldArity::List,
                on_delete: Option::None,
                on_update: Option::None,
            },
        }
    }
}

/// Twice the number of linkable foreign keys of `t` below `upto`.
pub open spec fn fk_count_upto(cat: CatalogSchema, t: Table, upto: int) -> int
    decreases upto,
{
    if upto <= 0 {
        0
    } else {
        fk_count_upto(cat, t, upto - 1) + if fk_linkable(cat, t.foreign_keys[upto - 1]) {
            2int
        } else {
            0int
        }
    }
}

/// How many relation entries table `ti` contributes in the foreign-key
/// pass.
pub open spec fn table_rel_count(cat: CatalogSchema, ti: int) -> int {
    if is_m2m_table(cat.tables[ti]) {
        0
    } else {
        fk_count_upto(cat, cat.tables[ti], cat.tables[ti].foreign_keys.len() as int)
    }
}

/// The entries the foreign-key pass has emitted before table `ti`.
pub open spec fn rel_count_upto(cat: CatalogSchema, ti: int) -> int
    decreases ti,
{
    if ti <= 0 {
        0
    } else {
        rel_count_upto(cat, ti - 1) + table_rel_count(cat, ti - 1)
    }
}

/// How many entries the join-table pass emits for table `ti`.
pub open spec fn m2m_pair_count(cat: CatalogSchema, ti: int) -> int {
    if is_m2m_table(cat.tables[ti]) && m2m_linkable(cat, cat.tables[ti]) {
        2
    } else {
        0
    }
}

/// The entries the join-table pass has emitted before table `ti`.
pub open spec fn m2m_count_upto(cat: CatalogSchema, ti: int) -> int
    decreases ti,
{
    if ti <= 0 {
        0
    } else {
        m2m_count_upto(cat, ti - 1) + m2m_pair_count(cat, ti - 1)
    }
}

/// All relation entries of the catalog.
pub open spec fn total_rel_count(cat: CatalogSchema) -> int {
    rel_count_upto(cat, cat.tables.len() as int) + m2m_count_upto(cat, cat.tables.len() as int)
}

/// Where the forward entry of foreign key `fi` on table `ti` stands.
pub open spec fn fk_pos(cat: CatalogSchema, ti: int, fi: int) -> int {
    rel_count_upto(cat, ti) + fk_count_upto(cat, cat.tables[ti], fi)
}

/// Where the first entry of join table `ti` stands.
pub open spec fn m2m_pos(cat: CatalogSchema, ti: int) -> int {
    rel_count_upto(cat, cat.tables.len() as int) + m2m_count_upto(cat, ti)
}

proof fn lemma_fk_count_mono(cat: CatalogSchema, t: Table, a: int, b: int)
    requires
        a <= b,
    ensures
        fk_count_upto(cat, t, a) <= fk_count_upto(cat, t, b),
    decreases b - a,
{
    if a < b {
        lemma_fk_count_mono(cat, t, a, b - 1);
    }
}

proof fn lemma_rel_count_mono(cat: CatalogSchema, a: int, b: int)
    requires
        a <= b,
    ensures
        rel_count_upto(cat, a) <= rel_count_upto(cat, b),
    decreases b - a,
{
    if a < b {
        lemma_rel_count_mono(cat, a, b - 1);
        if !is_m2m_table(cat.tables[b - 1]) {
            lemma_fk_count_mono(
                cat,
                cat.tables[b - 1],
                0,
                cat.tables[b - 1].foreign_keys.len() as int,
            );
        }
    }
}

proof fn lemma_m2m_count_mono(cat: CatalogSchema, a: int, b: int)
    requires
        a <= b,
    ensures
        m2m_count_upto(cat, a) <= m2m_count_upto(cat, b),
    decreases b - a,
{
    if a < b {
        lemma_m2m_count_mono(cat, a, b - 1);
    }
}

proof fn lemma_fk_pos_in_range(cat: CatalogSchema, t2: int, f2: int, ti: int)
    requires
        0 <= t2 < ti <= cat.tables.len(),
        !is_m2m_table(cat.tables[t2]),
        0 <= f2 < cat.tables[t2].foreign_keys.len(),
        fk_linkable(cat, cat.tables[t2].foreign_keys[f2]),
    ensures
        0 <= fk_pos(cat, t2, f2),
        fk_pos(cat, t2, f2) + 2 <= rel_count_upto(cat, ti),
{
    let t = cat.tables[t2];
    lemma_rel_count_mono(cat, 0, t2);
    lemma_fk_count_mono(cat, t, 0, f2);
    assert(fk_count_upto(cat, t, f2 + 1) == fk_count_upto(cat, t, f2) + 2);
    lemma_fk_count_mono(cat, t, f2 + 1, t.foreign_keys.len() as int);
    assert(rel_count_upto(cat, t2 + 1) == rel_count_upto(cat, t2) + table_rel_count(cat, t2));
    lemma_rel_count_mono(cat, t2 + 1, ti);
}

proof fn lemma_m2m_pos_in_range(cat: CatalogSchema, t2: int, ti: int)
    requires
        0 <= t2 < ti <= cat.tables.len(),
        is_m2m_table(cat.tables[t2]),
        m2m_linkable(cat, cat.tables[t2]),
    ensures
        0 <= m2m_pos(cat, t2),
        m2m_pos(cat, t2) + 2 <= rel_count_upto(cat, cat.tables.len() as int) + m2m_count_upto(
            cat,
            ti,
        ),
{
    lemma_rel_count_mono(cat, 0, cat.tables.len() as int);
    lemma_m2m_count_mono(cat, 0, t2);
    assert(m2m_count_upto(cat, t2 + 1) == m2m_count_upto(cat, t2) + 2);
    lemma_m2m_count_mono(cat, t2 + 1, ti);
}

/// Both entries of foreign key `f2` on table `t2` stand where the layout
/// says, with the right contents.
pub open spec fn fk_ok_at(
    rels: Seq<RelEntry>,
    cat: CatalogSchema,
    pm: Seq<Model>,
    pot: Seq<Option<usize>>,
    ont: Seq<String>,
    oft: Seq<Vec<String>>,
    t2: int,
    f2: int,
) -> bool {
    &&& forward_props(rels[fk_pos(cat, t2, f2)], cat, pm, pot, ont, oft, t2, f2)
    &&& back_props(rels[fk_pos(cat, t2, f2) + 1], cat, pm, pot, ont, oft, t2, f2)
}

/// Every foreign key of every table before `ti` has its two entries in
/// place.
pub open spec fn fks_pinned(
    rels: Seq<RelEntry>,
    cat: CatalogSchema,
    pm: Seq<Model>,
    pot: Seq<Option<usize>>,
    ont: Seq<String>,
    oft: Seq<Vec<String>>,
    ti: int,
) -> bool {
    forall|t2: int, f2: int|
        0 <= t2 < ti && !is_m2m_table(cat.tables[t2]) && 0 <= f2
            < cat.tables[t2].foreign_keys.len() && fk_linkable(
            cat,
            #[trigger] cat.tables[t2].foreign_keys[f2],
        ) ==> fk_ok_at(rels, cat, pm, pot, ont, oft, t2, f2)
}

/// Both entries of join table `t2` stand where the layout says.
pub open spec fn m2m_ok_at(
    rels: Seq<RelEntry>,
    cat: CatalogSchema,
    pm: Seq<Model>,
    pot: Seq<Option<usize>>,
    ont: Seq<String>,
    t2: int,
) -> bool {
    &&& m2m_side_props(rels[m2m_pos(cat, t2)], cat, pm, pot, ont, t2, 0)
    &&& m2m_side_props(rels[m2m_pos(cat, t2) + 1], cat, pm, pot, ont, t2, 1)
}

/// Every linkable join table before `ti` has its two entries in place.
pub open spec fn m2ms_pinned(
    rels: Seq<RelEntry>,
    cat: CatalogSchema,
    pm: Seq<Model>,
    pot: Seq<Option<usize>>,
    ont: Seq<String>,
    ti: int,
) -> bool {
    forall|t2: int|
        0 <= t2 < ti && is_m2m_table(#[trigger] cat.tables[t2]) && m2m_linkable(
            cat,
            cat.tables[t2],
        ) ==> m2m_ok_at(rels, cat, pm, pot, ont, t2)
}

/// Resolves every relation of the catalog: for each foreign key of each
/// model table whose referenced table is a model, a forward and a
/// back-reference entry; then, for each linkable join table, one list
/// entry per side.  The entries stand in catalog order at the positions
/// the layout functions give.
#[verifier::loop_isolation(false)]
#[verifier::rlimit(100)]
#[verifier::spinoff_prover]
pub fn resolve_relations(
    cat: &CatalogSchema,
    pm: &Vec<Model>,
    pot: &Vec<Option<usize>>,
    ont: &Vec<String>,
    oft: &Vec<Vec<String>>,
) -> (rels: Vec<RelEntry>)
    requires
        crate::catalog::catalog_wf(*cat),
        ctx_ok(*cat, pm@, pot@, ont@, oft@),
    ensures
        rels@.len() == total_rel_count(*cat),
        fks_pinned(rels@, *cat, pm@, pot@, ont@, oft@, cat.tables@.len() as int),
        m2ms_pinned(rels@, *cat, pm@, pot@, ont@, cat.tables@.len() as int),
{
    let mut rels: Vec<RelEntry> = Vec::new();
    let mut ti: usize = 0;
    while ti < cat.tables.len()
        invariant
            ti <= cat.tables@.len(),
            rels@.len() == rel_count_upto(*cat, ti as int),
            fks_pinned(rels@, *cat, pm@, pot@, ont@, oft@, ti as int),
        decreases cat.tables@.len() - ti,
    {
        let t = &cat.tables[ti];
        if !m2m_check(t) {
            let mut fi: usize = 0;
            while fi < t.foreign_keys.len()
                invariant
                    fi <= t.foreign_keys@.len(),
                    rels@.len() == rel_count_upto(*cat, ti as int) + fk_count_upto(
                        *cat,
                        *t,
                        fi as int,
                    ),
                    fks_pinned(rels@, *cat, pm@, pot@, ont@, oft@, ti as int),
                    forall|f2: int|
                        0 <= f2 < fi && fk_linkable(*cat, #[trigger] t.foreign_keys@[f2])
                            ==> fk_ok_at(
                            rels@,
                            *cat,
                            pm@,
                            pot@,
                            ont@,
                            oft@,
                            ti as int,
                            f2,
                        ),
                decreases t.foreign_keys@.len() - fi,
            {
                let fk = &t.foreign_keys[fi];
                let rt = find_table(cat, &fk.referenced_table);
                proof {
                    crate::catalog::lemma_table_index_char(*cat, fk.referenced_table@, 0);
                }
                let linkable = match rt {
                    Option::Some(r) => !m2m_check(&cat.tables[r]),
                    Option::None => false,
                };
                proof {
                    assert(linkable == fk_linkable(*cat, t.foreign_keys@[fi as int]));
                }
                if linkable {
                    proof {
                        assert(crate::catalog::table_wf(*cat, cat.tables@[ti as int]));
                        assert(crate::catalog::fk_wf(
                            *cat,
                            cat.tables@[ti as int],
                            cat.tables@[ti as int].foreign_keys@[fi as int],
                        ));
                    }
                    let ghost old_rels = rels@;
                    let e1 = build_forward(cat, pm, pot, ont, oft, ti, fi);
                    rels.push(e1);
                    let e2 = build_back(cat, pm, pot, ont, oft, ti, fi);
                    rels.push(e2);
                    proof {
                        lemma_fk_count_mono(*cat, *t, 0, fi as int);
                        lemma_rel_count_mono(*cat, 0, ti as int);
                        assert(fk_ok_at(rels@, *cat, pm@, pot@, ont@, oft@, ti as int, fi as int));
                        assert forall|t2: int, f2: int|
                            0 <= t2 < ti && !is_m2m_table(cat.tables@[t2]) && 0 <= f2
                                < cat.tables@[t2].foreign_keys.len() && fk_linkable(
                                *cat,
                                #[trigger] cat.tables@[t2].foreign_keys@[f2],
                            ) implies fk_ok_at(
                            rels@,
                            *cat,
                            pm@,
                            pot@,
                            ont@,
                            oft@,
                            t2,
                            f2,
                        ) by {
                            lemma_fk_pos_in_range(*cat, t2, f2, ti as int);
                            lemma_fk_count_mono(*cat, *t, 0, fi as int);
                            assert(fk_ok_at(old_rels, *cat, pm@, pot@, ont@, oft@, t2, f2));
                        }
                        assert forall|f2: int|
                            0 <= f2 < fi && fk_linkable(*cat, #[trigger] t.foreign_keys@[f2])
                                implies fk_ok_at(
                            rels@,
                            *cat,
                            pm@,
                            pot@,
                            ont@,
                            oft@,
                            ti as int,
                            f2,
                        ) by {
                            lemma_fk_count_mono(*cat, *t, f2 + 1, fi as int);
                            lemma_fk_count_mono(*cat, *t, 0, f2);
                            lemma_rel_count_mono(*cat, 0, ti as int);
                            assert(fk_ok_at(old_rels, *cat, pm@, pot@, ont@, oft@, ti as int, f2));
                        }
                    }
                }
                fi += 1;
            }
        }
        ti += 1;
    }
    proof {
        lemma_rel_count_mono(*cat, 0, cat.tables@.len() as int);
    }
    let ghost regular_len = rels@.len() as int;
    let mut tj: usize = 0;
    while tj < cat.tables.len()
        invariant
            tj <= cat.tables@.len(),
            rels@.len() == rel_count_upto(*cat, cat.tables@.len() as int) + m2m_count_upto(
                *cat,
                tj as int,
            ),
            fks_pinned(rels@, *cat, pm@, pot@, ont@, oft@, cat.tables@.len() as int),
            m2ms_pinned(rels@, *cat, pm@, pot@, ont@, tj as int),
        decreases cat.tables@.len() - tj,
    {
        let t = &cat.tables[tj];
        if m2m_check(t) {
            let fk0 = if t.foreign_keys[0].columns[0] == t.columns[0].name {
                &t.foreign_keys[0]
            } else {
                &t.foreign_keys[1]
            };
            let fk1 = if t.foreign_keys[0].columns[0] == t.columns[1].name {
                &t.foreign_keys[0]
            } else {
                &t.foreign_keys[1]
            };
            proof {
                assert(*fk0 == m2m_fk(*t, 0));
                assert(*fk1 == m2m_fk(*t, 1));
            }
            let rt0 = find_table(cat, &fk0.referenced_table);
            let rt1 = find_table(cat, &fk1.referenced_table);
            proof {
                crate::catalog::lemma_table_index_char(*cat, fk0.referenced_table@, 0);
                crate::catalog::lemma_table_index_char(*cat, fk1.referenced_table@, 0);
            }
            let link0 = match rt0 {
                Option::Some(r) => !m2m_check(&cat.tables[r]),
                Option::None => false,
            };
            let link1 = match rt1 {
                Option::Some(r) => !m2m_check(&cat.tables[r]),
                Option::None => false,
            };
            proof {
                assert(link0 == fk_linkable(*cat, m2m_fk(*t, 0)));
                assert(link1 == fk_linkable(*cat, m2m_fk(*t, 1)));
            }
            if link0 && link1 {
                proof {
                    assert(crate::catalog::table_wf(*cat, cat.tables@[tj as int]));
                }
                let ghost old_rels = rels@;
                let e1 = build_m2m_side(cat, pm, pot, ont, tj, 0);
                rels.push(e1);
                let e2 = build_m2m_side(cat, pm, pot, ont, tj, 1);
                rels.push(e2);
                proof {
                    lemma_m2m_count_mono(*cat, 0, tj as int);
                    assert(m2m_ok_at(rels@, *cat, pm@, pot@, ont@, tj as int));
                    assert forall|t2: int, f2: int|
                        0 <= t2 < cat.tables@.len() && !is_m2m_table(cat.tables@[t2]) && 0 <= f2
                            < cat.tables@[t2].foreign_keys.len() && fk_linkable(
                            *cat,
                            #[trigger] cat.tables@[t2].foreign_keys@[f2],
                        ) implies fk_ok_at(
                        rels@,
                        *cat,
                        pm@,
                        pot@,
                        ont@,
                        oft@,
                        t2,
                        f2,
                    ) by {
                        lemma_fk_pos_in_range(*cat, t2, f2, cat.tables@.len() as int);
                        lemma_m2m_count_mono(*cat, 0, tj as int);
                        assert(fk_ok_at(old_rels, *cat, pm@, pot@, ont@, oft@, t2, f2));
                    }
                    assert forall|t2: int|
                        0 <= t2 < tj && is_m2m_table(#[trigger] cat.tables@[t2]) && m2m_linkable(
                            *cat,
                            cat.tables@[t2],
                        ) implies m2m_ok_at(rels@, *cat, pm@, pot@, ont@, t2) by {
                        lemma_m2m_pos_in_range(*cat, t2, tj as int);
                        assert(m2m_ok_at(old_rels, *cat, pm@, pot@, ont@, t2));
                    }
                }
            }
        }
        tj += 1;
    }
    rels
}

} // verus!

