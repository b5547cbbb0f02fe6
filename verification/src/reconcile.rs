//! The schema assembler: a pure, total function from a catalog schema and
//! the previous description to the merged description and its warnings.
//!
//! Matching runs per category: models with the catalog's model tables
//! (join tables excluded), enums with the catalog's enum types, and, per
//! matched pair, fields with columns and values with members.  Matched
//! pairs merge; unmatched catalog entities come in fresh; unmatched
//! previous entities are dropped.  When two previous entities carry a
//! mapped name equal to the same catalog name, the whole reconciliation
//! fails with an error and no partial output.

use vstd::prelude::*;
use crate::ast::{Datamodel, Enum, EnumValue, Field, Model, ScalarField};
use crate::catalog::{catalog_wf, CatalogSchema, Table};
use crate::matching::{
    any_ambiguous, match_entities, outcome_at, MatchOutcome,
};
use crate::merge::{merged_col_field, scalar_fields};
use crate::order::output_positions;
use crate::relations::{is_m2m_table, RelEntry};
use crate::warnings::{collect_warnings, warnings_ok, Warning};

verus! {

/// Which category an ambiguity struck.
#[derive(Clone, Copy, Debug, PartialEq, Eq, Structural)]
pub enum EntityKind {
    Model,
    Field,
    Enum,
    EnumValue,
}

/// The fatal failure of a reconciliation: two previous entities of one
/// category carry a mapped name equal to the same catalog name.
#[derive(Clone, Debug, PartialEq, Eq)]
pub struct ReconcileError {
    pub kind: EntityKind,
    pub name: String,
}

proof fn lemma_real_positions_mono(cat: CatalogSchema, a: int, b: int)
    requires
        a <= b,
    ensures
        real_positions_upto(cat, a).len() <= real_positions_upto(cat, b).len(),
    decreases b - a,
{
    if a < b {
        lemma_real_positions_mono(cat, a, b - 1);
    }
}

/// The table indices below `upto` that become models, in catalog order.
pub open spec fn real_positions_upto(cat: CatalogSchema, upto: int) -> Seq<int>
    decreases upto,
{
    if upto <= 0 {
        Seq::empty()
    } else {
        real_positions_upto(cat, upto - 1) + (if !is_m2m_table(cat.tables[upto - 1]) {
            seq![upto - 1]
        } else {
            Seq::empty()
        })
    }
}

/// All table indices that become models.
pub open spec fn real_positions(cat: CatalogSchema) -> Seq<int> {
    real_positions_upto(cat, cat.tables.len() as int)
}

/// The catalog names the model matcher sees: the model tables' names.
pub open spec fn model_cats(cat: CatalogSchema) -> Seq<String> {
    Seq::new(real_positions(cat).len(), |p: int| cat.tables[real_positions(cat)[p]].name)
}

/// The catalog names the enum matcher sees.
pub open spec fn enum_cats(cat: CatalogSchema) -> Seq<String> {
    Seq::new(cat.enums.len() as nat, |e: int| cat.enums[e].name)
}

/// The model matching outcome of each model table, by real position.
pub open spec fn model_outcomes(cat: CatalogSchema, prev: Datamodel) -> Seq<MatchOutcome> {
    Seq::new(
        model_cats(cat).len(),
        |p: int| outcome_at(prev.models@, model_cats(cat), false, p),
    )
}

/// The enum matching outcome of each catalog enum.
pub open spec fn enum_outcomes(cat: CatalogSchema, prev: Datamodel) -> Seq<MatchOutcome> {
    Seq::new(enum_cats(cat).len(), |e: int| outcome_at(prev.enums@, enum_cats(cat), false, e))
}

/// The previous model matched to table `ti`, if any.
pub open spec fn pot_at(cat: CatalogSchema, prev: Datamodel, ti: int) -> Option<usize> {
    if is_m2m_table(cat.tables[ti]) {
        Option::None
    } else {
        match model_outcomes(cat, prev)[real_positions_upto(cat, ti).len() as int] {
            MatchOutcome::Matched { prev: m, .. } => Option::Some(m),
            MatchOutcome::Fresh => Option::None,
        }
    }
}

/// Whether the model of table `ti` was renamed via the mapped-name pass.
pub open spec fn renamed_at(cat: CatalogSchema, prev: Datamodel, ti: int) -> bool {
    if is_m2m_table(cat.tables[ti]) {
        false
    } else {
        match model_outcomes(cat, prev)[real_positions_upto(cat, ti).len() as int] {
            MatchOutcome::Matched { renamed, .. } => renamed,
            MatchOutcome::Fresh => false,
        }
    }
}

/// The output model name of table `ti`: the previous name of its matched
/// model, or the table name.
pub open spec fn ont_at(cat: CatalogSchema, prev: Datamodel, ti: int) -> String {
    match pot_at(cat, prev, ti) {
        Option::Some(m) => prev.models@[m as int].name,
        Option::None => cat.tables[ti].name,
    }
}

/// The previous scalar fields the columns of table `ti` are matched
/// against.
pub open spec fn prev_scalars_at(cat: CatalogSchema, prev: Datamodel, ti: int) -> Seq<ScalarField> {
    match pot_at(cat, prev, ti) {
        Option::Some(m) => scalar_fields(prev.models@[m as int].fields@),
        Option::None => Seq::empty(),
    }
}

/// The column names of table `ti`, as the field matcher sees them.
pub open spec fn col_cats(cat: CatalogSchema, ti: int) -> Seq<String> {
    Seq::new(cat.tables[ti].columns.len() as nat, |ci: int| cat.tables[ti].columns[ci].name)
}

/// The field matching outcome of each column of table `ti`.
pub open spec fn field_outcomes_at(cat: CatalogSchema, prev: Datamodel, ti: int) -> Seq<
    MatchOutcome,
> {
    Seq::new(
        cat.tables[ti].columns.len() as nat,
        |ci: int| outcome_at(prev_scalars_at(cat, prev, ti), col_cats(cat, ti), false, ci),
    )
}

/// The output scalar-field names of table `ti`, in column order.
pub open spec fn oft_at(cat: CatalogSchema, prev: Datamodel, ti: int) -> Seq<String> {
    Seq::new(
        cat.tables[ti].columns.len() as nat,
        |ci: int|
            merged_col_field(
                cat.tables[ti],
                prev_scalars_at(cat, prev, ti),
                field_outcomes_at(cat, prev, ti),
                ci,
            ).name,
    )
}

/// The previous enum matched to catalog enum `e`, if any.
pub open spec fn prev_enum_at(cat: CatalogSchema, prev: Datamodel, e: int) -> Option<usize> {
    match enum_outcomes(cat, prev)[e] {
        MatchOutcome::Matched { prev: m, .. } => Option::Some(m),
        MatchOutcome::Fresh => Option::None,
    }
}

/// The previous values the members of catalog enum `e` are matched
/// against.
pub open spec fn prev_values_at(cat: CatalogSchema, prev: Datamodel, e: int) -> Seq<EnumValue> {
    match prev_enum_at(cat, prev, e) {
        Option::Some(m) => prev.enums@[m as int].values@,
        Option::None => Seq::empty(),
    }
}

/// The value matching outcome of each member of catalog enum `e`.  A
/// member that is not a valid identifier can only be matched via the
/// mapped-name pass.
pub open spec fn value_outcomes_at(cat: CatalogSchema, prev: Datamodel, e: int) -> Seq<
    MatchOutcome,
> {
    Seq::new(
        cat.enums[e].values.len() as nat,
        |vi: int| outcome_at(prev_values_at(cat, prev, e), cat.enums[e].values@, true, vi),
    )
}

/// Whether some category's mapped-name matching is ambiguous: the one
/// condition under which a reconciliation fails.
pub open spec fn reconcile_ambiguous(cat: CatalogSchema, prev: Datamodel) -> bool {
    ||| any_ambiguous(prev.models@, model_cats(cat), false)
    ||| any_ambiguous(prev.enums@, enum_cats(cat), false)
    ||| exists|ti: int|
        0 <= ti < cat.tables.len() && any_ambiguous(
            prev_scalars_at(cat, prev, ti),
            #[trigger] col_cats(cat, ti),
            false,
        )
    ||| exists|e: int|
        0 <= e < cat.enums.len() && any_ambiguous(
            prev_values_at(cat, prev, e),
            (#[trigger] cat.enums[e]).values@,
            true,
        )
}

/// Scans the catalog: which tables are join tables, which are model
/// tables, and the model tables' names for the matcher.
fn scan_tables(cat: &CatalogSchema) -> (r: (Vec<bool>, Vec<usize>, Vec<String>))
    ensures
        r.0@.len() == cat.tables@.len(),
        forall|ti: int|
            0 <= ti < cat.tables@.len() ==> r.0@[ti] == is_m2m_table(cat.tables@[ti]),
        r.1@.len() == real_positions(*cat).len(),
        forall|p: int|
            0 <= p < r.1@.len() ==> (#[trigger] r.1@[p]) as int == real_positions(*cat)[p]
                && r.1@[p] < cat.tables@.len(),
        r.2@ == model_cats(*cat),
{
    let mut m2m_flags: Vec<bool> = Vec::new();
    let mut real_idx: Vec<usize> = Vec::new();
    let mut cats_m: Vec<String> = Vec::new();
    let mut ti: usize = 0;
    while ti < cat.tables.len()
        invariant
            ti <= cat.tables@.len(),
            m2m_flags@.len() == ti,
            forall|x: int| 0 <= x < ti ==> m2m_flags@[x] == is_m2m_table(cat.tables@[x]),
            real_idx@.len() == real_positions_upto(*cat, ti as int).len(),
            forall|p: int|
                0 <= p < real_idx@.len() ==> (#[trigger] real_idx@[p]) as int
                    == real_positions_upto(*cat, ti as int)[p] && real_idx@[p] < cat.tables@.len(),
            cats_m@.len() == real_idx@.len(),
            forall|p: int|
                0 <= p < cats_m@.len() ==> #[trigger] cats_m@[p] == cat.tables@[real_positions_upto(
                    *cat,
                    ti as int,
                )[p]].name,
        decreases cat.tables@.len() - ti,
    {
        let flag = crate::relations::m2m_check(&cat.tables[ti]);
        m2m_flags.push(flag);
        if !flag {
            real_idx.push(ti);
            cats_m.push(cat.tables[ti].name.clone());
        }
        ti += 1;
    }
    proof {
        assert(cats_m@ =~= model_cats(*cat));
    }
    (m2m_flags, real_idx, cats_m)
}

/// Prepares every table: its matched previous model, its output model
/// name, its merged scalar fields and their names.  Fails when a table's
/// field matching is ambiguous.
#[verifier::loop_isolation(false)]
#[verifier::rlimit(60)]
fn prepare_tables(
    cat: &CatalogSchema,
    prev: &Datamodel,
    m2m_flags: &Vec<bool>,
    mo: &Vec<MatchOutcome>,
) -> (r: Result<
    (Vec<Option<usize>>, Vec<String>, Vec<Vec<String>>, Vec<Vec<ScalarField>>, Vec<bool>),
    ReconcileError,
>)
    requires
        catalog_wf(*cat),
        m2m_flags@.len() == cat.tables@.len(),
        forall|x: int| 0 <= x < cat.tables@.len() ==> m2m_flags@[x] == is_m2m_table(cat.tables@[x]),
        mo@.len() == model_cats(*cat).len(),
        forall|p: int| 0 <= p < mo@.len() ==> mo@[p] == model_outcomes(*cat, *prev)[p],
    ensures
        match r {
            Result::Ok(out) => {
                &&& out.0@.len() == cat.tables@.len()
                &&& forall|ti: int|
                    0 <= ti < cat.tables@.len() ==> out.0@[ti] == pot_at(*cat, *prev, ti)
                &&& forall|ti: int|
                    0 <= ti < cat.tables@.len() ==> (match #[trigger] out.0@[ti] {
                        Option::Some(m) => m < prev.models@.len(),
                        Option::None => true,
                    })
                &&& out.4@.len() == cat.tables@.len()
                &&& forall|ti: int|
                    0 <= ti < cat.tables@.len() ==> out.4@[ti] == renamed_at(*cat, *prev, ti)
                &&& out.1@.len() == cat.tables@.len()
                &&& forall|ti: int|
                    0 <= ti < cat.tables@.len() ==> out.1@[ti] == ont_at(*cat, *prev, ti)
                &&& out.2@.len() == cat.tables@.len()
                &&& forall|ti: int|
                    0 <= ti < cat.tables@.len() ==> (#[trigger] out.2@[ti])@ == oft_at(
                        *cat,
                        *prev,
                        ti,
                    )
                &&& out.3@.len() == cat.tables@.len()
                &&& forall|ti: int|
                    0 <= ti < cat.tables@.len() ==> (#[trigger] out.3@[ti])@
                        == Seq::new(
                        cat.tables@[ti].columns@.len(),
                        |ci: int|
                            merged_col_field(
                                cat.tables@[ti],
                                prev_scalars_at(*cat, *prev, ti),
                                field_outcomes_at(*cat, *prev, ti),
                                ci,
                            ),
                    )
                &&& forall|ti: int|
                    0 <= ti < cat.tables@.len() ==> !any_ambiguous(
                        prev_scalars_at(*cat, *prev, ti),
                        #[trigger] col_cats(*cat, ti),
                        false,
                    )
            },
            Result::Err(e) => e.kind == EntityKind::Field && exists|ti: int, j: int|
                0 <= ti < cat.tables@.len() && 0 <= j < col_cats(*cat, ti).len()
                    && crate::matching::ambiguous_name(
                    prev_scalars_at(*cat, *prev, ti),
                    col_cats(*cat, ti),
                    false,
                    (#[trigger] col_cats(*cat, ti)[j])@,
                ) && e.name@ == col_cats(*cat, ti)[j]@,
        },
{
    let mut pot: Vec<Option<usize>> = Vec::new();
    let mut ont: Vec<String> = Vec::new();
    let mut oft: Vec<Vec<String>> = Vec::new();
    let mut sfs: Vec<Vec<ScalarField>> = Vec::new();
    let mut prt: Vec<bool> = Vec::new();
    let mut p: usize = 0;
    let mut ti: usize = 0;
    while ti < cat.tables.len()
        invariant
            ti <= cat.tables@.len(),
            p == real_positions_upto(*cat, ti as int).len(),
            pot@.len() == ti,
            forall|x: int| 0 <= x < ti ==> pot@[x] == pot_at(*cat, *prev, x),
            forall|x: int|
                0 <= x < ti ==> (match #[trigger] pot@[x] {
                    Option::Some(m) => m < prev.models@.len(),
                    Option::None => true,
                }),
            prt@.len() == ti,
            forall|x: int| 0 <= x < ti ==> prt@[x] == renamed_at(*cat, *prev, x),
            ont@.len() == ti,
            forall|x: int| 0 <= x < ti ==> ont@[x] == ont_at(*cat, *prev, x),
            oft@.len() == ti,
            forall|x: int| 0 <= x < ti ==> (#[trigger] oft@[x])@ == oft_at(*cat, *prev, x),
            sfs@.len() == ti,
            forall|x: int|
                0 <= x < ti ==> (#[trigger] sfs@[x])@ == Seq::new(
                    cat.tables@[x].columns@.len(),
                    |ci: int|
                        merged_col_field(
                            cat.tables@[x],
                            prev_scalars_at(*cat, *prev, x),
                            field_outcomes_at(*cat, *prev, x),
                            ci,
                        ),
                ),
            forall|x: int|
                0 <= x < ti ==> !any_ambiguous(
                    prev_scalars_at(*cat, *prev, x),
                    #[trigger] col_cats(*cat, x),
                    false,
                ),
        decreases cat.tables@.len() - ti,
    {
        let t = &cat.tables[ti];
        let ghost gti = ti as int;
        // The matched previous model of this table.
        let this_pot: Option<usize>;
        let this_ont: String;
        let this_ren: bool;
        let mut ps: Vec<ScalarField>;
        if m2m_flags[ti] {
            this_pot = Option::None;
            this_ont = t.name.clone();
            this_ren = false;
            ps = Vec::new();
        } else {
            proof {
                assert(real_positions_upto(*cat, gti + 1).len() == p + 1);
                lemma_real_positions_mono(*cat, gti + 1, cat.tables@.len() as int);
                assert(mo.len() == mo@.len());
                assert(p < mo@.len());
                assert(mo@[p as int] == model_outcomes(*cat, *prev)[p as int]);
                assert(prev.models.len() == prev.models@.len());
                crate::matching::lemma_outcome_valid(prev.models@, model_cats(*cat), false, p as int);
            }
            match mo[p] {
                MatchOutcome::Matched { prev: m, renamed } => {
                    this_pot = Option::Some(m);
                    this_ont = prev.models[m].name.clone();
                    this_ren = renamed;
                    ps = crate::merge::scalar_fields_of(&prev.models[m].fields);
                },
                MatchOutcome::Fresh => {
                    this_pot = Option::None;
                    this_ont = t.name.clone();
                    this_ren = false;
                    ps = Vec::new();
                },
            }
            p += 1;
        }
        proof {
            assert(real_positions_upto(*cat, gti + 1).len() == p);
            assert(this_pot == pot_at(*cat, *prev, gti));
            assert(this_ont == ont_at(*cat, *prev, gti));
            assert(this_ren == renamed_at(*cat, *prev, gti));
            assert(ps@ =~= prev_scalars_at(*cat, *prev, gti));
        }
        // Match columns against the previous scalar fields.
        let mut colcats: Vec<String> = Vec::new();
        let mut ci: usize = 0;
        while ci < t.columns.len()
            invariant
                ci <= t.columns@.len(),
                colcats@.len() == ci,
                forall|x: int| 0 <= x < ci ==> colcats@[x] == t.columns@[x].name,
            decreases t.columns@.len() - ci,
        {
            colcats.push(t.columns[ci].name.clone());
            ci += 1;
        }
        proof {
            assert(colcats@ =~= col_cats(*cat, gti));
        }
        let fo = match match_entities(&ps, &colcats, false) {
            Result::Ok(fo) => fo,
            Result::Err(j) => {
                proof {
                    assert(crate::matching::ambiguous_name(
                        prev_scalars_at(*cat, *prev, gti),
                        col_cats(*cat, gti),
                        false,
                        col_cats(*cat, gti)[j as int]@,
                    ));
                }
                return Result::Err(
                    ReconcileError { kind: EntityKind::Field, name: colcats[j].clone() },
                );
            },
        };
        proof {
            assert(fo@ =~= field_outcomes_at(*cat, *prev, gti));
            assert forall|x: int| 0 <= x < fo@.len() implies match #[trigger] fo@[x] {
                MatchOutcome::Matched { prev: i, .. } => i < ps@.len(),
                MatchOutcome::Fresh => true,
            } by {
                crate::matching::lemma_outcome_valid(ps@, colcats@, false, x);
            }
        }
        let sf = crate::merge::build_scalar_fields(t, &ps, &fo);
        let mut names: Vec<String> = Vec::new();
        let mut ci2: usize = 0;
        while ci2 < sf.len()
            invariant
                ci2 <= sf@.len(),
                names@.len() == ci2,
                forall|x: int| 0 <= x < ci2 ==> names@[x] == sf@[x].name,
            decreases sf@.len() - ci2,
        {
            names.push(sf[ci2].name.clone());
            ci2 += 1;
        }
        proof {
            assert(sf@ =~= Seq::new(
                cat.tables@[gti].columns@.len(),
                |ci: int|
                    merged_col_field(
                        cat.tables@[gti],
                        prev_scalars_at(*cat, *prev, gti),
                        field_outcomes_at(*cat, *prev, gti),
                        ci,
                    ),
            ));
            assert(names@ =~= oft_at(*cat, *prev, gti));
        }
        pot.push(this_pot);
        ont.push(this_ont);
        oft.push(names);
        sfs.push(sf);
        prt.push(this_ren);
        ti += 1;
    }
    Result::Ok((pot, ont, oft, sfs, prt))
}

/// What the head of an output model holds: the name and mapping from the
/// matcher's outcome, the virtual attributes from the matched previous
/// model.
pub open spec fn model_header_ok(m: Model, cat: CatalogSchema, prev: Datamodel, ti: int) -> bool {
    &&& m.name == ont_at(cat, prev, ti)
    &&& (if renamed_at(cat, prev, ti) {
        m.mapped_name == Option::Some(cat.tables[ti].name)
    } else {
        m.mapped_name is None
    })
    &&& (match pot_at(cat, prev, ti) {
        Option::Some(pm) => m.doc == prev.models@[pm as int].doc && m.ignored
            == prev.models@[pm as int].ignored,
        Option::None => m.doc is None && !m.ignored,
    })
}

/// The scalar prefix of an output model's fields: one merged field per
/// catalog column, in column order.
pub open spec fn model_scalars_ok(m: Model, cat: CatalogSchema, prev: Datamodel, ti: int) -> bool {
    &&& m.fields@.len() >= cat.tables[ti].columns.len()
    &&& forall|ci: int|
        0 <= ci < cat.tables[ti].columns.len() ==> #[trigger] m.fields@[ci] == Field::Scalar(
            merged_col_field(
                cat.tables[ti],
                prev_scalars_at(cat, prev, ti),
                field_outcomes_at(cat, prev, ti),
                ci,
            ),
        )
}

/// The id fields of an output model: the catalog primary key, translated
/// to field names.
pub open spec fn model_ids_ok(m: Model, cat: CatalogSchema, prev: Datamodel, ti: int) -> bool {
    match cat.tables[ti].primary_key {
        Option::Some(pk) => m.id_fields@.len() == pk@.len() && forall|k: int|
            0 <= k < pk@.len() ==> (#[trigger] m.id_fields@[k])@
                == crate::relations::field_name_of_col(
                cat.tables[ti],
                oft_at(cat, prev, ti),
                pk@[k]@,
            ),
        Option::None => m.id_fields@.len() == 0,
    }
}

/// One output index: the catalog index with its columns translated to
/// field names.
pub open spec fn index_translated(
    a: crate::catalog::Index,
    t: Table,
    names: Seq<String>,
    b: crate::catalog::Index,
) -> bool {
    &&& a.name@ == b.name@
    &&& a.unique == b.unique
    &&& a.columns@.len() == b.columns@.len()
    &&& forall|k: int|
        0 <= k < b.columns@.len() ==> (#[trigger] a.columns@[k])@
            == crate::relations::field_name_of_col(t, names, b.columns@[k]@)
}

/// The indexes of an output model: the catalog indexes, translated.
pub open spec fn model_indexes_ok(m: Model, cat: CatalogSchema, prev: Datamodel, ti: int) -> bool {
    &&& m.indexes@.len() == cat.tables[ti].indexes@.len()
    &&& forall|x: int|
        0 <= x < m.indexes@.len() ==> index_translated(
            #[trigger] m.indexes@[x],
            cat.tables[ti],
            oft_at(cat, prev, ti),
            cat.tables[ti].indexes@[x],
        )
}

/// The relation suffix of an output model's fields: exactly the resolved
/// entries owned by its table, in entry order.
pub open spec fn model_rels_ok(m: Model, cat: CatalogSchema, rels: Seq<RelEntry>, ti: int) -> bool {
    let ncols = cat.tables[ti].columns.len() as int;
    let own = crate::relations::owned_fields(rels, ti);
    &&& m.fields@.len() == ncols + own.len()
    &&& forall|x: int|
        0 <= x < own.len() ==> ((#[trigger] m.fields@[ncols + x]) matches Field::Relation(rf)
            && crate::relations::rf_like(rf, own[x]))
}

/// The previous model matched to each table, as the relation resolver
/// sees it.
pub open spec fn pot_seq(cat: CatalogSchema, prev: Datamodel) -> Seq<Option<usize>> {
    Seq::new(cat.tables.len() as nat, |ti: int| pot_at(cat, prev, ti))
}

/// The output model name of each table.
pub open spec fn ont_seq(cat: CatalogSchema, prev: Datamodel) -> Seq<String> {
    Seq::new(cat.tables.len() as nat, |ti: int| ont_at(cat, prev, ti))
}

/// The output field names of each table, as held by the resolver.
pub open spec fn oft_seq_ok(oftv: Seq<Vec<String>>, cat: CatalogSchema, prev: Datamodel) -> bool {
    &&& oftv.len() == cat.tables.len()
    &&& forall|ti: int|
        0 <= ti < cat.tables.len() ==> (#[trigger] oftv[ti])@ == oft_at(cat, prev, ti)
}

/// The resolved relation entries of a reconciliation: the full layout of
/// the relation resolver over the derived context.
pub open spec fn rels_ok(
    rels: Seq<RelEntry>,
    cat: CatalogSchema,
    prev: Datamodel,
    oftv: Seq<Vec<String>>,
) -> bool {
    &&& rels.len() == crate::relations::total_rel_count(cat)
    &&& crate::relations::fks_pinned(
        rels,
        cat,
        prev.models@,
        pot_seq(cat, prev),
        ont_seq(cat, prev),
        oftv,
        cat.tables.len() as int,
    )
    &&& crate::relations::m2ms_pinned(
        rels,
        cat,
        prev.models@,
        pot_seq(cat, prev),
        ont_seq(cat, prev),
        cat.tables.len() as int,
    )
}

/// What the merged models are: one per output position, in output order,
/// each pinned by the merge and relation policies through its table.
pub open spec fn models_ok(dm: Datamodel, cat: CatalogSchema, prev: Datamodel) -> bool {
    let ord = output_positions(model_outcomes(cat, prev), prev.models@.len() as int);
    &&& dm.models@.len() == ord.len()
    &&& forall|k: int|
        0 <= k < ord.len() ==> model_header_ok(
            #[trigger] dm.models@[k],
            cat,
            prev,
            real_positions(cat)[ord[k]],
        ) && model_scalars_ok(dm.models@[k], cat, prev, real_positions(cat)[ord[k]])
            && model_ids_ok(dm.models@[k], cat, prev, real_positions(cat)[ord[k]])
            && model_indexes_ok(dm.models@[k], cat, prev, real_positions(cat)[ord[k]])
    &&& exists|rels: Seq<RelEntry>, oftv: Seq<Vec<String>>|
        #[trigger] rels_ok(rels, cat, prev, oftv) && oft_seq_ok(oftv, cat, prev) && (forall|k: int|
            0 <= k < ord.len() ==> model_rels_ok(
                #[trigger] dm.models@[k],
                cat,
                rels,
                real_positions(cat)[ord[k]],
            ))
}

/// What the head of an output enum holds.
pub open spec fn enum_header_ok(x: Enum, cat: CatalogSchema, prev: Datamodel, e: int) -> bool {
    match enum_outcomes(cat, prev)[e] {
        MatchOutcome::Matched { prev: pm, renamed } => {
            &&& x.name == prev.enums@[pm as int].name
            &&& (if renamed {
                x.mapped_name == Option::Some(cat.enums[e].name)
            } else {
                x.mapped_name is None
            })
            &&& x.doc == prev.enums@[pm as int].doc
        },
        MatchOutcome::Fresh => x.name == cat.enums[e].name && x.mapped_name is None && x.doc
            is None,
    }
}

/// The values of an output enum: one merged value per catalog member, in
/// member order.
pub open spec fn enum_values_ok(x: Enum, cat: CatalogSchema, prev: Datamodel, e: int) -> bool {
    &&& x.values@.len() == cat.enums[e].values@.len()
    &&& forall|vi: int|
        0 <= vi < x.values@.len() ==> #[trigger] x.values@[vi] == (match value_outcomes_at(
            cat,
            prev,
            e,
        )[vi] {
            MatchOutcome::Matched { prev: pv, renamed } => crate::merge::merged_value(
                cat.enums[e].values@[vi],
                prev_values_at(cat, prev, e)[pv as int],
                renamed,
            ),
            MatchOutcome::Fresh => crate::merge::fresh_value(cat.enums[e].values@[vi]),
        })
}

/// What the merged enums are: one per output position, in output order.
pub open spec fn enums_ok(dm: Datamodel, cat: CatalogSchema, prev: Datamodel) -> bool {
    let ord = output_positions(enum_outcomes(cat, prev), prev.enums@.len() as int);
    &&& dm.enums@.len() == ord.len()
    &&& forall|k: int|
        0 <= k < ord.len() ==> enum_header_ok(#[trigger] dm.enums@[k], cat, prev, ord[k])
            && enum_values_ok(dm.enums@[k], cat, prev, ord[k])
}

/// Merges every catalog enum, in catalog order.  Fails when an enum's
/// value matching is ambiguous.
#[verifier::loop_isolation(false)]
#[verifier::rlimit(60)]
fn prepare_enums(cat: &CatalogSchema, prev: &Datamodel, eo: &Vec<MatchOutcome>) -> (r: Result<
    Vec<Enum>,
    ReconcileError,
>)
    requires
        eo@.len() == cat.enums@.len(),
        forall|e: int| 0 <= e < eo@.len() ==> eo@[e] == enum_outcomes(*cat, *prev)[e],
    ensures
        match r {
            Result::Ok(out) => {
                &&& out@.len() == cat.enums@.len()
                &&& forall|e: int|
                    0 <= e < cat.enums@.len() ==> enum_header_ok(#[trigger] out@[e], *cat, *prev, e)
                        && enum_values_ok(out@[e], *cat, *prev, e)
                &&& forall|e: int|
                    0 <= e < cat.enums@.len() ==> !any_ambiguous(
                        prev_values_at(*cat, *prev, e),
                        (#[trigger] cat.enums@[e]).values@,
                        true,
                    )
            },
            Result::Err(err) => err.kind == EntityKind::EnumValue && exists|e: int, j: int|
                0 <= e < cat.enums@.len() && 0 <= j < cat.enums@[e].values@.len()
                    && crate::matching::ambiguous_name(
                    prev_values_at(*cat, *prev, e),
                    cat.enums@[e].values@,
                    true,
                    (#[trigger] cat.enums@[e].values@[j])@,
                ) && err.name@ == cat.enums@[e].values@[j]@,
        },
{
    let mut out: Vec<Enum> = Vec::new();
    let mut e: usize = 0;
    while e < cat.enums.len()
        invariant
            e <= cat.enums@.len(),
            out@.len() == e,
            forall|x: int|
                0 <= x < e ==> enum_header_ok(#[trigger] out@[x], *cat, *prev, x)
                    && enum_values_ok(out@[x], *cat, *prev, x),
            forall|x: int|
                0 <= x < e ==> !any_ambiguous(
                    prev_values_at(*cat, *prev, x),
                    (#[trigger] cat.enums@[x]).values@,
                    true,
                ),
        decreases cat.enums@.len() - e,
    {
        let ce = &cat.enums[e];
        let ghost ge = e as int;
        proof {
            assert(prev.enums.len() == prev.enums@.len());
            crate::matching::lemma_outcome_valid(prev.enums@, enum_cats(*cat), false, ge);
            assert(eo@[ge] == enum_outcomes(*cat, *prev)[ge]);
        }
        let name: String;
        let mapped_name: Option<String>;
        let doc: Option<String>;
        let pvals: &Vec<EnumValue>;
        let empty_vals: Vec<EnumValue> = Vec::new();
        match eo[e] {
            MatchOutcome::Matched { prev: pm, renamed } => {
                name = prev.enums[pm].name.clone();
                mapped_name = if renamed {
                    Option::Some(ce.name.clone())
                } else {
                    Option::None
                };
                doc = crate::ast::dup_opt_string(&prev.enums[pm].doc);
                pvals = &prev.enums[pm].values;
            },
            MatchOutcome::Fresh => {
                name = ce.name.clone();
                mapped_name = Option::None;
                doc = Option::None;
                pvals = &empty_vals;
            },
        }
        proof {
            assert(pvals@ =~= prev_values_at(*cat, *prev, ge));
        }
        let vo = match match_entities(pvals, &ce.values, true) {
            Result::Ok(vo) => vo,
            Result::Err(j) => {
                proof {
                    assert(crate::matching::ambiguous_name(
                        prev_values_at(*cat, *prev, ge),
                        cat.enums@[ge].values@,
                        true,
                        cat.enums@[ge].values@[j as int]@,
                    ));
                }
                return Result::Err(
                    ReconcileError { kind: EntityKind::EnumValue, name: ce.values[j].clone() },
                );
            },
        };
        proof {
            assert(vo@ =~= value_outcomes_at(*cat, *prev, ge));
        }
        let mut values: Vec<EnumValue> = Vec::new();
        let mut vi: usize = 0;
        while vi < ce.values.len()
            invariant
                vi <= ce.values@.len(),
                values@.len() == vi,
                vo@.len() == ce.values@.len(),
                vo@ == value_outcomes_at(*cat, *prev, ge),
                pvals@ == prev_values_at(*cat, *prev, ge),
                ge == e as int,
                e < cat.enums@.len(),
                ce == &cat.enums[e as int],
                forall|x: int|
                    0 <= x < vi ==> #[trigger] values@[x] == (match value_outcomes_at(
                        *cat,
                        *prev,
                        ge,
                    )[x] {
                        MatchOutcome::Matched { prev: pv, renamed } => crate::merge::merged_value(
                            cat.enums@[ge].values@[x],
                            prev_values_at(*cat, *prev, ge)[pv as int],
                            renamed,
                        ),
                        MatchOutcome::Fresh => crate::merge::fresh_value(cat.enums@[ge].values@[x]),
                    }),
            decreases ce.values@.len() - vi,
        {
            proof {
                assert(pvals.len() == pvals@.len());
                crate::matching::lemma_outcome_valid(pvals@, ce.values@, true, vi as int);
            }
            let v = match vo[vi] {
                MatchOutcome::Matched { prev: pv, renamed } => crate::merge::merge_value(
                    &ce.values[vi],
                    &pvals[pv],
                    renamed,
                ),
                MatchOutcome::Fresh => crate::merge::build_fresh_value(&ce.values[vi]),
            };
            values.push(v);
            vi += 1;
        }
        out.push(Enum { name, mapped_name, doc, values });
        e += 1;
    }
    Result::Ok(out)
}

/// Copies an enum.
fn dup_enum(x: &Enum) -> (r: Enum)
    ensures
        r.name == x.name,
        r.mapped_name == x.mapped_name,
        r.doc == x.doc,
        r.values@ == x.values@,
{
    let mut values: Vec<EnumValue> = Vec::new();
    let mut i: usize = 0;
    while i < x.values.len()
        invariant
            i <= x.values@.len(),
            values@.len() == i,
            forall|k: int| 0 <= k < i ==> values@[k] == x.values@[k],
        decreases x.values@.len() - i,
    {
        values.push(x.values[i].duplicate());
        i += 1;
    }
    proof {
        assert(values@ =~= x.values@);
    }
    Enum {
        name: x.name.clone(),
        mapped_name: crate::ast::dup_opt_string(&x.mapped_name),
        doc: crate::ast::dup_opt_string(&x.doc),
        values,
    }
}

/// Assembles the output models, in output order.
#[verifier::loop_isolation(false)]
#[verifier::rlimit(100)]
fn assemble_models(
    cat: &CatalogSchema,
    prev: &Datamodel,
    real_idx: &Vec<usize>,
    pot: &Vec<Option<usize>>,
    ont: &Vec<String>,
    oft: &Vec<Vec<String>>,
    sfs: &Vec<Vec<ScalarField>>,
    prt: &Vec<bool>,
    rels: &Vec<RelEntry>,
    ord: &Vec<usize>,
) -> (ms: Vec<Model>)
    requires
        real_idx@.len() == real_positions(*cat).len(),
        forall|p: int|
            0 <= p < real_idx@.len() ==> (#[trigger] real_idx@[p]) as int == real_positions(
                *cat,
            )[p] && real_idx@[p] < cat.tables@.len(),
        pot@.len() == cat.tables@.len(),
        forall|ti: int| 0 <= ti < cat.tables@.len() ==> pot@[ti] == pot_at(*cat, *prev, ti),
        forall|ti: int|
            0 <= ti < cat.tables@.len() ==> (match #[trigger] pot@[ti] {
                Option::Some(m) => m < prev.models@.len(),
                Option::None => true,
            }),
        ont@.len() == cat.tables@.len(),
        forall|ti: int| 0 <= ti < cat.tables@.len() ==> ont@[ti] == ont_at(*cat, *prev, ti),
        oft@.len() == cat.tables@.len(),
        forall|ti: int|
            0 <= ti < cat.tables@.len() ==> (#[trigger] oft@[ti])@ == oft_at(*cat, *prev, ti),
        sfs@.len() == cat.tables@.len(),
        forall|ti: int|
            0 <= ti < cat.tables@.len() ==> (#[trigger] sfs@[ti])@ == Seq::new(
                cat.tables@[ti].columns@.len(),
                |ci: int|
                    merged_col_field(
                        cat.tables@[ti],
                        prev_scalars_at(*cat, *prev, ti),
                        field_outcomes_at(*cat, *prev, ti),
                        ci,
                    ),
            ),
        prt@.len() == cat.tables@.len(),
        forall|ti: int| 0 <= ti < cat.tables@.len() ==> prt@[ti] == renamed_at(*cat, *prev, ti),
        forall|k: int| 0 <= k < ord@.len() ==> (#[trigger] ord@[k]) < real_idx@.len(),
    ensures
        ms@.len() == ord@.len(),
        forall|k: int|
            0 <= k < ord@.len() ==> {
                let ti = real_positions(*cat)[ord@[k] as int];
                model_header_ok(#[trigger] ms@[k], *cat, *prev, ti) && model_scalars_ok(
                    ms@[k],
                    *cat,
                    *prev,
                    ti,
                ) && model_ids_ok(ms@[k], *cat, *prev, ti) && model_indexes_ok(
                    ms@[k],
                    *cat,
                    *prev,
                    ti,
                ) && model_rels_ok(ms@[k], *cat, rels@, ti)
            },
{
    let mut ms: Vec<Model> = Vec::new();
    let mut k: usize = 0;
    while k < ord.len()
        invariant
            k <= ord@.len(),
            ms@.len() == k,
            forall|x: int|
                0 <= x < k ==> {
                    let ti = real_positions(*cat)[ord@[x] as int];
                    model_header_ok(#[trigger] ms@[x], *cat, *prev, ti) && model_scalars_ok(
                        ms@[x],
                        *cat,
                        *prev,
                        ti,
                    ) && model_ids_ok(ms@[x], *cat, *prev, ti) && model_indexes_ok(
                        ms@[x],
                        *cat,
                        *prev,
                        ti,
                    ) && model_rels_ok(ms@[x], *cat, rels@, ti)
                },
        decreases ord@.len() - k,
    {
        let p = ord[k];
        let ti = real_idx[p];
        let ghost gti = ti as int;
        let t = &cat.tables[ti];
        // Header.
        let name = ont[ti].clone();
        let mapped_name = if prt[ti] {
            Option::Some(t.name.clone())
        } else {
            Option::None
        };
        let doc: Option<String>;
        let ignored: bool;
        match pot[ti] {
            Option::Some(m) => {
                doc = crate::ast::dup_opt_string(&prev.models[m].doc);
                ignored = prev.models[m].ignored;
            },
            Option::None => {
                doc = Option::None;
                ignored = false;
            },
        }
        // Fields: the merged scalar fields in column order.
        let mut fields: Vec<Field> = Vec::new();
        let sf = &sfs[ti];
        let mut ci: usize = 0;
        while ci < sf.len()
            invariant
                ci <= sf@.len(),
                fields@.len() == ci,
                forall|x: int| 0 <= x < ci ==> #[trigger] fields@[x] == Field::Scalar(sf@[x]),
            decreases sf@.len() - ci,
        {
            fields.push(Field::Scalar(sf[ci].duplicate()));
            ci += 1;
        }
        proof {
            assert(sf@.len() == cat.tables@[gti].columns@.len());
            assert forall|x: int| 0 <= x < sf@.len() implies #[trigger] fields@[x] == Field::Scalar(
                merged_col_field(
                    cat.tables@[gti],
                    prev_scalars_at(*cat, *prev, gti),
                    field_outcomes_at(*cat, *prev, gti),
                    x,
                ),
            ) by {
                assert(sf@[x] == Seq::new(
                    cat.tables@[gti].columns@.len(),
                    |ci: int|
                        merged_col_field(
                            cat.tables@[gti],
                            prev_scalars_at(*cat, *prev, gti),
                            field_outcomes_at(*cat, *prev, gti),
                            ci,
                        ),
                )[x]);
            }
        }
        // Fields: the owned relation entries, in entry order.
        let ghost ncols = cat.tables@[gti].columns@.len() as int;
        let mut ri: usize = 0;
        while ri < rels.len()
            invariant
                ri <= rels@.len(),
                fields@.len() == ncols + crate::relations::owned_fields(
                    rels@.take(ri as int),
                    gti,
                ).len(),
                forall|x: int|
                    0 <= x < ncols ==> #[trigger] fields@[x] == Field::Scalar(
                        merged_col_field(
                            cat.tables@[gti],
                            prev_scalars_at(*cat, *prev, gti),
                            field_outcomes_at(*cat, *prev, gti),
                            x,
                        ),
                    ),
                forall|x: int|
                    0 <= x < crate::relations::owned_fields(rels@.take(ri as int), gti).len()
                        ==> ((#[trigger] fields@[ncols + x]) matches Field::Relation(rf)
                        && crate::relations::rf_like(
                        rf,
                        crate::relations::owned_fields(rels@.take(ri as int), gti)[x],
                    )),
            decreases rels@.len() - ri,
        {
            proof {
                assert(rels@.take(ri + 1 as int).drop_last() =~= rels@.take(ri as int));
                assert(rels@.take(ri + 1 as int).last() == rels@[ri as int]);
            }
            if rels[ri].owner == ti {
                fields.push(Field::Relation(crate::relations::dup_relation_field(&rels[ri].field)));
            }
            ri += 1;
        }
        proof {
            assert(rels@.take(rels@.len() as int) =~= rels@);
        }
        // Id fields and indexes, translated to field names.
        let id_fields = match &t.primary_key {
            Option::Some(pk) => crate::relations::translate_names(t, &oft[ti], pk),
            Option::None => Vec::new(),
        };
        let mut indexes: Vec<crate::catalog::Index> = Vec::new();
        let mut xi: usize = 0;
        while xi < t.indexes.len()
            invariant
                xi <= t.indexes@.len(),
                indexes@.len() == xi,
                forall|x: int|
                    0 <= x < xi ==> index_translated(
                        #[trigger] indexes@[x],
                        cat.tables@[gti],
                        oft_at(*cat, *prev, gti),
                        cat.tables@[gti].indexes@[x],
                    ),
            decreases t.indexes@.len() - xi,
        {
            let ix = &t.indexes[xi];
            indexes.push(
                crate::catalog::Index {
                    name: ix.name.clone(),
                    columns: crate::relations::translate_names(t, &oft[ti], &ix.columns),
                    unique: ix.unique,
                },
            );
            xi += 1;
        }
        ms.push(Model { name, mapped_name, doc, fields, id_fields, indexes, ignored });
        k += 1;
    }
    ms
}

/// Reconciles a catalog schema with the previous description: the merged
/// description in resolved order, and the coded warnings.  Fails exactly
/// when some category's mapped-name matching is ambiguous.
#[verifier::loop_isolation(false)]
#[verifier::rlimit(100)]
pub fn reconcile(cat: &CatalogSchema, prev: &Datamodel) -> (r: Result<
    (Datamodel, Vec<Warning>),
    ReconcileError,
>)
    requires
        catalog_wf(*cat),
    ensures
        match r {
            Result::Ok(out) => {
                &&& !reconcile_ambiguous(*cat, *prev)
                &&& models_ok(out.0, *cat, *prev)
                &&& enums_ok(out.0, *cat, *prev)
                &&& warnings_ok(out.0, out.1@)
            },
            Result::Err(e) => {
                &&& reconcile_ambiguous(*cat, *prev)
                &&& match e.kind {
                    EntityKind::Model => exists|j: int|
                        0 <= j < model_cats(*cat).len() && crate::matching::ambiguous_name(
                            prev.models@,
                            model_cats(*cat),
                            false,
                            (#[trigger] model_cats(*cat)[j])@,
                        ) && e.name@ == model_cats(*cat)[j]@,
                    EntityKind::Enum => exists|j: int|
                        0 <= j < enum_cats(*cat).len() && crate::matching::ambiguous_name(
                            prev.enums@,
                            enum_cats(*cat),
                            false,
                            (#[trigger] enum_cats(*cat)[j])@,
                        ) && e.name@ == enum_cats(*cat)[j]@,
                    EntityKind::Field => exists|ti: int, j: int|
                        0 <= ti < cat.tables@.len() && 0 <= j < col_cats(*cat, ti).len()
                            && crate::matching::ambiguous_name(
                            prev_scalars_at(*cat, *prev, ti),
                            col_cats(*cat, ti),
                            false,
                            (#[trigger] col_cats(*cat, ti)[j])@,
                        ) && e.name@ == col_cats(*cat, ti)[j]@,
                    EntityKind::EnumValue => exists|e2: int, j: int|
                        0 <= e2 < cat.enums@.len() && 0 <= j < cat.enums@[e2].values@.len()
                            && crate::matching::ambiguous_name(
                            prev_values_at(*cat, *prev, e2),
                            cat.enums@[e2].values@,
                            true,
                            (#[trigger] cat.enums@[e2].values@[j])@,
                        ) && e.name@ == cat.enums@[e2].values@[j]@,
                }
            },
        },
{
    let (m2m_flags, real_idx, cats_m) = scan_tables(cat);
    // Pass one and two for models.
    let mo = match match_entities(&prev.models, &cats_m, false) {
        Result::Ok(mo) => mo,
        Result::Err(j) => {
            proof {
                assert(crate::matching::ambiguous_name(
                    prev.models@,
                    model_cats(*cat),
                    false,
                    model_cats(*cat)[j as int]@,
                ));
                assert(any_ambiguous(prev.models@, model_cats(*cat), false));
            }
            return Result::Err(
                ReconcileError { kind: EntityKind::Model, name: cats_m[j].clone() },
            );
        },
    };
    // Pass one and two for enums.
    let mut cats_e: Vec<String> = Vec::new();
    let mut e: usize = 0;
    while e < cat.enums.len()
        invariant
            e <= cat.enums@.len(),
            cats_e@.len() == e,
            forall|x: int| 0 <= x < e ==> cats_e@[x] == cat.enums@[x].name,
        decreases cat.enums@.len() - e,
    {
        cats_e.push(cat.enums[e].name.clone());
        e += 1;
    }
    proof {
        assert(cats_e@ =~= enum_cats(*cat));
    }
    let eo = match match_entities(&prev.enums, &cats_e, false) {
        Result::Ok(eo) => eo,
        Result::Err(j) => {
            proof {
                assert(crate::matching::ambiguous_name(
                    prev.enums@,
                    enum_cats(*cat),
                    false,
                    enum_cats(*cat)[j as int]@,
                ));
                assert(any_ambiguous(prev.enums@, enum_cats(*cat), false));
            }
            return Result::Err(ReconcileError { kind: EntityKind::Enum, name: cats_e[j].clone() });
        },
    };
    proof {
        assert forall|p: int| 0 <= p < mo@.len() implies mo@[p] == model_outcomes(*cat, *prev)[p]
            by {}
        assert forall|x: int| 0 <= x < eo@.len() implies eo@[x] == enum_outcomes(*cat, *prev)[x]
            by {}
    }
    // Merge fields per table and values per enum.
    let (pot, ont, oft, sfs, prt) = match prepare_tables(cat, prev, &m2m_flags, &mo) {
        Result::Ok(out) => out,
        Result::Err(err) => {
            return Result::Err(err);
        },
    };
    let enums_all = match prepare_enums(cat, prev, &eo) {
        Result::Ok(out) => out,
        Result::Err(err) => {
            return Result::Err(err);
        },
    };
    // Resolve relations over the merged names.
    let rels = crate::relations::resolve_relations(cat, &prev.models, &pot, &ont, &oft);
    // Final order, then assembly.
    let mord = crate::order::compute_order(&mo, prev.models.len());
    let eord = crate::order::compute_order(&eo, prev.enums.len());
    let models = assemble_models(cat, prev, &real_idx, &pot, &ont, &oft, &sfs, &prt, &rels, &mord);
    let mut enums: Vec<Enum> = Vec::new();
    let mut k: usize = 0;
    while k < eord.len()
        invariant
            k <= eord@.len(),
            enums@.len() == k,
            forall|x: int|
                0 <= x < k ==> enum_header_ok(
                    #[trigger] enums@[x],
                    *cat,
                    *prev,
                    eord@[x] as int,
                ) && enum_values_ok(enums@[x], *cat, *prev, eord@[x] as int),
        decreases eord@.len() - k,
    {
        let d = dup_enum(&enums_all[eord[k]]);
        enums.push(d);
        k += 1;
    }
    let dm = Datamodel { models, enums };
    let ws = collect_warnings(&dm);
    proof {
        let gmo = model_outcomes(*cat, *prev);
        let geo = enum_outcomes(*cat, *prev);
        assert(mo@ =~= gmo);
        assert(eo@ =~= geo);
        assert(prev.models.len() == prev.models@.len());
        assert(prev.enums.len() == prev.enums@.len());
        // The merged models meet the policy, including the relation layout.
        assert(pot@ =~= pot_seq(*cat, *prev));
        assert(ont@ =~= ont_seq(*cat, *prev));
        assert(rels_ok(rels@, *cat, *prev, oft@));
        assert(oft_seq_ok(oft@, *cat, *prev));
        assert(models_ok(dm, *cat, *prev));
        assert(enums_ok(dm, *cat, *prev));
        // No category was ambiguous.
        assert(!reconcile_ambiguous(*cat, *prev)) by {
            if exists|ti: int|
                0 <= ti < cat.tables@.len() && any_ambiguous(
                    prev_scalars_at(*cat, *prev, ti),
                    #[trigger] col_cats(*cat, ti),
                    false,
                ) {
                let ti = choose|ti: int|
                    0 <= ti < cat.tables@.len() && any_ambiguous(
                        prev_scalars_at(*cat, *prev, ti),
                        #[trigger] col_cats(*cat, ti),
                        false,
                    );
                assert(!any_ambiguous(prev_scalars_at(*cat, *prev, ti), col_cats(*cat, ti), false));
            }
            if exists|e2: int|
                0 <= e2 < cat.enums@.len() && any_ambiguous(
                    prev_values_at(*cat, *prev, e2),
                    (#[trigger] cat.enums@[e2]).values@,
                    true,
                ) {
                let e2 = choose|e2: int|
                    0 <= e2 < cat.enums@.len() && any_ambiguous(
                        prev_values_at(*cat, *prev, e2),
                        (#[trigger] cat.enums@[e2]).values@,
                        true,
                    );
                assert(!any_ambiguous(
                    prev_values_at(*cat, *prev, e2),
                    cat.enums@[e2].values@,
                    true,
                ));
            }
        }
    }
    Result::Ok((dm, ws))
}

} // verus!
