//! Laws of the reconciliation, stated and proved over the same spec
//! functions the contracts use.
//!
//! The order law: survivors keep their previous relative order, fresh
//! entities follow in catalog order, and every catalog entity appears at
//! exactly one output position.
//!
//! Idempotence: a silent run — one that records no warning — is a fixed
//! point.  Matching its output again pairs every entity exactly and in
//! place, re-merging changes neither a model's head nor its scalar
//! fields nor an enum, and the second warning list is empty.  A run that
//! kept a mapping is no fixed point of the warnings: the rename recurs by
//! design, since the kept name still diverges from the catalog name.

use vstd::prelude::*;
use crate::ast::{Datamodel, Field, Model, ScalarField};
use crate::matching::{
    exact_match, first_exact_from, outcome_at, MatchOutcome, Matchable,
};
use crate::merge::{merged_col_field, merged_scalar, shape_unchanged};
use crate::order::{
    fresh_positions, output_positions, prev_match_from, survivor_positions,
};
use crate::warnings::{
    group_of, renamed_enum_refs, renamed_field_refs, renamed_model_refs, renamed_value_refs,
    valid_code, value_refs_in, warnings_ok, field_refs_in,
};

verus! {

/// Matching is the identity on a description already in catalog shape:
/// when the previous names equal the catalog names one for one, every
/// entity is paired exactly with its own position and nothing is renamed,
/// fresh or dropped.
pub proof fn lemma_match_identity<T: Matchable>(prev: Seq<T>, cats: Seq<String>, need_valid: bool)
    requires
        prev.len() == cats.len(),
        forall|j: int| 0 <= j < prev.len() ==> (#[trigger] prev[j]).key_name() == cats[j]@,
        forall|j1: int, j2: int| 0 <= j1 < j2 < cats.len() ==> cats[j1]@ != cats[j2]@,
        forall|j: int|
            0 <= j < cats.len() ==> crate::matching::exact_ok((#[trigger] cats[j])@, need_valid),
    ensures
        forall|j: int|
            0 <= j < cats.len() ==> outcome_at(prev, cats, need_valid, j)
                == (MatchOutcome::Matched { prev: j as usize, renamed: false }),
{
    assert forall|j: int| 0 <= j < cats.len() implies outcome_at(prev, cats, need_valid, j) == (
    MatchOutcome::Matched { prev: j as usize, renamed: false }) by {
        lemma_first_exact_identity(prev, cats, j, 0);
        assert(exact_match(prev, cats[j]@, need_valid) == Some(j));
        assert(prev.len() == cats.len());
    }
}

proof fn lemma_first_exact_identity<T: Matchable>(prev: Seq<T>, cats: Seq<String>, j: int, i: int)
    requires
        prev.len() == cats.len(),
        forall|x: int| 0 <= x < prev.len() ==> (#[trigger] prev[x]).key_name() == cats[x]@,
        forall|j1: int, j2: int| 0 <= j1 < j2 < cats.len() ==> cats[j1]@ != cats[j2]@,
        0 <= i <= j < cats.len(),
    ensures
        first_exact_from(prev, cats[j]@, i) == Some(j),
    decreases j - i,
{
    if i < j {
        assert(cats[i]@ != cats[j]@);
        lemma_first_exact_identity(prev, cats, j, i + 1);
    }
}

/// Ordering is the identity on identity outcomes: when every catalog
/// entity is paired with its own position, the output order is the
/// catalog order, with nothing fresh.
pub proof fn lemma_order_identity(mo: Seq<MatchOutcome>, n: int)
    requires
        n == mo.len(),
        forall|j: int|
            0 <= j < n ==> mo[j] == (MatchOutcome::Matched { prev: j as usize, renamed: false }),
        n <= usize::MAX,
    ensures
        output_positions(mo, n) =~= Seq::new(n as nat, |i: int| i),
{
    lemma_survivor_identity(mo, n, n);
    lemma_fresh_empty(mo, n, n);
    assert(output_positions(mo, n) =~= Seq::new(n as nat, |i: int| i));
}

proof fn lemma_prev_match_identity(mo: Seq<MatchOutcome>, n: int, m: int, i: int)
    requires
        n == mo.len(),
        forall|j: int|
            0 <= j < n ==> mo[j] == (MatchOutcome::Matched { prev: j as usize, renamed: false }),
        n <= usize::MAX,
        0 <= i <= m < n,
    ensures
        prev_match_from(mo, m, i) == Some(m),
    decreases m - i,
{
    if i < m {
        lemma_prev_match_identity(mo, n, m, i + 1);
    }
}

proof fn lemma_survivor_identity(mo: Seq<MatchOutcome>, n: int, upto: int)
    requires
        n == mo.len(),
        forall|j: int|
            0 <= j < n ==> mo[j] == (MatchOutcome::Matched { prev: j as usize, renamed: false }),
        n <= usize::MAX,
        0 <= upto <= n,
    ensures
        survivor_positions(mo, upto) =~= Seq::new(upto as nat, |i: int| i),
    decreases upto,
{
    if upto > 0 {
        lemma_survivor_identity(mo, n, upto - 1);
        lemma_prev_match_identity(mo, n, upto - 1, 0);
        assert(survivor_positions(mo, upto) =~= Seq::new(upto as nat, |i: int| i));
    }
}

proof fn lemma_fresh_empty(mo: Seq<MatchOutcome>, n: int, upto: int)
    requires
        n == mo.len(),
        forall|j: int|
            0 <= j < n ==> mo[j] == (MatchOutcome::Matched { prev: j as usize, renamed: false }),
        0 <= upto <= n,
    ensures
        fresh_positions(mo, upto) =~= Seq::empty(),
    decreases upto,
{
    if upto > 0 {
        lemma_fresh_empty(mo, n, upto - 1);
    }
}

proof fn lemma_first_match_unique<T: Matchable>(
    prev: Seq<T>,
    cats: Seq<String>,
    need_valid: bool,
    mo: Seq<MatchOutcome>,
    m: int,
    p: int,
)
    requires
        prev.len() <= usize::MAX,
        mo.len() == cats.len(),
        forall|j: int| 0 <= j < mo.len() ==> mo[j] == outcome_at(prev, cats, need_valid, j),
        forall|j1: int, j2: int| 0 <= j1 < j2 < cats.len() ==> cats[j1]@ != cats[j2]@,
        0 <= p < mo.len(),
        mo[p] matches MatchOutcome::Matched { prev: pp, .. } && pp == m,
    ensures
        prev_match_from(mo, m, 0) == Some(p),
{
    crate::order::lemma_prev_match_char(mo, m, 0);
    match prev_match_from(mo, m, 0) {
        Some(q) => {
            if q != p {
                if q < p {
                    crate::matching::lemma_match_injective(
                        prev,
                        cats,
                        need_valid,
                        q,
                        p,
                        m,
                        m,
                    );
                } else {
                    assert(!(mo[p] matches MatchOutcome::Matched { prev: pp, .. } && pp == m));
                }
            }
        },
        None => {
            assert(!(mo[p] matches MatchOutcome::Matched { prev: pp, .. } && pp == m));
        },
    }
}

/// The output order covers the whole catalog, once each: with distinct
/// catalog names, every catalog entity — matched or fresh — stands at
/// exactly one output position.
pub proof fn lemma_order_complete<T: Matchable>(
    prev: Seq<T>,
    cats: Seq<String>,
    need_valid: bool,
    mo: Seq<MatchOutcome>,
    nprev: int,
)
    requires
        nprev == prev.len(),
        prev.len() <= usize::MAX,
        mo.len() == cats.len(),
        forall|j: int| 0 <= j < mo.len() ==> mo[j] == outcome_at(prev, cats, need_valid, j),
        forall|j1: int, j2: int| 0 <= j1 < j2 < cats.len() ==> cats[j1]@ != cats[j2]@,
    ensures
        forall|p: int| 0 <= p < cats.len() ==> output_positions(mo, nprev).contains(p),
        forall|k1: int, k2: int|
            0 <= k1 < k2 < output_positions(mo, nprev).len() ==> output_positions(mo, nprev)[k1]
                != output_positions(mo, nprev)[k2],
{
    crate::order::lemma_survivor_law(mo, nprev);
    crate::order::lemma_fresh_law(mo, mo.len() as int);
    let s = survivor_positions(mo, nprev);
    let sp = crate::order::survivor_prevs(mo, nprev);
    let f = fresh_positions(mo, mo.len() as int);
    let ord = output_positions(mo, nprev);
    assert(ord == s + f);
    assert forall|p: int| 0 <= p < cats.len() implies ord.contains(p) by {
        match mo[p] {
            MatchOutcome::Fresh => {
                assert(f.contains(p));
                let k = choose|k: int| 0 <= k < f.len() && f[k] == p;
                assert(ord[s.len() + k] == p);
                assert(ord.contains(p));
            },
            MatchOutcome::Matched { prev: m, .. } => {
                crate::matching::lemma_outcome_valid(prev, cats, need_valid, p);
                lemma_first_match_unique(prev, cats, need_valid, mo, m as int, p);
                assert(0 <= m < nprev);
                assert(sp.contains(m as int));
                let k = choose|k: int| 0 <= k < sp.len() && sp[k] == m as int;
                assert(prev_match_from(mo, sp[k], 0) == Some(s[k]));
                assert(s[k] == p);
                assert(ord[k] == p);
                assert(ord.contains(p));
            },
        }
    }
    assert forall|k1: int, k2: int| 0 <= k1 < k2 < ord.len() implies ord[k1] != ord[k2] by {
        if k2 < s.len() {
            let m1 = sp[k1];
            let m2 = sp[k2];
            assert(m1 < m2);
            crate::order::lemma_prev_match_char(mo, m1, 0);
            crate::order::lemma_prev_match_char(mo, m2, 0);
            assert(mo[s[k1]] matches MatchOutcome::Matched { prev: pp, .. } && pp == m1);
            assert(mo[s[k2]] matches MatchOutcome::Matched { prev: pp, .. } && pp == m2);
        } else if k1 >= s.len() {
            assert(f[k1 - s.len()] < f[k2 - s.len()]);
        } else {
            let m1 = sp[k1];
            crate::order::lemma_prev_match_char(mo, m1, 0);
            assert(mo[s[k1]] matches MatchOutcome::Matched { prev: pp, .. } && pp == m1);
            assert(mo[f[k2 - s.len()]] is Fresh);
        }
    }
}

proof fn lemma_real_positions_increasing(cat: crate::catalog::CatalogSchema, upto: int)
    requires
        0 <= upto,
    ensures
        forall|k: int|
            0 <= k < crate::reconcile::real_positions_upto(cat, upto).len()
                ==> 0 <= #[trigger] crate::reconcile::real_positions_upto(cat, upto)[k] < upto,
        forall|k1: int, k2: int|
            0 <= k1 < k2 < crate::reconcile::real_positions_upto(cat, upto).len()
                ==> #[trigger] crate::reconcile::real_positions_upto(cat, upto)[k1]
                < #[trigger] crate::reconcile::real_positions_upto(cat, upto)[k2],
        forall|k: int|
            0 <= k < crate::reconcile::real_positions_upto(cat, upto).len()
                ==> !crate::relations::is_m2m_table(
                cat.tables[#[trigger] crate::reconcile::real_positions_upto(cat, upto)[k]],
            ),
        forall|k: int|
            0 <= k < crate::reconcile::real_positions_upto(cat, upto).len()
                ==> crate::reconcile::real_positions_upto(
                cat,
                #[trigger] crate::reconcile::real_positions_upto(cat, upto)[k],
            ).len() == k,
    decreases upto,
{
    if upto > 0 {
        lemma_real_positions_increasing(cat, upto - 1);
        let rp = crate::reconcile::real_positions_upto(cat, upto);
        let rpp = crate::reconcile::real_positions_upto(cat, upto - 1);
        assert forall|k: int| 0 <= k < rp.len() implies 0 <= #[trigger] rp[k] < upto
            && !crate::relations::is_m2m_table(cat.tables[rp[k]])
            && crate::reconcile::real_positions_upto(cat, rp[k]).len() == k by {
            if k < rpp.len() {
                assert(rp[k] == rpp[k]);
            } else {
                assert(rp[k] == upto - 1);
            }
        }
        assert forall|k1: int, k2: int| 0 <= k1 < k2 < rp.len() implies #[trigger] rp[k1]
            < #[trigger] rp[k2] by {
            assert(rp[k1] == rpp[k1]);
            if k2 < rpp.len() {
                assert(rp[k2] == rpp[k2]);
            } else {
                assert(rp[k2] == upto - 1);
                assert(rpp[k1] < upto - 1);
            }
        }
    }
}

proof fn lemma_model_cats_distinct(cat: crate::catalog::CatalogSchema)
    requires
        crate::catalog::catalog_wf(cat),
    ensures
        forall|j1: int, j2: int|
            0 <= j1 < j2 < crate::reconcile::model_cats(cat).len()
                ==> crate::reconcile::model_cats(cat)[j1]@ != crate::reconcile::model_cats(
                cat,
            )[j2]@,
{
    let mcats = crate::reconcile::model_cats(cat);
    lemma_real_positions_increasing(cat, cat.tables.len() as int);
    assert forall|j1: int, j2: int| 0 <= j1 < j2 < mcats.len() implies mcats[j1]@ != mcats[j2]@
        by {
        let rp = crate::reconcile::real_positions(cat);
        assert(rp[j1] < rp[j2]);
        assert(cat.tables[rp[j1]].name@ != cat.tables[rp[j2]].name@);
    }
}

proof fn lemma_order_of_full_match(mo: Seq<MatchOutcome>, ord1: Seq<int>, upto: int)
    requires
        0 <= upto <= ord1.len(),
        forall|m: int| 0 <= m < upto ==> prev_match_from(mo, m, 0) == Some(#[trigger] ord1[m]),
    ensures
        survivor_positions(mo, upto) =~= ord1.take(upto),
    decreases upto,
{
    if upto > 0 {
        lemma_order_of_full_match(mo, ord1, upto - 1);
        assert(prev_match_from(mo, upto - 1, 0) == Some(ord1[upto - 1]));
        assert(survivor_positions(mo, upto) =~= ord1.take(upto));
    }
}

proof fn lemma_fresh_none(mo: Seq<MatchOutcome>, upto: int)
    requires
        0 <= upto <= mo.len(),
        forall|p: int| 0 <= p < mo.len() ==> (#[trigger] mo[p]) is Matched,
    ensures
        fresh_positions(mo, upto) =~= Seq::empty(),
    decreases upto,
{
    if upto > 0 {
        lemma_fresh_none(mo, upto - 1);
    }
}

proof fn lemma_scalar_fields_split(s: Seq<Field>, ncols: int)
    requires
        0 <= ncols <= s.len(),
        forall|ci: int| 0 <= ci < ncols ==> (#[trigger] s[ci]) is Scalar,
        forall|j: int| ncols <= j < s.len() ==> (#[trigger] s[j]) is Relation,
    ensures
        crate::merge::scalar_fields(s).len() == ncols,
        forall|ci: int|
            0 <= ci < ncols ==> #[trigger] crate::merge::scalar_fields(s)[ci] == s[ci]->Scalar_0,
    decreases s.len(),
{
    if s.len() > ncols {
        assert(s[s.len() - 1] is Relation);
        assert forall|ci: int| 0 <= ci < ncols implies (#[trigger] s.drop_last()[ci]) is Scalar by {
            assert(s.drop_last()[ci] == s[ci]);
        }
        assert forall|j: int| ncols <= j < s.drop_last().len() implies (
        #[trigger] s.drop_last()[j]) is Relation by {
            assert(s.drop_last()[j] == s[j]);
        }
        lemma_scalar_fields_split(s.drop_last(), ncols);
        assert forall|ci: int| 0 <= ci < ncols implies #[trigger] crate::merge::scalar_fields(
            s,
        )[ci] == s[ci]->Scalar_0 by {
            assert(crate::merge::scalar_fields(s.drop_last())[ci] == s.drop_last()[ci]->Scalar_0);
            assert(s.drop_last()[ci] == s[ci]);
        }
    } else if s.len() > 0 {
        assert(s[s.len() - 1] is Scalar);
        assert forall|ci: int| 0 <= ci < ncols - 1 implies (#[trigger] s.drop_last()[ci]) is Scalar
            by {
            assert(s.drop_last()[ci] == s[ci]);
        }
        lemma_scalar_fields_split(s.drop_last(), ncols - 1);
        assert forall|ci: int| 0 <= ci < ncols implies #[trigger] crate::merge::scalar_fields(
            s,
        )[ci] == s[ci]->Scalar_0 by {
            if ci < ncols - 1 {
                assert(crate::merge::scalar_fields(s.drop_last())[ci] == s.drop_last()[
                    ci
                ]->Scalar_0);
                assert(s.drop_last()[ci] == s[ci]);
            }
        }
    }
}

/// A silent run is a fixed point of the model half of the engine:
/// reconciling a silent run's output against the same catalog yields
/// models with the same names, documentation, markers and scalar fields,
/// one for one, in the same order.
pub proof fn lemma_silent_rerun_preserves_models(
    cat: crate::catalog::CatalogSchema,
    prev0: Datamodel,
    dm1: Datamodel,
    w1: Seq<crate::warnings::Warning>,
    dm2: Datamodel,
)
    requires
        crate::catalog::catalog_wf(cat),
        crate::reconcile::models_ok(dm1, cat, prev0),
        warnings_ok(dm1, w1),
        w1.len() == 0,
        crate::reconcile::models_ok(dm2, cat, dm1),
    ensures
        dm2.models@.len() == dm1.models@.len(),
        forall|k: int|
            0 <= k < dm1.models@.len() ==> {
                &&& (#[trigger] dm2.models@[k]).name == dm1.models@[k].name
                &&& dm2.models@[k].mapped_name is None
                &&& dm2.models@[k].doc == dm1.models@[k].doc
                &&& dm2.models@[k].ignored == dm1.models@[k].ignored
                &&& crate::merge::scalar_fields(dm2.models@[k].fields@) == crate::merge::scalar_fields(
                    dm1.models@[k].fields@,
                )
            },
{
    lemma_no_warnings_no_mappings(dm1, w1);
    let mcats = crate::reconcile::model_cats(cat);
    lemma_model_cats_distinct(cat);
    lemma_real_positions_increasing(cat, cat.tables.len() as int);
    let n0 = prev0.models@.len() as int;
    let mo1 = crate::reconcile::model_outcomes(cat, prev0);
    let ord1 = output_positions(mo1, n0);
    let rp = crate::reconcile::real_positions(cat);
    assert(prev0.models.len() == prev0.models@.len());
    assert(dm1.models.len() == dm1.models@.len());
    lemma_order_complete(prev0.models@, mcats, false, mo1, n0);
    crate::order::lemma_output_positions_valid(mo1, n0);
    let n1 = dm1.models@.len() as int;
    assert(n1 == ord1.len());
    let (rels1, oftv1) = choose|rels: Seq<crate::relations::RelEntry>, oftv: Seq<Vec<String>>|
        #[trigger] crate::reconcile::rels_ok(rels, cat, prev0, oftv)
            && crate::reconcile::oft_seq_ok(oftv, cat, prev0) && (forall|k: int|
            0 <= k < ord1.len() ==> crate::reconcile::model_rels_ok(
                #[trigger] dm1.models@[k],
                cat,
                rels,
                rp[ord1[k]],
            ));
    // The first run matched every model exactly, so each model of its
    // output is named after its table.
    assert forall|k: int| 0 <= k < n1 implies (#[trigger] dm1.models@[k]).name@ == mcats[ord1[k]]@
        && !crate::reconcile::renamed_at(cat, prev0, rp[ord1[k]]) by {
        let p = ord1[k];
        let ti = rp[p];
        assert(crate::reconcile::model_header_ok(dm1.models@[k], cat, prev0, ti));
        assert(dm1.models@[k].mapped_name is None);
        assert(!crate::reconcile::renamed_at(cat, prev0, ti));
        assert(crate::reconcile::real_positions_upto(cat, ti).len() == p);
        match crate::reconcile::pot_at(cat, prev0, ti) {
            Option::Some(m) => {
                crate::matching::lemma_outcome_matched(prev0.models@, mcats, false, p);
                assert(prev0.models@[m as int].name@ == mcats[p]@);
                assert(dm1.models@[k].name == prev0.models@[m as int].name);
            },
            Option::None => {
                assert(dm1.models@[k].name == cat.tables[ti].name);
            },
        }
    }
    // Those names are distinct.
    assert forall|k1: int, k2: int| 0 <= k1 < k2 < n1 implies (#[trigger] dm1.models@[k1]).name@
        != (#[trigger] dm1.models@[k2]).name@ by {
        assert(ord1[k1] != ord1[k2]);
        if ord1[k1] < ord1[k2] {
            assert(mcats[ord1[k1]]@ != mcats[ord1[k2]]@);
        } else {
            assert(mcats[ord1[k2]]@ != mcats[ord1[k1]]@);
        }
    }
    // The second run pairs each table with the model named after it,
    // exactly and in place.
    let mo2 = crate::reconcile::model_outcomes(cat, dm1);
    assert forall|p: int| 0 <= p < mcats.len() implies exists|k: int|
        0 <= k < n1 && ord1[k] == p && #[trigger] mo2[p] == (MatchOutcome::Matched {
            prev: k as usize,
            renamed: false,
        }) by {
        assert(ord1.contains(p));
        let k = choose|k: int| 0 <= k < ord1.len() && ord1[k] == p;
        assert(dm1.models@[k].name@ == mcats[p]@);
        crate::matching::lemma_first_exact_char(dm1.models@, mcats[p]@, 0);
        match crate::matching::first_exact_from(dm1.models@, mcats[p]@, 0) {
            Some(q) => {
                assert(dm1.models@[q].name@ == mcats[p]@);
                if q != k {
                    if q < k {
                        assert(dm1.models@[q].name@ != dm1.models@[k].name@);
                    } else {
                        assert(dm1.models@[k].name@ != dm1.models@[q].name@);
                    }
                }
                assert(q == k);
                assert(exact_match(dm1.models@, mcats[p]@, false) == Some(k));
                assert(mo2[p] == (MatchOutcome::Matched { prev: k as usize, renamed: false }));
            },
            None => {
                assert(false);
            },
        }
        assert(0 <= k < n1 && ord1[k] == p && mo2[p] == (MatchOutcome::Matched {
            prev: k as usize,
            renamed: false,
        }));
    }
    assert forall|m: int| 0 <= m < n1 implies prev_match_from(mo2, m, 0) == Some(
        #[trigger] ord1[m],
    ) by {
        let p = ord1[m];
        let k = choose|k: int|
            0 <= k < n1 && ord1[k] == p && #[trigger] mo2[p] == (MatchOutcome::Matched {
                prev: k as usize,
                renamed: false,
            });
        assert(k == m);
        lemma_first_match_unique(dm1.models@, mcats, false, mo2, m, p);
    }
    let ord2 = output_positions(mo2, n1);
    lemma_order_of_full_match(mo2, ord1, n1);
    assert(ord1.take(n1) =~= ord1);
    assert forall|p: int| 0 <= p < mo2.len() implies (#[trigger] mo2[p]) is Matched by {
        let k = choose|k: int|
            0 <= k < n1 && ord1[k] == p && #[trigger] mo2[p] == (MatchOutcome::Matched {
                prev: k as usize,
                renamed: false,
            });
    }
    lemma_fresh_none(mo2, mo2.len() as int);
    assert(ord2 =~= ord1);
    assert(dm2.models@.len() == ord2.len());
    // Per model: the header and the scalar fields come out unchanged.
    let (rels2, oftv2) = choose|rels: Seq<crate::relations::RelEntry>, oftv: Seq<Vec<String>>|
        #[trigger] crate::reconcile::rels_ok(rels, cat, dm1, oftv)
            && crate::reconcile::oft_seq_ok(oftv, cat, dm1) && (forall|k: int|
            0 <= k < ord2.len() ==> crate::reconcile::model_rels_ok(
                #[trigger] dm2.models@[k],
                cat,
                rels,
                rp[ord2[k]],
            ));
    assert forall|k: int| 0 <= k < n1 implies {
        &&& (#[trigger] dm2.models@[k]).name == dm1.models@[k].name
        &&& dm2.models@[k].mapped_name is None
        &&& dm2.models@[k].doc == dm1.models@[k].doc
        &&& dm2.models@[k].ignored == dm1.models@[k].ignored
        &&& crate::merge::scalar_fields(dm2.models@[k].fields@) == crate::merge::scalar_fields(
            dm1.models@[k].fields@,
        )
    } by {
        let p = ord1[k];
        let ti = rp[p];
        let t = cat.tables[ti];
        let ncols = t.columns.len() as int;
        assert(ord2[k] == p);
        assert(crate::reconcile::real_positions_upto(cat, ti).len() == p);
        let kw = choose|kw: int|
            0 <= kw < n1 && ord1[kw] == p && #[trigger] mo2[p] == (MatchOutcome::Matched {
                prev: kw as usize,
                renamed: false,
            });
        assert(kw == k);
        assert(crate::reconcile::pot_at(cat, dm1, ti) == Option::Some(k as usize));
        assert(!crate::reconcile::renamed_at(cat, dm1, ti));
        assert(crate::reconcile::model_header_ok(dm2.models@[k], cat, dm1, ti));
        assert(dm2.models@[k].name == dm1.models@[k].name);
        assert(dm2.models@[k].mapped_name is None);
        assert(dm2.models@[k].doc == dm1.models@[k].doc);
        assert(dm2.models@[k].ignored == dm1.models@[k].ignored);
        // The first output's fields: merged scalars, then relations.
        assert(crate::reconcile::model_scalars_ok(dm1.models@[k], cat, prev0, ti));
        assert(crate::reconcile::model_rels_ok(dm1.models@[k], cat, rels1, ti));
        let flds1 = dm1.models@[k].fields@;
        let own1 = crate::relations::owned_fields(rels1, ti);
        assert(flds1.len() == ncols + own1.len());
        assert forall|ci: int| 0 <= ci < ncols implies (#[trigger] flds1[ci]) is Scalar by {
            assert(flds1[ci] == Field::Scalar(
                merged_col_field(
                    t,
                    crate::reconcile::prev_scalars_at(cat, prev0, ti),
                    crate::reconcile::field_outcomes_at(cat, prev0, ti),
                    ci,
                ),
            ));
        }
        assert forall|j: int| ncols <= j < flds1.len() implies (#[trigger] flds1[j]) is Relation
            by {
            assert(flds1[ncols + (j - ncols)] matches Field::Relation(rf)
                && crate::relations::rf_like(rf, own1[j - ncols]));
        }
        lemma_scalar_fields_split(flds1, ncols);
        let ps2 = crate::merge::scalar_fields(flds1);
        assert(crate::reconcile::prev_scalars_at(cat, dm1, ti) == ps2);
        let ps1 = crate::reconcile::prev_scalars_at(cat, prev0, ti);
        let fo1 = crate::reconcile::field_outcomes_at(cat, prev0, ti);
        let ccats = crate::reconcile::col_cats(cat, ti);
        // The first output's scalar names equal the column names.
        assert(crate::catalog::table_wf(cat, t));
        assert forall|ci: int| 0 <= ci < ncols implies (#[trigger] ps2[ci]).name@ == ccats[ci]@
            && ps2[ci].mapped_name is None by {
            assert(ps2[ci] == flds1[ci]->Scalar_0);
            assert(flds1[ci] == Field::Scalar(merged_col_field(t, ps1, fo1, ci)));
            assert(ps2[ci].mapped_name is None);
            match fo1[ci] {
                MatchOutcome::Matched { prev: i1, renamed: r1 } => {
                    assert(!r1);
                    match crate::reconcile::pot_at(cat, prev0, ti) {
                        Option::Some(m0) => {
                            crate::matching::lemma_outcome_valid(prev0.models@, mcats, false, p);
                            assert(prev0.models@[m0 as int].fields.len() == prev0.models@[
                                m0 as int
                            ].fields@.len());
                            lemma_scalar_fields_len(prev0.models@[m0 as int].fields@);
                            crate::matching::lemma_outcome_matched(ps1, ccats, false, ci);
                            assert(ps1[i1 as int].name@ == ccats[ci]@);
                        },
                        Option::None => {
                            assert(ps1.len() == 0);
                            crate::matching::lemma_outcome_matched(ps1, ccats, false, ci);
                        },
                    }
                },
                MatchOutcome::Fresh => {
                    assert(ps2[ci].name == t.columns[ci].name);
                },
            }
        }
        assert forall|j1: int, j2: int| 0 <= j1 < j2 < ccats.len() implies ccats[j1]@ != ccats[j2]@
            by {
            assert(t.columns[j1].name@ != t.columns[j2].name@);
        }
        assert forall|j: int| 0 <= j < ccats.len() implies crate::matching::exact_ok(
            (#[trigger] ccats[j])@,
            false,
        ) by {}
        lemma_match_identity(ps2, ccats, false);
        let fo2 = crate::reconcile::field_outcomes_at(cat, dm1, ti);
        assert(crate::reconcile::model_scalars_ok(dm2.models@[k], cat, dm1, ti));
        assert forall|ci: int| 0 <= ci < ncols implies #[trigger] dm2.models@[k].fields@[ci]
            == flds1[ci] by {
            assert(fo2[ci] == outcome_at(ps2, ccats, false, ci));
            assert(fo2[ci] == (MatchOutcome::Matched { prev: ci as usize, renamed: false }));
            assert(dm2.models@[k].fields@[ci] == Field::Scalar(merged_col_field(t, ps2, fo2, ci)));
            assert(merged_col_field(t, ps2, fo2, ci) == merged_scalar(t.columns[ci], ps2[ci], false));
            lemma_scalar_merge_idempotent(t, ps1, fo1, ci);
            assert(merged_scalar(t.columns[ci], ps2[ci], false) == ps2[ci]);
        }
        // The second output's scalar fields are therefore the first's.
        assert(crate::reconcile::model_rels_ok(dm2.models@[k], cat, rels2, ti));
        let flds2 = dm2.models@[k].fields@;
        let own2 = crate::relations::owned_fields(rels2, ti);
        assert(flds2.len() == ncols + own2.len());
        assert forall|ci: int| 0 <= ci < ncols implies (#[trigger] flds2[ci]) is Scalar by {
            assert(flds2[ci] == flds1[ci]);
        }
        assert forall|j: int| ncols <= j < flds2.len() implies (#[trigger] flds2[j]) is Relation
            by {
            assert(flds2[ncols + (j - ncols)] matches Field::Relation(rf)
                && crate::relations::rf_like(rf, own2[j - ncols]));
        }
        lemma_scalar_fields_split(flds2, ncols);
        assert forall|ci: int| 0 <= ci < ncols implies #[trigger] crate::merge::scalar_fields(
            flds2,
        )[ci] == crate::merge::scalar_fields(flds1)[ci] by {
            assert(crate::merge::scalar_fields(flds2)[ci] == flds2[ci]->Scalar_0);
            assert(flds2[ci] == flds1[ci]);
        }
        assert(crate::merge::scalar_fields(flds2) =~= crate::merge::scalar_fields(flds1));
    }
}

/// A silent run is a fixed point of the enum half of the engine:
/// reconciling a silent run's output against the same catalog yields
/// enums with the same names, documentation and values, one for one, in
/// the same order.  (A value whose catalog member is no identifier keeps
/// its raw name; it is equal up to allocation.)
pub proof fn lemma_silent_rerun_preserves_enums(
    cat: crate::catalog::CatalogSchema,
    prev0: Datamodel,
    dm1: Datamodel,
    w1: Seq<crate::warnings::Warning>,
    dm2: Datamodel,
)
    requires
        crate::catalog::catalog_wf(cat),
        crate::reconcile::enums_ok(dm1, cat, prev0),
        warnings_ok(dm1, w1),
        w1.len() == 0,
        crate::reconcile::enums_ok(dm2, cat, dm1),
    ensures
        dm2.enums@.len() == dm1.enums@.len(),
        forall|k: int|
            0 <= k < dm1.enums@.len() ==> {
                &&& (#[trigger] dm2.enums@[k]).name == dm1.enums@[k].name
                &&& dm2.enums@[k].mapped_name is None
                &&& dm2.enums@[k].doc == dm1.enums@[k].doc
                &&& dm2.enums@[k].values@.len() == dm1.enums@[k].values@.len()
                &&& forall|vi: int|
                    0 <= vi < dm1.enums@[k].values@.len() ==> crate::ast::enum_value_eqv(
                        #[trigger] dm2.enums@[k].values@[vi],
                        dm1.enums@[k].values@[vi],
                    )
            },
{
    lemma_no_warnings_no_mappings(dm1, w1);
    let ecats = crate::reconcile::enum_cats(cat);
    let n0 = prev0.enums@.len() as int;
    let eo1 = crate::reconcile::enum_outcomes(cat, prev0);
    let eord1 = output_positions(eo1, n0);
    assert(prev0.enums.len() == prev0.enums@.len());
    assert(dm1.enums.len() == dm1.enums@.len());
    assert forall|j1: int, j2: int| 0 <= j1 < j2 < ecats.len() implies ecats[j1]@ != ecats[j2]@
        by {
        assert(cat.enums[j1].name@ != cat.enums[j2].name@);
    }
    lemma_order_complete(prev0.enums@, ecats, false, eo1, n0);
    crate::order::lemma_output_positions_valid(eo1, n0);
    let n1 = dm1.enums@.len() as int;
    assert(n1 == eord1.len());
    // The first run's enums are named after their catalog enums.
    assert forall|k: int| 0 <= k < n1 implies (#[trigger] dm1.enums@[k]).name@ == ecats[eord1[k]]@
        by {
        let e = eord1[k];
        assert(crate::reconcile::enum_header_ok(dm1.enums@[k], cat, prev0, e));
        assert(dm1.enums@[k].mapped_name is None);
        match eo1[e] {
            MatchOutcome::Matched { prev: pm, renamed } => {
                assert(!renamed);
                crate::matching::lemma_outcome_matched(prev0.enums@, ecats, false, e);
                assert(prev0.enums@[pm as int].name@ == ecats[e]@);
                assert(dm1.enums@[k].name == prev0.enums@[pm as int].name);
            },
            MatchOutcome::Fresh => {
                assert(dm1.enums@[k].name == cat.enums[e].name);
            },
        }
    }
    assert forall|k1: int, k2: int| 0 <= k1 < k2 < n1 implies (#[trigger] dm1.enums@[k1]).name@
        != (#[trigger] dm1.enums@[k2]).name@ by {
        assert(eord1[k1] != eord1[k2]);
        if eord1[k1] < eord1[k2] {
            assert(ecats[eord1[k1]]@ != ecats[eord1[k2]]@);
        } else {
            assert(ecats[eord1[k2]]@ != ecats[eord1[k1]]@);
        }
    }
    // The second run pairs each catalog enum with the enum named after
    // it, exactly and in place.
    let eo2 = crate::reconcile::enum_outcomes(cat, dm1);
    assert forall|e: int| 0 <= e < ecats.len() implies exists|k: int|
        0 <= k < n1 && eord1[k] == e && #[trigger] eo2[e] == (MatchOutcome::Matched {
            prev: k as usize,
            renamed: false,
        }) by {
        assert(eord1.contains(e));
        let k = choose|k: int| 0 <= k < eord1.len() && eord1[k] == e;
        assert(dm1.enums@[k].name@ == ecats[e]@);
        crate::matching::lemma_first_exact_char(dm1.enums@, ecats[e]@, 0);
        match crate::matching::first_exact_from(dm1.enums@, ecats[e]@, 0) {
            Some(q) => {
                assert(dm1.enums@[q].name@ == ecats[e]@);
                if q != k {
                    if q < k {
                        assert(dm1.enums@[q].name@ != dm1.enums@[k].name@);
                    } else {
                        assert(dm1.enums@[k].name@ != dm1.enums@[q].name@);
                    }
                }
                assert(q == k);
                assert(eo2[e] == (MatchOutcome::Matched { prev: k as usize, renamed: false }));
            },
            None => {
                assert(false);
            },
        }
        assert(0 <= k < n1 && eord1[k] == e && eo2[e] == (MatchOutcome::Matched {
            prev: k as usize,
            renamed: false,
        }));
    }
    assert forall|m: int| 0 <= m < n1 implies prev_match_from(eo2, m, 0) == Some(
        #[trigger] eord1[m],
    ) by {
        let e = eord1[m];
        let k = choose|k: int|
            0 <= k < n1 && eord1[k] == e && #[trigger] eo2[e] == (MatchOutcome::Matched {
                prev: k as usize,
                renamed: false,
            });
        assert(k == m);
        lemma_first_match_unique(dm1.enums@, ecats, false, eo2, m, e);
    }
    let eord2 = output_positions(eo2, n1);
    lemma_order_of_full_match(eo2, eord1, n1);
    assert(eord1.take(n1) =~= eord1);
    assert forall|e: int| 0 <= e < eo2.len() implies (#[trigger] eo2[e]) is Matched by {
        let k = choose|k: int|
            0 <= k < n1 && eord1[k] == e && #[trigger] eo2[e] == (MatchOutcome::Matched {
                prev: k as usize,
                renamed: false,
            });
    }
    lemma_fresh_none(eo2, eo2.len() as int);
    assert(eord2 =~= eord1);
    assert(dm2.enums@.len() == eord2.len());
    // Per enum: the header and values come out unchanged.
    assert forall|k: int| 0 <= k < n1 implies {
        &&& (#[trigger] dm2.enums@[k]).name == dm1.enums@[k].name
        &&& dm2.enums@[k].mapped_name is None
        &&& dm2.enums@[k].doc == dm1.enums@[k].doc
        &&& dm2.enums@[k].values@.len() == dm1.enums@[k].values@.len()
        &&& forall|vi: int|
            0 <= vi < dm1.enums@[k].values@.len() ==> crate::ast::enum_value_eqv(
                #[trigger] dm2.enums@[k].values@[vi],
                dm1.enums@[k].values@[vi],
            )
    } by {
        let e = eord1[k];
        assert(eord2[k] == e);
        let kw = choose|kw: int|
            0 <= kw < n1 && eord1[kw] == e && #[trigger] eo2[e] == (MatchOutcome::Matched {
                prev: kw as usize,
                renamed: false,
            });
        assert(kw == k);
        assert(crate::reconcile::enum_header_ok(dm2.enums@[k], cat, dm1, e));
        assert(dm2.enums@[k].name == dm1.enums@[k].name);
        assert(dm2.enums@[k].mapped_name is None);
        assert(dm2.enums@[k].doc == dm1.enums@[k].doc);
        // The first run's values are named after the catalog members.
        assert(crate::reconcile::enum_values_ok(dm1.enums@[k], cat, prev0, e));
        assert(crate::reconcile::enum_values_ok(dm2.enums@[k], cat, dm1, e));
        let members = cat.enums[e].values@;
        let vals1 = dm1.enums@[k].values@;
        let vals2 = dm2.enums@[k].values@;
        assert(vals1.len() == members.len());
        assert(vals2.len() == members.len());
        let pv1 = crate::reconcile::prev_values_at(cat, prev0, e);
        let vo1 = crate::reconcile::value_outcomes_at(cat, prev0, e);
        assert forall|vi: int| 0 <= vi < members.len() implies (#[trigger] vals1[vi]).name@
            == members[vi]@ && vals1[vi].mapped_name is None by {
            assert(vals1[vi].mapped_name is None);
            match vo1[vi] {
                MatchOutcome::Matched { prev: i1, renamed: r1 } => {
                    assert(!r1);
                    match crate::reconcile::prev_enum_at(cat, prev0, e) {
                        Option::Some(m0) => {
                            crate::matching::lemma_outcome_valid(prev0.enums@, ecats, false, e);
                            assert(prev0.enums@[m0 as int].values.len() == prev0.enums@[
                                m0 as int
                            ].values@.len());
                            crate::matching::lemma_outcome_matched(pv1, members, true, vi);
                            assert(pv1[i1 as int].name@ == members[vi]@);
                        },
                        Option::None => {
                            assert(pv1.len() == 0);
                            crate::matching::lemma_outcome_matched(pv1, members, true, vi);
                        },
                    }
                },
                MatchOutcome::Fresh => {
                    assert(vals1[vi].name == members[vi]);
                },
            }
        }
        assert forall|j1: int, j2: int| 0 <= j1 < j2 < members.len() implies members[j1]@
            != members[j2]@ by {
            assert(cat.enums@[e].values[j1]@ != cat.enums@[e].values[j2]@);
        }
        // The second run's value outcomes: an identifier member matches
        // its own value exactly; any other yields a fresh value of the
        // same raw name.
        let vo2 = crate::reconcile::value_outcomes_at(cat, dm1, e);
        assert(crate::reconcile::prev_values_at(cat, dm1, e) == vals1);
        assert forall|vi: int| 0 <= vi < members.len() implies crate::ast::enum_value_eqv(
            #[trigger] vals2[vi],
            vals1[vi],
        ) by {
            assert(vo2[vi] == outcome_at(vals1, members, true, vi));
            assert(dm1.enums@[k].values.len() == vals1.len());
            crate::matching::lemma_outcome_matched(vals1, members, true, vi);
            match vo2[vi] {
                MatchOutcome::Matched { prev: i2, renamed: r2 } => {
                    if r2 {
                        assert(vals1[i2 as int].mapped_name is Some);
                    }
                    assert(vals1[i2 as int].name@ == members[vi]@);
                    if (i2 as int) != vi {
                        if (i2 as int) < vi {
                            assert(vals1[i2 as int].name@ != vals1[vi].name@);
                        } else {
                            assert(vals1[vi].name@ != vals1[i2 as int].name@);
                        }
                        assert(false);
                    }
                    assert(vals2[vi] == crate::merge::merged_value(members[vi], vals1[vi], false));
                },
                MatchOutcome::Fresh => {
                    assert(vals2[vi] == crate::merge::fresh_value(members[vi]));
                },
            }
        }
    }
}

/// Idempotence of a silent run: when a reconciliation records no warning,
/// reconciling its output against the same catalog again yields an equal
/// description — the same models with the same names, markers and scalar
/// fields, the same enums with the same values, in the same order — and
/// an empty warning list.  (A reconciliation that kept a mapping is no
/// fixed point of the warnings: the rename recurs by design, as the kept
/// name still diverges from the catalog name.)
pub proof fn lemma_silent_reconciliation_idempotent(
    cat: crate::catalog::CatalogSchema,
    prev0: Datamodel,
    dm1: Datamodel,
    w1: Seq<crate::warnings::Warning>,
    dm2: Datamodel,
    w2: Seq<crate::warnings::Warning>,
)
    requires
        crate::catalog::catalog_wf(cat),
        crate::reconcile::models_ok(dm1, cat, prev0),
        crate::reconcile::enums_ok(dm1, cat, prev0),
        warnings_ok(dm1, w1),
        w1.len() == 0,
        crate::reconcile::models_ok(dm2, cat, dm1),
        crate::reconcile::enums_ok(dm2, cat, dm1),
        warnings_ok(dm2, w2),
    ensures
        w2.len() == 0,
        dm2.models@.len() == dm1.models@.len(),
        forall|k: int|
            0 <= k < dm1.models@.len() ==> {
                &&& (#[trigger] dm2.models@[k]).name == dm1.models@[k].name
                &&& dm2.models@[k].mapped_name is None
                &&& dm2.models@[k].doc == dm1.models@[k].doc
                &&& dm2.models@[k].ignored == dm1.models@[k].ignored
                &&& crate::merge::scalar_fields(dm2.models@[k].fields@)
                    == crate::merge::scalar_fields(dm1.models@[k].fields@)
            },
        dm2.enums@.len() == dm1.enums@.len(),
        forall|k: int|
            0 <= k < dm1.enums@.len() ==> {
                &&& (#[trigger] dm2.enums@[k]).name == dm1.enums@[k].name
                &&& dm2.enums@[k].mapped_name is None
                &&& dm2.enums@[k].doc == dm1.enums@[k].doc
                &&& dm2.enums@[k].values@.len() == dm1.enums@[k].values@.len()
                &&& forall|vi: int|
                    0 <= vi < dm1.enums@[k].values@.len() ==> crate::ast::enum_value_eqv(
                        #[trigger] dm2.enums@[k].values@[vi],
                        dm1.enums@[k].values@[vi],
                    )
            },
{
    lemma_silent_reconciliation_stays_silent(cat, dm1, w1, dm2, w2);
    lemma_silent_rerun_preserves_models(cat, prev0, dm1, w1, dm2);
    lemma_silent_rerun_preserves_enums(cat, prev0, dm1, w1, dm2);
}

/// The reconciliation covers the whole catalog: every model table and
/// every catalog enum has exactly one place in the output order.
pub proof fn lemma_reconcile_covers_catalog(
    cat: crate::catalog::CatalogSchema,
    prev: Datamodel,
)
    requires
        crate::catalog::catalog_wf(cat),
        prev.models@.len() <= usize::MAX,
        prev.enums@.len() <= usize::MAX,
    ensures
        ({
            let ord = output_positions(
                crate::reconcile::model_outcomes(cat, prev),
                prev.models@.len() as int,
            );
            &&& forall|p: int| 0 <= p < crate::reconcile::model_cats(cat).len() ==> ord.contains(p)
            &&& forall|k1: int, k2: int| 0 <= k1 < k2 < ord.len() ==> ord[k1] != ord[k2]
        }),
        ({
            let ord = output_positions(
                crate::reconcile::enum_outcomes(cat, prev),
                prev.enums@.len() as int,
            );
            &&& forall|p: int| 0 <= p < cat.enums.len() ==> ord.contains(p)
            &&& forall|k1: int, k2: int| 0 <= k1 < k2 < ord.len() ==> ord[k1] != ord[k2]
        }),
{
    let mcats = crate::reconcile::model_cats(cat);
    lemma_real_positions_increasing(cat, cat.tables.len() as int);
    assert forall|j1: int, j2: int| 0 <= j1 < j2 < mcats.len() implies mcats[j1]@ != mcats[j2]@
        by {
        let rp = crate::reconcile::real_positions(cat);
        assert(rp[j1] < rp[j2]);
        assert(cat.tables[rp[j1]].name@ != cat.tables[rp[j2]].name@);
    }
    lemma_order_complete(
        prev.models@,
        mcats,
        false,
        crate::reconcile::model_outcomes(cat, prev),
        prev.models@.len() as int,
    );
    let ecats = crate::reconcile::enum_cats(cat);
    assert forall|j1: int, j2: int| 0 <= j1 < j2 < ecats.len() implies ecats[j1]@ != ecats[j2]@
        by {
        assert(cat.enums[j1].name@ != cat.enums[j2].name@);
    }
    lemma_order_complete(
        prev.enums@,
        ecats,
        false,
        crate::reconcile::enum_outcomes(cat, prev),
        prev.enums@.len() as int,
    );
}

/// Re-merging a merged field changes nothing: matching the same column
/// against the field the first merge produced — exactly when no mapping
/// was kept, via the mapping otherwise — yields that field unchanged.  In
/// particular a virtual default the first merge preserved survives every
/// further reconciliation against the same column.
pub proof fn lemma_scalar_merge_idempotent(
    t: crate::catalog::Table,
    ps: Seq<ScalarField>,
    fo: Seq<MatchOutcome>,
    ci: int,
)
    requires
        0 <= ci < t.columns.len(),
    ensures
        merged_scalar(
            t.columns[ci],
            merged_col_field(t, ps, fo, ci),
            merged_col_field(t, ps, fo, ci).mapped_name is Some,
        ) == merged_col_field(t, ps, fo, ci),
{
    let col = t.columns[ci];
    let f = merged_col_field(t, ps, fo, ci);
    assert(shape_unchanged(col, f));
}

/// A description without mappings yields no warnings: when no model,
/// field, enum or value of the merged output carries a mapped name, the
/// collected warning list is empty.
pub proof fn lemma_no_renames_no_warnings(dm: Datamodel, w: Seq<crate::warnings::Warning>)
    requires
        warnings_ok(dm, w),
        forall|i: int| 0 <= i < dm.models@.len() ==> (#[trigger] dm.models@[i]).mapped_name is None,
        forall|i: int, j: int|
            0 <= i < dm.models@.len() && 0 <= j < dm.models@[i].fields@.len() ==> (match
                #[trigger] dm.models@[i].fields@[j] {
                Field::Scalar(sf) => sf.mapped_name is None,
                Field::Relation(_) => true,
            }),
        forall|i: int| 0 <= i < dm.enums@.len() ==> (#[trigger] dm.enums@[i]).mapped_name is None,
        forall|i: int, j: int|
            0 <= i < dm.enums@.len() && 0 <= j < dm.enums@[i].values@.len() ==> (
            #[trigger] dm.enums@[i].values@[j]).mapped_name is None,
    ensures
        w.len() == 0,
{
    lemma_model_refs_empty(dm.models@);
    lemma_field_refs_empty(dm.models@);
    lemma_enum_refs_empty(dm.enums@);
    lemma_value_refs_empty(dm.enums@);
    if w.len() > 0 {
        assert(valid_code(w[0].code) && group_of(dm, w[0].code).len() > 0);
    }
}

proof fn lemma_scalar_fields_len(s: Seq<Field>)
    ensures
        crate::merge::scalar_fields(s).len() <= s.len(),
    decreases s.len(),
{
    if s.len() > 0 {
        lemma_scalar_fields_len(s.drop_last());
    }
}

proof fn lemma_scalar_fields_no_mappings(s: Seq<Field>)
    requires
        forall|j: int|
            0 <= j < s.len() ==> (match #[trigger] s[j] {
                Field::Scalar(sf) => sf.mapped_name is None,
                Field::Relation(_) => true,
            }),
    ensures
        forall|k: int|
            0 <= k < crate::merge::scalar_fields(s).len()
                ==> (#[trigger] crate::merge::scalar_fields(s)[k]).mapped_name is None,
    decreases s.len(),
{
    if s.len() > 0 {
        assert forall|j: int| 0 <= j < s.drop_last().len() implies (match #[trigger] s.drop_last()[j] {
            Field::Scalar(sf) => sf.mapped_name is None,
            Field::Relation(_) => true,
        }) by {
            assert(s.drop_last()[j] == s[j]);
        }
        lemma_scalar_fields_no_mappings(s.drop_last());
        assert(match s[s.len() - 1] {
            Field::Scalar(sf) => sf.mapped_name is None,
            Field::Relation(_) => true,
        });
    }
}

/// Silent runs stay silent: when a reconciliation records no warning, its
/// output carries no mapping, so reconciling that output against the same
/// catalog again records no warning either.  (With a mapping present the
/// rename recurs by design: the kept name still diverges from the catalog
/// name.)
pub proof fn lemma_silent_reconciliation_stays_silent(
    cat: crate::catalog::CatalogSchema,
    dm1: Datamodel,
    w1: Seq<crate::warnings::Warning>,
    dm2: Datamodel,
    w2: Seq<crate::warnings::Warning>,
)
    requires
        warnings_ok(dm1, w1),
        w1.len() == 0,
        crate::reconcile::models_ok(dm2, cat, dm1),
        crate::reconcile::enums_ok(dm2, cat, dm1),
        warnings_ok(dm2, w2),
    ensures
        w2.len() == 0,
{
    lemma_no_warnings_no_mappings(dm1, w1);
    let n1 = dm1.models@.len() as int;
    let mo = crate::reconcile::model_outcomes(cat, dm1);
    let ord = output_positions(mo, n1);
    let rp = crate::reconcile::real_positions(cat);
    crate::order::lemma_output_positions_valid(mo, n1);
    lemma_real_positions_increasing(cat, cat.tables.len() as int);
    assert(dm1.models.len() == dm1.models@.len());
    assert(dm1.enums.len() == dm1.enums@.len());
    // No model of the second output carries a mapping: a rename would
    // need a mapped name in the first output.
    assert forall|k: int| 0 <= k < dm2.models@.len() implies (
    #[trigger] dm2.models@[k]).mapped_name is None by {
        let p = ord[k];
        let ti = rp[p];
        assert(crate::reconcile::model_header_ok(dm2.models@[k], cat, dm1, ti));
        if crate::reconcile::renamed_at(cat, dm1, ti) {
            assert(crate::reconcile::real_positions_upto(cat, ti).len() == p);
            assert(mo[p] == outcome_at(dm1.models@, crate::reconcile::model_cats(cat), false, p));
            crate::matching::lemma_outcome_matched(
                dm1.models@,
                crate::reconcile::model_cats(cat),
                false,
                p,
            );
            let m = crate::reconcile::pot_at(cat, dm1, ti)->Some_0;
            assert(dm1.models@[m as int].mapped_name is Some);
        }
    }
    // Nor does any scalar field: the merged mapping comes from the field
    // outcome, and a renamed outcome needs a mapped previous field.
    let (rels, oftv) = choose|rels: Seq<crate::relations::RelEntry>, oftv: Seq<Vec<String>>|
        #[trigger] crate::reconcile::rels_ok(rels, cat, dm1, oftv) && crate::reconcile::oft_seq_ok(
            oftv,
            cat,
            dm1,
        ) && (forall|k: int|
            0 <= k < ord.len() ==> crate::reconcile::model_rels_ok(
                #[trigger] dm2.models@[k],
                cat,
                rels,
                rp[ord[k]],
            ));
    assert forall|k: int, j: int|
        0 <= k < dm2.models@.len() && 0 <= j < dm2.models@[k].fields@.len() implies (match
        #[trigger] dm2.models@[k].fields@[j] {
        Field::Scalar(sf) => sf.mapped_name is None,
        Field::Relation(_) => true,
    }) by {
        let p = ord[k];
        let ti = rp[p];
        let t = cat.tables[ti];
        assert(crate::reconcile::model_scalars_ok(dm2.models@[k], cat, dm1, ti));
        assert(crate::reconcile::model_rels_ok(dm2.models@[k], cat, rels, ti));
        let ncols = t.columns.len() as int;
        if j < ncols {
            let ps = crate::reconcile::prev_scalars_at(cat, dm1, ti);
            let ccats = crate::reconcile::col_cats(cat, ti);
            let fo = crate::reconcile::field_outcomes_at(cat, dm1, ti);
            assert(dm2.models@[k].fields@[j] == Field::Scalar(
                merged_col_field(t, ps, fo, j),
            ));
            match fo[j] {
                MatchOutcome::Matched { prev: i, renamed } => {
                    if renamed {
                        match crate::reconcile::pot_at(cat, dm1, ti) {
                            Option::Some(m) => {
                                assert(crate::reconcile::real_positions_upto(cat, ti).len() == p);
                                crate::matching::lemma_outcome_valid(
                                    dm1.models@,
                                    crate::reconcile::model_cats(cat),
                                    false,
                                    p,
                                );
                                let flds = dm1.models@[m as int].fields@;
                                assert(dm1.models@[m as int].fields.len() == flds.len());
                                lemma_scalar_fields_len(flds);
                                crate::matching::lemma_outcome_matched(ps, ccats, false, j);
                                lemma_scalar_fields_no_mappings(flds);
                                assert(ps[i as int].mapped_name is Some);
                            },
                            Option::None => {
                                assert(ps.len() == 0);
                                crate::matching::lemma_outcome_matched(ps, ccats, false, j);
                            },
                        }
                    }
                },
                MatchOutcome::Fresh => {},
            }
        } else {
            let own = crate::relations::owned_fields(rels, ti);
            assert(dm2.models@[k].fields@[ncols + (j - ncols)] matches Field::Relation(rf)
                && crate::relations::rf_like(rf, own[j - ncols]));
        }
    }
    // The enums of the second output carry no mapping either.
    let ne1 = dm1.enums@.len() as int;
    let eo = crate::reconcile::enum_outcomes(cat, dm1);
    let eord = output_positions(eo, ne1);
    crate::order::lemma_output_positions_valid(eo, ne1);
    assert forall|k: int| 0 <= k < dm2.enums@.len() implies (
    #[trigger] dm2.enums@[k]).mapped_name is None by {
        let e = eord[k];
        assert(crate::reconcile::enum_header_ok(dm2.enums@[k], cat, dm1, e));
        match eo[e] {
            MatchOutcome::Matched { prev: pm, renamed } => {
                if renamed {
                    crate::matching::lemma_outcome_matched(
                        dm1.enums@,
                        crate::reconcile::enum_cats(cat),
                        false,
                        e,
                    );
                    assert(dm1.enums@[pm as int].mapped_name is Some);
                }
            },
            MatchOutcome::Fresh => {},
        }
    }
    assert forall|k: int, j: int|
        0 <= k < dm2.enums@.len() && 0 <= j < dm2.enums@[k].values@.len() implies (
    #[trigger] dm2.enums@[k].values@[j]).mapped_name is None by {
        let e = eord[k];
        assert(crate::reconcile::enum_values_ok(dm2.enums@[k], cat, dm1, e));
        let pv = crate::reconcile::prev_values_at(cat, dm1, e);
        let vo = crate::reconcile::value_outcomes_at(cat, dm1, e);
        match vo[j] {
            MatchOutcome::Matched { prev: i, renamed } => {
                if renamed {
                    match crate::reconcile::prev_enum_at(cat, dm1, e) {
                        Option::Some(m) => {
                            assert(eo[e] == outcome_at(
                                dm1.enums@,
                                crate::reconcile::enum_cats(cat),
                                false,
                                e,
                            ));
                            crate::matching::lemma_outcome_valid(
                                dm1.enums@,
                                crate::reconcile::enum_cats(cat),
                                false,
                                e,
                            );
                            assert(dm1.enums@[m as int].values.len() == dm1.enums@[
                                m as int
                            ].values@.len());
                            crate::matching::lemma_outcome_matched(
                                pv,
                                cat.enums[e].values@,
                                true,
                                j,
                            );
                            assert(pv[i as int].mapped_name is Some);
                        },
                        Option::None => {
                            assert(pv.len() == 0);
                            crate::matching::lemma_outcome_matched(
                                pv,
                                cat.enums[e].values@,
                                true,
                                j,
                            );
                        },
                    }
                }
            },
            MatchOutcome::Fresh => {},
        }
    }
    lemma_no_renames_no_warnings(dm2, w2);
}

proof fn lemma_model_refs_empty(models: Seq<Model>)
    requires
        forall|i: int| 0 <= i < models.len() ==> (#[trigger] models[i]).mapped_name is None,
    ensures
        renamed_model_refs(models).len() == 0,
    decreases models.len(),
{
    if models.len() > 0 {
        assert(models[models.len() - 1].mapped_name is None);
        lemma_model_refs_empty(models.drop_last());
    }
}

proof fn lemma_field_refs_in_empty(model: String, fields: Seq<Field>)
    requires
        forall|j: int|
            0 <= j < fields.len() ==> (match #[trigger] fields[j] {
                Field::Scalar(sf) => sf.mapped_name is None,
                Field::Relation(_) => true,
            }),
    ensures
        field_refs_in(model, fields).len() == 0,
    decreases fields.len(),
{
    if fields.len() > 0 {
        assert(match fields[fields.len() - 1] {
            Field::Scalar(sf) => sf.mapped_name is None,
            Field::Relation(_) => true,
        });
        lemma_field_refs_in_empty(model, fields.drop_last());
    }
}

proof fn lemma_field_refs_empty(models: Seq<Model>)
    requires
        forall|i: int, j: int|
            0 <= i < models.len() && 0 <= j < models[i].fields@.len() ==> (match
                #[trigger] models[i].fields@[j] {
                Field::Scalar(sf) => sf.mapped_name is None,
                Field::Relation(_) => true,
            }),
    ensures
        renamed_field_refs(models).len() == 0,
    decreases models.len(),
{
    if models.len() > 0 {
        let last = models[models.len() - 1];
        assert forall|j: int| 0 <= j < last.fields@.len() implies (match #[trigger] last.fields@[j] {
            Field::Scalar(sf) => sf.mapped_name is None,
            Field::Relation(_) => true,
        }) by {
            assert(models[models.len() - 1].fields@[j] == last.fields@[j]);
        }
        lemma_field_refs_in_empty(last.name, last.fields@);
        lemma_field_refs_empty(models.drop_last());
    }
}

proof fn lemma_enum_refs_empty(enums: Seq<crate::ast::Enum>)
    requires
        forall|i: int| 0 <= i < enums.len() ==> (#[trigger] enums[i]).mapped_name is None,
    ensures
        renamed_enum_refs(enums).len() == 0,
    decreases enums.len(),
{
    if enums.len() > 0 {
        assert(enums[enums.len() - 1].mapped_name is None);
        lemma_enum_refs_empty(enums.drop_last());
    }
}

proof fn lemma_value_refs_in_empty(enm: String, values: Seq<crate::ast::EnumValue>)
    requires
        forall|j: int| 0 <= j < values.len() ==> (#[trigger] values[j]).mapped_name is None,
    ensures
        value_refs_in(enm, values).len() == 0,
    decreases values.len(),
{
    if values.len() > 0 {
        assert(values[values.len() - 1].mapped_name is None);
        lemma_value_refs_in_empty(enm, values.drop_last());
    }
}

/// A silent reconciliation kept no mapping: when the collected warning
/// list is empty, no model, field, enum or value of the merged output
/// carries a mapped name.
pub proof fn lemma_no_warnings_no_mappings(dm: Datamodel, w: Seq<crate::warnings::Warning>)
    requires
        warnings_ok(dm, w),
        w.len() == 0,
    ensures
        forall|i: int| 0 <= i < dm.models@.len() ==> (#[trigger] dm.models@[i]).mapped_name is None,
        forall|i: int, j: int|
            0 <= i < dm.models@.len() && 0 <= j < dm.models@[i].fields@.len() ==> (match
                #[trigger] dm.models@[i].fields@[j] {
                Field::Scalar(sf) => sf.mapped_name is None,
                Field::Relation(_) => true,
            }),
        forall|i: int| 0 <= i < dm.enums@.len() ==> (#[trigger] dm.enums@[i]).mapped_name is None,
        forall|i: int, j: int|
            0 <= i < dm.enums@.len() && 0 <= j < dm.enums@[i].values@.len() ==> (
            #[trigger] dm.enums@[i].values@[j]).mapped_name is None,
{
    assert(renamed_model_refs(dm.models@).len() == 0) by {
        if renamed_model_refs(dm.models@).len() > 0 {
            assert(group_of(dm, crate::warnings::CODE_MODEL_RENAMED) == renamed_model_refs(dm.models@));
            assert(valid_code(crate::warnings::CODE_MODEL_RENAMED));
            assert(exists|a: int|
                0 <= a < w.len() && (#[trigger] w[a]).code == crate::warnings::CODE_MODEL_RENAMED);
        }
    }
    assert(renamed_field_refs(dm.models@).len() == 0) by {
        if renamed_field_refs(dm.models@).len() > 0 {
            assert(group_of(dm, crate::warnings::CODE_FIELD_RENAMED) == renamed_field_refs(dm.models@));
            assert(valid_code(crate::warnings::CODE_FIELD_RENAMED));
            assert(exists|a: int|
                0 <= a < w.len() && (#[trigger] w[a]).code == crate::warnings::CODE_FIELD_RENAMED);
        }
    }
    assert(renamed_enum_refs(dm.enums@).len() == 0) by {
        if renamed_enum_refs(dm.enums@).len() > 0 {
            assert(group_of(dm, crate::warnings::CODE_ENUM_RENAMED) == renamed_enum_refs(dm.enums@));
            assert(valid_code(crate::warnings::CODE_ENUM_RENAMED));
            assert(exists|a: int|
                0 <= a < w.len() && (#[trigger] w[a]).code == crate::warnings::CODE_ENUM_RENAMED);
        }
    }
    assert(renamed_value_refs(dm.enums@).len() == 0) by {
        if renamed_value_refs(dm.enums@).len() > 0 {
            assert(group_of(dm, crate::warnings::CODE_VALUE_RENAMED) == renamed_value_refs(dm.enums@));
            assert(valid_code(crate::warnings::CODE_VALUE_RENAMED));
            assert(exists|a: int|
                0 <= a < w.len() && (#[trigger] w[a]).code == crate::warnings::CODE_VALUE_RENAMED);
        }
    }
    lemma_model_refs_none(dm.models@);
    lemma_field_refs_none(dm.models@);
    lemma_enum_refs_none(dm.enums@);
    lemma_value_refs_none(dm.enums@);
}

proof fn lemma_model_refs_none(models: Seq<Model>)
    requires
        renamed_model_refs(models).len() == 0,
    ensures
        forall|i: int| 0 <= i < models.len() ==> (#[trigger] models[i]).mapped_name is None,
    decreases models.len(),
{
    if models.len() > 0 {
        lemma_model_refs_none(models.drop_last());
        assert forall|i: int| 0 <= i < models.len() implies (#[trigger] models[i]).mapped_name
            is None by {
            if i < models.len() - 1 {
                assert(models.drop_last()[i] == models[i]);
            }
        }
    }
}

proof fn lemma_field_refs_in_none(model: String, fields: Seq<Field>)
    requires
        field_refs_in(model, fields).len() == 0,
    ensures
        forall|j: int|
            0 <= j < fields.len() ==> (match #[trigger] fields[j] {
                Field::Scalar(sf) => sf.mapped_name is None,
                Field::Relation(_) => true,
            }),
    decreases fields.len(),
{
    if fields.len() > 0 {
        lemma_field_refs_in_none(model, fields.drop_last());
        assert forall|j: int| 0 <= j < fields.len() implies (match #[trigger] fields[j] {
            Field::Scalar(sf) => sf.mapped_name is None,
            Field::Relation(_) => true,
        }) by {
            if j < fields.len() - 1 {
                assert(fields.drop_last()[j] == fields[j]);
            }
        }
    }
}

proof fn lemma_field_refs_none(models: Seq<Model>)
    requires
        renamed_field_refs(models).len() == 0,
    ensures
        forall|i: int, j: int|
            0 <= i < models.len() && 0 <= j < models[i].fields@.len() ==> (match
                #[trigger] models[i].fields@[j] {
                Field::Scalar(sf) => sf.mapped_name is None,
                Field::Relation(_) => true,
            }),
    decreases models.len(),
{
    if models.len() > 0 {
        lemma_field_refs_none(models.drop_last());
        lemma_field_refs_in_none(models.last().name, models.last().fields@);
        assert forall|i: int, j: int|
            0 <= i < models.len() && 0 <= j < models[i].fields@.len() implies (match
            #[trigger] models[i].fields@[j] {
            Field::Scalar(sf) => sf.mapped_name is None,
            Field::Relation(_) => true,
        }) by {
            if i < models.len() - 1 {
                assert(models.drop_last()[i] == models[i]);
            } else {
                assert(models[i] == models.last());
            }
        }
    }
}

proof fn lemma_enum_refs_none(enums: Seq<crate::ast::Enum>)
    requires
        renamed_enum_refs(enums).len() == 0,
    ensures
        forall|i: int| 0 <= i < enums.len() ==> (#[trigger] enums[i]).mapped_name is None,
    decreases enums.len(),
{
    if enums.len() > 0 {
        lemma_enum_refs_none(enums.drop_last());
        assert forall|i: int| 0 <= i < enums.len() implies (#[trigger] enums[i]).mapped_name
            is None by {
            if i < enums.len() - 1 {
                assert(enums.drop_last()[i] == enums[i]);
            }
        }
    }
}

proof fn lemma_value_refs_in_none(enm: String, values: Seq<crate::ast::EnumValue>)
    requires
        value_refs_in(enm, values).len() == 0,
    ensures
        forall|j: int| 0 <= j < values.len() ==> (#[trigger] values[j]).mapped_name is None,
    decreases values.len(),
{
    if values.len() > 0 {
        lemma_value_refs_in_none(enm, values.drop_last());
        assert forall|j: int| 0 <= j < values.len() implies (#[trigger] values[j]).mapped_name
            is None by {
            if j < values.len() - 1 {
                assert(values.drop_last()[j] == values[j]);
            }
        }
    }
}

proof fn lemma_value_refs_none(enums: Seq<crate::ast::Enum>)
    requires
        renamed_value_refs(enums).len() == 0,
    ensures
        forall|i: int, j: int|
            0 <= i < enums.len() && 0 <= j < enums[i].values@.len() ==> (
            #[trigger] enums[i].values@[j]).mapped_name is None,
    decreases enums.len(),
{
    if enums.len() > 0 {
        lemma_value_refs_none(enums.drop_last());
        lemma_value_refs_in_none(enums.last().name, enums.last().values@);
        assert forall|i: int, j: int|
            0 <= i < enums.len() && 0 <= j < enums[i].values@.len() implies (
        #[trigger] enums[i].values@[j]).mapped_name is None by {
            if i < enums.len() - 1 {
                assert(enums.drop_last()[i] == enums[i]);
            } else {
                assert(enums[i] == enums.last());
            }
        }
    }
}

proof fn lemma_value_refs_empty(enums: Seq<crate::ast::Enum>)
    requires
        forall|i: int, j: int|
            0 <= i < enums.len() && 0 <= j < enums[i].values@.len() ==> (
            #[trigger] enums[i].values@[j]).mapped_name is None,
    ensures
        renamed_value_refs(enums).len() == 0,
    decreases enums.len(),
{
    if enums.len() > 0 {
        let last = enums[enums.len() - 1];
        assert forall|j: int| 0 <= j < last.values@.len() implies (#[trigger] last.values@[j]).mapped_name
            is None by {
            assert(enums[enums.len() - 1].values@[j] == last.values@[j]);
        }
        lemma_value_refs_in_empty(last.name, last.values@);
        lemma_value_refs_empty(enums.drop_last());
    }
}

} // verus!
