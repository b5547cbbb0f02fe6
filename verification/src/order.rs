//! The order resolver.
//!
//! The final order of a category (models, enums) is: previously declared
//! entities that still have a catalog match, in their previous relative
//! order, with dropped entities removed; then newly discovered catalog
//! entities, in catalog-yield order.

use vstd::prelude::*;
use crate::matching::MatchOutcome;

verus! {

/// The first catalog position at or after `j` matched to previous entity
/// `m`, if any.
pub open spec fn prev_match_from(mo: Seq<MatchOutcome>, m: int, j: int) -> Option<int>
    decreases mo.len() - j,
{
    if j < 0 || j >= mo.len() {
        None
    } else {
        match mo[j] {
            MatchOutcome::Matched { prev: p, .. } => if p == m {
                Some(j)
            } else {
                prev_match_from(mo, m, j + 1)
            },
            MatchOutcome::Fresh => prev_match_from(mo, m, j + 1),
        }
    }
}

/// The catalog positions of the surviving previous entities below `upto`,
/// in previous order.
pub open spec fn survivor_positions(mo: Seq<MatchOutcome>, upto: int) -> Seq<int>
    decreases upto,
{
    if upto <= 0 {
        Seq::empty()
    } else {
        survivor_positions(mo, upto - 1) + (match prev_match_from(mo, upto - 1, 0) {
            Some(p) => seq![p],
            None => Seq::empty(),
        })
    }
}

/// The previous indices of the surviving previous entities below `upto`,
/// in previous order.
pub open spec fn survivor_prevs(mo: Seq<MatchOutcome>, upto: int) -> Seq<int>
    decreases upto,
{
    if upto <= 0 {
        Seq::empty()
    } else {
        survivor_prevs(mo, upto - 1) + (match prev_match_from(mo, upto - 1, 0) {
            Some(p) => seq![upto - 1],
            None => Seq::empty(),
        })
    }
}

/// The catalog positions of the fresh entities below `upto`, in catalog
/// order.
pub open spec fn fresh_positions(mo: Seq<MatchOutcome>, upto: int) -> Seq<int>
    decreases upto,
{
    if upto <= 0 {
        Seq::empty()
    } else {
        fresh_positions(mo, upto - 1) + (if mo[upto - 1] is Fresh {
            seq![upto - 1]
        } else {
            Seq::empty()
        })
    }
}

/// The output order of one category, as catalog positions: survivors in
/// previous order, then fresh entities in catalog order.
pub open spec fn output_positions(mo: Seq<MatchOutcome>, nprev: int) -> Seq<int> {
    survivor_positions(mo, nprev) + fresh_positions(mo, mo.len() as int)
}

/// What `prev_match_from` yields: the first catalog position matched to
/// `m`, or a guarantee that none from `j` on is.
pub proof fn lemma_prev_match_char(mo: Seq<MatchOutcome>, m: int, j: int)
    requires
        0 <= j <= mo.len(),
    ensures
        match prev_match_from(mo, m, j) {
            Some(p) => j <= p < mo.len() && (mo[p] matches MatchOutcome::Matched { prev: pp, .. }
                && pp == m) && forall|q: int|
                j <= q < p ==> !(#[trigger] mo[q] matches MatchOutcome::Matched { prev: pp, .. }
                    && pp == m),
            None => forall|q: int|
                j <= q < mo.len() ==> !(#[trigger] mo[q] matches MatchOutcome::Matched {
                    prev: pp,
                    ..
                } && pp == m),
        },
    decreases mo.len() - j,
{
    if j < mo.len() {
        match mo[j] {
            MatchOutcome::Matched { prev: p, .. } => {
                if p != m {
                    lemma_prev_match_char(mo, m, j + 1);
                }
            },
            MatchOutcome::Fresh => {
                lemma_prev_match_char(mo, m, j + 1);
            },
        }
    }
}

/// The order law for the surviving part: positions and previous indices
/// correspond one to one; the previous relative order is kept; exactly the
/// matched previous entities survive; every position is a real catalog
/// position.
pub proof fn lemma_survivor_law(mo: Seq<MatchOutcome>, upto: int)
    requires
        0 <= upto,
    ensures
        survivor_positions(mo, upto).len() == survivor_prevs(mo, upto).len(),
        forall|k: int|
            0 <= k < survivor_prevs(mo, upto).len() ==> 0 <= #[trigger] survivor_prevs(mo, upto)[k]
                < upto && prev_match_from(mo, survivor_prevs(mo, upto)[k], 0) == Some(
                survivor_positions(mo, upto)[k],
            ) && 0 <= survivor_positions(mo, upto)[k] < mo.len(),
        forall|a: int, b: int|
            0 <= a < b < survivor_prevs(mo, upto).len() ==> #[trigger] survivor_prevs(mo, upto)[a]
                < #[trigger] survivor_prevs(mo, upto)[b],
        forall|m: int|
            0 <= m < upto ==> (survivor_prevs(mo, upto).contains(m) <==> prev_match_from(mo, m, 0)
                is Some),
    decreases upto,
{
    if upto > 0 {
        lemma_survivor_law(mo, upto - 1);
        lemma_prev_match_char(mo, upto - 1, 0);
        let sp = survivor_prevs(mo, upto);
        let spp = survivor_prevs(mo, upto - 1);
        assert forall|m: int| 0 <= m < upto implies (sp.contains(m) <==> prev_match_from(mo, m, 0)
            is Some) by {
            match prev_match_from(mo, upto - 1, 0) {
                Some(p) => {
                    if m == upto - 1 {
                        assert(sp[sp.len() - 1] == m);
                        assert(sp.contains(m));
                    } else {
                        if spp.contains(m) {
                            let k = choose|k: int| 0 <= k < spp.len() && spp[k] == m;
                            assert(sp[k] == m);
                            assert(sp.contains(m));
                        }
                        if sp.contains(m) {
                            let k = choose|k: int| 0 <= k < sp.len() && sp[k] == m;
                            assert(k < spp.len());
                            assert(spp[k] == m);
                            assert(spp.contains(m));
                        }
                    }
                },
                None => {
                    if m == upto - 1 {
                        if sp.contains(m) {
                            let k = choose|k: int| 0 <= k < sp.len() && sp[k] == m;
                            assert(spp[k] == m);
                        }
                    } else {
                        if spp.contains(m) {
                            let k = choose|k: int| 0 <= k < spp.len() && spp[k] == m;
                            assert(sp[k] == m);
                            assert(sp.contains(m));
                        }
                        if sp.contains(m) {
                            let k = choose|k: int| 0 <= k < sp.len() && sp[k] == m;
                            assert(spp[k] == m);
                            assert(spp.contains(m));
                        }
                    }
                },
            }
        }
    }
}

/// The order law for the fresh part: catalog order is kept, and exactly
/// the fresh catalog entities appear.
pub proof fn lemma_fresh_law(mo: Seq<MatchOutcome>, upto: int)
    requires
        0 <= upto <= mo.len(),
    ensures
        forall|k: int|
            0 <= k < fresh_positions(mo, upto).len() ==> 0 <= #[trigger] fresh_positions(
                mo,
                upto,
            )[k] < upto && mo[fresh_positions(mo, upto)[k]] is Fresh,
        forall|a: int, b: int|
            0 <= a < b < fresh_positions(mo, upto).len() ==> #[trigger] fresh_positions(
                mo,
                upto,
            )[a] < #[trigger] fresh_positions(mo, upto)[b],
        forall|p: int|
            0 <= p < upto ==> (fresh_positions(mo, upto).contains(p) <==> mo[p] is Fresh),
    decreases upto,
{
    if upto > 0 {
        lemma_fresh_law(mo, upto - 1);
        let fp = fresh_positions(mo, upto);
        let fpp = fresh_positions(mo, upto - 1);
        assert forall|p: int| 0 <= p < upto implies (fp.contains(p) <==> mo[p] is Fresh) by {
            if mo[upto - 1] is Fresh {
                if p == upto - 1 {
                    assert(fp[fp.len() - 1] == p);
                    assert(fp.contains(p));
                } else {
                    if fpp.contains(p) {
                        let k = choose|k: int| 0 <= k < fpp.len() && fpp[k] == p;
                        assert(fp[k] == p);
                        assert(fp.contains(p));
                    }
                    if fp.contains(p) {
                        let k = choose|k: int| 0 <= k < fp.len() && fp[k] == p;
                        assert(k < fpp.len());
                        assert(fpp[k] == p);
                        assert(fpp.contains(p));
                    }
                }
            } else {
                if p == upto - 1 {
                    if fp.contains(p) {
                        let k = choose|k: int| 0 <= k < fp.len() && fp[k] == p;
                        assert(fpp[k] == p);
                    }
                } else {
                    if fpp.contains(p) {
                        let k = choose|k: int| 0 <= k < fpp.len() && fpp[k] == p;
                        assert(fp[k] == p);
                        assert(fp.contains(p));
                    }
                    if fp.contains(p) {
                        let k = choose|k: int| 0 <= k < fp.len() && fp[k] == p;
                        assert(fpp[k] == p);
                        assert(fpp.contains(p));
                    }
                }
            }
        }
    }
}

/// Every output position is a real catalog position.
pub proof fn lemma_output_positions_valid(mo: Seq<MatchOutcome>, nprev: int)
    requires
        0 <= nprev,
    ensures
        forall|k: int|
            0 <= k < output_positions(mo, nprev).len() ==> 0 <= #[trigger] output_positions(
                mo,
                nprev,
            )[k] < mo.len(),
{
    lemma_survivor_law(mo, nprev);
    lemma_fresh_law(mo, mo.len() as int);
    assert forall|k: int| 0 <= k < output_positions(mo, nprev).len() implies 0
        <= #[trigger] output_positions(mo, nprev)[k] < mo.len() by {
        let s = survivor_positions(mo, nprev);
        let f = fresh_positions(mo, mo.len() as int);
        assert(output_positions(mo, nprev) == s + f);
        assert(s.len() == survivor_prevs(mo, nprev).len());
        if k < s.len() {
            let m = survivor_prevs(mo, nprev)[k];
            assert(0 <= m < nprev && prev_match_from(mo, m, 0) == Some(s[k]) && 0 <= s[k]
                < mo.len());
            assert((s + f)[k] == s[k]);
        } else {
            let kk = k - s.len();
            assert(0 <= f[kk] < mo.len() && mo[f[kk]] is Fresh);
            assert((s + f)[k] == f[kk]);
        }
    }
}

/// Finds the catalog position matched to previous entity `m`.
fn find_prev_match(mo: &Vec<MatchOutcome>, m: usize) -> (r: Option<usize>)
    ensures
        match r {
            Option::Some(p) => prev_match_from(mo@, m as int, 0) == Some(p as int),
            Option::None => prev_match_from(mo@, m as int, 0) is None,
        },
{
    let mut j: usize = 0;
    while j < mo.len()
        invariant
            j <= mo@.len(),
            prev_match_from(mo@, m as int, 0) == prev_match_from(mo@, m as int, j as int),
        decreases mo@.len() - j,
    {
        match mo[j] {
            MatchOutcome::Matched { prev: p, .. } => {
                if p == m {
                    return Option::Some(j);
                }
            },
            MatchOutcome::Fresh => {},
        }
        j += 1;
    }
    Option::None
}

/// Computes the output order of one category.
pub fn compute_order(mo: &Vec<MatchOutcome>, nprev: usize) -> (r: Vec<usize>)
    ensures
        r@.len() == output_positions(mo@, nprev as int).len(),
        forall|k: int|
            0 <= k < r@.len() ==> (#[trigger] r@[k]) as int == output_positions(
                mo@,
                nprev as int,
            )[k] && r@[k] < mo@.len(),
{
    let mut r: Vec<usize> = Vec::new();
    let mut m: usize = 0;
    while m < nprev
        invariant
            m <= nprev,
            r@.len() == survivor_positions(mo@, m as int).len(),
            forall|k: int|
                0 <= k < r@.len() ==> (#[trigger] r@[k]) as int == survivor_positions(
                    mo@,
                    m as int,
                )[k] && r@[k] < mo@.len(),
        decreases nprev - m,
    {
        match find_prev_match(mo, m) {
            Option::Some(p) => {
                proof {
                    lemma_prev_match_char(mo@, m as int, 0);
                }
                r.push(p);
            },
            Option::None => {},
        }
        m += 1;
    }
    let ghost surv = survivor_positions(mo@, nprev as int);
    let mut p: usize = 0;
    while p < mo.len()
        invariant
            p <= mo@.len(),
            surv == survivor_positions(mo@, nprev as int),
            r@.len() == surv.len() + fresh_positions(mo@, p as int).len(),
            forall|k: int|
                0 <= k < r@.len() ==> (#[trigger] r@[k]) as int == (surv + fresh_positions(
                    mo@,
                    p as int,
                ))[k] && r@[k] < mo@.len(),
        decreases mo@.len() - p,
    {
        let is_fresh = match mo[p] {
            MatchOutcome::Fresh => true,
            MatchOutcome::Matched { .. } => false,
        };
        if is_fresh {
            r.push(p);
        }
        p += 1;
    }
    r
}

} // verus!
