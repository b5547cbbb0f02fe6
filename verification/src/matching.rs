//! The shared two-pass entity matcher.
//!
//! Any entity that exposes a canonical name and an optional mapped (alias)
//! name can be paired with catalog entities, one category at a time:
//! models with tables, enums with enum types, and — once a parent pair is
//! fixed — fields with columns and enum values with catalog members.
//!
//! Pass one pairs a previous entity with the catalog entity of the same
//! name.  Pass two pairs a still-unmatched catalog entity with the previous
//! entity whose mapped name equals the catalog name; such a pair is a
//! rename and is recorded by the caller.  A catalog entity left unmatched
//! becomes a fresh entity; a previous entity left unmatched is dropped.
//! When two previous entities both carry a mapped name equal to the same
//! catalog name, matching is ambiguous and fails fatally: no partial
//! output.

use vstd::prelude::*;
use vstd::pervasive::VecAdditionalExecFns;
use crate::ast::{opt_view, Enum, EnumValue, Model, ScalarField};
use crate::ident::{is_valid_identifier, valid_identifier};

verus! {

/// Matching contract: a canonical name and an optional mapped name.
pub trait Matchable {
    /// The entity's canonical name.
    spec fn key_name(&self) -> Seq<char>;

    /// The entity's mapped (alias) name, if any.
    spec fn key_mapped(&self) -> Option<Seq<char>>;

    /// Yields the canonical name.
    fn match_name(&self) -> (r: &String)
        ensures
            r@ == self.key_name(),
    ;

    /// Yields the mapped name, if any.
    fn match_mapped(&self) -> (r: Option<&String>)
        ensures
            match r {
                Option::Some(s) => self.key_mapped() == Option::Some(s@),
                Option::None => self.key_mapped() is None,
            },
    ;
}

/// How one catalog entity fared.
#[derive(Clone, Copy, Debug, PartialEq, Eq, Structural)]
pub enum MatchOutcome {
    /// No previous counterpart: the catalog entity is new.
    Fresh,
    /// Paired with previous entity `prev`; `renamed` says the pair came
    /// from the mapped-name pass.
    Matched { prev: usize, renamed: bool },
}

/// Whether a catalog name may take part in the exact-name pass.  For
/// categories whose raw catalog values need not be identifiers (enum
/// members), only valid identifiers match exactly.
pub open spec fn exact_ok(name: Seq<char>, need_valid: bool) -> bool {
    !need_valid || is_valid_identifier(name)
}

/// The first previous entity at or after `i` whose canonical name is
/// `name`, if any.
pub open spec fn first_exact_from<T: Matchable>(prev: Seq<T>, name: Seq<char>, i: int) -> Option<
    int,
>
    decreases prev.len() - i,
{
    if i < 0 || i >= prev.len() {
        None
    } else if prev[i].key_name() == name {
        Some(i)
    } else {
        first_exact_from(prev, name, i + 1)
    }
}

/// The exact-name pass for one catalog name.
pub open spec fn exact_match<T: Matchable>(prev: Seq<T>, name: Seq<char>, need_valid: bool) -> Option<
    int,
> {
    if exact_ok(name, need_valid) {
        first_exact_from(prev, name, 0)
    } else {
        None
    }
}

/// Whether previous entity `i` is consumed by the exact-name pass of some
/// catalog entity.
pub open spec fn exact_consumed<T: Matchable>(
    prev: Seq<T>,
    cats: Seq<String>,
    need_valid: bool,
    i: int,
) -> bool {
    exists|j: int|
        0 <= j < cats.len() && #[trigger] exact_match(prev, cats[j]@, need_valid) == Some(i)
}

/// Whether previous entity `i` is a mapped-name candidate for catalog name
/// `name`: not consumed by the exact pass, and mapped to `name`.
pub open spec fn mapped_candidate<T: Matchable>(
    prev: Seq<T>,
    cats: Seq<String>,
    need_valid: bool,
    name: Seq<char>,
    i: int,
) -> bool {
    &&& 0 <= i < prev.len()
    &&& prev[i].key_mapped() == Some(name)
    &&& !exact_consumed(prev, cats, need_valid, i)
}

/// The first mapped-name candidate at or after `i` for `name`, if any.
pub open spec fn first_candidate_from<T: Matchable>(
    prev: Seq<T>,
    cats: Seq<String>,
    need_valid: bool,
    name: Seq<char>,
    i: int,
) -> Option<int>
    decreases prev.len() - i,
{
    if i < 0 || i >= prev.len() {
        None
    } else if mapped_candidate(prev, cats, need_valid, name, i) {
        Some(i)
    } else {
        first_candidate_from(prev, cats, need_valid, name, i + 1)
    }
}

/// How many mapped-name candidates for `name` lie below `upto`.
pub open spec fn candidate_count<T: Matchable>(
    prev: Seq<T>,
    cats: Seq<String>,
    need_valid: bool,
    name: Seq<char>,
    upto: int,
) -> nat
    decreases upto,
{
    if upto <= 0 {
        0
    } else {
        candidate_count(prev, cats, need_valid, name, upto - 1) + if mapped_candidate(
            prev,
            cats,
            need_valid,
            name,
            upto - 1,
        ) {
            1nat
        } else {
            0nat
        }
    }
}

/// Matching for `name` is ambiguous: no exact match, and two or more
/// previous entities mapped to it.
pub open spec fn ambiguous_name<T: Matchable>(
    prev: Seq<T>,
    cats: Seq<String>,
    need_valid: bool,
    name: Seq<char>,
) -> bool {
    &&& exact_match(prev, name, need_valid) is None
    &&& candidate_count(prev, cats, need_valid, name, prev.len() as int) >= 2
}

/// Some catalog entity's matching is ambiguous.
pub open spec fn any_ambiguous<T: Matchable>(
    prev: Seq<T>,
    cats: Seq<String>,
    need_valid: bool,
) -> bool {
    exists|j: int|
        0 <= j < cats.len() && ambiguous_name(prev, cats, need_valid, (#[trigger] cats[j])@)
}

/// The outcome of the two passes for catalog entity `j`, when no ambiguity
/// strikes it.
pub open spec fn outcome_at<T: Matchable>(
    prev: Seq<T>,
    cats: Seq<String>,
    need_valid: bool,
    j: int,
) -> MatchOutcome {
    match exact_match(prev, cats[j]@, need_valid) {
        Some(i) => MatchOutcome::Matched { prev: i as usize, renamed: false },
        None => match first_candidate_from(prev, cats, need_valid, cats[j]@, 0) {
            Some(i) => MatchOutcome::Matched { prev: i as usize, renamed: true },
            None => MatchOutcome::Fresh,
        },
    }
}

/// A matched outcome always points into the previous-entity list.
pub proof fn lemma_outcome_valid<T: Matchable>(
    prev: Seq<T>,
    cats: Seq<String>,
    need_valid: bool,
    j: int,
)
    requires
        prev.len() <= usize::MAX,
        0 <= j < cats.len(),
    ensures
        match outcome_at(prev, cats, need_valid, j) {
            MatchOutcome::Matched { prev: p, .. } => p < prev.len(),
            MatchOutcome::Fresh => true,
        },
{
    lemma_first_exact_char(prev, cats[j]@, 0);
    lemma_first_candidate_char(prev, cats, need_valid, cats[j]@, 0);
}

/// What a matched outcome says of the paired previous entity: an exact
/// pair shares the canonical name; a renamed pair's previous entity is
/// mapped to the catalog name.
pub proof fn lemma_outcome_matched<T: Matchable>(
    prev: Seq<T>,
    cats: Seq<String>,
    need_valid: bool,
    j: int,
)
    requires
        prev.len() <= usize::MAX,
        0 <= j < cats.len(),
    ensures
        match outcome_at(prev, cats, need_valid, j) {
            MatchOutcome::Matched { prev: p, renamed } => p < prev.len() && (if renamed {
                prev[p as int].key_mapped() == Some(cats[j]@)
            } else {
                prev[p as int].key_name() == cats[j]@
            }),
            MatchOutcome::Fresh => true,
        },
{
    lemma_first_exact_char(prev, cats[j]@, 0);
    lemma_first_candidate_char(prev, cats, need_valid, cats[j]@, 0);
}

/// What `first_exact_from` yields: the first entity of that name, with
/// nothing of the name before it, or a guarantee that none has the name.
pub proof fn lemma_first_exact_char<T: Matchable>(prev: Seq<T>, name: Seq<char>, i: int)
    requires
        0 <= i <= prev.len(),
    ensures
        match first_exact_from(prev, name, i) {
            Some(k) => i <= k < prev.len() && prev[k].key_name() == name && forall|m: int|
                i <= m < k ==> (#[trigger] prev[m]).key_name() != name,
            None => forall|m: int| i <= m < prev.len() ==> (#[trigger] prev[m]).key_name() != name,
        },
    decreases prev.len() - i,
{
    if i < prev.len() {
        if prev[i].key_name() == name {
        } else {
            lemma_first_exact_char(prev, name, i + 1);
        }
    }
}

proof fn lemma_first_candidate_char<T: Matchable>(
    prev: Seq<T>,
    cats: Seq<String>,
    need_valid: bool,
    name: Seq<char>,
    i: int,
)
    requires
        0 <= i <= prev.len(),
    ensures
        match first_candidate_from(prev, cats, need_valid, name, i) {
            Some(k) => i <= k < prev.len() && mapped_candidate(prev, cats, need_valid, name, k)
                && forall|m: int|
                i <= m < k ==> !mapped_candidate(prev, cats, need_valid, name, m),
            None => forall|m: int|
                i <= m < prev.len() ==> !mapped_candidate(prev, cats, need_valid, name, m),
        },
    decreases prev.len() - i,
{
    if i < prev.len() {
        if mapped_candidate(prev, cats, need_valid, name, i) {
        } else {
            lemma_first_candidate_char(prev, cats, need_valid, name, i + 1);
        }
    }
}

proof fn lemma_count_mono<T: Matchable>(
    prev: Seq<T>,
    cats: Seq<String>,
    need_valid: bool,
    name: Seq<char>,
    a: int,
    b: int,
)
    requires
        a <= b,
    ensures
        candidate_count(prev, cats, need_valid, name, a) <= candidate_count(
            prev,
            cats,
            need_valid,
            name,
            b,
        ),
    decreases b - a,
{
    if a < b {
        lemma_count_mono(prev, cats, need_valid, name, a, b - 1);
    }
}

proof fn lemma_count_from_witness<T: Matchable>(
    prev: Seq<T>,
    cats: Seq<String>,
    need_valid: bool,
    name: Seq<char>,
    c: int,
    upto: int,
)
    requires
        mapped_candidate(prev, cats, need_valid, name, c),
        c < upto,
    ensures
        candidate_count(prev, cats, need_valid, name, upto) >= 1,
    decreases upto,
{
    if c < upto - 1 {
        lemma_count_from_witness(prev, cats, need_valid, name, c, upto - 1);
    }
}

proof fn lemma_count_two<T: Matchable>(
    prev: Seq<T>,
    cats: Seq<String>,
    need_valid: bool,
    name: Seq<char>,
    c1: int,
    c2: int,
    upto: int,
)
    requires
        mapped_candidate(prev, cats, need_valid, name, c1),
        mapped_candidate(prev, cats, need_valid, name, c2),
        c1 < c2 < upto,
    ensures
        candidate_count(prev, cats, need_valid, name, upto) >= 2,
    decreases upto,
{
    if c2 < upto - 1 {
        lemma_count_two(prev, cats, need_valid, name, c1, c2, upto - 1);
    } else {
        lemma_count_from_witness(prev, cats, need_valid, name, c1, c2);
    }
}

proof fn lemma_count_bounded<T: Matchable>(
    prev: Seq<T>,
    cats: Seq<String>,
    need_valid: bool,
    name: Seq<char>,
    c: int,
    upto: int,
)
    requires
        forall|m: int| 0 <= m < upto && m != c ==> !mapped_candidate(prev, cats, need_valid, name, m),
        0 <= upto,
    ensures
        candidate_count(prev, cats, need_valid, name, upto) <= 1,
    decreases upto,
{
    if upto > 0 {
        lemma_count_bounded(prev, cats, need_valid, name, c, upto - 1);
        if c == upto - 1 {
            assert(forall|m: int|
                0 <= m < upto - 1 ==> !mapped_candidate(prev, cats, need_valid, name, m));
            lemma_count_zero(prev, cats, need_valid, name, upto - 1);
        }
    }
}

proof fn lemma_count_zero<T: Matchable>(
    prev: Seq<T>,
    cats: Seq<String>,
    need_valid: bool,
    name: Seq<char>,
    upto: int,
)
    requires
        forall|m: int| 0 <= m < upto ==> !mapped_candidate(prev, cats, need_valid, name, m),
        0 <= upto,
    ensures
        candidate_count(prev, cats, need_valid, name, upto) == 0,
    decreases upto,
{
    if upto > 0 {
        lemma_count_zero(prev, cats, need_valid, name, upto - 1);
    }
}

/// No catalog entity is paired with two previous entities, and no previous
/// entity is paired with two catalog entities: with distinct catalog names,
/// matching is injective in both directions.
pub proof fn lemma_match_injective<T: Matchable>(
    prev: Seq<T>,
    cats: Seq<String>,
    need_valid: bool,
    j1: int,
    j2: int,
    i1: int,
    i2: int,
)
    requires
        prev.len() <= usize::MAX,
        0 <= j1 < cats.len(),
        0 <= j2 < cats.len(),
        j1 != j2,
        cats[j1]@ != cats[j2]@,
        outcome_at(prev, cats, need_valid, j1) matches MatchOutcome::Matched { prev: p1, .. }
            && p1 == i1,
        outcome_at(prev, cats, need_valid, j2) matches MatchOutcome::Matched { prev: p2, .. }
            && p2 == i2,
    ensures
        i1 != i2,
{
    let n1 = cats[j1]@;
    let n2 = cats[j2]@;
    lemma_first_exact_char(prev, n1, 0);
    lemma_first_exact_char(prev, n2, 0);
    lemma_first_candidate_char(prev, cats, need_valid, n1, 0);
    lemma_first_candidate_char(prev, cats, need_valid, n2, 0);
    if i1 == i2 {
        match exact_match(prev, n1, need_valid) {
            Some(k1) => {
                assert(exact_consumed(prev, cats, need_valid, k1));
                match exact_match(prev, n2, need_valid) {
                    Some(k2) => {
                        assert(k1 == i1 && k2 == i2);
                        assert(prev[k1].key_name() == n1 && prev[k2].key_name() == n2);
                    },
                    None => {
                        let c2 = first_candidate_from(prev, cats, need_valid, n2, 0)->Some_0;
                        assert(c2 == i2);
                        assert(!exact_consumed(prev, cats, need_valid, c2));
                    },
                }
            },
            None => {
                let c1 = first_candidate_from(prev, cats, need_valid, n1, 0)->Some_0;
                assert(c1 == i1);
                match exact_match(prev, n2, need_valid) {
                    Some(k2) => {
                        assert(exact_consumed(prev, cats, need_valid, k2));
                        assert(!exact_consumed(prev, cats, need_valid, c1));
                    },
                    None => {
                        let c2 = first_candidate_from(prev, cats, need_valid, n2, 0)->Some_0;
                        assert(c2 == i2);
                        assert(prev[c1].key_mapped() == Some(n1));
                        assert(prev[c2].key_mapped() == Some(n2));
                    },
                }
            },
        }
    }
}

/// Finds the exact-name match for one catalog name.
fn find_exact<T: Matchable>(prev: &Vec<T>, name: &String, need_valid: bool) -> (r: Option<usize>)
    ensures
        match r {
            Option::Some(i) => exact_match(prev@, name@, need_valid) == Some(i as int),
            Option::None => exact_match(prev@, name@, need_valid) is None,
        },
{
    if need_valid && !valid_identifier(name.as_str()) {
        return Option::None;
    }
    let mut i: usize = 0;
    while i < prev.len()
        invariant
            i <= prev@.len(),
            exact_ok(name@, need_valid),
            first_exact_from(prev@, name@, 0) == first_exact_from(prev@, name@, i as int),
        decreases prev@.len() - i,
    {
        let pn = prev[i].match_name();
        if *pn == *name {
            return Option::Some(i);
        }
        i += 1;
    }
    Option::None
}

/// Runs the two passes for one category.  `Ok` carries one outcome per
/// catalog entity; `Err` carries the index of a catalog entity whose
/// mapped-name matching is ambiguous.
pub fn match_entities<T: Matchable>(prev: &Vec<T>, cats: &Vec<String>, need_valid: bool) -> (r:
    Result<Vec<MatchOutcome>, usize>)
    ensures
        match r {
            Result::Ok(out) => {
                &&& out@.len() == cats@.len()
                &&& forall|j: int|
                    0 <= j < cats@.len() ==> out@[j] == outcome_at(prev@, cats@, need_valid, j)
                &&& !any_ambiguous(prev@, cats@, need_valid)
            },
            Result::Err(j) => j < cats@.len() && ambiguous_name(
                prev@,
                cats@,
                need_valid,
                cats@[j as int]@,
            ),
        },
{
    // Pass one: exact names.  `consumed[i]` says previous entity `i` was
    // taken by some exact pair.
    let mut consumed: Vec<bool> = Vec::new();
    let mut k: usize = 0;
    while k < prev.len()
        invariant
            k <= prev@.len(),
            consumed@.len() == k,
            forall|i: int| 0 <= i < k ==> !(#[trigger] consumed@[i]),
        decreases prev@.len() - k,
    {
        consumed.push(false);
        k += 1;
    }
    let mut exact: Vec<Option<usize>> = Vec::new();
    let mut j: usize = 0;
    while j < cats.len()
        invariant
            j <= cats@.len(),
            consumed@.len() == prev@.len(),
            exact@.len() == j,
            forall|j2: int|
                0 <= j2 < j ==> match #[trigger] exact@[j2] {
                    Option::Some(i) => exact_match(prev@, cats@[j2]@, need_valid) == Some(i as int),
                    Option::None => exact_match(prev@, cats@[j2]@, need_valid) is None,
                },
            forall|i: int|
                0 <= i < prev@.len() ==> ((#[trigger] consumed@[i]) <==> exists|j2: int|
                    0 <= j2 < j && exact_match(prev@, cats@[j2]@, need_valid) == Some(i)),
        decreases cats@.len() - j,
    {
        let e = find_exact(prev, &cats[j], need_valid);
        let ghost old_consumed = consumed@;
        match e {
            Option::Some(i) => {
                proof {
                    lemma_first_exact_char(prev@, cats@[j as int]@, 0);
                }
                consumed.set(i, true);
                proof {
                    assert forall|i2: int|
                        0 <= i2 < prev@.len() implies ((#[trigger] consumed@[i2]) <==> exists|
                        j2: int,
                    |
                        0 <= j2 < j + 1 && exact_match(prev@, cats@[j2]@, need_valid) == Some(
                            i2,
                        )) by {
                        if i2 == i as int {
                            assert(exact_match(prev@, cats@[j as int]@, need_valid) == Some(i2));
                        } else {
                            assert(consumed@[i2] == old_consumed[i2]);
                            if consumed@[i2] {
                                let j2 = choose|j2: int|
                                    0 <= j2 < j && exact_match(prev@, cats@[j2]@, need_valid)
                                        == Some(i2);
                                assert(exact_match(prev@, cats@[j2]@, need_valid) == Some(i2));
                            }
                        }
                    }
                }
            },
            Option::None => {
                proof {
                    assert forall|i2: int|
                        0 <= i2 < prev@.len() implies ((#[trigger] consumed@[i2]) <==> exists|
                        j2: int,
                    |
                        0 <= j2 < j + 1 && exact_match(prev@, cats@[j2]@, need_valid) == Some(
                            i2,
                        )) by {
                        if consumed@[i2] {
                            let j2 = choose|j2: int|
                                0 <= j2 < j && exact_match(prev@, cats@[j2]@, need_valid) == Some(
                                    i2,
                                );
                            assert(exact_match(prev@, cats@[j2]@, need_valid) == Some(i2));
                        } else {
                            if exists|j2: int|
                                0 <= j2 < j + 1 && exact_match(prev@, cats@[j2]@, need_valid)
                                    == Some(i2) {
                                let j2 = choose|j2: int|
                                    0 <= j2 < j + 1 && exact_match(prev@, cats@[j2]@, need_valid)
                                        == Some(i2);
                                assert(j2 < j);
                            }
                        }
                    }
                }
            },
        }
        exact.push(e);
        j += 1;
    }
    // Pass two: mapped names for the catalog entities pass one left
    // unmatched.
    let mut out: Vec<MatchOutcome> = Vec::new();
    let mut j: usize = 0;
    while j < cats.len()
        invariant
            j <= cats@.len(),
            consumed@.len() == prev@.len(),
            exact@.len() == cats@.len(),
            forall|j2: int|
                0 <= j2 < cats@.len() ==> match #[trigger] exact@[j2] {
                    Option::Some(i) => exact_match(prev@, cats@[j2]@, need_valid) == Some(i as int),
                    Option::None => exact_match(prev@, cats@[j2]@, need_valid) is None,
                },
            forall|i: int|
                0 <= i < prev@.len() ==> ((#[trigger] consumed@[i]) <==> exact_consumed(
                    prev@,
                    cats@,
                    need_valid,
                    i,
                )),
            out@.len() == j,
            forall|j2: int|
                0 <= j2 < j ==> #[trigger] out@[j2] == outcome_at(prev@, cats@, need_valid, j2),
            forall|j2: int|
                0 <= j2 < j ==> !ambiguous_name(prev@, cats@, need_valid, (#[trigger] cats@[j2])@),
        decreases cats@.len() - j,
    {
        let ghost name = cats@[j as int]@;
        match exact[j] {
            Option::Some(i) => {
                out.push(MatchOutcome::Matched { prev: i, renamed: false });
                proof {
                    lemma_first_exact_char(prev@, name, 0);
                }
            },
            Option::None => {
                proof {
                    assert(exact_match(prev@, name, need_valid) is None);
                }
                let mut cand: Option<usize> = Option::None;
                let mut i: usize = 0;
                while i < prev.len()
                    invariant
                        i <= prev@.len(),
                        consumed@.len() == prev@.len(),
                        j < cats@.len(),
                        name == cats@[j as int]@,
                        exact_match(prev@, name, need_valid) is None,
                        forall|i2: int|
                            0 <= i2 < prev@.len() ==> ((#[trigger] consumed@[i2]) <==>
                                exact_consumed(prev@, cats@, need_valid, i2)),
                        match cand {
                            Option::Some(c) => c < i && mapped_candidate(
                                prev@,
                                cats@,
                                need_valid,
                                name,
                                c as int,
                            ) && forall|m: int|
                                0 <= m < i && m != c ==> !mapped_candidate(
                                    prev@,
                                    cats@,
                                    need_valid,
                                    name,
                                    m,
                                ),
                            Option::None => forall|m: int|
                                0 <= m < i ==> !mapped_candidate(prev@, cats@, need_valid, name, m),
                        },
                    decreases prev@.len() - i,
                {
                    let mm = prev[i].match_mapped();
                    let is_cand = match mm {
                        Option::Some(s) => *s == cats[j] && !consumed[i],
                        Option::None => false,
                    };
                    if is_cand {
                        match cand {
                            Option::None => {
                                cand = Option::Some(i);
                            },
                            Option::Some(c) => {
                                proof {
                                    lemma_count_two(
                                        prev@,
                                        cats@,
                                        need_valid,
                                        name,
                                        c as int,
                                        i as int,
                                        prev@.len() as int,
                                    );
                                }
                                return Result::Err(j);
                            },
                        }
                    }
                    i += 1;
                }
                match cand {
                    Option::Some(c) => {
                        proof {
                            lemma_first_candidate_char(prev@, cats@, need_valid, name, 0);
                            lemma_count_bounded(
                                prev@,
                                cats@,
                                need_valid,
                                name,
                                c as int,
                                prev@.len() as int,
                            );
                        }
                        out.push(MatchOutcome::Matched { prev: c, renamed: true });
                    },
                    Option::None => {
                        proof {
                            lemma_first_candidate_char(prev@, cats@, need_valid, name, 0);
                            lemma_count_zero(prev@, cats@, need_valid, name, prev@.len() as int);
                        }
                        out.push(MatchOutcome::Fresh);
                    },
                }
            },
        }
        j += 1;
    }
    proof {
        assert(!any_ambiguous(prev@, cats@, need_valid)) by {
            if any_ambiguous(prev@, cats@, need_valid) {
                let jx = choose|jx: int|
                    0 <= jx < cats@.len() && ambiguous_name(
                        prev@,
                        cats@,
                        need_valid,
                        (#[trigger] cats@[jx])@,
                    );
                assert(!ambiguous_name(prev@, cats@, need_valid, cats@[jx]@));
            }
        }
    }
    Result::Ok(out)
}

impl Matchable for Model {
    open spec fn key_name(&self) -> Seq<char> {
        self.name@
    }

    open spec fn key_mapped(&self) -> Option<Seq<char>> {
        opt_view(self.mapped_name)
    }

    fn match_name(&self) -> (r: &String) {
        &self.name
    }

    fn match_mapped(&self) -> (r: Option<&String>) {
        match &self.mapped_name {
            Option::Some(s) => Option::Some(s),
            Option::None => Option::None,
        }
    }
}

impl Matchable for Enum {
    open spec fn key_name(&self) -> Seq<char> {
        self.name@
    }

    open spec fn key_mapped(&self) -> Option<Seq<char>> {
        opt_view(self.mapped_name)
    }

    fn match_name(&self) -> (r: &String) {
        &self.name
    }

    fn match_mapped(&self) -> (r: Option<&String>) {
        match &self.mapped_name {
            Option::Some(s) => Option::Some(s),
            Option::None => Option::None,
        }
    }
}

impl Matchable for ScalarField {
    open spec fn key_name(&self) -> Seq<char> {
        self.name@
    }

    open spec fn key_mapped(&self) -> Option<Seq<char>> {
        opt_view(self.mapped_name)
    }

    fn match_name(&self) -> (r: &String) {
        &self.name
    }

    fn match_mapped(&self) -> (r: Option<&String>) {
        match &self.mapped_name {
            Option::Some(s) => Option::Some(s),
            Option::None => Option::None,
        }
    }
}

impl Matchable for EnumValue {
    open spec fn key_name(&self) -> Seq<char> {
        self.name@
    }

    open spec fn key_mapped(&self) -> Option<Seq<char>> {
        opt_view(self.mapped_name)
    }

    fn match_name(&self) -> (r: &String) {
        &self.name
    }

    fn match_mapped(&self) -> (r: Option<&String>) {
        match &self.mapped_name {
            Option::Some(s) => Option::Some(s),
            Option::None => Option::None,
        }
    }
}

} // verus!
