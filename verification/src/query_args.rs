//! Request-time extraction of query arguments: structural validation over
//! already-well-typed input, in front of the engine's data model.
//!
//! The caller is expected to know — because the query schema guarantees it
//! — that the needed arguments are present and well-shaped; those
//! guarantees stand as preconditions here.  Errors arise only where the
//! arguments are structurally correct but semantically unusable, such as
//! a `where` selector with more than one field.

use vstd::prelude::*;
use crate::ast::{Field, Model};

verus! {

/// One parsed input value of a request.
#[derive(Debug, PartialEq, Eq)]
pub enum ParsedInputValue {
    Null,
    Int(i64),
    Text(String),
    Boolean(bool),
    Object(Vec<(String, ParsedInputValue)>),
}

/// One named argument of a request.
#[derive(Debug)]
pub struct ParsedArgument {
    pub name: String,
    pub value: ParsedInputValue,
}

/// A single-record selector: one scalar field and the value it must hold.
#[derive(Debug)]
pub struct RecordFinder {
    pub field: String,
    pub value: ParsedInputValue,
}

/// The paging, ordering and filtering arguments of a record query.  The
/// filter holds the validated selector map; turning it into a
/// connector-level filter belongs to the query-building layer behind this
/// one.
#[derive(Debug)]
pub struct QueryArguments {
    pub skip: Option<i64>,
    pub first: Option<i64>,
    pub last: Option<i64>,
    pub after: Option<ParsedInputValue>,
    pub before: Option<ParsedInputValue>,
    pub order_by: Option<ParsedInputValue>,
    pub filter: Option<Vec<(String, ParsedInputValue)>>,
}

/// Failure of an extraction whose structural preconditions held.
#[derive(Debug)]
pub enum QueryValidationError {
    AssertionError(String),
}

/// The first argument at or after `i` named `name`, if any.
pub open spec fn arg_index_from(args: Seq<ParsedArgument>, name: Seq<char>, i: int) -> Option<int>
    decreases args.len() - i,
{
    if i < 0 || i >= args.len() {
        None
    } else if args[i].name@ == name {
        Some(i)
    } else {
        arg_index_from(args, name, i + 1)
    }
}

/// The first scalar field at or after `i` named `name`, if any.
pub open spec fn scalar_index_from(fields: Seq<Field>, name: Seq<char>, i: int) -> Option<int>
    decreases fields.len() - i,
{
    if i < 0 || i >= fields.len() {
        None
    } else {
        match fields[i] {
            Field::Scalar(sf) => if sf.name@ == name {
                Some(i)
            } else {
                scalar_index_from(fields, name, i + 1)
            },
            Field::Relation(_) => scalar_index_from(fields, name, i + 1),
        }
    }
}

/// An integer-or-absent argument value: `Null` stands for absent; anything
/// but an integer is unusable.
pub open spec fn int_opt_of(v: ParsedInputValue) -> Option<Option<i64>> {
    match v {
        ParsedInputValue::Null => Some(Option::None),
        ParsedInputValue::Int(i) => Some(Option::Some(i)),
        _ => None,
    }
}

/// A cursor-or-absent argument value: `Null` stands for absent; an
/// integer or text value is a cursor; anything else is unusable.
pub open spec fn id_opt_of(v: ParsedInputValue) -> Option<Option<ParsedInputValue>> {
    match v {
        ParsedInputValue::Null => Some(Option::None),
        ParsedInputValue::Int(i) => Some(Option::Some(ParsedInputValue::Int(i))),
        ParsedInputValue::Text(s) => Some(Option::Some(ParsedInputValue::Text(s))),
        _ => None,
    }
}

/// A selector-map-or-absent argument value.
pub open spec fn map_opt_of(v: ParsedInputValue) -> Option<
    Option<Vec<(String, ParsedInputValue)>>,
> {
    match v {
        ParsedInputValue::Null => Some(Option::None),
        ParsedInputValue::Object(m) => Some(Option::Some(m)),
        _ => None,
    }
}

/// The query arguments with nothing set.
pub open spec fn empty_query_args() -> QueryArguments {
    QueryArguments {
        skip: Option::None,
        first: Option::None,
        last: Option::None,
        after: Option::None,
        before: Option::None,
        order_by: Option::None,
        filter: Option::None,
    }
}

/// One step of the extraction: fold argument `a` into `q`.  `None` is a
/// conversion failure; an unrecognized argument changes nothing.
pub open spec fn step_query_args(q: QueryArguments, a: ParsedArgument) -> Option<QueryArguments> {
    if a.name@ == "skip"@ {
        match int_opt_of(a.value) {
            Some(v) => Some(QueryArguments { skip: v, ..q }),
            None => None,
        }
    } else if a.name@ == "first"@ {
        match int_opt_of(a.value) {
            Some(v) => Some(QueryArguments { first: v, ..q }),
            None => None,
        }
    } else if a.name@ == "last"@ {
        match int_opt_of(a.value) {
            Some(v) => Some(QueryArguments { last: v, ..q }),
            None => None,
        }
    } else if a.name@ == "after"@ {
        match id_opt_of(a.value) {
            Some(v) => Some(QueryArguments { after: v, ..q }),
            None => None,
        }
    } else if a.name@ == "before"@ {
        match id_opt_of(a.value) {
            Some(v) => Some(QueryArguments { before: v, ..q }),
            None => None,
        }
    } else if a.name@ == "orderBy"@ {
        Some(QueryArguments { order_by: Option::Some(a.value), ..q })
    } else if a.name@ == "where"@ {
        match map_opt_of(a.value) {
            Some(v) => Some(QueryArguments { filter: v, ..q }),
            None => None,
        }
    } else {
        Some(q)
    }
}

/// The whole extraction over the first `upto` arguments.
pub open spec fn spec_query_args(args: Seq<ParsedArgument>, upto: int) -> Option<QueryArguments>
    decreases upto,
{
    if upto <= 0 {
        Some(empty_query_args())
    } else {
        match spec_query_args(args, upto - 1) {
            Some(q) => step_query_args(q, args[upto - 1]),
            None => None,
        }
    }
}

proof fn lemma_query_args_none(args: Seq<ParsedArgument>, a: int, b: int)
    requires
        0 <= a <= b,
        spec_query_args(args, a) is None,
    ensures
        spec_query_args(args, b) is None,
    decreases b - a,
{
    if a < b {
        lemma_query_args_none(args, a, b - 1);
    }
}

/// Finds the first argument named `name`.
fn find_arg(args: &Vec<ParsedArgument>, name: &String) -> (r: Option<usize>)
    ensures
        match r {
            Option::Some(i) => arg_index_from(args@, name@, 0) == Some(i as int) && i
                < args@.len(),
            Option::None => arg_index_from(args@, name@, 0) is None,
        },
{
    let mut i: usize = 0;
    while i < args.len()
        invariant
            i <= args@.len(),
            arg_index_from(args@, name@, 0) == arg_index_from(args@, name@, i as int),
        decreases args@.len() - i,
    {
        if args[i].name == *name {
            return Option::Some(i);
        }
        i += 1;
    }
    Option::None
}

/// Finds the first scalar field named `name`.
fn find_scalar(fields: &Vec<Field>, name: &String) -> (r: Option<usize>)
    ensures
        match r {
            Option::Some(i) => scalar_index_from(fields@, name@, 0) == Some(i as int) && i
                < fields@.len() && (fields@[i as int] matches Field::Scalar(sf) && sf.name@
                == name@),
            Option::None => scalar_index_from(fields@, name@, 0) is None,
        },
{
    let mut i: usize = 0;
    while i < fields.len()
        invariant
            i <= fields@.len(),
            scalar_index_from(fields@, name@, 0) == scalar_index_from(fields@, name@, i as int),
        decreases fields@.len() - i,
    {
        let hit = match &fields[i] {
            Field::Scalar(sf) => sf.name == *name,
            Field::Relation(_) => false,
        };
        if hit {
            return Option::Some(i);
        }
        i += 1;
    }
    Option::None
}

/// Extracts the single-record selector from the `where` argument.  The
/// query schema guarantees the argument is present, holds a selector map,
/// and — when that map has exactly one entry — that the entry names a
/// scalar field of the model; an error comes exactly when the map does
/// not have exactly one entry.
pub fn extract_record_finder(arguments: Vec<ParsedArgument>, model: &Model) -> (r: Result<
    RecordFinder,
    QueryValidationError,
>)
    requires
        arg_index_from(arguments@, "where"@, 0) matches Some(i) && arguments@[i].value is Object,
        (arg_index_from(arguments@, "where"@, 0) matches Some(i)
            && arguments@[i].value->Object_0@.len() == 1) ==> scalar_index_from(
            model.fields@,
            arguments@[arg_index_from(arguments@, "where"@, 0)->Some_0].value->Object_0@[0].0@,
            0,
        ) is Some,
    ensures
        ({
            let wi = arg_index_from(arguments@, "where"@, 0)->Some_0;
            let entries = arguments@[wi].value->Object_0@;
            match r {
                Result::Ok(rf) => entries.len() == 1 && rf.field@ == entries[0].0@ && rf.value
                    == entries[0].1,
                Result::Err(_) => entries.len() != 1,
            }
        }),
{
    let where_name = "where".to_owned();
    let mut args = arguments;
    let wi = match find_arg(&args, &where_name) {
        Option::Some(i) => i,
        Option::None => {
            proof {
                assert(false);
            }
            0
        },
    };
    let arg = args.swap_remove(wi);
    match arg.value {
        ParsedInputValue::Object(mut entries) => {
            if entries.len() != 1 {
                return Result::Err(
                    QueryValidationError::AssertionError(
                        "Expected exactly one value for 'where' argument".to_owned(),
                    ),
                );
            }
            let (key, value) = entries.swap_remove(0);
            // The query schema guarantees the selector names a scalar
            // field of the model.
            match find_scalar(&model.fields, &key) {
                Option::Some(fi) => {
                    match &model.fields[fi] {
                        Field::Scalar(sf) => Result::Ok(
                            RecordFinder { field: sf.name.clone(), value },
                        ),
                        Field::Relation(_) => {
                            proof {
                                assert(false);
                            }
                            Result::Ok(RecordFinder { field: key, value })
                        },
                    }
                },
                Option::None => {
                    proof {
                        assert(false);
                    }
                    Result::Ok(RecordFinder { field: key, value })
                },
            }
        },
        _ => {
            proof {
                assert(false);
            }
            Result::Err(QueryValidationError::AssertionError("".to_owned()))
        },
    }
}

/// Extracts the paging, ordering and filtering arguments of a record
/// query, folding the arguments in order: a later argument overrides an
/// earlier one of the same name, an unrecognized one is ignored, and an
/// error comes exactly when some argument's value cannot be converted.
#[allow(unused_variables)]
pub fn extract_query_args(arguments: Vec<ParsedArgument>, model: &Model) -> (r: Result<
    QueryArguments,
    QueryValidationError,
>)
    ensures
        match r {
            Result::Ok(q) => spec_query_args(arguments@, arguments@.len() as int) == Some(q),
            Result::Err(_) => spec_query_args(arguments@, arguments@.len() as int) is None,
        },
{
    let skip_name = "skip".to_owned();
    let first_name = "first".to_owned();
    let last_name = "last".to_owned();
    let after_name = "after".to_owned();
    let before_name = "before".to_owned();
    let order_name = "orderBy".to_owned();
    let where_name = "where".to_owned();
    let mut q = QueryArguments {
        skip: Option::None,
        first: Option::None,
        last: Option::None,
        after: Option::None,
        before: Option::None,
        order_by: Option::None,
        filter: Option::None,
    };
    let mut args = arguments;
    let ghost all = args@;
    proof {
        assert(args.len() == args@.len());
    }
    let mut k: usize = 0;
    while args.len() > 0
        invariant
            all == arguments@,
            all.len() <= usize::MAX,
            k + args@.len() == all.len(),
            args@ == all.skip(k as int),
            spec_query_args(all, k as int) == Some(q),
            skip_name@ == "skip"@,
            first_name@ == "first"@,
            last_name@ == "last"@,
            after_name@ == "after"@,
            before_name@ == "before"@,
            order_name@ == "orderBy"@,
            where_name@ == "where"@,
        decreases args@.len(),
    {
        let a = args.remove(0);
        proof {
            assert(a == all[k as int]);
            assert(args@ =~= all.skip(k + 1 as int));
        }
        let bad: bool;
        if a.name == skip_name {
            match a.value {
                ParsedInputValue::Null => {
                    q.skip = Option::None;
                    bad = false;
                },
                ParsedInputValue::Int(i) => {
                    q.skip = Option::Some(i);
                    bad = false;
                },
                _ => {
                    bad = true;
                },
            }
        } else if a.name == first_name {
            match a.value {
                ParsedInputValue::Null => {
                    q.first = Option::None;
                    bad = false;
                },
                ParsedInputValue::Int(i) => {
                    q.first = Option::Some(i);
                    bad = false;
                },
                _ => {
                    bad = true;
                },
            }
        } else if a.name == last_name {
            match a.value {
                ParsedInputValue::Null => {
                    q.last = Option::None;
                    bad = false;
                },
                ParsedInputValue::Int(i) => {
                    q.last = Option::Some(i);
                    bad = false;
                },
                _ => {
                    bad = true;
                },
            }
        } else if a.name == after_name {
            match a.value {
                ParsedInputValue::Null => {
                    q.after = Option::None;
                    bad = false;
                },
                ParsedInputValue::Int(i) => {
                    q.after = Option::Some(ParsedInputValue::Int(i));
                    bad = false;
                },
                ParsedInputValue::Text(s) => {
                    q.after = Option::Some(ParsedInputValue::Text(s));
                    bad = false;
                },
                _ => {
                    bad = true;
                },
            }
        } else if a.name == before_name {
            match a.value {
                ParsedInputValue::Null => {
                    q.before = Option::None;
                    bad = false;
                },
                ParsedInputValue::Int(i) => {
                    q.before = Option::Some(ParsedInputValue::Int(i));
                    bad = false;
                },
                ParsedInputValue::Text(s) => {
                    q.before = Option::Some(ParsedInputValue::Text(s));
                    bad = false;
                },
                _ => {
                    bad = true;
                },
            }
        } else if a.name == order_name {
            q.order_by = Option::Some(a.value);
            bad = false;
        } else if a.name == where_name {
            match a.value {
                ParsedInputValue::Null => {
                    q.filter = Option::None;
                    bad = false;
                },
                ParsedInputValue::Object(m) => {
                    q.filter = Option::Some(m);
                    bad = false;
                },
                _ => {
                    bad = true;
                },
            }
        } else {
            bad = false;
        }
        if bad {
            proof {
                assert(step_query_args(q, a) is None);
                assert(spec_query_args(all, k + 1) is None);
                lemma_query_args_none(all, k + 1, all.len() as int);
                assert(all == arguments@);
                assert(spec_query_args(arguments@, arguments@.len() as int) is None);
            }
            return Result::Err(
                QueryValidationError::AssertionError(
                    "Unusable value for a query argument".to_owned(),
                ),
            );
        }
        k += 1;
    }
    proof {
        assert(k as int == all.len());
    }
    Result::Ok(q)
}

} // verus!
