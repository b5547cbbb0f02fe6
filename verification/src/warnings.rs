//! The warning collector.
//!
//! Every enrichment the merge performed is recorded as a coded warning:
//! one warning per code, each listing every affected entity in processing
//! order, with empty codes omitted.  A merged entity was renamed via the
//! mapped-name pass exactly when it carries a mapped name, so the groups
//! are read off the merged description itself.
//!
//! The fixed code table: 7 — model renamed via mapping, 8 — field renamed
//! via mapping, 9 — enum renamed via mapping, 10 — enum value renamed via
//! mapping.

use vstd::prelude::*;
use crate::ast::{Datamodel, Enum, Field, Model};

verus! {

/// Code of the model-rename warning.
pub const CODE_MODEL_RENAMED: u32 = 7;

/// Code of the field-rename warning.
pub const CODE_FIELD_RENAMED: u32 = 8;

/// Code of the enum-rename warning.
pub const CODE_ENUM_RENAMED: u32 = 9;

/// Code of the enum-value-rename warning.
pub const CODE_VALUE_RENAMED: u32 = 10;

/// One affected entity of a warning.
#[derive(Clone, Debug, PartialEq, Eq)]
pub enum Affected {
    Model { model: String },
    Enum { enm: String },
    Field { model: String, field: String },
    Value { enm: String, value: String },
}

/// One coded warning with its affected entities in processing order.
#[derive(Clone, Debug, PartialEq, Eq)]
pub struct Warning {
    pub code: u32,
    pub message: String,
    pub affected: Vec<Affected>,
}

/// The models of the merged description that were renamed via the
/// mapped-name pass, in output order.
pub open spec fn renamed_model_refs(models: Seq<Model>) -> Seq<Affected>
    decreases models.len(),
{
    if models.len() == 0 {
        Seq::empty()
    } else {
        renamed_model_refs(models.drop_last()) + (if models.last().mapped_name is Some {
            seq![Affected::Model { model: models.last().name }]
        } else {
            Seq::empty()
        })
    }
}

/// The renamed scalar fields among `fields` of the model named `model`.
pub open spec fn field_refs_in(model: String, fields: Seq<Field>) -> Seq<Affected>
    decreases fields.len(),
{
    if fields.len() == 0 {
        Seq::empty()
    } else {
        field_refs_in(model, fields.drop_last()) + (match fields.last() {
            Field::Scalar(sf) => if sf.mapped_name is Some {
                seq![Affected::Field { model: model, field: sf.name }]
            } else {
                Seq::empty()
            },
            Field::Relation(_) => Seq::empty(),
        })
    }
}

/// The renamed fields of all models, in output order.
pub open spec fn renamed_field_refs(models: Seq<Model>) -> Seq<Affected>
    decreases models.len(),
{
    if models.len() == 0 {
        Seq::empty()
    } else {
        renamed_field_refs(models.drop_last()) + field_refs_in(
            models.last().name,
            models.last().fields@,
        )
    }
}

/// The renamed enums, in output order.
pub open spec fn renamed_enum_refs(enums: Seq<Enum>) -> Seq<Affected>
    decreases enums.len(),
{
    if enums.len() == 0 {
        Seq::empty()
    } else {
        renamed_enum_refs(enums.drop_last()) + (if enums.last().mapped_name is Some {
            seq![Affected::Enum { enm: enums.last().name }]
        } else {
            Seq::empty()
        })
    }
}

/// The renamed values among the values of the enum named `enm`.
pub open spec fn value_refs_in(enm: String, values: Seq<crate::ast::EnumValue>) -> Seq<Affected>
    decreases values.len(),
{
    if values.len() == 0 {
        Seq::empty()
    } else {
        value_refs_in(enm, values.drop_last()) + (if values.last().mapped_name is Some {
            seq![Affected::Value { enm: enm, value: values.last().name }]
        } else {
            Seq::empty()
        })
    }
}

/// The renamed enum values of all enums, in output order.
pub open spec fn renamed_value_refs(enums: Seq<Enum>) -> Seq<Affected>
    decreases enums.len(),
{
    if enums.len() == 0 {
        Seq::empty()
    } else {
        renamed_value_refs(enums.drop_last()) + value_refs_in(
            enums.last().name,
            enums.last().values@,
        )
    }
}

/// Whether `c` is one of the rename warning codes.
pub open spec fn valid_code(c: u32) -> bool {
    c == CODE_MODEL_RENAMED || c == CODE_FIELD_RENAMED || c == CODE_ENUM_RENAMED || c
        == CODE_VALUE_RENAMED
}

/// The affected group of one code over the merged description.
pub open spec fn group_of(dm: Datamodel, c: u32) -> Seq<Affected> {
    if c == CODE_MODEL_RENAMED {
        renamed_model_refs(dm.models@)
    } else if c == CODE_FIELD_RENAMED {
        renamed_field_refs(dm.models@)
    } else if c == CODE_ENUM_RENAMED {
        renamed_enum_refs(dm.enums@)
    } else if c == CODE_VALUE_RENAMED {
        renamed_value_refs(dm.enums@)
    } else {
        Seq::empty()
    }
}

/// The message of one code.
pub open spec fn message_of(c: u32) -> Seq<char> {
    if c == CODE_MODEL_RENAMED {
        "These models keep their previous names; the catalog table name is carried in the mapping."@
    } else if c == CODE_FIELD_RENAMED {
        "These fields keep their previous names; the catalog column name is carried in the mapping."@
    } else if c == CODE_ENUM_RENAMED {
        "These enums keep their previous names; the catalog enum name is carried in the mapping."@
    } else {
        "These enum values keep their previous names; the catalog value is carried in the mapping."@
    }
}

/// What the collected warnings of a merged description are: one warning
/// per nonempty code, ordered by code, carrying exactly that code's group
/// and message.
pub open spec fn warnings_ok(dm: Datamodel, w: Seq<Warning>) -> bool {
    &&& forall|a: int|
        0 <= a < w.len() ==> valid_code((#[trigger] w[a]).code) && group_of(dm, w[a].code).len()
            > 0 && w[a].affected@ == group_of(dm, w[a].code) && w[a].message@ == message_of(
            w[a].code,
        )
    &&& forall|a: int, b: int| 0 <= a < b < w.len() ==> (#[trigger] w[a]).code < (
    #[trigger] w[b]).code
    &&& forall|c: u32|
        valid_code(c) && group_of(dm, c).len() > 0 ==> exists|a: int|
            0 <= a < w.len() && (#[trigger] w[a]).code == c
}

/// Collects the renamed models.
fn collect_model_refs(models: &Vec<Model>) -> (r: Vec<Affected>)
    ensures
        r@ == renamed_model_refs(models@),
{
    let mut r: Vec<Affected> = Vec::new();
    let mut i: usize = 0;
    while i < models.len()
        invariant
            i <= models@.len(),
            r@ == renamed_model_refs(models@.take(i as int)),
        decreases models@.len() - i,
    {
        proof {
            assert(models@.take(i + 1 as int).drop_last() =~= models@.take(i as int));
            assert(models@.take(i + 1 as int).last() == models@[i as int]);
        }
        match &models[i].mapped_name {
            Option::Some(_) => {
                r.push(Affected::Model { model: models[i].name.clone() });
                proof {
                    assert(r@ =~= renamed_model_refs(models@.take(i + 1 as int)));
                }
            },
            Option::None => {},
        }
        i += 1;
    }
    proof {
        assert(models@.take(models@.len() as int) =~= models@);
    }
    r
}

/// Collects the renamed fields of all models.
#[verifier::loop_isolation(false)]
fn collect_field_refs(models: &Vec<Model>) -> (r: Vec<Affected>)
    ensures
        r@ == renamed_field_refs(models@),
{
    let mut r: Vec<Affected> = Vec::new();
    let mut i: usize = 0;
    while i < models.len()
        invariant
            i <= models@.len(),
            r@ == renamed_field_refs(models@.take(i as int)),
        decreases models@.len() - i,
    {
        let m = &models[i];
        let mut j: usize = 0;
        while j < m.fields.len()
            invariant
                j <= m.fields@.len(),
                r@ == renamed_field_refs(models@.take(i as int)) + field_refs_in(
                    m.name,
                    m.fields@.take(j as int),
                ),
            decreases m.fields@.len() - j,
        {
            proof {
                assert(m.fields@.take(j + 1 as int).drop_last() =~= m.fields@.take(j as int));
                assert(m.fields@.take(j + 1 as int).last() == m.fields@[j as int]);
            }
            match &m.fields[j] {
                Field::Scalar(sf) => {
                    match &sf.mapped_name {
                        Option::Some(_) => {
                            r.push(
                                Affected::Field {
                                    model: m.name.clone(),
                                    field: sf.name.clone(),
                                },
                            );
                            proof {
                                assert(r@ =~= renamed_field_refs(models@.take(i as int))
                                    + field_refs_in(m.name, m.fields@.take(j + 1 as int)));
                            }
                        },
                        Option::None => {},
                    }
                },
                Field::Relation(_) => {},
            }
            j += 1;
        }
        proof {
            assert(m.fields@.take(m.fields@.len() as int) =~= m.fields@);
            assert(models@.take(i + 1 as int).drop_last() =~= models@.take(i as int));
            assert(models@.take(i + 1 as int).last() == models@[i as int]);
        }
        i += 1;
    }
    proof {
        assert(models@.take(models@.len() as int) =~= models@);
    }
    r
}

/// Collects the renamed enums.
fn collect_enum_refs(enums: &Vec<Enum>) -> (r: Vec<Affected>)
    ensures
        r@ == renamed_enum_refs(enums@),
{
    let mut r: Vec<Affected> = Vec::new();
    let mut i: usize = 0;
    while i < enums.len()
        invariant
            i <= enums@.len(),
            r@ == renamed_enum_refs(enums@.take(i as int)),
        decreases enums@.len() - i,
    {
        proof {
            assert(enums@.take(i + 1 as int).drop_last() =~= enums@.take(i as int));
            assert(enums@.take(i + 1 as int).last() == enums@[i as int]);
        }
        match &enums[i].mapped_name {
            Option::Some(_) => {
                r.push(Affected::Enum { enm: enums[i].name.clone() });
                proof {
                    assert(r@ =~= renamed_enum_refs(enums@.take(i + 1 as int)));
                }
            },
            Option::None => {},
        }
        i += 1;
    }
    proof {
        assert(enums@.take(enums@.len() as int) =~= enums@);
    }
    r
}

/// Collects the renamed enum values of all enums.
#[verifier::loop_isolation(false)]
fn collect_value_refs(enums: &Vec<Enum>) -> (r: Vec<Affected>)
    ensures
        r@ == renamed_value_refs(enums@),
{
    let mut r: Vec<Affected> = Vec::new();
    let mut i: usize = 0;
    while i < enums.len()
        invariant
            i <= enums@.len(),
            r@ == renamed_value_refs(enums@.take(i as int)),
        decreases enums@.len() - i,
    {
        let e = &enums[i];
        let mut j: usize = 0;
        while j < e.values.len()
            invariant
                j <= e.values@.len(),
                r@ == renamed_value_refs(enums@.take(i as int)) + value_refs_in(
                    e.name,
                    e.values@.take(j as int),
                ),
            decreases e.values@.len() - j,
        {
            proof {
                assert(e.values@.take(j + 1 as int).drop_last() =~= e.values@.take(j as int));
                assert(e.values@.take(j + 1 as int).last() == e.values@[j as int]);
            }
            match &e.values[j].mapped_name {
                Option::Some(_) => {
                    r.push(
                        Affected::Value { enm: e.name.clone(), value: e.values[j].name.clone() },
                    );
                    proof {
                        assert(r@ =~= renamed_value_refs(enums@.take(i as int)) + value_refs_in(
                            e.name,
                            e.values@.take(j + 1 as int),
                        ));
                    }
                },
                Option::None => {},
            }
            j += 1;
        }
        proof {
            assert(e.values@.take(e.values@.len() as int) =~= e.values@);
            assert(enums@.take(i + 1 as int).drop_last() =~= enums@.take(i as int));
            assert(enums@.take(i + 1 as int).last() == enums@[i as int]);
        }
        i += 1;
    }
    proof {
        assert(enums@.take(enums@.len() as int) =~= enums@);
    }
    r
}

/// Collects every warning of a merged description: one warning per
/// nonempty code, in code order.
pub fn collect_warnings(dm: &Datamodel) -> (r: Vec<Warning>)
    ensures
        warnings_ok(*dm, r@),
{
    let models = collect_model_refs(&dm.models);
    let fields = collect_field_refs(&dm.models);
    let enums = collect_enum_refs(&dm.enums);
    let values = collect_value_refs(&dm.enums);
    let ghost n7 = models@.len();
    let ghost n8 = fields@.len();
    let ghost n9 = enums@.len();
    let ghost n10 = values@.len();
    let mut r: Vec<Warning> = Vec::new();
    if models.len() > 0 {
        r.push(
            Warning {
                code: CODE_MODEL_RENAMED,
                message:
                    "These models keep their previous names; the catalog table name is carried in the mapping.".to_owned(),
                affected: models,
            },
        );
    }
    if fields.len() > 0 {
        r.push(
            Warning {
                code: CODE_FIELD_RENAMED,
                message:
                    "These fields keep their previous names; the catalog column name is carried in the mapping.".to_owned(),
                affected: fields,
            },
        );
    }
    if enums.len() > 0 {
        r.push(
            Warning {
                code: CODE_ENUM_RENAMED,
                message:
                    "These enums keep their previous names; the catalog enum name is carried in the mapping.".to_owned(),
                affected: enums,
            },
        );
    }
    if values.len() > 0 {
        r.push(
            Warning {
                code: CODE_VALUE_RENAMED,
                message:
                    "These enum values keep their previous names; the catalog value is carried in the mapping.".to_owned(),
                affected: values,
            },
        );
    }
    proof {
        let i7 = 0int;
        let i8 = if n7 > 0 {
            1int
        } else {
            0int
        };
        let i9 = i8 + if n8 > 0 {
            1int
        } else {
            0int
        };
        let i10 = i9 + if n9 > 0 {
            1int
        } else {
            0int
        };
        if n7 > 0 {
            assert(r@[i7].code == CODE_MODEL_RENAMED);
        }
        if n8 > 0 {
            assert(r@[i8].code == CODE_FIELD_RENAMED);
        }
        if n9 > 0 {
            assert(r@[i9].code == CODE_ENUM_RENAMED);
        }
        if n10 > 0 {
            assert(r@[i10].code == CODE_VALUE_RENAMED);
        }
    }
    r
}

} // verus!
