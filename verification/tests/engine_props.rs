use reintrospection::ast::{
    Datamodel, DefaultValue, Enum, EnumValue, Field, FieldArity, Model, RelationField, ScalarField,
};
use reintrospection::catalog::{
    CatalogSchema, Column, Dialect, EnumType, ForeignKey, Index, ReferentialAction, Table,
};
use reintrospection::reconcile::{reconcile, EntityKind};
use reintrospection::warnings::Affected;

fn col(name: &str, tpe: &str) -> Column {
    Column {
        name: name.to_string(),
        tpe: tpe.to_string(),
        length: None,
        nullable: false,
        default: None,
    }
}

fn table(name: &str, columns: Vec<Column>) -> Table {
    Table {
        name: name.to_string(),
        columns,
        primary_key: None,
        indexes: vec![],
        foreign_keys: vec![],
    }
}

fn catalog(tables: Vec<Table>) -> CatalogSchema {
    CatalogSchema { dialect: Dialect::Postgres, tables, enums: vec![] }
}

fn scalar(name: &str, tpe: &str) -> ScalarField {
    ScalarField {
        name: name.to_string(),
        mapped_name: None,
        tpe: tpe.to_string(),
        length: None,
        arity: FieldArity::Required,
        default: None,
        updated_at: false,
        ignored: false,
        doc: None,
    }
}

fn model(name: &str, fields: Vec<Field>) -> Model {
    Model {
        name: name.to_string(),
        mapped_name: None,
        doc: None,
        fields,
        id_fields: vec![],
        indexes: vec![],
        ignored: false,
    }
}

fn id_table(name: &str) -> Table {
    table(name, vec![col("id", "integer")])
}

fn id_model(name: &str) -> Model {
    model(name, vec![Field::Scalar(scalar("id", "integer"))])
}

fn model_names(dm: &Datamodel) -> Vec<String> {
    dm.models.iter().map(|m| m.name.clone()).collect()
}

#[test]
fn order_keeps_survivors_then_appends_fresh() {
    // Previous order B,A,F,C,J,Z,K; catalog yields A,B,J,F,Z,M,L with C
    // and K gone: survivors keep their previous relative order, the new
    // tables follow in catalog-yield order.
    let cat = catalog(
        ["A", "B", "J", "F", "Z", "M", "L"].iter().map(|n| id_table(n)).collect(),
    );
    let prev = Datamodel {
        models: ["B", "A", "F", "C", "J", "Z", "K"].iter().map(|n| id_model(n)).collect(),
        enums: vec![],
    };
    let (dm, warnings) = reconcile(&cat, &prev).unwrap();
    assert_eq!(model_names(&dm), vec!["B", "A", "F", "J", "Z", "M", "L"]);
    assert!(warnings.is_empty());
}

#[test]
fn rename_round_trip_keeps_name_and_mapping() {
    let cat = catalog(vec![id_table("User")]);
    let mut m = id_model("Custom_User");
    m.mapped_name = Some("User".to_string());
    let prev = Datamodel { models: vec![m], enums: vec![] };
    let (dm, warnings) = reconcile(&cat, &prev).unwrap();
    assert_eq!(dm.models.len(), 1);
    assert_eq!(dm.models[0].name, "Custom_User");
    assert_eq!(dm.models[0].mapped_name, Some("User".to_string()));
    assert_eq!(warnings.len(), 1);
    assert_eq!(warnings[0].code, 7);
    assert_eq!(
        warnings[0].affected,
        vec![Affected::Model { model: "Custom_User".to_string() }]
    );
}

#[test]
fn referential_action_recomputed_from_live_constraint() {
    // The previous relation declares NoAction, but the live constraint on
    // a legacy MySQL instance has no explicit clause: the resolved
    // default Restrict wins, whatever was declared before.
    let user = id_table("User");
    let mut post = table("Post", vec![col("id", "integer"), col("user_id", "integer")]);
    post.foreign_keys.push(ForeignKey {
        columns: vec!["user_id".to_string()],
        referenced_table: "User".to_string(),
        referenced_columns: vec!["id".to_string()],
        on_delete: None,
        on_update: None,
    });
    let cat = CatalogSchema {
        dialect: Dialect::MySqlLegacy,
        tables: vec![user, post],
        enums: vec![],
    };
    let prev_post = model(
        "Post",
        vec![
            Field::Scalar(scalar("id", "integer")),
            Field::Scalar(scalar("user_id", "integer")),
            Field::Relation(RelationField {
                name: "author".to_string(),
                relation_name: None,
                target: "User".to_string(),
                fields: vec!["user_id".to_string()],
                references: vec!["id".to_string()],
                arity: FieldArity::Required,
                on_delete: Some(ReferentialAction::NoAction),
                on_update: Some(ReferentialAction::NoAction),
            }),
        ],
    );
    let prev = Datamodel { models: vec![id_model("User"), prev_post], enums: vec![] };
    let (dm, warnings) = reconcile(&cat, &prev).unwrap();
    assert!(warnings.is_empty());
    let post_out = dm.models.iter().find(|m| m.name == "Post").unwrap();
    let rf = post_out
        .fields
        .iter()
        .find_map(|f| match f {
            Field::Relation(rf) => Some(rf),
            _ => None,
        })
        .unwrap();
    // The previous field name carried over: the relation is identified by
    // its foreign-key column set.
    assert_eq!(rf.name, "author");
    assert_eq!(rf.on_update, Some(ReferentialAction::Restrict));
    assert_eq!(rf.on_delete, Some(ReferentialAction::Restrict));
}

#[test]
fn self_relation_ambiguity_regenerates_canonical_names() {
    // An anonymous two-column join table backs a self-relation: nothing
    // proves which previous field pointed at which column, so the
    // previous names are discarded for canonical stand-ins.
    let user = id_table("User");
    let mut join = table("_FollowRelation", vec![col("A", "integer"), col("B", "integer")]);
    join.foreign_keys.push(ForeignKey {
        columns: vec!["A".to_string()],
        referenced_table: "User".to_string(),
        referenced_columns: vec!["id".to_string()],
        on_delete: None,
        on_update: None,
    });
    join.foreign_keys.push(ForeignKey {
        columns: vec!["B".to_string()],
        referenced_table: "User".to_string(),
        referenced_columns: vec!["id".to_string()],
        on_delete: None,
        on_update: None,
    });
    join.indexes.push(Index {
        name: "follow_unique".to_string(),
        columns: vec!["A".to_string(), "B".to_string()],
        unique: true,
    });
    let cat = catalog(vec![user, join]);
    let list_field = |name: &str| {
        Field::Relation(RelationField {
            name: name.to_string(),
            relation_name: Some("FollowRelation".to_string()),
            target: "User".to_string(),
            fields: vec![],
            references: vec![],
            arity: FieldArity::List,
            on_delete: None,
            on_update: None,
        })
    };
    let prev_user = model(
        "User",
        vec![
            Field::Scalar(scalar("id", "integer")),
            list_field("followers"),
            list_field("following"),
        ],
    );
    let prev = Datamodel { models: vec![prev_user], enums: vec![] };
    let (dm, warnings) = reconcile(&cat, &prev).unwrap();
    assert!(warnings.is_empty());
    // The join table is never a model.
    assert_eq!(dm.models.len(), 1);
    let user_out = &dm.models[0];
    let rel_names: Vec<&str> = user_out
        .fields
        .iter()
        .filter_map(|f| match f {
            Field::Relation(rf) => Some(rf.name.as_str()),
            _ => None,
        })
        .collect();
    assert_eq!(rel_names, vec!["User_A", "User_B"]);
    for f in &user_out.fields {
        if let Field::Relation(rf) = f {
            assert_eq!(rf.arity, FieldArity::List);
            assert_eq!(rf.relation_name, Some("FollowRelation".to_string()));
        }
    }
}

#[test]
fn virtual_default_preserved_while_shape_unchanged() {
    let cat = catalog(vec![table(
        "Item",
        vec![col("id", "integer"), col("token", "text")],
    )]);
    let mut token = scalar("token", "text");
    token.default = Some(DefaultValue::Virtual("cuid()".to_string()));
    let prev_item = model(
        "Item",
        vec![Field::Scalar(scalar("id", "integer")), Field::Scalar(token)],
    );
    let prev = Datamodel { models: vec![prev_item], enums: vec![] };
    let (dm, warnings) = reconcile(&cat, &prev).unwrap();
    assert!(warnings.is_empty());
    match &dm.models[0].fields[1] {
        Field::Scalar(sf) => {
            assert_eq!(sf.name, "token");
            assert_eq!(sf.default, Some(DefaultValue::Virtual("cuid()".to_string())));
        }
        _ => panic!("expected a scalar field"),
    }
}

#[test]
fn virtual_default_dropped_when_shape_changed() {
    // The column's type changed: keeping the generator would risk an
    // inconsistent annotation, so it is dropped.
    let cat = catalog(vec![table("Item", vec![col("token", "bigint")])]);
    let mut token = scalar("token", "text");
    token.default = Some(DefaultValue::Virtual("cuid()".to_string()));
    let prev = Datamodel {
        models: vec![model("Item", vec![Field::Scalar(token)])],
        enums: vec![],
    };
    let (dm, _) = reconcile(&cat, &prev).unwrap();
    match &dm.models[0].fields[0] {
        Field::Scalar(sf) => {
            assert_eq!(sf.tpe, "bigint");
            assert_eq!(sf.default, None);
        }
        _ => panic!("expected a scalar field"),
    }
}

#[test]
fn enum_value_mapping_preserved_with_warning() {
    let cat = CatalogSchema {
        dialect: Dialect::Postgres,
        tables: vec![],
        enums: vec![EnumType {
            name: "Status".to_string(),
            values: vec!["ACTIVE".to_string(), "@".to_string()],
        }],
    };
    let prev = Datamodel {
        models: vec![],
        enums: vec![Enum {
            name: "Status".to_string(),
            mapped_name: None,
            doc: None,
            values: vec![
                EnumValue { name: "ACTIVE".to_string(), mapped_name: None },
                EnumValue { name: "AtSign".to_string(), mapped_name: Some("@".to_string()) },
            ],
        }],
    };
    let (dm, warnings) = reconcile(&cat, &prev).unwrap();
    assert_eq!(dm.enums.len(), 1);
    let e = &dm.enums[0];
    assert_eq!(e.values.len(), 2);
    assert_eq!(e.values[0].name, "ACTIVE");
    assert_eq!(e.values[0].mapped_name, None);
    assert_eq!(e.values[1].name, "AtSign");
    assert_eq!(e.values[1].mapped_name, Some("@".to_string()));
    assert_eq!(warnings.len(), 1);
    assert_eq!(warnings[0].code, 10);
    assert_eq!(
        warnings[0].affected,
        vec![Affected::Value { enm: "Status".to_string(), value: "AtSign".to_string() }]
    );
}

#[test]
fn unmapped_invalid_enum_value_comes_in_raw() {
    // Without a previous mapping, an invalid catalog member cannot be
    // round-tripped: it surfaces as a fresh value under its raw name.
    let cat = CatalogSchema {
        dialect: Dialect::Postgres,
        tables: vec![],
        enums: vec![EnumType { name: "Status".to_string(), values: vec!["@".to_string()] }],
    };
    let prev = Datamodel { models: vec![], enums: vec![] };
    let (dm, warnings) = reconcile(&cat, &prev).unwrap();
    assert!(warnings.is_empty());
    assert_eq!(dm.enums[0].values[0].name, "@");
    assert_eq!(dm.enums[0].values[0].mapped_name, None);
}

#[test]
fn reconciling_own_output_is_idempotent_without_renames() {
    // A run that records no rename is a fixed point: the second run
    // returns the same description and no warnings.
    let user = id_table("User");
    let mut post = table("Post", vec![col("id", "integer"), col("user_id", "integer")]);
    post.foreign_keys.push(ForeignKey {
        columns: vec!["user_id".to_string()],
        referenced_table: "User".to_string(),
        referenced_columns: vec!["id".to_string()],
        on_delete: Some(ReferentialAction::Cascade),
        on_update: None,
    });
    let cat = catalog(vec![user, post]);
    let prev = Datamodel { models: vec![id_model("User")], enums: vec![] };
    let (dm1, w1) = reconcile(&cat, &prev).unwrap();
    assert!(w1.is_empty());
    let (dm2, w2) = reconcile(&cat, &dm1).unwrap();
    assert!(w2.is_empty());
    assert_eq!(dm1, dm2);
}

#[test]
fn ambiguous_model_mapping_fails_fatally() {
    let cat = catalog(vec![id_table("T")]);
    let mut a = id_model("A");
    a.mapped_name = Some("T".to_string());
    let mut b = id_model("B");
    b.mapped_name = Some("T".to_string());
    let prev = Datamodel { models: vec![a, b], enums: vec![] };
    let err = reconcile(&cat, &prev).unwrap_err();
    assert_eq!(err.kind, EntityKind::Model);
    assert_eq!(err.name, "T");
}

#[test]
fn ambiguous_field_mapping_fails_fatally() {
    let cat = catalog(vec![table("T", vec![col("a", "integer")])]);
    let mut f1 = scalar("f1", "integer");
    f1.mapped_name = Some("a".to_string());
    let mut f2 = scalar("f2", "integer");
    f2.mapped_name = Some("a".to_string());
    let prev = Datamodel {
        models: vec![model("T", vec![Field::Scalar(f1), Field::Scalar(f2)])],
        enums: vec![],
    };
    let err = reconcile(&cat, &prev).unwrap_err();
    assert_eq!(err.kind, EntityKind::Field);
}

#[test]
fn ambiguous_enum_value_mapping_fails_fatally() {
    let cat = CatalogSchema {
        dialect: Dialect::Postgres,
        tables: vec![],
        enums: vec![EnumType { name: "S".to_string(), values: vec!["@".to_string()] }],
    };
    let prev = Datamodel {
        models: vec![],
        enums: vec![Enum {
            name: "S".to_string(),
            mapped_name: None,
            doc: None,
            values: vec![
                EnumValue { name: "X".to_string(), mapped_name: Some("@".to_string()) },
                EnumValue { name: "Y".to_string(), mapped_name: Some("@".to_string()) },
            ],
        }],
    };
    let err = reconcile(&cat, &prev).unwrap_err();
    assert_eq!(err.kind, EntityKind::EnumValue);
}

#[test]
fn empty_inputs_reconcile_to_empty_output() {
    let cat = catalog(vec![]);
    let prev = Datamodel { models: vec![], enums: vec![] };
    let (dm, warnings) = reconcile(&cat, &prev).unwrap();
    assert!(dm.models.is_empty());
    assert!(dm.enums.is_empty());
    assert!(warnings.is_empty());
}

#[test]
fn new_column_added_without_warning() {
    let cat = catalog(vec![table("A", vec![col("id", "integer"), col("extra", "text")])]);
    let prev = Datamodel { models: vec![id_model("A")], enums: vec![] };
    let (dm, warnings) = reconcile(&cat, &prev).unwrap();
    assert!(warnings.is_empty());
    assert_eq!(dm.models[0].fields.len(), 2);
    match &dm.models[0].fields[1] {
        Field::Scalar(sf) => {
            assert_eq!(sf.name, "extra");
            assert_eq!(sf.mapped_name, None);
        }
        _ => panic!("expected a scalar field"),
    }
}

#[test]
fn dropped_model_disappears_silently() {
    let cat = catalog(vec![id_table("A")]);
    let prev = Datamodel { models: vec![id_model("A"), id_model("Gone")], enums: vec![] };
    let (dm, warnings) = reconcile(&cat, &prev).unwrap();
    assert!(warnings.is_empty());
    assert_eq!(model_names(&dm), vec!["A"]);
}

#[test]
fn field_rename_records_model_and_field() {
    let cat = catalog(vec![table("A", vec![col("id", "integer"), col("full_name", "text")])]);
    let mut f = scalar("displayName", "text");
    f.mapped_name = Some("full_name".to_string());
    let prev = Datamodel {
        models: vec![model(
            "A",
            vec![Field::Scalar(scalar("id", "integer")), Field::Scalar(f)],
        )],
        enums: vec![],
    };
    let (dm, warnings) = reconcile(&cat, &prev).unwrap();
    match &dm.models[0].fields[1] {
        Field::Scalar(sf) => {
            assert_eq!(sf.name, "displayName");
            assert_eq!(sf.mapped_name, Some("full_name".to_string()));
        }
        _ => panic!("expected a scalar field"),
    }
    assert_eq!(warnings.len(), 1);
    assert_eq!(warnings[0].code, 8);
    assert_eq!(
        warnings[0].affected,
        vec![Affected::Field { model: "A".to_string(), field: "displayName".to_string() }]
    );
}

#[test]
fn enum_rename_records_enum() {
    let cat = CatalogSchema {
        dialect: Dialect::Postgres,
        tables: vec![],
        enums: vec![EnumType { name: "colors".to_string(), values: vec!["RED".to_string()] }],
    };
    let prev = Datamodel {
        models: vec![],
        enums: vec![Enum {
            name: "Color".to_string(),
            mapped_name: Some("colors".to_string()),
            doc: None,
            values: vec![EnumValue { name: "RED".to_string(), mapped_name: None }],
        }],
    };
    let (dm, warnings) = reconcile(&cat, &prev).unwrap();
    assert_eq!(dm.enums[0].name, "Color");
    assert_eq!(dm.enums[0].mapped_name, Some("colors".to_string()));
    assert_eq!(warnings.len(), 1);
    assert_eq!(warnings[0].code, 9);
    assert_eq!(warnings[0].affected, vec![Affected::Enum { enm: "Color".to_string() }]);
}

#[test]
fn uniquely_constrained_foreign_key_yields_to_one_back_reference() {
    let user = id_table("User");
    let mut profile = table("Profile", vec![col("id", "integer"), col("user_id", "integer")]);
    profile.foreign_keys.push(ForeignKey {
        columns: vec!["user_id".to_string()],
        referenced_table: "User".to_string(),
        referenced_columns: vec!["id".to_string()],
        on_delete: None,
        on_update: None,
    });
    profile.indexes.push(Index {
        name: "profile_user_unique".to_string(),
        columns: vec!["user_id".to_string()],
        unique: true,
    });
    let cat = catalog(vec![user, profile]);
    let prev = Datamodel { models: vec![], enums: vec![] };
    let (dm, _) = reconcile(&cat, &prev).unwrap();
    let user_out = dm.models.iter().find(|m| m.name == "User").unwrap();
    let back = user_out
        .fields
        .iter()
        .find_map(|f| match f {
            Field::Relation(rf) => Some(rf),
            _ => None,
        })
        .unwrap();
    assert_eq!(back.arity, FieldArity::Optional);
    assert_eq!(back.target, "Profile");
    // Without a previous counterpart the name is canonical: the source
    // model and the first referenced column.
    assert_eq!(back.name, "Profile_id");
}

#[test]
fn implicit_join_table_between_two_models_carries_previous_names() {
    let user = id_table("User");
    let tag = id_table("Tag");
    let mut join = table("_UserTags", vec![col("A", "integer"), col("B", "integer")]);
    join.foreign_keys.push(ForeignKey {
        columns: vec!["A".to_string()],
        referenced_table: "Tag".to_string(),
        referenced_columns: vec!["id".to_string()],
        on_delete: None,
        on_update: None,
    });
    join.foreign_keys.push(ForeignKey {
        columns: vec!["B".to_string()],
        referenced_table: "User".to_string(),
        referenced_columns: vec!["id".to_string()],
        on_delete: None,
        on_update: None,
    });
    join.indexes.push(Index {
        name: "user_tags_unique".to_string(),
        columns: vec!["A".to_string(), "B".to_string()],
        unique: true,
    });
    let cat = catalog(vec![user, tag, join]);
    let list_to = |name: &str, target: &str| {
        Field::Relation(RelationField {
            name: name.to_string(),
            relation_name: None,
            target: target.to_string(),
            fields: vec![],
            references: vec![],
            arity: FieldArity::List,
            on_delete: None,
            on_update: None,
        })
    };
    let prev = Datamodel {
        models: vec![
            model(
                "User",
                vec![Field::Scalar(scalar("id", "integer")), list_to("tags", "Tag")],
            ),
            model(
                "Tag",
                vec![Field::Scalar(scalar("id", "integer")), list_to("users", "User")],
            ),
        ],
        enums: vec![],
    };
    let (dm, warnings) = reconcile(&cat, &prev).unwrap();
    assert!(warnings.is_empty());
    assert_eq!(dm.models.len(), 2);
    let user_out = dm.models.iter().find(|m| m.name == "User").unwrap();
    let tag_out = dm.models.iter().find(|m| m.name == "Tag").unwrap();
    let rel_of = |m: &Model| -> RelationField {
        m.fields
            .iter()
            .find_map(|f| match f {
                Field::Relation(rf) => Some(rf.clone()),
                _ => None,
            })
            .unwrap()
    };
    let u = rel_of(user_out);
    assert_eq!(u.name, "tags");
    assert_eq!(u.target, "Tag");
    assert_eq!(u.arity, FieldArity::List);
    let t = rel_of(tag_out);
    assert_eq!(t.name, "users");
    assert_eq!(t.target, "User");
}

#[test]
fn primary_key_becomes_id_fields() {
    let mut t = table("A", vec![col("id", "integer"), col("name", "text")]);
    t.primary_key = Some(vec!["id".to_string()]);
    let cat = catalog(vec![t]);
    let prev = Datamodel { models: vec![], enums: vec![] };
    let (dm, _) = reconcile(&cat, &prev).unwrap();
    assert_eq!(dm.models[0].id_fields, vec!["id".to_string()]);
}

#[test]
fn doc_and_markers_survive_the_merge() {
    let cat = catalog(vec![table("A", vec![col("id", "integer"), col("touched", "timestamp")])]);
    let mut touched = scalar("touched", "timestamp");
    touched.updated_at = true;
    touched.doc = Some("when it last changed".to_string());
    let mut m = model(
        "A",
        vec![Field::Scalar(scalar("id", "integer")), Field::Scalar(touched)],
    );
    m.doc = Some("the main table".to_string());
    m.ignored = true;
    let prev = Datamodel { models: vec![m], enums: vec![] };
    let (dm, warnings) = reconcile(&cat, &prev).unwrap();
    assert!(warnings.is_empty());
    assert_eq!(dm.models[0].doc, Some("the main table".to_string()));
    assert!(dm.models[0].ignored);
    match &dm.models[0].fields[1] {
        Field::Scalar(sf) => {
            assert!(sf.updated_at);
            assert_eq!(sf.doc, Some("when it last changed".to_string()));
        }
        _ => panic!("expected a scalar field"),
    }
}

#[test]
fn rename_warning_recurs_on_rerun() {
    // A kept mapping still diverges from the catalog name, so re-running
    // the engine on its own output reports the rename again; the
    // description itself stays the same.
    let cat = catalog(vec![id_table("User")]);
    let mut m = id_model("Custom_User");
    m.mapped_name = Some("User".to_string());
    let prev = Datamodel { models: vec![m], enums: vec![] };
    let (dm1, w1) = reconcile(&cat, &prev).unwrap();
    assert_eq!(w1.len(), 1);
    let (dm2, w2) = reconcile(&cat, &dm1).unwrap();
    assert_eq!(dm1, dm2);
    assert_eq!(w2.len(), 1);
    assert_eq!(w2[0].code, 7);
}

#[test]
fn warnings_come_one_per_code_in_code_order() {
    let cat = CatalogSchema {
        dialect: Dialect::Postgres,
        tables: vec![table("users", vec![col("id", "integer"), col("full_name", "text")])],
        enums: vec![EnumType {
            name: "colors".to_string(),
            values: vec!["RED".to_string(), "@".to_string()],
        }],
    };
    let mut mapped_field = scalar("displayName", "text");
    mapped_field.mapped_name = Some("full_name".to_string());
    let mut user = model(
        "User",
        vec![Field::Scalar(scalar("id", "integer")), Field::Scalar(mapped_field)],
    );
    user.mapped_name = Some("users".to_string());
    let prev = Datamodel {
        models: vec![user],
        enums: vec![Enum {
            name: "Color".to_string(),
            mapped_name: Some("colors".to_string()),
            doc: None,
            values: vec![
                EnumValue { name: "RED".to_string(), mapped_name: None },
                EnumValue { name: "AtSign".to_string(), mapped_name: Some("@".to_string()) },
            ],
        }],
    };
    let (_, warnings) = reconcile(&cat, &prev).unwrap();
    let codes: Vec<u32> = warnings.iter().map(|w| w.code).collect();
    assert_eq!(codes, vec![7, 8, 9, 10]);
    for w in &warnings {
        assert_eq!(w.affected.len(), 1);
        assert!(!w.message.is_empty());
    }
}

#[test]
fn enum_order_resolves_independently_of_models() {
    let cat = CatalogSchema {
        dialect: Dialect::Postgres,
        tables: vec![id_table("A")],
        enums: vec![
            EnumType { name: "X".to_string(), values: vec!["V".to_string()] },
            EnumType { name: "Y".to_string(), values: vec!["V".to_string()] },
            EnumType { name: "Z".to_string(), values: vec!["V".to_string()] },
        ],
    };
    let prev_enum = |name: &str| Enum {
        name: name.to_string(),
        mapped_name: None,
        doc: None,
        values: vec![EnumValue { name: "V".to_string(), mapped_name: None }],
    };
    // Previous enum order Y, X; Z is new and comes last.
    let prev = Datamodel { models: vec![], enums: vec![prev_enum("Y"), prev_enum("X")] };
    let (dm, warnings) = reconcile(&cat, &prev).unwrap();
    assert!(warnings.is_empty());
    let names: Vec<String> = dm.enums.iter().map(|e| e.name.clone()).collect();
    assert_eq!(names, vec!["Y", "X", "Z"]);
}

#[test]
fn catalog_default_overrides_previous_default() {
    let mut c = col("n", "integer");
    c.default = Some("0".to_string());
    let cat = catalog(vec![table("A", vec![c])]);
    let mut f = scalar("n", "integer");
    f.default = Some(DefaultValue::Virtual("autoincrement()".to_string()));
    let prev = Datamodel { models: vec![model("A", vec![Field::Scalar(f)])], enums: vec![] };
    let (dm, _) = reconcile(&cat, &prev).unwrap();
    match &dm.models[0].fields[0] {
        Field::Scalar(sf) => {
            assert_eq!(sf.default, Some(DefaultValue::DbGenerated("0".to_string())));
        }
        _ => panic!("expected a scalar field"),
    }
}
