use entity_loader::model::{
    column_ident, escape_rust_keyword, expand_derive_model, trim_raw_prefix, DeriveModel,
    DeriveModelError, ModelData, ModelDeriveOutput, ModelField,
};

fn model_field(name: &str, ty: &str, ignore: bool, enum_name: Option<&str>) -> ModelField {
    ModelField {
        name: name.to_owned(),
        ty: ty.to_owned(),
        ignore,
        enum_name: enum_name.map(|s| s.to_owned()),
    }
}

#[test]
fn raw_prefix_is_trimmed() {
    assert_eq!(trim_raw_prefix("r#type"), "type");
    assert_eq!(trim_raw_prefix("name"), "name");
    assert_eq!(trim_raw_prefix("r#"), "");
    assert_eq!(trim_raw_prefix("r"), "r");
}

#[test]
fn column_ident_is_upper_camel_case() {
    assert_eq!(column_ident(&model_field("cake_id", "i32", false, None)), "CakeId");
    assert_eq!(column_ident(&model_field("r#type", "String", false, None)), "Type");
    assert_eq!(column_ident(&model_field("name", "String", false, None)), "Name");
}

#[test]
fn keywords_are_escaped() {
    assert_eq!(escape_rust_keyword("type".to_owned()), "r#type");
    assert_eq!(escape_rust_keyword("Self".to_owned()), "Self_");
    assert_eq!(escape_rust_keyword("self".to_owned()), "self_");
    assert_eq!(escape_rust_keyword("Type".to_owned()), "Type");
    assert_eq!(escape_rust_keyword("name".to_owned()), "name");
}

#[test]
fn column_ident_escapes_keyword_collisions() {
    // Case conversion of `self_` yields `Self`, which no raw identifier can
    // express: the derivation escapes it with a trailing underscore.
    assert_eq!(column_ident(&model_field("self_", "i32", false, None)), "Self_");
}

#[test]
fn enum_name_attribute_overrides_column_ident() {
    assert_eq!(
        column_ident(&model_field("kind", "String", false, Some("MyKind"))),
        "MyKind"
    );
}

#[test]
fn new_collects_fields_and_defaults_entity() {
    let data = ModelData::NamedStruct(vec![
        model_field("id", "i32", false, None),
        model_field("cake_id", "i32", false, None),
    ]);
    let m = DeriveModel::new("Model".to_owned(), data, Ok(None)).unwrap();
    assert_eq!(m.ident, "Model");
    assert_eq!(m.entity_ident, "Entity");
    assert_eq!(m.field_idents, vec!["id".to_owned(), "cake_id".to_owned()]);
    assert_eq!(m.field_types, vec!["i32".to_owned(), "i32".to_owned()]);
    assert_eq!(m.column_idents, vec!["Id".to_owned(), "CakeId".to_owned()]);
    assert_eq!(m.ignore_attrs, vec![false, false]);
}

#[test]
fn new_honours_entity_override_and_attr_error() {
    let data = ModelData::NamedStruct(vec![model_field("id", "i32", false, None)]);
    let m = DeriveModel::new("Model".to_owned(), data, Ok(Some("Custom".to_owned()))).unwrap();
    assert_eq!(m.entity_ident, "Custom");

    let data = ModelData::NamedStruct(vec![model_field("id", "i32", false, None)]);
    let e = DeriveModel::new("Model".to_owned(), data, Err("bad attr".to_owned())).unwrap_err();
    assert_eq!(e.unwrap(), "bad attr");
}

#[test]
fn new_rejects_non_struct_input() {
    let e = DeriveModel::new("Model".to_owned(), ModelData::Unsupported, Ok(None)).unwrap_err();
    assert!(matches!(e, DeriveModelError::InputNotStruct));
}

#[test]
fn from_query_result_uses_default_for_ignored_fields() {
    let data = ModelData::NamedStruct(vec![
        model_field("id", "i32", false, None),
        model_field("scratch", "String", true, None),
    ]);
    let m = DeriveModel::new("Model".to_owned(), data, Ok(None)).unwrap();
    let inits = m.impl_from_query_result();
    assert_eq!(inits.len(), 2);
    assert_eq!(inits[0].field, "id");
    match &inits[0].init {
        entity_loader::model::InitKind::TryGetColumn(c) => assert_eq!(c, "Id"),
        _ => panic!("expected a column read"),
    }
    assert!(matches!(inits[1].init, entity_loader::model::InitKind::DefaultValue));
}

#[test]
fn model_trait_filters_ignored_fields_in_order() {
    let data = ModelData::NamedStruct(vec![
        model_field("id", "i32", false, None),
        model_field("scratch", "String", true, None),
        model_field("cake_id", "i32", false, None),
    ]);
    let m = DeriveModel::new("Model".to_owned(), data, Ok(None)).unwrap();
    let plan = m.impl_model_trait();
    assert_eq!(plan.get_arms.len(), 2);
    assert_eq!(plan.get_arms[0].column, "Id");
    assert_eq!(plan.get_arms[0].field, "id");
    assert_eq!(plan.get_arms[1].column, "CakeId");
    assert_eq!(plan.get_arms[1].field, "cake_id");
    assert_eq!(plan.value_type_arms.len(), 2);
    assert_eq!(plan.value_type_arms[1].ty, "i32");
    assert_eq!(plan.try_set_arms.len(), 2);
    assert_eq!(plan.missing_field_msg, "field does not exist on Model");
}

#[test]
fn expand_derive_model_embeds_diagnostic_for_non_struct() {
    let r = expand_derive_model("Model".to_owned(), ModelData::Unsupported, Ok(None)).unwrap();
    match r {
        ModelDeriveOutput::CompileError(msg) => {
            assert_eq!(msg, "you can only derive DeriveModel on structs");
        },
        _ => panic!("expected a compile error"),
    }
}

#[test]
fn expand_derive_model_passes_attr_error_through() {
    let data = ModelData::NamedStruct(vec![model_field("id", "i32", false, None)]);
    let e = expand_derive_model("Model".to_owned(), data, Err("oops".to_owned())).unwrap_err();
    assert_eq!(e, "oops");
}

#[test]
fn expand_derive_model_expands_a_struct() {
    let data = ModelData::NamedStruct(vec![model_field("id", "i32", false, None)]);
    let r = expand_derive_model("Model".to_owned(), data, Ok(None)).unwrap();
    match r {
        ModelDeriveOutput::Expanded(e) => {
            assert_eq!(e.from_query_result.len(), 1);
            assert_eq!(e.model_trait.get_arms.len(), 1);
        },
        _ => panic!("expected an expansion"),
    }
}
