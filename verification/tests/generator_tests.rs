use entity_loader::expand::{expand_entity_loader, entity_module_path};
use entity_loader::schema::{EntityLoaderField, EntityLoaderSchema};

fn field(is_one: bool, name: &str, entity: &str) -> EntityLoaderField {
    EntityLoaderField { is_one, field: name.to_owned(), entity: entity.to_owned() }
}

#[test]
fn module_path_strips_entity_suffix() {
    assert_eq!(entity_module_path("super::bakery::Entity"), "super::bakery");
    assert_eq!(entity_module_path("crate::order::Entity"), "crate::order");
}

#[test]
fn module_path_without_suffix_is_unchanged() {
    assert_eq!(entity_module_path("Entity"), "Entity");
    assert_eq!(entity_module_path("super::bakery"), "super::bakery");
    assert_eq!(entity_module_path(""), "");
}

#[test]
fn module_path_strips_repeated_suffix() {
    assert_eq!(entity_module_path("x::Entity::Entity"), "x");
}

#[test]
fn default_schema_has_no_fields() {
    let schema = EntityLoaderSchema::default();
    assert_eq!(schema.fields.len(), 0);
}

#[test]
fn empty_schema_expands_to_empty_bundle() {
    let schema = EntityLoaderSchema { fields: Vec::new() };
    let b = expand_entity_loader(&schema);
    assert_eq!(b.flag_fields.len(), 0);
    assert_eq!(b.with_branches.len(), 0);
    assert_eq!(b.select_steps.len(), 0);
    assert_eq!(b.joined_columns.len(), 1);
    assert_eq!(b.joined_columns[0], "model");
    assert_eq!(b.load_stmts.len(), 0);
}

#[test]
fn one_and_many_field_bundle() {
    let schema = EntityLoaderSchema {
        fields: vec![
            field(true, "bakery", "super::bakery::Entity"),
            field(false, "orders", "super::order::Entity"),
        ],
    };
    let b = expand_entity_loader(&schema);
    assert_eq!(b.flag_fields, vec!["bakery".to_owned(), "orders".to_owned()]);
    assert_eq!(b.nest_fields[0].entity_module, "super::bakery");
    assert_eq!(b.nest_fields[1].entity_module, "super::order");
    // Only the One field joins; the Many field never does.
    assert_eq!(b.select_steps.len(), 1);
    assert_eq!(b.select_steps[0].field_index, 0);
    assert_eq!(b.assemble_steps.len(), 1);
    assert_eq!(b.joined_columns.len(), 2);
    assert_eq!(b.joined_columns[1], "bakery");
    // Every field emits a statement at each of the three depths.
    assert_eq!(b.load_stmts.len(), 2);
    assert_eq!(b.load_nest_stmts.len(), 2);
    assert_eq!(b.load_nest_nest_stmts.len(), 2);
    assert!(b.load_stmts[0].is_one);
    assert!(!b.load_stmts[1].is_one);
    assert_eq!(b.load_stmts[1].entity_module, "super::order");
}

#[test]
fn four_one_fields_only_first_two_join() {
    let schema = EntityLoaderSchema {
        fields: vec![
            field(true, "a", "super::a::Entity"),
            field(true, "b", "super::b::Entity"),
            field(true, "c", "super::c::Entity"),
            field(true, "d", "super::d::Entity"),
        ],
    };
    let b = expand_entity_loader(&schema);
    assert_eq!(b.select_steps.len(), 2);
    assert_eq!(b.select_steps[0].field_index, 0);
    assert_eq!(b.select_steps[1].field_index, 1);
    assert_eq!(b.joined_columns.len(), 3);
    // Fields 3 and 4 still get load-phase statements: they go batched.
    assert_eq!(b.load_stmts.len(), 4);
    assert_eq!(b.load_stmts[2].field_index, 2);
    assert_eq!(b.load_stmts[3].field_index, 3);
}

#[test]
fn two_one_fields_both_join() {
    let schema = EntityLoaderSchema {
        fields: vec![
            field(false, "m", "super::m::Entity"),
            field(true, "a", "super::a::Entity"),
            field(true, "b", "super::b::Entity"),
        ],
    };
    let b = expand_entity_loader(&schema);
    assert_eq!(b.select_steps.len(), 2);
    assert_eq!(b.select_steps[0].field_index, 1);
    assert_eq!(b.select_steps[1].field_index, 2);
}

#[test]
fn dispatch_branches_preserve_declaration_order() {
    let schema = EntityLoaderSchema {
        fields: vec![
            field(true, "a", "super::a::Entity"),
            field(false, "b", "super::b::Entity"),
            field(true, "c", "super::c::Entity"),
        ],
    };
    let b = expand_entity_loader(&schema);
    for (k, branch) in b.with_branches.iter().enumerate() {
        assert_eq!(branch.field_index, k);
    }
    for (k, branch) in b.with_nest_branches.iter().enumerate() {
        assert_eq!(branch.field_index, k);
    }
    assert_eq!(b.with_branches[2].entity, "super::c::Entity");
}
