use entity_loader::expand::expand_entity_loader;
use entity_loader::hydrate::{FetchResult, FetchResultNested, ModelEx};
use entity_loader::hydrate::{load_models, load_nest_models, load_nest_nest_models};
use entity_loader::loader::{load, DbErr, TableEnv};
use entity_loader::pipeline::{all, one, select_plan, BaseRow};
use entity_loader::schema::{EntityLoaderField, EntityLoaderSchema};

fn field(is_one: bool, name: &str, entity: &str) -> EntityLoaderField {
    EntityLoaderField { is_one, field: name.to_owned(), entity: entity.to_owned() }
}

fn bakery_orders_schema() -> (EntityLoaderSchema, TableEnv) {
    let schema = EntityLoaderSchema {
        fields: vec![
            field(true, "bakery", "super::bakery::Entity"),
            field(false, "orders", "super::order::Entity"),
        ],
    };
    let env = TableEnv { table_refs: vec![10, 20], nested_refs: vec![Vec::new(), Vec::new()] };
    (schema, env)
}

fn record(key: u64, n: usize) -> ModelEx {
    ModelEx { key, ones: vec![None; n], manys: vec![Vec::new(); n] }
}

#[test]
fn scenario_bakery_joined_orders_batched() {
    let (schema, env) = bakery_orders_schema();
    let bundle = expand_entity_loader(&schema);
    let loader = load(&env).with(&env, (10, None)).with(&env, (20, None));

    let plan = select_plan(&schema, &bundle.select_steps, &loader, &env);
    // The One field is satisfied by the join, the Many field is not.
    assert_eq!(plan.joined, vec![true]);
    assert_eq!(plan.with_after.flags, vec![false, true]);

    let loader = load(&env).with(&env, (10, None)).with(&env, (20, None));
    let rows = vec![
        BaseRow { key: 1, joined: vec![Some(100)] },
        BaseRow { key: 2, joined: vec![None] },
    ];
    let fetches = vec![
        FetchResult::Ones(Vec::new()),
        FetchResult::Manys(vec![vec![201, 202], Vec::new()]),
    ];
    let out = all(&schema, &env, loader, &bundle.select_steps, rows, fetches).unwrap();
    assert_eq!(out.len(), 2);
    assert_eq!(out[0].key, 1);
    assert_eq!(out[0].ones[0], Some(100));
    assert_eq!(out[0].manys[1], vec![201, 202]);
    assert_eq!(out[1].key, 2);
    assert_eq!(out[1].ones[0], None);
    assert_eq!(out[1].manys[1].len(), 0);
}

#[test]
fn four_one_fields_first_two_joined_rest_batched() {
    let schema = EntityLoaderSchema {
        fields: vec![
            field(true, "a", "super::a::Entity"),
            field(true, "b", "super::b::Entity"),
            field(true, "c", "super::c::Entity"),
            field(true, "d", "super::d::Entity"),
        ],
    };
    let env = TableEnv {
        table_refs: vec![1, 2, 3, 4],
        nested_refs: vec![Vec::new(), Vec::new(), Vec::new(), Vec::new()],
    };
    let bundle = expand_entity_loader(&schema);
    let loader = load(&env)
        .with(&env, (1, None))
        .with(&env, (2, None))
        .with(&env, (3, None))
        .with(&env, (4, None));
    let plan = select_plan(&schema, &bundle.select_steps, &loader, &env);
    assert_eq!(plan.joined, vec![true, true]);
    // Fields 3 and 4 keep their flags: singular, yet batched.
    assert_eq!(plan.with_after.flags, vec![false, false, true, true]);
}

#[test]
fn nested_selection_forces_batched_path() {
    // A One field whose nested selection is set cannot be satisfied by the
    // join: it keeps its flag for the batched phase.
    let schema = EntityLoaderSchema {
        fields: vec![field(true, "bakery", "super::bakery::Entity")],
    };
    let env = TableEnv { table_refs: vec![10], nested_refs: vec![vec![77]] };
    let bundle = expand_entity_loader(&schema);
    let loader = load(&env).with(&env, (10, Some(77)));
    let plan = select_plan(&schema, &bundle.select_steps, &loader, &env);
    assert_eq!(plan.joined, vec![false]);
    assert_eq!(plan.with_after.flags, vec![true]);
}

#[test]
fn failed_fetch_aborts_with_that_error() {
    let (schema, env) = bakery_orders_schema();
    let bundle = expand_entity_loader(&schema);
    let loader = load(&env).with(&env, (20, None));
    let rows = vec![BaseRow { key: 1, joined: vec![None] }];
    let fetches = vec![
        FetchResult::Ones(Vec::new()),
        FetchResult::Failed(DbErr { code: 5 }),
    ];
    let err = all(&schema, &env, loader, &bundle.select_steps, rows, fetches).unwrap_err();
    assert_eq!(err, DbErr { code: 5 });
}

#[test]
fn earliest_flagged_failure_wins() {
    let schema = EntityLoaderSchema {
        fields: vec![
            field(false, "a", "super::a::Entity"),
            field(false, "b", "super::b::Entity"),
        ],
    };
    let models = vec![record(1, 2)];
    let with = entity_loader::loader::EntityLoaderWith { flags: vec![true, true] };
    let nest = entity_loader::loader::EntityLoaderNest { nests: Vec::new() };
    let fetches = vec![
        FetchResult::Failed(DbErr { code: 3 }),
        FetchResult::Failed(DbErr { code: 5 }),
    ];
    let err = load_models(&schema, models, &with, &nest, fetches).unwrap_err();
    assert_eq!(err.code, 3);
}

#[test]
fn many_write_back_lengths_match_fetch() {
    let schema = EntityLoaderSchema {
        fields: vec![field(false, "orders", "super::order::Entity")],
    };
    let models = vec![record(1, 1), record(2, 1), record(3, 1)];
    let with = entity_loader::loader::EntityLoaderWith { flags: vec![true] };
    let nest = entity_loader::loader::EntityLoaderNest { nests: Vec::new() };
    let fetched = vec![vec![9], vec![], vec![7, 8, 9]];
    let fetches = vec![FetchResult::Manys(fetched.clone())];
    let out = load_models(&schema, models, &with, &nest, fetches).unwrap();
    for (rec, f) in out.iter().zip(fetched.iter()) {
        assert_eq!(rec.manys[0].len(), f.len());
        assert_eq!(&rec.manys[0], f);
    }
}

#[test]
fn one_is_all_truncated_to_first() {
    let (schema, env) = bakery_orders_schema();
    let bundle = expand_entity_loader(&schema);
    let row = BaseRow { key: 1, joined: vec![Some(100)] };
    let fetches = vec![
        FetchResult::Ones(Vec::new()),
        FetchResult::Manys(vec![vec![201]]),
    ];
    let loader = load(&env).with(&env, (10, None)).with(&env, (20, None));
    let via_all = all(
        &schema,
        &env,
        loader,
        &bundle.select_steps,
        vec![BaseRow { key: row.key, joined: row.joined.clone() }],
        fetches.clone(),
    )
    .unwrap();
    let loader = load(&env).with(&env, (10, None)).with(&env, (20, None));
    let via_one = one(&schema, &env, loader, &bundle.select_steps, vec![row], fetches)
        .unwrap()
        .unwrap();
    assert_eq!(via_one.key, via_all[0].key);
    assert_eq!(via_one.ones, via_all[0].ones);
    assert_eq!(via_one.manys, via_all[0].manys);
}

#[test]
fn one_with_no_rows_is_none_not_an_error() {
    let (schema, env) = bakery_orders_schema();
    let bundle = expand_entity_loader(&schema);
    let loader = load(&env).with(&env, (10, None));
    let fetches = vec![FetchResult::Ones(Vec::new()), FetchResult::Ones(Vec::new())];
    let r = one(&schema, &env, loader, &bundle.select_steps, Vec::new(), fetches).unwrap();
    assert!(r.is_none());
}

#[test]
fn depth_one_load_skips_absent_records() {
    let schema = EntityLoaderSchema {
        fields: vec![field(true, "bakery", "super::bakery::Entity")],
    };
    let models = vec![Some(record(1, 1)), None, Some(record(3, 1))];
    let with = entity_loader::loader::EntityLoaderWith { flags: vec![true] };
    let fetches = vec![FetchResult::Ones(vec![Some(11), None, Some(33)])];
    let out = load_nest_models(&schema, models, &with, fetches).unwrap();
    assert_eq!(out[0].as_ref().unwrap().ones[0], Some(11));
    assert!(out[1].is_none());
    assert_eq!(out[2].as_ref().unwrap().ones[0], Some(33));
}

#[test]
fn depth_two_load_writes_within_each_group() {
    let schema = EntityLoaderSchema {
        fields: vec![field(false, "orders", "super::order::Entity")],
    };
    let models = vec![vec![record(1, 1), record(2, 1)], vec![record(3, 1)]];
    let with = entity_loader::loader::EntityLoaderWith { flags: vec![true] };
    let fetches = vec![FetchResultNested::Manys(vec![
        vec![vec![101], vec![201, 202]],
        vec![vec![301]],
    ])];
    let out = load_nest_nest_models(&schema, models, &with, fetches).unwrap();
    assert_eq!(out[0][0].manys[0], vec![101]);
    assert_eq!(out[0][1].manys[0], vec![201, 202]);
    assert_eq!(out[1][0].manys[0], vec![301]);
}

#[test]
fn unflagged_fields_are_left_untouched() {
    let (schema, _env) = bakery_orders_schema();
    let models = vec![record(1, 2)];
    let with = entity_loader::loader::EntityLoaderWith { flags: vec![false, false] };
    let nest = entity_loader::loader::EntityLoaderNest { nests: Vec::new() };
    let fetches = vec![
        FetchResult::Failed(DbErr { code: 9 }),
        FetchResult::Failed(DbErr { code: 9 }),
    ];
    // Unflagged fields consult no fetch: even failures there are inert.
    let out = load_models(&schema, models, &with, &nest, fetches).unwrap();
    assert_eq!(out[0].ones[0], None);
    assert_eq!(out[0].manys[1].len(), 0);
}
