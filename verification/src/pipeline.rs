use vstd::prelude::*;
use crate::schema::EntityLoaderSchema;
use crate::expand::{join_candidate, join_width, lemma_ones_before_monotonic, ones_before,
    select_steps_wf, SelectStep};
use crate::hydrate::{err_of, fetches_wf, first_failed_from, load_models, loaded_many, loaded_one,
    manys_of, ones_of, FetchResult, ModelEx};
use crate::loader::{spec_all_clear, DbErr, EntityLoader, EntityLoaderWith, TableEnv};

verus! {

/// One row of the (possibly joined) base select: the base record's own
/// columns and one column per join-path field, present when that field was
/// joined, a placeholder otherwise.
pub struct BaseRow {
    pub key: u64,
    pub joined: Vec<Option<u64>>,
}

/// Field i is satisfied by the joined select on this call: it is on the
/// join path, its flag is set and its nested selection is empty.
pub open spec fn joined_now(
    fields: Seq<crate::schema::EntityLoaderField>,
    withf: Seq<bool>,
    nests: Seq<EntityLoaderWith>,
    i: int,
) -> bool {
    join_candidate(fields, i) && withf[i] && spec_all_clear(nests[i].flags@)
}

/// Field i still needs a batched fetch after the select rewriting: flagged,
/// and not satisfied by the join.
pub open spec fn after_flag(
    fields: Seq<crate::schema::EntityLoaderField>,
    withf: Seq<bool>,
    nests: Seq<EntityLoaderWith>,
    i: int,
) -> bool {
    withf[i] && !joined_now(fields, withf, nests, i)
}

/// The whole flag record after the select rewriting.
pub open spec fn spec_after_flags(
    fields: Seq<crate::schema::EntityLoaderField>,
    withf: Seq<bool>,
    nests: Seq<EntityLoaderWith>,
) -> Seq<bool> {
    Seq::new(withf.len(), |i: int| after_flag(fields, withf, nests, i))
}

/// The select rewriting's outcome: which join-path fields were joined this
/// call, and the selection flags left for the batched load phase.
pub struct SelectPlan {
    pub joined: Vec<bool>,
    pub with_after: EntityLoaderWith,
}

/// Rewrites the base query per the join-arity rule: every join-path field
/// that is flagged with an empty nested selection is joined in and its flag
/// cleared; every other field keeps its flag and goes to the batched phase.
#[verifier::loop_isolation(false)]
pub fn select_plan(
    schema: &EntityLoaderSchema,
    steps: &Vec<SelectStep>,
    loader: &EntityLoader,
    env: &TableEnv,
) -> (r: SelectPlan)
    requires
        select_steps_wf(steps@, schema.fields@),
        loader.wf(env),
        env.matches(schema),
    ensures
        r.joined@.len() == steps@.len(),
        forall|k: int|
            0 <= k < steps@.len() ==> (#[trigger] r.joined@[k]) == joined_now(
                schema.fields@,
                loader.with.flags@,
                loader.nest.nests@,
                steps@[k].field_index as int,
            ),
        r.with_after.flags@ == spec_after_flags(
            schema.fields@,
            loader.with.flags@,
            loader.nest.nests@,
        ),
{
    let ghost fs = schema.fields@;
    let ghost withf = loader.with.flags@;
    let ghost nests = loader.nest.nests@;
    let n = loader.with.flags.len();
    let w = steps.len();
    let mut joined: Vec<bool> = Vec::new();
    let mut flags: Vec<bool> = Vec::new();
    let mut i: usize = 0;
    while i < n
        invariant
            i <= n,
            flags@.len() == i,
            forall|k: int| 0 <= k < i ==> (#[trigger] flags@[k]) == withf[k],
        decreases n - i,
    {
        flags.push(loader.with.flags[i]);
        i += 1;
    }
    proof {
        assert forall|i2: int| 0 <= i2 < n implies (#[trigger] ones_before(fs, i2)) >= 0 by {
            lemma_ones_before_monotonic(fs, 0, i2);
        }
    }
    let mut k: usize = 0;
    while k < w
        invariant
            k <= w,
            joined@.len() == k,
            forall|k2: int|
                0 <= k2 < k ==> (#[trigger] joined@[k2]) == joined_now(
                    fs,
                    withf,
                    nests,
                    steps@[k2].field_index as int,
                ),
            flags@.len() == n,
            forall|i2: int|
                0 <= i2 < n ==> (#[trigger] flags@[i2]) == (withf[i2] && !(join_candidate(fs, i2)
                    && ones_before(fs, i2) < k && withf[i2] && spec_all_clear(nests[i2].flags@))),
        decreases w - k,
    {
        let fi = steps[k].field_index;
        let jn = loader.with.flags[fi] && loader.nest.nests[fi].is_empty();
        joined.push(jn);
        if jn {
            flags[fi] = false;
        }
        proof {
            assert forall|i2: int|
                0 <= i2 < n implies (#[trigger] flags@[i2]) == (withf[i2] && !(join_candidate(
                fs,
                i2,
            ) && ones_before(fs, i2) < k + 1 && withf[i2] && spec_all_clear(nests[i2].flags@))) by {
                if i2 == fi as int {
                    assert(ones_before(fs, i2) == k as int);
                } else {
                    if join_candidate(fs, i2) && ones_before(fs, i2) == k as int {
                        crate::expand::lemma_candidate_positions_distinct(fs, i2, fi as int);
                    }
                }
            }
        }
        k += 1;
    }
    proof {
        assert forall|i2: int| 0 <= i2 < n implies (#[trigger] flags@[i2]) == after_flag(
            fs,
            withf,
            nests,
            i2,
        ) by {
            if join_candidate(fs, i2) {
                assert(ones_before(fs, i2) < w);
            }
        }
        assert(flags@ =~= spec_after_flags(fs, withf, nests));
    }
    SelectPlan { joined, with_after: EntityLoaderWith { flags } }
}

/// The One-slot value a base record holds right after reassembly of the
/// joined select: the joined column for a join-path field, absent otherwise.
pub open spec fn assembled_one(
    fields: Seq<crate::schema::EntityLoaderField>,
    row: BaseRow,
    i: int,
) -> Option<u64> {
    if join_candidate(fields, i) {
        row.joined@[ones_before(fields, i)]
    } else {
        None
    }
}

/// Turns one joined-select row into a base record: its own columns, each
/// join-path field filled from its joined column, everything else empty.
#[verifier::loop_isolation(false)]
fn assemble_record(schema: &EntityLoaderSchema, row: &BaseRow) -> (m: ModelEx)
    requires
        row.joined@.len() == join_width(schema.fields@),
    ensures
        m.key == row.key,
        m.wf(schema.fields@.len() as int),
        forall|i: int|
            0 <= i < schema.fields@.len() ==> (#[trigger] m.ones@[i]) == assembled_one(
                schema.fields@,
                *row,
                i,
            ),
        forall|i: int|
            0 <= i < schema.fields@.len() ==> (#[trigger] m.manys@[i])@ == Seq::<u64>::empty(),
{
    let ghost fs = schema.fields@;
    let n = schema.fields.len();
    let mut ones: Vec<Option<u64>> = Vec::new();
    let mut manys: Vec<Vec<u64>> = Vec::new();
    let mut seen: usize = 0;
    let mut i: usize = 0;
    while i < n
        invariant
            i <= n,
            seen == if ones_before(fs, i as int) <= 2 {
                ones_before(fs, i as int)
            } else {
                2int
            },
            ones@.len() == i,
            manys@.len() == i,
            forall|k: int| 0 <= k < i ==> (#[trigger] ones@[k]) == assembled_one(fs, *row, k),
            forall|k: int| 0 <= k < i ==> (#[trigger] manys@[k])@ == Seq::<u64>::empty(),
        decreases n - i,
    {
        if schema.fields[i].is_one && seen < 2 {
            proof {
                lemma_ones_before_monotonic(fs, i + 1, n as int);
                assert(ones_before(fs, i + 1) == ones_before(fs, i as int) + 1);
            }
            ones.push(row.joined[seen]);
            seen += 1;
        } else {
            ones.push(None);
        }
        manys.push(Vec::new());
        proof {
            assert(ones_before(fs, i + 1) == ones_before(fs, i as int) + if fs[i as int].is_one {
                1int
            } else {
                0int
            });
        }
        i += 1;
    }
    ModelEx { key: row.key, ones, manys }
}

/// Reassembles every joined-select row into a base record, in row order.
#[verifier::loop_isolation(false)]
fn assemble_rows(schema: &EntityLoaderSchema, rows: &Vec<BaseRow>) -> (out: Vec<ModelEx>)
    requires
        forall|j: int|
            0 <= j < rows@.len() ==> (#[trigger] rows@[j]).joined@.len() == join_width(
                schema.fields@,
            ),
    ensures
        out@.len() == rows@.len(),
        forall|j: int|
            0 <= j < rows@.len() ==> (#[trigger] out@[j]).key == rows@[j].key && out@[j].wf(
                schema.fields@.len() as int,
            ),
        forall|j: int, i: int|
            0 <= j < rows@.len() && 0 <= i < schema.fields@.len() ==> (#[trigger] out@[j].ones@[i])
                == assembled_one(schema.fields@, rows@[j], i),
        forall|j: int, i: int|
            0 <= j < rows@.len() && 0 <= i < schema.fields@.len() ==> (#[trigger] out@[j].manys@[i])@
                == Seq::<u64>::empty(),
{
    let m = rows.len();
    let mut out: Vec<ModelEx> = Vec::new();
    let mut j: usize = 0;
    while j < m
        invariant
            j <= m,
            out@.len() == j,
            forall|k: int|
                0 <= k < j ==> (#[trigger] out@[k]).key == rows@[k].key && out@[k].wf(
                    schema.fields@.len() as int,
                ),
            forall|k: int, i: int|
                0 <= k < j && 0 <= i < schema.fields@.len() ==> (#[trigger] out@[k].ones@[i])
                    == assembled_one(schema.fields@, rows@[k], i),
            forall|k: int, i: int|
                0 <= k < j && 0 <= i < schema.fields@.len() ==> (#[trigger] out@[k].manys@[i])@
                    == Seq::<u64>::empty(),
        decreases m - j,
    {
        let rec = assemble_record(schema, &rows[j]);
        out.push(rec);
        j += 1;
    }
    out
}

/// What `all` leaves in One-slot i of the record built from row j, given
/// the original selection: a batched fetch result where the field still
/// needed one, the joined column where the field sat on the join path, and
/// nothing otherwise.
pub open spec fn all_one(
    fields: Seq<crate::schema::EntityLoaderField>,
    withf: Seq<bool>,
    nests: Seq<EntityLoaderWith>,
    row: BaseRow,
    fetches: Seq<FetchResult>,
    j: int,
    i: int,
) -> Option<u64> {
    if fields[i].is_one && after_flag(fields, withf, nests, i) {
        ones_of(fetches[i])[j]
    } else {
        assembled_one(fields, row, i)
    }
}

/// What `all` leaves in Many-slot i of the record built from row j: the
/// whole batched collection for a flagged Many field, nothing otherwise.
pub open spec fn all_many(
    fields: Seq<crate::schema::EntityLoaderField>,
    withf: Seq<bool>,
    nests: Seq<EntityLoaderWith>,
    fetches: Seq<FetchResult>,
    j: int,
    i: int,
) -> Seq<u64> {
    if !fields[i].is_one && after_flag(fields, withf, nests, i) {
        manys_of(fetches[i])[j]
    } else {
        Seq::empty()
    }
}

/// Executes a configured load request over the rows the (possibly joined)
/// base select returned: rewrites the select per the join-arity rule,
/// reassembles joined columns into base records in original row order, then
/// runs the depth-0 load phase for every remaining flagged field.  The
/// first failed fetch aborts the call with that error.
#[verifier::loop_isolation(false)]
pub fn all(
    schema: &EntityLoaderSchema,
    env: &TableEnv,
    loader: EntityLoader,
    steps: &Vec<SelectStep>,
    rows: Vec<BaseRow>,
    fetches: Vec<FetchResult>,
) -> (r: Result<Vec<ModelEx>, DbErr>)
    requires
        select_steps_wf(steps@, schema.fields@),
        loader.wf(env),
        env.matches(schema),
        forall|j: int|
            0 <= j < rows@.len() ==> (#[trigger] rows@[j]).joined@.len() == join_width(
                schema.fields@,
            ),
        fetches_wf(
            schema.fields@,
            spec_after_flags(schema.fields@, loader.with.flags@, loader.nest.nests@),
            fetches@,
            rows@.len() as int,
        ),
    ensures
        match r {
            Ok(out) => {
                &&& first_failed_from(
                    spec_after_flags(schema.fields@, loader.with.flags@, loader.nest.nests@),
                    fetches@,
                    0,
                ) is None
                &&& out@.len() == rows@.len()
                &&& forall|j: int|
                    0 <= j < rows@.len() ==> (#[trigger] out@[j]).key == rows@[j].key
                        && out@[j].wf(schema.fields@.len() as int)
                &&& forall|j: int, i: int|
                    0 <= j < rows@.len() && 0 <= i < schema.fields@.len() ==> (#[trigger] out@[j].ones@[i])
                        == all_one(
                        schema.fields@,
                        loader.with.flags@,
                        loader.nest.nests@,
                        rows@[j],
                        fetches@,
                        j,
                        i,
                    )
                &&& forall|j: int, i: int|
                    0 <= j < rows@.len() && 0 <= i < schema.fields@.len() ==> (#[trigger] out@[j].manys@[i])@
                        == all_many(
                        schema.fields@,
                        loader.with.flags@,
                        loader.nest.nests@,
                        fetches@,
                        j,
                        i,
                    )
            },
            Err(e) => match first_failed_from(
                spec_after_flags(schema.fields@, loader.with.flags@, loader.nest.nests@),
                fetches@,
                0,
            ) {
                Some(k) => e == err_of(fetches@[k]),
                None => false,
            },
        },
{
    let ghost fs = schema.fields@;
    let ghost withf = loader.with.flags@;
    let ghost nests = loader.nest.nests@;
    let plan = select_plan(schema, steps, &loader, env);
    let models = assemble_rows(schema, &rows);
    let ghost assembled = models@;
    let res = load_models(schema, models, &plan.with_after, &loader.nest, fetches);
    match res {
        Err(e) => Err(e),
        Ok(out) => {
            proof {
                assert forall|j: int, i: int|
                    0 <= j < rows@.len() && 0 <= i < fs.len() implies (#[trigger] out@[j].ones@[i])
                    == all_one(fs, withf, nests, rows@[j], fetches@, j, i) by {
                    assert(out@[j].ones@[i] == loaded_one(
                        fs,
                        plan.with_after.flags@,
                        fetches@,
                        assembled[j],
                        j,
                        i,
                    ));
                    assert(assembled[j].ones@[i] == assembled_one(fs, rows@[j], i));
                }
                assert forall|j: int, i: int|
                    0 <= j < rows@.len() && 0 <= i < fs.len() implies (#[trigger] out@[j].manys@[i])@
                    == all_many(fs, withf, nests, fetches@, j, i) by {
                    assert(out@[j].ones@[i] == loaded_one(
                        fs,
                        plan.with_after.flags@,
                        fetches@,
                        assembled[j],
                        j,
                        i,
                    ));
                    assert(out@[j].manys@[i]@ == loaded_many(
                        fs,
                        plan.with_after.flags@,
                        fetches@,
                        assembled[j],
                        j,
                        i,
                    ));
                    assert(assembled[j].manys@[i]@ == Seq::<u64>::empty());
                }
            }
            Ok(out)
        },
    }
}

/// Applies an implicit limit of one row to the base query and returns the
/// first result if any: exactly `all` truncated to its first record, the
/// limit applied at the query stage, and never an error merely because no
/// row matched.
#[verifier::loop_isolation(false)]
pub fn one(
    schema: &EntityLoaderSchema,
    env: &TableEnv,
    loader: EntityLoader,
    steps: &Vec<SelectStep>,
    rows: Vec<BaseRow>,
    fetches: Vec<FetchResult>,
) -> (r: Result<Option<ModelEx>, DbErr>)
    requires
        rows@.len() <= 1,
        select_steps_wf(steps@, schema.fields@),
        loader.wf(env),
        env.matches(schema),
        forall|j: int|
            0 <= j < rows@.len() ==> (#[trigger] rows@[j]).joined@.len() == join_width(
                schema.fields@,
            ),
        fetches_wf(
            schema.fields@,
            spec_after_flags(schema.fields@, loader.with.flags@, loader.nest.nests@),
            fetches@,
            rows@.len() as int,
        ),
    ensures
        match r {
            Ok(opt) => {
                &&& first_failed_from(
                    spec_after_flags(schema.fields@, loader.with.flags@, loader.nest.nests@),
                    fetches@,
                    0,
                ) is None
                &&& (opt is Some <==> rows@.len() == 1)
                &&& (opt is Some ==> opt->Some_0.key == rows@[0].key && opt->Some_0.wf(
                    schema.fields@.len() as int,
                ))
                &&& (opt is Some ==> forall|i: int|
                    0 <= i < schema.fields@.len() ==> (#[trigger] opt->Some_0.ones@[i]) == all_one(
                        schema.fields@,
                        loader.with.flags@,
                        loader.nest.nests@,
                        rows@[0],
                        fetches@,
                        0,
                        i,
                    ))
                &&& (opt is Some ==> forall|i: int|
                    0 <= i < schema.fields@.len() ==> (#[trigger] opt->Some_0.manys@[i])@
                        == all_many(
                        schema.fields@,
                        loader.with.flags@,
                        loader.nest.nests@,
                        fetches@,
                        0,
                        i,
                    ))
            },
            Err(e) => match first_failed_from(
                spec_after_flags(schema.fields@, loader.with.flags@, loader.nest.nests@),
                fetches@,
                0,
            ) {
                Some(k) => e == err_of(fetches@[k]),
                None => false,
            },
        },
{
    let res = all(schema, env, loader, steps, rows, fetches);
    match res {
        Err(e) => Err(e),
        Ok(mut v) => {
            if v.len() == 0 {
                Ok(None)
            } else {
                let first = v.remove(0);
                Ok(Some(first))
            }
        },
    }
}

} // verus!
