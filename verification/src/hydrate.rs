use vstd::prelude::*;
use crate::schema::{EntityLoaderField, EntityLoaderSchema};
use crate::loader::{DbErr, EntityLoaderNest, EntityLoaderWith};

verus! {

/// One base record as the generated code sees it after hydration: `key`
/// stands for the record's own columns, `ones[i]` holds the single related
/// row loaded for a One-cardinality field i (boxed in the generated code,
/// absent when no row matched), and `manys[i]` the collection loaded for a
/// Many-cardinality field i.  The slot of the other cardinality is unused.
#[derive(Debug)]
pub struct ModelEx {
    pub key: u64,
    pub ones: Vec<Option<u64>>,
    pub manys: Vec<Vec<u64>>,
}

impl ModelEx {
    /// One slot of each kind per relation field.
    pub open spec fn wf(&self, n: int) -> bool {
        &&& self.ones@.len() == n
        &&& self.manys@.len() == n
    }
}

/// Outcome of one batched relation fetch over a flat sequence of base
/// records, one entry per base record in matching order: single rows for a
/// One field, collections for a Many field, or a database error.  The
/// entries carry the related rows after the target's own loader resolved
/// one further nesting level for them.
#[derive(Debug, Clone)]
pub enum FetchResult {
    Ones(Vec<Option<u64>>),
    Manys(Vec<Vec<u64>>),
    Failed(DbErr),
}

/// Outcome of one batched relation fetch over grouped base records, one
/// inner sequence per group, entries positional within each group.
#[derive(Debug)]
pub enum FetchResultNested {
    Ones(Vec<Vec<Option<u64>>>),
    Manys(Vec<Vec<Vec<u64>>>),
    Failed(DbErr),
}

pub open spec fn ones_of(f: FetchResult) -> Seq<Option<u64>> {
    match f {
        FetchResult::Ones(v) => v@,
        _ => Seq::empty(),
    }
}

pub open spec fn manys_of(f: FetchResult) -> Seq<Seq<u64>> {
    match f {
        FetchResult::Manys(v) => v@.map_values(|x: Vec<u64>| x@),
        _ => Seq::empty(),
    }
}

pub open spec fn err_of(f: FetchResult) -> DbErr {
    match f {
        FetchResult::Failed(e) => e,
        _ => DbErr { code: 0 },
    }
}

pub open spec fn nested_ones_of(f: FetchResultNested) -> Seq<Seq<Option<u64>>> {
    match f {
        FetchResultNested::Ones(v) => v@.map_values(|x: Vec<Option<u64>>| x@),
        _ => Seq::empty(),
    }
}

pub open spec fn nested_manys_of(f: FetchResultNested) -> Seq<Seq<Seq<u64>>> {
    match f {
        FetchResultNested::Manys(v) => v@.map_values(
            |x: Vec<Vec<u64>>| x@.map_values(|y: Vec<u64>| y@),
        ),
        _ => Seq::empty(),
    }
}

pub open spec fn nested_err_of(f: FetchResultNested) -> DbErr {
    match f {
        FetchResultNested::Failed(e) => e,
        _ => DbErr { code: 0 },
    }
}

/// A fetch outcome for field i over m base records has the shape the engine
/// promises: one entry per base record, rows for One fields, collections for
/// Many fields; an error has no shape.
pub open spec fn fetch_shaped(f: FetchResult, is_one: bool, m: int) -> bool {
    match f {
        FetchResult::Ones(v) => is_one && v@.len() == m,
        FetchResult::Manys(v) => !is_one && v@.len() == m,
        FetchResult::Failed(_) => true,
    }
}

/// One fetch outcome per relation field, each flagged field's outcome shaped
/// for m base records.
pub open spec fn fetches_wf(
    fields: Seq<EntityLoaderField>,
    flags: Seq<bool>,
    fetches: Seq<FetchResult>,
    m: int,
) -> bool {
    &&& fetches.len() == fields.len()
    &&& flags.len() == fields.len()
    &&& forall|i: int|
        0 <= i < fields.len() && flags[i] ==> fetch_shaped(
            #[trigger] fetches[i],
            fields[i].is_one,
            m,
        )
}

/// Earliest field at or after position i whose flag is set and whose fetch
/// failed: the point where the load phase aborts.
pub open spec fn first_failed_from(flags: Seq<bool>, fetches: Seq<FetchResult>, i: int) -> Option<
    int,
>
    decreases flags.len() - i,
{
    if i < 0 || i >= flags.len() || i >= fetches.len() {
        None
    } else if flags[i] && fetches[i] is Failed {
        Some(i)
    } else {
        first_failed_from(flags, fetches, i + 1)
    }
}

/// Value of One-slot i of a base record after the depth-0 load phase ran
/// with the given flags and fetch outcomes: overwritten by the fetch for a
/// flagged One field, untouched otherwise.
pub open spec fn loaded_one(
    fields: Seq<EntityLoaderField>,
    flags: Seq<bool>,
    fetches: Seq<FetchResult>,
    before: ModelEx,
    j: int,
    i: int,
) -> Option<u64> {
    if fields[i].is_one && flags[i] {
        ones_of(fetches[i])[j]
    } else {
        before.ones@[i]
    }
}

/// Value of Many-slot i of a base record after the depth-0 load phase ran:
/// the whole fetched collection for a flagged Many field, untouched
/// otherwise.
pub open spec fn loaded_many(
    fields: Seq<EntityLoaderField>,
    flags: Seq<bool>,
    fetches: Seq<FetchResult>,
    before: ModelEx,
    j: int,
    i: int,
) -> Seq<u64> {
    if !fields[i].is_one && flags[i] {
        manys_of(fetches[i])[j]
    } else {
        before.manys@[i]@
    }
}

/// Writes the fetched single rows positionally into One-slot i of each
/// record: record j receives entry j.
fn apply_one(models: Vec<ModelEx>, i: usize, vals: &Vec<Option<u64>>) -> (out: Vec<ModelEx>)
    requires
        vals@.len() == models@.len(),
        forall|j: int| 0 <= j < models@.len() ==> i < (#[trigger] models@[j]).ones@.len(),
    ensures
        out@.len() == models@.len(),
        forall|j: int|
            0 <= j < models@.len() ==> {
                &&& (#[trigger] out@[j]).key == models@[j].key
                &&& out@[j].ones@ == models@[j].ones@.update(i as int, vals@[j])
                &&& out@[j].manys@ == models@[j].manys@
            },
{
    let m = models.len();
    let mut src = models;
    let mut out: Vec<ModelEx> = Vec::new();
    let mut j: usize = 0;
    while j < m
        invariant
            j <= m,
            m == models@.len(),
            vals@.len() == m,
            forall|k: int| 0 <= k < m ==> i < (#[trigger] models@[k]).ones@.len(),
            src@ == models@.subrange(j as int, m as int),
            out@.len() == j,
            forall|k: int|
                0 <= k < j ==> {
                    &&& (#[trigger] out@[k]).key == models@[k].key
                    &&& out@[k].ones@ == models@[k].ones@.update(i as int, vals@[k])
                    &&& out@[k].manys@ == models@[k].manys@
                },
        decreases m - j,
    {
        let mut rec = src.remove(0);
        rec.ones[i] = vals[j];
        out.push(rec);
        proof {
            assert(src@ =~= models@.subrange(j + 1, m as int));
        }
        j += 1;
    }
    out
}

/// Writes the fetched collections positionally into Many-slot i of each
/// record: record j receives collection j, whole.
fn apply_many(models: Vec<ModelEx>, i: usize, vals: Vec<Vec<u64>>) -> (out: Vec<ModelEx>)
    requires
        vals@.len() == models@.len(),
        forall|j: int| 0 <= j < models@.len() ==> i < (#[trigger] models@[j]).manys@.len(),
    ensures
        out@.len() == models@.len(),
        forall|j: int|
            0 <= j < models@.len() ==> {
                &&& (#[trigger] out@[j]).key == models@[j].key
                &&& out@[j].ones@ == models@[j].ones@
                &&& out@[j].manys@ == models@[j].manys@.update(i as int, vals@[j])
            },
{
    let m = models.len();
    let mut src = models;
    let mut vs = vals;
    let mut out: Vec<ModelEx> = Vec::new();
    let mut j: usize = 0;
    while j < m
        invariant
            j <= m,
            m == models@.len(),
            vals@.len() == m,
            forall|k: int| 0 <= k < m ==> i < (#[trigger] models@[k]).manys@.len(),
            src@ == models@.subrange(j as int, m as int),
            vs@ == vals@.subrange(j as int, m as int),
            out@.len() == j,
            forall|k: int|
                0 <= k < j ==> {
                    &&& (#[trigger] out@[k]).key == models@[k].key
                    &&& out@[k].ones@ == models@[k].ones@
                    &&& out@[k].manys@ == models@[k].manys@.update(i as int, vals@[k])
                },
        decreases m - j,
    {
        let mut rec = src.remove(0);
        let v = vs.remove(0);
        rec.manys[i] = v;
        out.push(rec);
        proof {
            assert(src@ =~= models@.subrange(j + 1, m as int));
            assert(vs@ =~= vals@.subrange(j + 1, m as int));
        }
        j += 1;
    }
    out
}

/// Depth-0 load phase: walks the relation fields in declaration order and,
/// for every flagged field, consumes that field's batched fetch outcome and
/// writes it back positionally into the base records.  The first failed
/// fetch of a flagged field aborts the whole phase with that error; fields
/// after it are not applied.  The nested selection is carried to each
/// target's own loader together with the fetch, so its effect is already
/// inside the fetch outcome.
#[verifier::loop_isolation(false)]
#[verifier::rlimit(60)]
pub fn load_models(
    schema: &EntityLoaderSchema,
    models: Vec<ModelEx>,
    with: &EntityLoaderWith,
    nest: &EntityLoaderNest,
    fetches: Vec<FetchResult>,
) -> (r: Result<Vec<ModelEx>, DbErr>)
    requires
        fetches_wf(schema.fields@, with.flags@, fetches@, models@.len() as int),
        forall|j: int|
            0 <= j < models@.len() ==> (#[trigger] models@[j]).wf(schema.fields@.len() as int),
    ensures
        match r {
            Ok(out) => {
                &&& first_failed_from(with.flags@, fetches@, 0) is None
                &&& out@.len() == models@.len()
                &&& forall|j: int|
                    0 <= j < models@.len() ==> (#[trigger] out@[j]).key == models@[j].key
                        && out@[j].wf(schema.fields@.len() as int)
                &&& forall|j: int, i: int|
                    0 <= j < models@.len() && 0 <= i < schema.fields@.len() ==> {
                        &&& (#[trigger] out@[j].ones@[i]) == loaded_one(
                            schema.fields@,
                            with.flags@,
                            fetches@,
                            models@[j],
                            j,
                            i,
                        )
                        &&& out@[j].manys@[i]@ == loaded_many(
                            schema.fields@,
                            with.flags@,
                            fetches@,
                            models@[j],
                            j,
                            i,
                        )
                    }
            },
            Err(e) => match first_failed_from(with.flags@, fetches@, 0) {
                Some(k) => e == err_of(fetches@[k]),
                None => false,
            },
        },
{
    let n = schema.fields.len();
    let m = models.len();
    let ghost orig = models@;
    let ghost all_fetches = fetches@;
    let mut cur = models;
    let mut rest = fetches;
    let mut i: usize = 0;
    while i < n
        invariant
            i <= n,
            n == schema.fields@.len(),
            m == orig.len(),
            with.flags@.len() == n,
            all_fetches.len() == n,
            fetches_wf(schema.fields@, with.flags@, all_fetches, m as int),
            forall|j: int| 0 <= j < m ==> (#[trigger] orig[j]).wf(n as int),
            rest@ == all_fetches.subrange(i as int, n as int),
            cur@.len() == m,
            forall|j: int|
                0 <= j < m ==> (#[trigger] cur@[j]).key == orig[j].key && cur@[j].wf(n as int),
            forall|j: int, f: int|
                0 <= j < m && 0 <= f < i ==> (#[trigger] cur@[j].ones@[f]) == loaded_one(
                    schema.fields@,
                    with.flags@,
                    all_fetches,
                    orig[j],
                    j,
                    f,
                ),
            forall|j: int, f: int|
                0 <= j < m && 0 <= f < i ==> (#[trigger] cur@[j].manys@[f])@ == loaded_many(
                    schema.fields@,
                    with.flags@,
                    all_fetches,
                    orig[j],
                    j,
                    f,
                ),
            forall|j: int, f: int|
                0 <= j < m && i <= f < n ==> (#[trigger] cur@[j].ones@[f]) == orig[j].ones@[f],
            forall|j: int, f: int|
                0 <= j < m && i <= f < n ==> (#[trigger] cur@[j].manys@[f]) == orig[j].manys@[f],
            first_failed_from(with.flags@, all_fetches, 0) == first_failed_from(
                with.flags@,
                all_fetches,
                i as int,
            ),
        decreases n - i,
    {
        let f = rest.remove(0);
        proof {
            assert(rest@ =~= all_fetches.subrange(i + 1, n as int));
            assert(f == all_fetches[i as int]);
        }
        let ghost prev = cur@;
        if with.flags[i] {
            match f {
                FetchResult::Failed(e) => {
                    proof {
                        assert(first_failed_from(with.flags@, all_fetches, i as int) == Some(
                            i as int,
                        ));
                    }
                    return Err(e);
                },
                FetchResult::Ones(v) => {
                    cur = apply_one(cur, i, &v);
                },
                FetchResult::Manys(v) => {
                    cur = apply_many(cur, i, v);
                },
            }
        }
        proof {
            let fi = i as int;
            assert(first_failed_from(with.flags@, all_fetches, fi) == first_failed_from(
                with.flags@,
                all_fetches,
                fi + 1,
            ));
            assert forall|j: int, f2: int| 0 <= j < m && 0 <= f2 <= fi implies (#[trigger] cur@[j].ones@[f2])
                == loaded_one(schema.fields@, with.flags@, all_fetches, orig[j], j, f2) by {
                if f2 < fi {
                    assert(prev[j].ones@[f2] == loaded_one(
                        schema.fields@,
                        with.flags@,
                        all_fetches,
                        orig[j],
                        j,
                        f2,
                    ));
                } else {
                    assert(prev[j].ones@[f2] == orig[j].ones@[f2]);
                }
            }
            assert forall|j: int, f2: int| 0 <= j < m && 0 <= f2 <= fi implies (#[trigger] cur@[j].manys@[f2])@
                == loaded_many(schema.fields@, with.flags@, all_fetches, orig[j], j, f2) by {
                if f2 < fi {
                    assert(prev[j].manys@[f2]@ == loaded_many(
                        schema.fields@,
                        with.flags@,
                        all_fetches,
                        orig[j],
                        j,
                        f2,
                    ));
                } else {
                    assert(prev[j].manys@[f2] == orig[j].manys@[f2]);
                }
            }
            assert forall|j: int, f2: int| 0 <= j < m && fi + 1 <= f2 < n implies (#[trigger] cur@[j].ones@[f2])
                == orig[j].ones@[f2] by {
                assert(prev[j].ones@[f2] == orig[j].ones@[f2]);
            }
            assert forall|j: int, f2: int| 0 <= j < m && fi + 1 <= f2 < n implies (#[trigger] cur@[j].manys@[f2])
                == orig[j].manys@[f2] by {
                assert(prev[j].manys@[f2] == orig[j].manys@[f2]);
            }
        }
        i += 1;
    }
    Ok(cur)
}

/// Writes the fetched single rows into One-slot i of each present record;
/// records an outer loader found no base row for are skipped.
fn apply_one_nest(models: Vec<Option<ModelEx>>, i: usize, vals: &Vec<Option<u64>>) -> (out: Vec<
    Option<ModelEx>,
>)
    requires
        vals@.len() == models@.len(),
        forall|j: int|
            0 <= j < models@.len() && (#[trigger] models@[j]) is Some ==> i
                < models@[j]->Some_0.ones@.len(),
    ensures
        out@.len() == models@.len(),
        forall|j: int|
            0 <= j < models@.len() ==> ((#[trigger] out@[j]) is Some <==> models@[j] is Some),
        forall|j: int|
            0 <= j < models@.len() && models@[j] is Some ==> {
                &&& (#[trigger] out@[j])->Some_0.key == models@[j]->Some_0.key
                &&& out@[j]->Some_0.ones@ == models@[j]->Some_0.ones@.update(i as int, vals@[j])
                &&& out@[j]->Some_0.manys@ == models@[j]->Some_0.manys@
            },
{
    let m = models.len();
    let mut src = models;
    let mut out: Vec<Option<ModelEx>> = Vec::new();
    let mut j: usize = 0;
    while j < m
        invariant
            j <= m,
            m == models@.len(),
            vals@.len() == m,
            forall|k: int|
                0 <= k < m && (#[trigger] models@[k]) is Some ==> i
                    < models@[k]->Some_0.ones@.len(),
            src@ == models@.subrange(j as int, m as int),
            out@.len() == j,
            forall|k: int| 0 <= k < j ==> ((#[trigger] out@[k]) is Some <==> models@[k] is Some),
            forall|k: int|
                0 <= k < j && models@[k] is Some ==> {
                    &&& (#[trigger] out@[k])->Some_0.key == models@[k]->Some_0.key
                    &&& out@[k]->Some_0.ones@ == models@[k]->Some_0.ones@.update(
                        i as int,
                        vals@[k],
                    )
                    &&& out@[k]->Some_0.manys@ == models@[k]->Some_0.manys@
                },
        decreases m - j,
    {
        let rec = src.remove(0);
        match rec {
            Some(mut r0) => {
                r0.ones[i] = vals[j];
                out.push(Some(r0));
            },
            None => {
                out.push(None);
            },
        }
        proof {
            assert(src@ =~= models@.subrange(j + 1, m as int));
        }
        j += 1;
    }
    out
}

/// Writes the fetched collections into Many-slot i of each present record;
/// absent records are skipped, their fetch entries consumed all the same.
fn apply_many_nest(models: Vec<Option<ModelEx>>, i: usize, vals: Vec<Vec<u64>>) -> (out: Vec<
    Option<ModelEx>,
>)
    requires
        vals@.len() == models@.len(),
        forall|j: int|
            0 <= j < models@.len() && (#[trigger] models@[j]) is Some ==> i
                < models@[j]->Some_0.manys@.len(),
    ensures
        out@.len() == models@.len(),
        forall|j: int|
            0 <= j < models@.len() ==> ((#[trigger] out@[j]) is Some <==> models@[j] is Some),
        forall|j: int|
            0 <= j < models@.len() && models@[j] is Some ==> {
                &&& (#[trigger] out@[j])->Some_0.key == models@[j]->Some_0.key
                &&& out@[j]->Some_0.ones@ == models@[j]->Some_0.ones@
                &&& out@[j]->Some_0.manys@ == models@[j]->Some_0.manys@.update(i as int, vals@[j])
            },
{
    let m = models.len();
    let mut src = models;
    let mut vs = vals;
    let mut out: Vec<Option<ModelEx>> = Vec::new();
    let mut j: usize = 0;
    while j < m
        invariant
            j <= m,
            m == models@.len(),
            vals@.len() == m,
            forall|k: int|
                0 <= k < m && (#[trigger] models@[k]) is Some ==> i
                    < models@[k]->Some_0.manys@.len(),
            src@ == models@.subrange(j as int, m as int),
            vs@ == vals@.subrange(j as int, m as int),
            out@.len() == j,
            forall|k: int| 0 <= k < j ==> ((#[trigger] out@[k]) is Some <==> models@[k] is Some),
            forall|k: int|
                0 <= k < j && models@[k] is Some ==> {
                    &&& (#[trigger] out@[k])->Some_0.key == models@[k]->Some_0.key
                    &&& out@[k]->Some_0.ones@ == models@[k]->Some_0.ones@
                    &&& out@[k]->Some_0.manys@ == models@[k]->Some_0.manys@.update(
                        i as int,
                        vals@[k],
                    )
                },
        decreases m - j,
    {
        let rec = src.remove(0);
        let v = vs.remove(0);
        match rec {
            Some(mut r0) => {
                r0.manys[i] = v;
                out.push(Some(r0));
            },
            None => {
                out.push(None);
            },
        }
        proof {
            assert(src@ =~= models@.subrange(j + 1, m as int));
            assert(vs@ =~= vals@.subrange(j + 1, m as int));
        }
        j += 1;
    }
    out
}

/// Depth-1 load phase: as the depth-0 phase, but each base record sits in an
/// optional container because an outer loader may have found no row for it;
/// absent records take no write-back.
#[verifier::loop_isolation(false)]
#[verifier::rlimit(60)]
pub fn load_nest_models(
    schema: &EntityLoaderSchema,
    models: Vec<Option<ModelEx>>,
    with: &EntityLoaderWith,
    fetches: Vec<FetchResult>,
) -> (r: Result<Vec<Option<ModelEx>>, DbErr>)
    requires
        fetches_wf(schema.fields@, with.flags@, fetches@, models@.len() as int),
        forall|j: int|
            0 <= j < models@.len() && (#[trigger] models@[j]) is Some ==> models@[j]->Some_0.wf(
                schema.fields@.len() as int,
            ),
    ensures
        match r {
            Ok(out) => {
                &&& first_failed_from(with.flags@, fetches@, 0) is None
                &&& out@.len() == models@.len()
                &&& forall|j: int|
                    0 <= j < models@.len() ==> ((#[trigger] out@[j]) is Some <==> models@[j]
                        is Some)
                &&& forall|j: int|
                    0 <= j < models@.len() && models@[j] is Some ==> (#[trigger] out@[j])->Some_0.key
                        == models@[j]->Some_0.key && out@[j]->Some_0.wf(
                        schema.fields@.len() as int,
                    )
                &&& forall|j: int, i: int|
                    0 <= j < models@.len() && 0 <= i < schema.fields@.len() && models@[j] is Some
                        ==> (#[trigger] out@[j]->Some_0.ones@[i]) == loaded_one(
                        schema.fields@,
                        with.flags@,
                        fetches@,
                        models@[j]->Some_0,
                        j,
                        i,
                    )
                &&& forall|j: int, i: int|
                    0 <= j < models@.len() && 0 <= i < schema.fields@.len() && models@[j] is Some
                        ==> (#[trigger] out@[j]->Some_0.manys@[i])@ == loaded_many(
                        schema.fields@,
                        with.flags@,
                        fetches@,
                        models@[j]->Some_0,
                        j,
                        i,
                    )
            },
            Err(e) => match first_failed_from(with.flags@, fetches@, 0) {
                Some(k) => e == err_of(fetches@[k]),
                None => false,
            },
        },
{
    let n = schema.fields.len();
    let m = models.len();
    let ghost orig = models@;
    let ghost all_fetches = fetches@;
    let mut cur = models;
    let mut rest = fetches;
    let mut i: usize = 0;
    while i < n
        invariant
            i <= n,
            rest@ == all_fetches.subrange(i as int, n as int),
            cur@.len() == m,
            forall|j: int| 0 <= j < m ==> ((#[trigger] cur@[j]) is Some <==> orig[j] is Some),
            forall|j: int|
                0 <= j < m && orig[j] is Some ==> (#[trigger] cur@[j])->Some_0.key
                    == orig[j]->Some_0.key && cur@[j]->Some_0.wf(n as int),
            forall|j: int, f: int|
                0 <= j < m && 0 <= f < i && orig[j] is Some ==> (#[trigger] cur@[j]->Some_0.ones@[f])
                    == loaded_one(
                    schema.fields@,
                    with.flags@,
                    all_fetches,
                    orig[j]->Some_0,
                    j,
                    f,
                ),
            forall|j: int, f: int|
                0 <= j < m && 0 <= f < i && orig[j] is Some ==> (#[trigger] cur@[j]->Some_0.manys@[f])@
                    == loaded_many(
                    schema.fields@,
                    with.flags@,
                    all_fetches,
                    orig[j]->Some_0,
                    j,
                    f,
                ),
            forall|j: int, f: int|
                0 <= j < m && i <= f < n && orig[j] is Some ==> (#[trigger] cur@[j]->Some_0.ones@[f])
                    == orig[j]->Some_0.ones@[f],
            forall|j: int, f: int|
                0 <= j < m && i <= f < n && orig[j] is Some ==> (#[trigger] cur@[j]->Some_0.manys@[f])
                    == orig[j]->Some_0.manys@[f],
            first_failed_from(with.flags@, all_fetches, 0) == first_failed_from(
                with.flags@,
                all_fetches,
                i as int,
            ),
        decreases n - i,
    {
        let f = rest.remove(0);
        proof {
            assert(rest@ =~= all_fetches.subrange(i + 1, n as int));
            assert(f == all_fetches[i as int]);
        }
        let ghost prev = cur@;
        if with.flags[i] {
            match f {
                FetchResult::Failed(e) => {
                    proof {
                        assert(first_failed_from(with.flags@, all_fetches, i as int) == Some(
                            i as int,
                        ));
                    }
                    return Err(e);
                },
                FetchResult::Ones(v) => {
                    cur = apply_one_nest(cur, i, &v);
                },
                FetchResult::Manys(v) => {
                    cur = apply_many_nest(cur, i, v);
                },
            }
        }
        proof {
            let fi = i as int;
            assert(first_failed_from(with.flags@, all_fetches, fi) == first_failed_from(
                with.flags@,
                all_fetches,
                fi + 1,
            ));
            assert forall|j: int, f2: int|
                0 <= j < m && 0 <= f2 <= fi && orig[j] is Some implies (#[trigger] cur@[j]->Some_0.ones@[f2])
                == loaded_one(
                schema.fields@,
                with.flags@,
                all_fetches,
                orig[j]->Some_0,
                j,
                f2,
            ) by {
                if f2 < fi {
                    assert(prev[j]->Some_0.ones@[f2] == loaded_one(
                        schema.fields@,
                        with.flags@,
                        all_fetches,
                        orig[j]->Some_0,
                        j,
                        f2,
                    ));
                } else {
                    assert(prev[j]->Some_0.ones@[f2] == orig[j]->Some_0.ones@[f2]);
                }
            }
            assert forall|j: int, f2: int|
                0 <= j < m && 0 <= f2 <= fi && orig[j] is Some implies (#[trigger] cur@[j]->Some_0.manys@[f2])@
                == loaded_many(
                schema.fields@,
                with.flags@,
                all_fetches,
                orig[j]->Some_0,
                j,
                f2,
            ) by {
                if f2 < fi {
                    assert(prev[j]->Some_0.manys@[f2]@ == loaded_many(
                        schema.fields@,
                        with.flags@,
                        all_fetches,
                        orig[j]->Some_0,
                        j,
                        f2,
                    ));
                } else {
                    assert(prev[j]->Some_0.manys@[f2] == orig[j]->Some_0.manys@[f2]);
                }
            }
            assert forall|j: int, f2: int|
                0 <= j < m && fi + 1 <= f2 < n && orig[j] is Some implies (#[trigger] cur@[j]->Some_0.ones@[f2])
                == orig[j]->Some_0.ones@[f2] by {
                assert(prev[j]->Some_0.ones@[f2] == orig[j]->Some_0.ones@[f2]);
            }
            assert forall|j: int, f2: int|
                0 <= j < m && fi + 1 <= f2 < n && orig[j] is Some implies (#[trigger] cur@[j]->Some_0.manys@[f2])
                == orig[j]->Some_0.manys@[f2] by {
                assert(prev[j]->Some_0.manys@[f2] == orig[j]->Some_0.manys@[f2]);
            }
        }
        i += 1;
    }
    Ok(cur)
}

/// Earliest flagged field at or after position i whose grouped fetch failed.
pub open spec fn first_failed_nested_from(
    flags: Seq<bool>,
    fetches: Seq<FetchResultNested>,
    i: int,
) -> Option<int>
    decreases flags.len() - i,
{
    if i < 0 || i >= flags.len() || i >= fetches.len() {
        None
    } else if flags[i] && fetches[i] is Failed {
        Some(i)
    } else {
        first_failed_nested_from(flags, fetches, i + 1)
    }
}

/// A grouped fetch outcome has one inner sequence per group, sized to it.
pub open spec fn fetch_nested_shaped(
    f: FetchResultNested,
    is_one: bool,
    groups: Seq<Vec<ModelEx>>,
) -> bool {
    match f {
        FetchResultNested::Ones(v) => is_one && v@.len() == groups.len() && (forall|j: int|
            0 <= j < groups.len() ==> (#[trigger] v@[j])@.len() == groups[j]@.len()),
        FetchResultNested::Manys(v) => !is_one && v@.len() == groups.len() && (forall|j: int|
            0 <= j < groups.len() ==> (#[trigger] v@[j])@.len() == groups[j]@.len()),
        FetchResultNested::Failed(_) => true,
    }
}

pub open spec fn nested_fetches_wf(
    fields: Seq<EntityLoaderField>,
    flags: Seq<bool>,
    fetches: Seq<FetchResultNested>,
    groups: Seq<Vec<ModelEx>>,
) -> bool {
    &&& fetches.len() == fields.len()
    &&& flags.len() == fields.len()
    &&& forall|i: int|
        0 <= i < fields.len() && flags[i] ==> fetch_nested_shaped(
            #[trigger] fetches[i],
            fields[i].is_one,
            groups,
        )
}

/// Value of One-slot i of record k in group j after the depth-2 load phase.
pub open spec fn nested_loaded_one(
    fields: Seq<EntityLoaderField>,
    flags: Seq<bool>,
    fetches: Seq<FetchResultNested>,
    before: ModelEx,
    j: int,
    k: int,
    i: int,
) -> Option<u64> {
    if fields[i].is_one && flags[i] {
        nested_ones_of(fetches[i])[j][k]
    } else {
        before.ones@[i]
    }
}

/// Value of Many-slot i of record k in group j after the depth-2 load phase.
pub open spec fn nested_loaded_many(
    fields: Seq<EntityLoaderField>,
    flags: Seq<bool>,
    fetches: Seq<FetchResultNested>,
    before: ModelEx,
    j: int,
    k: int,
    i: int,
) -> Seq<u64> {
    if !fields[i].is_one && flags[i] {
        nested_manys_of(fetches[i])[j][k]
    } else {
        before.manys@[i]@
    }
}

/// Applies the depth-0 single-row write-back independently within each group.
fn apply_one_groups(models: Vec<Vec<ModelEx>>, i: usize, vals: Vec<Vec<Option<u64>>>) -> (out: Vec<
    Vec<ModelEx>,
>)
    requires
        vals@.len() == models@.len(),
        forall|j: int|
            0 <= j < models@.len() ==> (#[trigger] vals@[j])@.len() == models@[j]@.len(),
        forall|j: int, k: int|
            0 <= j < models@.len() && 0 <= k < models@[j]@.len() ==> i < (#[trigger] models@[j]@[k]).ones@.len(),
    ensures
        out@.len() == models@.len(),
        forall|j: int| 0 <= j < models@.len() ==> (#[trigger] out@[j])@.len() == models@[j]@.len(),
        forall|j: int, k: int|
            0 <= j < models@.len() && 0 <= k < models@[j]@.len() ==> {
                &&& (#[trigger] out@[j]@[k]).key == models@[j]@[k].key
                &&& out@[j]@[k].ones@ == models@[j]@[k].ones@.update(i as int, vals@[j]@[k])
                &&& out@[j]@[k].manys@ == models@[j]@[k].manys@
            },
{
    let m = models.len();
    let mut src = models;
    let mut vs = vals;
    let mut out: Vec<Vec<ModelEx>> = Vec::new();
    let mut j: usize = 0;
    while j < m
        invariant
            j <= m,
            m == models@.len(),
            vals@.len() == m,
            forall|k: int| 0 <= k < m ==> (#[trigger] vals@[k])@.len() == models@[k]@.len(),
            forall|g: int, k: int|
                0 <= g < m && 0 <= k < models@[g]@.len() ==> i < (#[trigger] models@[g]@[k]).ones@.len(),
            src@ == models@.subrange(j as int, m as int),
            vs@ == vals@.subrange(j as int, m as int),
            out@.len() == j,
            forall|g: int| 0 <= g < j ==> (#[trigger] out@[g])@.len() == models@[g]@.len(),
            forall|g: int, k: int|
                0 <= g < j && 0 <= k < models@[g]@.len() ==> {
                    &&& (#[trigger] out@[g]@[k]).key == models@[g]@[k].key
                    &&& out@[g]@[k].ones@ == models@[g]@[k].ones@.update(i as int, vals@[g]@[k])
                    &&& out@[g]@[k].manys@ == models@[g]@[k].manys@
                },
        decreases m - j,
    {
        let group = src.remove(0);
        let vg = vs.remove(0);
        let g2 = apply_one(group, i, &vg);
        out.push(g2);
        proof {
            assert(src@ =~= models@.subrange(j + 1, m as int));
            assert(vs@ =~= vals@.subrange(j + 1, m as int));
        }
        j += 1;
    }
    out
}

/// Applies the depth-0 collection write-back independently within each group.
fn apply_many_groups(models: Vec<Vec<ModelEx>>, i: usize, vals: Vec<Vec<Vec<u64>>>) -> (out: Vec<
    Vec<ModelEx>,
>)
    requires
        vals@.len() == models@.len(),
        forall|j: int|
            0 <= j < models@.len() ==> (#[trigger] vals@[j])@.len() == models@[j]@.len(),
        forall|j: int, k: int|
            0 <= j < models@.len() && 0 <= k < models@[j]@.len() ==> i < (#[trigger] models@[j]@[k]).manys@.len(),
    ensures
        out@.len() == models@.len(),
        forall|j: int| 0 <= j < models@.len() ==> (#[trigger] out@[j])@.len() == models@[j]@.len(),
        forall|j: int, k: int|
            0 <= j < models@.len() && 0 <= k < models@[j]@.len() ==> {
                &&& (#[trigger] out@[j]@[k]).key == models@[j]@[k].key
                &&& out@[j]@[k].ones@ == models@[j]@[k].ones@
                &&& out@[j]@[k].manys@ == models@[j]@[k].manys@.update(i as int, vals@[j]@[k])
            },
{
    let m = models.len();
    let mut src = models;
    let mut vs = vals;
    let mut out: Vec<Vec<ModelEx>> = Vec::new();
    let mut j: usize = 0;
    while j < m
        invariant
            j <= m,
            m == models@.len(),
            vals@.len() == m,
            forall|k: int| 0 <= k < m ==> (#[trigger] vals@[k])@.len() == models@[k]@.len(),
            forall|g: int, k: int|
                0 <= g < m && 0 <= k < models@[g]@.len() ==> i < (#[trigger] models@[g]@[k]).manys@.len(),
            src@ == models@.subrange(j as int, m as int),
            vs@ == vals@.subrange(j as int, m as int),
            out@.len() == j,
            forall|g: int| 0 <= g < j ==> (#[trigger] out@[g])@.len() == models@[g]@.len(),
            forall|g: int, k: int|
                0 <= g < j && 0 <= k < models@[g]@.len() ==> {
                    &&& (#[trigger] out@[g]@[k]).key == models@[g]@[k].key
                    &&& out@[g]@[k].ones@ == models@[g]@[k].ones@
                    &&& out@[g]@[k].manys@ == models@[g]@[k].manys@.update(i as int, vals@[g]@[k])
                },
        decreases m - j,
    {
        let group = src.remove(0);
        let vg = vs.remove(0);
        let g2 = apply_many(group, i, vg);
        out.push(g2);
        proof {
            assert(src@ =~= models@.subrange(j + 1, m as int));
            assert(vs@ =~= vals@.subrange(j + 1, m as int));
        }
        j += 1;
    }
    out
}

/// Depth-2 load phase: base records arrive grouped, one batch per outer
/// record of a Many-relation fan-out; the depth-0 write-back is applied
/// independently within each inner sequence.
#[verifier::loop_isolation(false)]
#[verifier::rlimit(60)]
pub fn load_nest_nest_models(
    schema: &EntityLoaderSchema,
    models: Vec<Vec<ModelEx>>,
    with: &EntityLoaderWith,
    fetches: Vec<FetchResultNested>,
) -> (r: Result<Vec<Vec<ModelEx>>, DbErr>)
    requires
        nested_fetches_wf(schema.fields@, with.flags@, fetches@, models@),
        forall|j: int, k: int|
            0 <= j < models@.len() && 0 <= k < models@[j]@.len() ==> (#[trigger] models@[j]@[k]).wf(
                schema.fields@.len() as int,
            ),
    ensures
        match r {
            Ok(out) => {
                &&& first_failed_nested_from(with.flags@, fetches@, 0) is None
                &&& out@.len() == models@.len()
                &&& forall|j: int|
                    0 <= j < models@.len() ==> (#[trigger] out@[j])@.len() == models@[j]@.len()
                &&& forall|j: int, k: int|
                    0 <= j < models@.len() && 0 <= k < models@[j]@.len() ==> (#[trigger] out@[j]@[k]).key
                        == models@[j]@[k].key && out@[j]@[k].wf(schema.fields@.len() as int)
                &&& forall|j: int, k: int, i: int|
                    0 <= j < models@.len() && 0 <= k < models@[j]@.len() && 0 <= i
                        < schema.fields@.len() ==> (#[trigger] out@[j]@[k].ones@[i])
                        == nested_loaded_one(
                        schema.fields@,
                        with.flags@,
                        fetches@,
                        models@[j]@[k],
                        j,
                        k,
                        i,
                    )
                &&& forall|j: int, k: int, i: int|
                    0 <= j < models@.len() && 0 <= k < models@[j]@.len() && 0 <= i
                        < schema.fields@.len() ==> (#[trigger] out@[j]@[k].manys@[i])@
                        == nested_loaded_many(
                        schema.fields@,
                        with.flags@,
                        fetches@,
                        models@[j]@[k],
                        j,
                        k,
                        i,
                    )
            },
            Err(e) => match first_failed_nested_from(with.flags@, fetches@, 0) {
                Some(kk) => e == nested_err_of(fetches@[kk]),
                None => false,
            },
        },
{
    let n = schema.fields.len();
    let m = models.len();
    let ghost orig = models@;
    let ghost all_fetches = fetches@;
    let mut cur = models;
    let mut rest = fetches;
    let mut i: usize = 0;
    while i < n
        invariant
            i <= n,
            rest@ == all_fetches.subrange(i as int, n as int),
            cur@.len() == m,
            forall|j: int| 0 <= j < m ==> (#[trigger] cur@[j])@.len() == orig[j]@.len(),
            forall|j: int, k: int|
                0 <= j < m && 0 <= k < orig[j]@.len() ==> (#[trigger] cur@[j]@[k]).key
                    == orig[j]@[k].key && cur@[j]@[k].wf(n as int),
            forall|j: int, k: int, f: int|
                0 <= j < m && 0 <= k < orig[j]@.len() && 0 <= f < i ==> (#[trigger] cur@[j]@[k].ones@[f])
                    == nested_loaded_one(
                    schema.fields@,
                    with.flags@,
                    all_fetches,
                    orig[j]@[k],
                    j,
                    k,
                    f,
                ),
            forall|j: int, k: int, f: int|
                0 <= j < m && 0 <= k < orig[j]@.len() && 0 <= f < i ==> (#[trigger] cur@[j]@[k].manys@[f])@
                    == nested_loaded_many(
                    schema.fields@,
                    with.flags@,
                    all_fetches,
                    orig[j]@[k],
                    j,
                    k,
                    f,
                ),
            forall|j: int, k: int, f: int|
                0 <= j < m && 0 <= k < orig[j]@.len() && i <= f < n ==> (#[trigger] cur@[j]@[k].ones@[f])
                    == orig[j]@[k].ones@[f],
            forall|j: int, k: int, f: int|
                0 <= j < m && 0 <= k < orig[j]@.len() && i <= f < n ==> (#[trigger] cur@[j]@[k].manys@[f])
                    == orig[j]@[k].manys@[f],
            first_failed_nested_from(with.flags@, all_fetches, 0) == first_failed_nested_from(
                with.flags@,
                all_fetches,
                i as int,
            ),
        decreases n - i,
    {
        let f = rest.remove(0);
        proof {
            assert(rest@ =~= all_fetches.subrange(i + 1, n as int));
            assert(f == all_fetches[i as int]);
        }
        let ghost prev = cur@;
        if with.flags[i] {
            match f {
                FetchResultNested::Failed(e) => {
                    proof {
                        assert(first_failed_nested_from(with.flags@, all_fetches, i as int)
                            == Some(i as int));
                    }
                    return Err(e);
                },
                FetchResultNested::Ones(v) => {
                    cur = apply_one_groups(cur, i, v);
                },
                FetchResultNested::Manys(v) => {
                    cur = apply_many_groups(cur, i, v);
                },
            }
        }
        proof {
            let fi = i as int;
            assert(first_failed_nested_from(with.flags@, all_fetches, fi)
                == first_failed_nested_from(with.flags@, all_fetches, fi + 1));
            assert forall|j: int, k: int, f2: int|
                0 <= j < m && 0 <= k < orig[j]@.len() && 0 <= f2 <= fi implies (#[trigger] cur@[j]@[k].ones@[f2])
                == nested_loaded_one(
                schema.fields@,
                with.flags@,
                all_fetches,
                orig[j]@[k],
                j,
                k,
                f2,
            ) by {
                if f2 < fi {
                    assert(prev[j]@[k].ones@[f2] == nested_loaded_one(
                        schema.fields@,
                        with.flags@,
                        all_fetches,
                        orig[j]@[k],
                        j,
                        k,
                        f2,
                    ));
                } else {
                    assert(prev[j]@[k].ones@[f2] == orig[j]@[k].ones@[f2]);
                }
            }
            assert forall|j: int, k: int, f2: int|
                0 <= j < m && 0 <= k < orig[j]@.len() && 0 <= f2 <= fi implies (#[trigger] cur@[j]@[k].manys@[f2])@
                == nested_loaded_many(
                schema.fields@,
                with.flags@,
                all_fetches,
                orig[j]@[k],
                j,
                k,
                f2,
            ) by {
                if f2 < fi {
                    assert(prev[j]@[k].manys@[f2]@ == nested_loaded_many(
                        schema.fields@,
                        with.flags@,
                        all_fetches,
                        orig[j]@[k],
                        j,
                        k,
                        f2,
                    ));
                } else {
                    assert(prev[j]@[k].manys@[f2] == orig[j]@[k].manys@[f2]);
                }
            }
            assert forall|j: int, k: int, f2: int|
                0 <= j < m && 0 <= k < orig[j]@.len() && fi + 1 <= f2 < n implies (#[trigger] cur@[j]@[k].ones@[f2])
                == orig[j]@[k].ones@[f2] by {
                assert(prev[j]@[k].ones@[f2] == orig[j]@[k].ones@[f2]);
            }
            assert forall|j: int, k: int, f2: int|
                0 <= j < m && 0 <= k < orig[j]@.len() && fi + 1 <= f2 < n implies (#[trigger] cur@[j]@[k].manys@[f2])
                == orig[j]@[k].manys@[f2] by {
                assert(prev[j]@[k].manys@[f2] == orig[j]@[k].manys@[f2]);
            }
        }
        i += 1;
    }
    Ok(cur)
}

} // verus!
