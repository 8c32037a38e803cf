use vstd::prelude::*;
use crate::expand::{join_candidate, join_width, lemma_ones_before_monotonic, ones_before};
use crate::hydrate::{first_failed_from, loaded_many, manys_of, FetchResult, ModelEx};
use crate::loader::{first_match, lemma_first_match, spec_set_first, spec_with_2, EntityLoader,
    TableEnv};
use crate::schema::EntityLoaderField;

verus! {

/// With duplicate target identities among the descriptors, dispatch always
/// resolves to the earliest-declared matching descriptor: its flag is set,
/// and a later duplicate's flag is left exactly as it was — its branch is
/// unreachable dead code, not rejected.
pub proof fn lemma_duplicate_target_earliest_wins(
    refs: Seq<u64>,
    flags: Seq<bool>,
    target: u64,
    i: int,
    j: int,
)
    requires
        flags.len() == refs.len(),
        0 <= i < j < refs.len(),
        refs[i] == target,
        refs[j] == target,
    ensures
        first_match(refs, target) is Some,
        0 <= first_match(refs, target)->Some_0 <= i,
        refs[first_match(refs, target)->Some_0] == target,
        spec_set_first(flags, refs, target)[first_match(refs, target)->Some_0],
        spec_set_first(flags, refs, target)[j] == flags[j],
{
    lemma_first_match(refs, target);
}

/// The join-arity rule: a schema never has more than two joined-path
/// fields; with at most two One fields every One field is on the joined
/// path; with more, a One field is on it exactly when fewer than two One
/// fields precede it, so exactly the first two are and every later field
/// takes the batched path.
pub proof fn lemma_join_path_first_two(fields: Seq<EntityLoaderField>, i: int)
    requires
        0 <= i < fields.len(),
    ensures
        join_width(fields) <= 2,
        !fields[i].is_one ==> !join_candidate(fields, i),
        fields[i].is_one && ones_before(fields, fields.len() as int) <= 2 ==> join_candidate(
            fields,
            i,
        ),
        fields[i].is_one ==> (join_candidate(fields, i) <==> ones_before(fields, i) < 2),
{
    if fields[i].is_one {
        crate::expand::lemma_join_arity_ceiling(fields, i);
    }
}

/// For a flagged Many-cardinality field, the collection written back into
/// record j is the batched fetch result at position j, whole: in
/// particular their lengths agree at every position.
pub proof fn lemma_many_write_back_positional(
    fields: Seq<EntityLoaderField>,
    flags: Seq<bool>,
    fetches: Seq<FetchResult>,
    before: ModelEx,
    j: int,
    i: int,
)
    requires
        0 <= i < fields.len(),
        !fields[i].is_one,
        flags[i],
    ensures
        loaded_many(fields, flags, fetches, before, j, i) == manys_of(fetches[i])[j],
        loaded_many(fields, flags, fetches, before, j, i).len() == manys_of(fetches[i])[j].len(),
{
}

/// Selecting the same relation twice leaves the selection flags exactly as
/// selecting it once does.
pub proof fn lemma_with_idempotent(flags: Seq<bool>, refs: Seq<u64>, target: u64)
    requires
        flags.len() == refs.len(),
    ensures
        spec_set_first(spec_set_first(flags, refs, target), refs, target) == spec_set_first(
            flags,
            refs,
            target,
        ),
{
    lemma_first_match(refs, target);
    match first_match(refs, target) {
        None => {},
        Some(_) => {
            assert(spec_set_first(spec_set_first(flags, refs, target), refs, target)
                =~= spec_set_first(flags, refs, target));
        },
    }
}

/// Running the two-identity dispatch twice with the same pair leaves the
/// selection state exactly where the first run left it.
pub proof fn lemma_with_pair_idempotent(
    before: EntityLoader,
    mid: EntityLoader,
    after: EntityLoader,
    env: &TableEnv,
    left: u64,
    right: u64,
)
    requires
        before.wf(env),
        spec_with_2(before, env, left, right, mid),
        spec_with_2(mid, env, left, right, after),
    ensures
        after.with.flags@ == mid.with.flags@,
        after.nest.nests@.len() == mid.nest.nests@.len(),
        forall|k: int|
            0 <= k < mid.nest.nests@.len() ==> (#[trigger] after.nest.nests@[k]).flags@
                == mid.nest.nests@[k].flags@,
{
    match first_match(env.table_refs@, left) {
        None => {},
        Some(i) => {
            lemma_first_match(env.table_refs@, left);
            assert(after.with.flags@ =~= mid.with.flags@);
            assert forall|k: int|
                0 <= k < mid.nest.nests@.len() implies (#[trigger] after.nest.nests@[k]).flags@
                == mid.nest.nests@[k].flags@ by {
                if k == i {
                    lemma_first_match(env.nested_refs@[i]@, right);
                    assert(after.nest.nests@[i].flags@ =~= mid.nest.nests@[i].flags@);
                }
            }
        },
    }
}

/// The earliest flagged field whose batched fetch failed decides the
/// outcome: the load phase reports exactly that failure, and no field after
/// it is consulted.
pub proof fn lemma_first_failure_wins(flags: Seq<bool>, fetches: Seq<FetchResult>, k: int)
    requires
        flags.len() == fetches.len(),
        0 <= k < flags.len(),
        flags[k],
        fetches[k] is Failed,
        forall|l: int| 0 <= l < k ==> !(flags[l] && (#[trigger] fetches[l]) is Failed),
    ensures
        first_failed_from(flags, fetches, 0) == Some(k),
{
    lemma_first_failed_scan(flags, fetches, 0, k);
}

/// Scanning from any position at or before the earliest failure finds it.
proof fn lemma_first_failed_scan(flags: Seq<bool>, fetches: Seq<FetchResult>, i: int, k: int)
    requires
        flags.len() == fetches.len(),
        0 <= i <= k < flags.len(),
        flags[k],
        fetches[k] is Failed,
        forall|l: int| i <= l < k ==> !(flags[l] && (#[trigger] fetches[l]) is Failed),
    ensures
        first_failed_from(flags, fetches, i) == Some(k),
    decreases k - i,
{
    if i < k {
        lemma_first_failed_scan(flags, fetches, i + 1, k);
    }
}

} // verus!
