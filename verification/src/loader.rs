use vstd::prelude::*;
use crate::schema::EntityLoaderSchema;

verus! {

/// A database error, carrying the engine's error code.  A single kind covers
/// query construction, execution and row-decoding failures alike; every
/// fallible load step propagates it unchanged.
#[derive(Clone, Copy, Debug, PartialEq, Eq, Structural)]
pub struct DbErr {
    pub code: u64,
}

/// Runtime table-identity environment of one schema: `table_refs[i]` is the
/// table reference of field i's target entity, and `nested_refs[i]` lists the
/// table references of that target's own relation fields, the identities a
/// nested selection can be keyed by.
pub struct TableEnv {
    pub table_refs: Vec<u64>,
    pub nested_refs: Vec<Vec<u64>>,
}

impl TableEnv {
    /// Both identity lists cover the same fields.
    pub open spec fn wf(&self) -> bool {
        self.table_refs@.len() == self.nested_refs@.len()
    }

    /// The environment describes one schema: one entry per relation field.
    pub open spec fn matches(&self, schema: &EntityLoaderSchema) -> bool {
        &&& self.table_refs@.len() == schema.fields@.len()
        &&& self.nested_refs@.len() == schema.fields@.len()
    }
}

/// Flags after the single-identity dispatch ran: the earliest position whose
/// table reference equals `target` is selected, everything else keeps its
/// prior state, and nothing changes when nothing matches.  With duplicate
/// target identities the earliest-declared descriptor wins; later duplicates
/// are unreachable dead branches.
pub open spec fn spec_set_first(flags: Seq<bool>, refs: Seq<u64>, target: u64) -> Seq<bool> {
    match first_match(refs, target) {
        Some(i) => flags.update(i, true),
        None => flags,
    }
}

/// The dispatch never changes how many flags there are.
pub proof fn lemma_spec_set_first_len(flags: Seq<bool>, refs: Seq<u64>, target: u64)
    requires
        flags.len() == refs.len(),
    ensures
        spec_set_first(flags, refs, target).len() == flags.len(),
{
    lemma_first_match(refs, target);
    match first_match(refs, target) {
        None => {},
        Some(i) => {
            assert(flags.update(i, true).len() == flags.len());
        },
    }
}

/// No flag is set: the state a fresh selection record starts in.
pub open spec fn spec_all_clear(flags: Seq<bool>) -> bool {
    forall|i: int| 0 <= i < flags.len() ==> !flags[i]
}

/// Index of the earliest position whose table reference equals `target`,
/// if any: the position the first-match-wins dispatch settles on.
pub open spec fn first_match(refs: Seq<u64>, target: u64) -> Option<int>
    decreases refs.len(),
{
    if refs.len() == 0 {
        None
    } else if refs[0] == target {
        Some(0int)
    } else {
        match first_match(refs.drop_first(), target) {
            Some(i) => Some(i + 1),
            None => None,
        }
    }
}

/// `first_match` names the earliest matching position: it matches, nothing
/// before it does, and a `None` means nothing matches at all.
pub proof fn lemma_first_match(refs: Seq<u64>, target: u64)
    ensures
        match first_match(refs, target) {
            Some(i) => 0 <= i < refs.len() && refs[i] == target && (forall|k: int|
                0 <= k < i ==> refs[k] != target),
            None => forall|k: int| 0 <= k < refs.len() ==> refs[k] != target,
        },
    decreases refs.len(),
{
    if refs.len() > 0 && refs[0] != target {
        lemma_first_match(refs.drop_first(), target);
        assert forall|k: int| 1 <= k < refs.len() implies refs.drop_first()[k - 1] == refs[k] by {}
    }
}

/// The selection-flags record of a loader: one boolean per relation field,
/// in declaration order, all false until a caller requests the relation.
pub struct EntityLoaderWith {
    pub flags: Vec<bool>,
}

/// The flags with the earliest position matching `target` switched on: the
/// body of the generated single-identity dispatch, first match wins.
#[verifier::loop_isolation(false)]
fn set_first_match(flags: &Vec<bool>, refs: &Vec<u64>, target: u64) -> (r: Vec<bool>)
    requires
        flags@.len() == refs@.len(),
    ensures
        r@ == spec_set_first(flags@, refs@, target),
{
    proof {
        lemma_first_match(refs@, target);
    }
    let n = flags.len();
    let mut r: Vec<bool> = Vec::new();
    let mut i: usize = 0;
    while i < n
        invariant
            i <= n,
            r@.len() == i,
            forall|k: int| 0 <= k < i ==> r@[k] == flags@[k],
        decreases n - i,
    {
        r.push(flags[i]);
        i += 1;
    }
    proof {
        assert(r@ =~= flags@);
    }
    let mut j: usize = 0;
    while j < n
        invariant
            j <= n,
            r@ == flags@,
            forall|k: int| 0 <= k < j ==> refs@[k] != target,
        decreases n - j,
    {
        if refs[j] == target {
            r[j] = true;
            proof {
                assert(first_match(refs@, target) == Some(j as int));
            }
            return r;
        }
        j += 1;
    }
    r
}

impl EntityLoaderWith {
    /// A fresh record of `n` cleared flags.
    pub fn cleared(n: usize) -> (r: EntityLoaderWith)
        ensures
            r.flags@.len() == n,
            spec_all_clear(r.flags@),
    {
        let mut flags: Vec<bool> = Vec::new();
        let mut i: usize = 0;
        while i < n
            invariant
                i <= n,
                flags@.len() == i,
                spec_all_clear(flags@),
            decreases n - i,
        {
            flags.push(false);
            i += 1;
        }
        EntityLoaderWith { flags }
    }

    /// Runs the single-identity dispatch: the earliest field whose target's
    /// table reference equals `target` has its flag set, the rest are
    /// untouched.
    pub fn set_flag(&mut self, table_refs: &Vec<u64>, target: u64)
        requires
            old(self).flags@.len() == table_refs@.len(),
        ensures
            final(self).flags@ == spec_set_first(old(self).flags@, table_refs@, target),
    {
        let r = set_first_match(&self.flags, table_refs, target);
        self.flags = r;
    }

    /// True exactly when no relation is selected, as the generated
    /// `is_empty` reports by comparing against the default record.
    pub fn is_empty(&self) -> (r: bool)
        ensures
            r == spec_all_clear(self.flags@),
    {
        let n = self.flags.len();
        let mut i: usize = 0;
        while i < n
            invariant
                i <= n,
                n == self.flags@.len(),
                forall|k: int| 0 <= k < i ==> !self.flags@[k],
            decreases n - i,
        {
            if self.flags[i] {
                return false;
            }
            i += 1;
        }
        true
    }
}

/// The nested-selection record: for each relation field, the flags of the
/// target entity's own relation fields.  An entry is inert unless the
/// owning field's flag in the sibling `EntityLoaderWith` is set.
pub struct EntityLoaderNest {
    pub nests: Vec<EntityLoaderWith>,
}

impl EntityLoaderNest {
    /// The record is shaped by the environment: one entry per field, each
    /// sized to its target's own relation list.
    pub open spec fn wf(&self, env: &TableEnv) -> bool {
        &&& self.nests@.len() == env.nested_refs@.len()
        &&& forall|i: int|
            0 <= i < self.nests@.len() ==> (#[trigger] self.nests@[i]).flags@.len()
                == env.nested_refs@[i]@.len()
    }

    /// A fresh nested-selection record, every entry cleared.
    pub fn cleared(env: &TableEnv) -> (r: EntityLoaderNest)
        ensures
            r.wf(env),
            forall|i: int| 0 <= i < r.nests@.len() ==> spec_all_clear(#[trigger] r.nests@[i].flags@),
    {
        let n = env.nested_refs.len();
        let mut nests: Vec<EntityLoaderWith> = Vec::new();
        let mut i: usize = 0;
        while i < n
            invariant
                i <= n,
                n == env.nested_refs@.len(),
                nests@.len() == i,
                forall|k: int|
                    0 <= k < i ==> (#[trigger] nests@[k]).flags@.len() == env.nested_refs@[k]@.len(),
                forall|k: int| 0 <= k < i ==> spec_all_clear(#[trigger] nests@[k].flags@),
            decreases n - i,
        {
            let entry = EntityLoaderWith::cleared(env.nested_refs[i].len());
            nests.push(entry);
            i += 1;
        }
        EntityLoaderNest { nests }
    }
}

/// One load request being configured: which relations to load, and which of
/// each target's own relations to load nested under it.  Built fluently,
/// consumed exactly once.
pub struct EntityLoader {
    pub with: EntityLoaderWith,
    pub nest: EntityLoaderNest,
}

impl EntityLoader {
    /// The loader's records are shaped by the environment.
    pub open spec fn wf(&self, env: &TableEnv) -> bool {
        &&& env.wf()
        &&& self.with.flags@.len() == env.table_refs@.len()
        &&& self.nest.wf(env)
    }

    /// Selection state with nothing selected.
    pub open spec fn nothing_selected(&self) -> bool {
        &&& spec_all_clear(self.with.flags@)
        &&& forall|i: int|
            0 <= i < self.nest.nests@.len() ==> spec_all_clear(#[trigger] self.nest.nests@[i].flags@)
    }

    /// Selects the relation named by `param`: a bare identity selects the
    /// earliest relation matching it; a pair selects the earliest relation
    /// matching the first identity and, nested under it, the earliest of the
    /// target's relations matching the second.  First match wins either way:
    /// later descriptors with a duplicate target identity are unreachable.
    pub fn with(self, env: &TableEnv, param: (u64, Option<u64>)) -> (r: EntityLoader)
        requires
            self.wf(env),
        ensures
            r.wf(env),
            match param.1 {
                None => r.with.flags@ == spec_set_first(self.with.flags@, env.table_refs@, param.0)
                    && r.nest.nests@ == self.nest.nests@,
                Some(right) => spec_with_2(self, env, param.0, right, r),
            },
    {
        match param.1 {
            None => self.with_1(env, param.0),
            Some(right) => self.with_2(env, param.0, right),
        }
    }

    /// Single-identity fluent selection.
    pub fn with_1(self, env: &TableEnv, table_ref: u64) -> (r: EntityLoader)
        requires
            self.wf(env),
        ensures
            r.wf(env),
            r.with.flags@ == spec_set_first(self.with.flags@, env.table_refs@, table_ref),
            r.nest.nests@ == self.nest.nests@,
    {
        let mut s = self;
        s.with.set_flag(&env.table_refs, table_ref);
        proof {
            lemma_spec_set_first_len(self.with.flags@, env.table_refs@, table_ref);
        }
        s
    }

    /// Two-identity fluent selection: first match on `left` wins; that
    /// field's flag is set and `right` is dispatched into its nested
    /// selection; later fields matching `left` are not touched.
    pub fn with_2(self, env: &TableEnv, left: u64, right: u64) -> (r: EntityLoader)
        requires
            self.wf(env),
        ensures
            r.wf(env),
            spec_with_2(self, env, left, right, r),
    {
        proof {
            lemma_first_match(env.table_refs@, left);
        }
        let mut s = self;
        let n = env.table_refs.len();
        let mut i: usize = 0;
        while i < n
            invariant
                i <= n,
                n == env.table_refs@.len(),
                s == self,
                self.wf(env),
                forall|k: int| 0 <= k < i ==> env.table_refs@[k] != left,
                match first_match(env.table_refs@, left) {
                    Some(m) => 0 <= m < n && env.table_refs@[m] == left && (forall|k: int|
                        0 <= k < m ==> env.table_refs@[k] != left),
                    None => forall|k: int| 0 <= k < n ==> env.table_refs@[k] != left,
                },
            decreases n - i,
        {
            if env.table_refs[i] == left {
                s.with.flags[i] = true;
                let updated = set_first_match(&s.nest.nests[i].flags, &env.nested_refs[i], right);
                proof {
                    lemma_spec_set_first_len(
                        self.nest.nests@[i as int].flags@,
                        env.nested_refs@[i as int]@,
                        right,
                    );
                }
                s.nest.nests[i] = EntityLoaderWith { flags: updated };
                assert(first_match(env.table_refs@, left) == Some(i as int));
                return s;
            }
            i += 1;
        }
        s
    }
}

/// What the two-identity dispatch leaves behind: nothing on no match; on a
/// match, the earliest matching field's flag set and the second identity
/// dispatched into exactly that field's nested selection.
pub open spec fn spec_with_2(
    before: EntityLoader,
    env: &TableEnv,
    left: u64,
    right: u64,
    after: EntityLoader,
) -> bool {
    match first_match(env.table_refs@, left) {
        None => after.with.flags@ == before.with.flags@ && after.nest.nests@
            == before.nest.nests@,
        Some(i) => {
            &&& after.with.flags@ == before.with.flags@.update(i, true)
            &&& after.nest.nests@.len() == before.nest.nests@.len()
            &&& forall|k: int|
                0 <= k < before.nest.nests@.len() && k != i ==> after.nest.nests@[k]
                    == before.nest.nests@[k]
            &&& after.nest.nests@[i].flags@ == spec_set_first(
                before.nest.nests@[i].flags@,
                env.nested_refs@[i]@,
                right,
            )
        },
    }
}

/// Begins a load request against one entity: a loader with nothing selected,
/// the entry point the generated `load()` provides.
pub fn load(env: &TableEnv) -> (r: EntityLoader)
    requires
        env.wf(),
    ensures
        r.wf(env),
        r.nothing_selected(),
{
    EntityLoader {
        with: EntityLoaderWith::cleared(env.table_refs.len()),
        nest: EntityLoaderNest::cleared(env),
    }
}

} // verus!
