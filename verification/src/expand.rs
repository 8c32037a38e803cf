use vstd::prelude::*;
use vstd::string::StrSliceExecFns;
use crate::schema::{EntityLoaderField, EntityLoaderSchema};

verus! {

/// The canonical entity-type suffix a target path must end in; the sibling
/// module path is derived by stripping it.
pub open spec fn entity_suffix() -> Seq<char> {
    "::Entity"@
}

/// The path ends in the canonical entity-type suffix.
pub open spec fn has_entity_suffix(s: Seq<char>) -> bool {
    s.len() >= 8 && s.subrange(s.len() - 8, s.len() as int) == entity_suffix()
}

/// The path with every trailing occurrence of the canonical entity-type
/// suffix removed: the sibling module path of a target entity path.
pub open spec fn strip_entity_suffix(s: Seq<char>) -> Seq<char>
    decreases s.len(),
{
    if has_entity_suffix(s) {
        strip_entity_suffix(s.subrange(0, s.len() - 8))
    } else {
        s
    }
}

/// Whether `s` ends in the canonical entity-type suffix, decided by
/// comparing its last characters.
#[verifier::loop_isolation(false)]
fn ends_with_entity_suffix(s: &str) -> (r: bool)
    ensures
        r == has_entity_suffix(s@),
{
    let suffix = "::Entity";
    proof {
        reveal_strlit("::Entity");
    }
    let n = s.unicode_len();
    if n < 8 {
        return false;
    }
    let mut i: usize = 0;
    while i < 8
        invariant
            i <= 8,
            n == s@.len(),
            n >= 8,
            forall|k: int| 0 <= k < i ==> s@[n - 8 + k] == entity_suffix()[k],
        decreases 8 - i,
    {
        if s.get_char(n - 8 + i) != suffix.get_char(i) {
            proof {
                assert(s@.subrange(n - 8, n as int)[i as int] != entity_suffix()[i as int]);
            }
            return false;
        }
        i += 1;
    }
    proof {
        assert(s@.subrange(n - 8, n as int) =~= entity_suffix());
    }
    true
}

/// Derives the sibling module path of a target entity path by repeatedly
/// trimming the canonical entity-type suffix from its end; the derivation
/// must be exact or the generated code would not resolve.
pub fn entity_module_path(s: &str) -> (r: String)
    ensures
        r@ == strip_entity_suffix(s@),
{
    let mut cur: String = s.to_owned();
    let mut done: bool = false;
    while !done
        invariant
            strip_entity_suffix(cur@) == strip_entity_suffix(s@),
            done ==> !has_entity_suffix(cur@),
        decreases cur@.len() + if done { 0int } else { 1int },
    {
        if ends_with_entity_suffix(cur.as_str()) {
            let n = cur.as_str().unicode_len();
            let shorter = cur.as_str().substring_char(0, n - 8).to_owned();
            cur = shorter;
        } else {
            done = true;
        }
    }
    cur
}

/// Number of One-cardinality fields among the first `i` descriptors: the
/// position a One field takes in the joined-select column tuple.
pub open spec fn ones_before(fields: Seq<EntityLoaderField>, i: int) -> int
    decreases i,
{
    if i <= 0 {
        0
    } else {
        ones_before(fields, i - 1) + if fields[i - 1].is_one {
            1int
        } else {
            0int
        }
    }
}

/// `ones_before` never decreases along the descriptor list.
pub proof fn lemma_ones_before_monotonic(fields: Seq<EntityLoaderField>, i: int, j: int)
    requires
        i <= j,
    ensures
        ones_before(fields, i) <= ones_before(fields, j),
    decreases j - i,
{
    if i < j {
        lemma_ones_before_monotonic(fields, i, j - 1);
    }
}

/// Field i is on the joined-select path: One cardinality, and among the
/// first two One fields in declaration order, so that the joined query's
/// arity (base row plus joined columns) stays within three.
pub open spec fn join_candidate(fields: Seq<EntityLoaderField>, i: int) -> bool {
    fields[i].is_one && ones_before(fields, i) < 2
}

/// Joined-select column count of a schema: its One fields, capped at two.
pub open spec fn join_width(fields: Seq<EntityLoaderField>) -> int {
    if ones_before(fields, fields.len() as int) <= 2 {
        ones_before(fields, fields.len() as int)
    } else {
        2
    }
}

/// A branch of the single-identity dispatch: on a match of the caller's
/// identity against this entity's table reference, set flag `field_index`.
pub struct WithBranch {
    pub field_index: usize,
    pub entity: String,
}

/// A branch of the two-identity dispatch: on a match of the first identity,
/// set flag `field_index`, store the second identity in that field's nested
/// selection and terminate the dispatch, so the earliest match wins.
pub struct WithNestBranch {
    pub field_index: usize,
    pub entity: String,
}

/// A nested-selection record field and the target module that provides its
/// type.
pub struct NestField {
    pub field: String,
    pub entity_module: String,
}

/// A join-select rewriting step for one joined-path field: join the target
/// in when the field is flagged with an empty nested selection, select a
/// placeholder column otherwise.
pub struct SelectStep {
    pub field_index: usize,
    pub entity: String,
}

/// A reassembly statement moving joined column `field_index` into the base
/// record.
pub struct AssembleStep {
    pub field_index: usize,
}

/// One load-phase statement: the batched fetch and positional write-back
/// for one field at one nesting depth.
pub struct LoadStmt {
    pub field_index: usize,
    pub is_one: bool,
    pub entity: String,
    pub entity_module: String,
}

/// The synthesized loader declarations, one accumulator per concern, every
/// list in declaration order of the schema's descriptors.
pub struct CodeBundle {
    pub flag_fields: Vec<String>,
    pub nest_fields: Vec<NestField>,
    pub with_branches: Vec<WithBranch>,
    pub with_nest_branches: Vec<WithNestBranch>,
    pub joined_columns: Vec<String>,
    pub select_steps: Vec<SelectStep>,
    pub assemble_steps: Vec<AssembleStep>,
    pub load_stmts: Vec<LoadStmt>,
    pub load_nest_stmts: Vec<LoadStmt>,
    pub load_nest_nest_stmts: Vec<LoadStmt>,
}

/// The join-select steps describe exactly the joined-path fields of the
/// schema, in declaration order, each step sitting at the position its
/// field takes among the One fields.
pub open spec fn select_steps_wf(steps: Seq<SelectStep>, fields: Seq<EntityLoaderField>) -> bool {
    &&& steps.len() == join_width(fields)
    &&& forall|k: int|
        0 <= k < steps.len() ==> {
            &&& 0 <= (#[trigger] steps[k]).field_index < fields.len()
            &&& join_candidate(fields, steps[k].field_index as int)
            &&& ones_before(fields, steps[k].field_index as int) == k
            &&& steps[k].entity@ == fields[steps[k].field_index as int].entity@
        }
    &&& forall|i: int|
        0 <= i < fields.len() && join_candidate(fields, i) ==> (#[trigger] ones_before(fields, i))
            < steps.len()
    &&& forall|i: int|
        0 <= i < fields.len() && join_candidate(fields, i) ==> (#[trigger] steps[ones_before(
            fields,
            i,
        )]).field_index == i
}

/// One load statement per field, in declaration order, carrying the field's
/// cardinality, target path and derived target module path.
pub open spec fn load_stmts_wf(stmts: Seq<LoadStmt>, fields: Seq<EntityLoaderField>) -> bool {
    &&& stmts.len() == fields.len()
    &&& forall|i: int|
        0 <= i < fields.len() ==> {
            &&& (#[trigger] stmts[i]).field_index == i
            &&& stmts[i].is_one == fields[i].is_one
            &&& stmts[i].entity@ == fields[i].entity@
            &&& stmts[i].entity_module@ == strip_entity_suffix(fields[i].entity@)
        }
}

impl CodeBundle {
    /// Everything the generator promises of a bundle built from `fields`.
    pub open spec fn wf(&self, fields: Seq<EntityLoaderField>) -> bool {
        let n = fields.len() as int;
        &&& self.flag_fields@.len() == n
        &&& forall|i: int|
            0 <= i < n ==> (#[trigger] self.flag_fields@[i])@ == fields[i].field@
        &&& self.nest_fields@.len() == n
        &&& forall|i: int|
            0 <= i < n ==> (#[trigger] self.nest_fields@[i]).field@ == fields[i].field@
                && self.nest_fields@[i].entity_module@ == strip_entity_suffix(fields[i].entity@)
        &&& self.with_branches@.len() == n
        &&& forall|i: int|
            0 <= i < n ==> (#[trigger] self.with_branches@[i]).field_index == i
                && self.with_branches@[i].entity@ == fields[i].entity@
        &&& self.with_nest_branches@.len() == n
        &&& forall|i: int|
            0 <= i < n ==> (#[trigger] self.with_nest_branches@[i]).field_index == i
                && self.with_nest_branches@[i].entity@ == fields[i].entity@
        &&& select_steps_wf(self.select_steps@, fields)
        &&& self.assemble_steps@.len() == self.select_steps@.len()
        &&& forall|k: int|
            0 <= k < self.assemble_steps@.len() ==> (#[trigger] self.assemble_steps@[k]).field_index
                == self.select_steps@[k].field_index
        &&& self.joined_columns@.len() == self.select_steps@.len() + 1
        &&& self.joined_columns@[0]@ == "model"@
        &&& forall|k: int|
            0 <= k < self.select_steps@.len() ==> (#[trigger] self.joined_columns@[k + 1])@
                == fields[self.select_steps@[k].field_index as int].field@
        &&& load_stmts_wf(self.load_stmts@, fields)
        &&& load_stmts_wf(self.load_nest_stmts@, fields)
        &&& load_stmts_wf(self.load_nest_nest_stmts@, fields)
    }
}

/// Single pass over the ordered relation descriptors, producing every
/// accumulator of the generated loader family: selection flags and nested
/// selections, both dispatch routines, the joined-select rewriting for the
/// first two One fields, and the three load-phase statement lists.  The
/// output is a function of the input alone, so identical schemas yield
/// identical bundles.
#[verifier::loop_isolation(false)]
#[verifier::rlimit(60)]
pub fn expand_entity_loader(schema: &EntityLoaderSchema) -> (b: CodeBundle)
    ensures
        b.wf(schema.fields@),
{
    let ghost fs = schema.fields@;
    let n = schema.fields.len();
    let mut flag_fields: Vec<String> = Vec::new();
    let mut nest_fields: Vec<NestField> = Vec::new();
    let mut with_branches: Vec<WithBranch> = Vec::new();
    let mut with_nest_branches: Vec<WithNestBranch> = Vec::new();
    let mut joined_columns: Vec<String> = Vec::new();
    let mut select_steps: Vec<SelectStep> = Vec::new();
    let mut assemble_steps: Vec<AssembleStep> = Vec::new();
    let mut load_stmts: Vec<LoadStmt> = Vec::new();
    let mut load_nest_stmts: Vec<LoadStmt> = Vec::new();
    let mut load_nest_nest_stmts: Vec<LoadStmt> = Vec::new();
    // The base row occupies the first joined column.
    joined_columns.push("model".to_owned());
    // Query arity so far: base row plus the joined One fields.
    let mut arity: usize = 1;
    let mut i: usize = 0;
    while i < n
        invariant
            i <= n,
            n == fs.len(),
            arity == 1 + if ones_before(fs, i as int) <= 2 {
                ones_before(fs, i as int)
            } else {
                2int
            },
            flag_fields@.len() == i,
            forall|k: int| 0 <= k < i ==> (#[trigger] flag_fields@[k])@ == fs[k].field@,
            nest_fields@.len() == i,
            forall|k: int|
                0 <= k < i ==> (#[trigger] nest_fields@[k]).field@ == fs[k].field@
                    && nest_fields@[k].entity_module@ == strip_entity_suffix(fs[k].entity@),
            with_branches@.len() == i,
            forall|k: int|
                0 <= k < i ==> (#[trigger] with_branches@[k]).field_index == k
                    && with_branches@[k].entity@ == fs[k].entity@,
            with_nest_branches@.len() == i,
            forall|k: int|
                0 <= k < i ==> (#[trigger] with_nest_branches@[k]).field_index == k
                    && with_nest_branches@[k].entity@ == fs[k].entity@,
            select_steps@.len() == arity - 1,
            forall|k: int|
                0 <= k < select_steps@.len() ==> {
                    &&& 0 <= (#[trigger] select_steps@[k]).field_index < i
                    &&& join_candidate(fs, select_steps@[k].field_index as int)
                    &&& ones_before(fs, select_steps@[k].field_index as int) == k
                    &&& select_steps@[k].entity@ == fs[select_steps@[k].field_index as int].entity@
                },
            assemble_steps@.len() == select_steps@.len(),
            forall|k: int|
                0 <= k < assemble_steps@.len() ==> (#[trigger] assemble_steps@[k]).field_index
                    == select_steps@[k].field_index,
            joined_columns@.len() == select_steps@.len() + 1,
            joined_columns@[0]@ == "model"@,
            forall|k: int|
                0 <= k < select_steps@.len() ==> (#[trigger] joined_columns@[k + 1])@
                    == fs[select_steps@[k].field_index as int].field@,
            load_stmts@.len() == i,
            forall|k: int|
                0 <= k < i ==> {
                    &&& (#[trigger] load_stmts@[k]).field_index == k
                    &&& load_stmts@[k].is_one == fs[k].is_one
                    &&& load_stmts@[k].entity@ == fs[k].entity@
                    &&& load_stmts@[k].entity_module@ == strip_entity_suffix(fs[k].entity@)
                },
            load_nest_stmts@.len() == i,
            forall|k: int|
                0 <= k < i ==> {
                    &&& (#[trigger] load_nest_stmts@[k]).field_index == k
                    &&& load_nest_stmts@[k].is_one == fs[k].is_one
                    &&& load_nest_stmts@[k].entity@ == fs[k].entity@
                    &&& load_nest_stmts@[k].entity_module@ == strip_entity_suffix(fs[k].entity@)
                },
            load_nest_nest_stmts@.len() == i,
            forall|k: int|
                0 <= k < i ==> {
                    &&& (#[trigger] load_nest_nest_stmts@[k]).field_index == k
                    &&& load_nest_nest_stmts@[k].is_one == fs[k].is_one
                    &&& load_nest_nest_stmts@[k].entity@ == fs[k].entity@
                    &&& load_nest_nest_stmts@[k].entity_module@ == strip_entity_suffix(
                        fs[k].entity@,
                    )
                },
        decreases n - i,
    {
        let field_name = &schema.fields[i].field;
        let is_one = schema.fields[i].is_one;
        let entity = &schema.fields[i].entity;
        let entity_module = entity_module_path(entity.as_str());

        flag_fields.push(field_name.clone());
        nest_fields.push(NestField { field: field_name.clone(), entity_module: entity_module.clone() });
        with_branches.push(WithBranch { field_index: i, entity: entity.clone() });
        with_nest_branches.push(WithNestBranch { field_index: i, entity: entity.clone() });

        if is_one {
            if arity < 3 {
                // Within the join ceiling: this One field becomes a joined
                // column, reassembled into the base record after the select.
                arity += 1;
                joined_columns.push(field_name.clone());
                select_steps.push(SelectStep { field_index: i, entity: entity.clone() });
                assemble_steps.push(AssembleStep { field_index: i });
            }
        }
        let stmt = LoadStmt {
            field_index: i,
            is_one,
            entity: entity.clone(),
            entity_module: entity_module.clone(),
        };
        let stmt_nest = LoadStmt {
            field_index: i,
            is_one,
            entity: entity.clone(),
            entity_module: entity_module.clone(),
        };
        let stmt_nest_nest = LoadStmt {
            field_index: i,
            is_one,
            entity: entity.clone(),
            entity_module,
        };
        load_stmts.push(stmt);
        load_nest_stmts.push(stmt_nest);
        load_nest_nest_stmts.push(stmt_nest_nest);

        proof {
            assert(ones_before(fs, i + 1) == ones_before(fs, i as int) + if fs[i as int].is_one {
                1int
            } else {
                0int
            });
        }
        i += 1;
    }
    proof {
        assert forall|fx: int| 0 <= fx < fs.len() && join_candidate(fs, fx) implies (
        #[trigger] ones_before(fs, fx)) < select_steps@.len() by {
            lemma_candidate_position_identifies(fs, select_steps@, fx);
        }
        assert forall|fx: int| 0 <= fx < fs.len() && join_candidate(fs, fx) implies (
        #[trigger] select_steps@[ones_before(fs, fx)]).field_index == fx by {
            lemma_candidate_position_identifies(fs, select_steps@, fx);
        }
    }
    CodeBundle {
        flag_fields,
        nest_fields,
        with_branches,
        with_nest_branches,
        joined_columns,
        select_steps,
        assemble_steps,
        load_stmts,
        load_nest_stmts,
        load_nest_nest_stmts,
    }
}

/// Two distinct One fields sit at distinct positions among the One fields.
pub proof fn lemma_candidate_positions_distinct(fields: Seq<EntityLoaderField>, a: int, b: int)
    requires
        0 <= a < fields.len(),
        0 <= b < fields.len(),
        fields[a].is_one,
        fields[b].is_one,
        a != b,
    ensures
        ones_before(fields, a) != ones_before(fields, b),
{
    if a < b {
        assert(ones_before(fields, a + 1) == ones_before(fields, a) + 1);
        lemma_ones_before_monotonic(fields, a + 1, b);
    } else {
        assert(ones_before(fields, b + 1) == ones_before(fields, b) + 1);
        lemma_ones_before_monotonic(fields, b + 1, a);
    }
}

/// A One field's position among the One fields identifies it: the join-step
/// list, whose step k sits at position k, therefore holds every joined-path
/// field at the position `ones_before` gives it.
proof fn lemma_candidate_position_identifies(
    fields: Seq<EntityLoaderField>,
    steps: Seq<SelectStep>,
    i: int,
)
    requires
        steps.len() == join_width(fields),
        forall|k: int|
            0 <= k < steps.len() ==> {
                &&& 0 <= (#[trigger] steps[k]).field_index < fields.len()
                &&& join_candidate(fields, steps[k].field_index as int)
                &&& ones_before(fields, steps[k].field_index as int) == k
            },
        0 <= i < fields.len(),
        join_candidate(fields, i),
    ensures
        ones_before(fields, i) < steps.len(),
        steps[ones_before(fields, i)].field_index == i,
{
    let k = ones_before(fields, i);
    lemma_ones_before_monotonic(fields, 0, i);
    lemma_ones_before_monotonic(fields, i + 1, fields.len() as int);
    assert(ones_before(fields, i + 1) == k + 1);
    assert(k < steps.len());
    let c = steps[k].field_index as int;
    assert(join_candidate(fields, c) && ones_before(fields, c) == k);
    if c < i {
        lemma_ones_before_monotonic(fields, c + 1, i);
        assert(fields[c].is_one);
        assert(ones_before(fields, c + 1) == ones_before(fields, c) + 1);
        assert(false);
    } else if c > i {
        lemma_ones_before_monotonic(fields, i + 1, c);
        assert(ones_before(fields, i + 1) <= ones_before(fields, c));
        assert(false);
    }
}

/// The join-arity ceiling, as the generated select obeys it: a schema with
/// at most two One-cardinality fields has every One field on the joined
/// path, and one with more has exactly the first two there, every later One
/// field taking the batched path like any Many field.
pub proof fn lemma_join_arity_ceiling(fields: Seq<EntityLoaderField>, i: int)
    requires
        0 <= i < fields.len(),
        fields[i].is_one,
    ensures
        ones_before(fields, fields.len() as int) <= 2 ==> join_candidate(fields, i),
        join_candidate(fields, i) <==> ones_before(fields, i) < 2,
{
    lemma_ones_before_monotonic(fields, i + 1, fields.len() as int);
}

} // verus!
