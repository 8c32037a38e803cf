use vstd::prelude::*;
use vstd::string::StrSliceExecFns;
use vstd::string::StringExecFns;
use heck::ToUpperCamelCase;

verus! {

/// The raw-identifier prefix a field name may carry in source.
pub open spec fn raw_prefix() -> Seq<char> {
    "r#"@
}

/// The name starts with the raw-identifier prefix.
pub open spec fn has_raw_prefix(s: Seq<char>) -> bool {
    s.len() >= 2 && s.subrange(0, 2) == raw_prefix()
}

/// The name with every leading raw-identifier prefix removed.
pub open spec fn strip_raw_prefix(s: Seq<char>) -> Seq<char>
    decreases s.len(),
{
    if has_raw_prefix(s) {
        strip_raw_prefix(s.subrange(2, s.len() as int))
    } else {
        s
    }
}

/// Whether `s` starts with the raw-identifier prefix.
fn starts_with_raw_prefix(s: &str) -> (r: bool)
    ensures
        r == has_raw_prefix(s@),
{
    proof {
        reveal_strlit("r#");
    }
    let n = s.unicode_len();
    if n < 2 {
        return false;
    }
    let r = s.get_char(0) == 'r' && s.get_char(1) == '#';
    proof {
        if r {
            assert(s@.subrange(0, 2) =~= raw_prefix());
        } else {
            assert(s@.subrange(0, 2)[0] == s@[0] && s@.subrange(0, 2)[1] == s@[1]);
        }
    }
    r
}

/// Strips every leading raw-identifier prefix from a field name, as the
/// column-name derivation does before case conversion.
pub fn trim_raw_prefix(s: &str) -> (r: String)
    ensures
        r@ == strip_raw_prefix(s@),
{
    let mut cur: String = s.to_owned();
    let mut done: bool = false;
    while !done
        invariant
            strip_raw_prefix(cur@) == strip_raw_prefix(s@),
            done ==> !has_raw_prefix(cur@),
        decreases cur@.len() + if done {
            0int
        } else {
            1int
        },
    {
        if starts_with_raw_prefix(cur.as_str()) {
            let n = cur.as_str().unicode_len();
            let shorter = cur.as_str().substring_char(2, n).to_owned();
            cur = shorter;
        } else {
            done = true;
        }
    }
    cur
}

/// What heck's upper-camel-case conversion returns for a given character
/// sequence.
pub uninterp spec fn upper_camel_of(s: Seq<char>) -> Seq<char>;

/// Relies on heck's to_upper_camel_case: the result is a function of the
/// characters alone.
#[verifier::external_body]
fn to_upper_camel(s: &str) -> (r: String)
    ensures
        r@ == upper_camel_of(s@),
{
    s.to_upper_camel_case()
}

/// The name is a Rust keyword that a raw identifier can express: such a
/// column name must carry the raw-identifier prefix to stand in generated
/// code.
pub open spec fn is_rust_keyword(s: Seq<char>) -> bool {
    ||| s == "as"@
    ||| s == "async"@
    ||| s == "await"@
    ||| s == "break"@
    ||| s == "const"@
    ||| s == "continue"@
    ||| s == "dyn"@
    ||| s == "else"@
    ||| s == "enum"@
    ||| s == "ext"@ + "ern"@
    ||| s == "false"@
    ||| s == "fn"@
    ||| s == "for"@
    ||| s == "if"@
    ||| s == "impl"@
    ||| s == "in"@
    ||| s == "let"@
    ||| s == "loop"@
    ||| s == "match"@
    ||| s == "mod"@
    ||| s == "move"@
    ||| s == "mut"@
    ||| s == "pub"@
    ||| s == "ref"@
    ||| s == "return"@
    ||| s == "static"@
    ||| s == "struct"@
    ||| s == "trait"@
    ||| s == "true"@
    ||| s == "type"@
    ||| s == "unsafe"@
    ||| s == "use"@
    ||| s == "where"@
    ||| s == "while"@
}

/// The name is a path keyword that raw identifiers cannot express: the only
/// escape left is a trailing underscore.
pub open spec fn is_special_keyword(s: Seq<char>) -> bool {
    ||| s == "crate"@
    ||| s == "self"@
    ||| s == "Self"@
    ||| s == "super"@
}

/// A column name escaped so that it can stand as an identifier in generated
/// code: a trailing underscore for the path keywords raw identifiers cannot
/// express, the raw-identifier prefix for every other keyword, the name
/// itself otherwise.
pub open spec fn spec_escape_ident(s: Seq<char>) -> Seq<char> {
    if is_special_keyword(s) {
        s + "_"@
    } else if is_rust_keyword(s) {
        "r#"@ + s
    } else {
        s
    }
}

/// String equality over views.
fn str_eq(a: &str, b: &str) -> (r: bool)
    ensures
        r == (a@ == b@),
{
    a.to_owned() == b.to_owned()
}

fn is_rust_keyword_exec(s: &str) -> (r: bool)
    ensures
        r == is_rust_keyword(s@),
{
    let two_part = "ext".to_owned().concat("ern");
    str_eq(s, "as") || str_eq(s, "async") || str_eq(s, "await") || str_eq(s, "break") || str_eq(
        s,
        "const",
    ) || str_eq(s, "continue") || str_eq(s, "dyn") || str_eq(s, "else") || str_eq(s, "enum")
        || str_eq(s, two_part.as_str()) || str_eq(s, "false") || str_eq(s, "fn") || str_eq(
        s,
        "for",
    ) || str_eq(s, "if") || str_eq(s, "impl") || str_eq(s, "in") || str_eq(s, "let") || str_eq(
        s,
        "loop",
    ) || str_eq(s, "match") || str_eq(s, "mod") || str_eq(s, "move") || str_eq(s, "mut") || str_eq(
        s,
        "pub",
    ) || str_eq(s, "ref") || str_eq(s, "return") || str_eq(s, "static") || str_eq(s, "struct")
        || str_eq(s, "trait") || str_eq(s, "true") || str_eq(s, "type") || str_eq(s, "unsafe")
        || str_eq(s, "use") || str_eq(s, "where") || str_eq(s, "while")
}

fn is_special_keyword_exec(s: &str) -> (r: bool)
    ensures
        r == is_special_keyword(s@),
{
    str_eq(s, "crate") || str_eq(s, "self") || str_eq(s, "Self") || str_eq(s, "super")
}

/// Escapes a derived column name that collides with a keyword, as the
/// column derivation does after case conversion.
pub fn escape_rust_keyword(s: String) -> (r: String)
    ensures
        r@ == spec_escape_ident(s@),
{
    if is_special_keyword_exec(s.as_str()) {
        s.concat("_")
    } else if is_rust_keyword_exec(s.as_str()) {
        let prefixed = "r#".to_owned().concat(s.as_str());
        prefixed
    } else {
        s
    }
}

/// One named field of a model declaration, as the attribute front end hands
/// it over: its identifier, its type's source text, whether it is ignored,
/// and the column-name override a `enum_name` attribute supplies.
pub struct ModelField {
    pub name: String,
    pub ty: String,
    pub ignore: bool,
    pub enum_name: Option<String>,
}

/// The shape of the declaration the derive is applied to: a struct with
/// named fields, or anything else, which the derive rejects.
pub enum ModelData {
    NamedStruct(Vec<ModelField>),
    Unsupported,
}

/// Why the model derivation failed: the input was not a struct with named
/// fields, or the attribute front end reported a parse error.
#[derive(Debug)]
pub enum DeriveModelError {
    InputNotStruct,
    Syn(String),
}

impl DeriveModelError {
    /// Returns the parse error's message.  The derive only calls this on
    /// the parse-error variant; on the other it would abort instead.
    pub fn unwrap(self) -> (r: String)
        requires
            self is Syn,
        ensures
            r@ == self->Syn_0@,
    {
        match self {
            DeriveModelError::Syn(e) => e,
            DeriveModelError::InputNotStruct => {
                unreached()
            },
        }
    }
}

/// The column identifier a field maps to: its override when the attribute
/// gave one, else the upper-camel-cased field name without raw prefixes,
/// keyword-escaped.
pub open spec fn spec_column_ident(f: ModelField) -> Seq<char> {
    match f.enum_name {
        Some(n) => n@,
        None => spec_escape_ident(upper_camel_of(strip_raw_prefix(f.name@))),
    }
}

/// Derives one field's column identifier.
pub fn column_ident(f: &ModelField) -> (r: String)
    ensures
        r@ == spec_column_ident(*f),
{
    match &f.enum_name {
        Some(n) => n.clone(),
        None => {
            let trimmed = trim_raw_prefix(f.name.as_str());
            escape_rust_keyword(to_upper_camel(trimmed.as_str()))
        },
    }
}

/// Number of non-ignored fields among the first `i`: the position a
/// non-ignored field takes in every filtered match-arm list.
pub open spec fn kept_before(ignore: Seq<bool>, i: int) -> int
    decreases i,
{
    if i <= 0 {
        0
    } else {
        kept_before(ignore, i - 1) + if ignore[i - 1] {
            0int
        } else {
            1int
        }
    }
}

/// `kept_before` never decreases along the field list.
pub proof fn lemma_kept_before_monotonic(ignore: Seq<bool>, i: int, j: int)
    requires
        i <= j,
    ensures
        kept_before(ignore, i) <= kept_before(ignore, j),
    decreases j - i,
{
    if i < j {
        lemma_kept_before_monotonic(ignore, i, j - 1);
    }
}

/// A non-ignored field's position among the non-ignored fields identifies
/// it within a list whose entry k sits at position k.
proof fn lemma_kept_position_identifies(ignore: Seq<bool>, picked: Seq<int>, i: int)
    requires
        picked.len() == kept_before(ignore, ignore.len() as int),
        forall|k: int|
            0 <= k < picked.len() ==> 0 <= (#[trigger] picked[k]) < ignore.len()
                && !ignore[picked[k]] && kept_before(ignore, picked[k]) == k,
        0 <= i < ignore.len(),
        !ignore[i],
    ensures
        0 <= kept_before(ignore, i) < picked.len(),
        picked[kept_before(ignore, i)] == i,
{
    let k = kept_before(ignore, i);
    lemma_kept_before_monotonic(ignore, 0, i);
    lemma_kept_before_monotonic(ignore, i + 1, ignore.len() as int);
    assert(kept_before(ignore, i + 1) == k + 1);
    assert(k < picked.len());
    let c = picked[k];
    if c < i {
        assert(kept_before(ignore, c + 1) == kept_before(ignore, c) + 1);
        lemma_kept_before_monotonic(ignore, c + 1, i);
        assert(false);
    } else if c > i {
        lemma_kept_before_monotonic(ignore, i + 1, c);
        assert(false);
    }
}

/// The collected shape of a model declaration: parallel per-field lists,
/// ready to be expanded into the query-result and model-trait impls.
#[derive(Debug)]
pub struct DeriveModel {
    pub column_idents: Vec<String>,
    pub entity_ident: String,
    pub field_idents: Vec<String>,
    pub field_types: Vec<String>,
    pub ident: String,
    pub ignore_attrs: Vec<bool>,
}

impl DeriveModel {
    /// One entry of each list per field.
    pub open spec fn wf(&self) -> bool {
        &&& self.column_idents@.len() == self.field_idents@.len()
        &&& self.field_types@.len() == self.field_idents@.len()
        &&& self.ignore_attrs@.len() == self.field_idents@.len()
    }

    /// Collects a model declaration: rejects anything but a struct with
    /// named fields, passes an attribute parse error through, and otherwise
    /// derives each field's column identifier.
    #[verifier::loop_isolation(false)]
    pub fn new(ident: String, data: ModelData, sea_attr: Result<Option<String>, String>) -> (r:
        Result<DeriveModel, DeriveModelError>)
        ensures
            data is Unsupported ==> r is Err && r->Err_0 is InputNotStruct,
            data is NamedStruct && sea_attr is Err ==> r is Err && r->Err_0 is Syn
                && r->Err_0->Syn_0@ == sea_attr->Err_0@,
            data is NamedStruct && sea_attr is Ok ==> r is Ok && spec_collected(
                r->Ok_0,
                ident@,
                data->NamedStruct_0@,
                sea_attr->Ok_0,
            ),
    {
        let fields = match data {
            ModelData::NamedStruct(fields) => fields,
            ModelData::Unsupported => {
                return Err(DeriveModelError::InputNotStruct);
            },
        };
        let entity_ident = match sea_attr {
            Err(e) => {
                return Err(DeriveModelError::Syn(e));
            },
            Ok(Some(e)) => e,
            Ok(None) => "Entity".to_owned(),
        };
        let n = fields.len();
        let mut column_idents: Vec<String> = Vec::new();
        let mut field_idents: Vec<String> = Vec::new();
        let mut field_types: Vec<String> = Vec::new();
        let mut ignore_attrs: Vec<bool> = Vec::new();
        let mut i: usize = 0;
        while i < n
            invariant
                i <= n,
                n == fields@.len(),
                column_idents@.len() == i,
                field_idents@.len() == i,
                field_types@.len() == i,
                ignore_attrs@.len() == i,
                forall|k: int|
                    0 <= k < i ==> (#[trigger] column_idents@[k])@ == spec_column_ident(
                        fields@[k],
                    ),
                forall|k: int| 0 <= k < i ==> (#[trigger] field_idents@[k])@ == fields@[k].name@,
                forall|k: int| 0 <= k < i ==> (#[trigger] field_types@[k])@ == fields@[k].ty@,
                forall|k: int| 0 <= k < i ==> (#[trigger] ignore_attrs@[k]) == fields@[k].ignore,
            decreases n - i,
        {
            let col = column_ident(&fields[i]);
            column_idents.push(col);
            field_idents.push(fields[i].name.clone());
            field_types.push(fields[i].ty.clone());
            ignore_attrs.push(fields[i].ignore);
            i += 1;
        }
        Ok(
            DeriveModel {
                column_idents,
                entity_ident,
                field_idents,
                field_types,
                ident,
                ignore_attrs,
            },
        )
    }
}

/// What a collected model promises of its inputs.
pub open spec fn spec_collected(
    m: DeriveModel,
    ident: Seq<char>,
    fields: Seq<ModelField>,
    entity: Option<String>,
) -> bool {
    &&& m.wf()
    &&& m.ident@ == ident
    &&& m.entity_ident@ == match entity {
        Some(e) => e@,
        None => "Entity"@,
    }
    &&& m.field_idents@.len() == fields.len()
    &&& forall|k: int|
        0 <= k < fields.len() ==> (#[trigger] m.field_idents@[k])@ == fields[k].name@
    &&& forall|k: int| 0 <= k < fields.len() ==> (#[trigger] m.field_types@[k])@ == fields[k].ty@
    &&& forall|k: int| 0 <= k < fields.len() ==> (#[trigger] m.ignore_attrs@[k]) == fields[k].ignore
    &&& forall|k: int|
        0 <= k < fields.len() ==> (#[trigger] m.column_idents@[k])@ == spec_column_ident(fields[k])
}

/// How one field of the query-result constructor is initialized: from the
/// type's default for an ignored field, else read from the row by column.
#[derive(Debug)]
pub enum InitKind {
    DefaultValue,
    TryGetColumn(String),
}

/// One field initializer of the generated query-result constructor.
#[derive(Debug)]
pub struct FieldInit {
    pub field: String,
    pub init: InitKind,
}

/// One `column => field` match arm of the generated model trait.
#[derive(Debug)]
pub struct GetArm {
    pub column: String,
    pub field: String,
}

/// One `column => type` match arm of the generated value-type dispatch.
#[derive(Debug)]
pub struct TypeArm {
    pub column: String,
    pub ty: String,
}

/// The generated model-trait impl: filtered match-arm lists for get,
/// value-type and set dispatch, and the message for an unknown column.
#[derive(Debug)]
pub struct ModelTraitPlan {
    pub get_arms: Vec<GetArm>,
    pub value_type_arms: Vec<TypeArm>,
    pub try_set_arms: Vec<GetArm>,
    pub missing_field_msg: String,
}

impl DeriveModel {
    /// The generated query-result constructor: one initializer per field in
    /// declaration order, reading the field's column unless it is ignored.
    #[verifier::loop_isolation(false)]
    pub fn impl_from_query_result(&self) -> (r: Vec<FieldInit>)
        requires
            self.wf(),
        ensures
            r@.len() == self.field_idents@.len(),
            forall|k: int|
                0 <= k < r@.len() ==> (#[trigger] r@[k]).field@ == self.field_idents@[k]@,
            forall|k: int|
                0 <= k < r@.len() && self.ignore_attrs@[k] ==> (#[trigger] r@[k]).init
                    is DefaultValue,
            forall|k: int|
                0 <= k < r@.len() && !self.ignore_attrs@[k] ==> (#[trigger] r@[k]).init
                    is TryGetColumn && r@[k].init->TryGetColumn_0@ == self.column_idents@[k]@,
    {
        let n = self.field_idents.len();
        let mut out: Vec<FieldInit> = Vec::new();
        let mut i: usize = 0;
        while i < n
            invariant
                i <= n,
                out@.len() == i,
                forall|k: int|
                    0 <= k < i ==> (#[trigger] out@[k]).field@ == self.field_idents@[k]@,
                forall|k: int|
                    0 <= k < i && self.ignore_attrs@[k] ==> (#[trigger] out@[k]).init
                        is DefaultValue,
                forall|k: int|
                    0 <= k < i && !self.ignore_attrs@[k] ==> (#[trigger] out@[k]).init
                        is TryGetColumn && out@[k].init->TryGetColumn_0@
                        == self.column_idents@[k]@,
            decreases n - i,
        {
            let init = if self.ignore_attrs[i] {
                InitKind::DefaultValue
            } else {
                InitKind::TryGetColumn(self.column_idents[i].clone())
            };
            out.push(FieldInit { field: self.field_idents[i].clone(), init });
            i += 1;
        }
        out
    }

    /// The generated model trait: get, value-type and set dispatch over the
    /// non-ignored fields, in declaration order, each non-ignored field's
    /// arm sitting at its position among the non-ignored fields; and the
    /// message reported when a column matches no field.
    #[verifier::loop_isolation(false)]
    #[verifier::rlimit(100)]
    pub fn impl_model_trait(&self) -> (r: ModelTraitPlan)
        requires
            self.wf(),
        ensures
            model_trait_wf(r, *self),
    {
        let ghost ig = self.ignore_attrs@;
        let n = self.field_idents.len();
        let mut get_arms: Vec<GetArm> = Vec::new();
        let mut value_type_arms: Vec<TypeArm> = Vec::new();
        let mut try_set_arms: Vec<GetArm> = Vec::new();
        let ghost mut picked: Seq<int> = Seq::empty();
        let mut i: usize = 0;
        while i < n
            invariant
                i <= n,
                n == ig.len(),
                picked.len() == kept_before(ig, i as int),
                get_arms@.len() == picked.len(),
                value_type_arms@.len() == picked.len(),
                try_set_arms@.len() == picked.len(),
                forall|k: int|
                    0 <= k < picked.len() ==> 0 <= (#[trigger] picked[k]) < i && !ig[picked[k]]
                        && kept_before(ig, picked[k]) == k,
                forall|k: int|
                    0 <= k < picked.len() ==> (#[trigger] get_arms@[k]).column@
                        == self.column_idents@[picked[k]]@ && get_arms@[k].field@
                        == self.field_idents@[picked[k]]@,
                forall|k: int|
                    0 <= k < picked.len() ==> (#[trigger] value_type_arms@[k]).column@
                        == self.column_idents@[picked[k]]@ && value_type_arms@[k].ty@
                        == self.field_types@[picked[k]]@,
                forall|k: int|
                    0 <= k < picked.len() ==> (#[trigger] try_set_arms@[k]).column@
                        == self.column_idents@[picked[k]]@ && try_set_arms@[k].field@
                        == self.field_idents@[picked[k]]@,
            decreases n - i,
        {
            if !self.ignore_attrs[i] {
                get_arms.push(
                    GetArm {
                        column: self.column_idents[i].clone(),
                        field: self.field_idents[i].clone(),
                    },
                );
                value_type_arms.push(
                    TypeArm {
                        column: self.column_idents[i].clone(),
                        ty: self.field_types[i].clone(),
                    },
                );
                try_set_arms.push(
                    GetArm {
                        column: self.column_idents[i].clone(),
                        field: self.field_idents[i].clone(),
                    },
                );
                proof {
                    picked = picked.push(i as int);
                }
            }
            proof {
                assert(kept_before(ig, i + 1) == kept_before(ig, i as int) + if ig[i as int] {
                    0int
                } else {
                    1int
                });
            }
            i += 1;
        }
        let msg = "field does not exist on ".to_owned().concat(self.ident.as_str());
        proof {
            assert forall|fx: int| 0 <= fx < n && !ig[fx] implies (#[trigger] kept_before(ig, fx))
                < picked.len() && picked[kept_before(ig, fx)] == fx by {
                lemma_kept_position_identifies(ig, picked, fx);
            }
            assert forall|fx: int|
                0 <= fx < n && !ig[fx] implies (#[trigger] get_arms@[kept_before(ig, fx)]).column@
                == self.column_idents@[fx]@ && get_arms@[kept_before(ig, fx)].field@
                == self.field_idents@[fx]@ by {
                lemma_kept_position_identifies(ig, picked, fx);
                let k = kept_before(ig, fx);
                assert(get_arms@[k].column@ == self.column_idents@[picked[k]]@);
            }
            assert forall|fx: int|
                0 <= fx < n && !ig[fx] implies (#[trigger] value_type_arms@[kept_before(
                ig,
                fx,
            )]).column@ == self.column_idents@[fx]@ && value_type_arms@[kept_before(ig, fx)].ty@
                == self.field_types@[fx]@ by {
                lemma_kept_position_identifies(ig, picked, fx);
                let k = kept_before(ig, fx);
                assert(value_type_arms@[k].column@ == self.column_idents@[picked[k]]@);
            }
            assert forall|fx: int|
                0 <= fx < n && !ig[fx] implies (#[trigger] try_set_arms@[kept_before(
                ig,
                fx,
            )]).column@ == self.column_idents@[fx]@ && try_set_arms@[kept_before(ig, fx)].field@
                == self.field_idents@[fx]@ by {
                lemma_kept_position_identifies(ig, picked, fx);
                let k = kept_before(ig, fx);
                assert(try_set_arms@[k].column@ == self.column_idents@[picked[k]]@);
            }
        }
        ModelTraitPlan { get_arms, value_type_arms, try_set_arms, missing_field_msg: msg }
    }

    /// The whole expansion: the query-result constructor followed by the
    /// model trait, as the derive emits them.
    pub fn expand(&self) -> (r: ModelExpansion)
        requires
            self.wf(),
        ensures
            from_query_result_wf(r.from_query_result@, *self),
            model_trait_wf(r.model_trait, *self),
    {
        let from_query_result = self.impl_from_query_result();
        let model_trait = self.impl_model_trait();
        ModelExpansion { from_query_result, model_trait }
    }
}

/// What the generated query-result constructor promises.
pub open spec fn from_query_result_wf(inits: Seq<FieldInit>, m: DeriveModel) -> bool {
    &&& inits.len() == m.field_idents@.len()
    &&& forall|k: int| 0 <= k < inits.len() ==> (#[trigger] inits[k]).field@ == m.field_idents@[k]@
    &&& forall|k: int|
        0 <= k < inits.len() && m.ignore_attrs@[k] ==> (#[trigger] inits[k]).init is DefaultValue
    &&& forall|k: int|
        0 <= k < inits.len() && !m.ignore_attrs@[k] ==> (#[trigger] inits[k]).init is TryGetColumn
            && inits[k].init->TryGetColumn_0@ == m.column_idents@[k]@
}

/// What the generated model trait promises: every non-ignored field has its
/// arms at its position among the non-ignored fields, and nothing else is
/// in the lists.
pub open spec fn model_trait_wf(r: ModelTraitPlan, m: DeriveModel) -> bool {
    let ig = m.ignore_attrs@;
    &&& r.get_arms@.len() == kept_before(ig, ig.len() as int)
    &&& r.value_type_arms@.len() == r.get_arms@.len()
    &&& r.try_set_arms@.len() == r.get_arms@.len()
    &&& forall|i: int|
        0 <= i < ig.len() && !ig[i] ==> (#[trigger] kept_before(ig, i)) < r.get_arms@.len()
    &&& forall|i: int|
        0 <= i < ig.len() && !ig[i] ==> (#[trigger] r.get_arms@[kept_before(ig, i)]).column@
            == m.column_idents@[i]@ && r.get_arms@[kept_before(ig, i)].field@
            == m.field_idents@[i]@
    &&& forall|i: int|
        0 <= i < ig.len() && !ig[i] ==> (#[trigger] r.value_type_arms@[kept_before(ig, i)]).column@
            == m.column_idents@[i]@ && r.value_type_arms@[kept_before(ig, i)].ty@
            == m.field_types@[i]@
    &&& forall|i: int|
        0 <= i < ig.len() && !ig[i] ==> (#[trigger] r.try_set_arms@[kept_before(ig, i)]).column@
            == m.column_idents@[i]@ && r.try_set_arms@[kept_before(ig, i)].field@
            == m.field_idents@[i]@
    &&& r.missing_field_msg@ == "field does not exist on "@ + m.ident@
}

/// The derive's two generated impls.
#[derive(Debug)]
pub struct ModelExpansion {
    pub from_query_result: Vec<FieldInit>,
    pub model_trait: ModelTraitPlan,
}

/// What the derive produces for one declaration: the expansion, a
/// diagnostic to embed for a non-struct input, or the front end's parse
/// error to report as is.
#[derive(Debug)]
pub enum ModelDeriveOutput {
    Expanded(ModelExpansion),
    CompileError(String),
}

/// Expands the model derive for one declaration: collects the shape and
/// expands it; a non-struct input becomes an embedded diagnostic, and an
/// attribute parse error is handed back to the caller.
pub fn expand_derive_model(
    ident: String,
    data: ModelData,
    sea_attr: Result<Option<String>, String>,
) -> (r: Result<ModelDeriveOutput, String>)
    ensures
        data is Unsupported ==> r is Ok && r->Ok_0 is CompileError
            && r->Ok_0->CompileError_0@ == "you can only derive DeriveModel on structs"@,
        data is NamedStruct && sea_attr is Err ==> r is Err && r->Err_0@ == sea_attr->Err_0@,
        data is NamedStruct && sea_attr is Ok ==> r is Ok && r->Ok_0 is Expanded && ({
            let e = r->Ok_0->Expanded_0;
            exists|m: DeriveModel|
                #[trigger] spec_collected(m, ident@, data->NamedStruct_0@, sea_attr->Ok_0)
                    && from_query_result_wf(e.from_query_result@, m) && model_trait_wf(
                    e.model_trait,
                    m,
                )
        }),
{
    let ghost gident = ident@;
    let ghost gdata = data;
    let ghost gattr = sea_attr;
    match DeriveModel::new(ident, data, sea_attr) {
        Ok(model) => {
            let e = model.expand();
            proof {
                assert(spec_collected(model, gident, gdata->NamedStruct_0@, gattr->Ok_0));
            }
            Ok(ModelDeriveOutput::Expanded(e))
        },
        Err(DeriveModelError::InputNotStruct) => Ok(
            ModelDeriveOutput::CompileError(
                "you can only derive DeriveModel on structs".to_owned(),
            ),
        ),
        Err(DeriveModelError::Syn(err)) => Err(err),
    }
}

} // verus!
