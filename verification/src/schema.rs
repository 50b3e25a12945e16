//! The route schema: compiles an ordered list of route definitions into the
//! validated, immutable artifact the renderer works from.
//!
//! Compilation is atomic: the first definition whose template does not lex,
//! or whose fields and placeholders disagree, fails the whole batch, and no
//! partial schema is ever produced.

use crate::lexer::{spec_tokenize, tokenize, LexError};
use crate::render::{
    lemma_validated_render_succeeds, render, spec_lookup, spec_render, values_view, RenderError,
};
use crate::token::{placeholder_names, placeholders_of, tokens_view, Token, TokenView};
use crate::validate::{names_view, spec_validate, validate, ValidationError, ValidationErrorView};
use vstd::prelude::*;

verus! {

/// One route definition handed to the compiler: the variant's name, its raw
/// template, and its declared field names in order.
#[derive(Debug, PartialEq, Eq)]
pub struct RouteDef {
    pub name: String,
    pub template: String,
    pub fields: Vec<String>,
}

/// The mathematical shape of a [`RouteDef`].
pub ghost struct RouteDefView {
    pub name: Seq<char>,
    pub template: Seq<char>,
    pub fields: Seq<Seq<char>>,
}

impl View for RouteDef {
    type V = RouteDefView;

    open spec fn view(&self) -> RouteDefView {
        RouteDefView {
            name: self.name@,
            template: self.template@,
            fields: names_view(self.fields@),
        }
    }
}

/// The views of a definition list.
pub open spec fn defs_view(ds: Seq<RouteDef>) -> Seq<RouteDefView> {
    ds.map_values(|d: RouteDef| d@)
}

/// One compiled variant: its name, the ordered tokens of its template, and
/// its declared field names in order.
#[derive(Debug, PartialEq, Eq)]
pub struct Variant {
    pub name: String,
    pub tokens: Vec<Token>,
    pub fields: Vec<String>,
}

/// The mathematical shape of a [`Variant`].
pub ghost struct VariantView {
    pub name: Seq<char>,
    pub tokens: Seq<TokenView>,
    pub fields: Seq<Seq<char>>,
}

impl View for Variant {
    type V = VariantView;

    open spec fn view(&self) -> VariantView {
        VariantView {
            name: self.name@,
            tokens: tokens_view(self.tokens@),
            fields: names_view(self.fields@),
        }
    }
}

/// Why compiling a schema failed, and for which variant.
#[derive(Debug, PartialEq, Eq)]
pub struct CompileError {
    pub variant: String,
    pub kind: CompileErrorKind,
}

/// The failing stage: the variant's template did not lex, or its fields and
/// placeholders disagree.
#[derive(Debug, PartialEq, Eq)]
pub enum CompileErrorKind {
    Lex(LexError),
    Validation(ValidationError),
}

/// The mathematical shape of a [`CompileErrorKind`].
pub ghost enum CompileErrorKindView {
    Lex(LexError),
    Validation(ValidationErrorView),
}

/// The mathematical shape of a [`CompileError`].
pub ghost struct CompileErrorView {
    pub variant: Seq<char>,
    pub kind: CompileErrorKindView,
}

impl View for CompileErrorKind {
    type V = CompileErrorKindView;

    open spec fn view(&self) -> CompileErrorKindView {
        match self {
            CompileErrorKind::Lex(e) => CompileErrorKindView::Lex(*e),
            CompileErrorKind::Validation(e) => CompileErrorKindView::Validation(e@),
        }
    }
}

impl View for CompileError {
    type V = CompileErrorView;

    open spec fn view(&self) -> CompileErrorView {
        CompileErrorView { variant: self.variant@, kind: self.kind@ }
    }
}

/// What compiling one definition owes: the template's tokens, validated
/// against the declared fields.
pub open spec fn spec_compile_one(d: RouteDefView) -> Result<VariantView, CompileErrorKindView> {
    match spec_tokenize(d.template) {
        None => Err(CompileErrorKindView::Lex(LexError::UnmatchedBrace)),
        Some(ts) => match spec_validate(placeholder_names(ts), d.fields) {
            Some(ve) => Err(CompileErrorKindView::Validation(ve)),
            None => Ok(VariantView { name: d.name, tokens: ts, fields: d.fields }),
        },
    }
}

/// What compiling a definition list owes: every variant compiled, in order,
/// or the failure of the first definition that does not compile, named.
pub open spec fn spec_compile(defs: Seq<RouteDefView>) -> Result<Seq<VariantView>, CompileErrorView>
    decreases defs.len(),
{
    if defs.len() == 0 {
        Ok(Seq::<VariantView>::empty())
    } else {
        match spec_compile_one(defs[0]) {
            Err(k) => Err(CompileErrorView { variant: defs[0].name, kind: k }),
            Ok(v) => match spec_compile(defs.skip(1)) {
                Ok(rest) => Ok(seq![v] + rest),
                Err(e) => Err(e),
            },
        }
    }
}

/// A variant is valid when its fields and its placeholders passed the
/// validator.
pub open spec fn variant_valid(v: VariantView) -> bool {
    spec_validate(placeholder_names(v.tokens), v.fields) is None
}

/// The compiled, validated artifact: every variant in it has passed the
/// validator, so the bijection between its fields and its placeholders is an
/// invariant of the type.
#[derive(Debug)]
pub struct Schema {
    variants: Vec<Variant>,
}

impl View for Schema {
    type V = Seq<VariantView>;

    closed spec fn view(&self) -> Seq<VariantView> {
        self.variants@.map_values(|v: Variant| v@)
    }
}

/// The first variant named `name`, scanning from index `j`.
pub open spec fn variant_from(vs: Seq<VariantView>, name: Seq<char>, j: int) -> Option<VariantView>
    decreases vs.len() - j,
{
    if j < 0 || j >= vs.len() {
        None::<VariantView>
    } else if vs[j].name == name {
        Some(vs[j])
    } else {
        variant_from(vs, name, j + 1)
    }
}

/// The first variant named `name`, if any.
pub open spec fn spec_variant(vs: Seq<VariantView>, name: Seq<char>) -> Option<VariantView> {
    variant_from(vs, name, 0)
}

/// Whatever `spec_compile` accepts is validated, variant by variant: the
/// schema invariant holds of every compiled batch.
pub proof fn lemma_compile_validated(defs: Seq<RouteDefView>)
    requires
        spec_compile(defs) is Ok,
    ensures
        forall|i: int| 0 <= i < spec_compile(defs)->Ok_0.len() ==> #[trigger] variant_valid(
            spec_compile(defs)->Ok_0[i],
        ),
    decreases defs.len(),
{
    if defs.len() > 0 {
        lemma_compile_validated(defs.skip(1));
        let v = spec_compile_one(defs[0])->Ok_0;
        let rest = spec_compile(defs.skip(1))->Ok_0;
        assert(spec_compile(defs)->Ok_0 == seq![v] + rest);
        assert(variant_valid(v));
        assert forall|i: int| 0 <= i < spec_compile(defs)->Ok_0.len() implies #[trigger]
            variant_valid(spec_compile(defs)->Ok_0[i]) by {
            if i > 0 {
                assert(spec_compile(defs)->Ok_0[i] == rest[i - 1]);
            }
        }
    }
}

/// A variant that `spec_variant` hands out is one of the list.
proof fn lemma_variant_from_member(vs: Seq<VariantView>, name: Seq<char>, j: int)
    requires
        variant_from(vs, name, j) is Some,
    ensures
        exists|i: int| j <= i < vs.len() && vs[i] == variant_from(vs, name, j)->Some_0,
    decreases vs.len() - j,
{
    if 0 <= j < vs.len() && vs[j].name != name {
        lemma_variant_from_member(vs, name, j + 1);
    }
}

/// The promise eager validation buys at the schema level: in a schema whose
/// variants all passed the validator, any variant that is found renders
/// without a missing value whenever the caller supplies a value for every
/// one of its declared fields.
pub proof fn lemma_schema_render_succeeds(
    vs: Seq<VariantView>,
    name: Seq<char>,
    values: Seq<(Seq<char>, Seq<char>)>,
)
    requires
        forall|i: int| 0 <= i < vs.len() ==> #[trigger] variant_valid(vs[i]),
        spec_variant(vs, name) is Some,
        forall|i: int| 0 <= i < spec_variant(vs, name)->Some_0.fields.len() ==> spec_lookup(
            values,
            spec_variant(vs, name)->Some_0.fields[i],
        ) is Some,
    ensures
        spec_render(spec_variant(vs, name)->Some_0.tokens, values) is Ok,
{
    let v = spec_variant(vs, name)->Some_0;
    lemma_variant_from_member(vs, name, 0);
    assert(variant_valid(v));
    lemma_validated_render_succeeds(v.tokens, v.fields, values);
}

/// Clones a list of owned names.
fn clone_names(names: &Vec<String>) -> (r: Vec<String>)
    ensures
        r@ == names@,
{
    let mut out: Vec<String> = Vec::new();
    let mut i: usize = 0;
    while i < names.len()
        invariant
            i <= names.len(),
            out@ =~= names@.take(i as int),
        decreases names.len() - i,
    {
        out.push(names[i].clone());
        i = i + 1;
    }
    proof {
        assert(names@.take(names@.len() as int) =~= names@);
    }
    out
}

impl Schema {
    /// Every variant of the schema has passed the validator.
    pub open spec fn wf(self) -> bool {
        forall|i: int| 0 <= i < self@.len() ==> #[trigger] variant_valid(self@[i])
    }

    /// Compiles an ordered list of route definitions into a schema: lexes
    /// each template, validates the placeholder names against the declared
    /// fields, and fails the whole batch on the first definition that does
    /// not compile, naming that variant and its failure.
    pub fn compile(defs: &Vec<RouteDef>) -> (r: Result<Schema, CompileError>)
        ensures
            match r {
                Ok(s) => spec_compile(defs_view(defs@)) == Ok::<_, CompileErrorView>(s@)
                    && s.wf(),
                Err(e) => spec_compile(defs_view(defs@)) == Err::<Seq<VariantView>, _>(e@),
            },
    {
        let ghost dv = defs_view(defs@);
        let mut variants: Vec<Variant> = Vec::new();
        let mut i: usize = 0;
        proof {
            assert(dv.skip(0) =~= dv);
            assert(variants@.map_values(|v: Variant| v@) =~= Seq::<VariantView>::empty());
        }
        while i < defs.len()
            invariant
                i <= defs.len(),
                dv == defs_view(defs@),
                match spec_compile(dv.skip(i as int)) {
                    Ok(rest) => spec_compile(dv) == Ok::<_, CompileErrorView>(
                        variants@.map_values(|v: Variant| v@) + rest,
                    ),
                    Err(e) => spec_compile(dv) == Err::<Seq<VariantView>, _>(e),
                },
            decreases defs.len() - i,
        {
            let ghost pre = variants@;
            proof {
                assert(dv.skip(i as int)[0] == dv[i as int]);
                assert(dv.skip(i as int).skip(1) =~= dv.skip(i as int + 1));
            }
            let d = &defs[i];
            let tokens = match tokenize(d.template.as_str()) {
                Ok(tokens) => tokens,
                Err(e) => {
                    return Err(
                        CompileError { variant: d.name.clone(), kind: CompileErrorKind::Lex(e) },
                    );
                },
            };
            let placeholders = placeholders_of(&tokens);
            if let Err(e) = validate(&placeholders, &d.fields) {
                return Err(
                    CompileError {
                        variant: d.name.clone(),
                        kind: CompileErrorKind::Validation(e),
                    },
                );
            }
            let v = Variant { name: d.name.clone(), tokens, fields: clone_names(&d.fields) };
            proof {
                assert(v@ == spec_compile_one(dv[i as int])->Ok_0);
            }
            variants.push(v);
            proof {
                assert(variants@.map_values(|vr: Variant| vr@) =~= pre.map_values(
                    |vr: Variant| vr@,
                ) + seq![v@]);
                if spec_compile(dv.skip(i as int + 1)) is Ok {
                    let rest = spec_compile(dv.skip(i as int + 1))->Ok_0;
                    assert(pre.map_values(|vr: Variant| vr@) + (seq![v@] + rest) =~= variants@
                        .map_values(|vr: Variant| vr@) + rest);
                }
            }
            i = i + 1;
        }
        proof {
            assert(dv.skip(defs@.len() as int) =~= Seq::<RouteDefView>::empty());
            assert(variants@.map_values(|v: Variant| v@) + Seq::<VariantView>::empty()
                =~= variants@.map_values(|v: Variant| v@));
            lemma_compile_validated(dv);
        }
        Ok(Schema { variants })
    }

    /// The number of variants in the schema.
    pub fn len(&self) -> (n: usize)
        ensures
            n == self@.len(),
    {
        self.variants.len()
    }

    /// Renders the variant carrying `name` with the given field values:
    /// `None` when the schema holds no such variant, otherwise the rendering
    /// outcome of that variant's tokens.
    pub fn render_variant(&self, name: &String, values: &Vec<(String, String)>) -> (r: Option<
        Result<String, RenderError>,
    >)
        ensures
            match r {
                None => spec_variant(self@, name@) is None,
                Some(out) => spec_variant(self@, name@) matches Some(v) && (match out {
                    Ok(url) => spec_render(v.tokens, values_view(values@)) == Ok::<
                        Seq<char>,
                        Seq<char>,
                    >(url@),
                    Err(e) => e matches RenderError::MissingValue(n) && spec_render(
                        v.tokens,
                        values_view(values@),
                    ) == Err::<Seq<char>, Seq<char>>(n@),
                }),
            },
    {
        match self.variant(name) {
            None => None,
            Some(v) => Some(render(&v.tokens, values)),
        }
    }

    /// The first variant carrying `name`, if any.
    pub fn variant<'s>(&'s self, name: &String) -> (r: Option<&'s Variant>)
        ensures
            match r {
                Some(v) => spec_variant(self@, name@) == Some(v@),
                None => spec_variant(self@, name@) is None,
            },
    {
        let ghost sv = self@;
        let mut j: usize = 0;
        while j < self.variants.len()
            invariant
                j <= self.variants.len(),
                sv == self@,
                sv.len() == self.variants@.len(),
                forall|k: int| 0 <= k < sv.len() ==> sv[k] == self.variants@[k]@,
                spec_variant(sv, name@) == variant_from(sv, name@, j as int),
            decreases self.variants.len() - j,
        {
            let v = &self.variants[j];
            if v.name == *name {
                return Some(v);
            }
            j = j + 1;
        }
        None
    }
}

} // verus!
