//! The URL renderer: walks a variant's compiled tokens in order, emitting
//! literals verbatim and substituting each placeholder with the value
//! supplied for its field. Values are inserted as their plain textual form;
//! no URL-encoding is performed.

use crate::token::{placeholder_names, tokens_view, Token, TokenView};
use crate::validate::{lemma_validate_bijection, name_in, spec_validate};
use vstd::prelude::*;
use vstd::string::StringExecFns;

verus! {

/// Render failure: the values supplied omit a field that a placeholder in
/// the compiled tokens requires.
#[derive(Debug, PartialEq, Eq)]
pub enum RenderError {
    MissingValue(String),
}

/// The views of a value list: pairs of field name and textual value.
pub open spec fn values_view(vs: Seq<(String, String)>) -> Seq<(Seq<char>, Seq<char>)> {
    vs.map_values(|p: (String, String)| (p.0@, p.1@))
}

/// The value of the first pair listed under `name`, scanning from index `j`.
pub open spec fn lookup_from(
    values: Seq<(Seq<char>, Seq<char>)>,
    name: Seq<char>,
    j: int,
) -> Option<Seq<char>>
    decreases values.len() - j,
{
    if j < 0 || j >= values.len() {
        None::<Seq<char>>
    } else if values[j].0 == name {
        Some(values[j].1)
    } else {
        lookup_from(values, name, j + 1)
    }
}

/// The value of the first pair listed under `name`, if any.
pub open spec fn spec_lookup(values: Seq<(Seq<char>, Seq<char>)>, name: Seq<char>) -> Option<
    Seq<char>,
> {
    lookup_from(values, name, 0)
}

/// The string a rendering owes: each literal verbatim, each placeholder's
/// value, in token order; `Err` carries the name of the first placeholder
/// (in token order) that has no value.
pub open spec fn spec_render(
    ts: Seq<TokenView>,
    values: Seq<(Seq<char>, Seq<char>)>,
) -> Result<Seq<char>, Seq<char>>
    decreases ts.len(),
{
    if ts.len() == 0 {
        Ok(Seq::<char>::empty())
    } else {
        match ts[0] {
            TokenView::Literal(t) => match spec_render(ts.skip(1), values) {
                Ok(rest) => Ok(t + rest),
                Err(e) => Err(e),
            },
            TokenView::Placeholder(n) => match spec_lookup(values, n) {
                None => Err(n),
                Some(v) => match spec_render(ts.skip(1), values) {
                    Ok(rest) => Ok(v + rest),
                    Err(e) => Err(e),
                },
            },
        }
    }
}

/// The first value listed under `name`, if any.
fn lookup_value<'v>(values: &'v Vec<(String, String)>, name: &String) -> (r: Option<&'v String>)
    ensures
        match r {
            Some(v) => spec_lookup(values_view(values@), name@) == Some(v@),
            None => spec_lookup(values_view(values@), name@) is None,
        },
{
    let ghost vv = values_view(values@);
    let mut j: usize = 0;
    while j < values.len()
        invariant
            j <= values.len(),
            vv == values_view(values@),
            spec_lookup(vv, name@) == lookup_from(vv, name@, j as int),
        decreases values.len() - j,
    {
        let pair = &values[j];
        proof {
            assert(vv[j as int] == (values@[j as int].0@, values@[j as int].1@));
        }
        if pair.0 == *name {
            return Some(&pair.1);
        }
        j = j + 1;
    }
    None
}

/// Renders compiled tokens against supplied field values: literals verbatim,
/// placeholders by lookup, failing fast on the first placeholder whose field
/// has no value.
pub fn render(tokens: &Vec<Token>, values: &Vec<(String, String)>) -> (r: Result<
    String,
    RenderError,
>)
    ensures
        match r {
            Ok(s) => spec_render(tokens_view(tokens@), values_view(values@)) == Ok::<
                Seq<char>,
                Seq<char>,
            >(s@),
            Err(e) => e matches RenderError::MissingValue(n) && spec_render(
                tokens_view(tokens@),
                values_view(values@),
            ) == Err::<Seq<char>, Seq<char>>(n@),
        },
{
    let ghost tv = tokens_view(tokens@);
    let ghost vv = values_view(values@);
    let mut out = String::new();
    let mut i: usize = 0;
    proof {
        assert(tv.skip(0) =~= tv);
    }
    while i < tokens.len()
        invariant
            i <= tokens.len(),
            tv == tokens_view(tokens@),
            vv == values_view(values@),
            match spec_render(tv.skip(i as int), vv) {
                Ok(rest) => spec_render(tv, vv) == Ok::<Seq<char>, Seq<char>>(out@ + rest),
                Err(e) => spec_render(tv, vv) == Err::<Seq<char>, Seq<char>>(e),
            },
        decreases tokens.len() - i,
    {
        let ghost pre = out@;
        proof {
            assert(tv.skip(i as int)[0] == tv[i as int]);
            assert(tv.skip(i as int).skip(1) =~= tv.skip(i as int + 1));
        }
        let t = &tokens[i];
        match t {
            Token::Literal(text) => {
                out.append(text.as_str());
                proof {
                    if spec_render(tv.skip(i as int + 1), vv) is Ok {
                        let rest = spec_render(tv.skip(i as int + 1), vv)->Ok_0;
                        assert(pre + (text@ + rest) =~= out@ + rest);
                    }
                }
            },
            Token::Placeholder(name) => {
                match lookup_value(values, name) {
                    Some(v) => {
                        out.append(v.as_str());
                        proof {
                            if spec_render(tv.skip(i as int + 1), vv) is Ok {
                                let rest = spec_render(tv.skip(i as int + 1), vv)->Ok_0;
                                let value = spec_lookup(vv, name@)->Some_0;
                                assert(pre + (value + rest) =~= out@ + rest);
                            }
                        }
                    },
                    None => {
                        return Err(RenderError::MissingValue(name.clone()));
                    },
                }
            },
        }
        i = i + 1;
    }
    proof {
        assert(tv.skip(tokens@.len() as int) =~= Seq::<TokenView>::empty());
        assert(out@ + Seq::<char>::empty() =~= out@);
    }
    Ok(out)
}

/// Rendering is deterministic: the renderer's contract pins its result to
/// `spec_render`, a function of the tokens and the values alone, so two
/// successful renderings of the same inputs are the same string.
pub proof fn lemma_render_deterministic(
    ts: Seq<TokenView>,
    values: Seq<(Seq<char>, Seq<char>)>,
    s1: Seq<char>,
    s2: Seq<char>,
)
    requires
        spec_render(ts, values) == Ok::<Seq<char>, Seq<char>>(s1),
        spec_render(ts, values) == Ok::<Seq<char>, Seq<char>>(s2),
    ensures
        s1 == s2,
{
}

/// When every placeholder name of the tokens has a value, rendering
/// succeeds.
pub proof fn lemma_render_total(ts: Seq<TokenView>, values: Seq<(Seq<char>, Seq<char>)>)
    requires
        forall|i: int| 0 <= i < placeholder_names(ts).len() ==> spec_lookup(
            values,
            placeholder_names(ts)[i],
        ) is Some,
    ensures
        spec_render(ts, values) is Ok,
    decreases ts.len(),
{
    if ts.len() > 0 {
        match ts[0] {
            TokenView::Literal(_) => {
                assert(placeholder_names(ts) == placeholder_names(ts.skip(1)));
                lemma_render_total(ts.skip(1), values);
            },
            TokenView::Placeholder(n) => {
                assert(placeholder_names(ts) == seq![n] + placeholder_names(ts.skip(1)));
                assert(placeholder_names(ts)[0] == n);
                assert(spec_lookup(values, n) is Some);
                assert forall|i: int| 0 <= i < placeholder_names(ts.skip(1)).len() implies
                    spec_lookup(values, placeholder_names(ts.skip(1))[i]) is Some by {
                    assert(placeholder_names(ts)[i + 1] == placeholder_names(ts.skip(1))[i]);
                    assert(spec_lookup(values, placeholder_names(ts)[i + 1]) is Some);
                }
                lemma_render_total(ts.skip(1), values);
            },
        }
    }
}

/// The render-time guarantee the validator buys: a token sequence that
/// passed the validator against some field list renders without a missing
/// value whenever the caller supplies a value for every declared field.
pub proof fn lemma_validated_render_succeeds(
    ts: Seq<TokenView>,
    fields: Seq<Seq<char>>,
    values: Seq<(Seq<char>, Seq<char>)>,
)
    requires
        spec_validate(placeholder_names(ts), fields) is None,
        forall|i: int| 0 <= i < fields.len() ==> spec_lookup(values, fields[i]) is Some,
    ensures
        spec_render(ts, values) is Ok,
{
    lemma_validate_bijection(placeholder_names(ts), fields);
    let pn = placeholder_names(ts);
    assert forall|i: int| 0 <= i < pn.len() implies spec_lookup(values, pn[i]) is Some by {
        assert(name_in(fields, pn[i]));
        let j = choose|j: int| 0 <= j < fields.len() && fields[j] == pn[i];
        assert(spec_lookup(values, fields[j]) is Some);
    }
    lemma_render_total(ts, values);
}

} // verus!
