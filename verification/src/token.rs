//! The token alphabet shared by the lexer, the validator and the renderer.

use crate::validate::names_view;
use vstd::prelude::*;

verus! {

/// One piece of a template: either raw text to emit verbatim, or the name of
/// a field whose value is substituted at render time.
#[derive(Debug, PartialEq, Eq)]
pub enum Token {
    Literal(String),
    Placeholder(String),
}

/// The mathematical shape of a [`Token`]: the same two variants, carrying the
/// character sequence instead of the executable string.
pub ghost enum TokenView {
    Literal(Seq<char>),
    Placeholder(Seq<char>),
}

impl View for Token {
    type V = TokenView;

    open spec fn view(&self) -> TokenView {
        match self {
            Token::Literal(s) => TokenView::Literal(s@),
            Token::Placeholder(s) => TokenView::Placeholder(s@),
        }
    }
}

/// The views of a produced token sequence.
pub open spec fn tokens_view(ts: Seq<Token>) -> Seq<TokenView> {
    ts.map_values(|t: Token| t@)
}

/// The names of the placeholders among `ts`, in template order; literals
/// contribute nothing.
pub open spec fn placeholder_names(ts: Seq<TokenView>) -> Seq<Seq<char>>
    decreases ts.len(),
{
    if ts.len() == 0 {
        Seq::<Seq<char>>::empty()
    } else {
        match ts[0] {
            TokenView::Literal(_) => placeholder_names(ts.skip(1)),
            TokenView::Placeholder(n) => seq![n] + placeholder_names(ts.skip(1)),
        }
    }
}

/// Collects the placeholder names of a token sequence, in order, as owned
/// copies.
pub fn placeholders_of(tokens: &Vec<Token>) -> (r: Vec<String>)
    ensures
        names_view(r@) == placeholder_names(tokens_view(tokens@)),
{
    let ghost tv = tokens_view(tokens@);
    let mut out: Vec<String> = Vec::new();
    let mut i: usize = 0;
    proof {
        assert(names_view(out@) =~= Seq::<Seq<char>>::empty());
        assert(tv.skip(0) =~= tv);
    }
    while i < tokens.len()
        invariant
            i <= tokens.len(),
            tv == tokens_view(tokens@),
            names_view(out@) + placeholder_names(tv.skip(i as int))
                == placeholder_names(tv),
        decreases tokens.len() - i,
    {
        let ghost pre = out@;
        proof {
            assert(tv.skip(i as int)[0] == tv[i as int]);
            assert(tv.skip(i as int).skip(1) =~= tv.skip(i as int + 1));
        }
        let t = &tokens[i];
        match t {
            Token::Literal(_) => {},
            Token::Placeholder(n) => {
                out.push(n.clone());
                proof {
                    assert(names_view(out@) =~= names_view(pre)
                        + seq![n@]);
                    assert(names_view(pre) + (seq![n@] + placeholder_names(
                        tv.skip(i as int + 1),
                    )) =~= names_view(out@) + placeholder_names(
                        tv.skip(i as int + 1),
                    ));
                }
            },
        }
        i = i + 1;
    }
    proof {
        assert(tv.skip(tokens@.len() as int) =~= Seq::<TokenView>::empty());
        assert(names_view(out@) + Seq::<Seq<char>>::empty() =~= names_view(out@));
    }
    out
}

} // verus!
