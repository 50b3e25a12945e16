//! The template lexer: turns one raw template string into a stream of
//! [`Token`]s.
//!
//! Templates use `{name}` for a placeholder and `{{` for an escaped literal
//! `{`; there is no escape for `}` outside a placeholder. A template that
//! ends right after an opening `{` produces a trailing literal `{`. A
//! placeholder's name is everything between its braces, up to the nearest
//! `}`: it may be empty (`{}`), and it never holds a `}`.

use crate::token::{tokens_view, Token, TokenView};
use vstd::prelude::*;
use vstd::string::StrSliceExecFns;

verus! {

/// Lexing failure: a `{` was opened and neither a second `{` nor a closing
/// `}` follows before the end of the template.
#[derive(Debug, Clone, Copy, PartialEq, Eq)]
pub enum LexError {
    UnmatchedBrace,
}

/// The two scanning modes: ordinary text, or the inside of an opened `{`.
#[derive(Debug, Clone, Copy, PartialEq, Eq)]
pub enum LexerState {
    Normal,
    Parenthesized,
}

/// The least index `j` with `i <= j < s.len()` at which `c` occurs in `s`,
/// if any.
pub open spec fn find_from(s: Seq<char>, c: char, i: int) -> Option<int>
    decreases s.len() - i,
{
    if i < 0 || i >= s.len() {
        None::<int>
    } else if s[i] == c {
        Some(i)
    } else {
        find_from(s, c, i + 1)
    }
}

/// What `find_from` returns is the least occurrence of `c` at or after `i`.
pub proof fn lemma_find_from(s: Seq<char>, c: char, i: int)
    requires
        0 <= i <= s.len(),
    ensures
        match find_from(s, c, i) {
            Some(j) => i <= j < s.len() && s[j] == c && (forall|k: int|
                i <= k < j ==> s[k] != c),
            None => forall|k: int| i <= k < s.len() ==> s[k] != c,
        },
    decreases s.len() - i,
{
    if i < s.len() && s[i] != c {
        lemma_find_from(s, c, i + 1);
    }
}

/// If `c` first occurs at `j`, then `find_from` returns `Some(j)`.
pub proof fn lemma_find_from_exact(s: Seq<char>, c: char, i: int, j: int)
    requires
        0 <= i <= j < s.len(),
        s[j] == c,
        forall|k: int| i <= k < j ==> s[k] != c,
    ensures
        find_from(s, c, i) == Some(j),
    decreases j - i,
{
    if i < j {
        lemma_find_from_exact(s, c, i + 1, j);
    }
}

/// If `c` does not occur at or after `i`, then `find_from` returns `None`.
pub proof fn lemma_find_from_none(s: Seq<char>, c: char, i: int)
    requires
        0 <= i <= s.len(),
        forall|k: int| i <= k < s.len() ==> s[k] != c,
    ensures
        find_from(s, c, i) == None::<int>,
    decreases s.len() - i,
{
    if i < s.len() {
        lemma_find_from_none(s, c, i + 1);
    }
}

/// The tokens that lexing yields from the characters `s`, entered in mode
/// `st`; `None` means the unmatched-brace failure.
pub open spec fn spec_lex(s: Seq<char>, st: LexerState) -> Option<Seq<TokenView>>
    decreases s.len(),
        via spec_lex_decreases
{
    match st {
        LexerState::Normal => {
            if s.len() == 0 {
                Some(Seq::<TokenView>::empty())
            } else if s[0] == '{' {
                spec_lex(s.skip(1), LexerState::Parenthesized)
            } else {
                let j = match find_from(s, '{', 1) {
                    Some(j) => j,
                    None => s.len() as int,
                };
                match spec_lex(s.skip(j), LexerState::Normal) {
                    Some(rest) => Some(seq![TokenView::Literal(s.take(j))] + rest),
                    None => None::<Seq<TokenView>>,
                }
            }
        },
        LexerState::Parenthesized => {
            if s.len() == 0 {
                Some(seq![TokenView::Literal(seq!['{'])])
            } else if s[0] == '{' {
                match spec_lex(s.skip(1), LexerState::Normal) {
                    Some(rest) => Some(seq![TokenView::Literal(seq!['{'])] + rest),
                    None => None::<Seq<TokenView>>,
                }
            } else {
                match find_from(s, '}', 0) {
                    Some(j) => match spec_lex(s.skip(j + 1), LexerState::Normal) {
                        Some(rest) => Some(seq![TokenView::Placeholder(s.take(j))] + rest),
                        None => None::<Seq<TokenView>>,
                    },
                    None => None::<Seq<TokenView>>,
                }
            }
        },
    }
}

#[via_fn]
proof fn spec_lex_decreases(s: Seq<char>, st: LexerState) {
    match st {
        LexerState::Normal => {
            if s.len() > 0 && s[0] != '{' {
                lemma_find_from(s, '{', 1);
            }
        },
        LexerState::Parenthesized => {
            if s.len() > 0 && s[0] != '{' {
                lemma_find_from(s, '}', 0);
            }
        },
    }
}

/// The tokens of a whole template, or `None` on an unmatched brace.
pub open spec fn spec_tokenize(s: Seq<char>) -> Option<Seq<TokenView>> {
    spec_lex(s, LexerState::Normal)
}

/// The token the head of the stream yields from the characters `s` in mode
/// `st`: `None` both at the end of the template and when the head itself is
/// an unmatched brace.
pub open spec fn first_token(s: Seq<char>, st: LexerState) -> Option<TokenView>
    decreases s.len(),
{
    match st {
        LexerState::Normal => {
            if s.len() == 0 {
                None::<TokenView>
            } else if s[0] == '{' {
                first_token(s.skip(1), LexerState::Parenthesized)
            } else {
                let j = match find_from(s, '{', 1) {
                    Some(j) => j,
                    None => s.len() as int,
                };
                Some(TokenView::Literal(s.take(j)))
            }
        },
        LexerState::Parenthesized => {
            if s.len() == 0 || s[0] == '{' {
                Some(TokenView::Literal(seq!['{']))
            } else {
                match find_from(s, '}', 0) {
                    Some(j) => Some(TokenView::Placeholder(s.take(j))),
                    None => None::<TokenView>,
                }
            }
        },
    }
}

/// The lexer's remaining input and mode after one call that starts from the
/// characters `s` in mode `st`: the head token's characters are consumed;
/// where there is no token to hand out (the end of the template, or an
/// unmatched brace at the head), nothing is.
pub open spec fn lex_after(s: Seq<char>, st: LexerState) -> (Seq<char>, LexerState)
    decreases s.len(),
{
    match st {
        LexerState::Normal => {
            if s.len() == 0 {
                (s, LexerState::Normal)
            } else if s[0] == '{' {
                lex_after(s.skip(1), LexerState::Parenthesized)
            } else {
                let j = match find_from(s, '{', 1) {
                    Some(j) => j,
                    None => s.len() as int,
                };
                (s.skip(j), LexerState::Normal)
            }
        },
        LexerState::Parenthesized => {
            if s.len() == 0 {
                (s, LexerState::Normal)
            } else if s[0] == '{' {
                (s.skip(1), LexerState::Normal)
            } else {
                match find_from(s, '}', 0) {
                    Some(j) => (s.skip(j + 1), LexerState::Normal),
                    None => (s, LexerState::Parenthesized),
                }
            }
        },
    }
}

/// A bound that shrinks with every token the lexer hands out.
pub open spec fn lex_measure(s: Seq<char>, st: LexerState) -> int {
    2 * s.len() + (if st is Parenthesized {
        1int
    } else {
        0int
    })
}

/// What one call of `Lexer::next` did: the state after the call is exactly
/// `lex_after` of the state before it, and the token or failure returned is
/// pinned by `first_token` and `spec_lex` of the state before it.
pub open spec fn lex_step(
    before: Seq<char>,
    bm: LexerState,
    after: Seq<char>,
    am: LexerState,
    r: Result<Option<Token>, LexError>,
) -> bool {
    &&& (after, am) == lex_after(before, bm)
    &&& match r {
        Ok(Some(t)) => {
            &&& first_token(before, bm) == Some(t@)
            &&& spec_lex(before, bm) == (match spec_lex(after, am) {
                Some(rest) => Some(seq![t@] + rest),
                None => None::<Seq<TokenView>>,
            })
            &&& lex_measure(after, am) < lex_measure(before, bm)
        },
        Ok(None) => spec_lex(before, bm) == Some(Seq::<TokenView>::empty()),
        Err(e) => {
            &&& first_token(before, bm) is None
            &&& spec_lex(before, bm) is None
            &&& e == LexError::UnmatchedBrace
        },
    }
}

/// Streaming lexer over one template string.
pub struct Lexer<'src> {
    src: &'src str,
    pos: usize,
    len: usize,
    state: LexerState,
}

impl<'src> Lexer<'src> {
    /// The characters not yet consumed.
    pub closed spec fn remaining(self) -> Seq<char> {
        self.src@.skip(self.pos as int)
    }

    /// The scanning mode the lexer is in.
    pub closed spec fn mode(self) -> LexerState {
        self.state
    }

    /// The cached character count agrees with the source and the cursor is
    /// inside it.
    pub closed spec fn wf(self) -> bool {
        self.len == self.src@.len() && self.pos <= self.len
    }

    /// A fresh lexer at the start of `src`, in normal mode.
    pub fn new(src: &'src str) -> (l: Lexer<'src>)
        ensures
            l.wf(),
            l.remaining() == src@,
            l.mode() == LexerState::Normal,
    {
        let len = src.unicode_len();
        let l = Lexer { src, pos: 0, len, state: LexerState::Normal };
        proof {
            assert(l.remaining() =~= src@);
        }
        l
    }

    /// Hands out the next token: `Ok(None)` at the end of the template,
    /// `Err(UnmatchedBrace)` when the rest of the template cannot lex.
    pub fn next(&mut self) -> (r: Result<Option<Token>, LexError>)
        requires
            old(self).wf(),
        ensures
            final(self).wf(),
            lex_step(
                old(self).remaining(),
                old(self).mode(),
                final(self).remaining(),
                final(self).mode(),
                r,
            ),
    {
        match self.state {
            LexerState::Normal => self.next_normal(),
            LexerState::Parenthesized => self.next_parenthesized(),
        }
    }

    fn next_normal(&mut self) -> (r: Result<Option<Token>, LexError>)
        requires
            old(self).wf(),
            old(self).mode() == LexerState::Normal,
        ensures
            final(self).wf(),
            lex_step(
                old(self).remaining(),
                LexerState::Normal,
                final(self).remaining(),
                final(self).mode(),
                r,
            ),
    {
        let ghost before = self.remaining();
        if self.pos == self.len {
            proof {
                assert(before.len() == 0);
            }
            return Ok(None);
        }
        let c = self.src.get_char(self.pos);
        if c == '{' {
            self.pos = self.pos + 1;
            self.state = LexerState::Parenthesized;
            proof {
                assert(self.remaining() =~= before.skip(1));
            }
            let r = self.next_parenthesized();
            return r;
        }
        let s: &str = self.src;
        let len = self.len;
        let start = self.pos;
        let mut j = start + 1;
        loop
            invariant
                len == s@.len(),
                start < len,
                start < j <= len,
                forall|k: int| start < k < j ==> s@[k] != '{',
            ensures
                start < j <= len,
                forall|k: int| start < k < j ==> s@[k] != '{',
                j == len || s@[j as int] == '{',
            decreases len - j,
        {
            if j == len {
                break;
            }
            if s.get_char(j) == '{' {
                break;
            }
            j = j + 1;
        }
        let lit = s.substring_char(start, j);
        let text = lit.to_owned();
        self.pos = j;
        proof {
            let jr = j - start;
            if j < len {
                lemma_find_from_exact(before, '{', 1, jr);
            } else {
                lemma_find_from_none(before, '{', 1);
            }
            assert(self.remaining() =~= before.skip(jr));
            assert(text@ =~= before.take(jr));
        }
        Ok(Some(Token::Literal(text)))
    }

    fn next_parenthesized(&mut self) -> (r: Result<Option<Token>, LexError>)
        requires
            old(self).wf(),
            old(self).mode() == LexerState::Parenthesized,
        ensures
            final(self).wf(),
            lex_step(
                old(self).remaining(),
                LexerState::Parenthesized,
                final(self).remaining(),
                final(self).mode(),
                r,
            ),
    {
        let ghost before = self.remaining();
        proof {
            reveal_strlit("{");
        }
        if self.pos == self.len {
            // the template ended right after the `{`: a trailing literal `{`
            self.state = LexerState::Normal;
            let text = "{".to_owned();
            proof {
                assert(before.len() == 0);
                assert(text@ =~= seq!['{']);
                assert(seq![TokenView::Literal(text@)] + Seq::<TokenView>::empty() =~= seq![
                    TokenView::Literal(seq!['{']),
                ]);
            }
            return Ok(Some(Token::Literal(text)));
        }
        let c = self.src.get_char(self.pos);
        if c == '{' {
            // the escape `{{`: a single literal `{`
            self.pos = self.pos + 1;
            self.state = LexerState::Normal;
            let text = "{".to_owned();
            proof {
                assert(text@ =~= seq!['{']);
                assert(self.remaining() =~= before.skip(1));
            }
            return Ok(Some(Token::Literal(text)));
        }
        let s: &str = self.src;
        let len = self.len;
        let start = self.pos;
        let mut j = start;
        loop
            invariant
                len == s@.len(),
                start < len,
                start <= j <= len,
                forall|k: int| start <= k < j ==> s@[k] != '}',
            ensures
                start <= j <= len,
                forall|k: int| start <= k < j ==> s@[k] != '}',
                j == len || s@[j as int] == '}',
            decreases len - j,
        {
            if j == len {
                break;
            }
            if s.get_char(j) == '}' {
                break;
            }
            j = j + 1;
        }
        if j == len {
            proof {
                lemma_find_from_none(before, '}', 0);
            }
            return Err(LexError::UnmatchedBrace);
        }
        let name = s.substring_char(start, j).to_owned();
        self.pos = j + 1;
        self.state = LexerState::Normal;
        proof {
            let jr = j - start;
            lemma_find_from_exact(before, '}', 0, jr);
            assert(self.remaining() =~= before.skip(jr + 1));
            assert(name@ =~= before.take(jr));
        }
        Ok(Some(Token::Placeholder(name)))
    }
}

/// Lexes a whole template: `Ok` with the full token sequence, or
/// `Err(UnmatchedBrace)` exactly when the template has a `{` that neither a
/// second `{` nor a later `}` closes.
pub fn tokenize(template: &str) -> (r: Result<Vec<Token>, LexError>)
    ensures
        match r {
            Ok(ts) => spec_tokenize(template@) == Some(tokens_view(ts@)),
            Err(e) => spec_tokenize(template@) is None && e == LexError::UnmatchedBrace,
        },
{
    let mut lexer = Lexer::new(template);
    let mut tokens: Vec<Token> = Vec::new();
    proof {
        assert(tokens_view(tokens@) =~= Seq::<TokenView>::empty());
    }
    loop
        invariant
            lexer.wf(),
            match spec_lex(lexer.remaining(), lexer.mode()) {
                Some(rest) => spec_tokenize(template@) == Some(tokens_view(tokens@) + rest),
                None => spec_tokenize(template@) is None,
            },
        ensures
            match spec_lex(lexer.remaining(), lexer.mode()) {
                Some(rest) => spec_tokenize(template@) == Some(tokens_view(tokens@) + rest),
                None => spec_tokenize(template@) is None,
            },
        decreases lex_measure(lexer.remaining(), lexer.mode()),
    {
        let ghost pre_tokens = tokens@;
        match lexer.next() {
            Ok(Some(t)) => {
                tokens.push(t);
                proof {
                    assert(tokens_view(tokens@) =~= tokens_view(pre_tokens) + seq![t@]);
                    if spec_lex(lexer.remaining(), lexer.mode()) is Some {
                        let rest = spec_lex(lexer.remaining(), lexer.mode())->Some_0;
                        assert(tokens_view(pre_tokens) + (seq![t@] + rest) =~= tokens_view(
                            tokens@,
                        ) + rest);
                    }
                }
            },
            Ok(None) => {
                proof {
                    assert(tokens_view(tokens@) + Seq::<TokenView>::empty() =~= tokens_view(
                        tokens@,
                    ));
                }
                return Ok(tokens);
            },
            Err(e) => {
                return Err(e);
            },
        }
    }
}

/// The shape of every token the lexer hands out: a literal is nonempty and
/// is either the single escaped `{` or free of `{`; a placeholder name is
/// free of `}`.
pub proof fn lemma_first_token_shape(s: Seq<char>, st: LexerState)
    ensures
        match first_token(s, st) {
            Some(t) => match t {
                TokenView::Literal(x) => x.len() > 0 && (x == seq!['{'] || (forall|k: int|
                    0 <= k < x.len() ==> x[k] != '{')),
                TokenView::Placeholder(n) => forall|k: int| 0 <= k < n.len() ==> n[k] != '}',
            },
            None => true,
        },
    decreases s.len(),
{
    match st {
        LexerState::Normal => {
            if s.len() > 0 {
                if s[0] == '{' {
                    lemma_first_token_shape(s.skip(1), LexerState::Parenthesized);
                } else {
                    lemma_find_from(s, '{', 1);
                }
            }
        },
        LexerState::Parenthesized => {
            if s.len() > 0 && s[0] != '{' {
                lemma_find_from(s, '}', 0);
            }
        },
    }
}

/// For a template without any `{`, the token stream is one literal holding
/// the whole template, or is empty when the template is empty.
pub proof fn lemma_tokenize_no_brace(s: Seq<char>)
    requires
        forall|k: int| 0 <= k < s.len() ==> s[k] != '{',
    ensures
        s.len() == 0 ==> spec_tokenize(s) == Some(Seq::<TokenView>::empty()),
        s.len() > 0 ==> spec_tokenize(s) == Some(seq![TokenView::Literal(s)]),
{
    if s.len() > 0 {
        lemma_find_from_none(s, '{', 1);
        assert(s.skip(s.len() as int) =~= Seq::<char>::empty());
        assert(s.take(s.len() as int) =~= s);
        assert(spec_lex(Seq::<char>::empty(), LexerState::Normal) == Some(
            Seq::<TokenView>::empty(),
        ));
        assert(spec_tokenize(s) == Some(
            seq![TokenView::Literal(s)] + Seq::<TokenView>::empty(),
        ));
        assert(seq![TokenView::Literal(s)] + Seq::<TokenView>::empty() =~= seq![
            TokenView::Literal(s),
        ]);
    }
}

} // verus!
