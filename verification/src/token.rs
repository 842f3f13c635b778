//! Tokens as the analysis sees them: a kind and the raw text, in source order.
use vstd::prelude::*;

verus! {

/// Kind of a lexed token, as far as the import analysis distinguishes them.
/// Keywords, numbers and anything else the lexer may produce fall under
/// `Other`: the scanner only ever treats identifiers, string literals,
/// symbols and comments specially.
#[derive(Clone, Copy, Debug, PartialEq, Eq, Structural)]
pub enum TokenKind {
    Identifier,
    StringLiteral,
    Symbol,
    Comment,
    Other,
}

/// One token of a source file: its kind and its raw text. For string
/// literals the text still carries the surrounding quote characters,
/// exactly as lexed.
#[derive(Debug)]
pub struct Token {
    pub kind: TokenKind,
    pub text: String,
}

/// Mathematical image of a `Token`: the kind and the text as a character
/// sequence.
pub ghost struct TokenView {
    pub kind: TokenKind,
    pub text: Seq<char>,
}

impl View for Token {
    type V = TokenView;

    open spec fn view(&self) -> TokenView {
        TokenView { kind: self.kind, text: self.text@ }
    }
}

impl DeepView for Token {
    type V = TokenView;

    open spec fn deep_view(&self) -> TokenView {
        self@
    }
}

impl Clone for Token {
    fn clone(&self) -> (r: Token)
        ensures
            r@ == self@,
    {
        Token { kind: self.kind, text: self.text.clone() }
    }
}

/// The tokens that carry meaning for the analysis: everything but comments.
pub open spec fn semantic_tokens(tokens: Seq<TokenView>) -> Seq<TokenView> {
    tokens.filter(|t: TokenView| t.kind != TokenKind::Comment)
}

/// Removes every comment token, preserving the relative order and the
/// content of all remaining tokens.
pub fn filter_comments(tokens: &Vec<Token>) -> (r: Vec<Token>)
    ensures
        r.deep_view() == semantic_tokens(tokens.deep_view()),
{
    let ghost all = tokens.deep_view();
    let mut out: Vec<Token> = Vec::new();
    let mut i: usize = 0;
    while i < tokens.len()
        invariant
            i <= tokens.len(),
            all == tokens.deep_view(),
            out.deep_view() == semantic_tokens(all.subrange(0, i as int)),
        decreases tokens.len() - i,
    {
        proof {
            reveal(Seq::filter);
            assert(all.subrange(0, i + 1).drop_last() =~= all.subrange(0, i as int));
            assert(all.subrange(0, i + 1).last() == all[i as int]);
        }
        if !matches!(tokens[i].kind, TokenKind::Comment) {
            out.push(tokens[i].clone());
        }
        proof {
            reveal(Seq::filter);
            assert(out.deep_view() =~= semantic_tokens(all.subrange(0, i + 1)));
        }
        i = i + 1;
    }
    proof {
        assert(all.subrange(0, tokens.len() as int) =~= all);
    }
    out
}

} // verus!
