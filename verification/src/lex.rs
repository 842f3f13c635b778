//! The lexer collaborator: turning a source text into the token stream the
//! analysis works on. Tokenizing itself is the outside lexer's job; this
//! module only converts its tokens and its error into the library's types.
use vstd::prelude::*;

use crate::token::Token;
use crate::token::TokenKind;
use crate::token::TokenView;
use lualexer::FastLexer;
use lualexer::LexerErrorType;
use lualexer::TokenType;

verus! {

/// Why the lexer gave up on a file.
#[derive(Clone, Copy, Debug, PartialEq, Eq, Structural)]
pub enum LexErrorKind {
    MalformedNumber,
    UnfinishedString,
    UnexpectedSymbol,
}

/// A failed tokenization: the kind of lexical fault, and the text the
/// lexer handed back with it — the whole input it was given, not merely
/// the part after the fault.
#[derive(Debug)]
pub struct LexFailure {
    pub kind: LexErrorKind,
    pub input: String,
}

/// Mathematical image of a `LexFailure`.
pub ghost struct LexFailureView {
    pub kind: LexErrorKind,
    pub input: Seq<char>,
}

impl View for LexFailure {
    type V = LexFailureView;

    open spec fn view(&self) -> LexFailureView {
        LexFailureView { kind: self.kind, input: self.input@ }
    }
}

impl DeepView for LexFailure {
    type V = LexFailureView;

    open spec fn deep_view(&self) -> LexFailureView {
        self@
    }
}

/// What tokenizing a source text comes to: the token stream in source
/// order, or the lexical fault the lexer stopped at. Tokenizing is a pure
/// function of the source text alone, so the result bears a name that the
/// rest of the analysis is stated over.
pub uninterp spec fn lua_tokens(source: Seq<char>) -> Result<Seq<TokenView>, LexFailureView>;

/// The view of a tokenization result, member for member.
pub open spec fn lex_result_view(r: Result<Vec<Token>, LexFailure>) -> Result<
    Seq<TokenView>,
    LexFailureView,
> {
    match r {
        Ok(tokens) => Ok(tokens.deep_view()),
        Err(failure) => Err(failure@),
    }
}

/// Relies on lualexer's `FastLexer::parse`: it tokenizes the given text,
/// skipping whitespace, and its result depends on that text alone. Token
/// kinds map one for one onto the library's kinds, with keywords, numbers
/// and anything else as `Other`; a token's content is kept exactly as
/// lexed, quotes included.
#[verifier::external_body]
pub(crate) fn tokenize(source: &str) -> (r: Result<Vec<Token>, LexFailure>)
    ensures
        lex_result_view(r) == lua_tokens(source@),
{
    match FastLexer::new().parse(source) {
        Ok(ts) => Ok(ts.iter().map(|t| Token {
            kind: match t.get_type() {
                TokenType::Comment => TokenKind::Comment,
                TokenType::Identifier => TokenKind::Identifier,
                TokenType::String => TokenKind::StringLiteral,
                TokenType::Symbol => TokenKind::Symbol,
                _ => TokenKind::Other,
            }, text: t.get_content().to_string() }).collect()),
        Err((kind, text)) => Err(LexFailure { kind: match kind {
            LexerErrorType::MalformedNumber => LexErrorKind::MalformedNumber,
            LexerErrorType::UnfinishedString => LexErrorKind::UnfinishedString,
            LexerErrorType::UnexpectedSymbol => LexErrorKind::UnexpectedSymbol,
        }, input: text.to_string() }),
    }
}

} // verus!
