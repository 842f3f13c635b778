//! The call-site scanner: walks a comment-free token stream once, finds
//! identifier tokens naming the import primitive, and statically evaluates
//! each call's argument to a literal path where the call uses exactly one
//! string-literal argument (directly, or inside redundantly nested
//! parentheses). Every other call shape is skipped with a diagnostic;
//! running out of tokens inside an open argument list is fatal for the
//! whole scan.
use vstd::prelude::*;

use crate::token::Token;
use crate::token::TokenKind;
use crate::token::TokenView;

verus! {

/// A string literal as lexed, with its surrounding quote characters
/// removed; a text shorter than two characters has no quote pair and
/// yields the empty sequence.
pub open spec fn strip_quotes(text: Seq<char>) -> Seq<char> {
    if text.len() >= 2 {
        text.subrange(1, text.len() - 1)
    } else {
        Seq::empty()
    }
}

/// Whether the token is an identifier naming the import primitive.
pub open spec fn is_primitive_ident(t: TokenView, primitive: Seq<char>) -> bool {
    t.kind == TokenKind::Identifier && t.text == primitive
}

/// Whether the token is the one-character symbol `c`.
pub open spec fn is_symbol(t: TokenView, c: char) -> bool {
    t.kind == TokenKind::Symbol && t.text == seq![c]
}

/// What one import call site comes to.
pub ghost enum CallOutcome {
    /// The call carries exactly one string literal: the literal, quotes
    /// stripped.
    Resolved { literal: Seq<char> },
    /// The call could not be statically evaluated to a single string
    /// literal: a diagnostic is owed, no literal is produced.
    Skipped,
    /// The token stream ended inside the call's argument list: fatal for
    /// the whole scan.
    Truncated,
}

/// Evaluates the inside of a parenthesized call, from token `j` on, with
/// `depth` parentheses currently open and `acc` the literal accepted so
/// far. A second string literal, a symbol other than a parenthesis, or a
/// token of any other kind makes the call `Skipped`; a clean close with
/// exactly one accepted literal resolves it; a clean close with none is
/// `Skipped` as well.
pub open spec fn paren_scan(
    tokens: Seq<TokenView>,
    j: int,
    depth: int,
    acc: Option<Seq<char>>,
) -> CallOutcome
    decreases tokens.len() - j,
{
    if j < 0 || j >= tokens.len() {
        CallOutcome::Truncated
    } else {
        let t = tokens[j];
        if t.kind == TokenKind::StringLiteral {
            if acc is None {
                paren_scan(tokens, j + 1, depth, Some(strip_quotes(t.text)))
            } else {
                CallOutcome::Skipped
            }
        } else if t.kind == TokenKind::Symbol {
            if t.text == seq!['('] {
                paren_scan(tokens, j + 1, depth + 1, acc)
            } else if t.text == seq![')'] {
                if depth <= 1 {
                    match acc {
                        Some(literal) => CallOutcome::Resolved { literal },
                        None => CallOutcome::Skipped,
                    }
                } else {
                    paren_scan(tokens, j + 1, depth - 1, acc)
                }
            } else {
                CallOutcome::Skipped
            }
        } else {
            CallOutcome::Skipped
        }
    }
}

/// The outcome of the import call whose primitive identifier stands at
/// index `i`: a direct string literal resolves at once; an opening
/// parenthesis enters the argument scan; anything else, including the end
/// of the stream, is skipped with a diagnostic.
pub open spec fn call_outcome(tokens: Seq<TokenView>, primitive: Seq<char>, i: int) -> CallOutcome {
    if i + 1 >= tokens.len() {
        CallOutcome::Skipped
    } else {
        let next = tokens[i + 1];
        if next.kind == TokenKind::StringLiteral {
            CallOutcome::Resolved { literal: strip_quotes(next.text) }
        } else if is_symbol(next, '(') {
            paren_scan(tokens, i + 2, 1, None)
        } else {
            CallOutcome::Skipped
        }
    }
}

/// What a whole scan comes to: the resolved literals in call-site order,
/// the number of call sites skipped with a diagnostic, and whether the
/// stream ended inside an argument list.
pub ghost struct ScanAbs {
    pub literals: Seq<Seq<char>>,
    pub skipped: nat,
    pub truncated: bool,
}

/// The scan of `tokens` from index `i` on: every index is examined, so
/// call sites inside another call's argument list are scanned in their own
/// right as well.
pub open spec fn scan_from(tokens: Seq<TokenView>, primitive: Seq<char>, i: int) -> ScanAbs
    decreases tokens.len() - i,
{
    if i < 0 || i >= tokens.len() {
        ScanAbs { literals: Seq::empty(), skipped: 0, truncated: false }
    } else {
        let rest = scan_from(tokens, primitive, i + 1);
        if is_primitive_ident(tokens[i], primitive) {
            match call_outcome(tokens, primitive, i) {
                CallOutcome::Resolved { literal } => ScanAbs {
                    literals: seq![literal] + rest.literals,
                    skipped: rest.skipped,
                    truncated: rest.truncated,
                },
                CallOutcome::Skipped => ScanAbs {
                    literals: rest.literals,
                    skipped: rest.skipped + 1,
                    truncated: rest.truncated,
                },
                CallOutcome::Truncated => ScanAbs {
                    literals: Seq::empty(),
                    skipped: 0,
                    truncated: true,
                },
            }
        } else {
            rest
        }
    }
}

/// The scan of a whole token stream.
pub open spec fn scan_spec(tokens: Seq<TokenView>, primitive: Seq<char>) -> ScanAbs {
    scan_from(tokens, primitive, 0)
}

/// A token stream with no occurrence of the primitive identifier yields no
/// literals, no diagnostics and no truncation, whatever else it holds.
pub proof fn lemma_no_primitive_no_findings(tokens: Seq<TokenView>, primitive: Seq<char>)
    requires
        forall|i: int| 0 <= i < tokens.len() ==> !is_primitive_ident(tokens[i], primitive),
    ensures
        scan_spec(tokens, primitive).literals == Seq::<Seq<char>>::empty(),
        scan_spec(tokens, primitive).skipped == 0,
        !scan_spec(tokens, primitive).truncated,
{
    lemma_no_primitive_from(tokens, primitive, 0);
}

proof fn lemma_no_primitive_from(tokens: Seq<TokenView>, primitive: Seq<char>, i: int)
    requires
        forall|k: int| 0 <= k < tokens.len() ==> !is_primitive_ident(tokens[k], primitive),
        0 <= i,
    ensures
        scan_from(tokens, primitive, i).literals == Seq::<Seq<char>>::empty(),
        scan_from(tokens, primitive, i).skipped == 0,
        !scan_from(tokens, primitive, i).truncated,
    decreases tokens.len() - i,
{
    if i < tokens.len() {
        lemma_no_primitive_from(tokens, primitive, i + 1);
    }
}

/// What the executable scan returns on success.
#[derive(Debug)]
pub struct ScanResult {
    /// The resolved import literals, in the order their call sites were
    /// encountered, quotes stripped.
    pub literals: Vec<String>,
    /// How many call sites were skipped because the call did not use
    /// exactly one string-literal argument; one diagnostic is owed for
    /// each.
    pub skipped: usize,
}

/// The one fatal scan failure: the token stream ended inside an open
/// argument list, so the file is truncated or was not tokenized whole.
#[derive(Clone, Copy, Debug, PartialEq, Eq, Structural)]
pub enum ScanError {
    OutOfTokens,
}

/// Character-wise string equality, pinned to the views.
fn str_eq(a: &str, b: &str) -> (r: bool)
    ensures
        r == (a@ == b@),
{
    let n = a.unicode_len();
    if n != b.unicode_len() {
        return false;
    }
    let mut i: usize = 0;
    while i < n
        invariant
            n == a@.len(),
            n == b@.len(),
            i <= n,
            forall|m: int| 0 <= m < i ==> a@[m] == b@[m],
        decreases n - i,
    {
        if a.get_char(i) != b.get_char(i) {
            return false;
        }
        i = i + 1;
    }
    proof {
        assert(a@ =~= b@);
    }
    true
}

/// Whether the token's text is exactly the one character `c`.
fn is_symbol_exec(t: &Token, c: char) -> (r: bool)
    ensures
        r == (t@.text == seq![c]),
{
    let s = t.text.as_str();
    let r = s.unicode_len() == 1 && s.get_char(0) == c;
    proof {
        if r {
            assert(t@.text =~= seq![c]);
        } else {
            assert(!(t@.text =~= seq![c]));
        }
    }
    r
}

/// Strips the surrounding quote characters off a string literal's text.
fn strip_quotes_exec(text: &str) -> (r: String)
    ensures
        r@ == strip_quotes(text@),
{
    let n = text.unicode_len();
    if n >= 2 {
        String::from_str(text.substring_char(1, n - 1))
    } else {
        String::new()
    }
}

/// Terminal state of the executable argument scan, mirroring
/// `CallOutcome` with the resolved literal kept aside in the scan's
/// accumulator.
enum ArgScanEnd {
    Resolved,
    Skipped,
    Truncated,
}

/// Scans a comment-free token stream for call sites of `primitive` and
/// statically evaluates each call's argument. On success the result holds
/// the resolved literals in call-site order and the number of skipped call
/// sites; the scan fails as a whole only when the stream ends inside an
/// open argument list.
pub fn scan_imports(tokens: &Vec<Token>, primitive: &str) -> (r: Result<ScanResult, ScanError>)
    ensures
        match r {
            Ok(res) => !scan_spec(tokens.deep_view(), primitive@).truncated
                && res.literals.deep_view() == scan_spec(tokens.deep_view(), primitive@).literals
                && res.skipped == scan_spec(tokens.deep_view(), primitive@).skipped,
            Err(_) => scan_spec(tokens.deep_view(), primitive@).truncated,
        },
{
    let ghost toks = tokens.deep_view();
    let ghost whole = scan_spec(toks, primitive@);
    let mut literals: Vec<String> = Vec::new();
    let mut skipped: usize = 0;
    let mut i: usize = 0;
    while i < tokens.len()
        invariant
            i <= tokens.len(),
            toks == tokens.deep_view(),
            whole == scan_spec(toks, primitive@),
            skipped <= i,
            whole.literals == literals.deep_view() + scan_from(toks, primitive@, i as int).literals,
            whole.skipped == skipped + scan_from(toks, primitive@, i as int).skipped,
            whole.truncated == scan_from(toks, primitive@, i as int).truncated,
        decreases tokens.len() - i,
    {
        let ghost rest = scan_from(toks, primitive@, i as int);
        let ghost rest_next = scan_from(toks, primitive@, i + 1);
        if tokens[i].kind == TokenKind::Identifier && str_eq(tokens[i].text.as_str(), primitive) {
            assert(is_primitive_ident(toks[i as int], primitive@));
            if i + 1 >= tokens.len() {
                // `primitive` is the last token: nothing follows that could
                // be an argument, so the call site is skipped.
                assert(call_outcome(toks, primitive@, i as int) is Skipped);
                skipped = skipped + 1;
            } else if tokens[i + 1].kind == TokenKind::StringLiteral {
                // Direct-literal form: `primitive "literal"`.
                assert(call_outcome(toks, primitive@, i as int) matches CallOutcome::Resolved {
                    literal,
                } && literal == strip_quotes(toks[i + 1].text));
                let ghost old_lits = literals.deep_view();
                let lit = strip_quotes_exec(tokens[i + 1].text.as_str());
                let ghost litv = lit@;
                literals.push(lit);
                proof {
                    assert(literals.deep_view() =~= old_lits.push(litv));
                    assert(old_lits + (seq![litv] + rest_next.literals) =~= literals.deep_view()
                        + rest_next.literals);
                }
            } else if tokens[i + 1].kind == TokenKind::Symbol && is_symbol_exec(
                &tokens[i + 1],
                '(',
            ) {
                // Call-argument mode: scan to the matching close.
                assert(call_outcome(toks, primitive@, i as int) == paren_scan(toks, i + 2, 1, None));
                let mut j: usize = i + 2;
                let mut depth: usize = 1;
                let mut acc: Option<String> = None;
                let mut end: Option<ArgScanEnd> = None;
                while end.is_none()
                    invariant
                        toks == tokens.deep_view(),
                        i + 2 <= j <= tokens.len(),
                        1 <= depth <= j,
                        match end {
                            None => paren_scan(toks, i + 2, 1, None) == paren_scan(
                                toks,
                                j as int,
                                depth as int,
                                acc.deep_view(),
                            ),
                            Some(ArgScanEnd::Resolved) => acc matches Some(s) && paren_scan(
                                toks,
                                i + 2,
                                1,
                                None,
                            ) == (CallOutcome::Resolved { literal: s@ }),
                            Some(ArgScanEnd::Skipped) => paren_scan(toks, i + 2, 1, None)
                                is Skipped,
                            Some(ArgScanEnd::Truncated) => paren_scan(toks, i + 2, 1, None)
                                is Truncated,
                        },
                    decreases tokens.len() - j, (if end is None { 1int } else { 0int }),
                {
                    if j == tokens.len() {
                        end = Some(ArgScanEnd::Truncated);
                    } else if tokens[j].kind == TokenKind::StringLiteral {
                        if acc.is_none() {
                            acc = Some(strip_quotes_exec(tokens[j].text.as_str()));
                            j = j + 1;
                        } else {
                            end = Some(ArgScanEnd::Skipped);
                        }
                    } else if tokens[j].kind == TokenKind::Symbol {
                        if is_symbol_exec(&tokens[j], '(') {
                            depth = depth + 1;
                            j = j + 1;
                        } else if is_symbol_exec(&tokens[j], ')') {
                            if depth == 1 {
                                if acc.is_none() {
                                    end = Some(ArgScanEnd::Skipped);
                                } else {
                                    end = Some(ArgScanEnd::Resolved);
                                }
                            } else {
                                depth = depth - 1;
                                j = j + 1;
                            }
                        } else {
                            end = Some(ArgScanEnd::Skipped);
                        }
                    } else {
                        end = Some(ArgScanEnd::Skipped);
                    }
                }
                match end {
                    Some(ArgScanEnd::Truncated) => {
                        return Err(ScanError::OutOfTokens);
                    },
                    Some(ArgScanEnd::Skipped) => {
                        skipped = skipped + 1;
                    },
                    Some(ArgScanEnd::Resolved) => {
                        let ghost old_lits = literals.deep_view();
                        let lit = match acc {
                            Some(s) => s,
                            None => {
                                proof {
                                    assert(false);
                                }
                                String::new()
                            },
                        };
                        let ghost litv = lit@;
                        literals.push(lit);
                        proof {
                            assert(literals.deep_view() =~= old_lits.push(litv));
                            assert(old_lits + (seq![litv] + rest_next.literals)
                                =~= literals.deep_view() + rest_next.literals);
                        }
                    },
                    None => {
                        proof {
                            assert(false);
                        }
                    },
                }
            } else {
                // The token after the primitive is neither a string literal
                // nor an opening parenthesis: the call site is skipped.
                assert(call_outcome(toks, primitive@, i as int) is Skipped);
                skipped = skipped + 1;
            }
        }
        i = i + 1;
    }
    proof {
        assert(whole.literals =~= literals.deep_view());
    }
    Ok(ScanResult { literals, skipped })
}

} // verus!
