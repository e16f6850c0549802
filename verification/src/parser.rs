//! The parser: a recursive-descent statement parser with Pratt-style
//! precedence-climbing expression parsing over one token of lookahead.
//!
//! `spec_parse_program_from` is the mathematical model; `parse_program` is
//! the executable parser, proved to return exactly the modelled statement
//! list and error list. Errors are collected, not thrown: a bad statement is
//! reported and the parser resynchronizes at the next statement boundary
//! (newline, semicolon or end of input) so one bad line cannot cascade.

use vstd::prelude::*;

use crate::ast::Expr;
use crate::ast::Identifier;
use crate::ast::InfixExpr;
use crate::ast::LetStmt;
use crate::ast::PrefixExpr;
use crate::ast::Program;
use crate::ast::SpecExpr;
use crate::ast::SpecIdentifier;
use crate::ast::SpecInfixExpr;
use crate::ast::SpecLetStmt;
use crate::ast::SpecPrefixExpr;
use crate::ast::SpecStmt;
use crate::ast::Stmt;
use crate::scanner::scan;
use crate::scanner::spec_scan;
use crate::scanner::ScanError;
use crate::token::copy_bytes;
use crate::token::view_tokens;
use crate::token::SpecToken;
use crate::token::Token;
use crate::token::TokenKind;

verus! {

/// A structured parse error: the kind of failure, the token found, and the
/// 1-based source line it was found on.
#[derive(Clone, Copy, Debug, PartialEq, Eq, Structural)]
pub enum ParseError {
    /// A specific token kind was required at this position.
    UnexpectedToken { expected: TokenKind, found: TokenKind, line: usize },
    /// No expression can start with this token.
    NoPrefixParseFn { found: TokenKind, line: usize },
    /// A parenthesised group was opened and never closed.
    UnterminatedExpression { line: usize },
    /// The token starts a statement form this parser does not implement.
    UnsupportedStatement { found: TokenKind, line: usize },
}

/// The mathematical value of a parse error.
pub enum SpecParseError {
    UnexpectedToken { expected: TokenKind, found: TokenKind, line: int },
    NoPrefixParseFn { found: TokenKind, line: int },
    UnterminatedExpression { line: int },
    UnsupportedStatement { found: TokenKind, line: int },
}

impl View for ParseError {
    type V = SpecParseError;

    open spec fn view(&self) -> SpecParseError {
        match self {
            ParseError::UnexpectedToken { expected, found, line } => {
                SpecParseError::UnexpectedToken {
                    expected: *expected,
                    found: *found,
                    line: *line as int,
                }
            },
            ParseError::NoPrefixParseFn { found, line } => {
                SpecParseError::NoPrefixParseFn { found: *found, line: *line as int }
            },
            ParseError::UnterminatedExpression { line } => {
                SpecParseError::UnterminatedExpression { line: *line as int }
            },
            ParseError::UnsupportedStatement { found, line } => {
                SpecParseError::UnsupportedStatement { found: *found, line: *line as int }
            },
        }
    }
}

/// The statement sequence a vector of statements stands for.
pub open spec fn view_stmts(ss: Seq<Stmt>) -> Seq<SpecStmt> {
    ss.map_values(|s: Stmt| s@)
}

/// The error sequence a vector of parse errors stands for.
pub open spec fn view_errors(es: Seq<ParseError>) -> Seq<SpecParseError> {
    es.map_values(|e: ParseError| e@)
}

/// How many tokens remain at `pos`: the measure the parsing recursions
/// descend on.
pub open spec fn rem_toks(t: Seq<SpecToken>, pos: int) -> int {
    if pos <= t.len() {
        t.len() - pos
    } else {
        0
    }
}

/// The token at `i`; a synthetic `Eof` once past the end of the stream.
pub open spec fn token_at(t: Seq<SpecToken>, i: int) -> SpecToken {
    if 0 <= i < t.len() {
        t[i]
    } else {
        SpecToken { kind: TokenKind::Eof, text: Seq::empty(), line: 0 }
    }
}

/// The token kind at `i`.
pub open spec fn kind_at(t: Seq<SpecToken>, i: int) -> TokenKind {
    token_at(t, i).kind
}

/// The token kind at `i` of an executable token stream.
pub fn kind_of(toks: &Vec<Token>, i: usize) -> (k: TokenKind)
    ensures
        k == kind_at(view_tokens(toks@), i as int),
{
    if i < toks.len() {
        toks[i].kind
    } else {
        TokenKind::Eof
    }
}

/// The source line of the token at `i` of an executable token stream.
pub fn line_of(toks: &Vec<Token>, i: usize) -> (l: usize)
    ensures
        l as int == token_at(view_tokens(toks@), i as int).line,
{
    if i < toks.len() {
        toks[i].line
    } else {
        0
    }
}

/// A copy of the token at `i` of an executable token stream.
pub fn token_of(toks: &Vec<Token>, i: usize) -> (t: Token)
    ensures
        t@ == token_at(view_tokens(toks@), i as int),
{
    if i < toks.len() {
        toks[i].clone()
    } else {
        let t = Token::new(TokenKind::Eof, Vec::new(), 0);
        proof {
            assert(t@.text =~= Seq::<u8>::empty());
        }
        t
    }
}

// Binding powers, low to high: equality < relational < additive <
// multiplicative < unary prefix.
pub const PREC_LOWEST: u8 = 0;
pub const PREC_EQUALS: u8 = 1;
pub const PREC_COMPARE: u8 = 2;
pub const PREC_SUM: u8 = 3;
pub const PREC_PRODUCT: u8 = 4;
pub const PREC_PREFIX: u8 = 5;

/// The binding power of an infix operator kind; 0 for every kind that is
/// not an infix operator.
pub open spec fn spec_infix_prec(k: TokenKind) -> int {
    match k {
        TokenKind::Eq => PREC_EQUALS as int,
        TokenKind::BangEq => PREC_EQUALS as int,
        TokenKind::Lt => PREC_COMPARE as int,
        TokenKind::Gt => PREC_COMPARE as int,
        TokenKind::LtEq => PREC_COMPARE as int,
        TokenKind::GtEq => PREC_COMPARE as int,
        TokenKind::Plus => PREC_SUM as int,
        TokenKind::Minus => PREC_SUM as int,
        TokenKind::Star => PREC_PRODUCT as int,
        TokenKind::Slash => PREC_PRODUCT as int,
        _ => PREC_LOWEST as int,
    }
}

/// The binding power of an infix operator kind.
pub fn infix_prec(k: TokenKind) -> (p: u8)
    ensures
        p as int == spec_infix_prec(k),
{
    match k {
        TokenKind::Eq => PREC_EQUALS,
        TokenKind::BangEq => PREC_EQUALS,
        TokenKind::Lt => PREC_COMPARE,
        TokenKind::Gt => PREC_COMPARE,
        TokenKind::LtEq => PREC_COMPARE,
        TokenKind::GtEq => PREC_COMPARE,
        TokenKind::Plus => PREC_SUM,
        TokenKind::Minus => PREC_SUM,
        TokenKind::Star => PREC_PRODUCT,
        TokenKind::Slash => PREC_PRODUCT,
        _ => PREC_LOWEST,
    }
}

/// The prefix step of the Pratt parse at `pos`: a literal, a name, a unary
/// operator applied to a tightly bound operand, or a parenthesised group.
/// On success it yields the tree and the number of tokens consumed.
pub open spec fn spec_parse_prefix(t: Seq<SpecToken>, pos: int) -> Result<
    (SpecExpr, nat),
    SpecParseError,
>
    decreases rem_toks(t, pos), 1int,
{
    let tok = token_at(t, pos);
    match tok.kind {
        TokenKind::Ident => Result::Ok(
            (SpecExpr::Name(SpecIdentifier { token: tok, name: tok.text }), 1nat),
        ),
        TokenKind::Int => Result::Ok((SpecExpr::IntLit { token: tok }, 1nat)),
        TokenKind::Float => Result::Ok((SpecExpr::FloatLit { token: tok }, 1nat)),
        TokenKind::Str => Result::Ok((SpecExpr::StrLit { token: tok }, 1nat)),
        TokenKind::True => Result::Ok((SpecExpr::BoolLit { token: tok }, 1nat)),
        TokenKind::False => Result::Ok((SpecExpr::BoolLit { token: tok }, 1nat)),
        TokenKind::Minus => match spec_parse_expr(t, pos + 1, PREC_PREFIX as int) {
            Result::Ok((operand, u)) => Result::Ok(
                (
                    SpecExpr::Prefix(
                        SpecPrefixExpr { operator: tok.kind, operand: Box::new(operand) },
                    ),
                    1 + u,
                ),
            ),
            Result::Err(e) => Result::Err(e),
        },
        TokenKind::Bang => match spec_parse_expr(t, pos + 1, PREC_PREFIX as int) {
            Result::Ok((operand, u)) => Result::Ok(
                (
                    SpecExpr::Prefix(
                        SpecPrefixExpr { operator: tok.kind, operand: Box::new(operand) },
                    ),
                    1 + u,
                ),
            ),
            Result::Err(e) => Result::Err(e),
        },
        TokenKind::LParen => match spec_parse_expr(t, pos + 1, PREC_LOWEST as int) {
            Result::Ok((inner, u)) => {
                if kind_at(t, pos + 1 + u) == TokenKind::RParen {
                    Result::Ok((inner, u + 2))
                } else {
                    Result::Err(
                        SpecParseError::UnterminatedExpression {
                            line: token_at(t, pos + 1 + u).line,
                        },
                    )
                }
            },
            Result::Err(e) => Result::Err(e),
        },
        _ => Result::Err(SpecParseError::NoPrefixParseFn { found: tok.kind, line: tok.line }),
    }
}

/// The climbing step of the Pratt parse: as long as the token at `pos` is an
/// infix operator binding tighter than `min_prec`, parse its right operand
/// and fold it onto `lhs`. The strict comparison makes tying operators fold
/// to the left. On success it yields the tree and the tokens consumed by
/// this step alone.
pub open spec fn spec_parse_infix(
    t: Seq<SpecToken>,
    lhs: SpecExpr,
    pos: int,
    min_prec: int,
) -> Result<(SpecExpr, nat), SpecParseError>
    decreases rem_toks(t, pos), 0int,
{
    if 0 <= pos < t.len() && spec_infix_prec(t[pos].kind) > min_prec {
        let op = t[pos].kind;
        match spec_parse_expr(t, pos + 1, spec_infix_prec(op)) {
            Result::Ok((rhs, ru)) => {
                let folded = SpecExpr::Infix(
                    SpecInfixExpr { operator: op, left: Box::new(lhs), right: Box::new(rhs) },
                );
                match spec_parse_infix(t, folded, pos + 1 + ru, min_prec) {
                    Result::Ok((e, lu)) => Result::Ok((e, 1 + ru + lu)),
                    Result::Err(e) => Result::Err(e),
                }
            },
            Result::Err(e) => Result::Err(e),
        }
    } else {
        Result::Ok((lhs, 0nat))
    }
}

/// The Pratt parse of one whole expression at `pos`, honouring operators
/// binding tighter than `min_prec`: a prefix step followed by the climbing
/// step. On success it yields the tree and the tokens consumed, at least
/// one.
pub open spec fn spec_parse_expr(t: Seq<SpecToken>, pos: int, min_prec: int) -> Result<
    (SpecExpr, nat),
    SpecParseError,
>
    decreases rem_toks(t, pos), 2int,
{
    if !(0 <= pos < t.len()) {
        Result::Err(SpecParseError::NoPrefixParseFn { found: TokenKind::Eof, line: 0 })
    } else {
        match spec_parse_prefix(t, pos) {
            Result::Ok((lhs, pu)) => match spec_parse_infix(t, lhs, pos + pu, min_prec) {
                Result::Ok((e, iu)) => Result::Ok((e, pu + iu)),
                Result::Err(e) => Result::Err(e),
            },
            Result::Err(e) => Result::Err(e),
        }
    }
}

/// A statement boundary: where error recovery resynchronizes, and what ends
/// a `let` statement.
pub open spec fn is_boundary(k: TokenKind) -> bool {
    k == TokenKind::NewLine || k == TokenKind::Semicolon || k == TokenKind::Eof
}

/// Whether a token kind is a statement boundary.
pub fn is_boundary_kind(k: TokenKind) -> (b: bool)
    ensures
        b == is_boundary(k),
{
    match k {
        TokenKind::NewLine => true,
        TokenKind::Semicolon => true,
        TokenKind::Eof => true,
        _ => false,
    }
}

/// The parse of `let name = value` starting at the `let` token: the name
/// must be an identifier, the `=` must follow it, the value is a whole
/// expression, and a statement boundary must close the statement. A closing
/// newline or semicolon is consumed; a closing `Eof` is left in place.
pub open spec fn spec_parse_let(t: Seq<SpecToken>, pos: int) -> Result<
    (SpecStmt, nat),
    SpecParseError,
>
    recommends
        kind_at(t, pos) == TokenKind::Let,
{
    let let_tok = token_at(t, pos);
    let name_tok = token_at(t, pos + 1);
    let eq_tok = token_at(t, pos + 2);
    if name_tok.kind != TokenKind::Ident {
        Result::Err(
            SpecParseError::UnexpectedToken {
                expected: TokenKind::Ident,
                found: name_tok.kind,
                line: name_tok.line,
            },
        )
    } else if eq_tok.kind != TokenKind::Assign {
        Result::Err(
            SpecParseError::UnexpectedToken {
                expected: TokenKind::Assign,
                found: eq_tok.kind,
                line: eq_tok.line,
            },
        )
    } else {
        match spec_parse_expr(t, pos + 3, PREC_LOWEST as int) {
            Result::Err(e) => Result::Err(e),
            Result::Ok((value, u)) => {
                let stmt = SpecStmt::Let(
                    SpecLetStmt {
                        token: let_tok,
                        name: SpecIdentifier { token: name_tok, name: name_tok.text },
                        value,
                    },
                );
                let end = pos + 3 + u;
                let end_kind = kind_at(t, end);
                if end_kind == TokenKind::NewLine || end_kind == TokenKind::Semicolon {
                    Result::Ok((stmt, 4 + u))
                } else if end_kind == TokenKind::Eof {
                    Result::Ok((stmt, 3 + u))
                } else {
                    Result::Err(
                        SpecParseError::UnexpectedToken {
                            expected: TokenKind::NewLine,
                            found: end_kind,
                            line: token_at(t, end).line,
                        },
                    )
                }
            },
        }
    }
}

/// The parse of one statement at `pos`: `let` is the implemented statement
/// form; any other token starting a statement is reported as an unsupported
/// statement, never silently ignored.
pub open spec fn spec_parse_stmt(t: Seq<SpecToken>, pos: int) -> Result<
    (SpecStmt, nat),
    SpecParseError,
> {
    if kind_at(t, pos) == TokenKind::Let {
        spec_parse_let(t, pos)
    } else {
        Result::Err(
            SpecParseError::UnsupportedStatement {
                found: kind_at(t, pos),
                line: token_at(t, pos).line,
            },
        )
    }
}

/// The number of tokens from `i` to the next statement boundary.
pub open spec fn sync_dist(t: Seq<SpecToken>, i: int) -> nat
    decreases rem_toks(t, i),
{
    if 0 <= i < t.len() && !is_boundary(t[i].kind) {
        1 + sync_dist(t, i + 1)
    } else {
        0
    }
}

/// The parse of the whole statement list from `pos` on: boundaries between
/// statements are skipped, each parsed statement is appended in source
/// order, and each error is recorded before resynchronizing at the next
/// statement boundary. The parse never fails: it returns the statements
/// built so far together with every error found.
pub open spec fn spec_parse_program_from(t: Seq<SpecToken>, pos: int) -> (Seq<SpecStmt>, Seq<
    SpecParseError,
>)
    decreases rem_toks(t, pos),
{
    if !(0 <= pos < t.len()) || t[pos].kind == TokenKind::Eof {
        (Seq::empty(), Seq::empty())
    } else if t[pos].kind == TokenKind::NewLine || t[pos].kind == TokenKind::Semicolon {
        spec_parse_program_from(t, pos + 1)
    } else {
        match spec_parse_stmt(t, pos) {
            Result::Ok((s, u)) => {
                // a parsed statement always consumes tokens; the guard keeps
                // the recursion visibly bounded
                let step: nat = if u < 1 {
                    1nat
                } else {
                    u
                };
                let rest = spec_parse_program_from(t, pos + step);
                (seq![s] + rest.0, rest.1)
            },
            Result::Err(e) => {
                let rest = spec_parse_program_from(t, pos + 1 + sync_dist(t, pos + 1));
                (rest.0, seq![e] + rest.1)
            },
        }
    }
}

/// The parse of a complete token stream: the program and its error list.
pub open spec fn spec_parse_program(t: Seq<SpecToken>) -> (Seq<SpecStmt>, Seq<SpecParseError>) {
    spec_parse_program_from(t, 0)
}

/// Adds already-consumed tokens to the count of a parse outcome.
pub open spec fn add_used(r: Result<(SpecExpr, nat), SpecParseError>, d: nat) -> Result<
    (SpecExpr, nat),
    SpecParseError,
> {
    match r {
        Result::Ok((e, u)) => Result::Ok((e, u + d)),
        Result::Err(e) => Result::Err(e),
    }
}

/// Parses one expression starting at `pos`, folding in infix operators that
/// bind tighter than `min_prec`. On success the returned position is just
/// past the expression; the tree and any error are exactly those of the
/// model `spec_parse_expr`.
pub fn parse_expression(toks: &Vec<Token>, pos: usize, min_prec: u8) -> (r: Result<
    (Expr, usize),
    ParseError,
>)
    ensures
        ({
            let m = spec_parse_expr(view_tokens(toks@), pos as int, min_prec as int);
            &&& (r matches Ok((e, np)) ==> m matches Ok((se, u)) && e@ == se && np as int == pos
                + u && pos < np <= toks@.len())
            &&& (r matches Err(pe) ==> m matches Err(me) && pe@ == me)
        }),
    decreases rem_toks(view_tokens(toks@), pos as int),
{
    let ghost t = view_tokens(toks@);
    proof {
        assert(t.len() == toks@.len());
    }
    if pos >= toks.len() {
        return Result::Err(ParseError::NoPrefixParseFn { found: TokenKind::Eof, line: 0 });
    }
    let k = kind_of(toks, pos);
    // the prefix step
    let prefix_res: Result<(Expr, usize), ParseError> = match k {
        TokenKind::Ident => {
            let tok = token_of(toks, pos);
            let name = copy_bytes(&tok.text);
            Result::Ok((Expr::Name(Identifier::new(tok, name)), pos + 1))
        },
        TokenKind::Int => Result::Ok((Expr::IntLit { token: token_of(toks, pos) }, pos + 1)),
        TokenKind::Float => Result::Ok((Expr::FloatLit { token: token_of(toks, pos) }, pos + 1)),
        TokenKind::Str => Result::Ok((Expr::StrLit { token: token_of(toks, pos) }, pos + 1)),
        TokenKind::True => Result::Ok((Expr::BoolLit { token: token_of(toks, pos) }, pos + 1)),
        TokenKind::False => Result::Ok((Expr::BoolLit { token: token_of(toks, pos) }, pos + 1)),
        TokenKind::Minus => {
            match parse_expression(toks, pos + 1, PREC_PREFIX) {
                Result::Ok((operand, np)) => Result::Ok(
                    (Expr::Prefix(PrefixExpr::new(k, Box::new(operand))), np),
                ),
                Result::Err(e) => Result::Err(e),
            }
        },
        TokenKind::Bang => {
            match parse_expression(toks, pos + 1, PREC_PREFIX) {
                Result::Ok((operand, np)) => Result::Ok(
                    (Expr::Prefix(PrefixExpr::new(k, Box::new(operand))), np),
                ),
                Result::Err(e) => Result::Err(e),
            }
        },
        TokenKind::LParen => {
            match parse_expression(toks, pos + 1, PREC_LOWEST) {
                Result::Ok((inner, np)) => {
                    if matches!(kind_of(toks, np), TokenKind::RParen) {
                        Result::Ok((inner, np + 1))
                    } else {
                        Result::Err(
                            ParseError::UnterminatedExpression { line: line_of(toks, np) },
                        )
                    }
                },
                Result::Err(e) => Result::Err(e),
            }
        },
        _ => Result::Err(ParseError::NoPrefixParseFn { found: k, line: line_of(toks, pos) }),
    };
    let (mut left, mut cur) = match prefix_res {
        Result::Ok(p) => p,
        Result::Err(e) => {
            return Result::Err(e);
        },
    };
    let ghost pu = (cur - pos) as nat;
    let ghost lhs0 = left@;
    proof {
        assert(spec_parse_prefix(t, pos as int) == Result::<(SpecExpr, nat), SpecParseError>::Ok(
            (lhs0, pu),
        ));
    }
    // the climbing step
    let ghost target = spec_parse_infix(t, lhs0, pos + pu, min_prec as int);
    #[verifier::loop_isolation(false)]
    while infix_prec(kind_of(toks, cur)) > min_prec
        invariant
            pos < cur <= toks@.len(),
            pos + pu <= cur,
            add_used(
                spec_parse_infix(t, left@, cur as int, min_prec as int),
                (cur - (pos + pu)) as nat,
            ) == target,
        decreases toks@.len() - cur,
    {
        let op = kind_of(toks, cur);
        let p = infix_prec(op);
        proof {
            assert(0 <= cur < t.len());
        }
        match parse_expression(toks, cur + 1, p) {
            Result::Ok((rhs, np)) => {
                let ghost ru = (np - (cur + 1)) as nat;
                let folded = Expr::Infix(InfixExpr::new(op, Box::new(left), Box::new(rhs)));
                proof {
                    assert(folded@ == SpecExpr::Infix(
                        SpecInfixExpr {
                            operator: op,
                            left: Box::new(left@),
                            right: Box::new(rhs@),
                        },
                    ));
                }
                left = folded;
                cur = np;
            },
            Result::Err(e) => {
                proof {
                    assert(spec_parse_infix(t, left@, (cur as int), min_prec as int)
                        == Result::<(SpecExpr, nat), SpecParseError>::Err(e@));
                }
                return Result::Err(e);
            },
        }
    }
    proof {
        assert(spec_parse_infix(t, left@, cur as int, min_prec as int) == Result::<
            (SpecExpr, nat),
            SpecParseError,
        >::Ok((left@, 0nat)));
    }
    Result::Ok((left, cur))
}

/// Parses a `let` statement whose `let` token stands at `pos`. On success
/// the returned position is just past the statement, its closing newline or
/// semicolon included; the tree and any error are exactly those of the model
/// `spec_parse_let`.
pub fn parse_let(toks: &Vec<Token>, pos: usize) -> (r: Result<(Stmt, usize), ParseError>)
    requires
        kind_at(view_tokens(toks@), pos as int) == TokenKind::Let,
    ensures
        ({
            let m = spec_parse_let(view_tokens(toks@), pos as int);
            &&& (r matches Ok((s, np)) ==> m matches Ok((ss, u)) && s@ == ss && np as int == pos
                + u && pos < np <= toks@.len())
            &&& (r matches Err(pe) ==> m matches Err(me) && pe@ == me)
        }),
{
    let ghost t = view_tokens(toks@);
    let n = toks.len();
    proof {
        assert(t.len() == toks@.len());
        assert(pos < n);
    }
    let let_tok = token_of(toks, pos);
    let name_kind = kind_of(toks, pos + 1);
    if !matches!(name_kind, TokenKind::Ident) {
        return Result::Err(
            ParseError::UnexpectedToken {
                expected: TokenKind::Ident,
                found: name_kind,
                line: line_of(toks, pos + 1),
            },
        );
    }
    proof {
        assert(pos + 1 < n);
    }
    let name_tok = token_of(toks, pos + 1);
    let eq_kind = kind_of(toks, pos + 2);
    if !matches!(eq_kind, TokenKind::Assign) {
        return Result::Err(
            ParseError::UnexpectedToken {
                expected: TokenKind::Assign,
                found: eq_kind,
                line: line_of(toks, pos + 2),
            },
        );
    }
    proof {
        assert(pos + 2 < n);
    }
    match parse_expression(toks, pos + 3, PREC_LOWEST) {
        Result::Err(e) => Result::Err(e),
        Result::Ok((value, np)) => {
            let end_kind = kind_of(toks, np);
            let name = copy_bytes(&name_tok.text);
            let stmt = Stmt::Let(
                LetStmt { token: let_tok, name: Identifier::new(name_tok, name), value },
            );
            if matches!(end_kind, TokenKind::NewLine) || matches!(end_kind, TokenKind::Semicolon) {
                Result::Ok((stmt, np + 1))
            } else if matches!(end_kind, TokenKind::Eof) {
                Result::Ok((stmt, np))
            } else {
                Result::Err(
                    ParseError::UnexpectedToken {
                        expected: TokenKind::NewLine,
                        found: end_kind,
                        line: line_of(toks, np),
                    },
                )
            }
        },
    }
}

/// Parses one statement at `pos`: `let` is the implemented statement form;
/// any other token is reported as starting an unsupported statement.
pub fn parse_stmt(toks: &Vec<Token>, pos: usize) -> (r: Result<(Stmt, usize), ParseError>)
    ensures
        ({
            let m = spec_parse_stmt(view_tokens(toks@), pos as int);
            &&& (r matches Ok((s, np)) ==> m matches Ok((ss, u)) && s@ == ss && np as int == pos
                + u && pos < np <= toks@.len())
            &&& (r matches Err(pe) ==> m matches Err(me) && pe@ == me)
        }),
{
    let k = kind_of(toks, pos);
    if matches!(k, TokenKind::Let) {
        parse_let(toks, pos)
    } else {
        Result::Err(ParseError::UnsupportedStatement { found: k, line: line_of(toks, pos) })
    }
}

/// The accumulated statements and errors, extended by the parse of the rest
/// of the stream, reach exactly the parse of the whole stream.
pub open spec fn prog_state_ok(
    t: Seq<SpecToken>,
    ss: Seq<SpecStmt>,
    es: Seq<SpecParseError>,
    pos: int,
) -> bool {
    &&& ss + spec_parse_program_from(t, pos).0 == spec_parse_program(t).0
    &&& es + spec_parse_program_from(t, pos).1 == spec_parse_program(t).1
}

/// Parses a whole token stream into a program plus its error list.
///
/// The statements appear in source order. The parse never fails: each
/// malformed statement is recorded as one structured error, the parser
/// resynchronizes at the next statement boundary, and the caller receives
/// the program built so far together with every error found.
pub fn parse_program(toks: &Vec<Token>) -> (r: (Program, Vec<ParseError>))
    ensures
        ({
            let m = spec_parse_program(view_tokens(toks@));
            &&& r.0@.statements == m.0
            &&& view_errors(r.1@) == m.1
        }),
{
    let ghost t = view_tokens(toks@);
    let n = toks.len();
    let mut stmts: Vec<Stmt> = Vec::new();
    let mut errors: Vec<ParseError> = Vec::new();
    let mut pos: usize = 0;
    proof {
        assert(t.len() == toks@.len());
        assert(n == toks@.len());
        assert(view_stmts(stmts@) =~= Seq::<SpecStmt>::empty());
        assert(view_errors(errors@) =~= Seq::<SpecParseError>::empty());
        assert(Seq::<SpecStmt>::empty() + spec_parse_program_from(t, 0).0 =~= spec_parse_program(
            t,
        ).0);
        assert(Seq::<SpecParseError>::empty() + spec_parse_program_from(t, 0).1
            =~= spec_parse_program(t).1);
    }
    #[verifier::loop_isolation(false)]
    while !matches!(kind_of(toks, pos), TokenKind::Eof)
        invariant
            pos <= toks@.len(),
            prog_state_ok(t, view_stmts(stmts@), view_errors(errors@), pos as int),
        decreases toks@.len() - pos,
    {
        let ghost p0 = pos as int;
        let ghost v0 = view_stmts(stmts@);
        let ghost e0 = view_errors(errors@);
        let k = kind_of(toks, pos);
        proof {
            assert(0 <= p0 < t.len());
            assert(pos < n);
        }
        if matches!(k, TokenKind::NewLine) || matches!(k, TokenKind::Semicolon) {
            pos += 1;
            proof {
                assert(spec_parse_program_from(t, p0) == spec_parse_program_from(t, p0 + 1));
            }
        } else {
            match parse_stmt(toks, pos) {
                Result::Ok((s, np)) => {
                    let ghost su = s@;
                    stmts.push(s);
                    pos = np;
                    proof {
                        let rest = spec_parse_program_from(t, np as int);
                        assert(spec_parse_program_from(t, p0).0 =~= seq![su] + rest.0);
                        assert(spec_parse_program_from(t, p0).1 =~= rest.1);
                        assert(view_stmts(stmts@) =~= v0.push(su));
                        assert(v0 + (seq![su] + rest.0) =~= v0.push(su) + rest.0);
                    }
                },
                Result::Err(e) => {
                    let ghost eu = e@;
                    errors.push(e);
                    // resynchronize at the next statement boundary
                    let mut j = pos + 1;
                    #[verifier::loop_isolation(false)]
                    while j < toks.len() && !is_boundary_kind(kind_of(toks, j))
                        invariant
                            pos + 1 <= j <= toks@.len(),
                            sync_dist(t, p0 + 1) == j - pos - 1 + sync_dist(t, j as int),
                        decreases toks@.len() - j,
                    {
                        proof {
                            assert(sync_dist(t, j as int) == 1 + sync_dist(t, j + 1));
                        }
                        j += 1;
                    }
                    proof {
                        assert(sync_dist(t, j as int) == 0);
                        assert(j as int == p0 + 1 + sync_dist(t, p0 + 1));
                    }
                    pos = j;
                    proof {
                        let rest = spec_parse_program_from(t, j as int);
                        assert(spec_parse_program_from(t, p0).0 =~= rest.0);
                        assert(spec_parse_program_from(t, p0).1 =~= seq![eu] + rest.1);
                        assert(view_errors(errors@) =~= e0.push(eu));
                        assert(e0 + (seq![eu] + rest.1) =~= e0.push(eu) + rest.1);
                    }
                },
            }
        }
    }
    proof {
        assert(spec_parse_program_from(t, pos as int).0 =~= Seq::<SpecStmt>::empty());
        assert(spec_parse_program_from(t, pos as int).1 =~= Seq::<SpecParseError>::empty());
        assert(view_stmts(stmts@) + Seq::<SpecStmt>::empty() =~= view_stmts(stmts@));
        assert(view_errors(errors@) + Seq::<SpecParseError>::empty() =~= view_errors(errors@));
    }
    (Program { statements: stmts }, errors)
}

/// Scans and parses a whole source text in one call: the program together
/// with its parse errors, or the fatal scan error of an unterminated string
/// literal. Scan-time fatality aborts the parse outright; every parse error
/// is recovered and collected instead.
pub fn parse_source(source: &[u8]) -> (r: Result<(Program, Vec<ParseError>), ScanError>)
    requires
        source@.len() < usize::MAX,
    ensures
        (r matches Ok(out) ==> spec_scan(source@) matches Ok(ts) && out.0@.statements
            == spec_parse_program(ts).0 && view_errors(out.1@) == spec_parse_program(ts).1),
        (r matches Err(e) ==> spec_scan(source@) matches Err(el) && e matches
            ScanError::UnterminatedString { line } && line as int == el),
{
    match scan(source) {
        Result::Ok(toks) => {
            let (program, errors) = parse_program(&toks);
            Result::Ok((program, errors))
        },
        Result::Err(e) => Result::Err(e),
    }
}

} // verus!
