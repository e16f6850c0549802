//! The abstract syntax tree: a closed tagged union over the statement and
//! expression variants, with exhaustive matching at every consumer.
//!
//! Every node owns its children outright; the tree is built during parsing
//! and never mutated afterwards. `render` turns a node back into a fully
//! parenthesised textual form, which makes grouping and associativity
//! directly visible.

use vstd::prelude::*;

use crate::token::copy_bytes;
use crate::token::SpecToken;
use crate::token::Token;
use crate::token::TokenKind;
use crate::token::B_ASSIGN;
use crate::token::B_BANG;
use crate::token::B_GT;
use crate::token::B_LPAREN;
use crate::token::B_LT;
use crate::token::B_MINUS;
use crate::token::B_NL;
use crate::token::B_PLUS;
use crate::token::B_QUOTE;
use crate::token::B_RPAREN;
use crate::token::B_SLASH;
use crate::token::B_SPACE;
use crate::token::B_STAR;

verus! {

/// A name standing for a value; it keeps its originating token by copy.
#[derive(Debug, PartialEq)]
pub struct Identifier {
    pub token: Token,
    pub name: Vec<u8>,
}

/// A unary operator applied to an operand: `-x`, `!ready`.
#[derive(Debug, PartialEq)]
pub struct PrefixExpr {
    pub operator: TokenKind,
    pub operand: Box<Expr>,
}

/// A binary operator applied to two operands: `a + b`, `a <= b`.
#[derive(Debug, PartialEq)]
pub struct InfixExpr {
    pub operator: TokenKind,
    pub left: Box<Expr>,
    pub right: Box<Expr>,
}

/// An expression.
#[derive(Debug, PartialEq)]
pub enum Expr {
    Name(Identifier),
    IntLit { token: Token },
    FloatLit { token: Token },
    StrLit { token: Token },
    BoolLit { token: Token },
    Prefix(PrefixExpr),
    Infix(InfixExpr),
}

/// A `let` binding: `let name = value`. The binding is complete only once
/// its value expression is fully parsed.
#[derive(Debug, PartialEq)]
pub struct LetStmt {
    pub token: Token,
    pub name: Identifier,
    pub value: Expr,
}

/// A statement.
#[derive(Debug, PartialEq)]
pub enum Stmt {
    Let(LetStmt),
}

/// The root of the tree: statements in source order, which is execution
/// order.
#[derive(Debug, PartialEq)]
pub struct Program {
    pub statements: Vec<Stmt>,
}

/// The mathematical value of an `Identifier`.
pub struct SpecIdentifier {
    pub token: SpecToken,
    pub name: Seq<u8>,
}

/// The mathematical value of a `PrefixExpr`.
pub struct SpecPrefixExpr {
    pub operator: TokenKind,
    pub operand: Box<SpecExpr>,
}

/// The mathematical value of an `InfixExpr`.
pub struct SpecInfixExpr {
    pub operator: TokenKind,
    pub left: Box<SpecExpr>,
    pub right: Box<SpecExpr>,
}

/// The mathematical value of an `Expr`.
pub enum SpecExpr {
    Name(SpecIdentifier),
    IntLit { token: SpecToken },
    FloatLit { token: SpecToken },
    StrLit { token: SpecToken },
    BoolLit { token: SpecToken },
    Prefix(SpecPrefixExpr),
    Infix(SpecInfixExpr),
}

/// The mathematical value of a `LetStmt`.
pub struct SpecLetStmt {
    pub token: SpecToken,
    pub name: SpecIdentifier,
    pub value: SpecExpr,
}

/// The mathematical value of a `Stmt`.
pub enum SpecStmt {
    Let(SpecLetStmt),
}

/// The mathematical value of a `Program`.
pub struct SpecProgram {
    pub statements: Seq<SpecStmt>,
}

/// The tree an expression stands for.
pub open spec fn view_expr(e: Expr) -> SpecExpr
    decreases e,
{
    match e {
        Expr::Name(id) => SpecExpr::Name(SpecIdentifier { token: id.token@, name: id.name@ }),
        Expr::IntLit { token } => SpecExpr::IntLit { token: token@ },
        Expr::FloatLit { token } => SpecExpr::FloatLit { token: token@ },
        Expr::StrLit { token } => SpecExpr::StrLit { token: token@ },
        Expr::BoolLit { token } => SpecExpr::BoolLit { token: token@ },
        Expr::Prefix(p) => SpecExpr::Prefix(
            SpecPrefixExpr { operator: p.operator, operand: Box::new(view_expr(*p.operand)) },
        ),
        Expr::Infix(b) => SpecExpr::Infix(
            SpecInfixExpr {
                operator: b.operator,
                left: Box::new(view_expr(*b.left)),
                right: Box::new(view_expr(*b.right)),
            },
        ),
    }
}

impl View for Expr {
    type V = SpecExpr;

    open spec fn view(&self) -> SpecExpr {
        view_expr(*self)
    }
}

impl View for Identifier {
    type V = SpecIdentifier;

    open spec fn view(&self) -> SpecIdentifier {
        SpecIdentifier { token: self.token@, name: self.name@ }
    }
}

impl View for PrefixExpr {
    type V = SpecPrefixExpr;

    open spec fn view(&self) -> SpecPrefixExpr {
        SpecPrefixExpr { operator: self.operator, operand: Box::new(view_expr(*self.operand)) }
    }
}

impl View for InfixExpr {
    type V = SpecInfixExpr;

    open spec fn view(&self) -> SpecInfixExpr {
        SpecInfixExpr {
            operator: self.operator,
            left: Box::new(view_expr(*self.left)),
            right: Box::new(view_expr(*self.right)),
        }
    }
}

impl View for LetStmt {
    type V = SpecLetStmt;

    open spec fn view(&self) -> SpecLetStmt {
        SpecLetStmt { token: self.token@, name: self.name@, value: self.value@ }
    }
}

impl View for Stmt {
    type V = SpecStmt;

    open spec fn view(&self) -> SpecStmt {
        match self {
            Stmt::Let(ls) => SpecStmt::Let(ls@),
        }
    }
}

impl View for Program {
    type V = SpecProgram;

    open spec fn view(&self) -> SpecProgram {
        SpecProgram { statements: self.statements@.map_values(|s: Stmt| s@) }
    }
}

impl Identifier {
    /// Builds an identifier node from its token and spelling.
    pub fn new(token: Token, name: Vec<u8>) -> (id: Identifier)
        ensures
            id@ == (SpecIdentifier { token: token@, name: name@ }),
    {
        Identifier { token, name }
    }
}

impl PrefixExpr {
    /// Builds a unary expression from its operator and operand.
    pub fn new(operator: TokenKind, operand: Box<Expr>) -> (e: PrefixExpr)
        ensures
            e@ == (SpecPrefixExpr { operator, operand: Box::new(operand@) }),
    {
        PrefixExpr { operator, operand }
    }
}

impl InfixExpr {
    /// Builds a binary expression from its operator and operands.
    pub fn new(operator: TokenKind, left: Box<Expr>, right: Box<Expr>) -> (e: InfixExpr)
        ensures
            e@ == (SpecInfixExpr { operator, left: Box::new(left@), right: Box::new(right@) }),
    {
        InfixExpr { operator, left, right }
    }
}

/// The spelling of an operator kind; empty for kinds that are not operators.
pub open spec fn op_text(k: TokenKind) -> Seq<u8> {
    match k {
        TokenKind::Plus => seq![B_PLUS],
        TokenKind::Minus => seq![B_MINUS],
        TokenKind::Star => seq![B_STAR],
        TokenKind::Slash => seq![B_SLASH],
        TokenKind::Bang => seq![B_BANG],
        TokenKind::Assign => seq![B_ASSIGN],
        TokenKind::Eq => seq![B_ASSIGN, B_ASSIGN],
        TokenKind::BangEq => seq![B_BANG, B_ASSIGN],
        TokenKind::Lt => seq![B_LT],
        TokenKind::Gt => seq![B_GT],
        TokenKind::LtEq => seq![B_LT, B_ASSIGN],
        TokenKind::GtEq => seq![B_GT, B_ASSIGN],
        _ => Seq::empty(),
    }
}

/// The rendered form of an expression: literals and names as their text,
/// string literals re-quoted, and every operator application parenthesised.
pub open spec fn spec_render_expr(e: SpecExpr) -> Seq<u8>
    decreases e,
{
    match e {
        SpecExpr::Name(id) => id.name,
        SpecExpr::IntLit { token } => token.text,
        SpecExpr::FloatLit { token } => token.text,
        SpecExpr::StrLit { token } => seq![B_QUOTE] + token.text + seq![B_QUOTE],
        SpecExpr::BoolLit { token } => token.text,
        SpecExpr::Prefix(p) => seq![B_LPAREN] + op_text(p.operator) + spec_render_expr(*p.operand)
            + seq![B_RPAREN],
        SpecExpr::Infix(b) => seq![B_LPAREN] + spec_render_expr(*b.left) + seq![B_SPACE] + op_text(
            b.operator,
        ) + seq![B_SPACE] + spec_render_expr(*b.right) + seq![B_RPAREN],
    }
}

/// The rendered form of a statement.
pub open spec fn spec_render_stmt(s: SpecStmt) -> Seq<u8> {
    match s {
        SpecStmt::Let(ls) => seq![108u8, 101u8, 116u8, B_SPACE]  // "let "
             + ls.name.name + seq![B_SPACE, B_ASSIGN, B_SPACE] + spec_render_expr(ls.value),
    }
}

/// The rendered forms of the statements from `i` on, each preceded by a
/// newline.
pub open spec fn spec_render_from(ss: Seq<SpecStmt>, i: int) -> Seq<u8>
    decreases ss.len() - i,
{
    if 0 <= i < ss.len() {
        seq![B_NL] + spec_render_stmt(ss[i]) + spec_render_from(ss, i + 1)
    } else {
        Seq::empty()
    }
}

/// The rendered form of a program: its statements joined by newlines.
pub open spec fn spec_render_program(p: SpecProgram) -> Seq<u8> {
    if p.statements.len() == 0 {
        Seq::empty()
    } else {
        spec_render_stmt(p.statements[0]) + spec_render_from(p.statements, 1)
    }
}

/// A one-byte vector.
fn byte1(b: u8) -> (v: Vec<u8>)
    ensures
        v@ == seq![b],
{
    let mut v: Vec<u8> = Vec::new();
    v.push(b);
    proof {
        assert(v@ =~= seq![b]);
    }
    v
}

/// Appends the bytes of `src` to `dst`.
fn append_bytes(dst: &mut Vec<u8>, src: &Vec<u8>)
    ensures
        final(dst)@ == old(dst)@ + src@,
{
    let mut i: usize = 0;
    proof {
        assert(dst@ =~= old(dst)@ + src@.subrange(0, 0));
    }
    while i < src.len()
        invariant
            i <= src@.len(),
            dst@ == old(dst)@ + src@.subrange(0, i as int),
        decreases src@.len() - i,
    {
        dst.push(src[i]);
        proof {
            assert(dst@ =~= old(dst)@ + src@.subrange(0, i + 1 as int));
        }
        i += 1;
    }
    proof {
        assert(src@.subrange(0, src@.len() as int) =~= src@);
    }
}

/// The spelling of an operator kind.
pub fn op_bytes(k: TokenKind) -> (v: Vec<u8>)
    ensures
        v@ == op_text(k),
{
    let v = match k {
        TokenKind::Plus => byte1(B_PLUS),
        TokenKind::Minus => byte1(B_MINUS),
        TokenKind::Star => byte1(B_STAR),
        TokenKind::Slash => byte1(B_SLASH),
        TokenKind::Bang => byte1(B_BANG),
        TokenKind::Assign => byte1(B_ASSIGN),
        TokenKind::Eq => {
            let mut v = byte1(B_ASSIGN);
            v.push(B_ASSIGN);
            v
        },
        TokenKind::BangEq => {
            let mut v = byte1(B_BANG);
            v.push(B_ASSIGN);
            v
        },
        TokenKind::Lt => byte1(B_LT),
        TokenKind::Gt => byte1(B_GT),
        TokenKind::LtEq => {
            let mut v = byte1(B_LT);
            v.push(B_ASSIGN);
            v
        },
        TokenKind::GtEq => {
            let mut v = byte1(B_GT);
            v.push(B_ASSIGN);
            v
        },
        _ => Vec::new(),
    };
    proof {
        assert(v@ =~= op_text(k));
    }
    v
}

/// Renders an expression.
pub fn render_expr(e: &Expr) -> (r: Vec<u8>)
    ensures
        r@ == spec_render_expr(e@),
    decreases *e,
{
    match e {
        Expr::Name(id) => copy_bytes(&id.name),
        Expr::IntLit { token } => copy_bytes(&token.text),
        Expr::FloatLit { token } => copy_bytes(&token.text),
        Expr::StrLit { token } => {
            let mut r = byte1(B_QUOTE);
            append_bytes(&mut r, &token.text);
            r.push(B_QUOTE);
            proof {
                assert(r@ =~= seq![B_QUOTE] + token.text@ + seq![B_QUOTE]);
            }
            r
        },
        Expr::BoolLit { token } => copy_bytes(&token.text),
        Expr::Prefix(p) => {
            let mut r = byte1(B_LPAREN);
            let op = op_bytes(p.operator);
            append_bytes(&mut r, &op);
            let inner = render_expr(&*p.operand);
            append_bytes(&mut r, &inner);
            r.push(B_RPAREN);
            proof {
                assert(r@ =~= seq![B_LPAREN] + op_text(p.operator) + spec_render_expr(
                    p.operand@,
                ) + seq![B_RPAREN]);
            }
            r
        },
        Expr::Infix(b) => {
            let mut r = byte1(B_LPAREN);
            let left = render_expr(&*b.left);
            append_bytes(&mut r, &left);
            r.push(B_SPACE);
            let op = op_bytes(b.operator);
            append_bytes(&mut r, &op);
            r.push(B_SPACE);
            let right = render_expr(&*b.right);
            append_bytes(&mut r, &right);
            r.push(B_RPAREN);
            proof {
                assert(r@ =~= seq![B_LPAREN] + spec_render_expr(b.left@) + seq![B_SPACE]
                    + op_text(b.operator) + seq![B_SPACE] + spec_render_expr(b.right@) + seq![
                    B_RPAREN,
                ]);
            }
            r
        },
    }
}

/// Renders a statement.
pub fn render_stmt(s: &Stmt) -> (r: Vec<u8>)
    ensures
        r@ == spec_render_stmt(s@),
{
    match s {
        Stmt::Let(ls) => {
            let mut r: Vec<u8> = Vec::new();
            r.push(108);  // 'l'
            r.push(101);  // 'e'
            r.push(116);  // 't'
            r.push(B_SPACE);
            append_bytes(&mut r, &ls.name.name);
            r.push(B_SPACE);
            r.push(B_ASSIGN);
            r.push(B_SPACE);
            let value = render_expr(&ls.value);
            append_bytes(&mut r, &value);
            proof {
                assert(r@ =~= seq![108u8, 101u8, 116u8, B_SPACE] + ls.name.name@ + seq![
                    B_SPACE,
                    B_ASSIGN,
                    B_SPACE,
                ] + spec_render_expr(ls.value@));
            }
            r
        },
    }
}

/// Renders a program: its statements joined by newlines.
pub fn render_program(p: &Program) -> (r: Vec<u8>)
    ensures
        r@ == spec_render_program(p@),
{
    if p.statements.len() == 0 {
        let r: Vec<u8> = Vec::new();
        proof {
            assert(r@ =~= Seq::<u8>::empty());
        }
        r
    } else {
        let mut r = render_stmt(&p.statements[0]);
        let mut i: usize = 1;
        proof {
            assert(p@.statements == p.statements@.map_values(|s: Stmt| s@));
        }
        while i < p.statements.len()
            invariant
                1 <= i <= p.statements@.len(),
                p@.statements.len() == p.statements@.len(),
                spec_render_program(p@) == r@ + spec_render_from(p@.statements, i as int),
            decreases p.statements@.len() - i,
        {
            let ghost r0 = r@;
            r.push(B_NL);
            let piece = render_stmt(&p.statements[i]);
            append_bytes(&mut r, &piece);
            proof {
                assert(p@.statements[i as int] == p.statements@[i as int]@);
                assert(r@ =~= r0 + (seq![B_NL] + spec_render_stmt(p@.statements[i as int])));
                assert(r0 + (seq![B_NL] + spec_render_stmt(p@.statements[i as int]))
                    + spec_render_from(p@.statements, i + 1) =~= r0 + spec_render_from(
                    p@.statements,
                    i as int,
                ));
            }
            i += 1;
        }
        proof {
            assert(spec_render_from(p@.statements, i as int) =~= Seq::<u8>::empty());
            assert(r@ + Seq::<u8>::empty() =~= r@);
        }
        r
    }
}

} // verus!
