//! Tokens and their kinds.

use vstd::prelude::*;

verus! {

// Byte values of the ASCII characters the scanner singles out.
pub const B_TAB: u8 = 9;  // '\t'
pub const B_NL: u8 = 10;  // '\n'
pub const B_CR: u8 = 13;  // '\r'
pub const B_SPACE: u8 = 32;  // ' '
pub const B_BANG: u8 = 33;  // '!'
pub const B_QUOTE: u8 = 34;  // '"'
pub const B_LPAREN: u8 = 40;  // '('
pub const B_RPAREN: u8 = 41;  // ')'
pub const B_STAR: u8 = 42;  // '*'
pub const B_PLUS: u8 = 43;  // '+'
pub const B_COMMA: u8 = 44;  // ','
pub const B_MINUS: u8 = 45;  // '-'
pub const B_DOT: u8 = 46;  // '.'
pub const B_SLASH: u8 = 47;  // '/'
pub const B_COLON: u8 = 58;  // ':'
pub const B_SEMI: u8 = 59;  // ';'
pub const B_LT: u8 = 60;  // '<'
pub const B_ASSIGN: u8 = 61;  // '='
pub const B_GT: u8 = 62;  // '>'

/// The closed set of token categories the scanner can produce.
#[derive(Clone, Copy, Debug, PartialEq, Eq, Structural)]
pub enum TokenKind {
    LParen,
    RParen,
    Comma,
    Colon,
    Semicolon,
    NewLine,
    Eof,
    Illegal,
    Plus,
    Minus,
    Star,
    Slash,
    Bang,
    Assign,
    Eq,
    BangEq,
    Lt,
    Gt,
    LtEq,
    GtEq,
    Ident,
    Int,
    Float,
    Str,
    True,
    False,
    Let,
    Fun,
    Return,
    If,
    Else,
    End,
    For,
    In,
    Print,
}

/// A single token: its kind, its text, and the 1-based source line it ends on.
///
/// `text` is empty for punctuation and operator tokens, whose kind already
/// says everything; identifiers and keywords carry their spelling, numbers
/// their digit run, and string tokens their contents with the quotes removed.
#[derive(Debug, PartialEq)]
pub struct Token {
    pub kind: TokenKind,
    pub text: Vec<u8>,
    pub line: usize,
}

/// The mathematical value of a token.
pub struct SpecToken {
    pub kind: TokenKind,
    pub text: Seq<u8>,
    pub line: int,
}

impl View for Token {
    type V = SpecToken;

    open spec fn view(&self) -> SpecToken {
        SpecToken { kind: self.kind, text: self.text@, line: self.line as int }
    }
}

/// The token sequence that a vector of tokens stands for.
pub open spec fn view_tokens(ts: Seq<Token>) -> Seq<SpecToken> {
    ts.map_values(|t: Token| t@)
}

/// A byte-for-byte copy of a byte vector.
pub fn copy_bytes(v: &Vec<u8>) -> (r: Vec<u8>)
    ensures
        r@ == v@,
{
    let mut r: Vec<u8> = Vec::new();
    let mut i: usize = 0;
    proof {
        assert(r@ =~= v@.subrange(0, 0));
    }
    while i < v.len()
        invariant
            i <= v@.len(),
            r@ == v@.subrange(0, i as int),
        decreases v@.len() - i,
    {
        r.push(v[i]);
        proof {
            assert(r@ =~= v@.subrange(0, i + 1 as int));
        }
        i += 1;
    }
    proof {
        assert(r@ =~= v@);
    }
    r
}

impl Token {
    /// Builds a token from its parts.
    pub fn new(kind: TokenKind, text: Vec<u8>, line: usize) -> (t: Token)
        ensures
            t@ == (SpecToken { kind, text: text@, line: line as int }),
    {
        Token { kind, text, line }
    }
}

impl Clone for Token {
    /// A copy of the token with the same kind, text and line.
    fn clone(&self) -> (t: Self)
        ensures
            t@ == self@,
    {
        Token { kind: self.kind, text: copy_bytes(&self.text), line: self.line }
    }
}

/// The spelling "let".
pub open spec fn kw_let() -> Seq<u8> {
    seq![108u8, 101u8, 116u8]
}

/// The spelling "fun".
pub open spec fn kw_fun() -> Seq<u8> {
    seq![102u8, 117u8, 110u8]
}

/// The spelling "return".
pub open spec fn kw_return() -> Seq<u8> {
    seq![114u8, 101u8, 116u8, 117u8, 114u8, 110u8]
}

/// The spelling "end".
pub open spec fn kw_end() -> Seq<u8> {
    seq![101u8, 110u8, 100u8]
}

/// The spelling "if".
pub open spec fn kw_if() -> Seq<u8> {
    seq![105u8, 102u8]
}

/// The spelling "else".
pub open spec fn kw_else() -> Seq<u8> {
    seq![101u8, 108u8, 115u8, 101u8]
}

/// The spelling "for".
pub open spec fn kw_for() -> Seq<u8> {
    seq![102u8, 111u8, 114u8]
}

/// The spelling "in".
pub open spec fn kw_in() -> Seq<u8> {
    seq![105u8, 110u8]
}

/// The spelling "true".
pub open spec fn kw_true() -> Seq<u8> {
    seq![116u8, 114u8, 117u8, 101u8]
}

/// The spelling "false".
pub open spec fn kw_false() -> Seq<u8> {
    seq![102u8, 97u8, 108u8, 115u8, 101u8]
}

/// The spelling "print".
pub open spec fn kw_print() -> Seq<u8> {
    seq![112u8, 114u8, 105u8, 110u8, 116u8]
}

/// The kind a word scans to: its dedicated keyword kind if the spelling is in
/// the keyword table, and `Ident` otherwise. The table is exact-match.
pub open spec fn keyword_kind(text: Seq<u8>) -> TokenKind {
    if text == kw_let() {
        TokenKind::Let
    } else if text == kw_fun() {
        TokenKind::Fun
    } else if text == kw_return() {
        TokenKind::Return
    } else if text == kw_end() {
        TokenKind::End
    } else if text == kw_if() {
        TokenKind::If
    } else if text == kw_else() {
        TokenKind::Else
    } else if text == kw_for() {
        TokenKind::For
    } else if text == kw_in() {
        TokenKind::In
    } else if text == kw_true() {
        TokenKind::True
    } else if text == kw_false() {
        TokenKind::False
    } else if text == kw_print() {
        TokenKind::Print
    } else {
        TokenKind::Ident
    }
}

/// Looks a word up in the keyword table.
pub fn lookup_keyword(text: &Vec<u8>) -> (k: TokenKind)
    ensures
        k == keyword_kind(text@),
{
    let n = text.len();
    let k = if n == 2 {
        if text[0] == 105 && text[1] == 102 {  // "if"
            TokenKind::If
        } else if text[0] == 105 && text[1] == 110 {  // "in"
            TokenKind::In
        } else {
            TokenKind::Ident
        }
    } else if n == 3 {
        if text[0] == 108 && text[1] == 101 && text[2] == 116 {  // "let"
            TokenKind::Let
        } else if text[0] == 102 && text[1] == 117 && text[2] == 110 {  // "fun"
            TokenKind::Fun
        } else if text[0] == 101 && text[1] == 110 && text[2] == 100 {  // "end"
            TokenKind::End
        } else if text[0] == 102 && text[1] == 111 && text[2] == 114 {  // "for"
            TokenKind::For
        } else {
            TokenKind::Ident
        }
    } else if n == 4 {
        if text[0] == 101 && text[1] == 108 && text[2] == 115 && text[3] == 101 {  // "else"
            TokenKind::Else
        } else if text[0] == 116 && text[1] == 114 && text[2] == 117 && text[3] == 101 {  // "true"
            TokenKind::True
        } else {
            TokenKind::Ident
        }
    } else if n == 5 {
        if text[0] == 102 && text[1] == 97 && text[2] == 108 && text[3] == 115 && text[4]
            == 101 {  // "false"
            TokenKind::False
        } else if text[0] == 112 && text[1] == 114 && text[2] == 105 && text[3] == 110 && text[4]
            == 116 {  // "print"
            TokenKind::Print
        } else {
            TokenKind::Ident
        }
    } else if n == 6 {
        if text[0] == 114 && text[1] == 101 && text[2] == 116 && text[3] == 117 && text[4] == 114
            && text[5] == 110 {  // "return"
            TokenKind::Return
        } else {
            TokenKind::Ident
        }
    } else {
        TokenKind::Ident
    };
    proof {
        lemma_keyword_cases(text@);
    }
    k
}

/// Each keyword spelling equals a byte sequence exactly when the lengths and
/// the bytes agree pointwise; `lookup_keyword` decides `keyword_kind` by it.
proof fn lemma_keyword_cases(text: Seq<u8>)
    ensures
        (text == kw_let()) <==> (text.len() == 3 && text[0] == 108 && text[1] == 101 && text[2]
            == 116),
        (text == kw_fun()) <==> (text.len() == 3 && text[0] == 102 && text[1] == 117 && text[2]
            == 110),
        (text == kw_return()) <==> (text.len() == 6 && text[0] == 114 && text[1] == 101 && text[2]
            == 116 && text[3] == 117 && text[4] == 114 && text[5] == 110),
        (text == kw_end()) <==> (text.len() == 3 && text[0] == 101 && text[1] == 110 && text[2]
            == 100),
        (text == kw_if()) <==> (text.len() == 2 && text[0] == 105 && text[1] == 102),
        (text == kw_else()) <==> (text.len() == 4 && text[0] == 101 && text[1] == 108 && text[2]
            == 115 && text[3] == 101),
        (text == kw_for()) <==> (text.len() == 3 && text[0] == 102 && text[1] == 111 && text[2]
            == 114),
        (text == kw_in()) <==> (text.len() == 2 && text[0] == 105 && text[1] == 110),
        (text == kw_true()) <==> (text.len() == 4 && text[0] == 116 && text[1] == 114 && text[2]
            == 117 && text[3] == 101),
        (text == kw_false()) <==> (text.len() == 5 && text[0] == 102 && text[1] == 97 && text[2]
            == 108 && text[3] == 115 && text[4] == 101),
        (text == kw_print()) <==> (text.len() == 5 && text[0] == 112 && text[1] == 114 && text[2]
            == 105 && text[3] == 110 && text[4] == 116),
{
    if text.len() == 3 && text[0] == 108 && text[1] == 101 && text[2] == 116 {
        assert(text =~= kw_let());
    }
    if text.len() == 3 && text[0] == 102 && text[1] == 117 && text[2] == 110 {
        assert(text =~= kw_fun());
    }
    if text.len() == 6 && text[0] == 114 && text[1] == 101 && text[2] == 116 && text[3] == 117
        && text[4] == 114 && text[5] == 110 {
        assert(text =~= kw_return());
    }
    if text.len() == 3 && text[0] == 101 && text[1] == 110 && text[2] == 100 {
        assert(text =~= kw_end());
    }
    if text.len() == 2 && text[0] == 105 && text[1] == 102 {
        assert(text =~= kw_if());
    }
    if text.len() == 4 && text[0] == 101 && text[1] == 108 && text[2] == 115 && text[3] == 101 {
        assert(text =~= kw_else());
    }
    if text.len() == 3 && text[0] == 102 && text[1] == 111 && text[2] == 114 {
        assert(text =~= kw_for());
    }
    if text.len() == 2 && text[0] == 105 && text[1] == 110 {
        assert(text =~= kw_in());
    }
    if text.len() == 4 && text[0] == 116 && text[1] == 114 && text[2] == 117 && text[3] == 101 {
        assert(text =~= kw_true());
    }
    if text.len() == 5 && text[0] == 102 && text[1] == 97 && text[2] == 108 && text[3] == 115
        && text[4] == 101 {
        assert(text =~= kw_false());
    }
    if text.len() == 5 && text[0] == 112 && text[1] == 114 && text[2] == 105 && text[3] == 110
        && text[4] == 116 {
        assert(text =~= kw_print());
    }
}

} // verus!
