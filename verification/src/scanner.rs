//! The scanner: a deterministic, single-pass, longest-match tokenizer over
//! source text treated as a byte sequence.
//!
//! `spec_scan` is the mathematical model of tokenization; `scan` is the
//! executable scanner, proved to produce exactly the modelled token sequence,
//! or the modelled fatal error when a string literal is left unterminated.

use vstd::prelude::*;

use crate::token::B_ASSIGN;
use crate::token::B_BANG;
use crate::token::B_COLON;
use crate::token::B_COMMA;
use crate::token::B_CR;
use crate::token::B_DOT;
use crate::token::B_GT;
use crate::token::B_LPAREN;
use crate::token::B_LT;
use crate::token::B_MINUS;
use crate::token::B_NL;
use crate::token::B_PLUS;
use crate::token::B_QUOTE;
use crate::token::B_RPAREN;
use crate::token::B_SEMI;
use crate::token::B_SLASH;
use crate::token::B_SPACE;
use crate::token::B_STAR;
use crate::token::B_TAB;
use crate::token::keyword_kind;
use crate::token::lookup_keyword;
use crate::token::view_tokens;
use crate::token::SpecToken;
use crate::token::Token;
use crate::token::TokenKind;

verus! {

/// The scan-time fatal condition: a string literal with no closing quote
/// before end of input. It carries the 1-based line of the opening quote.
#[derive(Clone, Copy, Debug, PartialEq, Eq, Structural)]
pub enum ScanError {
    UnterminatedString { line: usize },
}

/// Whitespace the scanner skips: space, tab and carriage return. A newline is
/// not skipped; it is a token of its own.
pub open spec fn is_skippable(c: u8) -> bool {
    c == B_SPACE || c == B_TAB || c == B_CR
}

/// A decimal digit byte.
pub open spec fn spec_is_digit(c: u8) -> bool {
    48 <= c && c <= 57
}

/// A byte that can start an identifier: a letter or an underscore.
pub open spec fn spec_is_alpha(c: u8) -> bool {
    (97 <= c && c <= 122) || (65 <= c && c <= 90) || c == 95
}

/// A byte that can continue an identifier.
pub open spec fn spec_is_ident_byte(c: u8) -> bool {
    spec_is_alpha(c) || spec_is_digit(c)
}

/// How many bytes of input remain at `pos`: the measure every scanning
/// recursion descends on.
pub open spec fn rem_bytes(s: Seq<u8>, pos: int) -> int {
    if pos <= s.len() {
        s.len() - pos
    } else {
        0
    }
}

/// The number of identifier bytes running from `i`.
pub open spec fn ident_len(s: Seq<u8>, i: int) -> nat
    decreases rem_bytes(s, i),
{
    if 0 <= i < s.len() && spec_is_ident_byte(s[i]) {
        1 + ident_len(s, i + 1)
    } else {
        0
    }
}

/// The number of digit bytes running from `i`.
pub open spec fn digit_len(s: Seq<u8>, i: int) -> nat
    decreases rem_bytes(s, i),
{
    if 0 <= i < s.len() && spec_is_digit(s[i]) {
        1 + digit_len(s, i + 1)
    } else {
        0
    }
}

/// The number of bytes a line comment covers from `i`: everything up to, and
/// not including, the next newline or the end of input.
pub open spec fn comment_len(s: Seq<u8>, i: int) -> nat
    decreases rem_bytes(s, i),
{
    if 0 <= i < s.len() && s[i] != B_NL {
        1 + comment_len(s, i + 1)
    } else {
        0
    }
}

/// The distance from `i` to the next quote byte, or `None` if no quote occurs
/// before the end of input.
pub open spec fn quote_dist(s: Seq<u8>, i: int) -> Option<nat>
    decreases rem_bytes(s, i),
{
    if !(0 <= i < s.len()) {
        Option::None
    } else if s[i] == B_QUOTE {
        Option::Some(0nat)
    } else {
        match quote_dist(s, i + 1) {
            Option::Some(d) => Option::Some(d + 1),
            Option::None => Option::None,
        }
    }
}

/// The number of newline bytes in `s[i..j]`.
pub open spec fn nl_count(s: Seq<u8>, i: int, j: int) -> nat
    decreases j - i,
{
    if i >= j {
        0
    } else {
        (if 0 <= i < s.len() && s[i] == B_NL {
            1nat
        } else {
            0nat
        }) + nl_count(s, i + 1, j)
    }
}

/// What the scanner does at one cursor position: emit a token, skip bytes
/// without emitting, or fail on an unterminated string. `extra` is how many
/// bytes beyond the first are consumed; `nl` is how many newlines are.
pub enum ScanStep {
    Emit { tok: SpecToken, extra: nat, nl: nat },
    Skip { extra: nat },
    Fatal { line: int },
}

/// A one-byte punctuation or operator token; its text is empty because the
/// kind is self-describing.
pub open spec fn punct(kind: TokenKind, line: int) -> ScanStep {
    ScanStep::Emit { tok: SpecToken { kind, text: Seq::empty(), line }, extra: 0, nl: 0 }
}

/// A two-byte operator token.
pub open spec fn punct2(kind: TokenKind, line: int) -> ScanStep {
    ScanStep::Emit { tok: SpecToken { kind, text: Seq::empty(), line }, extra: 1, nl: 0 }
}

/// The single step of the scanner at position `pos` of `s`, on a 1-based
/// `line`: which token starts here, how far the cursor moves, and how the
/// line count changes. Longest match: two-byte operators, identifier runs,
/// digit runs and string bodies all extend as far as the input allows.
pub open spec fn spec_step(s: Seq<u8>, pos: int, line: int) -> ScanStep
    recommends
        0 <= pos < s.len(),
{
    let c = s[pos];
    if is_skippable(c) {
        ScanStep::Skip { extra: 0 }
    } else if c == B_NL {
        ScanStep::Emit {
            tok: SpecToken { kind: TokenKind::NewLine, text: Seq::empty(), line: line + 1 },
            extra: 0,
            nl: 1,
        }
    } else if c == B_LPAREN {
        punct(TokenKind::LParen, line)
    } else if c == B_RPAREN {
        punct(TokenKind::RParen, line)
    } else if c == B_COLON {
        punct(TokenKind::Colon, line)
    } else if c == B_COMMA {
        punct(TokenKind::Comma, line)
    } else if c == B_PLUS {
        punct(TokenKind::Plus, line)
    } else if c == B_MINUS {
        punct(TokenKind::Minus, line)
    } else if c == B_STAR {
        punct(TokenKind::Star, line)
    } else if c == B_SEMI {
        punct(TokenKind::Semicolon, line)
    } else if c == B_ASSIGN {
        if pos + 1 < s.len() && s[pos + 1] == B_ASSIGN {
            punct2(TokenKind::Eq, line)
        } else {
            punct(TokenKind::Assign, line)
        }
    } else if c == B_LT {
        if pos + 1 < s.len() && s[pos + 1] == B_ASSIGN {
            punct2(TokenKind::LtEq, line)
        } else {
            punct(TokenKind::Lt, line)
        }
    } else if c == B_GT {
        if pos + 1 < s.len() && s[pos + 1] == B_ASSIGN {
            punct2(TokenKind::GtEq, line)
        } else {
            punct(TokenKind::Gt, line)
        }
    } else if c == B_BANG {
        if pos + 1 < s.len() && s[pos + 1] == B_ASSIGN {
            punct2(TokenKind::BangEq, line)
        } else {
            punct(TokenKind::Bang, line)
        }
    } else if c == B_SLASH {
        if pos + 1 < s.len() && s[pos + 1] == B_SLASH {
            ScanStep::Skip { extra: 1 + comment_len(s, pos + 2) }
        } else {
            punct(TokenKind::Slash, line)
        }
    } else if c == B_QUOTE {
        match quote_dist(s, pos + 1) {
            Option::None => ScanStep::Fatal { line },
            Option::Some(d) => {
                let nl = nl_count(s, pos + 1, pos + 1 + d);
                ScanStep::Emit {
                    tok: SpecToken {
                        kind: TokenKind::Str,
                        text: s.subrange(pos + 1, pos + 1 + d),
                        line: line + nl,
                    },
                    extra: d + 1,
                    nl,
                }
            },
        }
    } else if spec_is_alpha(c) {
        let l = ident_len(s, pos + 1);
        let text = s.subrange(pos, pos + 1 + l);
        ScanStep::Emit {
            tok: SpecToken { kind: keyword_kind(text), text, line },
            extra: l,
            nl: 0,
        }
    } else if spec_is_digit(c) {
        let d1 = digit_len(s, pos + 1);
        let e1 = pos + 1 + d1;
        if e1 + 1 < s.len() && s[e1] == B_DOT && spec_is_digit(s[e1 + 1]) {
            let d2 = digit_len(s, e1 + 1);
            ScanStep::Emit {
                tok: SpecToken {
                    kind: TokenKind::Float,
                    text: s.subrange(pos, e1 + 1 + d2),
                    line,
                },
                extra: d1 + 1 + d2,
                nl: 0,
            }
        } else {
            ScanStep::Emit {
                tok: SpecToken { kind: TokenKind::Int, text: s.subrange(pos, e1), line },
                extra: d1,
                nl: 0,
            }
        }
    } else {
        ScanStep::Emit {
            tok: SpecToken { kind: TokenKind::Illegal, text: Seq::empty(), line },
            extra: 0,
            nl: 0,
        }
    }
}

/// The token sequence of `s` from position `pos` on, at 1-based `line`:
/// either all remaining tokens ending in `Eof`, or the line of an
/// unterminated string. Every step consumes at least one byte, so the scan
/// terminates.
pub open spec fn spec_scan_from(s: Seq<u8>, pos: int, line: int) -> Result<Seq<SpecToken>, int>
    decreases rem_bytes(s, pos),
{
    if !(0 <= pos < s.len()) {
        Result::Ok(seq![SpecToken { kind: TokenKind::Eof, text: Seq::empty(), line }])
    } else {
        match spec_step(s, pos, line) {
            ScanStep::Skip { extra } => spec_scan_from(s, pos + 1 + extra, line),
            ScanStep::Emit { tok, extra, nl } => {
                match spec_scan_from(s, pos + 1 + extra, line + nl) {
                    Result::Ok(rest) => Result::Ok(seq![tok] + rest),
                    Result::Err(el) => Result::Err(el),
                }
            },
            ScanStep::Fatal { line: el } => Result::Err(el),
        }
    }
}

/// The complete token sequence of a source text, or the line of its
/// unterminated string literal.
pub open spec fn spec_scan(s: Seq<u8>) -> Result<Seq<SpecToken>, int> {
    spec_scan_from(s, 0, 1)
}

/// Prepends already-produced tokens to the outcome of the remaining scan.
pub open spec fn scan_app(pre: Seq<SpecToken>, r: Result<Seq<SpecToken>, int>) -> Result<
    Seq<SpecToken>,
    int,
> {
    match r {
        Result::Ok(ts) => Result::Ok(pre + ts),
        Result::Err(el) => Result::Err(el),
    }
}

/// The byte at `i`, or 0 past the end of the input.
pub open spec fn spec_peek(s: Seq<u8>, i: int) -> u8 {
    if 0 <= i < s.len() {
        s[i]
    } else {
        0
    }
}

/// Whether a byte is a decimal digit.
pub fn is_digit(c: u8) -> (r: bool)
    ensures
        r == spec_is_digit(c),
{
    48 <= c && c <= 57
}

/// Whether a byte is a letter or an underscore.
pub fn is_alpha(c: u8) -> (r: bool)
    ensures
        r == spec_is_alpha(c),
{
    (97 <= c && c <= 122) || (65 <= c && c <= 90) || c == 95
}

/// The byte under the cursor, or 0 once the cursor is past the end.
pub fn peek(source: &[u8], current: usize) -> (r: u8)
    ensures
        r == spec_peek(source@, current as int),
{
    if current >= source.len() {
        0
    } else {
        source[current]
    }
}

/// The byte one past the cursor, or 0 if that is past the end.
pub fn peek_next(source: &[u8], current: usize) -> (r: u8)
    ensures
        r == spec_peek(source@, current as int + 1),
{
    if current < source.len() && current + 1 < source.len() {
        source[current + 1]
    } else {
        0
    }
}

/// Copies `s[a..b]` into a fresh vector.
fn copy_range(s: &[u8], a: usize, b: usize) -> (v: Vec<u8>)
    requires
        a <= b <= s@.len(),
    ensures
        v@ == s@.subrange(a as int, b as int),
{
    let mut v: Vec<u8> = Vec::new();
    let mut i: usize = a;
    proof {
        assert(v@ =~= s@.subrange(a as int, a as int));
    }
    while i < b
        invariant
            a <= i <= b <= s@.len(),
            v@ == s@.subrange(a as int, i as int),
        decreases b - i,
    {
        v.push(s[i]);
        proof {
            assert(v@ =~= s@.subrange(a as int, i + 1 as int));
        }
        i += 1;
    }
    v
}

/// Extends a newline count one byte to the right.
proof fn lemma_nl_count_snoc(s: Seq<u8>, a: int, j: int)
    requires
        a <= j,
    ensures
        nl_count(s, a, j + 1) == nl_count(s, a, j) + (if 0 <= j < s.len() && s[j] == B_NL {
            1int
        } else {
            0int
        }),
    decreases j - a,
{
    if a < j {
        lemma_nl_count_snoc(s, a + 1, j);
    } else {
        assert(nl_count(s, j + 1, j + 1) == 0);
        assert(nl_count(s, a, j) == 0);
    }
}

/// A stretch of input without a quote has no quote distance.
proof fn lemma_quote_dist_none(s: Seq<u8>, a: int)
    requires
        forall|k: int| a <= k < s.len() ==> s[k] != B_QUOTE,
    ensures
        quote_dist(s, a) is None,
    decreases rem_bytes(s, a),
{
    if 0 <= a < s.len() {
        lemma_quote_dist_none(s, a + 1);
    }
}

/// The first quote at or after `a` fixes the quote distance.
proof fn lemma_quote_dist_found(s: Seq<u8>, a: int, q: int)
    requires
        0 <= a <= q < s.len(),
        s[q] == B_QUOTE,
        forall|k: int| a <= k < q ==> s[k] != B_QUOTE,
    ensures
        quote_dist(s, a) == Option::Some((q - a) as nat),
    decreases q - a,
{
    if a < q {
        lemma_quote_dist_found(s, a + 1, q);
    }
}

/// The end-of-input token at a given line.
pub open spec fn eof_token(line: int) -> SpecToken {
    SpecToken { kind: TokenKind::Eof, text: Seq::empty(), line }
}

/// Skippable whitespace before `pos` never changes what remains to scan.
proof fn lemma_whitespace_scan_from(s: Seq<u8>, pos: int)
    requires
        0 <= pos,
        forall|i: int| 0 <= i < s.len() ==> is_skippable(s[i]),
    ensures
        spec_scan_from(s, pos, 1) == Result::<Seq<SpecToken>, int>::Ok(seq![eof_token(1)]),
    decreases rem_bytes(s, pos),
{
    if pos < s.len() {
        lemma_whitespace_scan_from(s, pos + 1);
    }
}

/// An input consisting only of whitespace scans to exactly the `Eof` token.
pub proof fn lemma_whitespace_scan(s: Seq<u8>)
    requires
        forall|i: int| 0 <= i < s.len() ==> is_skippable(s[i]),
    ensures
        spec_scan(s) == Result::<Seq<SpecToken>, int>::Ok(seq![eof_token(1)]),
{
    lemma_whitespace_scan_from(s, 0);
}

/// An unbroken run of identifier bytes reaching the end of the input.
proof fn lemma_ident_len_full(s: Seq<u8>, a: int)
    requires
        0 <= a <= s.len(),
        forall|i: int| a <= i < s.len() ==> spec_is_ident_byte(s[i]),
    ensures
        ident_len(s, a) == s.len() - a,
    decreases rem_bytes(s, a),
{
    if a < s.len() {
        lemma_ident_len_full(s, a + 1);
    }
}

/// A word scanned in isolation is one token: the keyword table decides its
/// kind, and its text is the whole spelling.
proof fn lemma_word_scan(text: Seq<u8>)
    requires
        text.len() > 0,
        spec_is_alpha(text[0]),
        forall|i: int| 0 <= i < text.len() ==> spec_is_ident_byte(text[i]),
    ensures
        spec_scan(text) == Result::<Seq<SpecToken>, int>::Ok(
            seq![
                SpecToken { kind: keyword_kind(text), text, line: 1 },
                eof_token(1),
            ],
        ),
{
    lemma_ident_len_full(text, 1);
    assert(text.subrange(0, text.len() as int) =~= text);
    let tok = SpecToken { kind: keyword_kind(text), text, line: 1 };
    assert(spec_step(text, 0, 1) == ScanStep::Emit {
        tok,
        extra: (text.len() - 1) as nat,
        nl: 0nat,
    });
    assert(spec_scan_from(text, text.len() as int, 1) == Result::<Seq<SpecToken>, int>::Ok(
        seq![eof_token(1)],
    ));
    assert(seq![tok] + seq![eof_token(1)] =~= seq![tok, eof_token(1)]);
}

/// A spelling outside the keyword table scans to an `Ident` token whose text
/// is exactly that spelling.
pub proof fn lemma_ident_scan(text: Seq<u8>)
    requires
        text.len() > 0,
        spec_is_alpha(text[0]),
        forall|i: int| 0 <= i < text.len() ==> spec_is_ident_byte(text[i]),
        keyword_kind(text) == TokenKind::Ident,
    ensures
        spec_scan(text) == Result::<Seq<SpecToken>, int>::Ok(
            seq![
                SpecToken { kind: TokenKind::Ident, text, line: 1 },
                eof_token(1),
            ],
        ),
{
    lemma_word_scan(text);
}

/// Every keyword spelling scans to its dedicated kind, never to `Ident`:
/// the keyword table is exact-match.
pub proof fn lemma_keyword_scan(text: Seq<u8>)
    requires
        keyword_kind(text) != TokenKind::Ident,
    ensures
        keyword_kind(text) != TokenKind::Ident,
        spec_scan(text) == Result::<Seq<SpecToken>, int>::Ok(
            seq![
                SpecToken { kind: keyword_kind(text), text, line: 1 },
                eof_token(1),
            ],
        ),
{
    assert(text.len() > 0 && spec_is_alpha(text[0]) && (forall|i: int|
        0 <= i < text.len() ==> spec_is_ident_byte(text[i]))) by {
        if text == crate::token::kw_let() {
        } else if text == crate::token::kw_fun() {
        } else if text == crate::token::kw_return() {
        } else if text == crate::token::kw_end() {
        } else if text == crate::token::kw_if() {
        } else if text == crate::token::kw_else() {
        } else if text == crate::token::kw_for() {
        } else if text == crate::token::kw_in() {
        } else if text == crate::token::kw_true() {
        } else if text == crate::token::kw_false() {
        } else if text == crate::token::kw_print() {
        } else {
            assert(keyword_kind(text) == TokenKind::Ident);
        }
    }
    lemma_word_scan(text);
}

/// Everything `ident_len` promises about its run: the run stays in bounds,
/// each byte in it continues an identifier, and the run is longest-match.
proof fn lemma_ident_len_inv(s: Seq<u8>, a: int)
    requires
        0 <= a <= s.len(),
    ensures
        a + ident_len(s, a) <= s.len(),
        forall|k: int| a <= k < a + ident_len(s, a) ==> spec_is_ident_byte(s[k]),
        a + ident_len(s, a) == s.len() || !spec_is_ident_byte(s[a + ident_len(s, a)]),
    decreases rem_bytes(s, a),
{
    if a < s.len() && spec_is_ident_byte(s[a]) {
        lemma_ident_len_inv(s, a + 1);
    }
}

/// A maximal identifier run of known extent fixes `ident_len`.
proof fn lemma_ident_len_run(s: Seq<u8>, a: int, m: int)
    requires
        0 <= a,
        0 <= m,
        a + m <= s.len(),
        forall|k: int| a <= k < a + m ==> spec_is_ident_byte(s[k]),
        a + m == s.len() || !spec_is_ident_byte(s[a + m]),
    ensures
        ident_len(s, a) == m,
    decreases m,
{
    if m > 0 {
        lemma_ident_len_run(s, a + 1, m - 1);
    }
}

/// Everything `digit_len` promises about its run.
proof fn lemma_digit_len_inv(s: Seq<u8>, a: int)
    requires
        0 <= a <= s.len(),
    ensures
        a + digit_len(s, a) <= s.len(),
        forall|k: int| a <= k < a + digit_len(s, a) ==> spec_is_digit(s[k]),
        a + digit_len(s, a) == s.len() || !spec_is_digit(s[a + digit_len(s, a)]),
    decreases rem_bytes(s, a),
{
    if a < s.len() && spec_is_digit(s[a]) {
        lemma_digit_len_inv(s, a + 1);
    }
}

/// A maximal digit run of known extent fixes `digit_len`.
proof fn lemma_digit_len_run(s: Seq<u8>, a: int, m: int)
    requires
        0 <= a,
        0 <= m,
        a + m <= s.len(),
        forall|k: int| a <= k < a + m ==> spec_is_digit(s[k]),
        a + m == s.len() || !spec_is_digit(s[a + m]),
    ensures
        digit_len(s, a) == m,
    decreases m,
{
    if m > 0 {
        lemma_digit_len_run(s, a + 1, m - 1);
    }
}

/// Everything a successful `quote_dist` promises: the quote it found, and
/// no quote before it.
proof fn lemma_quote_dist_inv(s: Seq<u8>, a: int, d: nat)
    requires
        0 <= a,
        quote_dist(s, a) == Option::Some(d),
    ensures
        a + d < s.len(),
        s[a + d] == B_QUOTE,
        forall|k: int| a <= k < a + d ==> s[k] != B_QUOTE,
    decreases rem_bytes(s, a),
{
    if a < s.len() && s[a] != B_QUOTE {
        lemma_quote_dist_inv(s, a + 1, (d - 1) as nat);
    }
}

/// A newline count carries over between two equal windows.
proof fn lemma_nl_count_window(s1: Seq<u8>, a1: int, s2: Seq<u8>, a2: int, m: int)
    requires
        0 <= m,
        0 <= a1,
        a1 + m <= s1.len(),
        0 <= a2,
        a2 + m <= s2.len(),
        forall|k: int| 0 <= k < m ==> #[trigger] s1[a1 + k] == s2[a2 + k],
    ensures
        nl_count(s1, a1, a1 + m) == nl_count(s2, a2, a2 + m),
    decreases m,
{
    if m > 0 {
        assert(s1[a1 + 0] == s2[a2 + 0]);
        assert forall|k: int| 0 <= k < m - 1 implies #[trigger] s1[(a1 + 1) + k] == s2[(a2 + 1)
            + k] by {
            assert(s1[a1 + (k + 1)] == s2[a2 + (k + 1)]);
        }
        lemma_nl_count_window(s1, a1 + 1, s2, a2 + 1, m - 1);
    }
}

/// A scanner step that fills its whole input emits that one token and then
/// `Eof`.
proof fn lemma_single_token_tail(lex: Seq<u8>, tok: SpecToken, extra: nat, nl: nat)
    requires
        lex.len() == 1 + extra,
        spec_step(lex, 0, 1) == (ScanStep::Emit { tok, extra, nl }),
    ensures
        spec_scan(lex) == Result::<Seq<SpecToken>, int>::Ok(
            seq![tok, eof_token(1 + nl as int)],
        ),
{
    assert(spec_scan_from(lex, 1 + extra as int, 1 + nl as int) == Result::<
        Seq<SpecToken>,
        int,
    >::Ok(seq![eof_token(1 + nl as int)]));
    assert(seq![tok] + seq![eof_token(1 + nl as int)] =~= seq![tok, eof_token(1 + nl as int)]);
}

/// Round trip: scanning the source slice of any one emitted token in
/// isolation reproduces the same kind and the same text, followed by `Eof`.
/// Tokenization is context-free given correct cursor state; only the line
/// number is relative, starting from 1 in isolation.
pub proof fn lemma_token_round_trip(s: Seq<u8>, pos: int, line: int)
    requires
        0 <= pos < s.len(),
    ensures
        spec_step(s, pos, line) matches ScanStep::Emit { tok, extra, nl } ==> spec_scan(
            s.subrange(pos, pos + 1 + extra),
        ) == Result::<Seq<SpecToken>, int>::Ok(
            seq![
                SpecToken { kind: tok.kind, text: tok.text, line: 1 + nl as int },
                eof_token(1 + nl as int),
            ],
        ),
{
    let c = s[pos];
    match spec_step(s, pos, line) {
        ScanStep::Emit { tok, extra, nl } => {
            let ex = extra as int;
            let lex = s.subrange(pos, pos + 1 + ex);
            let iso = SpecToken { kind: tok.kind, text: tok.text, line: 1 + nl as int };
            if c == B_QUOTE {
                let d = (extra - 1) as nat;
                let di = d as int;
                lemma_quote_dist_inv(s, pos + 1, d);
                assert(lex.len() == 1 + ex);
                assert forall|k: int| 1 <= k < 1 + di implies lex[k] != B_QUOTE by {
                    assert(lex[k] == s[pos + k]);
                }
                lemma_quote_dist_found(lex, 1, 1 + di);
                assert forall|k: int| 0 <= k < di implies #[trigger] lex[1 + k] == s[(pos + 1)
                    + k] by {}
                lemma_nl_count_window(lex, 1, s, pos + 1, di);
                assert(lex.subrange(1, 1 + di) =~= s.subrange(pos + 1, pos + 1 + di));
                assert(spec_step(lex, 0, 1) == (ScanStep::Emit { tok: iso, extra, nl }));
                lemma_single_token_tail(lex, iso, extra, nl);
            } else if spec_is_alpha(c) {
                let l = ident_len(s, pos + 1) as int;
                lemma_ident_len_inv(s, pos + 1);
                assert(lex.len() == 1 + l);
                assert forall|k: int| 1 <= k < 1 + l implies spec_is_ident_byte(lex[k]) by {
                    assert(lex[k] == s[pos + k]);
                }
                lemma_ident_len_run(lex, 1, l);
                assert(lex.subrange(0, 1 + l) =~= lex);
                assert(lex =~= s.subrange(pos, pos + 1 + l));
                assert(spec_step(lex, 0, 1) == (ScanStep::Emit { tok: iso, extra, nl }));
                lemma_single_token_tail(lex, iso, extra, nl);
            } else if spec_is_digit(c) {
                let d1 = digit_len(s, pos + 1) as int;
                let e1 = pos + 1 + d1;
                lemma_digit_len_inv(s, pos + 1);
                if e1 + 1 < s.len() && s[e1] == B_DOT && spec_is_digit(s[e1 + 1]) {
                    let d2 = digit_len(s, e1 + 1) as int;
                    lemma_digit_len_inv(s, e1 + 1);
                    assert(d2 >= 1);
                    assert(lex.len() == 2 + d1 + d2);
                    assert forall|k: int| 1 <= k < 1 + d1 implies spec_is_digit(lex[k]) by {
                        assert(lex[k] == s[pos + k]);
                    }
                    assert(lex[1 + d1] == s[e1]);
                    lemma_digit_len_run(lex, 1, d1);
                    assert forall|k: int| 2 + d1 <= k < lex.len() implies spec_is_digit(
                        lex[k],
                    ) by {
                        assert(lex[k] == s[pos + k]);
                        assert(pos + k == e1 + 1 + (k - (2 + d1)));
                    }
                    assert(lex[2 + d1] == s[e1 + 1]);
                    lemma_digit_len_run(lex, 2 + d1, d2);
                    assert(lex.subrange(0, lex.len() as int) =~= lex);
                    assert(lex =~= s.subrange(pos, e1 + 1 + d2));
                    assert(spec_step(lex, 0, 1) == (ScanStep::Emit { tok: iso, extra, nl }));
                    lemma_single_token_tail(lex, iso, extra, nl);
                } else {
                    assert(lex.len() == 1 + d1);
                    assert forall|k: int| 1 <= k < 1 + d1 implies spec_is_digit(lex[k]) by {
                        assert(lex[k] == s[pos + k]);
                    }
                    lemma_digit_len_run(lex, 1, d1);
                    assert(lex.subrange(0, 1 + d1) =~= lex);
                    assert(lex =~= s.subrange(pos, e1));
                    assert(spec_step(lex, 0, 1) == (ScanStep::Emit { tok: iso, extra, nl }));
                    lemma_single_token_tail(lex, iso, extra, nl);
                }
            } else {
                // the one- and two-byte tokens: a newline, punctuation, an
                // operator, or an illegal byte
                assert(lex.len() == 1 + ex);
                assert(lex[0] == c);
                if ex == 1 {
                    assert(lex[1] == s[pos + 1]);
                }
                assert(tok.text =~= Seq::<u8>::empty());
                assert(spec_step(lex, 0, 1) == (ScanStep::Emit { tok: iso, extra, nl }));
                lemma_single_token_tail(lex, iso, extra, nl);
            }
        },
        _ => {},
    }
}

/// What one call of `scan_step` did.
enum StepOut {
    Tok { tok: Token, next: usize, line_after: usize },
    Ws { next: usize },
    Unterminated,
}

/// One scanner step at `pos`: reads one token, skips whitespace or a
/// comment, or detects an unterminated string, exactly as `spec_step` says.
fn scan_step(s: &[u8], pos: usize, line: usize) -> (r: StepOut)
    requires
        pos < s@.len(),
        line + s@.len() - pos <= usize::MAX,
    ensures
        ({
            let st = spec_step(s@, pos as int, line as int);
            &&& (st matches ScanStep::Emit { tok, extra, nl } ==> (r matches StepOut::Tok {
                tok: t,
                next,
                line_after,
            } && t@ == tok && next as int == pos + 1 + extra && line_after as int == line + nl
                && next <= s@.len() && line_after as int <= line + (next - pos)))
            &&& (st matches ScanStep::Skip { extra } ==> (r matches StepOut::Ws { next } && next
                as int == pos + 1 + extra && next <= s@.len()))
            &&& (st is Fatal ==> r is Unterminated)
        }),
{
    let c = s[pos];
    if c == B_SPACE || c == B_TAB || c == B_CR {
        StepOut::Ws { next: pos + 1 }
    } else if c == B_NL {
        StepOut::Tok {
            tok: Token::new(TokenKind::NewLine, Vec::new(), line + 1),
            next: pos + 1,
            line_after: line + 1,
        }
    } else if c == B_LPAREN {
        StepOut::Tok {
            tok: Token::new(TokenKind::LParen, Vec::new(), line),
            next: pos + 1,
            line_after: line,
        }
    } else if c == B_RPAREN {
        StepOut::Tok {
            tok: Token::new(TokenKind::RParen, Vec::new(), line),
            next: pos + 1,
            line_after: line,
        }
    } else if c == B_COLON {
        StepOut::Tok {
            tok: Token::new(TokenKind::Colon, Vec::new(), line),
            next: pos + 1,
            line_after: line,
        }
    } else if c == B_COMMA {
        StepOut::Tok {
            tok: Token::new(TokenKind::Comma, Vec::new(), line),
            next: pos + 1,
            line_after: line,
        }
    } else if c == B_PLUS {
        StepOut::Tok {
            tok: Token::new(TokenKind::Plus, Vec::new(), line),
            next: pos + 1,
            line_after: line,
        }
    } else if c == B_MINUS {
        StepOut::Tok {
            tok: Token::new(TokenKind::Minus, Vec::new(), line),
            next: pos + 1,
            line_after: line,
        }
    } else if c == B_STAR {
        StepOut::Tok {
            tok: Token::new(TokenKind::Star, Vec::new(), line),
            next: pos + 1,
            line_after: line,
        }
    } else if c == B_SEMI {
        StepOut::Tok {
            tok: Token::new(TokenKind::Semicolon, Vec::new(), line),
            next: pos + 1,
            line_after: line,
        }
    } else if c == B_ASSIGN {
        if peek(s, pos + 1) == B_ASSIGN {
            StepOut::Tok {
                tok: Token::new(TokenKind::Eq, Vec::new(), line),
                next: pos + 2,
                line_after: line,
            }
        } else {
            StepOut::Tok {
                tok: Token::new(TokenKind::Assign, Vec::new(), line),
                next: pos + 1,
                line_after: line,
            }
        }
    } else if c == B_LT {
        if peek(s, pos + 1) == B_ASSIGN {
            StepOut::Tok {
                tok: Token::new(TokenKind::LtEq, Vec::new(), line),
                next: pos + 2,
                line_after: line,
            }
        } else {
            StepOut::Tok {
                tok: Token::new(TokenKind::Lt, Vec::new(), line),
                next: pos + 1,
                line_after: line,
            }
        }
    } else if c == B_GT {
        if peek(s, pos + 1) == B_ASSIGN {
            StepOut::Tok {
                tok: Token::new(TokenKind::GtEq, Vec::new(), line),
                next: pos + 2,
                line_after: line,
            }
        } else {
            StepOut::Tok {
                tok: Token::new(TokenKind::Gt, Vec::new(), line),
                next: pos + 1,
                line_after: line,
            }
        }
    } else if c == B_BANG {
        if peek(s, pos + 1) == B_ASSIGN {
            StepOut::Tok {
                tok: Token::new(TokenKind::BangEq, Vec::new(), line),
                next: pos + 2,
                line_after: line,
            }
        } else {
            StepOut::Tok {
                tok: Token::new(TokenKind::Bang, Vec::new(), line),
                next: pos + 1,
                line_after: line,
            }
        }
    } else if c == B_SLASH {
        if peek(s, pos + 1) == B_SLASH {
            // a line comment: consume to just before the next newline
            let mut j = pos + 2;
            while j < s.len() && s[j] != B_NL
                invariant
                    pos + 2 <= j <= s@.len(),
                    comment_len(s@, pos + 2) == j - pos - 2 + comment_len(s@, j as int),
                decreases s@.len() - j,
            {
                proof {
                    assert(comment_len(s@, j as int) == 1 + comment_len(s@, j + 1));
                }
                j += 1;
            }
            proof {
                assert(comment_len(s@, j as int) == 0);
            }
            StepOut::Ws { next: j }
        } else {
            StepOut::Tok {
                tok: Token::new(TokenKind::Slash, Vec::new(), line),
                next: pos + 1,
                line_after: line,
            }
        }
    } else if c == B_QUOTE {
        let mut j = pos + 1;
        let mut nl: usize = 0;
        while j < s.len() && s[j] != B_QUOTE
            invariant
                pos + 1 <= j <= s@.len(),
                forall|k: int| pos + 1 <= k < j ==> s@[k] != B_QUOTE,
                nl as int == nl_count(s@, pos + 1, j as int),
                nl <= j - pos - 1,
            decreases s@.len() - j,
        {
            proof {
                lemma_nl_count_snoc(s@, pos + 1, j as int);
            }
            if s[j] == B_NL {
                nl += 1;
            }
            j += 1;
        }
        if j >= s.len() {
            proof {
                lemma_quote_dist_none(s@, pos + 1);
            }
            StepOut::Unterminated
        } else {
            proof {
                lemma_quote_dist_found(s@, pos + 1, j as int);
            }
            let text = copy_range(s, pos + 1, j);
            StepOut::Tok {
                tok: Token::new(TokenKind::Str, text, line + nl),
                next: j + 1,
                line_after: line + nl,
            }
        }
    } else if is_alpha(c) {
        let mut j = pos + 1;
        while j < s.len() && (is_alpha(s[j]) || is_digit(s[j]))
            invariant
                pos + 1 <= j <= s@.len(),
                ident_len(s@, pos + 1) == j - pos - 1 + ident_len(s@, j as int),
            decreases s@.len() - j,
        {
            proof {
                assert(ident_len(s@, j as int) == 1 + ident_len(s@, j + 1));
            }
            j += 1;
        }
        proof {
            assert(ident_len(s@, j as int) == 0);
        }
        let text = copy_range(s, pos, j);
        let kind = lookup_keyword(&text);
        StepOut::Tok { tok: Token::new(kind, text, line), next: j, line_after: line }
    } else if is_digit(c) {
        let mut j = pos + 1;
        while j < s.len() && is_digit(s[j])
            invariant
                pos + 1 <= j <= s@.len(),
                digit_len(s@, pos + 1) == j - pos - 1 + digit_len(s@, j as int),
            decreases s@.len() - j,
        {
            proof {
                assert(digit_len(s@, j as int) == 1 + digit_len(s@, j + 1));
            }
            j += 1;
        }
        proof {
            assert(digit_len(s@, j as int) == 0);
        }
        if peek(s, j) == B_DOT && is_digit(peek_next(s, j)) && j + 1 < s.len() {
            let mut j2 = j + 1;
            while j2 < s.len() && is_digit(s[j2])
                invariant
                    j + 1 <= j2 <= s@.len(),
                    digit_len(s@, j + 1) == j2 - j - 1 + digit_len(s@, j2 as int),
                decreases s@.len() - j2,
            {
                proof {
                    assert(digit_len(s@, j2 as int) == 1 + digit_len(s@, j2 + 1));
                }
                j2 += 1;
            }
            proof {
                assert(digit_len(s@, j2 as int) == 0);
            }
            let text = copy_range(s, pos, j2);
            StepOut::Tok { tok: Token::new(TokenKind::Float, text, line), next: j2, line_after: line }
        } else {
            let text = copy_range(s, pos, j);
            StepOut::Tok { tok: Token::new(TokenKind::Int, text, line), next: j, line_after: line }
        }
    } else {
        StepOut::Tok {
            tok: Token::new(TokenKind::Illegal, Vec::new(), line),
            next: pos + 1,
            line_after: line,
        }
    }
}

/// A successful scan always holds at least the `Eof` token.
proof fn lemma_scan_from_nonempty(s: Seq<u8>, pos: int, line: int)
    ensures
        spec_scan_from(s, pos, line) matches Ok(ts) ==> ts.len() >= 1,
    decreases rem_bytes(s, pos),
{
    if 0 <= pos < s.len() {
        match spec_step(s, pos, line) {
            ScanStep::Skip { extra } => {
                lemma_scan_from_nonempty(s, pos + 1 + extra, line);
            },
            ScanStep::Emit { .. } => {},
            ScanStep::Fatal { .. } => {},
        }
    }
}

/// A scanner that owns its cursor state and hands out one token per
/// request. The cursor only moves forward; no call moves it back.
pub struct Scanner {
    source: Vec<u8>,
    current: usize,
    line: usize,
}

impl Scanner {
    /// The scanner's cursor stays inside its source and its line count never
    /// outruns the cursor.
    pub closed spec fn wf(&self) -> bool {
        &&& self.current <= self.source@.len()
        &&& self.source@.len() < usize::MAX
        &&& self.line <= 1 + self.current
    }

    /// The bytes the scanner was built over.
    pub closed spec fn src(&self) -> Seq<u8> {
        self.source@
    }

    /// Where the scan cursor stands; it never moves backward.
    pub closed spec fn cursor(&self) -> int {
        self.current as int
    }

    /// The outcome of scanning everything from the cursor on.
    pub closed spec fn remaining(&self) -> Result<Seq<SpecToken>, int> {
        spec_scan_from(self.source@, self.current as int, self.line as int)
    }

    /// A scanner at the start of `source`, on line 1.
    pub fn new(source: Vec<u8>) -> (sc: Scanner)
        requires
            source@.len() < usize::MAX,
        ensures
            sc.wf(),
            sc.src() == source@,
            sc.remaining() == spec_scan(source@),
    {
        Scanner { source, current: 0, line: 1 }
    }

    /// Hands out the next token, advancing past it and any whitespace or
    /// comment before it.
    ///
    /// While the modelled remainder is a token sequence, each call returns
    /// its first token and leaves exactly the rest; once only `Eof` remains,
    /// the state no longer changes, so every further call returns `Eof`
    /// again. While the modelled remainder is the fatal error, each call
    /// either returns a token that precedes the unterminated string or
    /// surfaces that error itself.
    pub fn next_token(&mut self) -> (r: Result<Token, ScanError>)
        requires
            old(self).wf(),
        ensures
            final(self).wf(),
            final(self).src() == old(self).src(),
            final(self).cursor() >= old(self).cursor(),
            (old(self).remaining() matches Ok(ts) ==> r matches Ok(t) && ts.len() >= 1 && t@
                == ts[0] && final(self).remaining() == Result::<Seq<SpecToken>, int>::Ok(
                if ts.len() == 1 {
                    ts
                } else {
                    ts.skip(1)
                },
            )),
            (old(self).remaining() matches Err(el) ==> ((r matches Ok(t)
                && final(self).remaining() == Result::<Seq<SpecToken>, int>::Err(el)) || (
            r matches Err(e) && e matches ScanError::UnterminatedString { line } && line as int
                == el))),
    {
        loop
            invariant
                self.wf(),
                self.src() == old(self).src(),
                self.cursor() >= old(self).cursor(),
                self.remaining() == old(self).remaining(),
            decreases self.source@.len() - self.current,
        {
            if self.current >= self.source.len() {
                let t = Token::new(TokenKind::Eof, Vec::new(), self.line);
                proof {
                    assert(t@.text =~= Seq::<u8>::empty());
                    assert(self.remaining() == Result::<Seq<SpecToken>, int>::Ok(
                        seq![eof_token(self.line as int)],
                    ));
                }
                return Result::Ok(t);
            }
            let ghost pre = *self;
            match scan_step(self.source.as_slice(), self.current, self.line) {
                StepOut::Tok { tok, next, line_after } => {
                    self.current = next;
                    self.line = line_after;
                    proof {
                        let st = spec_step(pre.source@, pre.current as int, pre.line as int);
                        assert(st is Emit);
                        lemma_scan_from_nonempty(
                            self.source@,
                            self.current as int,
                            self.line as int,
                        );
                        match self.remaining() {
                            Result::Ok(rest) => {
                                assert(pre.remaining() == Result::<Seq<SpecToken>, int>::Ok(
                                    seq![tok@] + rest,
                                ));
                                assert((seq![tok@] + rest).skip(1) =~= rest);
                                assert((seq![tok@] + rest).len() >= 2);
                            },
                            Result::Err(_) => {},
                        }
                    }
                    return Result::Ok(tok);
                },
                StepOut::Ws { next } => {
                    self.current = next;
                    proof {
                        let st = spec_step(pre.source@, pre.current as int, pre.line as int);
                        assert(st is Skip);
                    }
                },
                StepOut::Unterminated => {
                    proof {
                        let st = spec_step(pre.source@, pre.current as int, pre.line as int);
                        assert(st is Fatal);
                    }
                    return Result::Err(ScanError::UnterminatedString { line: self.line });
                },
            }
        }
    }
}

/// Scans a whole source text into tokens.
///
/// On success the token vector is exactly the modelled sequence
/// `spec_scan(source@)`, ending in `Eof`; an unterminated string literal
/// yields the modelled fatal error, carrying the line of its opening quote.
pub fn scan(source: &[u8]) -> (r: Result<Vec<Token>, ScanError>)
    requires
        source@.len() < usize::MAX,
    ensures
        (r matches Ok(toks) ==> spec_scan(source@) matches Ok(sts) && view_tokens(toks@) == sts),
        (r matches Err(e) ==> spec_scan(source@) matches Err(el) && e matches
            ScanError::UnterminatedString { line } && line as int == el),
{
    let mut toks: Vec<Token> = Vec::new();
    let mut pos: usize = 0;
    let mut line: usize = 1;
    proof {
        assert(view_tokens(toks@) =~= Seq::<SpecToken>::empty());
        assert(scan_app(view_tokens(toks@), spec_scan_from(source@, 0, 1)) == spec_scan(source@))
            by {
            match spec_scan_from(source@, 0, 1) {
                Result::Ok(ts) => {
                    assert(Seq::<SpecToken>::empty() + ts =~= ts);
                },
                Result::Err(_) => {},
            }
        }
    }
    while pos < source.len()
        invariant
            pos <= source@.len() < usize::MAX,
            line <= 1 + pos,
            scan_app(view_tokens(toks@), spec_scan_from(source@, pos as int, line as int))
                == spec_scan(source@),
        decreases source@.len() - pos,
    {
        let ghost p0 = pos as int;
        let ghost l0 = line as int;
        let ghost v0 = view_tokens(toks@);
        let ghost st = spec_step(source@, p0, l0);
        match scan_step(source, pos, line) {
            StepOut::Tok { tok, next, line_after } => {
                proof {
                    assert(st is Emit);
                }
                let ghost t0 = st->Emit_tok;
                toks.push(tok);
                pos = next;
                line = line_after;
                proof {
                    assert(view_tokens(toks@) =~= v0 + seq![t0]);
                    match spec_scan_from(source@, pos as int, line as int) {
                        Result::Ok(rest) => {
                            assert(v0 + (seq![t0] + rest) =~= (v0 + seq![t0]) + rest);
                        },
                        Result::Err(_) => {},
                    }
                }
            },
            StepOut::Ws { next } => {
                proof {
                    assert(st is Skip);
                }
                pos = next;
            },
            StepOut::Unterminated => {
                proof {
                    assert(st is Fatal);
                    assert(spec_scan_from(source@, p0, l0) == Result::<Seq<SpecToken>, int>::Err(
                        l0,
                    ));
                }
                return Result::Err(ScanError::UnterminatedString { line });
            },
        }
    }
    proof {
        assert(spec_scan_from(source@, pos as int, line as int) == Result::<Seq<SpecToken>,
            int>::Ok(
            seq![SpecToken { kind: TokenKind::Eof, text: Seq::empty(), line: line as int }],
        ));
    }
    let ghost v0 = view_tokens(toks@);
    let eof = Token::new(TokenKind::Eof, Vec::new(), line);
    let ghost e0 = eof@;
    toks.push(eof);
    proof {
        assert(view_tokens(toks@) =~= v0 + seq![e0]);
        assert(e0.text =~= Seq::<u8>::empty());
    }
    Result::Ok(toks)
}

} // verus!
