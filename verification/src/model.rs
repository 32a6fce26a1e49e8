//! The mathematical model of the scanner: a total, recursive description of
//! how a character buffer is split into tokens and diagnostics.
//!
//! The executable scanner in [`crate::lexer`] is proved to return exactly what
//! [`scan_from`] describes. The model tracks the same cursor state as the
//! scanner: a read position, a line counter (origin 0) and a column counter
//! (origin 1, advanced by every consumed character).

use vstd::prelude::*;

use crate::token::LexerError;
use crate::token::TokenView;

verus! {

// ---------------------------------------------------------------------------
// Character classes
// ---------------------------------------------------------------------------

/// An ASCII decimal digit.
pub open spec fn is_digit_char(c: char) -> bool {
    '0' as int <= c as int <= '9' as int
}

/// An ASCII letter or underscore: what may begin an identifier.
pub open spec fn is_ident_start_char(c: char) -> bool {
    ||| 'a' as int <= c as int <= 'z' as int
    ||| 'A' as int <= c as int <= 'Z' as int
    ||| c == '_'
}

/// What may continue an identifier once begun.
pub open spec fn is_ident_char(c: char) -> bool {
    is_ident_start_char(c) || is_digit_char(c)
}

/// How many newline characters a sequence holds.
pub open spec fn newline_count(s: Seq<char>) -> nat
    decreases s.len(),
{
    if s.len() == 0 {
        0
    } else {
        (if s[0] == '\n' {
            1 as nat
        } else {
            0 as nat
        }) + newline_count(s.drop_first())
    }
}

/// The single-character structural and operator tokens.
pub open spec fn single_char_token(c: char) -> Option<TokenView> {
    if c == ';' {
        Some(TokenView::Semicolon)
    } else if c == '+' {
        Some(TokenView::Plus)
    } else if c == '-' {
        Some(TokenView::Minus)
    } else if c == '*' {
        Some(TokenView::Star)
    } else if c == ',' {
        Some(TokenView::Comma)
    } else if c == '.' {
        Some(TokenView::Dot)
    } else if c == '(' {
        Some(TokenView::LeftParen)
    } else if c == ')' {
        Some(TokenView::RightParen)
    } else if c == '{' {
        Some(TokenView::LeftBrace)
    } else if c == '}' {
        Some(TokenView::RightBrace)
    } else {
        None
    }
}

/// The operators that come in a one-character and a two-character form:
/// the pair is (form emitted alone, form emitted when `'='` follows).
pub open spec fn one_or_two_char_tokens(c: char) -> Option<(TokenView, TokenView)> {
    if c == '!' {
        Some((TokenView::Bang, TokenView::BangEqual))
    } else if c == '=' {
        Some((TokenView::Equal, TokenView::EqualEqual))
    } else if c == '<' {
        Some((TokenView::Less, TokenView::LessEqual))
    } else if c == '>' {
        Some((TokenView::Greater, TokenView::GreaterEqual))
    } else {
        None
    }
}

// ---------------------------------------------------------------------------
// The reserved-word table
// ---------------------------------------------------------------------------

/// The keyword token for a reserved spelling, or `None` for any other
/// spelling. Lookup is by exact string equality.
pub open spec fn keyword_token(lex: Seq<char>) -> Option<TokenView> {
    if lex == "and"@ {
        Some(TokenView::And)
    } else if lex == "class"@ {
        Some(TokenView::Class)
    } else if lex == "else"@ {
        Some(TokenView::Else)
    } else if lex == "false"@ {
        Some(TokenView::False)
    } else if lex == "fun"@ {
        Some(TokenView::Fun)
    } else if lex == "for"@ {
        Some(TokenView::For)
    } else if lex == "if"@ {
        Some(TokenView::If)
    } else if lex == "nil"@ {
        Some(TokenView::Nil)
    } else if lex == "or"@ {
        Some(TokenView::Or)
    } else if lex == "print"@ {
        Some(TokenView::Print)
    } else if lex == "return"@ {
        Some(TokenView::Return)
    } else if lex == "super"@ {
        Some(TokenView::Super)
    } else if lex == "this"@ {
        Some(TokenView::This)
    } else if lex == "true"@ {
        Some(TokenView::True)
    } else if lex == "var"@ {
        Some(TokenView::Var)
    } else if lex == "while"@ {
        Some(TokenView::While)
    } else {
        None
    }
}

/// A scanned identifier spelling becomes its keyword token on a table hit and
/// an `Identifier` token carrying the spelling on a miss.
pub open spec fn ident_or_keyword_token(lex: Seq<char>) -> TokenView {
    match keyword_token(lex) {
        Some(t) => t,
        None => TokenView::Identifier(lex),
    }
}

// ---------------------------------------------------------------------------
// Diagnostics
// ---------------------------------------------------------------------------

/// A positioned, kinded record of a recoverable scanning failure. `ch` is the
/// character under the cursor when the diagnostic was raised; only the
/// `UnknownToken` message embeds it.
pub struct Diag {
    pub kind: LexerError,
    pub line: nat,
    pub col: nat,
    pub ch: char,
}

/// The decimal digit `d` (at most 9) as a character.
pub open spec fn digit_char(d: nat) -> char {
    if d == 0 {
        '0'
    } else if d == 1 {
        '1'
    } else if d == 2 {
        '2'
    } else if d == 3 {
        '3'
    } else if d == 4 {
        '4'
    } else if d == 5 {
        '5'
    } else if d == 6 {
        '6'
    } else if d == 7 {
        '7'
    } else if d == 8 {
        '8'
    } else {
        '9'
    }
}

/// The usual decimal spelling of `n`, without leading zeros (except for 0
/// itself).
pub open spec fn dec_rep(n: nat) -> Seq<char>
    decreases n,
{
    if n < 10 {
        seq![digit_char(n)]
    } else {
        dec_rep(n / 10).push(digit_char(n % 10))
    }
}

/// The kind-specific part of a rendered diagnostic message.
pub open spec fn diag_text(d: Diag) -> Seq<char> {
    match d.kind {
        LexerError::UnknownToken => "Unknown token found "@ + seq![d.ch],
        LexerError::UnterminatedString => "Unterminated string"@,
        LexerError::UnterminatedMultilineComment => "Unterminated multiline comment"@,
    }
}

/// The rendered form of a diagnostic: `[<line>:<column>] <message>`.
pub open spec fn render_diag(d: Diag) -> Seq<char> {
    seq!['['] + dec_rep(d.line) + seq![':'] + dec_rep(d.col) + seq![']', ' '] + diag_text(d)
}

/// The rendered forms of a list of diagnostics, in order.
pub open spec fn render_diags(ds: Seq<Diag>) -> Seq<Seq<char>> {
    ds.map_values(|d: Diag| render_diag(d))
}

/// Rendering distributes over prepending one diagnostic.
pub proof fn lemma_render_diags_cons(d: Diag, ds: Seq<Diag>)
    ensures
        render_diags(seq![d] + ds) == seq![render_diag(d)] + render_diags(ds),
{
    assert(render_diags(seq![d] + ds) =~= seq![render_diag(d)] + render_diags(ds));
}

/// A diagnostic that may or may not have been raised, as a sequence.
pub open spec fn diag_opt_seq(d: Option<Diag>) -> Seq<Diag> {
    match d {
        Some(x) => seq![x],
        None => Seq::empty(),
    }
}

// ---------------------------------------------------------------------------
// One syntactic unit at a time
// ---------------------------------------------------------------------------

/// The run of identifier characters beginning at `i`.
pub open spec fn ident_tail_len(s: Seq<char>, i: nat) -> nat
    decreases s.len() - i,
{
    if i >= s.len() {
        0
    } else if is_ident_char(s[i as int]) {
        1 + ident_tail_len(s, i + 1)
    } else {
        0
    }
}

/// The run of decimal digits beginning at `i`.
pub open spec fn digits_len(s: Seq<char>, i: nat) -> nat
    decreases s.len() - i,
{
    if i >= s.len() {
        0
    } else if is_digit_char(s[i as int]) {
        1 + digits_len(s, i + 1)
    } else {
        0
    }
}

/// How many characters a line comment consumes from `i`: everything up to,
/// and not including, the next newline or sentinel terminator.
pub open spec fn line_comment_len(s: Seq<char>, i: nat) -> nat
    decreases s.len() - i,
{
    if i >= s.len() {
        0
    } else if s[i as int] == '\n' || s[i as int] == '\0' {
        0
    } else {
        1 + line_comment_len(s, i + 1)
    }
}

/// How many characters a numeric literal beginning at `i` consumes: the
/// leading digit run, then a fractional part only when a `'.'` follows the
/// run and a digit follows the `'.'`.
pub open spec fn number_len(s: Seq<char>, i: nat) -> nat {
    let d1 = digits_len(s, i);
    if i + d1 < s.len() && s[(i + d1) as int] == '.' && i + d1 + 1 < s.len() && is_digit_char(
        s[(i + d1 + 1) as int],
    ) {
        d1 + 1 + digits_len(s, i + d1 + 1)
    } else {
        d1
    }
}

/// The cursor state after a block comment body, entered just past the opening
/// `/*`, together with the diagnostic raised when the closing `*/` is missing.
/// The first `*/` closes the comment; a newline inside advances the line
/// counter; the sentinel terminator is left unconsumed and recorded at its own
/// position.
pub struct CommentScan {
    pub pos: nat,
    pub line: nat,
    pub col: nat,
    pub diag: Option<Diag>,
}

pub open spec fn block_comment_scan(s: Seq<char>, i: nat, line: nat, col: nat) -> CommentScan
    decreases s.len() - i,
{
    if i >= s.len() {
        CommentScan { pos: i, line, col, diag: None }
    } else if s[i as int] == '*' && i + 1 < s.len() && s[i as int + 1] == '/' {
        CommentScan { pos: i + 2, line, col: col + 2, diag: None }
    } else if s[i as int] == '\0' {
        CommentScan {
            pos: i,
            line,
            col,
            diag: Some(
                Diag { kind: LexerError::UnterminatedMultilineComment, line, col, ch: '\0' },
            ),
        }
    } else if s[i as int] == '\n' {
        block_comment_scan(s, i + 1, line + 1, col + 1)
    } else {
        block_comment_scan(s, i + 1, line, col + 1)
    }
}

/// The body of a string literal, entered just past the opening quote: the
/// captured payload, the cursor state after the literal, and the diagnostic
/// raised when the sentinel terminator is met before a closing quote.
///
/// Characters are captured until a closing quote, which is consumed and
/// excluded from the payload. A newline inside the literal is captured like
/// any other character and advances the line counter; it does not end the
/// literal. Meeting the sentinel terminator first records an
/// UnterminatedString diagnostic at the terminator's own position, consumes
/// the terminator, and aborts the literal with what was captured so far.
pub struct StrScan {
    pub body: Seq<char>,
    pub pos: nat,
    pub line: nat,
    pub col: nat,
    pub diag: Option<Diag>,
}

pub open spec fn str_body_scan(s: Seq<char>, i: nat, line: nat, col: nat) -> StrScan
    decreases s.len() - i,
{
    if i >= s.len() {
        StrScan { body: Seq::empty(), pos: i, line, col, diag: None }
    } else if s[i as int] == '"' {
        StrScan { body: Seq::empty(), pos: i + 1, line, col: col + 1, diag: None }
    } else if s[i as int] == '\0' {
        StrScan {
            body: Seq::empty(),
            pos: i + 1,
            line,
            col: col + 1,
            diag: Some(Diag { kind: LexerError::UnterminatedString, line, col, ch: '\0' }),
        }
    } else {
        let c = s[i as int];
        let r = str_body_scan(
            s,
            i + 1,
            if c == '\n' {
                line + 1
            } else {
                line
            },
            col + 1,
        );
        StrScan { body: seq![c] + r.body, pos: r.pos, line: r.line, col: r.col, diag: r.diag }
    }
}

// ---------------------------------------------------------------------------
// Bounds of the unit scanners
// ---------------------------------------------------------------------------

pub proof fn lemma_ident_tail_len_bound(s: Seq<char>, i: nat)
    requires
        i <= s.len(),
    ensures
        i + ident_tail_len(s, i) <= s.len(),
    decreases s.len() - i,
{
    if i < s.len() && is_ident_char(s[i as int]) {
        lemma_ident_tail_len_bound(s, i + 1);
    }
}

pub proof fn lemma_digits_len_bound(s: Seq<char>, i: nat)
    requires
        i <= s.len(),
    ensures
        i + digits_len(s, i) <= s.len(),
    decreases s.len() - i,
{
    if i < s.len() && is_digit_char(s[i as int]) {
        lemma_digits_len_bound(s, i + 1);
    }
}

pub proof fn lemma_line_comment_len_bound(s: Seq<char>, i: nat)
    requires
        i <= s.len(),
    ensures
        i + line_comment_len(s, i) <= s.len(),
    decreases s.len() - i,
{
    if i < s.len() && s[i as int] != '\n' && s[i as int] != '\0' {
        lemma_line_comment_len_bound(s, i + 1);
    }
}

/// The block-comment scanner only moves forward, stays inside the buffer, and
/// advances the line counter at most once per consumed character; the column
/// counter advances exactly once per consumed character.
pub proof fn lemma_block_comment_scan_props(s: Seq<char>, i: nat, line: nat, col: nat)
    requires
        i <= s.len(),
    ensures
        i <= block_comment_scan(s, i, line, col).pos <= s.len(),
        block_comment_scan(s, i, line, col).col == col + (block_comment_scan(
            s,
            i,
            line,
            col,
        ).pos - i),
        line <= block_comment_scan(s, i, line, col).line,
        block_comment_scan(s, i, line, col).line - line <= block_comment_scan(
            s,
            i,
            line,
            col,
        ).pos - i,
    decreases s.len() - i,
{
    if i >= s.len() {
    } else if s[i as int] == '*' && i + 1 < s.len() && s[i as int + 1] == '/' {
    } else if s[i as int] == '\0' {
    } else if s[i as int] == '\n' {
        lemma_block_comment_scan_props(s, i + 1, line + 1, col + 1);
    } else {
        lemma_block_comment_scan_props(s, i + 1, line, col + 1);
    }
}

/// The string-literal scanner only moves forward, stays inside the buffer,
/// and advances the line counter at most once per consumed character; the
/// column counter advances exactly once per consumed character.
pub proof fn lemma_str_body_scan_props(s: Seq<char>, i: nat, line: nat, col: nat)
    requires
        i <= s.len(),
    ensures
        i <= str_body_scan(s, i, line, col).pos <= s.len(),
        str_body_scan(s, i, line, col).col == col + (str_body_scan(s, i, line, col).pos - i),
        line <= str_body_scan(s, i, line, col).line,
        str_body_scan(s, i, line, col).line - line <= str_body_scan(s, i, line, col).pos - i,
    decreases s.len() - i,
{
    if i >= s.len() {
    } else if s[i as int] == '"' {
    } else if s[i as int] == '\0' {
    } else {
        let c = s[i as int];
        if c == '\n' {
            lemma_str_body_scan_props(s, i + 1, line + 1, col + 1);
        } else {
            lemma_str_body_scan_props(s, i + 1, line, col + 1);
        }
    }
}

// ---------------------------------------------------------------------------
// The whole scan
// ---------------------------------------------------------------------------

/// Everything one scan produces from a given cursor state onward: the tokens
/// (without the final end-of-input token), the diagnostics, and the cursor
/// state when the scan loop stops.
pub struct ScanResult {
    pub toks: Seq<TokenView>,
    pub diags: Seq<Diag>,
    pub pos: nat,
    pub line: nat,
    pub col: nat,
}

/// One scan of `s` from the given cursor state: the loop runs while both the
/// current character and its successor exist (the one-character lookahead
/// margin), consuming one syntactic unit per step.
pub open spec fn scan_from(s: Seq<char>, pos: nat, line: nat, col: nat) -> ScanResult
    decreases s.len() + 2 - pos,
{
    if pos + 1 >= s.len() {
        ScanResult { toks: Seq::empty(), diags: Seq::empty(), pos, line, col }
    } else {
        let c = s[pos as int];
        if c == ' ' || c == '\0' {
            // Whitespace and the sentinel are consumed without a token.
            scan_from(s, pos + 1, line, col + 1)
        } else if c == '\n' {
            // A newline advances the line counter and restarts the column.
            scan_from(s, pos + 1, line + 1, 1)
        } else if single_char_token(c) is Some {
            let r = scan_from(s, pos + 1, line, col + 1);
            ScanResult {
                toks: seq![single_char_token(c)->Some_0] + r.toks,
                diags: r.diags,
                pos: r.pos,
                line: r.line,
                col: r.col,
            }
        } else if c == '/' {
            if s[pos as int + 1] == '/' {
                // Line comment: consumed up to the next newline or sentinel,
                // after which the line counter advances and the column
                // restarts at zero.
                proof {
                    lemma_line_comment_len_bound(s, pos + 1);
                }
                scan_from(s, pos + 1 + line_comment_len(s, pos + 1), line + 1, 0)
            } else if s[pos as int + 1] == '*' {
                let bc = block_comment_scan(s, pos + 2, line, col + 2);
                proof {
                    lemma_block_comment_scan_props(s, pos + 2, line, col + 2);
                }
                let r = scan_from(s, bc.pos, bc.line, bc.col);
                ScanResult {
                    toks: r.toks,
                    diags: diag_opt_seq(bc.diag) + r.diags,
                    pos: r.pos,
                    line: r.line,
                    col: r.col,
                }
            } else {
                // A lone slash: only the slash itself is consumed.
                let r = scan_from(s, pos + 1, line, col + 1);
                ScanResult {
                    toks: seq![TokenView::Slash] + r.toks,
                    diags: r.diags,
                    pos: r.pos,
                    line: r.line,
                    col: r.col,
                }
            }
        } else if one_or_two_char_tokens(c) is Some {
            // Greedy matching: the two-character form consumes the '=' too;
            // the one-character form consumes only the operator itself.
            let pair = one_or_two_char_tokens(c)->Some_0;
            if s[pos as int + 1] == '=' {
                let r = scan_from(s, pos + 2, line, col + 2);
                ScanResult {
                    toks: seq![pair.1] + r.toks,
                    diags: r.diags,
                    pos: r.pos,
                    line: r.line,
                    col: r.col,
                }
            } else {
                let r = scan_from(s, pos + 1, line, col + 1);
                ScanResult {
                    toks: seq![pair.0] + r.toks,
                    diags: r.diags,
                    pos: r.pos,
                    line: r.line,
                    col: r.col,
                }
            }
        } else if c == '"' {
            let sr = str_body_scan(s, pos + 1, line, col + 1);
            proof {
                lemma_str_body_scan_props(s, pos + 1, line, col + 1);
            }
            let r = scan_from(s, sr.pos, sr.line, sr.col);
            ScanResult {
                toks: seq![TokenView::String(sr.body)] + r.toks,
                diags: diag_opt_seq(sr.diag) + r.diags,
                pos: r.pos,
                line: r.line,
                col: r.col,
            }
        } else if is_digit_char(c) {
            let n = number_len(s, pos);
            proof {
                lemma_number_len_bounds(s, pos);
            }
            let r = scan_from(s, pos + n, line, col + n);
            ScanResult {
                toks: seq![TokenView::Number(s.subrange(pos as int, pos as int + n))] + r.toks,
                diags: r.diags,
                pos: r.pos,
                line: r.line,
                col: r.col,
            }
        } else if is_ident_start_char(c) {
            let n = 1 + ident_tail_len(s, pos + 1);
            proof {
                lemma_ident_tail_len_bound(s, pos + 1);
            }
            let r = scan_from(s, pos + n, line, col + n);
            ScanResult {
                toks: seq![ident_or_keyword_token(s.subrange(pos as int, pos as int + n))]
                    + r.toks,
                diags: r.diags,
                pos: r.pos,
                line: r.line,
                col: r.col,
            }
        } else {
            // Any other character: record an UnknownToken diagnostic at the
            // current position and continue.
            let d = Diag { kind: LexerError::UnknownToken, line, col, ch: c };
            let r = scan_from(s, pos + 1, line, col + 1);
            ScanResult {
                toks: r.toks,
                diags: seq![d] + r.diags,
                pos: r.pos,
                line: r.line,
                col: r.col,
            }
        }
    }
}

/// A numeric literal consumes at least one and at most the remaining
/// characters.
pub proof fn lemma_number_len_bounds(s: Seq<char>, i: nat)
    requires
        i < s.len(),
        is_digit_char(s[i as int]),
    ensures
        1 <= number_len(s, i),
        i + number_len(s, i) <= s.len(),
{
    lemma_digits_len_bound(s, i);
    let d1 = digits_len(s, i);
    if i + d1 < s.len() && s[(i + d1) as int] == '.' && i + d1 + 1 < s.len() && is_digit_char(
        s[(i + d1 + 1) as int],
    ) {
        lemma_digits_len_bound(s, i + d1 + 1);
    }
}

/// The token sequence a whole scan of `s` returns: what the loop produces,
/// closed by exactly one end-of-input token.
pub open spec fn scan_tokens(s: Seq<char>) -> Seq<TokenView> {
    scan_from(s, 0, 0, 1).toks.push(TokenView::Eof)
}

/// The diagnostics a whole scan of `s` records, in order.
pub open spec fn scan_diags(s: Seq<char>) -> Seq<Diag> {
    scan_from(s, 0, 0, 1).diags
}

} // verus!
