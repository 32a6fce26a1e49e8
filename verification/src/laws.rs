//! General properties of the scanner, stated over the model in
//! [`crate::model`] and proved for every input they speak of. The contract of
//! [`crate::lexer::Lexer::scan`] carries each of them over to the executable
//! scanner.

use vstd::prelude::*;

use crate::model::block_comment_scan;
use crate::model::ident_or_keyword_token;
use crate::model::newline_count;
use crate::model::ident_tail_len;
use crate::model::is_digit_char;
use crate::model::is_ident_char;
use crate::model::is_ident_start_char;
use crate::model::keyword_token;
use crate::model::lemma_block_comment_scan_props;
use crate::model::lemma_ident_tail_len_bound;
use crate::model::lemma_line_comment_len_bound;
use crate::model::lemma_number_len_bounds;
use crate::model::lemma_str_body_scan_props;
use crate::model::line_comment_len;
use crate::model::number_len;
use crate::model::one_or_two_char_tokens;
use crate::model::scan_diags;
use crate::model::scan_from;
use crate::model::scan_tokens;
use crate::model::single_char_token;
use crate::model::str_body_scan;
use crate::model::Diag;
use crate::model::StrScan;
use crate::token::LexerError;
use crate::token::TokenView;

verus! {

/// The scan loop produces nothing from input that holds only spaces, newlines
/// and sentinel terminators.
proof fn lemma_scan_from_whitespace(s: Seq<char>, pos: nat, line: nat, col: nat)
    requires
        forall|i: int| 0 <= i < s.len() ==> (s[i] == ' ' || s[i] == '\n' || s[i] == '\0'),
    ensures
        scan_from(s, pos, line, col).toks == Seq::<TokenView>::empty(),
        scan_from(s, pos, line, col).diags == Seq::<Diag>::empty(),
    decreases s.len() + 2 - pos,
{
    if pos + 1 < s.len() {
        let c = s[pos as int];
        if c == '\n' {
            lemma_scan_from_whitespace(s, pos + 1, line + 1, 1);
        } else {
            lemma_scan_from_whitespace(s, pos + 1, line, col + 1);
        }
    }
}

/// An input consisting only of whitespace, newlines and the sentinel
/// terminator scans to a token sequence of length one — the end-of-input
/// token — and to no diagnostics.
pub proof fn lemma_scan_whitespace_only(s: Seq<char>)
    requires
        forall|i: int| 0 <= i < s.len() ==> (s[i] == ' ' || s[i] == '\n' || s[i] == '\0'),
    ensures
        scan_tokens(s) == seq![TokenView::Eof],
        scan_diags(s) == Seq::<Diag>::empty(),
{
    lemma_scan_from_whitespace(s, 0, 0, 1);
    assert(scan_tokens(s) =~= seq![TokenView::Eof]);
}

/// The scan loop itself never emits an end-of-input token: every token it
/// produces, on any input and from any cursor state, is another kind.
proof fn lemma_scan_from_no_eof(s: Seq<char>, pos: nat, line: nat, col: nat)
    ensures
        forall|i: int|
            0 <= i < scan_from(s, pos, line, col).toks.len() ==> scan_from(
                s,
                pos,
                line,
                col,
            ).toks[i] != TokenView::Eof,
    decreases s.len() + 2 - pos,
{
    if pos + 1 < s.len() {
        let c = s[pos as int];
        if c == ' ' || c == '\0' {
            lemma_scan_from_no_eof(s, pos + 1, line, col + 1);
        } else if c == '\n' {
            lemma_scan_from_no_eof(s, pos + 1, line + 1, 1);
        } else if single_char_token(c) is Some {
            lemma_scan_from_no_eof(s, pos + 1, line, col + 1);
        } else if c == '/' {
            if s[pos as int + 1] == '/' {
                lemma_line_comment_len_bound(s, pos + 1);
                lemma_scan_from_no_eof(s, pos + 1 + line_comment_len(s, pos + 1), line + 1, 0);
            } else if s[pos as int + 1] == '*' {
                lemma_block_comment_scan_props(s, pos + 2, line, col + 2);
                let bc = block_comment_scan(s, pos + 2, line, col + 2);
                lemma_scan_from_no_eof(s, bc.pos, bc.line, bc.col);
            } else {
                lemma_scan_from_no_eof(s, pos + 1, line, col + 1);
            }
        } else if one_or_two_char_tokens(c) is Some {
            if s[pos as int + 1] == '=' {
                lemma_scan_from_no_eof(s, pos + 2, line, col + 2);
            } else {
                lemma_scan_from_no_eof(s, pos + 1, line, col + 1);
            }
        } else if c == '"' {
            lemma_str_body_scan_props(s, pos + 1, line, col + 1);
            let sr = str_body_scan(s, pos + 1, line, col + 1);
            lemma_scan_from_no_eof(s, sr.pos, sr.line, sr.col);
        } else if is_digit_char(c) {
            lemma_number_len_bounds(s, pos);
            let n = number_len(s, pos);
            lemma_scan_from_no_eof(s, pos + n, line, col + n);
        } else if is_ident_start_char(c) {
            lemma_ident_tail_len_bound(s, pos + 1);
            let n = 1 + ident_tail_len(s, pos + 1);
            lemma_scan_from_no_eof(s, pos + n, line, col + n);
        } else {
            lemma_scan_from_no_eof(s, pos + 1, line, col + 1);
        }
    }
}

/// On every input, the scanned token sequence is non-empty and ends with
/// exactly one end-of-input token: the last token is `Eof` and no earlier
/// one is.
pub proof fn lemma_scan_tokens_single_eof(s: Seq<char>)
    ensures
        scan_tokens(s).len() >= 1,
        scan_tokens(s).last() == TokenView::Eof,
        forall|i: int| 0 <= i < scan_tokens(s).len() - 1 ==> scan_tokens(s)[i] != TokenView::Eof,
{
    lemma_scan_from_no_eof(s, 0, 0, 1);
}

/// A run of identifier characters that ends exactly where a non-identifier
/// character stands has that exact length.
proof fn lemma_ident_tail_len_exact(s: Seq<char>, i: nat, j: nat)
    requires
        i <= j < s.len(),
        forall|k: int| i <= k < j ==> is_ident_char(s[k]),
        !is_ident_char(s[j as int]),
    ensures
        ident_tail_len(s, i) == j - i,
    decreases j - i,
{
    if i < j {
        lemma_ident_tail_len_exact(s, i + 1, j);
    }
}

/// Any identifier-shaped spelling that is not in the reserved-word table
/// scans, alone before the sentinel terminator, to exactly one `Identifier`
/// token carrying that spelling, and to no diagnostics.
pub proof fn lemma_scan_identifier(w: Seq<char>)
    requires
        w.len() >= 1,
        is_ident_start_char(w[0]),
        forall|i: int| 0 <= i < w.len() ==> is_ident_char(w[i]),
        keyword_token(w) is None,
    ensures
        scan_tokens(w.push('\0')) == seq![TokenView::Identifier(w), TokenView::Eof],
        scan_diags(w.push('\0')) == Seq::<Diag>::empty(),
{
    let s = w.push('\0');
    assert(s[s.len() - 1] == '\0');
    assert(forall|i: int| 0 <= i < w.len() ==> s[i] == w[i]);
    let c = s[0];
    assert(c == w[0]);
    lemma_ident_tail_len_exact(s, 1, w.len());
    let n = 1 + ident_tail_len(s, 1);
    assert(n == w.len());
    assert(s.subrange(0, n as int) =~= w);
    let r = scan_from(s, n, 0, 1 + n);
    assert(r.toks == Seq::<TokenView>::empty() && r.diags == Seq::<Diag>::empty());
    assert(scan_from(s, 0, 0, 1).toks =~= seq![TokenView::Identifier(w)]);
    assert(scan_from(s, 0, 0, 1).diags =~= Seq::<Diag>::empty());
    assert(scan_tokens(s) =~= seq![TokenView::Identifier(w), TokenView::Eof]);
}

/// A string-literal body (no quote, no terminator; newlines allowed) that
/// runs into the sentinel terminator is captured whole, the terminator is
/// consumed, and exactly one UnterminatedString diagnostic is raised at the
/// terminator's own position, after every newline of the body has advanced
/// the line counter.
proof fn lemma_str_body_scan_unterminated(s: Seq<char>, i: nat, line: nat, col: nat)
    requires
        s.len() >= 1,
        i <= s.len() - 1,
        s[s.len() - 1] == '\0',
        forall|k: int| i <= k < s.len() - 1 ==> (s[k] != '"' && s[k] != '\0'),
    ensures
        str_body_scan(s, i, line, col) == (StrScan {
            body: s.subrange(i as int, s.len() - 1),
            pos: s.len() as nat,
            line: line + newline_count(s.subrange(i as int, s.len() - 1)),
            col: (col + (s.len() - i)) as nat,
            diag: Some(
                Diag {
                    kind: LexerError::UnterminatedString,
                    line: line + newline_count(s.subrange(i as int, s.len() - 1)),
                    col: (col + (s.len() - 1 - i)) as nat,
                    ch: '\0',
                },
            ),
        }),
    decreases s.len() - i,
{
    if i == s.len() - 1 {
        assert(s.subrange(i as int, s.len() - 1) =~= Seq::<char>::empty());
    } else {
        let c = s[i as int];
        let rest = s.subrange(i as int + 1, s.len() - 1);
        let whole = s.subrange(i as int, s.len() - 1);
        if c == '\n' {
            lemma_str_body_scan_unterminated(s, i + 1, line + 1, col + 1);
        } else {
            lemma_str_body_scan_unterminated(s, i + 1, line, col + 1);
        }
        assert(whole =~= seq![c] + rest);
        assert(whole[0] == c && whole.drop_first() =~= rest);
        assert(newline_count(whole) == (if c == '\n' {
            1 as nat
        } else {
            0 as nat
        }) + newline_count(rest));
    }
}

/// An unterminated quoted literal — any body without a quote or terminator,
/// the empty body and newline-bearing bodies included — still emits its
/// `String` token with the captured body, and records exactly one
/// UnterminatedString diagnostic, positioned at the sentinel terminator
/// reached: the line the body's newlines reach, and the terminator's own
/// column. Through the scan contract, the one recorded diagnostic also sets
/// the scanner's error flag.
pub proof fn lemma_scan_unterminated_string(body: Seq<char>)
    requires
        forall|i: int| 0 <= i < body.len() ==> (body[i] != '"' && body[i] != '\0'),
    ensures
        scan_tokens(seq!['"'] + body + seq!['\0']) == seq![
            TokenView::String(body),
            TokenView::Eof,
        ],
        scan_diags(seq!['"'] + body + seq!['\0']) == seq![
            Diag {
                kind: LexerError::UnterminatedString,
                line: newline_count(body),
                col: body.len() + 2,
                ch: '\0',
            },
        ],
{
    let s = seq!['"'] + body + seq!['\0'];
    assert(s.len() == body.len() + 2);
    assert(s[0] == '"');
    assert(s[s.len() - 1] == '\0');
    assert(forall|k: int| 1 <= k < s.len() - 1 ==> s[k] == body[k - 1]);
    lemma_str_body_scan_unterminated(s, 1, 0, 2);
    let sr = str_body_scan(s, 1, 0, 2);
    assert(s.subrange(1, s.len() - 1) =~= body);
    let r = scan_from(s, sr.pos, sr.line, sr.col);
    assert(r.toks == Seq::<TokenView>::empty() && r.diags == Seq::<Diag>::empty());
    assert(scan_from(s, 0, 0, 1).toks =~= seq![TokenView::String(body)]);
    assert(scan_from(s, 0, 0, 1).diags =~= seq![
        Diag {
            kind: LexerError::UnterminatedString,
            line: newline_count(body),
            col: body.len() + 2,
            ch: '\0',
        },
    ]);
    assert(scan_tokens(s) =~= seq![TokenView::String(body), TokenView::Eof]);
}

/// A string-literal body (no quote, no terminator; newlines allowed) closed
/// by a quote is captured whole with the quotes stripped, the closing quote
/// is consumed, no diagnostic is raised, and every newline of the body has
/// advanced the line counter.
proof fn lemma_str_body_scan_terminated(s: Seq<char>, i: nat, j: nat, line: nat, col: nat)
    requires
        i <= j < s.len(),
        s[j as int] == '"',
        forall|k: int| i <= k < j ==> (s[k] != '"' && s[k] != '\0'),
    ensures
        str_body_scan(s, i, line, col) == (StrScan {
            body: s.subrange(i as int, j as int),
            pos: j + 1,
            line: line + newline_count(s.subrange(i as int, j as int)),
            col: (col + (j + 1 - i)) as nat,
            diag: None,
        }),
    decreases j - i,
{
    if i == j {
        assert(s.subrange(i as int, j as int) =~= Seq::<char>::empty());
    } else {
        let c = s[i as int];
        let rest = s.subrange(i as int + 1, j as int);
        let whole = s.subrange(i as int, j as int);
        if c == '\n' {
            lemma_str_body_scan_terminated(s, i + 1, j, line + 1, col + 1);
        } else {
            lemma_str_body_scan_terminated(s, i + 1, j, line, col + 1);
        }
        assert(whole =~= seq![c] + rest);
        assert(whole[0] == c && whole.drop_first() =~= rest);
        assert(newline_count(whole) == (if c == '\n' {
            1 as nat
        } else {
            0 as nat
        }) + newline_count(rest));
    }
}

/// A quoted literal — any body without a quote or terminator, the empty body
/// and newline-bearing bodies included — scans, alone before the sentinel
/// terminator, to exactly one `String` token carrying the body with the
/// quotes stripped, and to no diagnostics.
pub proof fn lemma_scan_terminated_string(body: Seq<char>)
    requires
        forall|i: int| 0 <= i < body.len() ==> (body[i] != '"' && body[i] != '\0'),
    ensures
        scan_tokens(seq!['"'] + body + seq!['"', '\0']) == seq![
            TokenView::String(body),
            TokenView::Eof,
        ],
        scan_diags(seq!['"'] + body + seq!['"', '\0']) == Seq::<Diag>::empty(),
{
    let s = seq!['"'] + body + seq!['"', '\0'];
    assert(s.len() == body.len() + 3);
    assert(s[0] == '"');
    assert(s[body.len() as int + 1] == '"');
    assert(forall|k: int| 1 <= k < body.len() as int + 1 ==> s[k] == body[k - 1]);
    lemma_str_body_scan_terminated(s, 1, (body.len() + 1) as nat, 0, 2);
    let sr = str_body_scan(s, 1, 0, 2);
    assert(s.subrange(1, body.len() as int + 1) =~= body);
    let r = scan_from(s, sr.pos, sr.line, sr.col);
    assert(r.toks == Seq::<TokenView>::empty() && r.diags == Seq::<Diag>::empty());
    assert(scan_from(s, 0, 0, 1).toks =~= seq![TokenView::String(body)]);
    assert(scan_from(s, 0, 0, 1).diags =~= Seq::<Diag>::empty());
    assert(scan_tokens(s) =~= seq![TokenView::String(body), TokenView::Eof]);
}

/// Any spelling outside the reserved-word table resolves to an `Identifier`
/// token carrying exactly that spelling; the result depends on the spelling
/// alone.
pub proof fn lemma_table_miss_is_identifier(lex: Seq<char>)
    requires
        keyword_token(lex) is None,
    ensures
        ident_or_keyword_token(lex) == TokenView::Identifier(lex),
{
}

} // verus!
