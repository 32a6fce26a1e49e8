//! The scanner: a single pass over a character buffer that produces the token
//! sequence and diagnostic list described by [`crate::model`].

use vstd::prelude::*;
use vstd::string::StrSliceExecFns;

use crate::model::block_comment_scan;
use crate::model::diag_opt_seq;
use crate::model::digits_len;
use crate::model::ident_or_keyword_token;
use crate::model::ident_tail_len;
use crate::model::is_digit_char;
use crate::model::is_ident_start_char;
use crate::model::lemma_block_comment_scan_props;
use crate::model::lemma_digits_len_bound;
use crate::model::lemma_ident_tail_len_bound;
use crate::model::lemma_line_comment_len_bound;
use crate::model::lemma_number_len_bounds;
use crate::model::lemma_render_diags_cons;
use crate::model::lemma_str_body_scan_props;
use crate::model::line_comment_len;
use crate::model::number_len;
use crate::model::render_diag;
use crate::model::render_diags;
use crate::model::scan_from;
use crate::model::ScanResult;
use crate::model::str_body_scan;
use crate::model::Diag;
use crate::text::chars_to_string;
use crate::text::is_digit;
use crate::text::is_ident;
use crate::text::is_ident_start;
use crate::text::push_dec;
use crate::text::push_str_chars;
use crate::text::vec_eq_str;
use crate::token::LexerError;
use crate::token::Token;
use crate::token::TokenView;

verus! {

/// The scanner state: the character buffer (read-only for the scan), the
/// cursor, and the diagnostic collector. `has_error` and `errors` stay
/// readable after the scan, as the collector's summary flag and its rendered
/// records.
pub struct Lexer {
    chars: Vec<char>,
    line_idx: usize,
    col_idx: usize,
    read_idx: usize,
    pub has_error: bool,
    pub errors: Vec<String>,
}

impl Lexer {
    /// The character buffer being scanned.
    pub closed spec fn src(self) -> Seq<char> {
        self.chars@
    }

    /// The read position of the cursor.
    pub closed spec fn pos(self) -> nat {
        self.read_idx as nat
    }

    /// The current line counter (origin 0).
    pub closed spec fn line(self) -> nat {
        self.line_idx as nat
    }

    /// The current column counter (origin 1).
    pub closed spec fn col(self) -> nat {
        self.col_idx as nat
    }

    /// The rendered diagnostics collected so far, as character sequences:
    /// the contents of the `errors` field, viewed.
    pub closed spec fn rendered_errors(self) -> Seq<Seq<char>> {
        self.errors.deep_view()
    }

    /// The collector's summary flag: the `has_error` field.
    pub closed spec fn error_flag(self) -> bool {
        self.has_error
    }

    /// The diagnostic of kind `kind` raised at the current cursor position:
    /// positions are recorded at the moment a diagnostic is raised, and the
    /// character under the cursor is the one a message may embed.
    pub open spec fn diag_here(self, kind: LexerError) -> Diag {
        Diag { kind, line: self.line(), col: self.col(), ch: self.src()[self.pos() as int] }
    }

    /// Cursor sanity: the read position is inside the buffer and the line and
    /// column counters are bounded by how far the cursor has come. Established
    /// by [`Lexer::new`] and preserved by scanning.
    pub open spec fn cursor_ok(self) -> bool {
        &&& self.pos() <= self.src().len()
        &&& self.col() <= self.pos() + 1
        &&& self.line() <= 2 * self.pos()
    }

    /// The machine limit under which no counter of the scanner can overflow.
    pub open spec fn fits(self) -> bool {
        2 * self.src().len() + 4 <= usize::MAX
    }

    /// The input contract on the buffer: the caller supplies it already
    /// closed by the `'\0'` sentinel terminator.
    pub open spec fn terminated(self) -> bool {
        self.src().len() >= 1 && self.src()[self.src().len() - 1] == '\0'
    }

    /// Constructs a scanner over `source`, with the cursor at the start of
    /// the buffer, no diagnostics and a clear error flag.
    pub fn new(source: String) -> (lexer: Lexer)
        ensures
            lexer.src() == source@,
            lexer.pos() == 0,
            lexer.line() == 0,
            lexer.col() == 1,
            lexer.error_flag() == false,
            lexer.rendered_errors().len() == 0,
            lexer.cursor_ok(),
    {
        let s = source.as_str();
        let n = s.unicode_len();
        let mut chars: Vec<char> = Vec::new();
        let mut i: usize = 0;
        while i < n
            invariant
                i <= n,
                n == s@.len(),
                chars@ == s@.subrange(0, i as int),
            decreases n - i,
        {
            chars.push(s.get_char(i));
            i = i + 1;
            assert(chars@ =~= s@.subrange(0, i as int));
        }
        assert(chars@ =~= source@);
        Lexer {
            chars,
            line_idx: 0,
            col_idx: 1,
            read_idx: 0,
            has_error: false,
            errors: Vec::new(),
        }
    }

    /// Scans the whole buffer: the loop consumes one syntactic unit per step
    /// while both the current character and its successor exist (the
    /// one-character lookahead margin), then appends exactly one end-of-input
    /// token. Malformed input only records diagnostics; the scan always runs
    /// to completion.
    #[verifier::loop_isolation(false)]
    pub fn scan(&mut self) -> (tokens: Vec<Token>)
        requires
            old(self).cursor_ok(),
            old(self).fits(),
            old(self).terminated(),
        ensures
            final(self).src() == old(self).src(),
            ({
                let r = scan_from(
                    old(self).src(),
                    old(self).pos(),
                    old(self).line(),
                    old(self).col(),
                );
                &&& tokens.deep_view() == r.toks.push(TokenView::Eof)
                &&& final(self).rendered_errors() == old(self).rendered_errors() + render_diags(
                    r.diags,
                )
                &&& final(self).error_flag() == (old(self).error_flag() || r.diags.len() > 0)
                &&& final(self).pos() == r.pos
                &&& final(self).line() == r.line
                &&& final(self).col() == r.col
            }),
    {
        let mut tokens: Vec<Token> = Vec::new();
        let ghost s = self.chars@;
        let ghost full = scan_from(
            s,
            self.read_idx as nat,
            self.line_idx as nat,
            self.col_idx as nat,
        );
        proof {
            assert(tokens.deep_view() + full.toks =~= full.toks);
        }
        while self.read_idx + 1 < self.chars.len()
            invariant
                self.src() == s,
                self.pos() <= s.len() + 1,
                self.col() <= self.pos() + 1,
                self.line() <= 2 * self.pos(),
                ({
                    let rest = scan_from(s, self.pos(), self.line(), self.col());
                    &&& tokens.deep_view() + rest.toks == full.toks
                    &&& old(self).errors.deep_view() + render_diags(full.diags)
                        == self.errors.deep_view() + render_diags(rest.diags)
                    &&& rest.diags.len() <= full.diags.len()
                    &&& self.has_error == (old(self).has_error || full.diags.len()
                        > rest.diags.len())
                    &&& full.pos == rest.pos
                    &&& full.line == rest.line
                    &&& full.col == rest.col
                }),
            decreases s.len() + 2 - self.pos(),
        {
            self.scan_unit(&mut tokens);
        }
        proof {
            let rest = scan_from(s, self.pos(), self.line(), self.col());
            assert(full.toks =~= tokens.deep_view());
            assert(render_diags(rest.diags) =~= Seq::<Seq<char>>::empty());
            assert(self.errors.deep_view() =~= old(self).errors.deep_view() + render_diags(
                full.diags,
            ));
        }
        let t = Token::Eof;
        tokens.push(t);
        proof {
            assert(tokens.deep_view() =~= full.toks.push(TokenView::Eof));
        }
        tokens
    }

    /// Consumes one syntactic unit: the step the scan loop repeats. The
    /// contract relates the scanner state before and after the step through
    /// [`scan_from`]: what remains to be produced afterwards, prefixed by what
    /// the step appended, is what remained to be produced before.
    #[verifier::rlimit(100)]
    fn scan_unit(&mut self, tokens: &mut Vec<Token>)
        requires
            old(self).pos() + 1 < old(self).src().len(),
            old(self).terminated(),
            old(self).fits(),
            old(self).col() <= old(self).pos() + 1,
            old(self).line() <= 2 * old(self).pos(),
        ensures
            final(self).src() == old(self).src(),
            old(self).pos() < final(self).pos() <= old(self).src().len() + 1,
            final(self).col() <= final(self).pos() + 1,
            final(self).line() <= 2 * final(self).pos(),
            ({
                let s = old(self).src();
                let r0 = scan_from(s, old(self).pos(), old(self).line(), old(self).col());
                let r1 = scan_from(s, final(self).pos(), final(self).line(), final(self).col());
                &&& old(tokens).deep_view() + r0.toks == final(tokens).deep_view() + r1.toks
                &&& old(self).errors.deep_view() + render_diags(r0.diags)
                    == final(self).errors.deep_view() + render_diags(r1.diags)
                &&& r1.diags.len() <= r0.diags.len()
                &&& final(self).has_error == (old(self).has_error || r0.diags.len()
                    > r1.diags.len())
                &&& r0.pos == r1.pos
                &&& r0.line == r1.line
                &&& r0.col == r1.col
            }),
    {
        let ghost s = self.chars@;
        let ghost pre = *self;
        let ghost toks0 = tokens.deep_view();
        let c = self.chars[self.read_idx];
        if c == ' ' || c == '\0' {
            self.consume();
            proof {
                self.lemma_unit_quiet_step(pre);
            }
        } else if c == '\n' {
            self.line_idx = self.line_idx + 1;
            self.col_idx = 0;
            self.consume();
            proof {
                self.lemma_unit_quiet_step(pre);
            }
        } else if c == ';' {
            let t = self.consume_token(Token::Semicolon);
            tokens.push(t);
            proof {
                assert(tokens.deep_view() =~= toks0.push(TokenView::Semicolon));
                self.lemma_unit_token_step(pre, toks0, tokens.deep_view(), TokenView::Semicolon);
            }
        } else if c == '+' {
            let t = self.consume_token(Token::Plus);
            tokens.push(t);
            proof {
                assert(tokens.deep_view() =~= toks0.push(TokenView::Plus));
                self.lemma_unit_token_step(pre, toks0, tokens.deep_view(), TokenView::Plus);
            }
        } else if c == '-' {
            let t = self.consume_token(Token::Minus);
            tokens.push(t);
            proof {
                assert(tokens.deep_view() =~= toks0.push(TokenView::Minus));
                self.lemma_unit_token_step(pre, toks0, tokens.deep_view(), TokenView::Minus);
            }
        } else if c == '*' {
            let t = self.consume_token(Token::Star);
            tokens.push(t);
            proof {
                assert(tokens.deep_view() =~= toks0.push(TokenView::Star));
                self.lemma_unit_token_step(pre, toks0, tokens.deep_view(), TokenView::Star);
            }
        } else if c == ',' {
            let t = self.consume_token(Token::Comma);
            tokens.push(t);
            proof {
                assert(tokens.deep_view() =~= toks0.push(TokenView::Comma));
                self.lemma_unit_token_step(pre, toks0, tokens.deep_view(), TokenView::Comma);
            }
        } else if c == '.' {
            let t = self.consume_token(Token::Dot);
            tokens.push(t);
            proof {
                assert(tokens.deep_view() =~= toks0.push(TokenView::Dot));
                self.lemma_unit_token_step(pre, toks0, tokens.deep_view(), TokenView::Dot);
            }
        } else if c == '(' {
            let t = self.consume_token(Token::LeftParen);
            tokens.push(t);
            proof {
                assert(tokens.deep_view() =~= toks0.push(TokenView::LeftParen));
                self.lemma_unit_token_step(pre, toks0, tokens.deep_view(), TokenView::LeftParen);
            }
        } else if c == ')' {
            let t = self.consume_token(Token::RightParen);
            tokens.push(t);
            proof {
                assert(tokens.deep_view() =~= toks0.push(TokenView::RightParen));
                self.lemma_unit_token_step(pre, toks0, tokens.deep_view(), TokenView::RightParen);
            }
        } else if c == '{' {
            let t = self.consume_token(Token::LeftBrace);
            tokens.push(t);
            proof {
                assert(tokens.deep_view() =~= toks0.push(TokenView::LeftBrace));
                self.lemma_unit_token_step(pre, toks0, tokens.deep_view(), TokenView::LeftBrace);
            }
        } else if c == '}' {
            let t = self.consume_token(Token::RightBrace);
            tokens.push(t);
            proof {
                assert(tokens.deep_view() =~= toks0.push(TokenView::RightBrace));
                self.lemma_unit_token_step(pre, toks0, tokens.deep_view(), TokenView::RightBrace);
            }
        } else if c == '/' {
            self.handle_slash(tokens);
            proof {
                if s[pre.pos() as int + 1] == '/' {
                    lemma_line_comment_len_bound(s, pre.pos() + 1);
                } else if s[pre.pos() as int + 1] == '*' {
                    lemma_block_comment_scan_props(s, pre.pos() + 2, pre.line(), pre.col() + 2);
                    let bc = block_comment_scan(s, pre.pos() + 2, pre.line(), pre.col() + 2);
                    let r1 = scan_from(s, self.pos(), self.line(), self.col());
                    match bc.diag {
                        Some(d) => {
                            lemma_render_diags_cons(d, r1.diags);
                            assert(pre.errors.deep_view() + (seq![render_diag(d)] + render_diags(
                                r1.diags,
                            )) =~= self.errors.deep_view() + render_diags(r1.diags));
                        },
                        None => {
                            assert(diag_opt_seq(bc.diag) + r1.diags =~= r1.diags);
                        },
                    }
                } else {
                    assert(tokens.deep_view() =~= toks0.push(TokenView::Slash));
                    self.lemma_unit_token_step(pre, toks0, tokens.deep_view(), TokenView::Slash);
                }
                assert(pre.errors.deep_view() + render_diags(scan_from(s, pre.pos(), pre.line(),
                    pre.col()).diags) =~= self.errors.deep_view() + render_diags(scan_from(s,
                    self.pos(), self.line(), self.col()).diags));
            }
        } else if c == '!' {
            self.handle_one_or_two_character_tokens(tokens, Token::Bang, Token::BangEqual);
            proof {
                let t = if s[pre.pos() as int + 1] == '=' {
                    TokenView::BangEqual
                } else {
                    TokenView::Bang
                };
                self.lemma_unit_token_step(pre, toks0, tokens.deep_view(), t);
            }
        } else if c == '=' {
            self.handle_one_or_two_character_tokens(tokens, Token::Equal, Token::EqualEqual);
            proof {
                let t = if s[pre.pos() as int + 1] == '=' {
                    TokenView::EqualEqual
                } else {
                    TokenView::Equal
                };
                self.lemma_unit_token_step(pre, toks0, tokens.deep_view(), t);
            }
        } else if c == '<' {
            self.handle_one_or_two_character_tokens(tokens, Token::Less, Token::LessEqual);
            proof {
                let t = if s[pre.pos() as int + 1] == '=' {
                    TokenView::LessEqual
                } else {
                    TokenView::Less
                };
                self.lemma_unit_token_step(pre, toks0, tokens.deep_view(), t);
            }
        } else if c == '>' {
            self.handle_one_or_two_character_tokens(tokens, Token::Greater, Token::GreaterEqual);
            proof {
                let t = if s[pre.pos() as int + 1] == '=' {
                    TokenView::GreaterEqual
                } else {
                    TokenView::Greater
                };
                self.lemma_unit_token_step(pre, toks0, tokens.deep_view(), t);
            }
        } else if c == '"' {
            self.consume_string_literal(tokens);
            proof {
                lemma_str_body_scan_props(s, pre.pos() + 1, pre.line(), pre.col() + 1);
                let sr = str_body_scan(s, pre.pos() + 1, pre.line(), pre.col() + 1);
                let r1 = scan_from(s, self.pos(), self.line(), self.col());
                assert(toks0 + (seq![TokenView::String(sr.body)] + r1.toks) =~= toks0.push(
                    TokenView::String(sr.body),
                ) + r1.toks);
                match sr.diag {
                    Some(d) => {
                        lemma_render_diags_cons(d, r1.diags);
                        assert(pre.errors.deep_view() + (seq![render_diag(d)] + render_diags(
                            r1.diags,
                        )) =~= self.errors.deep_view() + render_diags(r1.diags));
                    },
                    None => {
                        assert(diag_opt_seq(sr.diag) + r1.diags =~= r1.diags);
                    },
                }
                assert(pre.errors.deep_view() + render_diags(scan_from(s, pre.pos(), pre.line(),
                    pre.col()).diags) =~= self.errors.deep_view() + render_diags(scan_from(s,
                    self.pos(), self.line(), self.col()).diags));
            }
        } else if is_digit(c) {
            self.consume_number(tokens);
            proof {
                lemma_number_len_bounds(s, pre.pos());
                let n = number_len(s, pre.pos());
                self.lemma_unit_token_step(pre, toks0, tokens.deep_view(), TokenView::Number(
                    s.subrange(pre.pos() as int, pre.pos() as int + n),
                ));
            }
        } else if is_ident_start(c) {
            self.consume_keyword_or_literal(tokens);
            proof {
                lemma_ident_tail_len_bound(s, pre.pos() + 1);
                let n = 1 + ident_tail_len(s, pre.pos() + 1);
                self.lemma_unit_token_step(pre, toks0, tokens.deep_view(), ident_or_keyword_token(
                    s.subrange(pre.pos() as int, pre.pos() as int + n),
                ));
            }
        } else {
            self.has_error = true;
            let msg = self.generate_error_msg(LexerError::UnknownToken);
            self.errors.push(msg);
            self.consume();
            proof {
                let d = Diag {
                    kind: LexerError::UnknownToken,
                    line: pre.line(),
                    col: pre.col(),
                    ch: c,
                };
                let r0 = scan_from(s, pre.pos(), pre.line(), pre.col());
                let r1 = scan_from(s, self.pos(), self.line(), self.col());
                let unit = ScanResult {
                    toks: r1.toks,
                    diags: seq![d] + r1.diags,
                    pos: r1.pos,
                    line: r1.line,
                    col: r1.col,
                };
                assert(r0 == unit);
                lemma_render_diags_cons(d, r1.diags);
                assert(self.errors.deep_view() =~= pre.errors.deep_view().push(render_diag(d)));
                assert(pre.errors.deep_view() + (seq![render_diag(d)] + render_diags(r1.diags))
                    =~= self.errors.deep_view() + render_diags(r1.diags));
                assert(r0.diags == seq![d] + r1.diags);
                assert(render_diags(r0.diags) == render_diags(seq![d] + r1.diags));
                assert(render_diags(r0.diags) == seq![render_diag(d)] + render_diags(r1.diags));
                assert(pre.errors.deep_view() + render_diags(r0.diags) =~= self.errors.deep_view()
                    + render_diags(r1.diags));
            }
        }
    }

    /// After a step that appended exactly the token `t` and recorded no
    /// diagnostic, what remains to be produced afterwards, prefixed by what
    /// stood before the step, is unchanged — for the tokens and for the
    /// rendered diagnostics alike.
    proof fn lemma_unit_token_step(
        self,
        pre: Lexer,
        toks0: Seq<TokenView>,
        toks1: Seq<TokenView>,
        t: TokenView,
    )
        requires
            toks1 == toks0.push(t),
            self.errors == pre.errors,
            scan_from(pre.src(), pre.pos(), pre.line(), pre.col()).toks == seq![t] + scan_from(
                self.src(),
                self.pos(),
                self.line(),
                self.col(),
            ).toks,
            scan_from(pre.src(), pre.pos(), pre.line(), pre.col()).diags == scan_from(
                self.src(),
                self.pos(),
                self.line(),
                self.col(),
            ).diags,
        ensures
            toks0 + scan_from(pre.src(), pre.pos(), pre.line(), pre.col()).toks == toks1
                + scan_from(self.src(), self.pos(), self.line(), self.col()).toks,
            pre.errors.deep_view() + render_diags(
                scan_from(pre.src(), pre.pos(), pre.line(), pre.col()).diags,
            ) == self.errors.deep_view() + render_diags(
                scan_from(self.src(), self.pos(), self.line(), self.col()).diags,
            ),
    {
        let r1 = scan_from(self.src(), self.pos(), self.line(), self.col());
        assert(toks0 + (seq![t] + r1.toks) =~= toks0.push(t) + r1.toks);
    }

    /// After a step that appended no token and recorded no diagnostic, what
    /// remains to be produced is unchanged.
    proof fn lemma_unit_quiet_step(self, pre: Lexer)
        requires
            self.errors == pre.errors,
            scan_from(pre.src(), pre.pos(), pre.line(), pre.col()).diags == scan_from(
                self.src(),
                self.pos(),
                self.line(),
                self.col(),
            ).diags,
        ensures
            pre.errors.deep_view() + render_diags(
                scan_from(pre.src(), pre.pos(), pre.line(), pre.col()).diags,
            ) == self.errors.deep_view() + render_diags(
                scan_from(self.src(), self.pos(), self.line(), self.col()).diags,
            ),
    {
    }

    /// The character at the read position, without consuming it.
    fn peek(&self) -> (c: Option<char>)
        ensures
            c == if self.pos() < self.src().len() {
                Some(self.src()[self.pos() as int])
            } else {
                None::<char>
            },
    {
        if self.read_idx < self.chars.len() {
            Some(self.chars[self.read_idx])
        } else {
            None
        }
    }

    /// The character one position past the read position.
    fn peek_next(&self) -> (c: Option<char>)
        requires
            self.pos() + 1 <= usize::MAX,
        ensures
            c == if self.pos() + 1 < self.src().len() {
                Some(self.src()[self.pos() as int + 1])
            } else {
                None::<char>
            },
    {
        if self.read_idx + 1 < self.chars.len() {
            Some(self.chars[self.read_idx + 1])
        } else {
            None
        }
    }

    /// Advances the read position and the column counter by one.
    fn consume(&mut self)
        requires
            old(self).pos() + 1 <= usize::MAX,
            old(self).col() + 1 <= usize::MAX,
        ensures
            final(self).pos() == old(self).pos() + 1,
            final(self).col() == old(self).col() + 1,
            final(self).line() == old(self).line(),
            final(self).src() == old(self).src(),
            final(self).errors == old(self).errors,
            final(self).has_error == old(self).has_error,
    {
        self.read_idx = self.read_idx + 1;
        self.col_idx = self.col_idx + 1;
    }

    /// Consumes one character and hands `token` back: the emission step for
    /// fixed-form tokens.
    fn consume_token(&mut self, token: Token) -> (t: Token)
        requires
            old(self).pos() + 1 <= usize::MAX,
            old(self).col() + 1 <= usize::MAX,
        ensures
            t == token,
            final(self).pos() == old(self).pos() + 1,
            final(self).col() == old(self).col() + 1,
            final(self).line() == old(self).line(),
            final(self).src() == old(self).src(),
            final(self).errors == old(self).errors,
            final(self).has_error == old(self).has_error,
    {
        self.consume();
        token
    }

    /// Renders the diagnostic of kind `kind` raised at the current cursor
    /// position, embedding the character under the cursor where the kind asks
    /// for it: `[<line>:<column>] <message>`.
    fn generate_error_msg(&self, kind: LexerError) -> (msg: String)
        requires
            self.pos() < self.src().len(),
        ensures
            msg@ == render_diag(self.diag_here(kind)),
    {
        let mut out: Vec<char> = Vec::new();
        out.push('[');
        push_dec(self.line_idx, &mut out);
        out.push(':');
        push_dec(self.col_idx, &mut out);
        out.push(']');
        out.push(' ');
        match kind {
            LexerError::UnknownToken => {
                push_str_chars("Unknown token found ", &mut out);
                out.push(self.chars[self.read_idx]);
            },
            LexerError::UnterminatedString => {
                push_str_chars("Unterminated string", &mut out);
            },
            LexerError::UnterminatedMultilineComment => {
                push_str_chars("Unterminated multiline comment", &mut out);
            },
        }
        let msg = chars_to_string(&out);
        proof {
            assert(msg@ =~= render_diag(self.diag_here(kind)));
        }
        msg
    }

    /// Consumes a line comment: everything up to, and not including, the next
    /// newline or sentinel terminator, then advances the line counter and
    /// restarts the column counter at zero.
    fn consume_single_line_comment(&mut self)
        requires
            old(self).pos() < old(self).src().len(),
            old(self).terminated(),
            old(self).fits(),
            old(self).col() <= old(self).pos() + 1,
            old(self).line() <= 2 * old(self).pos(),
        ensures
            final(self).src() == old(self).src(),
            final(self).pos() == old(self).pos() + line_comment_len(
                old(self).src(),
                old(self).pos(),
            ),
            final(self).line() == old(self).line() + 1,
            final(self).col() == 0,
            final(self).errors == old(self).errors,
            final(self).has_error == old(self).has_error,
    {
        let ghost s = self.chars@;
        let ghost p0 = self.read_idx as nat;
        while self.read_idx < self.chars.len() && self.chars[self.read_idx] != '\n'
            && self.chars[self.read_idx] != '\0'
            invariant
                self.src() == s,
                s.len() >= 1,
                s[s.len() - 1] == '\0',
                2 * s.len() + 4 <= usize::MAX,
                p0 <= self.pos() < s.len(),
                self.col() <= self.pos() + 1,
                self.line() == old(self).line(),
                self.line() <= 2 * self.pos(),
                self.errors == old(self).errors,
                self.has_error == old(self).has_error,
                line_comment_len(s, p0) == (self.pos() - p0) + line_comment_len(s, self.pos()),
            decreases s.len() - self.pos(),
        {
            self.consume();
        }
        self.line_idx = self.line_idx + 1;
        self.col_idx = 0;
    }

    /// Consumes a block comment body, entered at the `'*'` of the opening
    /// `/*`. The first `*/` closes the comment; a newline inside advances the
    /// line counter; meeting the sentinel terminator records an
    /// UnterminatedMultilineComment diagnostic at the terminator's position
    /// and leaves the terminator unconsumed.
    #[verifier::loop_isolation(false)]
    fn consume_multi_line_comment(&mut self)
        requires
            old(self).pos() < old(self).src().len(),
            old(self).src()[old(self).pos() as int] == '*',
            old(self).terminated(),
            old(self).fits(),
            old(self).col() <= old(self).pos() + 1,
            old(self).line() <= 2 * old(self).pos(),
        ensures
            final(self).src() == old(self).src(),
            ({
                let bc = block_comment_scan(
                    old(self).src(),
                    old(self).pos() + 1,
                    old(self).line(),
                    old(self).col() + 1,
                );
                &&& final(self).pos() == bc.pos
                &&& final(self).line() == bc.line
                &&& final(self).col() == bc.col
                &&& match bc.diag {
                    Some(d) => final(self).errors.deep_view() == old(
                        self,
                    ).errors.deep_view().push(render_diag(d)) && final(self).has_error == true,
                    None => final(self).errors == old(self).errors && final(self).has_error == old(
                        self,
                    ).has_error,
                }
            }),
    {
        self.consume();  // the '*' of the opening marker
        let ghost s = self.chars@;
        let ghost bc = block_comment_scan(
            s,
            self.read_idx as nat,
            self.line_idx as nat,
            self.col_idx as nat,
        );
        loop
            invariant
                self.src() == s,
                s.len() >= 1,
                s[s.len() - 1] == '\0',
                2 * s.len() + 4 <= usize::MAX,
                self.pos() < s.len(),
                self.col() <= self.pos() + 1,
                self.line() <= 2 * self.pos(),
                block_comment_scan(s, self.pos(), self.line(), self.col()) == bc,
                self.errors == old(self).errors,
                self.has_error == old(self).has_error,
            decreases s.len() - self.pos(),
        {
            let c = self.chars[self.read_idx];
            if c == '*' {
                self.consume();
                if self.chars[self.read_idx] == '/' {
                    self.consume();
                    break;
                }
            } else if c == '\n' {
                self.line_idx = self.line_idx + 1;
                self.consume();
            } else if c == '\0' {
                self.has_error = true;
                let msg = self.generate_error_msg(LexerError::UnterminatedMultilineComment);
                self.errors.push(msg);
                proof {
                    assert(self.errors.deep_view() =~= old(self).errors.deep_view().push(msg@));
                }
                break;
            } else {
                self.consume();
            }
        }
    }

    /// Emits the one-character or the two-character form of an operator.
    /// When `'='` follows, it is consumed too and the two-character form is
    /// emitted; otherwise only the operator character is consumed.
    fn handle_one_or_two_character_tokens(
        &mut self,
        tokens: &mut Vec<Token>,
        token_if_single: Token,
        token_if_double: Token,
    )
        requires
            old(self).pos() + 1 < old(self).src().len(),
            old(self).fits(),
            old(self).col() <= old(self).pos() + 1,
        ensures
            final(self).src() == old(self).src(),
            final(self).line() == old(self).line(),
            final(self).errors == old(self).errors,
            final(self).has_error == old(self).has_error,
            ({
                if old(self).src()[old(self).pos() as int + 1] == '=' {
                    &&& final(self).pos() == old(self).pos() + 2
                    &&& final(self).col() == old(self).col() + 2
                    &&& final(tokens).deep_view() == old(tokens).deep_view().push(
                        token_if_double@,
                    )
                } else {
                    &&& final(self).pos() == old(self).pos() + 1
                    &&& final(self).col() == old(self).col() + 1
                    &&& final(tokens).deep_view() == old(tokens).deep_view().push(
                        token_if_single@,
                    )
                }
            }),
    {
        self.consume();
        let doubled = match self.peek() {
            Some(c) => c == '=',
            None => false,
        };
        let t = if doubled {
            self.consume_token(token_if_double)
        } else {
            token_if_single
        };
        tokens.push(t);
        proof {
            assert(tokens.deep_view() =~= old(tokens).deep_view().push(t@));
        }
    }

    /// Captures a string literal, entered at the opening quote. Characters
    /// are accumulated until a closing quote; a newline inside is captured
    /// like any other character and advances the line counter without ending
    /// the literal. Meeting the sentinel terminator first records an
    /// UnterminatedString diagnostic at the terminator's position, consumes
    /// it, and aborts the literal. The token is emitted either way, with the
    /// quotes stripped.
    #[verifier::loop_isolation(false)]
    fn consume_string_literal(&mut self, tokens: &mut Vec<Token>)
        requires
            old(self).pos() < old(self).src().len(),
            old(self).src()[old(self).pos() as int] == '"',
            old(self).fits(),
            old(self).col() <= old(self).pos() + 1,
            old(self).line() <= 2 * old(self).pos(),
        ensures
            final(self).src() == old(self).src(),
            ({
                let sr = str_body_scan(
                    old(self).src(),
                    old(self).pos() + 1,
                    old(self).line(),
                    old(self).col() + 1,
                );
                &&& final(self).pos() == sr.pos
                &&& final(self).line() == sr.line
                &&& final(self).col() == sr.col
                &&& final(tokens).deep_view() == old(tokens).deep_view().push(
                    TokenView::String(sr.body),
                )
                &&& match sr.diag {
                    Some(d) => final(self).errors.deep_view() == old(
                        self,
                    ).errors.deep_view().push(render_diag(d)) && final(self).has_error == true,
                    None => final(self).errors == old(self).errors && final(self).has_error == old(
                        self,
                    ).has_error,
                }
            }),
    {
        self.consume();  // the opening quote
        let ghost s = self.chars@;
        let ghost sr = str_body_scan(
            s,
            self.read_idx as nat,
            self.line_idx as nat,
            self.col_idx as nat,
        );
        let mut buffer: Vec<char> = Vec::new();
        loop
            invariant
                self.src() == s,
                self.pos() <= s.len(),
                self.col() <= self.pos() + 1,
                self.line() <= 2 * self.pos(),
                self.errors == old(self).errors,
                self.has_error == old(self).has_error,
                ({
                    let rest = str_body_scan(s, self.pos(), self.line(), self.col());
                    &&& sr.body == buffer@ + rest.body
                    &&& sr.pos == rest.pos
                    &&& sr.line == rest.line
                    &&& sr.col == rest.col
                    &&& sr.diag == rest.diag
                }),
            decreases s.len() - self.pos(),
        {
            if self.read_idx >= self.chars.len() {
                break;
            }
            let c = self.chars[self.read_idx];
            if c == '"' {
                self.consume();
                break;
            }
            if c == '\0' {
                self.has_error = true;
                let msg = self.generate_error_msg(LexerError::UnterminatedString);
                self.errors.push(msg);
                proof {
                    assert(self.errors.deep_view() =~= old(self).errors.deep_view().push(msg@));
                }
                self.consume();
                break;
            }
            buffer.push(c);
            if c == '\n' {
                self.line_idx = self.line_idx + 1;
            }
            self.consume();
            proof {
                let rest = str_body_scan(s, self.pos(), self.line(), self.col());
                assert(sr.body =~= buffer@ + rest.body);
            }
        }
        let t = Token::String(chars_to_string(&buffer));
        tokens.push(t);
        proof {
            assert(sr.body =~= buffer@);
            assert(tokens.deep_view() =~= old(tokens).deep_view().push(TokenView::String(sr.body)));
        }
    }

    /// Captures a numeric literal, entered at its first digit: a digit run,
    /// extended by a fractional part only when a `'.'` follows the run and a
    /// digit follows the `'.'`. The payload is the literal's exact source
    /// spelling.
    #[verifier::loop_isolation(false)]
    fn consume_number(&mut self, tokens: &mut Vec<Token>)
        requires
            old(self).pos() < old(self).src().len(),
            is_digit_char(old(self).src()[old(self).pos() as int]),
            old(self).fits(),
            old(self).col() <= old(self).pos() + 1,
        ensures
            final(self).src() == old(self).src(),
            final(self).pos() == old(self).pos() + number_len(old(self).src(), old(self).pos()),
            final(self).col() == old(self).col() + number_len(old(self).src(), old(self).pos()),
            final(self).line() == old(self).line(),
            final(self).errors == old(self).errors,
            final(self).has_error == old(self).has_error,
            final(tokens).deep_view() == old(tokens).deep_view().push(
                TokenView::Number(
                    old(self).src().subrange(
                        old(self).pos() as int,
                        old(self).pos() as int + number_len(old(self).src(), old(self).pos()),
                    ),
                ),
            ),
    {
        let ghost s = self.chars@;
        let ghost p0 = self.read_idx as nat;
        proof {
            lemma_digits_len_bound(s, p0);
        }
        let mut buffer: Vec<char> = Vec::new();
        buffer.push(self.chars[self.read_idx]);
        self.consume();
        while self.read_idx < self.chars.len() && is_digit(self.chars[self.read_idx])
            invariant
                self.src() == s,
                p0 < self.pos() <= s.len(),
                self.col() == old(self).col() + (self.pos() - p0),
                self.line() == old(self).line(),
                self.errors == old(self).errors,
                self.has_error == old(self).has_error,
                buffer@ == s.subrange(p0 as int, self.pos() as int),
                digits_len(s, p0) == (self.pos() - p0) + digits_len(s, self.pos()),
            decreases s.len() - self.pos(),
        {
            buffer.push(self.chars[self.read_idx]);
            self.consume();
            proof {
                assert(buffer@ =~= s.subrange(p0 as int, self.pos() as int));
            }
        }
        proof {
            assert(self.pos() == p0 + digits_len(s, p0));
        }
        let dot_here = match self.peek() {
            Some(c) => c == '.',
            None => false,
        };
        if dot_here {
            let digit_after = match self.peek_next() {
                Some(c) => is_digit(c),
                None => false,
            };
            if digit_after {
                buffer.push('.');
                self.consume();
                let ghost p1 = self.read_idx as nat;
                proof {
                    lemma_digits_len_bound(s, p1);
                    assert(buffer@ =~= s.subrange(p0 as int, self.pos() as int));
                }
                while self.read_idx < self.chars.len() && is_digit(self.chars[self.read_idx])
                    invariant
                        self.src() == s,
                        p1 <= self.pos() <= s.len(),
                        self.col() == old(self).col() + (self.pos() - p0),
                        self.line() == old(self).line(),
                        self.errors == old(self).errors,
                        self.has_error == old(self).has_error,
                        buffer@ == s.subrange(p0 as int, self.pos() as int),
                        digits_len(s, p1) == (self.pos() - p1) + digits_len(s, self.pos()),
                    decreases s.len() - self.pos(),
                {
                    buffer.push(self.chars[self.read_idx]);
                    self.consume();
                    proof {
                        assert(buffer@ =~= s.subrange(p0 as int, self.pos() as int));
                    }
                }
            }
        }
        let t = Token::Number(chars_to_string(&buffer));
        tokens.push(t);
        proof {
            assert(self.pos() == p0 + number_len(s, p0));
            assert(tokens.deep_view() =~= old(tokens).deep_view().push(
                TokenView::Number(s.subrange(p0 as int, p0 as int + number_len(s, p0))),
            ));
        }
    }

    /// Captures an identifier or keyword, entered at its leading letter or
    /// underscore: letters, digits and underscores are accumulated, and the
    /// spelling is resolved against the reserved-word table.
    #[verifier::loop_isolation(false)]
    fn consume_keyword_or_literal(&mut self, tokens: &mut Vec<Token>)
        requires
            old(self).pos() < old(self).src().len(),
            is_ident_start_char(old(self).src()[old(self).pos() as int]),
            old(self).fits(),
            old(self).col() <= old(self).pos() + 1,
        ensures
            final(self).src() == old(self).src(),
            ({
                let n = 1 + ident_tail_len(old(self).src(), old(self).pos() + 1);
                &&& final(self).pos() == old(self).pos() + n
                &&& final(self).col() == old(self).col() + n
                &&& final(self).line() == old(self).line()
                &&& final(self).errors == old(self).errors
                &&& final(self).has_error == old(self).has_error
                &&& final(tokens).deep_view() == old(tokens).deep_view().push(
                    ident_or_keyword_token(
                        old(self).src().subrange(
                            old(self).pos() as int,
                            old(self).pos() as int + n,
                        ),
                    ),
                )
            }),
    {
        let ghost s = self.chars@;
        let ghost p0 = self.read_idx as nat;
        proof {
            lemma_ident_tail_len_bound(s, p0 + 1);
        }
        let mut buffer: Vec<char> = Vec::new();
        buffer.push(self.chars[self.read_idx]);
        self.consume();
        while self.read_idx < self.chars.len() && is_ident(self.chars[self.read_idx])
            invariant
                self.src() == s,
                p0 < self.pos() <= s.len(),
                self.col() == old(self).col() + (self.pos() - p0),
                self.line() == old(self).line(),
                self.errors == old(self).errors,
                self.has_error == old(self).has_error,
                buffer@ == s.subrange(p0 as int, self.pos() as int),
                ident_tail_len(s, p0 + 1) == (self.pos() - (p0 + 1)) + ident_tail_len(
                    s,
                    self.pos(),
                ),
            decreases s.len() - self.pos(),
        {
            buffer.push(self.chars[self.read_idx]);
            self.consume();
            proof {
                assert(buffer@ =~= s.subrange(p0 as int, self.pos() as int));
            }
        }
        let t = self.match_identifier_or_keyword(buffer);
        tokens.push(t);
        proof {
            let n = 1 + ident_tail_len(s, p0 + 1);
            assert(tokens.deep_view() =~= old(tokens).deep_view().push(
                ident_or_keyword_token(s.subrange(p0 as int, p0 as int + n)),
            ));
        }
    }

    /// Dispatches on what follows a `'/'`: a second slash starts a line
    /// comment, a `'*'` a block comment; otherwise a Slash token is emitted
    /// and only the slash itself has been consumed.
    fn handle_slash(&mut self, tokens: &mut Vec<Token>)
        requires
            old(self).pos() + 1 < old(self).src().len(),
            old(self).src()[old(self).pos() as int] == '/',
            old(self).terminated(),
            old(self).fits(),
            old(self).col() <= old(self).pos() + 1,
            old(self).line() <= 2 * old(self).pos(),
        ensures
            final(self).src() == old(self).src(),
            ({
                let s = old(self).src();
                let p = old(self).pos();
                let l = old(self).line();
                let c = old(self).col();
                if s[p as int + 1] == '/' {
                    &&& final(self).pos() == p + 1 + line_comment_len(s, p + 1)
                    &&& final(self).line() == l + 1
                    &&& final(self).col() == 0
                    &&& *final(tokens) == *old(tokens)
                    &&& final(self).errors == old(self).errors
                    &&& final(self).has_error == old(self).has_error
                } else if s[p as int + 1] == '*' {
                    let bc = block_comment_scan(s, p + 2, l, c + 2);
                    &&& final(self).pos() == bc.pos
                    &&& final(self).line() == bc.line
                    &&& final(self).col() == bc.col
                    &&& *final(tokens) == *old(tokens)
                    &&& match bc.diag {
                        Some(d) => final(self).errors.deep_view() == old(
                            self,
                        ).errors.deep_view().push(render_diag(d)) && final(self).has_error == true,
                        None => final(self).errors == old(self).errors && final(self).has_error
                            == old(self).has_error,
                    }
                } else {
                    &&& final(self).pos() == p + 1
                    &&& final(self).line() == l
                    &&& final(self).col() == c + 1
                    &&& final(tokens).deep_view() == old(tokens).deep_view().push(TokenView::Slash)
                    &&& final(self).errors == old(self).errors
                    &&& final(self).has_error == old(self).has_error
                }
            }),
    {
        self.consume();  // the first '/'
        let second_slash = match self.peek() {
            Some(c) => c == '/',
            None => false,
        };
        if second_slash {
            self.consume_single_line_comment();
            return ;
        }
        let star = match self.peek() {
            Some(c) => c == '*',
            None => false,
        };
        if star {
            self.consume_multi_line_comment();
        } else {
            tokens.push(Token::Slash);
            proof {
                assert(tokens.deep_view() =~= old(tokens).deep_view().push(TokenView::Slash));
            }
        }
    }

    /// Looks the accumulated spelling up in the reserved-word table: a hit
    /// emits the keyword token, a miss an `Identifier` carrying the spelling.
    fn match_identifier_or_keyword(&self, lexeme: Vec<char>) -> (t: Token)
        ensures
            t@ == ident_or_keyword_token(lexeme@),
    {
        if vec_eq_str(&lexeme, "and") {
            Token::And
        } else if vec_eq_str(&lexeme, "class") {
            Token::Class
        } else if vec_eq_str(&lexeme, "else") {
            Token::Else
        } else if vec_eq_str(&lexeme, "false") {
            Token::False
        } else if vec_eq_str(&lexeme, "fun") {
            Token::Fun
        } else if vec_eq_str(&lexeme, "for") {
            Token::For
        } else if vec_eq_str(&lexeme, "if") {
            Token::If
        } else if vec_eq_str(&lexeme, "nil") {
            Token::Nil
        } else if vec_eq_str(&lexeme, "or") {
            Token::Or
        } else if vec_eq_str(&lexeme, "print") {
            Token::Print
        } else if vec_eq_str(&lexeme, "return") {
            Token::Return
        } else if vec_eq_str(&lexeme, "super") {
            Token::Super
        } else if vec_eq_str(&lexeme, "this") {
            Token::This
        } else if vec_eq_str(&lexeme, "true") {
            Token::True
        } else if vec_eq_str(&lexeme, "var") {
            Token::Var
        } else if vec_eq_str(&lexeme, "while") {
            Token::While
        } else {
            Token::Identifier(chars_to_string(&lexeme))
        }
    }
}

} // verus!
