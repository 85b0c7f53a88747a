//! The executable scanner: a single left-to-right pass with two cursors
//! (`start` marks the token being built, `current` is the lookahead), an
//! accumulated token sequence and an accumulated error list. It is proved
//! to return exactly what `scan_spec::spec_scan` says.

use vstd::prelude::*;
use crate::token::Token;
use crate::token::TokenType;
use crate::token::Literal;
use crate::token::SpecToken;
use crate::token::classify_identifier;
use crate::error::LoxError;
use crate::error::unexpected_char_reason;
use crate::error::unterminated_string_reason;
use crate::scan_spec::is_digit_char;
use crate::scan_spec::alnum_char;
use crate::scan_spec::is_alphabetic_char;
use crate::scan_spec::is_alphanumeric_char;
use crate::scan_spec::check_digit;
use crate::scan_spec::line_end;
use crate::scan_spec::string_close;
use crate::scan_spec::digits_end;
use crate::scan_spec::ident_end;
use crate::scan_spec::count_newlines;
use crate::scan_spec::lemma_line_end;
use crate::scan_spec::lemma_string_close;
use crate::scan_spec::lemma_digits_end;
use crate::scan_spec::lemma_ident_end;
use crate::scan_spec::lemma_count_newlines_extend;
use crate::scan_spec::lemma_scan_step_bounds;
use crate::scan_spec::scan_step;
use crate::scan_spec::scan_from;
use crate::scan_spec::spec_scan;
use crate::scan_spec::eof_token;

verus! {

/// The scanner's public contract in one call: the token sequence, always
/// closed by the end-of-input marker, and the lexical errors collected
/// along the way. The length bound is a machine limit: the line counter
/// must fit alongside the cursor in `usize`.
pub fn scan(source: std::string::String) -> (r: (Vec<Token>, Vec<LoxError>))
    requires
        source@.len() < usize::MAX,
    ensures
        r.0.deep_view() == spec_scan(source@).tokens,
        r.1.deep_view() == spec_scan(source@).errors,
{
    let mut lexer = Lexer::new(source);
    let tokens = lexer.scan_tokens();
    (tokens, lexer.errors)
}

/// The scanner's per-call state: the source text, the accumulators, the
/// two cursors and the 1-based line counter.
pub struct Lexer {
    pub source: std::string::String,
    pub tokens: Vec<Token>,
    pub errors: Vec<LoxError>,
    pub start: usize,
    pub current: usize,
    pub line: usize,
}

impl Lexer {
    /// The source as a character sequence: what the contracts range over.
    pub open spec fn src(&self) -> Seq<char> {
        self.source@
    }

    /// The cursor stays inside the source and the line counter never
    /// outruns it: one line per character consumed, plus the first.
    pub open spec fn wf(&self) -> bool {
        &&& self.current <= self.src().len()
        &&& self.src().len() < usize::MAX
        &&& 1 <= self.line
        &&& self.line <= self.current + 1
    }

    /// A scanner that has consumed nothing yet.
    pub open spec fn fresh(&self) -> bool {
        &&& self.start == 0
        &&& self.current == 0
        &&& self.line == 1
        &&& self.tokens@.len() == 0
        &&& self.errors@.len() == 0
    }

    /// A new scanner over the given source. The length bound is a machine
    /// limit: the line counter must fit alongside the cursor in `usize`.
    pub fn new(source: std::string::String) -> (l: Lexer)
        requires
            source@.len() < usize::MAX,
        ensures
            l.src() == source@,
            l.fresh(),
            l.wf(),
    {
        Lexer { source, tokens: Vec::new(), errors: Vec::new(), start: 0, current: 0, line: 1 }
    }

    fn is_at_end(&self) -> (r: bool)
        ensures
            r == (self.current >= self.src().len()),
    {
        self.current >= self.source.as_str().unicode_len()
    }

    /// The character under the cursor, or the NUL character at the end of
    /// input; consumes nothing.
    fn peek(&self) -> (c: char)
        requires
            self.current <= self.src().len(),
        ensures
            c == (if self.current < self.src().len() {
                self.src()[self.current as int]
            } else {
                '\0'
            }),
    {
        if self.is_at_end() {
            return '\0';
        }
        self.source.as_str().get_char(self.current)
    }

    /// One character of lookahead past the cursor, or NUL.
    fn peek_next(&self) -> (c: char)
        requires
            self.wf(),
        ensures
            c == (if self.current + 1 < self.src().len() {
                self.src()[self.current + 1]
            } else {
                '\0'
            }),
    {
        if self.current + 1 >= self.source.as_str().unicode_len() {
            return '\0';
        }
        self.source.as_str().get_char(self.current + 1)
    }

    /// Consumes and returns the character under the cursor.
    fn advance(&mut self) -> (c: char)
        requires
            old(self).src().len() < usize::MAX,
            old(self).current < old(self).src().len(),
        ensures
            c == old(self).src()[old(self).current as int],
            final(self).current == old(self).current + 1,
            final(self).source == old(self).source,
            final(self).tokens == old(self).tokens,
            final(self).errors == old(self).errors,
            final(self).start == old(self).start,
            final(self).line == old(self).line,
    {
        let c = self.source.as_str().get_char(self.current);
        self.current = self.current + 1;
        c
    }

    /// Consumes the next character exactly when it is the expected one:
    /// the maximal-munch lookahead for the two-character operators.
    fn match_next(&mut self, expected: char) -> (r: bool)
        requires
            old(self).src().len() < usize::MAX,
            old(self).current <= old(self).src().len(),
        ensures
            r == (old(self).current < old(self).src().len() && old(self).src()[old(
                self,
            ).current as int] == expected),
            final(self).current == old(self).current + (if r {
                1int
            } else {
                0int
            }),
            final(self).source == old(self).source,
            final(self).tokens == old(self).tokens,
            final(self).errors == old(self).errors,
            final(self).start == old(self).start,
            final(self).line == old(self).line,
    {
        if self.is_at_end() {
            return false;
        }
        if self.source.as_str().get_char(self.current) != expected {
            return false;
        }
        self.current = self.current + 1;
        true
    }

    /// Appends a token with no literal value.
    fn add_token(&mut self, token_type: TokenType)
        requires
            old(self).start <= old(self).current <= old(self).src().len(),
        ensures
            final(self).tokens.deep_view() == old(self).tokens.deep_view().push(
                SpecToken {
                    kind: token_type,
                    lexeme: if token_type == TokenType::EOF {
                        Seq::<char>::empty()
                    } else {
                        old(self).src().subrange(old(self).start as int, old(self).current as int)
                    },
                    literal: Literal::Absent@,
                    line: old(self).line as nat,
                },
            ),
            final(self).source == old(self).source,
            final(self).errors == old(self).errors,
            final(self).start == old(self).start,
            final(self).current == old(self).current,
            final(self).line == old(self).line,
    {
        self.add_token_with_literal(token_type, Literal::Absent);
    }

    /// Appends a token whose lexeme is the source text between the two
    /// cursors (empty for the end marker), carrying the given literal.
    fn add_token_with_literal(&mut self, token_type: TokenType, literal: Literal)
        requires
            old(self).start <= old(self).current <= old(self).src().len(),
        ensures
            final(self).tokens.deep_view() == old(self).tokens.deep_view().push(
                SpecToken {
                    kind: token_type,
                    lexeme: if token_type == TokenType::EOF {
                        Seq::<char>::empty()
                    } else {
                        old(self).src().subrange(old(self).start as int, old(self).current as int)
                    },
                    literal: literal@,
                    line: old(self).line as nat,
                },
            ),
            final(self).source == old(self).source,
            final(self).errors == old(self).errors,
            final(self).start == old(self).start,
            final(self).current == old(self).current,
            final(self).line == old(self).line,
    {
        let ghost pre = self.tokens.deep_view();
        match token_type {
            TokenType::EOF => {
                self.tokens.push(
                    Token {
                        token_type: TokenType::EOF,
                        lexeme: std::string::String::new(),
                        literal,
                        line_number: self.line,
                    },
                );
            },
            _ => {
                let lexeme = self.source.as_str().substring_char(self.start, self.current);
                self.tokens.push(
                    Token {
                        token_type,
                        lexeme: lexeme.to_owned(),
                        literal,
                        line_number: self.line,
                    },
                );
            },
        }
        proof {
            assert(self.tokens.deep_view() =~= pre.push(self.tokens@[self.tokens@.len() - 1]@));
        }
    }

    /// Appends a lexical error at the given line; scanning is not stopped.
    fn add_error(&mut self, line: usize, reason: std::string::String)
        ensures
            final(self).errors.deep_view() == old(self).errors.deep_view().push(
                crate::error::SpecError { line: line as nat, reason: reason@ },
            ),
            final(self).source == old(self).source,
            final(self).tokens == old(self).tokens,
            final(self).start == old(self).start,
            final(self).current == old(self).current,
            final(self).line == old(self).line,
    {
        let ghost pre = self.errors.deep_view();
        self.errors.push(LoxError { line_number: line, reason });
        proof {
            assert(self.errors.deep_view() =~= pre.push(self.errors@[self.errors@.len() - 1]@));
        }
    }

    /// Whether the cursor stands on a character that keeps a string
    /// literal open.
    fn string_continues(&self) -> (r: bool)
        requires
            self.current <= self.src().len(),
        ensures
            r == (self.current < self.src().len() && self.src()[self.current as int] != '"'),
    {
        if self.is_at_end() {
            false
        } else {
            self.peek() != '"'
        }
    }

    /// Whether the cursor stands on a character that keeps an identifier
    /// going.
    fn ident_continues(&self) -> (r: bool)
        requires
            self.current <= self.src().len(),
        ensures
            r == (self.current < self.src().len() && alnum_char(self.src()[self.current as int])),
    {
        if self.is_at_end() {
            false
        } else {
            is_alphanumeric_char(self.peek())
        }
    }

    /// Whether the cursor stands on a character that keeps a line comment
    /// going.
    fn comment_continues(&self) -> (r: bool)
        requires
            self.current <= self.src().len(),
        ensures
            r == (self.current < self.src().len() && self.src()[self.current as int] != '\n'),
    {
        if self.is_at_end() {
            false
        } else {
            self.peek() != '\n'
        }
    }

    /// Scans a string literal: the opening quote is already consumed.
    /// Embedded newlines advance the line counter; the literal value is
    /// the exact text between the quotes. Reaching end of input first
    /// records an unterminated-string error at the line where scanning
    /// halted.
    #[verifier::loop_isolation(false)]
    fn string(&mut self)
        requires
            old(self).wf(),
            old(self).current == old(self).start + 1,
            old(self).start < old(self).src().len(),
        ensures
            final(self).wf(),
            final(self).source == old(self).source,
            final(self).start == old(self).start,
            ({
                let src = old(self).src();
                let open = old(self).current as int;
                let close = string_close(src, open);
                if close == src.len() {
                    let halt = (old(self).line + count_newlines(src, open, src.len() as int)) as nat;
                    final(self).current == src.len()
                    && final(self).line == halt
                    && final(self).tokens == old(self).tokens
                    && final(self).errors.deep_view() == old(self).errors.deep_view().push(
                        crate::error::SpecError {
                            line: halt,
                            reason: crate::error::unterminated_string_message(),
                        },
                    )
                } else {
                    let token_line = (old(self).line + count_newlines(src, open, close)) as nat;
                    final(self).current == close + 1
                    && final(self).line == token_line
                    && final(self).errors == old(self).errors
                    && final(self).tokens.deep_view() == old(self).tokens.deep_view().push(
                        SpecToken {
                            kind: TokenType::String,
                            lexeme: src.subrange(old(self).start as int, close + 1),
                            literal: crate::token::SpecLiteral::Text(src.subrange(open, close)),
                            line: token_line,
                        },
                    )
                }
            }),
    {
        let ghost src = self.src();
        let ghost open = self.current as int;
        let ghost line0 = self.line;
        proof {
            lemma_string_close(src, open);
        }
        while self.string_continues()
            invariant
                self.wf(),
                self.source == old(self).source,
                self.tokens == old(self).tokens,
                self.errors == old(self).errors,
                self.start == old(self).start,
                open <= self.current <= src.len(),
                string_close(src, open) == string_close(src, self.current as int),
                self.line == line0 + count_newlines(src, open, self.current as int),
            decreases src.len() - self.current,
        {
            proof {
                lemma_count_newlines_extend(src, open, self.current as int);
            }
            if self.peek() == '\n' {
                self.line = self.line + 1;
            }
            self.advance();
        }
        proof {
            lemma_string_close(src, self.current as int);
        }
        if self.is_at_end() {
            let reason = unterminated_string_reason();
            let line_now = self.line;
            self.add_error(line_now, reason);
            return ;
        }
        self.advance();
        let body = self.source.as_str().substring_char(self.start + 1, self.current - 1);
        let literal_text = body.to_owned();
        self.add_token_with_literal(TokenType::String, Literal::Text(literal_text));
    }

    /// Scans a number literal: the first digit is already consumed. A
    /// maximal digit run, then one dot only when a digit confirms it on
    /// lookahead, then the fractional run. The literal carries the exact
    /// decimal text.
    #[verifier::loop_isolation(false)]
    fn number(&mut self)
        requires
            old(self).wf(),
            old(self).current == old(self).start + 1,
            old(self).start < old(self).src().len(),
            is_digit_char(old(self).src()[old(self).start as int]),
        ensures
            final(self).wf(),
            final(self).source == old(self).source,
            final(self).start == old(self).start,
            final(self).errors == old(self).errors,
            final(self).line == old(self).line,
            ({
                let src = old(self).src();
                let begin = old(self).start as int;
                let whole = digits_end(src, begin);
                let end = if whole < src.len() && src[whole] == '.' && whole + 1 < src.len()
                    && is_digit_char(src[whole + 1]) {
                    digits_end(src, whole + 1)
                } else {
                    whole
                };
                final(self).current == end
                && final(self).tokens.deep_view() == old(self).tokens.deep_view().push(
                    SpecToken {
                        kind: TokenType::Number,
                        lexeme: src.subrange(begin, end),
                        literal: crate::token::SpecLiteral::Number(src.subrange(begin, end)),
                        line: old(self).line as nat,
                    },
                )
            }),
    {
        let ghost src = self.src();
        let ghost begin = self.start as int;
        proof {
            lemma_digits_end(src, begin);
            assert(digits_end(src, begin) == digits_end(src, begin + 1));
        }
        while check_digit(self.peek())
            invariant
                self.wf(),
                self.source == old(self).source,
                self.tokens == old(self).tokens,
                self.errors == old(self).errors,
                self.start == old(self).start,
                self.line == old(self).line,
                begin < self.current <= src.len(),
                digits_end(src, begin) == digits_end(src, self.current as int),
            decreases src.len() - self.current,
        {
            self.advance();
        }
        proof {
            lemma_digits_end(src, self.current as int);
            assert(self.current as int == digits_end(src, begin));
        }
        if self.peek() == '.' && check_digit(self.peek_next()) {
            self.advance();
            proof {
                assert(digits_end(src, self.current as int) == digits_end(
                    src,
                    self.current + 1,
                ));
            }
            while check_digit(self.peek())
                invariant
                    self.wf(),
                    self.source == old(self).source,
                    self.tokens == old(self).tokens,
                    self.errors == old(self).errors,
                    self.start == old(self).start,
                    self.line == old(self).line,
                    begin < self.current <= src.len(),
                    digits_end(src, digits_end(src, begin) + 1) == digits_end(
                        src,
                        self.current as int,
                    ),
                decreases src.len() - self.current,
            {
                self.advance();
            }
            proof {
                lemma_digits_end(src, self.current as int);
            }
        }
        let text_slice = self.source.as_str().substring_char(self.start, self.current);
        let text = text_slice.to_owned();
        self.add_token_with_literal(TokenType::Number, Literal::Number(text));
    }

    /// Scans an identifier: the first character is already consumed. A
    /// maximal alphanumeric run, then reclassification against the fixed
    /// keyword table.
    #[verifier::loop_isolation(false)]
    fn identifier(&mut self)
        requires
            old(self).wf(),
            old(self).current == old(self).start + 1,
            old(self).start < old(self).src().len(),
        ensures
            final(self).wf(),
            final(self).source == old(self).source,
            final(self).start == old(self).start,
            final(self).errors == old(self).errors,
            final(self).line == old(self).line,
            ({
                let src = old(self).src();
                let begin = old(self).start as int;
                let end = ident_end(src, begin + 1);
                final(self).current == end
                && final(self).tokens.deep_view() == old(self).tokens.deep_view().push(
                    SpecToken {
                        kind: crate::token::keyword_type(src.subrange(begin, end)),
                        lexeme: src.subrange(begin, end),
                        literal: crate::token::SpecLiteral::Absent,
                        line: old(self).line as nat,
                    },
                )
            }),
    {
        let ghost src = self.src();
        let ghost begin = self.start as int;
        while self.ident_continues()
            invariant
                self.wf(),
                self.source == old(self).source,
                self.tokens == old(self).tokens,
                self.errors == old(self).errors,
                self.start == old(self).start,
                self.line == old(self).line,
                begin < self.current <= src.len(),
                ident_end(src, begin + 1) == ident_end(src, self.current as int),
            decreases src.len() - self.current,
        {
            self.advance();
        }
        proof {
            lemma_ident_end(src, self.current as int);
        }
        let text_slice = self.source.as_str().substring_char(self.start, self.current);
        let text = text_slice.to_owned();
        let token_type = classify_identifier(&text);
        self.add_token(token_type);
    }

    /// One scanning step at a token boundary: consumes at least one
    /// character and does exactly what the model's `scan_step` says.
    #[verifier::loop_isolation(false)]
    fn scan_token(&mut self)
        requires
            old(self).wf(),
            old(self).current < old(self).src().len(),
            old(self).start == old(self).current,
        ensures
            final(self).wf(),
            final(self).source == old(self).source,
            final(self).start == old(self).start,
            ({
                let st = scan_step(old(self).src(), old(self).current as int, old(self).line as nat);
                final(self).current == st.next
                && final(self).line == st.next_line
                && final(self).tokens.deep_view() == (match st.token {
                    Some(t) => old(self).tokens.deep_view().push(t),
                    None => old(self).tokens.deep_view(),
                })
                && final(self).errors.deep_view() == (match st.error {
                    Some(e) => old(self).errors.deep_view().push(e),
                    None => old(self).errors.deep_view(),
                })
            }),
    {
        let ghost src = self.src();
        let c = self.advance();
        match c {
            '(' => self.add_token(TokenType::LeftParen),
            ')' => self.add_token(TokenType::RightParen),
            '{' => self.add_token(TokenType::LeftBrace),
            '}' => self.add_token(TokenType::RightBrace),
            ',' => self.add_token(TokenType::Comma),
            '.' => self.add_token(TokenType::Dot),
            '-' => self.add_token(TokenType::Minus),
            '+' => self.add_token(TokenType::Plus),
            ';' => self.add_token(TokenType::SemiColon),
            '*' => self.add_token(TokenType::Star),
            '!' => {
                if self.match_next('=') {
                    self.add_token(TokenType::BangEqual)
                } else {
                    self.add_token(TokenType::Bang)
                }
            },
            '=' => {
                if self.match_next('=') {
                    self.add_token(TokenType::EqualEqual)
                } else {
                    self.add_token(TokenType::Equal)
                }
            },
            '<' => {
                if self.match_next('=') {
                    self.add_token(TokenType::LessEqual)
                } else {
                    self.add_token(TokenType::Less)
                }
            },
            '>' => {
                if self.match_next('=') {
                    self.add_token(TokenType::GreaterEqual)
                } else {
                    self.add_token(TokenType::Greater)
                }
            },
            '/' => {
                if self.match_next('/') {
                    proof {
                        lemma_line_end(src, self.current as int);
                    }
                    while self.comment_continues()
                        invariant
                            self.wf(),
                            self.source == old(self).source,
                            self.tokens == old(self).tokens,
                            self.errors == old(self).errors,
                            self.start == old(self).start,
                            self.line == old(self).line,
                            old(self).current + 2 <= self.current <= src.len(),
                            line_end(src, old(self).current + 2) == line_end(
                                src,
                                self.current as int,
                            ),
                        decreases src.len() - self.current,
                    {
                        self.advance();
                    }
                    proof {
                        lemma_line_end(src, self.current as int);
                    }
                } else {
                    self.add_token(TokenType::Slash)
                }
            },
            ' ' => (),
            '\r' => (),
            '\t' => (),
            '\n' => {
                self.line = self.line + 1;
            },
            '"' => self.string(),
            other => {
                if check_digit(other) {
                    self.number();
                } else if is_alphabetic_char(other) {
                    self.identifier();
                } else {
                    let reason = unexpected_char_reason();
                    let line_now = self.line;
                    self.add_error(line_now, reason);
                }
            },
        }
    }

    /// Scans the whole source: the token sequence always ends with the
    /// end-of-input marker, and the errors collected along the way stay in
    /// `self.errors`. Both are exactly the model's output.
    #[verifier::loop_isolation(false)]
    pub fn scan_tokens(&mut self) -> (r: Vec<Token>)
        requires
            old(self).wf(),
            old(self).fresh(),
        ensures
            final(self).source == old(self).source,
            r.deep_view() == spec_scan(old(self).src()).tokens,
            final(self).tokens.deep_view() == spec_scan(old(self).src()).tokens,
            final(self).errors.deep_view() == spec_scan(old(self).src()).errors,
    {
        let ghost src = self.src();
        proof {
            assert(self.tokens.deep_view() =~= Seq::<SpecToken>::empty());
            assert(self.errors.deep_view() =~= Seq::<crate::error::SpecError>::empty());
            assert(scan_from(src, 0, 1).tokens =~= self.tokens.deep_view() + scan_from(
                src,
                0,
                1,
            ).tokens);
            assert(scan_from(src, 0, 1).errors =~= self.errors.deep_view() + scan_from(
                src,
                0,
                1,
            ).errors);
        }
        while !self.is_at_end()
            invariant
                self.wf(),
                self.source == old(self).source,
                self.start <= self.current,
                scan_from(src, 0, 1).tokens == self.tokens.deep_view() + scan_from(
                    src,
                    self.current as int,
                    self.line as nat,
                ).tokens,
                scan_from(src, 0, 1).errors == self.errors.deep_view() + scan_from(
                    src,
                    self.current as int,
                    self.line as nat,
                ).errors,
            decreases src.len() - self.current,
        {
            self.start = self.current;
            let ghost cur0 = self.current as int;
            let ghost line0 = self.line as nat;
            let ghost toks0 = self.tokens.deep_view();
            let ghost errs0 = self.errors.deep_view();
            proof {
                lemma_scan_step_bounds(src, cur0, line0);
            }
            self.scan_token();
            proof {
                let st = scan_step(src, cur0, line0);
                let rest = scan_from(src, st.next, st.next_line);
                assert(scan_from(src, cur0, line0).tokens == (match st.token {
                    Some(t) => seq![t] + rest.tokens,
                    None => rest.tokens,
                }));
                assert(scan_from(src, cur0, line0).errors == (match st.error {
                    Some(e) => seq![e] + rest.errors,
                    None => rest.errors,
                }));
                match st.token {
                    Some(t) => {
                        assert(toks0 + (seq![t] + rest.tokens) =~= toks0.push(t) + rest.tokens);
                    },
                    None => {},
                }
                match st.error {
                    Some(e) => {
                        assert(errs0 + (seq![e] + rest.errors) =~= errs0.push(e) + rest.errors);
                    },
                    None => {},
                }
            }
        }
        let ghost toks_before = self.tokens.deep_view();
        self.add_token(TokenType::EOF);
        proof {
            assert(scan_from(src, self.current as int, self.line as nat).tokens =~= seq![
                eof_token(self.line as nat),
            ]);
            assert(scan_from(src, self.current as int, self.line as nat).errors
                =~= Seq::<crate::error::SpecError>::empty());
            assert(toks_before + seq![eof_token(self.line as nat)] =~= toks_before.push(
                eof_token(self.line as nat),
            ));
            assert(self.errors.deep_view() + Seq::<crate::error::SpecError>::empty()
                =~= self.errors.deep_view());
        }
        let mut out: Vec<Token> = Vec::new();
        let mut i: usize = 0;
        while i < self.tokens.len()
            invariant
                i <= self.tokens.len(),
                out.deep_view() == self.tokens.deep_view().subrange(0, i as int),
            decreases self.tokens.len() - i,
        {
            let ghost out0 = out.deep_view();
            out.push(self.tokens[i].duplicate());
            i = i + 1;
            proof {
                assert(out.deep_view() =~= out0.push(self.tokens@[i - 1]@));
                assert(out.deep_view() =~= self.tokens.deep_view().subrange(0, i as int));
            }
        }
        proof {
            assert(out.deep_view() =~= self.tokens.deep_view());
        }
        out
    }
}

} // verus!
