//! The mathematical model of the scanner: what one scanning step does at a
//! given position and line, and the fold of those steps over the whole
//! source. The executable scanner in `lexer` is proved to return exactly
//! this model's output.

use vstd::prelude::*;
use crate::token::TokenType;
use crate::token::SpecLiteral;
use crate::token::SpecToken;
use crate::token::keyword_type;
use crate::error::SpecError;
use crate::error::unexpected_char_message;
use crate::error::unterminated_string_message;

verus! {

/// An ASCII decimal digit. Number scanning consumes exactly these.
pub open spec fn is_digit_char(c: char) -> bool {
    48 <= c as u32 <= 57
}

/// What `char::is_alphabetic` returns: a fixed classification, a function
/// of the character alone.
pub uninterp spec fn alpha_char(c: char) -> bool;

/// What `char::is_alphanumeric` returns: a fixed classification, a
/// function of the character alone.
pub uninterp spec fn alnum_char(c: char) -> bool;

/// Relies on char::is_alphabetic: whether the character is a letter,
/// decided by the character alone. Identifiers begin with such a
/// character.
#[verifier::external_body]
pub(crate) fn is_alphabetic_char(c: char) -> (r: bool)
    ensures
        r == alpha_char(c),
{
    c.is_alphabetic()
}

/// Relies on char::is_alphanumeric: whether the character is a letter or
/// a numeric character, decided by the character alone. Identifiers
/// continue through such characters.
#[verifier::external_body]
pub(crate) fn is_alphanumeric_char(c: char) -> (r: bool)
    ensures
        r == alnum_char(c),
{
    c.is_alphanumeric()
}

/// Whether the character is exec-checkable as a digit.
pub fn check_digit(c: char) -> (r: bool)
    ensures
        r == is_digit_char(c),
{
    let u: u32 = c as u32;
    48 <= u && u <= 57
}

/// First position at or after `i` holding a newline, or the length of the
/// source if there is none: where a line comment ends.
pub open spec fn line_end(src: Seq<char>, i: int) -> int
    decreases src.len() - i,
{
    if i < 0 || i >= src.len() {
        src.len() as int
    } else if src[i] == '\n' {
        i
    } else {
        line_end(src, i + 1)
    }
}

/// First position at or after `i` holding a closing quote, or the length
/// of the source if the string is unterminated.
pub open spec fn string_close(src: Seq<char>, i: int) -> int
    decreases src.len() - i,
{
    if i < 0 || i >= src.len() {
        src.len() as int
    } else if src[i] == '"' {
        i
    } else {
        string_close(src, i + 1)
    }
}

/// First position at or after `i` holding a non-digit, or the length of
/// the source: the end of a maximal digit run.
pub open spec fn digits_end(src: Seq<char>, i: int) -> int
    decreases src.len() - i,
{
    if i < 0 || i >= src.len() {
        src.len() as int
    } else if !is_digit_char(src[i]) {
        i
    } else {
        digits_end(src, i + 1)
    }
}

/// First position at or after `i` holding a non-alphanumeric character,
/// or the length of the source: the end of a maximal identifier run.
pub open spec fn ident_end(src: Seq<char>, i: int) -> int
    decreases src.len() - i,
{
    if i < 0 || i >= src.len() {
        src.len() as int
    } else if !alnum_char(src[i]) {
        i
    } else {
        ident_end(src, i + 1)
    }
}

/// Number of newline characters in `src[i..j]`.
pub open spec fn count_newlines(src: Seq<char>, i: int, j: int) -> nat
    decreases j - i,
{
    if i >= j {
        0
    } else {
        (if src[i] == '\n' {
            1nat
        } else {
            0nat
        }) + count_newlines(src, i + 1, j)
    }
}

pub proof fn lemma_line_end(src: Seq<char>, i: int)
    requires
        0 <= i <= src.len(),
    ensures
        i <= line_end(src, i) <= src.len(),
        forall|j: int| i <= j < line_end(src, i) ==> src[j] != '\n',
        line_end(src, i) < src.len() ==> src[line_end(src, i)] == '\n',
    decreases src.len() - i,
{
    if i < src.len() && src[i] != '\n' {
        lemma_line_end(src, i + 1);
    }
}

pub proof fn lemma_string_close(src: Seq<char>, i: int)
    requires
        0 <= i <= src.len(),
    ensures
        i <= string_close(src, i) <= src.len(),
        forall|j: int| i <= j < string_close(src, i) ==> src[j] != '"',
        string_close(src, i) < src.len() ==> src[string_close(src, i)] == '"',
    decreases src.len() - i,
{
    if i < src.len() && src[i] != '"' {
        lemma_string_close(src, i + 1);
    }
}

pub proof fn lemma_digits_end(src: Seq<char>, i: int)
    requires
        0 <= i <= src.len(),
    ensures
        i <= digits_end(src, i) <= src.len(),
        forall|j: int| i <= j < digits_end(src, i) ==> is_digit_char(src[j]),
        digits_end(src, i) < src.len() ==> !is_digit_char(src[digits_end(src, i)]),
    decreases src.len() - i,
{
    if i < src.len() && is_digit_char(src[i]) {
        lemma_digits_end(src, i + 1);
    }
}

pub proof fn lemma_ident_end(src: Seq<char>, i: int)
    requires
        0 <= i <= src.len(),
    ensures
        i <= ident_end(src, i) <= src.len(),
        forall|j: int| i <= j < ident_end(src, i) ==> alnum_char(src[j]),
        ident_end(src, i) < src.len() ==> !alnum_char(src[ident_end(src, i)]),
    decreases src.len() - i,
{
    if i < src.len() && alnum_char(src[i]) {
        lemma_ident_end(src, i + 1);
    }
}

/// A range known quote-free up to `m`, with a quote (or the end) at `m`,
/// pins `string_close` down to `m`.
pub proof fn lemma_string_close_is(src: Seq<char>, i: int, m: int)
    requires
        0 <= i <= m <= src.len(),
        forall|j: int| i <= j < m ==> src[j] != '"',
        m < src.len() ==> src[m] == '"',
    ensures
        string_close(src, i) == m,
    decreases m - i,
{
    if i < m {
        assert(src[i] != '"');
        lemma_string_close_is(src, i + 1, m);
    }
}

/// A range known all-digits up to `m`, with a non-digit (or the end) at
/// `m`, pins `digits_end` down to `m`.
pub proof fn lemma_digits_end_is(src: Seq<char>, i: int, m: int)
    requires
        0 <= i <= m <= src.len(),
        forall|j: int| i <= j < m ==> is_digit_char(src[j]),
        m < src.len() ==> !is_digit_char(src[m]),
    ensures
        digits_end(src, i) == m,
    decreases m - i,
{
    if i < m {
        assert(is_digit_char(src[i]));
        lemma_digits_end_is(src, i + 1, m);
    }
}

/// A range known all-alphanumeric up to `m`, with a non-alphanumeric
/// character (or the end) at `m`, pins `ident_end` down to `m`.
pub proof fn lemma_ident_end_is(src: Seq<char>, i: int, m: int)
    requires
        0 <= i <= m <= src.len(),
        forall|j: int| i <= j < m ==> alnum_char(src[j]),
        m < src.len() ==> !alnum_char(src[m]),
    ensures
        ident_end(src, i) == m,
    decreases m - i,
{
    if i < m {
        assert(alnum_char(src[i]));
        lemma_ident_end_is(src, i + 1, m);
    }
}

/// Counting one more character on the right adds its own newline count.
pub proof fn lemma_count_newlines_extend(src: Seq<char>, i: int, j: int)
    requires
        i <= j,
    ensures
        count_newlines(src, i, j + 1) == count_newlines(src, i, j) + (if src[j] == '\n' {
            1nat
        } else {
            0nat
        }),
    decreases j - i,
{
    if i < j {
        lemma_count_newlines_extend(src, i + 1, j);
    } else {
        assert(count_newlines(src, i + 1, j + 1) == 0);
    }
}

/// What one scanning step, started at a token boundary, does: where the
/// cursor and the line counter move, and the token or error it emits.
pub struct ScanStep {
    pub next: int,
    pub next_line: nat,
    pub token: Option<SpecToken>,
    pub error: Option<SpecError>,
}

/// A token whose lexeme is `src[start..end]` and which carries no literal.
pub open spec fn plain_token(src: Seq<char>, start: int, end: int, line: nat, kind: TokenType) -> SpecToken {
    SpecToken { kind, lexeme: src.subrange(start, end), literal: SpecLiteral::Absent, line }
}

/// A step that emits a plain token and moves the cursor past it.
pub open spec fn token_step(src: Seq<char>, start: int, end: int, line: nat, kind: TokenType) -> ScanStep {
    ScanStep { next: end, next_line: line, token: Some(plain_token(src, start, end, line, kind)), error: None }
}

/// A step that emits nothing and moves the cursor to `next`.
pub open spec fn skip_step(next: int, line: nat) -> ScanStep {
    ScanStep { next, next_line: line, token: None, error: None }
}

/// One scanning step at position `start` (a token boundary) on line
/// `line`: the maximal-munch case analysis of the scanner.
pub open spec fn scan_step(src: Seq<char>, start: int, line: nat) -> ScanStep
    recommends
        0 <= start < src.len(),
{
    let c = src[start];
    if c == '(' {
        token_step(src, start, start + 1, line, TokenType::LeftParen)
    } else if c == ')' {
        token_step(src, start, start + 1, line, TokenType::RightParen)
    } else if c == '{' {
        token_step(src, start, start + 1, line, TokenType::LeftBrace)
    } else if c == '}' {
        token_step(src, start, start + 1, line, TokenType::RightBrace)
    } else if c == ',' {
        token_step(src, start, start + 1, line, TokenType::Comma)
    } else if c == '.' {
        token_step(src, start, start + 1, line, TokenType::Dot)
    } else if c == '-' {
        token_step(src, start, start + 1, line, TokenType::Minus)
    } else if c == '+' {
        token_step(src, start, start + 1, line, TokenType::Plus)
    } else if c == ';' {
        token_step(src, start, start + 1, line, TokenType::SemiColon)
    } else if c == '*' {
        token_step(src, start, start + 1, line, TokenType::Star)
    } else if c == '!' {
        if start + 1 < src.len() && src[start + 1] == '=' {
            token_step(src, start, start + 2, line, TokenType::BangEqual)
        } else {
            token_step(src, start, start + 1, line, TokenType::Bang)
        }
    } else if c == '=' {
        if start + 1 < src.len() && src[start + 1] == '=' {
            token_step(src, start, start + 2, line, TokenType::EqualEqual)
        } else {
            token_step(src, start, start + 1, line, TokenType::Equal)
        }
    } else if c == '<' {
        if start + 1 < src.len() && src[start + 1] == '=' {
            token_step(src, start, start + 2, line, TokenType::LessEqual)
        } else {
            token_step(src, start, start + 1, line, TokenType::Less)
        }
    } else if c == '>' {
        if start + 1 < src.len() && src[start + 1] == '=' {
            token_step(src, start, start + 2, line, TokenType::GreaterEqual)
        } else {
            token_step(src, start, start + 1, line, TokenType::Greater)
        }
    } else if c == '/' {
        if start + 1 < src.len() && src[start + 1] == '/' {
            // A line comment: consumed through end of line or input, no token.
            skip_step(line_end(src, start + 2), line)
        } else {
            token_step(src, start, start + 1, line, TokenType::Slash)
        }
    } else if c == ' ' || c == '\r' || c == '\t' {
        skip_step(start + 1, line)
    } else if c == '\n' {
        skip_step(start + 1, line + 1)
    } else if c == '"' {
        let close = string_close(src, start + 1);
        if close == src.len() {
            // Unterminated: the error carries the line where scanning halted.
            let halt_line = (line + count_newlines(src, start + 1, src.len() as int)) as nat;
            ScanStep {
                next: src.len() as int,
                next_line: halt_line,
                token: None,
                error: Some(SpecError { line: halt_line, reason: unterminated_string_message() }),
            }
        } else {
            let token_line = (line + count_newlines(src, start + 1, close)) as nat;
            ScanStep {
                next: close + 1,
                next_line: token_line,
                token: Some(
                    SpecToken {
                        kind: TokenType::String,
                        lexeme: src.subrange(start, close + 1),
                        literal: SpecLiteral::Text(src.subrange(start + 1, close)),
                        line: token_line,
                    },
                ),
                error: None,
            }
        }
    } else if is_digit_char(c) {
        let whole_end = digits_end(src, start);
        let end = if whole_end < src.len() && src[whole_end] == '.' && whole_end + 1 < src.len()
            && is_digit_char(src[whole_end + 1]) {
            // The dot is consumed only on lookahead confirmation of a digit.
            digits_end(src, whole_end + 1)
        } else {
            whole_end
        };
        ScanStep {
            next: end,
            next_line: line,
            token: Some(
                SpecToken {
                    kind: TokenType::Number,
                    lexeme: src.subrange(start, end),
                    literal: SpecLiteral::Number(src.subrange(start, end)),
                    line,
                },
            ),
            error: None,
        }
    } else if alpha_char(c) {
        let end = ident_end(src, start + 1);
        token_step(src, start, end, line, keyword_type(src.subrange(start, end)))
    } else {
        ScanStep {
            next: start + 1,
            next_line: line,
            token: None,
            error: Some(SpecError { line, reason: unexpected_char_message() }),
        }
    }
}

/// The cursor always moves strictly forward and never past the end.
pub proof fn lemma_scan_step_bounds(src: Seq<char>, start: int, line: nat)
    requires
        0 <= start < src.len(),
    ensures
        start < scan_step(src, start, line).next <= src.len(),
{
    let c = src[start];
    if c == '/' && start + 1 < src.len() && src[start + 1] == '/' {
        lemma_line_end(src, start + 2);
    }
    if c == '"' {
        lemma_string_close(src, start + 1);
    }
    if alpha_char(c) {
        lemma_ident_end(src, start + 1);
    }
    if is_digit_char(c) {
        lemma_digits_end(src, start);
        let whole_end = digits_end(src, start);
        assert(digits_end(src, start) == digits_end(src, start + 1));
        lemma_digits_end(src, start + 1);
        if whole_end < src.len() && src[whole_end] == '.' && whole_end + 1 < src.len()
            && is_digit_char(src[whole_end + 1]) {
            lemma_digits_end(src, whole_end + 1);
            assert(digits_end(src, whole_end + 1) == digits_end(src, whole_end + 2));
            lemma_digits_end(src, whole_end + 2);
        }
    }
}

/// The scanner's whole output: the token sequence and the errors.
pub struct ScanOut {
    pub tokens: Seq<SpecToken>,
    pub errors: Seq<SpecError>,
}

/// The end-of-input marker: empty lexeme, no literal, the line being
/// scanned when input ran out.
pub open spec fn eof_token(line: nat) -> SpecToken {
    SpecToken { kind: TokenType::EOF, lexeme: Seq::empty(), literal: SpecLiteral::Absent, line }
}

/// The fold of scanning steps from position `i` on line `line` to the end
/// of the source, closed by the end-of-input marker.
pub open spec fn scan_from(src: Seq<char>, i: int, line: nat) -> ScanOut
    decreases src.len() - i,
    via scan_from_decreases
{
    if i < 0 || i >= src.len() {
        ScanOut { tokens: seq![eof_token(line)], errors: Seq::empty() }
    } else {
        let st = scan_step(src, i, line);
        let rest = scan_from(src, st.next, st.next_line);
        ScanOut {
            tokens: match st.token {
                Some(t) => seq![t] + rest.tokens,
                None => rest.tokens,
            },
            errors: match st.error {
                Some(e) => seq![e] + rest.errors,
                None => rest.errors,
            },
        }
    }
}

#[via_fn]
proof fn scan_from_decreases(src: Seq<char>, i: int, line: nat) {
    if 0 <= i < src.len() {
        lemma_scan_step_bounds(src, i, line);
    }
}

/// What scanning the whole source yields: tokens and errors, cursor
/// starting at the first character of line 1.
pub open spec fn spec_scan(src: Seq<char>) -> ScanOut {
    scan_from(src, 0, 1)
}

} // verus!
