//! Laws of the scanner, proved once and for all inputs: the terminal
//! marker always closes the token sequence, and a source made of valid
//! characters and terminated strings scans without errors.

use vstd::prelude::*;
use crate::token::TokenType;
use crate::token::SpecToken;
use crate::token::SpecLiteral;
use crate::token::keyword_type;
use crate::scan_spec::scan_step;
use crate::scan_spec::scan_from;
use crate::scan_spec::spec_scan;
use crate::scan_spec::string_close;
use crate::scan_spec::digits_end;
use crate::scan_spec::ident_end;
use crate::scan_spec::is_digit_char;
use crate::scan_spec::alpha_char;
use crate::scan_spec::alnum_char;
use crate::scan_spec::lemma_scan_step_bounds;
use crate::scan_spec::lemma_string_close;
use crate::scan_spec::lemma_digits_end;
use crate::scan_spec::lemma_ident_end;
use crate::scan_spec::lemma_string_close_is;
use crate::scan_spec::lemma_digits_end_is;
use crate::scan_spec::lemma_ident_end_is;

verus! {

/// The terminal marker closes every scan: the token sequence is never
/// empty, its last token is the end-of-input marker with an empty lexeme
/// and no literal, and no earlier token is such a marker.
pub proof fn lemma_scan_from_ends_with_eof(src: Seq<char>, i: int, line: nat)
    ensures
        scan_from(src, i, line).tokens.len() >= 1,
        scan_from(src, i, line).tokens.last().kind == TokenType::EOF,
        scan_from(src, i, line).tokens.last().lexeme == Seq::<char>::empty(),
        scan_from(src, i, line).tokens.last().literal == SpecLiteral::Absent,
        forall|k: int|
            0 <= k < scan_from(src, i, line).tokens.len() - 1 ==> (#[trigger] scan_from(
                src,
                i,
                line,
            ).tokens[k]).kind != TokenType::EOF,
    decreases src.len() - i,
{
    if i < 0 || i >= src.len() {
    } else {
        lemma_scan_step_bounds(src, i, line);
        let st = scan_step(src, i, line);
        lemma_scan_from_ends_with_eof(src, st.next, st.next_line);
        let rest = scan_from(src, st.next, st.next_line);
        match st.token {
            Some(t) => {
                assert(t.kind != TokenType::EOF);
                assert(scan_from(src, i, line).tokens =~= seq![t] + rest.tokens);
                assert(scan_from(src, i, line).tokens.last() == rest.tokens.last());
            },
            None => {},
        }
    }
}

/// The last token of every scan is the end-of-input marker with an empty
/// lexeme, no literal, and no marker stands before it.
pub proof fn lemma_scan_ends_with_eof(src: Seq<char>)
    ensures
        spec_scan(src).tokens.len() >= 1,
        spec_scan(src).tokens.last().kind == TokenType::EOF,
        spec_scan(src).tokens.last().lexeme == Seq::<char>::empty(),
        spec_scan(src).tokens.last().literal == SpecLiteral::Absent,
        forall|k: int|
            0 <= k < spec_scan(src).tokens.len() - 1 ==> (#[trigger] spec_scan(
                src,
            ).tokens[k]).kind != TokenType::EOF,
{
    lemma_scan_from_ends_with_eof(src, 0, 1);
}

/// A character on which some scanning step can begin work: punctuation,
/// an operator head, whitespace, a newline, a quote, a digit, or a letter.
pub open spec fn valid_char(c: char) -> bool {
    ||| c == '(' || c == ')' || c == '{' || c == '}' || c == ',' || c == '.'
    ||| c == '-' || c == '+' || c == ';' || c == '*' || c == '/'
    ||| c == '!' || c == '=' || c == '<' || c == '>'
    ||| c == ' ' || c == '\r' || c == '\t' || c == '\n'
    ||| c == '"'
    ||| is_digit_char(c)
    ||| alpha_char(c)
}

/// No character of the source is invalid.
pub open spec fn no_invalid_chars(src: Seq<char>) -> bool {
    forall|i: int| 0 <= i < src.len() ==> valid_char(#[trigger] src[i])
}

/// Where a scanning step moves the cursor: a function of the source and
/// position alone, whatever the line counter reads.
pub proof fn lemma_scan_step_line_independent(src: Seq<char>, i: int, line: nat)
    requires
        0 <= i < src.len(),
    ensures
        scan_step(src, i, line).next == scan_step(src, i, 1).next,
        scan_step(src, i, line).error is Some <==> scan_step(src, i, 1).error is Some,
{
}

/// Every string literal opened at or after position `i` finds its closing
/// quote: the one lexical fault that a valid character set cannot rule
/// out.
pub open spec fn strings_terminated(src: Seq<char>, i: int) -> bool
    decreases src.len() - i,
    via strings_terminated_decreases
{
    if i < 0 || i >= src.len() {
        true
    } else {
        &&& (src[i] == '"' ==> string_close(src, i + 1) < src.len())
        &&& strings_terminated(src, scan_step(src, i, 1).next)
    }
}

#[via_fn]
proof fn strings_terminated_decreases(src: Seq<char>, i: int) {
    if 0 <= i < src.len() {
        lemma_scan_step_bounds(src, i, 1);
    }
}

/// On a source whose characters are all valid and whose string literals
/// all close, scanning from any boundary collects no errors.
pub proof fn lemma_scan_from_no_errors(src: Seq<char>, i: int, line: nat)
    requires
        no_invalid_chars(src),
        strings_terminated(src, i),
    ensures
        scan_from(src, i, line).errors == Seq::<crate::error::SpecError>::empty(),
    decreases src.len() - i,
{
    if i < 0 || i >= src.len() {
        assert(scan_from(src, i, line).errors =~= Seq::<crate::error::SpecError>::empty());
    } else {
        lemma_scan_step_bounds(src, i, line);
        lemma_scan_step_line_independent(src, i, line);
        let st = scan_step(src, i, line);
        assert(valid_char(src[i]));
        assert(st.error is None);
        assert(strings_terminated(src, st.next));
        lemma_scan_from_no_errors(src, st.next, st.next_line);
        assert(scan_from(src, i, line).errors =~= Seq::<crate::error::SpecError>::empty());
    }
}

/// A source text of valid characters whose string literals all close
/// scans with zero lexical errors.
pub proof fn lemma_clean_source_scans_without_errors(src: Seq<char>)
    requires
        no_invalid_chars(src),
        strings_terminated(src, 0),
    ensures
        spec_scan(src).errors == Seq::<crate::error::SpecError>::empty(),
{
    lemma_scan_from_no_errors(src, 0, 1);
}

/// A token of exactly one character, carrying no literal.
pub open spec fn single_shape(t: SpecToken, c: char) -> bool {
    t.lexeme.len() == 1 && t.lexeme[0] == c && t.literal == SpecLiteral::Absent
}

/// A token of exactly two characters, carrying no literal.
pub open spec fn double_shape(t: SpecToken, a: char, b: char) -> bool {
    t.lexeme.len() == 2 && t.lexeme[0] == a && t.lexeme[1] == b && t.literal
        == SpecLiteral::Absent
}

/// A string token: quotes around a quote-free body, the body as its
/// literal value.
pub open spec fn string_shape(t: SpecToken) -> bool {
    &&& t.lexeme.len() >= 2
    &&& t.lexeme[0] == '"'
    &&& t.lexeme[t.lexeme.len() - 1] == '"'
    &&& forall|j: int| 1 <= j < t.lexeme.len() - 1 ==> #[trigger] t.lexeme[j] != '"'
    &&& t.literal == SpecLiteral::Text(t.lexeme.subrange(1, t.lexeme.len() - 1))
}

/// Number lexeme text: a digit run, or a digit run, one dot, and another
/// digit run.
pub open spec fn number_shape(lex: Seq<char>) -> bool {
    &&& lex.len() >= 1
    &&& is_digit_char(lex[0])
    &&& {
        ||| forall|j: int| 0 <= j < lex.len() ==> is_digit_char(#[trigger] lex[j])
        ||| exists|k: int|
            1 <= k <= lex.len() - 2 && #[trigger] lex[k] == '.' && (forall|j: int|
                0 <= j < lex.len() && j != k ==> is_digit_char(#[trigger] lex[j]))
    }
}

/// A character at which scanning decides without consulting the alphabetic
/// classification: everything checked before the identifier case.
pub open spec fn concrete_start(c: char) -> bool {
    ||| c == '(' || c == ')' || c == '{' || c == '}' || c == ',' || c == '.'
    ||| c == '-' || c == '+' || c == ';' || c == '*' || c == '/'
    ||| c == '!' || c == '=' || c == '<' || c == '>'
    ||| c == ' ' || c == '\r' || c == '\t' || c == '\n'
    ||| c == '"'
    ||| is_digit_char(c)
}

/// Identifier lexeme text: an alphabetic head that no earlier scanning
/// case claims, continued by alphanumeric characters only.
pub open spec fn ident_shape(lex: Seq<char>) -> bool {
    &&& lex.len() >= 1
    &&& alpha_char(lex[0])
    &&& !concrete_start(lex[0])
    &&& forall|j: int| 1 <= j < lex.len() ==> alnum_char(#[trigger] lex[j])
}

/// What every token a scan produces looks like, by kind: the invariant
/// that makes re-scanning a lexeme reproduce its token.
pub open spec fn token_shape(t: SpecToken) -> bool {
    match t.kind {
        TokenType::LeftParen => single_shape(t, '('),
        TokenType::RightParen => single_shape(t, ')'),
        TokenType::LeftBrace => single_shape(t, '{'),
        TokenType::RightBrace => single_shape(t, '}'),
        TokenType::Comma => single_shape(t, ','),
        TokenType::Dot => single_shape(t, '.'),
        TokenType::Minus => single_shape(t, '-'),
        TokenType::Plus => single_shape(t, '+'),
        TokenType::SemiColon => single_shape(t, ';'),
        TokenType::Star => single_shape(t, '*'),
        TokenType::Slash => single_shape(t, '/'),
        TokenType::Bang => single_shape(t, '!'),
        TokenType::BangEqual => double_shape(t, '!', '='),
        TokenType::Equal => single_shape(t, '='),
        TokenType::EqualEqual => double_shape(t, '=', '='),
        TokenType::Less => single_shape(t, '<'),
        TokenType::LessEqual => double_shape(t, '<', '='),
        TokenType::Greater => single_shape(t, '>'),
        TokenType::GreaterEqual => double_shape(t, '>', '='),
        TokenType::String => string_shape(t),
        TokenType::Number => number_shape(t.lexeme) && t.literal == SpecLiteral::Number(t.lexeme),
        TokenType::EOF => t.lexeme.len() == 0 && t.literal == SpecLiteral::Absent,
        _ => ident_shape(t.lexeme) && t.kind == keyword_type(t.lexeme) && t.literal
            == SpecLiteral::Absent,
    }
}

/// Every token of every scan is well-shaped for its kind.
pub proof fn lemma_scan_from_tokens_shaped(src: Seq<char>, i: int, line: nat)
    ensures
        forall|k: int|
            0 <= k < scan_from(src, i, line).tokens.len() ==> token_shape(
                #[trigger] scan_from(src, i, line).tokens[k],
            ),
    decreases src.len() - i,
{
    if i < 0 || i >= src.len() {
        assert(scan_from(src, i, line).tokens.len() == 1);
    } else {
        lemma_scan_step_bounds(src, i, line);
        let st = scan_step(src, i, line);
        lemma_scan_from_tokens_shaped(src, st.next, st.next_line);
        let rest = scan_from(src, st.next, st.next_line);
        match st.token {
            None => {},
            Some(t) => {
                let c = src[i];
                if c == '"' {
                    lemma_string_close(src, i + 1);
                    let close = string_close(src, i + 1);
                    assert(close < src.len());
                    assert(t.lexeme == src.subrange(i, close + 1));
                    assert(t.lexeme.subrange(1, t.lexeme.len() - 1) =~= src.subrange(
                        i + 1,
                        close,
                    ));
                    assert forall|j: int| 1 <= j < t.lexeme.len() - 1 implies #[trigger] t.lexeme[j]
                        != '"' by {
                        assert(t.lexeme[j] == src[i + j]);
                    }
                    assert(token_shape(t));
                } else if is_digit_char(c) {
                    lemma_digits_end(src, i);
                    assert(digits_end(src, i) == digits_end(src, i + 1));
                    lemma_digits_end(src, i + 1);
                    let whole = digits_end(src, i);
                    if whole < src.len() && src[whole] == '.' && whole + 1 < src.len()
                        && is_digit_char(src[whole + 1]) {
                        assert(digits_end(src, whole + 1) == digits_end(src, whole + 2));
                        lemma_digits_end(src, whole + 1);
                        lemma_digits_end(src, whole + 2);
                        let end = digits_end(src, whole + 1);
                        let k = whole - i;
                        assert(t.lexeme[k] == '.');
                        assert(1 <= k <= t.lexeme.len() - 2);
                        assert forall|j: int|
                            0 <= j < t.lexeme.len() && j != k implies is_digit_char(
                            #[trigger] t.lexeme[j],
                        ) by {
                            assert(t.lexeme[j] == src[i + j]);
                        }
                        assert(number_shape(t.lexeme));
                    } else {
                        assert forall|j: int| 0 <= j < t.lexeme.len() implies is_digit_char(
                            #[trigger] t.lexeme[j],
                        ) by {
                            assert(t.lexeme[j] == src[i + j]);
                        }
                        assert(number_shape(t.lexeme));
                    }
                    assert(token_shape(t));
                } else if !concrete_start(c) && alpha_char(c) {
                    lemma_ident_end(src, i + 1);
                    let iend = ident_end(src, i + 1);
                    assert(t.lexeme == src.subrange(i, iend));
                    assert(alpha_char(t.lexeme[0]) && !concrete_start(t.lexeme[0]));
                    assert forall|j: int| 1 <= j < t.lexeme.len() implies alnum_char(
                        #[trigger] t.lexeme[j],
                    ) by {
                        assert(t.lexeme[j] == src[i + j]);
                    }
                    assert(ident_shape(t.lexeme));
                    assert(token_shape(t));
                } else {
                    assert(token_shape(t));
                }
                assert forall|k: int|
                    0 <= k < scan_from(src, i, line).tokens.len() implies token_shape(
                    #[trigger] scan_from(src, i, line).tokens[k],
                ) by {
                    assert(scan_from(src, i, line).tokens == seq![t] + rest.tokens);
                    if k == 0 {
                        assert(scan_from(src, i, line).tokens[0] == t);
                    } else {
                        assert(scan_from(src, i, line).tokens[k] == rest.tokens[k - 1]);
                    }
                }
            },
        }
    }
}

/// Scanning a well-shaped lexeme alone reproduces its token: same kind,
/// same lexeme, same literal value, no errors, and nothing after it but
/// the end marker.
pub proof fn lemma_rescan_token(t: SpecToken)
    requires
        token_shape(t),
    ensures
        spec_scan(t.lexeme).errors == Seq::<crate::error::SpecError>::empty(),
        spec_scan(t.lexeme).tokens.len() == (if t.kind == TokenType::EOF {
            1int
        } else {
            2int
        }),
        spec_scan(t.lexeme).tokens[0].kind == t.kind,
        spec_scan(t.lexeme).tokens[0].literal == t.literal,
        spec_scan(t.lexeme).tokens[0].lexeme == t.lexeme,
{
    let lex = t.lexeme;
    if t.kind == TokenType::EOF {
        assert(spec_scan(lex).errors =~= Seq::<crate::error::SpecError>::empty());
        assert(spec_scan(lex).tokens[0].lexeme =~= lex);
    } else {
        let st = scan_step(lex, 0, 1);
        match t.kind {
            TokenType::String => {
                lemma_string_close_is(lex, 1, lex.len() - 1);
                assert(st.token matches Some(tok) && tok.lexeme =~= lex && tok.literal
                    == t.literal && tok.kind == t.kind) by {
                    assert(lex.subrange(0, lex.len() as int) =~= lex);
                    assert(lex.subrange(1, lex.len() - 1) == t.lexeme.subrange(
                        1,
                        t.lexeme.len() - 1,
                    ));
                };
            },
            TokenType::Number => {
                if forall|j: int| 0 <= j < lex.len() ==> is_digit_char(#[trigger] lex[j]) {
                    lemma_digits_end_is(lex, 0, lex.len() as int);
                    assert(st.token matches Some(tok) && tok.lexeme =~= lex && tok.literal
                        == t.literal && tok.kind == t.kind) by {
                        assert(lex.subrange(0, lex.len() as int) =~= lex);
                    };
                } else {
                    let k = choose|k: int|
                        1 <= k <= lex.len() - 2 && #[trigger] lex[k] == '.' && (forall|j: int|
                            0 <= j < lex.len() && j != k ==> is_digit_char(#[trigger] lex[j]));
                    assert(!is_digit_char('.'));
                    lemma_digits_end_is(lex, 0, k);
                    lemma_digits_end_is(lex, k + 1, lex.len() as int);
                    assert(st.token matches Some(tok) && tok.lexeme =~= lex && tok.literal
                        == t.literal && tok.kind == t.kind) by {
                        assert(lex.subrange(0, lex.len() as int) =~= lex);
                    };
                }
            },
            TokenType::LeftParen | TokenType::RightParen | TokenType::LeftBrace
                | TokenType::RightBrace | TokenType::Comma | TokenType::Dot | TokenType::Minus
                | TokenType::Plus | TokenType::SemiColon | TokenType::Star | TokenType::Slash
                | TokenType::Bang | TokenType::BangEqual | TokenType::Equal
                | TokenType::EqualEqual | TokenType::Less | TokenType::LessEqual
                | TokenType::Greater | TokenType::GreaterEqual => {
                assert(st.token matches Some(tok) && tok.lexeme =~= lex && tok.literal
                    == t.literal && tok.kind == t.kind) by {
                    assert(lex.subrange(0, lex.len() as int) =~= lex);
                };
            },
            _ => {
                lemma_ident_end_is(lex, 1, lex.len() as int);
                assert(st.token matches Some(tok) && tok.lexeme =~= lex && tok.literal
                    == t.literal && tok.kind == t.kind) by {
                    assert(lex.subrange(0, lex.len() as int) =~= lex);
                    assert(keyword_type(lex.subrange(0, lex.len() as int)) == keyword_type(lex));
                };
            },
        }
        assert(st.next == lex.len());
        assert(spec_scan(lex).tokens =~= seq![st.token->0] + scan_from(
            lex,
            st.next,
            st.next_line,
        ).tokens);
        assert(spec_scan(lex).errors =~= Seq::<crate::error::SpecError>::empty());
        assert(spec_scan(lex).tokens.len() == 2);
        assert(spec_scan(lex).tokens[0] == st.token->0);
    }
}

/// Round-trip idempotence: re-scanning the lexeme of any single token of
/// any scan, in isolation, reproduces a token of the same kind, the same
/// lexeme, and the same literal value, with no lexical error.
pub proof fn lemma_scan_round_trip(src: Seq<char>, k: int)
    requires
        0 <= k < spec_scan(src).tokens.len(),
    ensures
        ({
            let t = spec_scan(src).tokens[k];
            let again = spec_scan(t.lexeme);
            &&& again.errors == Seq::<crate::error::SpecError>::empty()
            &&& again.tokens.len() >= 1
            &&& again.tokens[0].kind == t.kind
            &&& again.tokens[0].lexeme == t.lexeme
            &&& again.tokens[0].literal == t.literal
        }),
{
    lemma_scan_from_tokens_shaped(src, 0, 1);
    lemma_rescan_token(spec_scan(src).tokens[k]);
}

} // verus!
