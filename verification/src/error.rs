//! Diagnostics: a non-fatal error is a 1-based line number together with a
//! human-readable reason.

use vstd::prelude::*;

verus! {

/// A scanning or parsing problem: the source line it refers to and the
/// reason, as text.
#[derive(Debug, PartialEq)]
pub struct LoxError {
    pub line_number: usize,
    pub reason: std::string::String,
}

/// Ghost image of a `LoxError`.
pub struct SpecError {
    pub line: nat,
    pub reason: Seq<char>,
}

impl View for LoxError {
    type V = SpecError;

    open spec fn view(&self) -> SpecError {
        SpecError { line: self.line_number as nat, reason: self.reason@ }
    }
}

impl DeepView for LoxError {
    type V = SpecError;

    open spec fn deep_view(&self) -> SpecError {
        self.view()
    }
}

/// Reason reported when the scanner meets a character that can begin no
/// token.
pub open spec fn unexpected_char_message() -> Seq<char> {
    "Unexpected character."@
}

/// Reason reported when the input ends inside a string literal.
pub open spec fn unterminated_string_message() -> Seq<char> {
    "Unterminated string."@
}

/// Reason reported when a parenthesized expression lacks its `)`.
pub open spec fn expect_right_paren_message() -> Seq<char> {
    "Expect ')' after expression."@
}

/// Reason reported when a token that can begin no expression reaches the
/// innermost grammar level.
pub open spec fn expect_expression_message() -> Seq<char> {
    "Expect expression."@
}

pub fn unexpected_char_reason() -> (s: std::string::String)
    ensures
        s@ == unexpected_char_message(),
{
    "Unexpected character.".to_owned()
}

pub fn unterminated_string_reason() -> (s: std::string::String)
    ensures
        s@ == unterminated_string_message(),
{
    "Unterminated string.".to_owned()
}

pub fn expect_right_paren_reason() -> (s: std::string::String)
    ensures
        s@ == expect_right_paren_message(),
{
    "Expect ')' after expression.".to_owned()
}

pub fn expect_expression_reason() -> (s: std::string::String)
    ensures
        s@ == expect_expression_message(),
{
    "Expect expression.".to_owned()
}

} // verus!
