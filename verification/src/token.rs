//! The token model: lexical categories, literal values, and the token
//! itself, together with the ghost-level images the contracts speak of.

use vstd::prelude::*;

verus! {

/// The closed set of lexical categories the scanner can produce.
#[derive(Clone, Copy, Debug, PartialEq, Eq, Structural)]
pub enum TokenType {
    // One-character punctuation
    LeftParen,
    RightParen,
    LeftBrace,
    RightBrace,
    Comma,
    Dot,
    Minus,
    Plus,
    SemiColon,
    Slash,
    Star,
    // One- or two-character operators
    Bang,
    BangEqual,
    Equal,
    EqualEqual,
    Greater,
    GreaterEqual,
    Less,
    LessEqual,
    // Literal categories
    Identifier,
    String,
    Number,
    // Reserved keywords
    And,
    Class,
    Else,
    False,
    Fun,
    For,
    If,
    Nil,
    Or,
    Print,
    Return,
    Super,
    This,
    True,
    Var,
    While,
    // Terminal marker
    EOF,
}

/// The value attached to a token: present only for string and number
/// tokens, and for the literal leaves of the expression tree.
///
/// A number literal carries the exact decimal text it was scanned from;
/// turning that text into a machine floating-point value is left to the
/// (out-of-scope) evaluator, so that this core stays exact.
#[derive(Debug, PartialEq)]
pub enum Literal {
    Text(std::string::String),
    Number(std::string::String),
    Boolean(bool),
    Nil,
    Absent,
}

/// Ghost image of a `Literal`: the texts become character sequences.
pub enum SpecLiteral {
    Text(Seq<char>),
    Number(Seq<char>),
    Boolean(bool),
    Nil,
    Absent,
}

impl View for Literal {
    type V = SpecLiteral;

    open spec fn view(&self) -> SpecLiteral {
        match self {
            Literal::Text(s) => SpecLiteral::Text(s@),
            Literal::Number(s) => SpecLiteral::Number(s@),
            Literal::Boolean(b) => SpecLiteral::Boolean(*b),
            Literal::Nil => SpecLiteral::Nil,
            Literal::Absent => SpecLiteral::Absent,
        }
    }
}

impl DeepView for Literal {
    type V = SpecLiteral;

    open spec fn deep_view(&self) -> SpecLiteral {
        self.view()
    }
}

impl Literal {
    /// An explicit copy, so that contracts know the copy equals the
    /// original at the ghost level.
    pub fn duplicate(&self) -> (r: Literal)
        ensures
            r@ == self@,
    {
        match self {
            Literal::Text(s) => Literal::Text(s.clone()),
            Literal::Number(s) => Literal::Number(s.clone()),
            Literal::Boolean(b) => Literal::Boolean(*b),
            Literal::Nil => Literal::Nil,
            Literal::Absent => Literal::Absent,
        }
    }
}

/// One lexical unit: its category, the exact source substring it was
/// scanned from (empty for the end marker), its literal value (`Absent`
/// unless the category is `Number` or `String`), and the 1-based source
/// line on which it was recognized.
#[derive(Debug, PartialEq)]
pub struct Token {
    pub token_type: TokenType,
    pub lexeme: std::string::String,
    pub literal: Literal,
    pub line_number: usize,
}

/// Ghost image of a `Token`.
pub struct SpecToken {
    pub kind: TokenType,
    pub lexeme: Seq<char>,
    pub literal: SpecLiteral,
    pub line: nat,
}

impl View for Token {
    type V = SpecToken;

    open spec fn view(&self) -> SpecToken {
        SpecToken {
            kind: self.token_type,
            lexeme: self.lexeme@,
            literal: self.literal@,
            line: self.line_number as nat,
        }
    }
}

impl DeepView for Token {
    type V = SpecToken;

    open spec fn deep_view(&self) -> SpecToken {
        self.view()
    }
}

impl Token {
    /// An explicit copy, equal to the original at the ghost level.
    pub fn duplicate(&self) -> (r: Token)
        ensures
            r@ == self@,
    {
        Token {
            token_type: self.token_type,
            lexeme: self.lexeme.clone(),
            literal: self.literal.duplicate(),
            line_number: self.line_number,
        }
    }
}

/// The keyword table: fully-scanned identifier text is reclassified
/// against these fixed words; anything else stays an identifier.
pub open spec fn keyword_type(s: Seq<char>) -> TokenType {
    if s == "and"@ {
        TokenType::And
    } else if s == "class"@ {
        TokenType::Class
    } else if s == "else"@ {
        TokenType::Else
    } else if s == "false"@ {
        TokenType::False
    } else if s == "for"@ {
        TokenType::For
    } else if s == "fun"@ {
        TokenType::Fun
    } else if s == "if"@ {
        TokenType::If
    } else if s == "nil"@ {
        TokenType::Nil
    } else if s == "or"@ {
        TokenType::Or
    } else if s == "print"@ {
        TokenType::Print
    } else if s == "return"@ {
        TokenType::Return
    } else if s == "super"@ {
        TokenType::Super
    } else if s == "this"@ {
        TokenType::This
    } else if s == "true"@ {
        TokenType::True
    } else if s == "var"@ {
        TokenType::Var
    } else if s == "while"@ {
        TokenType::While
    } else {
        TokenType::Identifier
    }
}

/// Classifies fully-scanned identifier text against the keyword table.
pub fn classify_identifier(text: &std::string::String) -> (t: TokenType)
    ensures
        t == keyword_type(text@),
{
    if *text == String::from_str("and") {
        TokenType::And
    } else if *text == String::from_str("class") {
        TokenType::Class
    } else if *text == String::from_str("else") {
        TokenType::Else
    } else if *text == String::from_str("false") {
        TokenType::False
    } else if *text == String::from_str("for") {
        TokenType::For
    } else if *text == String::from_str("fun") {
        TokenType::Fun
    } else if *text == String::from_str("if") {
        TokenType::If
    } else if *text == String::from_str("nil") {
        TokenType::Nil
    } else if *text == String::from_str("or") {
        TokenType::Or
    } else if *text == String::from_str("print") {
        TokenType::Print
    } else if *text == String::from_str("return") {
        TokenType::Return
    } else if *text == String::from_str("super") {
        TokenType::Super
    } else if *text == String::from_str("this") {
        TokenType::This
    } else if *text == String::from_str("true") {
        TokenType::True
    } else if *text == String::from_str("var") {
        TokenType::Var
    } else if *text == String::from_str("while") {
        TokenType::While
    } else {
        TokenType::Identifier
    }
}

} // verus!
