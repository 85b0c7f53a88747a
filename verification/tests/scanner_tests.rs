use lox_frontend::lexer::Lexer;
use lox_frontend::token::Literal;
use lox_frontend::token::Token;
use lox_frontend::token::TokenType;
use lox_frontend::error::LoxError;

fn scan(source: &str) -> (Vec<Token>, Vec<LoxError>) {
    let mut lexer = Lexer::new(source.to_string());
    let tokens = lexer.scan_tokens();
    (tokens, lexer.errors)
}

fn kinds(tokens: &[Token]) -> Vec<TokenType> {
    tokens.iter().map(|t| t.token_type).collect()
}

#[test]
fn empty_input_yields_single_eof() {
    let (tokens, errors) = scan("");
    assert_eq!(tokens.len(), 1);
    assert_eq!(tokens[0].token_type, TokenType::EOF);
    assert_eq!(tokens[0].lexeme, "");
    assert_eq!(tokens[0].literal, Literal::Absent);
    assert_eq!(tokens[0].line_number, 1);
    assert!(errors.is_empty());
}

#[test]
fn every_scan_ends_with_eof_with_empty_lexeme() {
    for source in ["", "1 + 2", "\"open", "@@@", "var x = nil;", "//only a comment"] {
        let (tokens, _) = scan(source);
        let last = tokens.last().unwrap();
        assert_eq!(last.token_type, TokenType::EOF);
        assert_eq!(last.lexeme, "");
        assert_eq!(last.literal, Literal::Absent);
        for t in &tokens[..tokens.len() - 1] {
            assert_ne!(t.token_type, TokenType::EOF);
        }
    }
}

#[test]
fn maximal_munch_bang_equal() {
    let (tokens, errors) = scan("!=");
    assert!(errors.is_empty());
    assert_eq!(kinds(&tokens), vec![TokenType::BangEqual, TokenType::EOF]);
    assert_eq!(tokens[0].lexeme, "!=");
}

#[test]
fn single_equal_scans_as_one_token() {
    let (tokens, errors) = scan("=");
    assert!(errors.is_empty());
    assert_eq!(kinds(&tokens), vec![TokenType::Equal, TokenType::EOF]);
    assert_eq!(tokens[0].lexeme, "=");
}

#[test]
fn two_character_operators() {
    let (tokens, errors) = scan("<= >= == != < > = !");
    assert!(errors.is_empty());
    assert_eq!(
        kinds(&tokens),
        vec![
            TokenType::LessEqual,
            TokenType::GreaterEqual,
            TokenType::EqualEqual,
            TokenType::BangEqual,
            TokenType::Less,
            TokenType::Greater,
            TokenType::Equal,
            TokenType::Bang,
            TokenType::EOF,
        ]
    );
}

#[test]
fn line_tracking_over_newlines() {
    let (tokens, errors) = scan("1\n2\n3");
    assert!(errors.is_empty());
    assert_eq!(
        kinds(&tokens),
        vec![TokenType::Number, TokenType::Number, TokenType::Number, TokenType::EOF]
    );
    assert_eq!(tokens[0].line_number, 1);
    assert_eq!(tokens[1].line_number, 2);
    assert_eq!(tokens[2].line_number, 3);
}

#[test]
fn keyword_prefix_stays_one_identifier() {
    let (tokens, errors) = scan("classroom");
    assert!(errors.is_empty());
    assert_eq!(kinds(&tokens), vec![TokenType::Identifier, TokenType::EOF]);
    assert_eq!(tokens[0].lexeme, "classroom");
}

#[test]
fn keywords_are_reclassified() {
    let (tokens, errors) = scan(
        "and class else false fun for if nil or print return super this true var while",
    );
    assert!(errors.is_empty());
    assert_eq!(
        kinds(&tokens),
        vec![
            TokenType::And,
            TokenType::Class,
            TokenType::Else,
            TokenType::False,
            TokenType::Fun,
            TokenType::For,
            TokenType::If,
            TokenType::Nil,
            TokenType::Or,
            TokenType::Print,
            TokenType::Return,
            TokenType::Super,
            TokenType::This,
            TokenType::True,
            TokenType::Var,
            TokenType::While,
            TokenType::EOF,
        ]
    );
}

#[test]
fn unterminated_string_is_one_error_and_no_string_token() {
    let (tokens, errors) = scan("\"abc");
    assert_eq!(errors.len(), 1);
    assert_eq!(errors[0].reason, "Unterminated string.");
    assert_eq!(errors[0].line_number, 1);
    assert_eq!(kinds(&tokens), vec![TokenType::EOF]);
}

#[test]
fn unterminated_string_error_names_the_halting_line() {
    let (_, errors) = scan("\"ab\ncd");
    assert_eq!(errors.len(), 1);
    assert_eq!(errors[0].line_number, 2);
}

#[test]
fn string_literal_is_the_text_between_quotes() {
    let (tokens, errors) = scan("\"hi there\"");
    assert!(errors.is_empty());
    assert_eq!(tokens[0].token_type, TokenType::String);
    assert_eq!(tokens[0].lexeme, "\"hi there\"");
    assert_eq!(tokens[0].literal, Literal::Text("hi there".to_string()));
}

#[test]
fn string_with_embedded_newline_advances_the_line() {
    let (tokens, errors) = scan("\"a\nb\" 1");
    assert!(errors.is_empty());
    assert_eq!(tokens[0].token_type, TokenType::String);
    assert_eq!(tokens[0].line_number, 2);
    assert_eq!(tokens[1].token_type, TokenType::Number);
    assert_eq!(tokens[1].line_number, 2);
}

#[test]
fn number_with_fraction_scans_whole() {
    let (tokens, errors) = scan("3.14");
    assert!(errors.is_empty());
    assert_eq!(kinds(&tokens), vec![TokenType::Number, TokenType::EOF]);
    assert_eq!(tokens[0].lexeme, "3.14");
    assert_eq!(tokens[0].literal, Literal::Number("3.14".to_string()));
}

#[test]
fn trailing_dot_is_not_consumed() {
    let (tokens, errors) = scan("3.");
    assert!(errors.is_empty());
    assert_eq!(kinds(&tokens), vec![TokenType::Number, TokenType::Dot, TokenType::EOF]);
    assert_eq!(tokens[0].lexeme, "3");
}

#[test]
fn line_comment_produces_no_token() {
    let (tokens, errors) = scan("1 // ignore me\n2");
    assert!(errors.is_empty());
    assert_eq!(kinds(&tokens), vec![TokenType::Number, TokenType::Number, TokenType::EOF]);
    assert_eq!(tokens[1].line_number, 2);
}

#[test]
fn slash_alone_is_division() {
    let (tokens, errors) = scan("8 / 2");
    assert!(errors.is_empty());
    assert_eq!(kinds(&tokens), vec![TokenType::Number, TokenType::Slash, TokenType::Number, TokenType::EOF]);
}

#[test]
fn unexpected_character_is_reported_and_skipped() {
    let (tokens, errors) = scan("@");
    assert_eq!(errors.len(), 1);
    assert_eq!(errors[0].reason, "Unexpected character.");
    assert_eq!(errors[0].line_number, 1);
    assert_eq!(kinds(&tokens), vec![TokenType::EOF]);
}

#[test]
fn scanning_continues_after_a_bad_character() {
    let (tokens, errors) = scan("1 @ 2");
    assert_eq!(errors.len(), 1);
    assert_eq!(kinds(&tokens), vec![TokenType::Number, TokenType::Number, TokenType::EOF]);
}

#[test]
fn clean_source_has_no_errors_and_lexemes_reconstruct_it() {
    let (tokens, errors) = scan("var answer = 42; // the answer\nprint answer;");
    assert!(errors.is_empty());
    let joined: String = tokens.iter().map(|t| t.lexeme.as_str()).collect();
    assert_eq!(joined, "varanswer=42;printanswer;");
}

#[test]
fn punctuation_maps_directly() {
    let (tokens, errors) = scan("(){},.-+;*");
    assert!(errors.is_empty());
    assert_eq!(
        kinds(&tokens),
        vec![
            TokenType::LeftParen,
            TokenType::RightParen,
            TokenType::LeftBrace,
            TokenType::RightBrace,
            TokenType::Comma,
            TokenType::Dot,
            TokenType::Minus,
            TokenType::Plus,
            TokenType::SemiColon,
            TokenType::Star,
            TokenType::EOF,
        ]
    );
}

#[test]
fn rescanning_a_lexeme_reproduces_kind_and_literal() {
    let (tokens, errors) = scan("classroom class 3.14 \"a b\" != ( while");
    assert!(errors.is_empty());
    for t in &tokens[..tokens.len() - 1] {
        let (again, again_errors) = scan(&t.lexeme);
        assert!(again_errors.is_empty());
        assert_eq!(again[0].token_type, t.token_type);
        assert_eq!(again[0].lexeme, t.lexeme);
        assert_eq!(again[0].literal, t.literal);
    }
}
