use minilang::lexer::tokenize;
use minilang::{Error, Token};

#[test]
fn string_lexer() {
    let input = "\"hello world\"";
    let tokens = tokenize(input).unwrap();
    assert_eq!(
        tokens,
        vec![(0, Token::StringValue("hello world"), input.len())]
    );
}

#[test]
fn dec_literal_lexer() {
    let input = "123";
    let tokens = tokenize(input).unwrap();
    assert_eq!(tokens, vec![(0, Token::DecLiteral(123), input.len())]);
}

#[test]
fn comments_lexer() {
    let input = "// some text 123";
    let tokens = tokenize(input).unwrap();
    assert_eq!(tokens, vec![]);
}

#[test]
fn ident_lexer() {
    let input = "super_duper_variable1";
    let tokens = tokenize(input).unwrap();
    assert_eq!(tokens, vec![(0, Token::Ident(input), input.len())]);
}

#[test]
fn brackets_lexer() {
    let input = "({})";
    let tokens: Vec<Token> = tokenize(input).unwrap().into_iter().map(|t| t.1).collect();
    assert_eq!(
        tokens,
        vec![Token::LParen, Token::LBrace, Token::RBrace, Token::RParen,]
    );
}

#[test]
fn symbol_lexer() {
    let input = "!  !=  : , = == / > >= < <= - + ; % && ||";
    let tokens: Vec<Token> = tokenize(input).unwrap().into_iter().map(|t| t.1).collect();
    assert_eq!(
        tokens,
        vec![
            Token::Bang,
            Token::BangEqual,
            Token::Colon,
            Token::Comma,
            Token::Equal,
            Token::EqualEqual,
            Token::ForwardSlash,
            Token::Greater,
            Token::GreaterEqual,
            Token::Less,
            Token::LessEqual,
            Token::Minus,
            Token::Plus,
            Token::Semi,
            Token::Percent,
            Token::AmpAmp,
            Token::PipePipe,
        ]
    );
}

#[test]
fn complex_lexer() {
    let input = "function(5/3 + 2, variable); //";
    let tokens: Vec<Token> = tokenize(input).unwrap().into_iter().map(|t| t.1).collect();
    assert_eq!(
        tokens,
        vec![
            Token::Ident("function"),
            Token::LParen,
            Token::DecLiteral(5),
            Token::ForwardSlash,
            Token::DecLiteral(3),
            Token::Plus,
            Token::DecLiteral(2),
            Token::Comma,
            Token::Ident("variable"),
            Token::RParen,
            Token::Semi,
        ]
    );
}

#[test]
fn comment_then_literal_lexes_one_token() {
    let tokens = tokenize("// comment\n123").unwrap();
    assert_eq!(tokens.len(), 1);
    assert_eq!(tokens[0].1, Token::DecLiteral(123));
}

#[test]
fn keywords_lex_as_keywords() {
    let tokens: Vec<Token> = tokenize("if else fn i32 bool String true false ifx")
        .unwrap()
        .into_iter()
        .map(|t| t.1)
        .collect();
    assert_eq!(
        tokens,
        vec![
            Token::If,
            Token::Else,
            Token::Function,
            Token::I32,
            Token::Boolean,
            Token::String,
            Token::True,
            Token::False,
            Token::Ident("ifx"),
        ]
    );
}

#[test]
fn unexpected_character_is_an_error() {
    let err = tokenize("abc $ def").unwrap_err();
    assert_eq!(err, Error { location: 4, char: Some('$') });
}

#[test]
fn unknown_symbol_run_is_an_error() {
    let err = tokenize("a === b").unwrap_err();
    assert_eq!(err, Error { location: 2, char: Some('=') });
}

#[test]
fn dot_is_an_error() {
    let err = tokenize("1.5").unwrap_err();
    assert_eq!(err, Error { location: 1, char: Some('.') });
}

#[test]
fn oversized_literal_is_an_error() {
    assert_eq!(
        tokenize("2147483647").unwrap(),
        vec![(0, Token::DecLiteral(2147483647), 10)]
    );
    let err = tokenize("2147483648").unwrap_err();
    assert_eq!(err, Error { location: 0, char: Some('2') });
}

#[test]
fn unterminated_string_extends_to_the_end() {
    let input = "\"abc";
    let tokens = tokenize(input).unwrap();
    // The span's end lies one past the input: the missing quote's place.
    assert_eq!(tokens, vec![(0, Token::StringValue("abc"), 5)]);
}

#[test]
fn spans_are_character_offsets() {
    let tokens = tokenize("ab + c").unwrap();
    assert_eq!(
        tokens,
        vec![
            (0, Token::Ident("ab"), 2),
            (3, Token::Plus, 4),
            (5, Token::Ident("c"), 6),
        ]
    );
}
