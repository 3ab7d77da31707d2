use kaleidoscope::Lexer;
use kaleidoscope::LexerError;
use kaleidoscope::StringInput;
use kaleidoscope::Token;
use kaleidoscope::Token::BinOp;
use kaleidoscope::Token::ClosingParenthesis;
use kaleidoscope::Token::Comma;
use kaleidoscope::Token::Def;
use kaleidoscope::Token::Delimiter;
use kaleidoscope::Token::EndOfInput;
use kaleidoscope::Token::Extern;
use kaleidoscope::Token::Identifier;
use kaleidoscope::Token::Number;
use kaleidoscope::Token::OpeningParenthesis;

fn read_all(input: &str) -> Vec<Result<Token, LexerError>> {
    let mut lexer = Lexer::new(StringInput::new(input));
    let mut out: Vec<Result<Token, LexerError>> = Vec::new();
    loop {
        match lexer.read() {
            Ok(EndOfInput) => break,
            other => out.push(other),
        }
    }
    out
}

fn tokens_of(input: &str) -> Vec<Token> {
    read_all(input).into_iter().map(|r| r.unwrap()).collect()
}

fn numbers_of(input: &str) -> Vec<f64> {
    tokens_of(input)
        .into_iter()
        .map(|t| match t {
            Number(text) => text.parse::<f64>().unwrap(),
            other => panic!("expected a number, got {:?}", other),
        })
        .collect()
}

#[test]
fn identifier() {
    assert_eq!(tokens_of("ident"), vec![Identifier("ident".to_string())]);
    assert_eq!(tokens_of("ident123"), vec![Identifier("ident123".to_string())]);
    assert_eq!(
        tokens_of("ident123 als"),
        vec![Identifier("ident123".to_string()), Identifier("als".to_string())]
    );
}

#[test]
fn keywords_and_symbols() {
    assert_eq!(
        tokens_of("def extern ; ( ) , + - *"),
        vec![
            Def,
            Extern,
            Delimiter,
            OpeningParenthesis,
            ClosingParenthesis,
            Comma,
            BinOp('+'),
            BinOp('-'),
            BinOp('*'),
        ]
    );
}

#[test]
fn numbers() {
    assert_eq!(
        numbers_of("123 12 .4 1234. 12345.6"),
        vec![123.0, 12.0, 0.4, 1234.0, 12345.6]
    );
    assert_eq!(
        tokens_of("123 12 .4 1234. 12345.6"),
        vec![
            Number("123".to_string()),
            Number("12".to_string()),
            Number(".4".to_string()),
            Number("1234.".to_string()),
            Number("12345.6".to_string()),
        ]
    );
}

#[test]
fn complete_program() {
    assert_eq!(
        tokens_of(
            "
                extern sin(a)
            def aFunction(a, b)
                a+4*b-3.2;
            "
        ),
        vec![
            Extern,
            Identifier("sin".to_string()),
            OpeningParenthesis,
            Identifier("a".to_string()),
            ClosingParenthesis,
            Def,
            Identifier("aFunction".to_string()),
            OpeningParenthesis,
            Identifier("a".to_string()),
            Comma,
            Identifier("b".to_string()),
            ClosingParenthesis,
            Identifier("a".to_string()),
            BinOp('+'),
            Number("4".to_string()),
            BinOp('*'),
            Identifier("b".to_string()),
            BinOp('-'),
            Number("3.2".to_string()),
            Delimiter,
        ]
    );
}

#[test]
fn malformed_numbers() {
    assert_eq!(
        read_all("1.4.2"),
        vec![Err(LexerError::MalformedNumber("1.4.2".to_string()))]
    );
    assert_eq!(
        read_all(".4.2"),
        vec![Err(LexerError::MalformedNumber(".4.2".to_string()))]
    );
}

#[test]
fn comments() {
    assert_eq!(
        read_all(
            "
            123 #12312321ojff
            def
            "
        ),
        vec![Ok(Number("123".to_string())), Ok(Def)]
    );
    assert_eq!(read_all("123 #12312321ojff"), vec![Ok(Number("123".to_string()))]);
}

#[test]
fn whitespace_and_comments_only_yield_nothing() {
    assert_eq!(read_all(""), vec![]);
    assert_eq!(read_all("   \t \r\n "), vec![]);
    assert_eq!(read_all("# only a comment"), vec![]);
    assert_eq!(read_all("  \n# one\n\t# two\n   "), vec![]);
}

#[test]
fn end_of_input_is_sticky() {
    let mut lexer = Lexer::new(StringInput::new("x"));
    assert_eq!(lexer.read(), Ok(Identifier("x".to_string())));
    assert_eq!(lexer.read(), Ok(EndOfInput));
    assert_eq!(lexer.read(), Ok(EndOfInput));
}

#[test]
fn unrecognized_character() {
    assert_eq!(
        read_all("a @ b"),
        vec![
            Ok(Identifier("a".to_string())),
            Err(LexerError::UnrecognizedCharacter('@')),
            Ok(Identifier("b".to_string())),
        ]
    );
}

#[test]
fn lone_dot_is_malformed() {
    assert_eq!(read_all("."), vec![Err(LexerError::MalformedNumber(".".to_string()))]);
}

#[test]
fn less_than_is_an_operator() {
    assert_eq!(
        tokens_of("a < b"),
        vec![Identifier("a".to_string()), BinOp('<'), Identifier("b".to_string())]
    );
}
