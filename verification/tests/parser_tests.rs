use kaleidoscope::nodes::ASTNode;
use kaleidoscope::nodes::Expression;
use kaleidoscope::nodes::Expression::BinaryExpr;
use kaleidoscope::nodes::Expression::CallExpr;
use kaleidoscope::nodes::Expression::NumberExpr;
use kaleidoscope::nodes::Expression::VariableExpr;
use kaleidoscope::nodes::Function;
use kaleidoscope::nodes::Program;
use kaleidoscope::nodes::Prototype;
use kaleidoscope::parser::ParseError;
use kaleidoscope::parser::Parser;
use kaleidoscope::Lexer;
use kaleidoscope::StringInput;
use kaleidoscope::Token;

fn lex(input: &str) -> Vec<Token> {
    let mut lexer = Lexer::new(StringInput::new(input));
    let mut out: Vec<Token> = Vec::new();
    loop {
        let t = lexer.read().unwrap();
        let done = t == Token::EndOfInput;
        out.push(t);
        if done {
            break;
        }
    }
    out
}

fn parse(input: &str) -> Result<Program, ParseError> {
    Parser::new(lex(input)).parse()
}

fn var(name: &str) -> Expression {
    VariableExpr(name.to_string())
}

fn num(text: &str) -> Expression {
    NumberExpr(text.to_string())
}

fn bin(op: char, l: Expression, r: Expression) -> Expression {
    BinaryExpr(op, Box::new(l), Box::new(r))
}

#[test]
fn simple() {
    let program = "
         def fun1(a b)
         a+b*e-d
         ";
    let ast = parse(program);
    println!("{:?}", ast);
}

#[test]
fn extern_declaration() {
    let program = parse("extern sin(a)").unwrap();
    assert_eq!(
        program,
        vec![ASTNode::ExternNode(Prototype {
            name: "sin".to_string(),
            args: vec!["a".to_string()],
        })]
    );
}

#[test]
fn function_definition_and_precedence() {
    let program = parse("def aFunction(a, b) a+4*b-3.2;").unwrap();
    let expected_body = bin(
        '-',
        bin('+', var("a"), bin('*', num("4"), var("b"))),
        num("3.2"),
    );
    assert_eq!(
        program,
        vec![ASTNode::FunctionNode(Function {
            prototype: Prototype {
                name: "aFunction".to_string(),
                args: vec!["a".to_string(), "b".to_string()],
            },
            body: expected_body,
        })]
    );
}

#[test]
fn unterminated_call_fails() {
    let err = parse("foo(1,2").unwrap_err();
    match err {
        ParseError::UnexpectedEndOfInput(_) | ParseError::UnexpectedToken(_, _) => {}
        other => panic!("unexpected error: {:?}", other),
    }
}

#[test]
fn parsing_twice_is_deterministic() {
    let tokens = lex("def f(x) x+1; extern g() 2*3 ; h(4,5)");
    let first = Parser::new(tokens.clone()).parse();
    let second = Parser::new(tokens).parse();
    assert_eq!(first, second);
}

#[test]
fn empty_input_is_an_empty_program() {
    assert_eq!(parse("").unwrap(), vec![]);
    assert_eq!(parse("  # nothing but a comment\n").unwrap(), vec![]);
}

#[test]
fn bare_delimiters_are_skipped() {
    assert_eq!(parse(";;;").unwrap(), vec![]);
}

#[test]
fn anonymous_expressions_get_unique_names() {
    let program = parse("1; 2").unwrap();
    assert_eq!(
        program,
        vec![
            ASTNode::FunctionNode(Function {
                prototype: Prototype { name: "_anonymous_0".to_string(), args: vec![] },
                body: num("1"),
            }),
            ASTNode::FunctionNode(Function {
                prototype: Prototype { name: "_anonymous_1".to_string(), args: vec![] },
                body: num("2"),
            }),
        ]
    );
}

#[test]
fn left_associativity_at_equal_precedence() {
    let program = parse("a-b-c").unwrap();
    let expected = bin('-', bin('-', var("a"), var("b")), var("c"));
    match &program[0] {
        ASTNode::FunctionNode(f) => assert_eq!(f.body, expected),
        other => panic!("unexpected node: {:?}", other),
    }
}

#[test]
fn comparison_binds_loosest() {
    let program = parse("a<b+c").unwrap();
    let expected = bin('<', var("a"), bin('+', var("b"), var("c")));
    match &program[0] {
        ASTNode::FunctionNode(f) => assert_eq!(f.body, expected),
        other => panic!("unexpected node: {:?}", other),
    }
}

#[test]
fn parentheses_override_precedence() {
    let program = parse("(a+b)*c").unwrap();
    let expected = bin('*', bin('+', var("a"), var("b")), var("c"));
    match &program[0] {
        ASTNode::FunctionNode(f) => assert_eq!(f.body, expected),
        other => panic!("unexpected node: {:?}", other),
    }
}

#[test]
fn call_arguments_are_expressions() {
    let program = parse("foo(1+2, bar(x))").unwrap();
    let expected = CallExpr(
        "foo".to_string(),
        vec![
            bin('+', num("1"), num("2")),
            CallExpr("bar".to_string(), vec![var("x")]),
        ],
    );
    match &program[0] {
        ASTNode::FunctionNode(f) => assert_eq!(f.body, expected),
        other => panic!("unexpected node: {:?}", other),
    }
}

#[test]
fn nullary_call_distinguished_from_variable() {
    let program = parse("foo() foo").unwrap();
    match (&program[0], &program[1]) {
        (ASTNode::FunctionNode(f0), ASTNode::FunctionNode(f1)) => {
            assert_eq!(f0.body, CallExpr("foo".to_string(), vec![]));
            assert_eq!(f1.body, var("foo"));
        }
        other => panic!("unexpected nodes: {:?}", other),
    }
}

#[test]
fn unknown_operator_is_reported() {
    let tokens = vec![
        Token::Number("1".to_string()),
        Token::BinOp('%'),
        Token::Number("2".to_string()),
        Token::EndOfInput,
    ];
    let err = Parser::new(tokens).parse().unwrap_err();
    assert_eq!(err, ParseError::UnknownOperator('%'));
}

#[test]
fn missing_parenthesis_in_prototype() {
    let err = parse("def f x").unwrap_err();
    match err {
        ParseError::UnexpectedToken(Token::Identifier(x), _) => {
            assert_eq!(x, "x".to_string());
        }
        other => panic!("unexpected error: {:?}", other),
    }
}

#[test]
fn missing_primary_is_reported() {
    let err = parse("def f(a) ;").unwrap_err();
    match err {
        ParseError::UnexpectedToken(Token::Delimiter, _) => {}
        other => panic!("unexpected error: {:?}", other),
    }
}

#[test]
fn trailing_comma_is_tolerated_in_both_lists() {
    let with_trailing = parse("def f(a, b,) g(1, 2,)").unwrap();
    let without = parse("def f(a, b) g(1, 2)").unwrap();
    assert_eq!(with_trailing, without);
}

#[test]
fn unterminated_prototype_fails() {
    let err = parse("extern sin(a").unwrap_err();
    match err {
        ParseError::UnexpectedEndOfInput(_) => {}
        other => panic!("unexpected error: {:?}", other),
    }
}
