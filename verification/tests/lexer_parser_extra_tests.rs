use monkey::lexer::token::{lookup_ident, Token};
use monkey::lexer::Lexer;
use monkey::parser::ast::{Expression, Program, Statement};
use monkey::parser::{Parser, Precedence};

fn tokens(input: &str) -> Vec<Token> {
    let mut lexer = Lexer::new(input.to_string());
    let mut out = vec![];
    loop {
        let token = lexer.next_token();
        let done = token == Token::Eof;
        out.push(token);
        if done {
            return out;
        }
    }
}

fn parse(input: &str) -> (Program, Vec<String>) {
    let lexer = Lexer::new(input.to_string());
    let mut parser = Parser::new(lexer);
    let program = parser.parse_program();
    (program, parser.errors)
}

fn printed(input: &str) -> String {
    let (program, errors) = parse(input);
    assert_eq!(errors, Vec::<String>::new(), "{}", input);
    program.to_string()
}

#[test]
fn keywords_and_identifiers() {
    assert_eq!(lookup_ident("fn"), Token::Function);
    assert_eq!(lookup_ident("let"), Token::Let);
    assert_eq!(lookup_ident("true"), Token::True);
    assert_eq!(lookup_ident("false"), Token::False);
    assert_eq!(lookup_ident("if"), Token::If);
    assert_eq!(lookup_ident("else"), Token::Else);
    assert_eq!(lookup_ident("return"), Token::Return);
    assert_eq!(lookup_ident("lets"), Token::Ident("lets".to_string()));
    assert_eq!(lookup_ident("Fn"), Token::Ident("Fn".to_string()));
}

#[test]
fn identifiers_hold_no_digits() {
    assert_eq!(
        tokens("a1 _b"),
        vec![
            Token::Ident("a".to_string()),
            Token::Int("1".to_string()),
            Token::Ident("_b".to_string()),
            Token::Eof
        ]
    );
}

#[test]
fn brackets_colon_and_two_character_operators() {
    assert_eq!(
        tokens("[1:2] != == = ! {}"),
        vec![
            Token::LBracket,
            Token::Int("1".to_string()),
            Token::Colon,
            Token::Int("2".to_string()),
            Token::RBracket,
            Token::NotEq,
            Token::Eq,
            Token::Assign,
            Token::Bang,
            Token::LBrace,
            Token::RBrace,
            Token::Eof
        ]
    );
    assert_eq!(tokens("=="), vec![Token::Eq, Token::Eof]);
    assert_eq!(tokens("="), vec![Token::Assign, Token::Eof]);
    assert_eq!(tokens("!"), vec![Token::Bang, Token::Eof]);
}

#[test]
fn string_escapes() {
    assert_eq!(
        tokens(r#""a\"b\\c\nd\te\qf""#),
        vec![Token::String("a\"b\\c\nd\te\\qf".to_string()), Token::Eof]
    );
    assert_eq!(tokens(r#""""#), vec![Token::String(String::new()), Token::Eof]);
    assert_eq!(
        tokens("\"héllo\" x"),
        vec![
            Token::String("héllo".to_string()),
            Token::Ident("x".to_string()),
            Token::Eof
        ]
    );
}

#[test]
fn unterminated_string_is_illegal() {
    assert_eq!(tokens("\"abc"), vec![Token::Illegal, Token::Eof]);
    assert_eq!(tokens("\"abc\\"), vec![Token::Illegal, Token::Eof]);
    assert_eq!(tokens("1 \""), vec![Token::Int("1".to_string()), Token::Illegal, Token::Eof]);
}

#[test]
fn other_characters_are_illegal() {
    assert_eq!(
        tokens("a ? b"),
        vec![
            Token::Ident("a".to_string()),
            Token::Illegal,
            Token::Ident("b".to_string()),
            Token::Eof
        ]
    );
    assert_eq!(tokens("é"), vec![Token::Illegal, Token::Eof]);
}

#[test]
fn eof_comes_again_and_again() {
    let mut lexer = Lexer::new("x".to_string());
    assert_eq!(lexer.next_token(), Token::Ident("x".to_string()));
    for _ in 0..5 {
        assert_eq!(lexer.next_token(), Token::Eof);
    }
    let mut lexer = Lexer::new("  \t\r\n ".to_string());
    assert_eq!(lexer.next_token(), Token::Eof);
    assert_eq!(lexer.next_token(), Token::Eof);
}

#[test]
fn tokenize_ends_with_the_first_eof() {
    let mut lexer = Lexer::new("let x = 5;".to_string());
    assert_eq!(
        lexer.tokenize(),
        vec![
            Token::Let,
            Token::Ident("x".to_string()),
            Token::Assign,
            Token::Int("5".to_string()),
            Token::Semicolon,
            Token::Eof
        ]
    );
    assert_eq!(lexer.tokenize(), vec![Token::Eof]);
}

#[test]
fn token_texts() {
    assert_eq!(Token::Illegal.to_string(), "ILLEGAL");
    assert_eq!(Token::Eof.to_string(), "EOF");
    assert_eq!(Token::Colon.to_string(), ":");
    assert_eq!(Token::LBracket.to_string(), "[");
    assert_eq!(Token::RBracket.to_string(), "]");
    assert_eq!(Token::Function.to_string(), "fn");
    assert_eq!(Token::Return.to_string(), "return");
    assert_eq!(Token::String("a b".to_string()).to_string(), "a b");
    assert!(Token::Plus.same(&Token::Plus));
    assert!(!Token::Plus.same(&Token::Minus));
    assert!(Token::Ident("a".to_string()).same(&Token::Ident("a".to_string())));
    assert!(!Token::Ident("a".to_string()).same(&Token::Ident("b".to_string())));
    assert!(!Token::Ident("a".to_string()).same(&Token::String("a".to_string())));
    assert_eq!(Token::Plus.clone(), Token::Plus);
}

#[test]
fn precedence_ladder() {
    let ladder = vec![
        Precedence::Lowest,
        Precedence::Slice,
        Precedence::Equals,
        Precedence::LessGreater,
        Precedence::Sum,
        Precedence::Product,
        Precedence::Prefix,
        Precedence::Call,
        Precedence::Index,
    ];
    for (i, precedence) in ladder.iter().enumerate() {
        assert_eq!(precedence.order() as usize, i);
    }
    assert_eq!(Precedence::from(&Token::LBracket), Precedence::Index);
    assert_eq!(Precedence::from(&Token::LParen), Precedence::Call);
    assert_eq!(Precedence::from(&Token::Colon), Precedence::Lowest);
    assert_eq!(Precedence::from(&Token::Asterisk), Precedence::Product);
    assert_eq!(Precedence::from(&Token::Minus), Precedence::Sum);
    assert_eq!(Precedence::from(&Token::Gt), Precedence::LessGreater);
    assert_eq!(Precedence::from(&Token::NotEq), Precedence::Equals);
    assert_eq!(Precedence::from(&Token::Semicolon), Precedence::Lowest);
}

#[test]
fn index_and_call_bind_tightest() {
    assert_eq!(printed("a * [1, 2, 3, 4][b * c] * d"), "((a * ([1, 2, 3, 4][(b * c)])) * d)");
    assert_eq!(
        printed("add(a * b[2], b[1], 2 * [1, 2][1])"),
        "add((a * (b[2])), (b[1]), (2 * ([1, 2][1])))"
    );
    assert_eq!(printed("a + add(b * c) + d"), "((a + add((b * c))) + d)");
    assert_eq!(printed("-a[0]"), "(-(a[0]))");
    assert_eq!(printed("!f(x)"), "(!f(x))");
}

#[test]
fn slices_in_all_four_forms() {
    assert_eq!(printed("a[1:2]"), "(a[1:2])");
    assert_eq!(printed("a[1:]"), "(a[1:])");
    assert_eq!(printed("a[:2]"), "(a[:2])");
    assert_eq!(printed("a[:]"), "(a[:])");
    assert_eq!(printed("a[1 + 1:b * 2]"), "(a[(1 + 1):(b * 2)])");
    assert_eq!(printed("a[1:2][0]"), "((a[1:2])[0])");
    let (program, _) = parse("a[:]");
    assert_eq!(
        program.statements,
        vec![Statement::Expression(Expression::SliceIndex(
            Box::new(Expression::Identifier("a".to_string())),
            None,
            None
        ))]
    );
}

#[test]
fn hash_literals_keep_the_order_of_their_pairs() {
    let (program, errors) = parse("{\"b\": 1, \"a\": 2 + 3, 4: true,}");
    assert!(errors.is_empty());
    assert_eq!(
        program.statements,
        vec![Statement::Expression(Expression::Hash(vec![
            (Expression::String("b".to_string()), Expression::Integer(1)),
            (
                Expression::String("a".to_string()),
                Expression::Infix(
                    Token::Plus,
                    Box::new(Expression::Integer(2)),
                    Box::new(Expression::Integer(3))
                )
            ),
            (Expression::Integer(4), Expression::Boolean(true)),
        ]))]
    );
    assert_eq!(program.to_string(), "b: 1, a: (2 + 3), 4: true");
    assert_eq!(printed("{}"), "");
}

#[test]
fn let_gives_a_function_literal_its_name() {
    let (program, errors) = parse("let f = fn(x) { x }; let g = 5; fn(y) { y }");
    assert!(errors.is_empty());
    assert!(matches!(
        &program.statements[0],
        Statement::Let(name, Expression::Function(_, _, Some(own))) if name == "f" && own == "f"
    ));
    assert!(matches!(
        &program.statements[1],
        Statement::Let(name, Expression::Integer(5)) if name == "g"
    ));
    assert!(matches!(
        &program.statements[2],
        Statement::Expression(Expression::Function(_, _, None))
    ));
    assert_eq!(program.to_string(), "let f = fn f(x) {x};let g = 5;fn(y) {y}");
}

#[test]
fn semicolons_may_be_missing() {
    assert_eq!(printed("let a = 1 let b = 2"), "let a = 1;let b = 2;");
    assert_eq!(printed("return 1"), "return 1;");
    assert_eq!(printed("1 2"), "12");
    assert_eq!(printed(""), "");
    assert_eq!(parse(";").1, vec!["No prefix parse function for ; found".to_string()]);
}

#[test]
fn integer_literals_up_to_the_largest() {
    let (program, errors) = parse("9223372036854775807; 0009; 0");
    assert!(errors.is_empty());
    assert_eq!(
        program.statements,
        vec![
            Statement::Expression(Expression::Integer(i64::MAX)),
            Statement::Expression(Expression::Integer(9)),
            Statement::Expression(Expression::Integer(0)),
        ]
    );
    let (program, errors) = parse("9223372036854775808");
    assert_eq!(program.statements, vec![]);
    assert_eq!(errors, vec!["number too large to fit in target type".to_string()]);
    let (_, errors) = parse("100000000000000000000000000");
    assert_eq!(errors, vec!["number too large to fit in target type".to_string()]);
}

#[test]
fn diagnostics_name_what_was_expected() {
    assert_eq!(
        parse("let = 5;").1,
        vec![
            "Expected next token to be IDENT, got Assign instead".to_string(),
            "No prefix parse function for = found".to_string(),
        ]
    );
    assert_eq!(
        parse("let x 5;").1,
        vec!["Expected next token to be =, got Int(\"5\") instead".to_string()]
    );
    assert_eq!(
        parse("(1 + 2").1,
        vec!["Expected next token to be ), got Eof instead".to_string()]
    );
    assert_eq!(
        parse("[1 2]").1[0],
        "Expected next token to be , or ] got Int(\"2\") instead".to_string()
    );
    assert_eq!(
        parse("f(1 2)").1[0],
        "Expected next token to be , or ) got Int(\"2\") instead".to_string()
    );
    assert_eq!(
        parse("{1 2}").1[0],
        "Expected next token to be :, got Int(\"2\") instead".to_string()
    );
    assert_eq!(
        parse("{1: 2 3}").1[0],
        "Expected next token to be , or } got Int(\"3\") instead".to_string()
    );
    assert_eq!(
        parse("if x { 1 }").1[0],
        "Expected next token to be (, got Ident(\"x\") instead".to_string()
    );
    assert_eq!(
        parse("if (x) 1").1[0],
        "Expected next token to be {, got Int(\"1\") instead".to_string()
    );
    assert_eq!(
        parse("if (x 1").1[0],
        "Expected next token to be ), got Int(\"1\") instead".to_string()
    );
    assert_eq!(
        parse("if (x) { 1 } else 2").1[0],
        "Expected next token to be {, got Int(\"2\") instead".to_string()
    );
    assert_eq!(
        parse("fn x").1[0],
        "Expected next token to be (, got Ident(\"x\") instead".to_string()
    );
    assert_eq!(
        parse("fn (1) {}").1[0],
        "Expected next token to be IDENT, got Int(\"1\") instead".to_string()
    );
    assert_eq!(
        parse("fn (a b) {}").1[0],
        "Expected next token to be , or ) got Ident(\"b\") instead".to_string()
    );
    assert_eq!(
        parse("fn (a) 1").1[0],
        "Expected next token to be {, got Int(\"1\") instead".to_string()
    );
    assert_eq!(
        parse("a[1").1[0],
        "Expected next token to be ], got Eof instead".to_string()
    );
    assert_eq!(
        parse("a[1:2").1[0],
        "Expected next token to be ], got Eof instead".to_string()
    );
    assert_eq!(parse("+").1, vec!["No prefix parse function for + found".to_string()]);
    assert_eq!(parse("1 +").1, vec!["No prefix parse function for EOF found".to_string()]);
    assert_eq!(parse("\"abc").1, vec!["No prefix parse function for ILLEGAL found".to_string()]);
}

#[test]
fn a_comma_before_the_closing_parenthesis_of_parameters_is_an_error() {
    let (_, errors) = parse("fn(a,) { a }");
    assert_eq!(
        errors[0],
        "Expected next token to be IDENT, got RParen instead".to_string()
    );
    assert!(parse("fn(a, b) { a }").1.is_empty());
    assert!(parse("fn() { 1 }").1.is_empty());
}

#[test]
fn a_block_that_the_input_ends_in_is_an_error() {
    for input in ["if (x) {", "if (x) { 1", "fn() { 1; 2", "if (x) { 1 } else {", "fn(a) {"] {
        let (program, errors) = parse(input);
        assert_eq!(program.statements, vec![], "{}", input);
        assert_eq!(
            errors.last().unwrap(),
            "Expected next token to be }, got Eof instead",
            "{}",
            input
        );
    }
}

#[test]
fn parsing_goes_on_behind_a_statement_that_failed() {
    let (program, errors) = parse("let x 5; let y = 10; @; y");
    assert_eq!(
        errors,
        vec![
            "Expected next token to be =, got Int(\"5\") instead".to_string(),
            "No prefix parse function for ILLEGAL found".to_string(),
            "No prefix parse function for ; found".to_string(),
        ]
    );
    assert_eq!(program.to_string(), "5let y = 10;y");
}

#[test]
fn a_failed_statement_in_a_block_leaves_its_diagnostic() {
    let (program, errors) = parse("fn() { let 1; 2 }");
    assert_eq!(
        errors,
        vec!["Expected next token to be IDENT, got Int(\"1\") instead".to_string()]
    );
    assert_eq!(program.to_string(), "fn() {12}");
}

#[test]
fn printing_a_parsed_program_and_parsing_it_again() {
    for input in [
        "let x = 1 + 2 * 3;",
        "if (a < b) { a } else { b }",
        "[1, 2, 3][1:2]",
        "f(1, g(2), [3])",
        "return !-a;",
        "a[1][2:]",
    ] {
        let once = printed(input);
        let twice = printed(&once);
        let thrice = printed(&twice);
        assert_eq!(twice, thrice, "{}", input);
    }
}

#[test]
fn statements_print_as_they_are_written() {
    let program = Program {
        statements: vec![
            Statement::Return(Expression::Integer(-5)),
            Statement::Expression(Expression::Prefix(
                Token::Bang,
                Box::new(Expression::Boolean(false)),
            )),
            Statement::Block(vec![
                Statement::Expression(Expression::String("a".to_string())),
                Statement::Expression(Expression::Array(vec![])),
            ]),
            Statement::Expression(Expression::If(
                Box::new(Expression::Identifier("c".to_string())),
                Box::new(Statement::Block(vec![])),
                Some(Box::new(Statement::Block(vec![Statement::Expression(
                    Expression::Integer(1),
                )]))),
            )),
            Statement::Expression(Expression::Function(
                vec!["a".to_string(), "b".to_string()],
                Box::new(Statement::Block(vec![])),
                None,
            )),
        ],
    };
    assert_eq!(
        program.to_string(),
        "return -5;(!false)a[]if (c) {} else {1}fn(a, b) {}"
    );
    assert_eq!(program.clone(), program);
}

#[test]
fn calls_indices_and_slices_are_parsed_back_from_their_printed_form() {
    let name = |text: &str| Expression::Identifier(text.to_string());
    let trees = vec![
        Expression::Array(vec![]),
        Expression::Array(vec![Expression::Integer(1), name("a"), Expression::Boolean(true)]),
        Expression::Call(Box::new(name("f")), vec![]),
        Expression::Call(
            Box::new(Expression::Call(Box::new(name("f")), vec![Expression::Integer(1)])),
            vec![name("x"), Expression::Array(vec![name("y")])],
        ),
        Expression::Call(
            Box::new(Expression::Infix(
                Token::Plus,
                Box::new(name("a")),
                Box::new(name("b")),
            )),
            vec![Expression::Integer(2)],
        ),
        Expression::Prefix(
            Token::Minus,
            Box::new(Expression::Call(Box::new(name("f")), vec![name("x")])),
        ),
        Expression::Index(
            Box::new(Expression::Array(vec![Expression::Integer(1), Expression::Integer(2)])),
            Box::new(Expression::Infix(
                Token::Asterisk,
                Box::new(name("i")),
                Box::new(Expression::Integer(2)),
            )),
        ),
        Expression::SliceIndex(Box::new(name("a")), None, None),
        Expression::SliceIndex(Box::new(name("a")), Some(Box::new(Expression::Integer(1))), None),
        Expression::SliceIndex(Box::new(name("a")), None, Some(Box::new(name("n")))),
        Expression::SliceIndex(
            Box::new(Expression::Index(Box::new(name("a")), Box::new(Expression::Integer(0)))),
            Some(Box::new(Expression::Call(Box::new(name("f")), vec![]))),
            Some(Box::new(Expression::Prefix(Token::Bang, Box::new(name("b"))))),
        ),
    ];
    for tree in trees {
        let text = tree.to_string();
        let (program, errors) = parse(&text);
        assert_eq!(errors, Vec::<String>::new(), "{}", text);
        assert_eq!(program.to_string(), text);
        assert_eq!(program.statements, vec![Statement::Expression(tree)]);
    }
}

#[test]
fn statements_conditionals_and_functions_are_parsed_back_from_their_printed_form() {
    let name = |text: &str| Expression::Identifier(text.to_string());
    let block = |statements: Vec<Statement>| Box::new(Statement::Block(statements));
    let smaller = Expression::Infix(Token::Lt, Box::new(name("a")), Box::new(name("b")));
    let programs = vec![
        vec![],
        vec![Statement::Let("x".to_string(), Expression::Integer(5))],
        vec![
            Statement::Let("x".to_string(), Expression::Integer(5)),
            Statement::Return(name("x")),
            Statement::Let("y".to_string(), Expression::Array(vec![name("x")])),
            Statement::Expression(Expression::Call(Box::new(name("f")), vec![name("y")])),
        ],
        vec![Statement::Expression(Expression::If(
            Box::new(smaller),
            block(vec![Statement::Expression(name("a"))]),
            None,
        ))],
        vec![Statement::Return(Expression::If(
            Box::new(Expression::Boolean(true)),
            block(vec![]),
            Some(block(vec![
                Statement::Let("z".to_string(), Expression::Integer(1)),
                Statement::Return(name("z")),
            ])),
        ))],
        vec![Statement::Expression(Expression::Function(
            vec![],
            block(vec![]),
            None,
        ))],
        vec![Statement::Expression(Expression::Call(
            Box::new(Expression::Function(
                vec!["a".to_string(), "b".to_string()],
                block(vec![
                    Statement::Let("c".to_string(), name("a")),
                    Statement::Expression(Expression::Infix(
                        Token::Plus,
                        Box::new(name("c")),
                        Box::new(Expression::If(
                            Box::new(name("b")),
                            block(vec![Statement::Expression(Expression::Integer(1))]),
                            Some(block(vec![Statement::Expression(Expression::Integer(2))])),
                        )),
                    )),
                ]),
                None,
            )),
            vec![Expression::Integer(1), Expression::Boolean(false)],
        ))],
    ];
    for statements in programs {
        let text = Program { statements: copy(&statements) }.to_string();
        let (program, errors) = parse(&text);
        assert_eq!(errors, Vec::<String>::new(), "{}", text);
        assert_eq!(program.to_string(), text);
        assert_eq!(program.statements, statements);
    }
}

fn copy(statements: &Vec<Statement>) -> Vec<Statement> {
    statements.iter().map(|statement| statement.clone()).collect()
}
