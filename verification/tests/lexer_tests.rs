use monkey::lexer::token::Token;
use monkey::lexer::Lexer;

#[test]
fn test_next_token_basic() {
    let input = String::from("=+(){},;");

    let tests = vec![
        (Token::Assign, "="),
        (Token::Plus, "+"),
        (Token::LParen, "("),
        (Token::RParen, ")"),
        (Token::LBrace, "{"),
        (Token::RBrace, "}"),
        (Token::Comma, ","),
        (Token::Semicolon, ";"),
        (Token::Eof, "EOF"),
    ];

    let mut lexer = Lexer::new(input);

    for expect in tests {
        let token = lexer.next_token();
        assert_eq!(token, expect.0);
        assert_eq!(token.to_string(), expect.1.to_string());
    }
}

#[test]
fn test_next_token_adv() {
    let input = String::from(
        "
        let five = 5;
        let ten = 10;

        let add = fn(x, y) {
            x + y;
        };

        let result = add(five, ten);
    ",
    );

    let tests = vec![
        (Token::Let, "let"),
        (Token::Ident(("five").to_string()), "five"),
        (Token::Assign, "="),
        (Token::Int((5).to_string()), "5"),
        (Token::Semicolon, ";"),
        (Token::Let, "let"),
        (Token::Ident(("ten").to_string()), "ten"),
        (Token::Assign, "="),
        (Token::Int((10).to_string()), "10"),
        (Token::Semicolon, ";"),
        (Token::Let, "let"),
        (Token::Ident(("add").to_string()), "add"),
        (Token::Assign, "="),
        (Token::Function, "fn"),
        (Token::LParen, "("),
        (Token::Ident(("x").to_string()), "x"),
        (Token::Comma, ","),
        (Token::Ident(("y").to_string()), "y"),
        (Token::RParen, ")"),
        (Token::LBrace, "{"),
        (Token::Ident(("x").to_string()), "x"),
        (Token::Plus, "+"),
        (Token::Ident(("y").to_string()), "y"),
        (Token::Semicolon, ";"),
        (Token::RBrace, "}"),
        (Token::Semicolon, ";"),
        (Token::Let, "let"),
        (Token::Ident(("result").to_string()), "result"),
        (Token::Assign, "="),
        (Token::Ident(("add").to_string()), "add"),
        (Token::LParen, "("),
        (Token::Ident(("five").to_string()), "five"),
        (Token::Comma, ","),
        (Token::Ident(("ten").to_string()), "ten"),
        (Token::RParen, ")"),
        (Token::Semicolon, ";"),
        (Token::Eof, "EOF"),
    ];

    let mut lexer = Lexer::new(input);

    for expect in tests {
        let token = lexer.next_token();
        assert_eq!(token, expect.0);
        assert_eq!(token.to_string(), expect.1.to_string());
    }
}

#[test]
fn test_next_token_operators() {
    let input = String::from(
        "
        !-/*5;
        5 < 10 > 5;
    ",
    );

    let tests = vec![
        (Token::Bang, "!"),
        (Token::Minus, "-"),
        (Token::Slash, "/"),
        (Token::Asterisk, "*"),
        (Token::Int((5).to_string()), "5"),
        (Token::Semicolon, ";"),
        (Token::Int((5).to_string()), "5"),
        (Token::Lt, "<"),
        (Token::Int((10).to_string()), "10"),
        (Token::Gt, ">"),
        (Token::Int((5).to_string()), "5"),
        (Token::Semicolon, ";"),
        (Token::Eof, "EOF"),
    ];

    let mut lexer = Lexer::new(input);

    for expect in tests {
        let token = lexer.next_token();
        assert_eq!(token, expect.0);
        assert_eq!(token.to_string(), expect.1.to_string());
    }
}

#[test]
fn test_next_token_conditions() {
    let input = String::from(
        "
        if (5 < 10) {
            return true;
        } else {
            return false;
        }
    ",
    );

    let tests = vec![
        (Token::If, "if"),
        (Token::LParen, "("),
        (Token::Int((5).to_string()), "5"),
        (Token::Lt, "<"),
        (Token::Int((10).to_string()), "10"),
        (Token::RParen, ")"),
        (Token::LBrace, "{"),
        (Token::Return, "return"),
        (Token::True, "true"),
        (Token::Semicolon, ";"),
        (Token::RBrace, "}"),
        (Token::Else, "else"),
        (Token::LBrace, "{"),
        (Token::Return, "return"),
        (Token::False, "false"),
        (Token::Semicolon, ";"),
        (Token::RBrace, "}"),
        (Token::Eof, "EOF"),
    ];

    let mut lexer = Lexer::new(input);

    for expect in tests {
        let token = lexer.next_token();
        assert_eq!(token, expect.0);
        assert_eq!(token.to_string(), expect.1.to_string());
    }
}

#[test]
fn test_next_token_equality() {
    let input = String::from(
        "
        10 == 10;
        10 != 9;
    ",
    );

    let tests = vec![
        (Token::Int((10).to_string()), "10"),
        (Token::Eq, "=="),
        (Token::Int((10).to_string()), "10"),
        (Token::Semicolon, ";"),
        (Token::Int((10).to_string()), "10"),
        (Token::NotEq, "!="),
        (Token::Int((9).to_string()), "9"),
        (Token::Semicolon, ";"),
        (Token::Eof, "EOF"),
    ];

    let mut lexer = Lexer::new(input);

    for expect in tests {
        let token = lexer.next_token();
        assert_eq!(token, expect.0);
        assert_eq!(token.to_string(), expect.1.to_string());
    }
}

#[test]
fn test_next_token_string() {
    let input = String::from(
        "
        \"foobar\"
        \"foo bar\"
        \"\\\"foo\\\"bar\"
    ",
    );

    let tests = vec![
        (Token::String(("foobar").to_string()), "foobar"),
        (Token::String(("foo bar").to_string()), "foo bar"),
        (Token::String(("\"foo\"bar").to_string()), "\"foo\"bar"),
        (Token::Eof, "EOF"),
    ];

    let mut lexer = Lexer::new(input);

    for expect in tests {
        let token = lexer.next_token();
        assert_eq!(token, expect.0);
        assert_eq!(token.to_string(), expect.1.to_string());
    }
}
