use grad::ast::{ASTNode, BinaryOp, Ops, ParseError, PostfixOp, UnaryOp};
use grad::ast::Parser;
use grad::scanner::{Lexer, Token, TokenType};

/// Splits the small expression language of these tests into tokens, reading a
/// `-` right before a digit as the sign of a number literal.
fn tokens(source: &str) -> Vec<Token> {
    let chars: Vec<char> = source.chars().collect();
    let mut out = Vec::new();
    let mut i = 0;
    while i < chars.len() {
        let c = chars[i];
        let start = i;
        let two: String = chars[i..(i + 2).min(chars.len())].iter().collect();
        let kind = if c.is_whitespace() {
            i += 1;
            continue;
        } else if c.is_ascii_digit() || (c == '-' && i + 1 < chars.len() && chars[i + 1].is_ascii_digit()) {
            i += 1;
            while i < chars.len() && chars[i].is_ascii_digit() {
                i += 1;
            }
            let text: String = chars[start..i].iter().collect();
            TokenType::IntNumber(text.parse().unwrap())
        } else if c.is_ascii_alphabetic() || c == '_' {
            while i < chars.len() && (chars[i].is_ascii_alphanumeric() || chars[i] == '_') {
                i += 1;
            }
            let text: String = chars[start..i].iter().collect();
            match text.as_str() {
                "let" => TokenType::LET,
                "fn" => TokenType::FN,
                "print" => TokenType::PRINT,
                "while" => TokenType::WHILE,
                "if" => TokenType::IF,
                "else" => TokenType::ELSE,
                "true" => TokenType::Boolean(true),
                "false" => TokenType::Boolean(false),
                _ => TokenType::Identifier,
            }
        } else {
            let pair = match two.as_str() {
                "==" => Some(TokenType::EqualEqual),
                "!=" => Some(TokenType::BangEqual),
                "+=" => Some(TokenType::PlusEqual),
                "-=" => Some(TokenType::MinusEqual),
                "*=" => Some(TokenType::StarEqual),
                "/=" => Some(TokenType::SlashEqual),
                "**" => Some(TokenType::StarStar),
                _ => None,
            };
            match pair {
                Some(k) => {
                    i += 2;
                    k
                }
                None => {
                    i += 1;
                    match c {
                        '+' => TokenType::PLUS,
                        '-' => TokenType::MINUS,
                        '*' => TokenType::STAR,
                        '/' => TokenType::SLASH,
                        '@' => TokenType::AT,
                        '!' => TokenType::BANG,
                        '=' => TokenType::EQUAL,
                        '(' => TokenType::LeftParen,
                        ')' => TokenType::RightParen,
                        '[' => TokenType::LeftBracket,
                        ']' => TokenType::RightBracket,
                        '{' => TokenType::LeftBrace,
                        '}' => TokenType::RightBrace,
                        '.' => TokenType::DOT,
                        ',' => TokenType::COMMA,
                        ';' => TokenType::SEMICOLON,
                        '<' => TokenType::LESS,
                        '>' => TokenType::GREATER,
                        other => panic!("no token starts with {:?}", other),
                    }
                }
            }
        };
        out.push(Token { token_type: kind, lexeme: chars[start..i].iter().collect() });
    }
    out
}

fn op_text(op: &Ops) -> &'static str {
    match op {
        Ops::BinaryOp(BinaryOp::Add) => "+",
        Ops::BinaryOp(BinaryOp::Sub) => "-",
        Ops::BinaryOp(BinaryOp::Mul) => "*",
        Ops::BinaryOp(BinaryOp::Div) => "/",
        Ops::BinaryOp(BinaryOp::At) => "@",
        Ops::BinaryOp(BinaryOp::Eq) => "==",
        Ops::BinaryOp(BinaryOp::Ne) => "!=",
        Ops::BinaryOp(BinaryOp::Lt) => "<",
        Ops::BinaryOp(BinaryOp::Le) => "<=",
        Ops::BinaryOp(BinaryOp::Gt) => ">",
        Ops::BinaryOp(BinaryOp::Ge) => ">=",
        Ops::UnaryOp(UnaryOp::Negate) => "-",
        Ops::UnaryOp(UnaryOp::Not) => "!",
        Ops::PostfixOp(PostfixOp::Index) => "[",
        Ops::PostfixOp(PostfixOp::Call) => ".",
        Ops::PostfixOp(PostfixOp::StarStar) => "**",
    }
}

/// The tree in prefix notation.
fn show(n: &ASTNode) -> String {
    match n {
        ASTNode::IntNumber(i) => i.to_string(),
        ASTNode::FloatNumber(b) => f64::from_bits(*b).to_string(),
        ASTNode::Identifier(s) | ASTNode::String(s) => s.clone(),
        ASTNode::Boolean(b) => b.to_string(),
        ASTNode::Callee(callee, args) => {
            let mut s = format!("({}", callee);
            for a in args {
                s.push_str(&format!(" {}", show(a)));
            }
            s + ")"
        }
        ASTNode::Print(e) => {
            let mut s = "print!(".to_string();
            for x in e {
                s.push_str(&format!("{}, ", show(x)));
            }
            s + ")"
        }
        ASTNode::Let(name, e) => format!("let {} = {}", name, show(&e[0])),
        ASTNode::Assign(name, e) => format!("{} = {}", name, show(&e[0])),
        ASTNode::Block(stmts) => stmts.iter().map(show).collect(),
        ASTNode::If(c, t, e) => {
            let mut s = format!("if {} {{", show(&c[0]));
            s.push_str(&t.iter().map(show).collect::<String>());
            s.push('}');
            if let Some(e) = e {
                s.push_str(" else {");
                s.push_str(&e.iter().map(show).collect::<String>());
                s.push('}');
            }
            s
        }
        ASTNode::While(c, b) => {
            format!("while {} {{{}}}", show(&c[0]), b.iter().map(show).collect::<String>())
        }
        ASTNode::Op(head, rest) => {
            let mut s = format!("({}", op_text(head));
            for x in rest {
                s.push_str(&format!(" {}", show(x)));
            }
            s + ")"
        }
        ASTNode::Function(name, params, body) => format!(
            "fn {}({}) {{{}}}",
            name,
            params.join(", "),
            body.iter().map(show).collect::<String>()
        ),
    }
}

#[test]
fn test_expr() {
    fn expr(source: &str) -> String {
        let mut parser = Parser::new(Lexer::new(tokens(source)));
        show(&parser.parse_expression().unwrap())
    }

    assert_eq!(expr("1"), "1");
    assert_eq!(expr("1 + 2 * 3"), "(+ 1 (* 2 3))");
    assert_eq!(expr("(1 + 2) * 3"), "(* (+ 1 2) 3)");
    assert_eq!(expr("a + b * c * d + e"), "(+ (+ a (* (* b c) d)) e)");
    assert_eq!(expr("a + b * c * d + e"), "(+ (+ a (* (* b c) d)) e)");
    assert_eq!(expr("f @ g @ h"), "(@ f (@ g h))");
    assert_eq!(
        expr("1 + 2 + f @ g @ h * 3 * 4"),
        "(+ (+ 1 2) (* (* (@ f (@ g h)) 3) 4))"
    );
    assert_eq!(expr("--1 * 2"), "(* (- -1) 2)");
    assert_eq!(expr("--f @ g"), "(@ (- (- f)) g)");
    assert_eq!(expr("-!9"), "(- (! 9))");
    assert_eq!(expr("! f @ g "), "(@ (! f) g)");
    assert_eq!(expr("(((0)))"), "0");
    assert_eq!(expr("x[0][1]"), "([ ([ x 0) 1)");
    assert_eq!(expr("x.relu()"), "(. x (relu))");
    assert_eq!(expr("x.relu(0, 1).relu(2, 3)"), "(. (. x (relu 0 1)) (relu 2 3))");
    assert_eq!(
        expr("x.relu(a.b(0+2), 2-1).max(0)/2"),
        "(/ (. (. x (relu (. a (b (+ 0 2))) 2 -1)) (max 0)) 2)"
    );
    assert_eq!(expr("x.relu(a.sigmoid(0+2))"), "(. x (relu (. a (sigmoid (+ 0 2)))))");
    assert_eq!(expr("a == b"), "(== a b)");
    assert_eq!(expr("--1"), "(- -1)");
}

#[test]
fn ast_test_parser() {
    fn parse(source: &str) -> String {
        let out = Parser::new(Lexer::new(tokens(source))).parse().unwrap();
        assert!(out.len() == 1);
        show(&out[0])
    }

    assert_eq!(parse("let a = 3;"), "let a = 3");
    assert_eq!(parse("a += 3;"), "a = (+ a 3)");
    assert_eq!(parse("a += (c == 4);"), "a = (+ a (== c 4))");
    assert_eq!(parse("a -= 4;"), "a = (- a 4)");
    assert_eq!(parse("a *= (5 != 4);"), "a = (* a (!= 5 4))");
    assert_eq!(parse("fn add(a, b) { a + b; }"), "fn add(a, b) {(+ a b)}");
}

#[test]
fn parse_errors_are_values() {
    let missing_paren = Parser::new(Lexer::new(tokens("print(1"))).parse();
    assert!(matches!(
        missing_paren,
        Err(ParseError::MissingToken(TokenType::RightParen, _))
    ));
    let dangling = Parser::new(Lexer::new(tokens("1 +"))).parse();
    assert!(matches!(dangling, Err(ParseError::UnexpectedToken(TokenType::EOF, _))));
    let unclosed_params = Parser::new(Lexer::new(tokens("fn f(a, b"))).parse();
    assert!(matches!(
        unclosed_params,
        Err(ParseError::MissingToken(TokenType::RightParen, _))
    ));
}

#[test]
fn lexer_reads_in_order() {
    let mut lexer = Lexer::new(tokens("let x = 1"));
    assert_eq!(lexer.peek_n_type(2), vec![TokenType::LET, TokenType::Identifier]);
    assert_eq!(lexer.next().token_type, TokenType::LET);
    assert_eq!(lexer.peek().lexeme, "x");
    lexer.next();
    lexer.next();
    assert_eq!(lexer.next().token_type, TokenType::IntNumber(1));
    assert_eq!(lexer.next().token_type, TokenType::EOF);
    assert_eq!(lexer.peek_type(), TokenType::EOF);
}

#[test]
fn prefix_plus_and_bare_print_are_rejected() {
    let plus = Parser::new(Lexer::new(tokens("+1"))).parse_expression();
    assert!(matches!(plus, Err(ParseError::InvalidOperator(TokenType::PLUS))));
    let bare = Parser::new(Lexer::new(tokens("print 1"))).parse();
    assert!(matches!(bare, Err(ParseError::SyntaxError(_))));
}

#[test]
fn lexing_error_defaults_to_other() {
    assert_eq!(grad::scanner::LexingError::default(), grad::scanner::LexingError::Other);
}

#[test]
fn statements_parse_with_bodies() {
    let out = Parser::new(Lexer::new(tokens("while (i < 3) { print(i); i = i + 1; }")))
        .parse()
        .unwrap();
    assert_eq!(out.len(), 1);
    assert_eq!(show(&out[0]), "while (< i 3) {print!(i, )i = (+ i 1)}");
}
