use vstd::prelude::*;

use crate::scanner::{next_type, Lexer, TokenType};

verus! {

/// A node of the program tree handed to the compiler. Float literals carry the
/// IEEE-754 binary64 bit pattern of their value.
#[derive(Debug)]
pub enum ASTNode {
    IntNumber(i64),
    FloatNumber(u64),
    Identifier(String),
    Boolean(bool),
    String(String),
    Op(Ops, Vec<ASTNode>),
    Callee(String, Vec<ASTNode>),
    Let(String, Vec<ASTNode>),
    Assign(String, Vec<ASTNode>),
    If(Vec<ASTNode>, Vec<ASTNode>, Option<Vec<ASTNode>>),
    While(Vec<ASTNode>, Vec<ASTNode>),
    Print(Vec<ASTNode>),
    Function(String, Vec<String>, Vec<ASTNode>),
    Block(Vec<ASTNode>),
}

/// Binary operators.
#[derive(Clone, Copy, Debug, PartialEq, Eq, Structural)]
pub enum BinaryOp {
    Add,
    Sub,
    Mul,
    Div,
    At,
    Eq,
    Ne,
    Lt,
    Le,
    Gt,
    Ge,
}

/// Prefix operators.
#[derive(Clone, Copy, Debug, PartialEq, Eq, Structural)]
pub enum UnaryOp {
    Negate,
    Not,
}

/// Postfix operators; `StarStar` is exponentiation.
#[derive(Clone, Copy, Debug, PartialEq, Eq, Structural)]
pub enum PostfixOp {
    Index,
    Call,
    StarStar,
}

/// Any operator of an `Op` node.
#[derive(Clone, Copy, Debug, PartialEq, Eq, Structural)]
pub enum Ops {
    BinaryOp(BinaryOp),
    UnaryOp(UnaryOp),
    PostfixOp(PostfixOp),
}

/// Number of operands an operator takes.
pub open spec fn arity(op: Ops) -> nat {
    match op {
        Ops::UnaryOp(_) => 1,
        _ => 2,
    }
}

/// Every operator node has as many operands as it takes, every `let`,
/// assignment, `print` and condition holds one expression, and all nested
/// nodes are well shaped too.
pub open spec fn shaped(n: ASTNode) -> bool
    decreases n,
{
    match n {
        ASTNode::Op(op, args) => args.len() == arity(op) && shaped(args@[0]) && (args.len() == 2
            ==> shaped(args@[1])),
        ASTNode::Callee(_, args) => shaped_seq(args@),
        ASTNode::Let(_, v) => v.len() == 1 && shaped(v@[0]),
        ASTNode::Assign(_, v) => v.len() == 1 && shaped(v@[0]),
        ASTNode::Print(v) => v.len() == 1 && shaped(v@[0]),
        ASTNode::If(c, t, e) => c.len() == 1 && shaped(c@[0]) && shaped_seq(t@) && match e {
            Some(e) => shaped_seq(e@),
            None => true,
        },
        ASTNode::While(c, b) => c.len() == 1 && shaped(c@[0]) && shaped_seq(b@),
        ASTNode::Function(_, _, body) => shaped_seq(body@),
        ASTNode::Block(v) => shaped_seq(v@),
        _ => true,
    }
}

/// Every node of the sequence is well shaped.
pub open spec fn shaped_seq(s: Seq<ASTNode>) -> bool
    decreases s,
{
    s.len() == 0 || (shaped_seq(s.drop_last()) && shaped(s.last()))
}

proof fn lemma_shaped_push(s: Seq<ASTNode>, n: ASTNode)
    requires
        shaped_seq(s),
        shaped(n),
    ensures
        shaped_seq(s.push(n)),
{
    assert(s.push(n).drop_last() =~= s);
}

proof fn lemma_shaped_one(n: ASTNode)
    requires
        shaped(n),
    ensures
        shaped_seq(seq![n]),
{
    assert(seq![n].drop_last() =~= Seq::<ASTNode>::empty());
    assert(shaped_seq(Seq::<ASTNode>::empty()));
    assert(seq![n].last() == n);
}

proof fn lemma_shaped_empty()
    ensures
        shaped_seq(Seq::<ASTNode>::empty()),
{
}

impl Ops {
    pub fn arity(&self) -> (r: usize)
        ensures
            r == arity(*self),
    {
        match self {
            Ops::UnaryOp(_) => 1,
            _ => 2,
        }
    }
}

/// Why a token stream is not a program.
#[derive(Clone, Copy, Debug)]
pub enum ParseError {
    UnexpectedToken(TokenType, &'static str),
    MissingToken(TokenType, &'static str),
    InvalidOperator(TokenType),
    SyntaxError(&'static str),
}

/// Binding powers (left, right) of the infix operators.
fn infix_binding_power(op: Ops) -> (r: Option<(u8, u8)>)
    ensures
        r is Some ==> op is BinaryOp,
{
    match op {
        Ops::BinaryOp(BinaryOp::Eq) | Ops::BinaryOp(BinaryOp::Ne) => Some((5, 6)),
        Ops::BinaryOp(BinaryOp::Lt) | Ops::BinaryOp(BinaryOp::Le) | Ops::BinaryOp(BinaryOp::Gt)
        | Ops::BinaryOp(BinaryOp::Ge) => Some((7, 8)),
        Ops::BinaryOp(BinaryOp::Add) | Ops::BinaryOp(BinaryOp::Sub) => Some((9, 10)),
        Ops::BinaryOp(BinaryOp::Mul) | Ops::BinaryOp(BinaryOp::Div) => Some((11, 12)),
        Ops::BinaryOp(BinaryOp::At) => Some((14, 13)),
        _ => None,
    }
}

/// Left binding power of the postfix operators.
fn postfix_binding_power(op: Ops) -> (r: Option<u8>) {
    match op {
        Ops::PostfixOp(PostfixOp::Index) => Some(13),
        Ops::PostfixOp(PostfixOp::Call) => Some(14),
        Ops::PostfixOp(PostfixOp::StarStar) => Some(16),
        _ => None,
    }
}

/// Right binding power of the prefix operators.
const PREFIX_BINDING_POWER: u8 = 15;

/// The operator that a token stands for after an operand.
fn infix_op(t: TokenType) -> (r: Option<Ops>)
    ensures
        t == TokenType::EOF ==> r is None,
{
    match t {
        TokenType::PLUS => Some(Ops::BinaryOp(BinaryOp::Add)),
        TokenType::MINUS => Some(Ops::BinaryOp(BinaryOp::Sub)),
        TokenType::STAR => Some(Ops::BinaryOp(BinaryOp::Mul)),
        TokenType::SLASH => Some(Ops::BinaryOp(BinaryOp::Div)),
        TokenType::AT => Some(Ops::BinaryOp(BinaryOp::At)),
        TokenType::EqualEqual => Some(Ops::BinaryOp(BinaryOp::Eq)),
        TokenType::BangEqual => Some(Ops::BinaryOp(BinaryOp::Ne)),
        TokenType::LESS => Some(Ops::BinaryOp(BinaryOp::Lt)),
        TokenType::LessEqual => Some(Ops::BinaryOp(BinaryOp::Le)),
        TokenType::GREATER => Some(Ops::BinaryOp(BinaryOp::Gt)),
        TokenType::GreaterEqual => Some(Ops::BinaryOp(BinaryOp::Ge)),
        TokenType::DOT => Some(Ops::PostfixOp(PostfixOp::Call)),
        TokenType::LeftBracket => Some(Ops::PostfixOp(PostfixOp::Index)),
        TokenType::StarStar => Some(Ops::PostfixOp(PostfixOp::StarStar)),
        _ => None,
    }
}

/// The compound assignment operator of a token, if it is one.
fn compound_op(t: TokenType) -> (r: Option<BinaryOp>) {
    match t {
        TokenType::PlusEqual => Some(BinaryOp::Add),
        TokenType::MinusEqual => Some(BinaryOp::Sub),
        TokenType::StarEqual => Some(BinaryOp::Mul),
        TokenType::SlashEqual => Some(BinaryOp::Div),
        _ => None,
    }
}

/// Recursive-descent parser for statements, precedence climbing for expressions.
pub struct Parser {
    lexer: Lexer,
}

impl Parser {
    /// Tokens not read yet.
    pub closed spec fn remaining(&self) -> nat {
        self.lexer.tokens@.len()
    }

    /// Whether all tokens have been read.
    pub closed spec fn at_end(&self) -> bool {
        next_type(self.lexer.tokens@) == TokenType::EOF
    }

    pub fn new(lexer: Lexer) -> (r: Parser)
        ensures
            r.remaining() == lexer.tokens.len(),
    {
        Parser { lexer }
    }

    /// Parses statements until the tokens run out.
    pub fn parse(&mut self) -> (r: Result<Vec<ASTNode>, ParseError>)
        ensures
            final(self).remaining() <= old(self).remaining(),
            r is Ok ==> final(self).at_end(),
            r is Ok ==> shaped_seq(r->Ok_0@),
    {
        let mut statements: Vec<ASTNode> = Vec::new();
        proof {
            lemma_shaped_empty();
        }
        while self.lexer.peek_type() != TokenType::EOF
            invariant
                self.remaining() <= old(self).remaining(),
                shaped_seq(statements@),
            decreases self.lexer.tokens.len(),
        {
            match self.parse_statement() {
                Ok(s) => {
                    proof {
                        lemma_shaped_push(statements@, s);
                    }
                    statements.push(s);
                },
                Err(e) => {
                    return Err(e);
                },
            }
        }
        Ok(statements)
    }

    /// Parses one expression.
    pub fn parse_expression(&mut self) -> (r: Result<ASTNode, ParseError>)
        ensures
            final(self).remaining() <= old(self).remaining(),
            r is Ok ==> final(self).remaining() < old(self).remaining(),
            r is Ok ==> shaped(r->Ok_0),
    {
        self.expr_bp(0)
    }

    fn parse_statement(&mut self) -> (r: Result<ASTNode, ParseError>)
        ensures
            final(self).remaining() <= old(self).remaining(),
            r is Ok ==> final(self).remaining() < old(self).remaining(),
            r is Ok ==> shaped(r->Ok_0),
        decreases self.lexer.tokens.len(), 5nat,
    {
        let statement = match self.lexer.peek_type() {
            TokenType::PRINT => self.parse_print(),
            TokenType::LET => self.parse_let(),
            TokenType::FN => self.parse_function(),
            TokenType::LeftBrace => self.parse_block(),
            TokenType::IF => self.parse_if(),
            TokenType::WHILE => self.parse_while(),
            TokenType::Identifier => {
                if self.is_assignment() {
                    self.parse_assign()
                } else {
                    self.expr_bp(0)
                }
            },
            TokenType::SEMICOLON => {
                self.lexer.next();
                let empty: Vec<ASTNode> = Vec::new();
                proof {
                    lemma_shaped_empty();
                    assert(empty@ =~= Seq::<ASTNode>::empty());
                }
                return Ok(ASTNode::Block(empty));
            },
            _ => self.expr_bp(0),
        };
        let statement = match statement {
            Ok(s) => s,
            Err(e) => {
                return Err(e);
            },
        };
        if self.lexer.peek_type() == TokenType::SEMICOLON {
            self.lexer.next();
        }
        Ok(statement)
    }

    fn parse_print(&mut self) -> (r: Result<ASTNode, ParseError>)
        requires
            old(self).lexer.tokens.len() > 0,
        ensures
            final(self).remaining() <= old(self).remaining(),
            r is Ok ==> final(self).remaining() < old(self).remaining(),
            r is Ok ==> shaped(r->Ok_0),
        decreases self.lexer.tokens.len(), 4nat,
    {
        self.lexer.next();
        if self.lexer.next().token_type != TokenType::LeftParen {
            return Err(ParseError::SyntaxError("expected '(' after print"));
        }
        let expr = match self.expr_bp(0) {
            Ok(e) => e,
            Err(e) => {
                return Err(e);
            },
        };
        if self.lexer.next().token_type != TokenType::RightParen {
            return Err(ParseError::MissingToken(TokenType::RightParen, "to close print statement"));
        }
        Ok(ASTNode::Print(vec![expr]))
    }

    fn parse_let(&mut self) -> (r: Result<ASTNode, ParseError>)
        requires
            old(self).lexer.tokens.len() > 0,
        ensures
            final(self).remaining() <= old(self).remaining(),
            r is Ok ==> final(self).remaining() < old(self).remaining(),
            r is Ok ==> shaped(r->Ok_0),
        decreases self.lexer.tokens.len(), 4nat,
    {
        self.lexer.next();
        let identifier = self.lexer.next().lexeme;
        if self.lexer.next().token_type != TokenType::EQUAL {
            return Err(ParseError::MissingToken(TokenType::EQUAL, "to assign value to variable"));
        }
        let expr = match self.expr_bp(0) {
            Ok(e) => e,
            Err(e) => {
                return Err(e);
            },
        };
        Ok(ASTNode::Let(identifier, vec![expr]))
    }

    fn parse_block(&mut self) -> (r: Result<ASTNode, ParseError>)
        requires
            old(self).lexer.tokens.len() > 0,
        ensures
            final(self).remaining() <= old(self).remaining(),
            r is Ok ==> final(self).remaining() < old(self).remaining(),
            r is Ok ==> shaped(r->Ok_0),
        decreases self.lexer.tokens.len(), 4nat,
    {
        self.lexer.next();
        let mut statements: Vec<ASTNode> = Vec::new();
        proof {
            lemma_shaped_empty();
        }
        while self.lexer.peek_type() != TokenType::RightBrace
            invariant
                self.remaining() < old(self).remaining(),
                shaped_seq(statements@),
            decreases self.lexer.tokens.len(),
        {
            match self.parse_statement() {
                Ok(s) => {
                    proof {
                        lemma_shaped_push(statements@, s);
                    }
                    statements.push(s);
                },
                Err(e) => {
                    return Err(e);
                },
            }
        }
        self.lexer.next();
        Ok(ASTNode::Block(statements))
    }

    /// `(` condition `)`, as the head of `if` and `while`.
    fn parse_condition(&mut self, missing_open: &'static str, missing_close: &'static str) -> (r:
        Result<ASTNode, ParseError>)
        ensures
            final(self).remaining() <= old(self).remaining(),
            r is Ok ==> final(self).remaining() < old(self).remaining(),
            r is Ok ==> shaped(r->Ok_0),
        decreases self.lexer.tokens.len(), 3nat,
    {
        if self.lexer.next().token_type != TokenType::LeftParen {
            return Err(ParseError::MissingToken(TokenType::LeftParen, missing_open));
        }
        let condition = match self.expr_bp(0) {
            Ok(e) => e,
            Err(e) => {
                return Err(e);
            },
        };
        if self.lexer.next().token_type != TokenType::RightParen {
            return Err(ParseError::MissingToken(TokenType::RightParen, missing_close));
        }
        Ok(condition)
    }

    fn parse_if(&mut self) -> (r: Result<ASTNode, ParseError>)
        requires
            old(self).lexer.tokens.len() > 0,
        ensures
            final(self).remaining() <= old(self).remaining(),
            r is Ok ==> final(self).remaining() < old(self).remaining(),
            r is Ok ==> shaped(r->Ok_0),
        decreases self.lexer.tokens.len(), 4nat,
    {
        self.lexer.next();
        let condition = match self.parse_condition("to start if condition", "to close if condition") {
            Ok(e) => e,
            Err(e) => {
                return Err(e);
            },
        };
        let then_branch = match self.parse_statement() {
            Ok(s) => s,
            Err(e) => {
                return Err(e);
            },
        };
        let else_branch = if self.lexer.peek_type() == TokenType::ELSE {
            self.lexer.next();
            match self.parse_statement() {
                Ok(s) => {
                    let v = vec![s];
                    proof {
                        lemma_shaped_one(s);
                        assert(v@ =~= seq![s]);
                    }
                    Some(v)
                },
                Err(e) => {
                    return Err(e);
                },
            }
        } else {
            None
        };
        let c = vec![condition];
        let t = vec![then_branch];
        proof {
            lemma_shaped_one(then_branch);
            assert(t@ =~= seq![then_branch]);
            assert(c@ =~= seq![condition]);
        }
        Ok(ASTNode::If(c, t, else_branch))
    }

    fn parse_while(&mut self) -> (r: Result<ASTNode, ParseError>)
        requires
            old(self).lexer.tokens.len() > 0,
        ensures
            final(self).remaining() <= old(self).remaining(),
            r is Ok ==> final(self).remaining() < old(self).remaining(),
            r is Ok ==> shaped(r->Ok_0),
        decreases self.lexer.tokens.len(), 4nat,
    {
        self.lexer.next();
        let condition = match self.parse_condition(
            "to start while condition",
            "to close while condition",
        ) {
            Ok(e) => e,
            Err(e) => {
                return Err(e);
            },
        };
        let body = match self.parse_statement() {
            Ok(s) => s,
            Err(e) => {
                return Err(e);
            },
        };
        let c = vec![condition];
        let b = vec![body];
        proof {
            lemma_shaped_one(body);
            assert(b@ =~= seq![body]);
            assert(c@ =~= seq![condition]);
        }
        Ok(ASTNode::While(c, b))
    }

    fn parse_function(&mut self) -> (r: Result<ASTNode, ParseError>)
        requires
            old(self).lexer.tokens.len() > 0,
        ensures
            final(self).remaining() <= old(self).remaining(),
            r is Ok ==> final(self).remaining() < old(self).remaining(),
            r is Ok ==> shaped(r->Ok_0),
        decreases self.lexer.tokens.len(), 4nat,
    {
        self.lexer.next();
        let name = self.lexer.next().lexeme;
        if self.lexer.next().token_type != TokenType::LeftParen {
            return Err(ParseError::MissingToken(TokenType::LeftParen, "to start function parameters"));
        }
        let mut params: Vec<String> = Vec::new();
        while self.lexer.peek_type() != TokenType::RightParen
            invariant
                self.remaining() < old(self).remaining(),
            decreases self.lexer.tokens.len(),
        {
            if self.lexer.tokens.len() == 0 {
                return Err(ParseError::MissingToken(TokenType::RightParen, "to close function parameters"));
            }
            params.push(self.lexer.next().lexeme);
            if self.lexer.peek_type() == TokenType::COMMA {
                self.lexer.next();
            }
        }
        self.lexer.next();
        let body = match self.parse_statement() {
            Ok(s) => s,
            Err(e) => {
                return Err(e);
            },
        };
        let b = vec![body];
        proof {
            lemma_shaped_one(body);
            assert(b@ =~= seq![body]);
        }
        Ok(ASTNode::Function(name, params, b))
    }

    /// Whether one of the next two tokens assigns.
    fn is_assignment(&self) -> (r: bool) {
        let next = self.lexer.peek_n_type(2);
        let mut i: usize = 0;
        while i < next.len()
            decreases next.len() - i,
        {
            match next[i] {
                TokenType::EQUAL | TokenType::PlusEqual | TokenType::MinusEqual
                | TokenType::StarEqual | TokenType::SlashEqual => {
                    return true;
                },
                _ => {},
            }
            i += 1;
        }
        false
    }

    /// `x = e` or `x op= e`; the compound form becomes `x = x op e`.
    fn parse_assign(&mut self) -> (r: Result<ASTNode, ParseError>)
        requires
            old(self).lexer.tokens.len() > 0,
        ensures
            final(self).remaining() <= old(self).remaining(),
            r is Ok ==> final(self).remaining() < old(self).remaining(),
            r is Ok ==> shaped(r->Ok_0),
        decreases self.lexer.tokens.len(), 4nat,
    {
        let id = self.lexer.next().lexeme;
        let op = self.lexer.next().token_type;
        let expr = match self.expr_bp(0) {
            Ok(e) => e,
            Err(e) => {
                return Err(e);
            },
        };
        let expr = if op == TokenType::EQUAL {
            expr
        } else {
            match compound_op(op) {
                Some(bin_op) => {
                    let target = ASTNode::Identifier(id.clone());
                    let operands = vec![target, expr];
                    proof {
                        assert(operands@ =~= seq![target, expr]);
                        assert(shaped(target));
                    }
                    let node = ASTNode::Op(Ops::BinaryOp(bin_op), operands);
                    proof {
                        assert(shaped(node));
                    }
                    node
                },
                None => {
                    return Err(ParseError::InvalidOperator(op));
                },
            }
        };
        let value = vec![expr];
        proof {
            assert(value@ =~= seq![expr]);
        }
        Ok(ASTNode::Assign(id, value))
    }

    /// An expression whose operators bind at least as tightly as `min_bp`.
    fn expr_bp(&mut self, min_bp: u8) -> (r: Result<ASTNode, ParseError>)
        ensures
            final(self).remaining() <= old(self).remaining(),
            r is Ok ==> final(self).remaining() < old(self).remaining(),
            r is Ok ==> shaped(r->Ok_0),
        decreases self.lexer.tokens.len(), 1nat,
    {
        let mut lhs = match self.parse_prefix() {
            Ok(e) => e,
            Err(e) => {
                return Err(e);
            },
        };
        loop
            invariant
                self.remaining() < old(self).remaining(),
                shaped(lhs),
            decreases self.lexer.tokens.len(),
        {
            let op = match infix_op(self.lexer.peek_type()) {
                Some(op) => op,
                None => {
                    break ;
                },
            };
            if let Some((l_bp, r_bp)) = infix_binding_power(op) {
                if l_bp < min_bp {
                    break ;
                }
                self.lexer.next();
                let rhs = match self.expr_bp(r_bp) {
                    Ok(e) => e,
                    Err(e) => {
                        return Err(e);
                    },
                };
                let args = vec![lhs, rhs];
                proof {
                    assert(args@ =~= seq![lhs, rhs]);
                }
                lhs = ASTNode::Op(op, args);
            } else if let Some(l_bp) = postfix_binding_power(op) {
                if l_bp < min_bp {
                    break ;
                }
                self.lexer.next();
                lhs = match self.parse_postfix(op, lhs) {
                    Ok(e) => e,
                    Err(e) => {
                        return Err(e);
                    },
                };
            } else {
                break ;
            }
        }
        Ok(lhs)
    }

    /// A literal, a name, a parenthesised expression or a prefix operator.
    fn parse_prefix(&mut self) -> (r: Result<ASTNode, ParseError>)
        ensures
            final(self).remaining() <= old(self).remaining(),
            r is Ok ==> final(self).remaining() < old(self).remaining(),
            r is Ok ==> shaped(r->Ok_0),
        decreases self.lexer.tokens.len(), 0nat,
    {
        if self.lexer.peek_type() == TokenType::EOF {
            return Err(ParseError::UnexpectedToken(TokenType::EOF, "unexpected end of input"));
        }
        let token = self.lexer.next();
        match token.token_type {
            TokenType::IntNumber(n) => Ok(ASTNode::IntNumber(n)),
            TokenType::FloatNumber(b) => Ok(ASTNode::FloatNumber(b)),
            TokenType::Identifier => Ok(ASTNode::Identifier(token.lexeme)),
            TokenType::Boolean(b) => Ok(ASTNode::Boolean(b)),
            TokenType::String => Ok(ASTNode::String(token.lexeme)),
            TokenType::LeftParen => {
                let expr = match self.expr_bp(0) {
                    Ok(e) => e,
                    Err(e) => {
                        return Err(e);
                    },
                };
                if self.lexer.next().token_type != TokenType::RightParen {
                    return Err(ParseError::MissingToken(TokenType::RightParen, "to close parenthesized expression"));
                }
                Ok(expr)
            },
            TokenType::MINUS | TokenType::BANG => {
                let op = if token.token_type == TokenType::MINUS {
                    Ops::UnaryOp(UnaryOp::Negate)
                } else {
                    Ops::UnaryOp(UnaryOp::Not)
                };
                let rhs = match self.expr_bp(PREFIX_BINDING_POWER) {
                    Ok(e) => e,
                    Err(e) => {
                        return Err(e);
                    },
                };
                Ok(ASTNode::Op(op, vec![rhs]))
            },
            TokenType::PLUS => Err(ParseError::InvalidOperator(TokenType::PLUS)),
            other => Err(ParseError::UnexpectedToken(other, "in prefix position")),
        }
    }

    /// The rest of a postfix operator whose token was just read.
    fn parse_postfix(&mut self, op: Ops, lhs: ASTNode) -> (r: Result<ASTNode, ParseError>)
        requires
            shaped(lhs),
        ensures
            final(self).remaining() <= old(self).remaining(),
            r is Ok ==> shaped(r->Ok_0),
        decreases self.lexer.tokens.len(), 2nat,
    {
        match op {
            Ops::PostfixOp(PostfixOp::Index) => {
                let rhs = match self.expr_bp(0) {
                    Ok(e) => e,
                    Err(e) => {
                        return Err(e);
                    },
                };
                if self.lexer.next().token_type != TokenType::RightBracket {
                    return Err(ParseError::MissingToken(TokenType::RightBracket, "to close index operation"));
                }
                let operands = vec![lhs, rhs];
                proof {
                    assert(operands@ =~= seq![lhs, rhs]);
                }
                Ok(ASTNode::Op(op, operands))
            },
            Ops::PostfixOp(PostfixOp::Call) => {
                let callee = self.lexer.next().lexeme;
                if self.lexer.next().token_type != TokenType::LeftParen {
                    return Err(ParseError::MissingToken(TokenType::LeftParen, "to start function call arguments"));
                }
                let args = match self.parse_args() {
                    Ok(a) => a,
                    Err(e) => {
                        return Err(e);
                    },
                };
                if self.lexer.next().token_type != TokenType::RightParen {
                    return Err(ParseError::MissingToken(TokenType::RightParen, "to close function call arguments"));
                }
                let call = ASTNode::Callee(callee, args);
                let operands = vec![lhs, call];
                proof {
                    assert(operands@ =~= seq![lhs, call]);
                    assert(shaped(call));
                }
                let node = ASTNode::Op(op, operands);
                proof {
                    assert(shaped(node));
                }
                Ok(node)
            },
            Ops::PostfixOp(PostfixOp::StarStar) => {
                let rhs = match self.expr_bp(0) {
                    Ok(e) => e,
                    Err(e) => {
                        return Err(e);
                    },
                };
                let operands = vec![lhs, rhs];
                proof {
                    assert(operands@ =~= seq![lhs, rhs]);
                }
                Ok(ASTNode::Op(op, operands))
            },
            _ => Err(ParseError::SyntaxError("invalid postfix operator")),
        }
    }

    /// Call arguments up to the closing parenthesis, which is left unread.
    fn parse_args(&mut self) -> (r: Result<Vec<ASTNode>, ParseError>)
        ensures
            final(self).remaining() <= old(self).remaining(),
            r is Ok ==> shaped_seq(r->Ok_0@),
        decreases self.lexer.tokens.len(), 3nat,
    {
        let mut args: Vec<ASTNode> = Vec::new();
        proof {
            lemma_shaped_empty();
        }
        while self.lexer.peek_type() != TokenType::RightParen
            invariant
                self.remaining() <= old(self).remaining(),
                shaped_seq(args@),
            decreases self.lexer.tokens.len(),
        {
            match self.expr_bp(0) {
                Ok(e) => {
                    proof {
                        lemma_shaped_push(args@, e);
                    }
                    args.push(e);
                },
                Err(e) => {
                    return Err(e);
                },
            }
            if self.lexer.peek_type() == TokenType::COMMA {
                self.lexer.next();
            }
        }
        Ok(args)
    }
}

} // verus!
