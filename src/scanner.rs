use vstd::prelude::*;

verus! {

/// Why the lexer could not read a token.
#[derive(Clone, Copy, Debug, PartialEq, Eq, Structural)]
pub enum LexingError {
    NumberParseError,
    Other,
}

impl Default for LexingError {
    fn default() -> (r: Self)
        ensures
            r == LexingError::Other,
    {
        LexingError::Other
    }
}

/// The kinds of token. Float literals carry their binary64 bit pattern.
#[derive(Clone, Copy, Debug, PartialEq, Eq, Structural)]
pub enum TokenType {
    LeftParen,
    RightParen,
    LeftBrace,
    RightBrace,
    LeftBracket,
    RightBracket,
    COMMA,
    DOT,
    MINUS,
    PLUS,
    HAT,
    SEMICOLON,
    SLASH,
    STAR,
    AT,
    StarStar,
    BANG,
    BangEqual,
    EQUAL,
    EqualEqual,
    GREATER,
    GreaterEqual,
    LESS,
    LessEqual,
    PlusEqual,
    MinusEqual,
    StarEqual,
    SlashEqual,
    Identifier,
    IntNumber(i64),
    FloatNumber(u64),
    String,
    Boolean(bool),
    AND,
    ELSE,
    FN,
    FOR,
    IF,
    NIL,
    OR,
    PRINT,
    RETURN,
    LET,
    WHILE,
    COMMENT,
    EOF,
}

/// A token and the text it was read from.
#[derive(Debug)]
pub struct Token {
    pub token_type: TokenType,
    pub lexeme: String,
}

/// The tokens still to be read, the next one last.
pub struct Lexer {
    pub tokens: Vec<Token>,
}

/// Kind of the next token; `EOF` once all are read.
pub open spec fn next_type(tokens: Seq<Token>) -> TokenType {
    if tokens.len() == 0 {
        TokenType::EOF
    } else {
        tokens.last().token_type
    }
}

/// Kinds of the next `n` tokens, in reading order.
pub open spec fn upcoming(tokens: Seq<Token>, n: nat) -> Seq<TokenType> {
    let k = if n <= tokens.len() {
        n as int
    } else {
        tokens.len() as int
    };
    Seq::new(k as nat, |i: int| tokens[tokens.len() - 1 - i].token_type)
}

impl Lexer {
    /// A lexer over `tokens`, given in reading order.
    pub fn new(tokens: Vec<Token>) -> (r: Lexer)
        ensures
            r.tokens@ == tokens@.reverse(),
    {
        let mut tokens = tokens;
        let mut rev: Vec<Token> = Vec::new();
        let ghost orig = tokens@;
        while tokens.len() > 0
            invariant
                tokens.len() <= orig.len(),
                tokens@ == orig.take(tokens.len() as int),
                rev@ == orig.skip(tokens.len() as int).reverse(),
            decreases tokens.len(),
        {
            let ghost before = tokens@;
            let ghost rev0 = rev@;
            let t = tokens.pop().unwrap();
            proof {
                assert(tokens@ == before.drop_last());
                assert(t == before.last());
                assert(tokens@ =~= orig.take(tokens.len() as int));
            }
            rev.push(t);
            proof {
                let k = tokens.len() as int;
                assert(rev@ == rev0.push(t));
                assert(rev@ =~= orig.skip(k).reverse()) by {
                    assert(orig.skip(k).len() > 0);
                    assert(forall|i: int| 0 <= i < orig.skip(k).len() ==> #[trigger] orig.skip(k).reverse()[i] == orig.skip(k)[orig.skip(k).len() - 1 - i]);
                    assert(forall|i: int| 0 <= i < rev0.len() ==> #[trigger] rev0[i] == orig.skip(k + 1)[orig.skip(k + 1).len() - 1 - i]);
                }
            }
        }
        proof {
            assert(orig.skip(0) =~= orig);
        }
        Lexer { tokens: rev }
    }

    /// Reads the next token; at the end, an `EOF` token with empty text.
    pub fn next(&mut self) -> (r: Token)
        ensures
            old(self).tokens.len() == 0 ==> final(self).tokens@ == old(self).tokens@
                && r.token_type == TokenType::EOF && r.lexeme@.len() == 0,
            old(self).tokens.len() > 0 ==> final(self).tokens@ == old(self).tokens@.drop_last()
                && r == old(self).tokens@.last(),
    {
        match self.tokens.pop() {
            Some(t) => t,
            None => Token { token_type: TokenType::EOF, lexeme: String::new() },
        }
    }

    /// Kind of the next token, without reading it.
    pub fn peek_type(&self) -> (r: TokenType)
        ensures
            r == next_type(self.tokens@),
    {
        let n = self.tokens.len();
        if n == 0 {
            TokenType::EOF
        } else {
            self.tokens[n - 1].token_type
        }
    }

    /// A copy of the next token, without reading it.
    pub fn peek(&self) -> (r: Token)
        ensures
            r.token_type == next_type(self.tokens@),
            self.tokens.len() > 0 ==> r.lexeme@ == self.tokens@.last().lexeme@,
    {
        let n = self.tokens.len();
        if n == 0 {
            Token { token_type: TokenType::EOF, lexeme: String::new() }
        } else {
            Token {
                token_type: self.tokens[n - 1].token_type,
                lexeme: self.tokens[n - 1].lexeme.clone(),
            }
        }
    }

    /// Kinds of the next `n` tokens, in reading order.
    pub fn peek_n_type(&self, n: usize) -> (r: Vec<TokenType>)
        ensures
            r@ == upcoming(self.tokens@, n as nat),
    {
        let len = self.tokens.len();
        let k = if n <= len {
            n
        } else {
            len
        };
        let mut r: Vec<TokenType> = Vec::new();
        let mut i: usize = 0;
        while i < k
            invariant
                k <= len,
                len == self.tokens.len(),
                k == (if n <= len { n } else { len }),
                i <= k,
                r@ == upcoming(self.tokens@, n as nat).take(i as int),
            decreases k - i,
        {
            r.push(self.tokens[len - 1 - i].token_type);
            i += 1;
            proof {
                assert(r@ =~= upcoming(self.tokens@, n as nat).take(i as int));
            }
        }
        proof {
            assert(upcoming(self.tokens@, n as nat).take(k as int) =~= upcoming(self.tokens@, n as nat));
        }
        r
    }
}

} // verus!
