use vstd::prelude::*;

verus! {

/// The closed set of token categories. Three variants carry a payload
/// (an identifier name, a string literal's contents, a numeric value);
/// the rest are pure tags.
#[derive(Debug)]
pub enum TokenType {
    LeftParen,
    RightParen,
    LeftBrace,
    RightBrace,
    Comma,
    Dot,
    Minus,
    Plus,
    Semicolon,
    Slash,
    Star,
    Bang,
    BangEqual,
    Equal,
    EqualEqual,
    Greater,
    GreaterEqual,
    Less,
    LessEqual,
    Identifier(String),
    String(String),
    Number(i64),
    And,
    Class,
    Else,
    False,
    Fun,
    For,
    If,
    Nil,
    Or,
    Print,
    Return,
    Super,
    This,
    True,
    Var,
    While,
    Eof,
}

/// Mathematical model of a token category: payloads become sequences of
/// characters, everything else is carried over unchanged.
pub enum TokenTypeV {
    LeftParen,
    RightParen,
    LeftBrace,
    RightBrace,
    Comma,
    Dot,
    Minus,
    Plus,
    Semicolon,
    Slash,
    Star,
    Bang,
    BangEqual,
    Equal,
    EqualEqual,
    Greater,
    GreaterEqual,
    Less,
    LessEqual,
    Identifier(Seq<char>),
    StrLit(Seq<char>),
    Number(i64),
    And,
    Class,
    Else,
    False,
    Fun,
    For,
    If,
    Nil,
    Or,
    Print,
    Return,
    Super,
    This,
    True,
    Var,
    While,
    Eof,
}

impl View for TokenType {
    type V = TokenTypeV;

    open spec fn view(&self) -> TokenTypeV {
        match self {
            TokenType::LeftParen => TokenTypeV::LeftParen,
            TokenType::RightParen => TokenTypeV::RightParen,
            TokenType::LeftBrace => TokenTypeV::LeftBrace,
            TokenType::RightBrace => TokenTypeV::RightBrace,
            TokenType::Comma => TokenTypeV::Comma,
            TokenType::Dot => TokenTypeV::Dot,
            TokenType::Minus => TokenTypeV::Minus,
            TokenType::Plus => TokenTypeV::Plus,
            TokenType::Semicolon => TokenTypeV::Semicolon,
            TokenType::Slash => TokenTypeV::Slash,
            TokenType::Star => TokenTypeV::Star,
            TokenType::Bang => TokenTypeV::Bang,
            TokenType::BangEqual => TokenTypeV::BangEqual,
            TokenType::Equal => TokenTypeV::Equal,
            TokenType::EqualEqual => TokenTypeV::EqualEqual,
            TokenType::Greater => TokenTypeV::Greater,
            TokenType::GreaterEqual => TokenTypeV::GreaterEqual,
            TokenType::Less => TokenTypeV::Less,
            TokenType::LessEqual => TokenTypeV::LessEqual,
            TokenType::Identifier(s) => TokenTypeV::Identifier(s@),
            TokenType::String(s) => TokenTypeV::StrLit(s@),
            TokenType::Number(n) => TokenTypeV::Number(*n),
            TokenType::And => TokenTypeV::And,
            TokenType::Class => TokenTypeV::Class,
            TokenType::Else => TokenTypeV::Else,
            TokenType::False => TokenTypeV::False,
            TokenType::Fun => TokenTypeV::Fun,
            TokenType::For => TokenTypeV::For,
            TokenType::If => TokenTypeV::If,
            TokenType::Nil => TokenTypeV::Nil,
            TokenType::Or => TokenTypeV::Or,
            TokenType::Print => TokenTypeV::Print,
            TokenType::Return => TokenTypeV::Return,
            TokenType::Super => TokenTypeV::Super,
            TokenType::This => TokenTypeV::This,
            TokenType::True => TokenTypeV::True,
            TokenType::Var => TokenTypeV::Var,
            TokenType::While => TokenTypeV::While,
            TokenType::Eof => TokenTypeV::Eof,
        }
    }
}

/// One scanned token: its category, the exact source substring it was
/// scanned from, and the line it started on.
#[derive(Debug)]
pub struct Token {
    pub token_type: TokenType,
    pub lexeme: String,
    pub line: u64,
}

/// Mathematical model of a token.
pub struct TokenV {
    pub ty: TokenTypeV,
    pub lexeme: Seq<char>,
    pub line: u64,
}

impl View for Token {
    type V = TokenV;

    open spec fn view(&self) -> TokenV {
        TokenV { ty: self.token_type@, lexeme: self.lexeme@, line: self.line }
    }
}

impl Token {
    pub fn new(token_type: TokenType, lexeme: String, line: u64) -> (t: Token)
        ensures
            t@ == (TokenV { ty: token_type@, lexeme: lexeme@, line }),
    {
        Token { token_type, lexeme, line }
    }
}

/// Payload-free tag identifying a token's grammatical category. Grammar
/// matching compares tags only: two payload-carrying tokens of the same
/// category match regardless of payload.
#[derive(Clone, Copy, Debug, PartialEq, Eq, Structural)]
pub enum TokenKind {
    LeftParen,
    RightParen,
    LeftBrace,
    RightBrace,
    Comma,
    Dot,
    Minus,
    Plus,
    Semicolon,
    Slash,
    Star,
    Bang,
    BangEqual,
    Equal,
    EqualEqual,
    Greater,
    GreaterEqual,
    Less,
    LessEqual,
    Identifier,
    StrLit,
    Number,
    And,
    Class,
    Else,
    False,
    Fun,
    For,
    If,
    Nil,
    Or,
    Print,
    Return,
    Super,
    This,
    True,
    Var,
    While,
    Eof,
}

/// The tag of a modelled token category.
pub open spec fn spec_kind_of(t: TokenTypeV) -> TokenKind {
    match t {
        TokenTypeV::LeftParen => TokenKind::LeftParen,
        TokenTypeV::RightParen => TokenKind::RightParen,
        TokenTypeV::LeftBrace => TokenKind::LeftBrace,
        TokenTypeV::RightBrace => TokenKind::RightBrace,
        TokenTypeV::Comma => TokenKind::Comma,
        TokenTypeV::Dot => TokenKind::Dot,
        TokenTypeV::Minus => TokenKind::Minus,
        TokenTypeV::Plus => TokenKind::Plus,
        TokenTypeV::Semicolon => TokenKind::Semicolon,
        TokenTypeV::Slash => TokenKind::Slash,
        TokenTypeV::Star => TokenKind::Star,
        TokenTypeV::Bang => TokenKind::Bang,
        TokenTypeV::BangEqual => TokenKind::BangEqual,
        TokenTypeV::Equal => TokenKind::Equal,
        TokenTypeV::EqualEqual => TokenKind::EqualEqual,
        TokenTypeV::Greater => TokenKind::Greater,
        TokenTypeV::GreaterEqual => TokenKind::GreaterEqual,
        TokenTypeV::Less => TokenKind::Less,
        TokenTypeV::LessEqual => TokenKind::LessEqual,
        TokenTypeV::Identifier(_) => TokenKind::Identifier,
        TokenTypeV::StrLit(_) => TokenKind::StrLit,
        TokenTypeV::Number(_) => TokenKind::Number,
        TokenTypeV::And => TokenKind::And,
        TokenTypeV::Class => TokenKind::Class,
        TokenTypeV::Else => TokenKind::Else,
        TokenTypeV::False => TokenKind::False,
        TokenTypeV::Fun => TokenKind::Fun,
        TokenTypeV::For => TokenKind::For,
        TokenTypeV::If => TokenKind::If,
        TokenTypeV::Nil => TokenKind::Nil,
        TokenTypeV::Or => TokenKind::Or,
        TokenTypeV::Print => TokenKind::Print,
        TokenTypeV::Return => TokenKind::Return,
        TokenTypeV::Super => TokenKind::Super,
        TokenTypeV::This => TokenKind::This,
        TokenTypeV::True => TokenKind::True,
        TokenTypeV::Var => TokenKind::Var,
        TokenTypeV::While => TokenKind::While,
        TokenTypeV::Eof => TokenKind::Eof,
    }
}

impl Token {
    /// The payload-free tag of this token's category.
    pub fn kind(&self) -> (k: TokenKind)
        ensures
            k == spec_kind_of(self@.ty),
    {
        match &self.token_type {
            TokenType::LeftParen => TokenKind::LeftParen,
            TokenType::RightParen => TokenKind::RightParen,
            TokenType::LeftBrace => TokenKind::LeftBrace,
            TokenType::RightBrace => TokenKind::RightBrace,
            TokenType::Comma => TokenKind::Comma,
            TokenType::Dot => TokenKind::Dot,
            TokenType::Minus => TokenKind::Minus,
            TokenType::Plus => TokenKind::Plus,
            TokenType::Semicolon => TokenKind::Semicolon,
            TokenType::Slash => TokenKind::Slash,
            TokenType::Star => TokenKind::Star,
            TokenType::Bang => TokenKind::Bang,
            TokenType::BangEqual => TokenKind::BangEqual,
            TokenType::Equal => TokenKind::Equal,
            TokenType::EqualEqual => TokenKind::EqualEqual,
            TokenType::Greater => TokenKind::Greater,
            TokenType::GreaterEqual => TokenKind::GreaterEqual,
            TokenType::Less => TokenKind::Less,
            TokenType::LessEqual => TokenKind::LessEqual,
            TokenType::Identifier(_) => TokenKind::Identifier,
            TokenType::String(_) => TokenKind::StrLit,
            TokenType::Number(_) => TokenKind::Number,
            TokenType::And => TokenKind::And,
            TokenType::Class => TokenKind::Class,
            TokenType::Else => TokenKind::Else,
            TokenType::False => TokenKind::False,
            TokenType::Fun => TokenKind::Fun,
            TokenType::For => TokenKind::For,
            TokenType::If => TokenKind::If,
            TokenType::Nil => TokenKind::Nil,
            TokenType::Or => TokenKind::Or,
            TokenType::Print => TokenKind::Print,
            TokenType::Return => TokenKind::Return,
            TokenType::Super => TokenKind::Super,
            TokenType::This => TokenKind::This,
            TokenType::True => TokenKind::True,
            TokenType::Var => TokenKind::Var,
            TokenType::While => TokenKind::While,
            TokenType::Eof => TokenKind::Eof,
        }
    }

    /// An owned copy of this token with the same model.
    pub fn duplicate(&self) -> (r: Token)
        ensures
            r@ == self@,
    {
        let token_type = match &self.token_type {
            TokenType::LeftParen => TokenType::LeftParen,
            TokenType::RightParen => TokenType::RightParen,
            TokenType::LeftBrace => TokenType::LeftBrace,
            TokenType::RightBrace => TokenType::RightBrace,
            TokenType::Comma => TokenType::Comma,
            TokenType::Dot => TokenType::Dot,
            TokenType::Minus => TokenType::Minus,
            TokenType::Plus => TokenType::Plus,
            TokenType::Semicolon => TokenType::Semicolon,
            TokenType::Slash => TokenType::Slash,
            TokenType::Star => TokenType::Star,
            TokenType::Bang => TokenType::Bang,
            TokenType::BangEqual => TokenType::BangEqual,
            TokenType::Equal => TokenType::Equal,
            TokenType::EqualEqual => TokenType::EqualEqual,
            TokenType::Greater => TokenType::Greater,
            TokenType::GreaterEqual => TokenType::GreaterEqual,
            TokenType::Less => TokenType::Less,
            TokenType::LessEqual => TokenType::LessEqual,
            TokenType::Identifier(s) => TokenType::Identifier(s.clone()),
            TokenType::String(s) => TokenType::String(s.clone()),
            TokenType::Number(n) => TokenType::Number(*n),
            TokenType::And => TokenType::And,
            TokenType::Class => TokenType::Class,
            TokenType::Else => TokenType::Else,
            TokenType::False => TokenType::False,
            TokenType::Fun => TokenType::Fun,
            TokenType::For => TokenType::For,
            TokenType::If => TokenType::If,
            TokenType::Nil => TokenType::Nil,
            TokenType::Or => TokenType::Or,
            TokenType::Print => TokenType::Print,
            TokenType::Return => TokenType::Return,
            TokenType::Super => TokenType::Super,
            TokenType::This => TokenType::This,
            TokenType::True => TokenType::True,
            TokenType::Var => TokenType::Var,
            TokenType::While => TokenType::While,
            TokenType::Eof => TokenType::Eof,
        };
        Token { token_type, lexeme: self.lexeme.clone(), line: self.line }
    }
}

} // verus!
