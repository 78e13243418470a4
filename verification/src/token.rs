use vstd::prelude::*;

verus! {

/// The kinds of tokens that the scanner produces and the parser reads.
#[derive(Clone, Copy, Debug, PartialEq, Eq, Structural)]
pub enum TokenType {
    LeftParen,
    RightParen,
    LeftBracket,
    RightBracket,
    Comma,
    Dot,
    Colon,
    Semicolon,
    Minus,
    Plus,
    PlusEqual,
    MinusEqual,
    Random,
    Slash,
    Star,
    Power,
    Cube,
    Root,
    CubicRoot,
    Bang,
    BangEqual,
    Equal,
    EqualEqual,
    Greater,
    GreaterEqual,
    Less,
    LessEqual,
    Increment,
    Decrement,
    Percent,
    Power2,
    Root2,
    Pipe,
    Identifier,
    StringLit,
    Number,
    And,
    Or,
    Nor,
    Xor,
    False,
    True,
    Nil,
    Var,
    Fun,
    Start,
    End,
    Print,
    Errors,
    Exits,
    Import,
    If,
    Elif,
    Else,
    While,
    Wait,
    Before,
    Bench,
    For,
    Return,
    Break,
    Eof,
}

/// The name of a token kind, as it is shown in diagnostics.
pub open spec fn kind_name(t: TokenType) -> Seq<char> {
    match t {
        TokenType::LeftParen => "LeftParen"@,
        TokenType::RightParen => "RightParen"@,
        TokenType::LeftBracket => "LeftBracket"@,
        TokenType::RightBracket => "RightBracket"@,
        TokenType::Comma => "Comma"@,
        TokenType::Dot => "Dot"@,
        TokenType::Colon => "Colon"@,
        TokenType::Semicolon => "Semicolon"@,
        TokenType::Minus => "Minus"@,
        TokenType::Plus => "Plus"@,
        TokenType::PlusEqual => "PlusEqual"@,
        TokenType::MinusEqual => "MinusEqual"@,
        TokenType::Random => "Random"@,
        TokenType::Slash => "Slash"@,
        TokenType::Star => "Star"@,
        TokenType::Power => "Power"@,
        TokenType::Cube => "Cube"@,
        TokenType::Root => "Root"@,
        TokenType::CubicRoot => "CubicRoot"@,
        TokenType::Bang => "Bang"@,
        TokenType::BangEqual => "BangEqual"@,
        TokenType::Equal => "Equal"@,
        TokenType::EqualEqual => "EqualEqual"@,
        TokenType::Greater => "Greater"@,
        TokenType::GreaterEqual => "GreaterEqual"@,
        TokenType::Less => "Less"@,
        TokenType::LessEqual => "LessEqual"@,
        TokenType::Increment => "Increment"@,
        TokenType::Decrement => "Decrement"@,
        TokenType::Percent => "Percent"@,
        TokenType::Power2 => "Power2"@,
        TokenType::Root2 => "Root2"@,
        TokenType::Pipe => "Pipe"@,
        TokenType::Identifier => "Identifier"@,
        TokenType::StringLit => "StringLit"@,
        TokenType::Number => "Number"@,
        TokenType::And => "And"@,
        TokenType::Or => "Or"@,
        TokenType::Nor => "Nor"@,
        TokenType::Xor => "Xor"@,
        TokenType::False => "False"@,
        TokenType::True => "True"@,
        TokenType::Nil => "Nil"@,
        TokenType::Var => "Var"@,
        TokenType::Fun => "Fun"@,
        TokenType::Start => "Start"@,
        TokenType::End => "End"@,
        TokenType::Print => "Print"@,
        TokenType::Errors => "Errors"@,
        TokenType::Exits => "Exits"@,
        TokenType::Import => "Import"@,
        TokenType::If => "If"@,
        TokenType::Elif => "Elif"@,
        TokenType::Else => "Else"@,
        TokenType::While => "While"@,
        TokenType::Wait => "Wait"@,
        TokenType::Before => "Before"@,
        TokenType::Bench => "Bench"@,
        TokenType::For => "For"@,
        TokenType::Return => "Return"@,
        TokenType::Break => "Break"@,
        TokenType::Eof => "Eof"@,
    }
}

impl TokenType {
    /// The name of this token kind, as it is shown in diagnostics.
    pub fn name(&self) -> (s: &'static str)
        ensures
            s@ == kind_name(*self),
    {
        match self {
            TokenType::LeftParen => "LeftParen",
            TokenType::RightParen => "RightParen",
            TokenType::LeftBracket => "LeftBracket",
            TokenType::RightBracket => "RightBracket",
            TokenType::Comma => "Comma",
            TokenType::Dot => "Dot",
            TokenType::Colon => "Colon",
            TokenType::Semicolon => "Semicolon",
            TokenType::Minus => "Minus",
            TokenType::Plus => "Plus",
            TokenType::PlusEqual => "PlusEqual",
            TokenType::MinusEqual => "MinusEqual",
            TokenType::Random => "Random",
            TokenType::Slash => "Slash",
            TokenType::Star => "Star",
            TokenType::Power => "Power",
            TokenType::Cube => "Cube",
            TokenType::Root => "Root",
            TokenType::CubicRoot => "CubicRoot",
            TokenType::Bang => "Bang",
            TokenType::BangEqual => "BangEqual",
            TokenType::Equal => "Equal",
            TokenType::EqualEqual => "EqualEqual",
            TokenType::Greater => "Greater",
            TokenType::GreaterEqual => "GreaterEqual",
            TokenType::Less => "Less",
            TokenType::LessEqual => "LessEqual",
            TokenType::Increment => "Increment",
            TokenType::Decrement => "Decrement",
            TokenType::Percent => "Percent",
            TokenType::Power2 => "Power2",
            TokenType::Root2 => "Root2",
            TokenType::Pipe => "Pipe",
            TokenType::Identifier => "Identifier",
            TokenType::StringLit => "StringLit",
            TokenType::Number => "Number",
            TokenType::And => "And",
            TokenType::Or => "Or",
            TokenType::Nor => "Nor",
            TokenType::Xor => "Xor",
            TokenType::False => "False",
            TokenType::True => "True",
            TokenType::Nil => "Nil",
            TokenType::Var => "Var",
            TokenType::Fun => "Fun",
            TokenType::Start => "Start",
            TokenType::End => "End",
            TokenType::Print => "Print",
            TokenType::Errors => "Errors",
            TokenType::Exits => "Exits",
            TokenType::Import => "Import",
            TokenType::If => "If",
            TokenType::Elif => "Elif",
            TokenType::Else => "Else",
            TokenType::While => "While",
            TokenType::Wait => "Wait",
            TokenType::Before => "Before",
            TokenType::Bench => "Bench",
            TokenType::For => "For",
            TokenType::Return => "Return",
            TokenType::Break => "Break",
            TokenType::Eof => "Eof",
        }
    }
}

/// A scanned token: its kind, its text, the line it stands on and, for
/// string and number literals, the value the scanner read from it.
#[derive(Debug, PartialEq, Eq)]
pub struct Token {
    pub token_type: TokenType,
    pub lexeme: String,
    pub line_number: usize,
    pub literal: Option<String>,
}

/// The mathematical value of a token.
pub struct TokenView {
    pub token_type: TokenType,
    pub lexeme: Seq<char>,
    pub line_number: usize,
    pub literal: Option<Seq<char>>,
}

/// The view of an optional string.
pub open spec fn opt_str_view(s: Option<String>) -> Option<Seq<char>> {
    match s {
        Some(x) => Some(x@),
        None => None,
    }
}

impl View for Token {
    type V = TokenView;

    open spec fn view(&self) -> TokenView {
        TokenView {
            token_type: self.token_type,
            lexeme: self.lexeme@,
            line_number: self.line_number,
            literal: opt_str_view(self.literal),
        }
    }
}

impl Clone for Token {
    fn clone(&self) -> (res: Self)
        ensures
            res == *self,
    {
        let literal = match &self.literal {
            Some(s) => Some(s.clone()),
            None => None,
        };
        Token {
            token_type: self.token_type,
            lexeme: self.lexeme.clone(),
            line_number: self.line_number,
            literal,
        }
    }
}

} // verus!
