use vstd::prelude::*;

verus! {

/// A lexical unit of the language.
#[derive(Debug, Clone)]
pub enum Token {
    /// No rule of the lexer matches the remaining text.
    SyntaxError,
    /// The `state` keyword: show the variables and the unread text.
    State,
    /// The `exit` keyword: stop the session.
    Exit,
    /// The `del` keyword, reserved.
    Del,
    /// The `None` keyword.
    NoneT,
    /// A literal with a decimal point, as written.
    Float(String),
    /// A literal without a decimal point.
    Int(i64),
    /// An identifier.
    Variable(String),
    /// A run of spaces, with its length.
    WhiteSpace(usize),
    /// The end of a line: the end of a statement.
    NewLine,
    Plus,
    Minus,
    Multiply,
    Divide,
    Exponent,
    Equals,
    OpenParen,
    CloseParen,
    /// No text is left to read: a fresh line is needed.
    EndOfInput,
}

/// The mathematical value of a token.
pub enum TokenV {
    SyntaxError,
    State,
    Exit,
    Del,
    NoneT,
    Float(Seq<char>),
    Int(i64),
    Variable(Seq<char>),
    WhiteSpace(nat),
    NewLine,
    Plus,
    Minus,
    Multiply,
    Divide,
    Exponent,
    Equals,
    OpenParen,
    CloseParen,
    EndOfInput,
}

impl View for Token {
    type V = TokenV;

    open spec fn view(&self) -> TokenV {
        match self {
            Token::SyntaxError => TokenV::SyntaxError,
            Token::State => TokenV::State,
            Token::Exit => TokenV::Exit,
            Token::Del => TokenV::Del,
            Token::NoneT => TokenV::NoneT,
            Token::Float(s) => TokenV::Float(s@),
            Token::Int(v) => TokenV::Int(*v),
            Token::Variable(s) => TokenV::Variable(s@),
            Token::WhiteSpace(n) => TokenV::WhiteSpace(*n as nat),
            Token::NewLine => TokenV::NewLine,
            Token::Plus => TokenV::Plus,
            Token::Minus => TokenV::Minus,
            Token::Multiply => TokenV::Multiply,
            Token::Divide => TokenV::Divide,
            Token::Exponent => TokenV::Exponent,
            Token::Equals => TokenV::Equals,
            Token::OpenParen => TokenV::OpenParen,
            Token::CloseParen => TokenV::CloseParen,
            Token::EndOfInput => TokenV::EndOfInput,
        }
    }
}

impl Token {
    /// A copy of this token.
    pub fn duplicate(&self) -> (r: Token)
        ensures
            r@ == self@,
    {
        match self {
            Token::SyntaxError => Token::SyntaxError,
            Token::State => Token::State,
            Token::Exit => Token::Exit,
            Token::Del => Token::Del,
            Token::NoneT => Token::NoneT,
            Token::Float(s) => Token::Float(s.clone()),
            Token::Int(v) => Token::Int(*v),
            Token::Variable(s) => Token::Variable(s.clone()),
            Token::WhiteSpace(n) => Token::WhiteSpace(*n),
            Token::NewLine => Token::NewLine,
            Token::Plus => Token::Plus,
            Token::Minus => Token::Minus,
            Token::Multiply => Token::Multiply,
            Token::Divide => Token::Divide,
            Token::Exponent => Token::Exponent,
            Token::Equals => Token::Equals,
            Token::OpenParen => Token::OpenParen,
            Token::CloseParen => Token::CloseParen,
            Token::EndOfInput => Token::EndOfInput,
        }
    }

    /// Whether this token is a run of spaces.
    pub fn is_whitespace(&self) -> (r: bool)
        ensures
            r == self@ is WhiteSpace,
    {
        match self {
            Token::WhiteSpace(_) => true,
            _ => false,
        }
    }
}

} // verus!
