use vstd::prelude::*;

verus! {

/// A floating-point literal as it was written: `whole.frac`, where `frac`
/// stood as `frac_digits` decimal digits after the point.
///
/// Its value is `whole + frac / 10^frac_digits`. Both integer parts are
/// accumulated in wrapping 64-bit arithmetic, digit by digit.
#[derive(Clone, Copy, Debug, PartialEq, Eq, Structural)]
pub struct FloatLit {
    pub whole: i64,
    pub frac: i64,
    pub frac_digits: usize,
}

/// One lexical unit of the source text.
#[derive(Clone, Debug, PartialEq)]
pub enum Token {
    // keywords
    And,
    Break,
    Do,
    Else,
    Elseif,
    End,
    False,
    For,
    Function,
    Goto,
    If,
    In,
    Local,
    Nil,
    Not,
    Or,
    Repeat,
    Return,
    Then,
    True,
    Until,
    While,
    // +  -  *  /  %  ^  #
    Add,
    Sub,
    Mul,
    Div,
    Mod,
    Pow,
    Len,
    // &  ~  |  <<  >>  //
    BitAnd,
    BitXor,
    BitOr,
    ShiftL,
    ShiftR,
    Idiv,
    // ==  ~=  <=  >=  <  >  =
    Equal,
    NotEq,
    LesEq,
    GreEq,
    Less,
    Greater,
    Assign,
    // (  )  {  }  [  ]  ::
    ParL,
    ParR,
    CurlyL,
    CurlyR,
    SqurL,
    SqurR,
    DoubColon,
    // ;  :  ,  .  ..  ...
    SemiColon,
    Colon,
    Comma,
    Dot,
    Concat,
    Dots,
    // constant values
    Integer(i64),
    Float(FloatLit),
    String(Vec<u8>),
    // name of variables or table keys
    Name(String),
    // end of the input
    Eos,
}

/// What a token denotes: a payload-free token, or a literal with its value
/// as a mathematical sequence.
pub enum TokenView {
    Fixed(Token),
    Integer(i64),
    Float(FloatLit),
    Str(Seq<u8>),
    Name(Seq<char>),
}

impl View for Token {
    type V = TokenView;

    open spec fn view(&self) -> TokenView {
        match self {
            Token::Integer(n) => TokenView::Integer(*n),
            Token::Float(f) => TokenView::Float(*f),
            Token::String(b) => TokenView::Str(b@),
            Token::Name(s) => TokenView::Name(s@),
            _ => TokenView::Fixed(*self),
        }
    }
}

/// A construct of the language that this lexer recognises but does not handle.
#[derive(Clone, Copy, Debug, PartialEq, Eq, Structural)]
pub enum Feature {
    /// A backslash escape inside a string literal.
    Escape,
    /// A long-bracket comment, `--[`.
    LongComment,
    /// A hexadecimal number, `0x...`.
    HexNumber,
    /// A number with an exponent, `1e5`.
    Exponent,
}

/// Why a token could not be scanned.
#[derive(Clone, Copy, Debug, PartialEq, Eq, Structural)]
pub enum ErrorKind {
    /// A byte that starts no token.
    InvalidChar(u8),
    /// A string literal cut off by a newline or by the end of the input.
    UnfinishedString,
    /// A decimal integer followed directly by a letter.
    MalformedNumber,
    /// Well-formed input that uses a construct this lexer does not handle.
    Unsupported(Feature),
}

/// A fatal lexical error, with the byte offset where the offending token starts.
#[derive(Clone, Copy, Debug, PartialEq, Eq, Structural)]
pub struct LexError {
    pub kind: ErrorKind,
    pub pos: usize,
}

impl LexError {
    /// Whether the error reports a construct that is not handled, rather than
    /// malformed input.
    pub fn is_unsupported(&self) -> (r: bool)
        ensures
            r == (self.kind is Unsupported),
    {
        match self.kind {
            ErrorKind::Unsupported(_) => true,
            _ => false,
        }
    }
}

} // verus!
