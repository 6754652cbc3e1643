//! Terminal symbols of the CRN language.

use vstd::pervasive::unreached;
use vstd::prelude::*;

verus! {

/// A terminal symbol produced by the scanner: punctuation, operators, an
/// identifier carrying its raw lexeme, or a number carrying its value.
/// Tokens are immutable once produced.
#[derive(Debug)]
pub enum Terminal {
    LeftParen,
    RightParen,
    LeftBrace,
    RightBrace,
    LeftBracket,
    RightBracket,
    Plus,
    Star,
    SemiColon,
    Colon,
    Equal,
    Greater,
    Less,
    Minus,
    Slash,
    RightArrow,
    LeftArrow,
    LeftRightArrow,
    Tick,
    Comma,
    Identifier(String),
    Number(u64),
}

/// Mathematical view of a terminal: identifier text as a character sequence.
pub enum TokenView {
    LeftParen,
    RightParen,
    LeftBrace,
    RightBrace,
    LeftBracket,
    RightBracket,
    Plus,
    Star,
    SemiColon,
    Colon,
    Equal,
    Greater,
    Less,
    Minus,
    Slash,
    RightArrow,
    LeftArrow,
    LeftRightArrow,
    Tick,
    Comma,
    Identifier(Seq<char>),
    Number(u64),
}

impl View for Terminal {
    type V = TokenView;

    open spec fn view(&self) -> TokenView {
        match self {
            Terminal::LeftParen => TokenView::LeftParen,
            Terminal::RightParen => TokenView::RightParen,
            Terminal::LeftBrace => TokenView::LeftBrace,
            Terminal::RightBrace => TokenView::RightBrace,
            Terminal::LeftBracket => TokenView::LeftBracket,
            Terminal::RightBracket => TokenView::RightBracket,
            Terminal::Plus => TokenView::Plus,
            Terminal::Star => TokenView::Star,
            Terminal::SemiColon => TokenView::SemiColon,
            Terminal::Colon => TokenView::Colon,
            Terminal::Equal => TokenView::Equal,
            Terminal::Greater => TokenView::Greater,
            Terminal::Less => TokenView::Less,
            Terminal::Minus => TokenView::Minus,
            Terminal::Slash => TokenView::Slash,
            Terminal::RightArrow => TokenView::RightArrow,
            Terminal::LeftArrow => TokenView::LeftArrow,
            Terminal::LeftRightArrow => TokenView::LeftRightArrow,
            Terminal::Tick => TokenView::Tick,
            Terminal::Comma => TokenView::Comma,
            Terminal::Identifier(s) => TokenView::Identifier(s@),
            Terminal::Number(n) => TokenView::Number(*n),
        }
    }
}

impl Terminal {
    /// True of a `Number` token.
    pub fn is_number(&self) -> (b: bool)
        ensures
            b == (self@ is Number),
    {
        matches!(self, Terminal::Number(_))
    }

    /// True of an `Identifier` token.
    pub fn is_identifier(&self) -> (b: bool)
        ensures
            b == (self@ is Identifier),
    {
        matches!(self, Terminal::Identifier(_))
    }

    /// The value of a `Number` token; defined only for numbers.
    pub fn get_number(self) -> (n: u64)
        requires
            self@ is Number,
        ensures
            self@ == TokenView::Number(n),
    {
        match self {
            Terminal::Number(n) => n,
            _ => unreached(),
        }
    }

    /// The lexeme of an `Identifier` token, or `None` for any other token.
    pub fn get_identifier(self) -> (r: Option<String>)
        ensures
            r is Some <==> self@ is Identifier,
            r matches Some(s) ==> self@ == TokenView::Identifier(s@),
    {
        match self {
            Terminal::Identifier(s) => Some(s),
            _ => None,
        }
    }
}

/// True of the four yield operators `->`, `<-`, `<->` and `=`.
pub open spec fn spec_is_yield_symbol(t: TokenView) -> bool {
    ||| t is RightArrow
    ||| t is LeftArrow
    ||| t is LeftRightArrow
    ||| t is Equal
}

/// True when `s` is one of the yield operators joining the two complexes of
/// a reaction.
pub fn is_yield_symbol(s: &Terminal) -> (b: bool)
    ensures
        b == spec_is_yield_symbol(s@),
{
    match s {
        Terminal::RightArrow => true,
        Terminal::LeftArrow => true,
        Terminal::LeftRightArrow => true,
        Terminal::Equal => true,
        _ => false,
    }
}

} // verus!
