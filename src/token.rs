use vstd::prelude::*;

verus! {

/// The kind of a bracket pair.
#[derive(Clone, Copy, Debug, PartialEq, Eq, Structural, Hash)]
pub enum Delim {
    Paren,
    Bracket,
    Brace,
}

/// An operator or separator.
#[derive(Clone, Copy, Debug, PartialEq, Eq, Structural, Hash)]
pub enum Punct {
    NotEq,
    Not,
    AndAnd,
    StarEq,
    Star,
    PlusEq,
    Plus,
    Comma,
    MinusEq,
    Arrow,
    Minus,
    DotDot,
    Dot,
    SlashEq,
    Slash,
    ColonColon,
    Colon,
    Semi,
    LtEq,
    Lt,
    EqEq,
    FatArrow,
    Eq,
    GtEq,
    Gt,
    Question,
    AndEq,
    And,
    OrEq,
    Or,
    CaretEq,
    Caret,
}

/// A classified lexeme. A float keeps its decimal text (always of the form
/// `-? DIGIT* ('.' DIGIT*)? (('e'|'E') ('+'|'-')? DIGIT+)?`), so the caller
/// picks the precision it converts to.
#[derive(Clone, Debug, PartialEq, Eq, Hash)]
pub enum Token {
    EndOfInput,
    Identifier(u64),
    StringLiteral { index: usize, len: usize },
    Integer(i64),
    Float(Vec<char>),
    Boolean(bool),
    Color(u32),
    Punctuation(Punct),
    Open(Delim),
    Close(Delim),
}

/// A token as the contracts see it: the float text as a sequence.
pub enum TokenView {
    EndOfInput,
    Identifier(u64),
    StringLiteral { index: int, len: int },
    Integer(int),
    Float(Seq<char>),
    Boolean(bool),
    Color(u32),
    Punctuation(Punct),
    Open(Delim),
    Close(Delim),
}

impl Token {
    pub open spec fn view(&self) -> TokenView {
        match self {
            Token::EndOfInput => TokenView::EndOfInput,
            Token::Identifier(id) => TokenView::Identifier(*id),
            Token::StringLiteral { index, len } => TokenView::StringLiteral {
                index: *index as int,
                len: *len as int,
            },
            Token::Integer(v) => TokenView::Integer(*v as int),
            Token::Float(t) => TokenView::Float(t@),
            Token::Boolean(b) => TokenView::Boolean(*b),
            Token::Color(c) => TokenView::Color(*c),
            Token::Punctuation(p) => TokenView::Punctuation(*p),
            Token::Open(d) => TokenView::Open(*d),
            Token::Close(d) => TokenView::Close(*d),
        }
    }

    pub fn is_end_of_input(&self) -> (r: bool)
        ensures
            r == (self@ is EndOfInput),
    {
        match self {
            Token::EndOfInput => true,
            _ => false,
        }
    }
}

/// A token and the span of its lexeme.
#[derive(Clone, Debug, PartialEq, Eq, Hash)]
pub struct TokenWithSpan {
    pub span: crate::span::Span,
    pub token: Token,
}

/// The text of an operator.
pub open spec fn punct_text(p: Punct) -> Seq<char> {
    match p {
        Punct::NotEq => seq!['!', '='],
        Punct::Not => seq!['!'],
        Punct::AndAnd => seq!['&', '&'],
        Punct::StarEq => seq!['*', '='],
        Punct::Star => seq!['*'],
        Punct::PlusEq => seq!['+', '='],
        Punct::Plus => seq!['+'],
        Punct::Comma => seq![','],
        Punct::MinusEq => seq!['-', '='],
        Punct::Arrow => seq!['-', '>'],
        Punct::Minus => seq!['-'],
        Punct::DotDot => seq!['.', '.'],
        Punct::Dot => seq!['.'],
        Punct::SlashEq => seq!['/', '='],
        Punct::Slash => seq!['/'],
        Punct::ColonColon => seq![':', ':'],
        Punct::Colon => seq![':'],
        Punct::Semi => seq![';'],
        Punct::LtEq => seq!['<', '='],
        Punct::Lt => seq!['<'],
        Punct::EqEq => seq!['=', '='],
        Punct::FatArrow => seq!['=', '>'],
        Punct::Eq => seq!['='],
        Punct::GtEq => seq!['>', '='],
        Punct::Gt => seq!['>'],
        Punct::Question => seq!['?'],
        Punct::AndEq => seq!['&', '='],
        Punct::And => seq!['&'],
        Punct::OrEq => seq!['|', '='],
        Punct::Or => seq!['|'],
        Punct::CaretEq => seq!['^', '='],
        Punct::Caret => seq!['^'],
    }
}

/// The two-character operator spelled `c0 c1`, if there is one.
pub open spec fn two_char_punct(c0: char, c1: char) -> Option<Punct> {
    if c1 == '=' {
        match c0 {
            '!' => Some(Punct::NotEq),
            '*' => Some(Punct::StarEq),
            '+' => Some(Punct::PlusEq),
            '-' => Some(Punct::MinusEq),
            '/' => Some(Punct::SlashEq),
            '<' => Some(Punct::LtEq),
            '=' => Some(Punct::EqEq),
            '>' => Some(Punct::GtEq),
            '&' => Some(Punct::AndEq),
            '|' => Some(Punct::OrEq),
            '^' => Some(Punct::CaretEq),
            _ => None,
        }
    } else if c0 == '&' && c1 == '&' {
        Some(Punct::AndAnd)
    } else if c0 == '-' && c1 == '>' {
        Some(Punct::Arrow)
    } else if c0 == '.' && c1 == '.' {
        Some(Punct::DotDot)
    } else if c0 == ':' && c1 == ':' {
        Some(Punct::ColonColon)
    } else if c0 == '=' && c1 == '>' {
        Some(Punct::FatArrow)
    } else {
        None
    }
}

/// The one-character operator spelled `c`, if there is one.
pub open spec fn one_char_punct(c: char) -> Option<Punct> {
    match c {
        '!' => Some(Punct::Not),
        '*' => Some(Punct::Star),
        '+' => Some(Punct::Plus),
        ',' => Some(Punct::Comma),
        '-' => Some(Punct::Minus),
        '.' => Some(Punct::Dot),
        '/' => Some(Punct::Slash),
        ':' => Some(Punct::Colon),
        ';' => Some(Punct::Semi),
        '<' => Some(Punct::Lt),
        '=' => Some(Punct::Eq),
        '>' => Some(Punct::Gt),
        '?' => Some(Punct::Question),
        '&' => Some(Punct::And),
        '|' => Some(Punct::Or),
        '^' => Some(Punct::Caret),
        _ => None,
    }
}

/// Looks up the two-character operator `c0 c1`.
pub fn match_two_char_punct(c0: char, c1: char) -> (r: Option<Punct>)
    ensures
        r == two_char_punct(c0, c1),
{
    if c1 == '=' {
        match c0 {
            '!' => Some(Punct::NotEq),
            '*' => Some(Punct::StarEq),
            '+' => Some(Punct::PlusEq),
            '-' => Some(Punct::MinusEq),
            '/' => Some(Punct::SlashEq),
            '<' => Some(Punct::LtEq),
            '=' => Some(Punct::EqEq),
            '>' => Some(Punct::GtEq),
            '&' => Some(Punct::AndEq),
            '|' => Some(Punct::OrEq),
            '^' => Some(Punct::CaretEq),
            _ => None,
        }
    } else if c0 == '&' && c1 == '&' {
        Some(Punct::AndAnd)
    } else if c0 == '-' && c1 == '>' {
        Some(Punct::Arrow)
    } else if c0 == '.' && c1 == '.' {
        Some(Punct::DotDot)
    } else if c0 == ':' && c1 == ':' {
        Some(Punct::ColonColon)
    } else if c0 == '=' && c1 == '>' {
        Some(Punct::FatArrow)
    } else {
        None
    }
}

/// Looks up the one-character operator `c`.
pub fn match_one_char_punct(c: char) -> (r: Option<Punct>)
    ensures
        r == one_char_punct(c),
{
    match c {
        '!' => Some(Punct::Not),
        '*' => Some(Punct::Star),
        '+' => Some(Punct::Plus),
        ',' => Some(Punct::Comma),
        '-' => Some(Punct::Minus),
        '.' => Some(Punct::Dot),
        '/' => Some(Punct::Slash),
        ':' => Some(Punct::Colon),
        ';' => Some(Punct::Semi),
        '<' => Some(Punct::Lt),
        '=' => Some(Punct::Eq),
        '>' => Some(Punct::Gt),
        '?' => Some(Punct::Question),
        '&' => Some(Punct::And),
        '|' => Some(Punct::Or),
        '^' => Some(Punct::Caret),
        _ => None,
    }
}

/// Every operator the tables give is spelled by the characters it was looked up by.
pub proof fn lemma_punct_spelling(c0: char, c1: char)
    ensures
        two_char_punct(c0, c1) matches Some(p) ==> punct_text(p) == seq![c0, c1],
        one_char_punct(c0) matches Some(p) ==> punct_text(p) == seq![c0],
{
}

} // verus!
