//! The tokens of the language.
use vstd::prelude::*;

verus! {

/// A token kind. Keywords and operators have a Chinese and an English spelling;
/// `BuiltInFunc` carries the English name of a built-in function or magic method.
#[derive(Debug, PartialEq, Clone)]
pub enum Token {
    Def,
    If,
    Else,
    Elif,
    For,
    While,
    In,
    Is,
    Not,
    And,
    Or,
    /// The keyword `None` / `空`.
    NoneKw,
    True,
    False,
    Return,
    Break,
    Continue,
    Pass,
    Import,
    From,
    As,
    Class,
    Try,
    Except,
    Finally,
    Raise,
    Assert,
    Del,
    Global,
    Nonlocal,
    Lambda,
    Yield,
    Await,
    Async,
    With,
    Match,
    Case,
    BuiltInFunc(String),
    Identifier,
    Float,
    Integer,
    ChineseNumber,
    String,
    Pow,
    FloorDiv,
    Mod,
    Equal,
    Plus,
    Minus,
    Star,
    Slash,
    BitwiseAnd,
    BitwiseOr,
    BitwiseXor,
    BitwiseNot,
    LeftShift,
    RightShift,
    Dot,
    LParen,
    RParen,
    Colon,
    Comma,
    DoubleEqual,
    NotEqual,
    Less,
    LessEqual,
    Greater,
    GreaterEqual,
    LBracket,
    RBracket,
    LBrace,
    RBrace,
    Newline,
    Comment,
    Indent,
    Dedent,
    Error,
}

/// A number that tells token kinds apart (the payload of `BuiltInFunc` is ignored).
pub open spec fn kind(t: Token) -> u8 {
    match t {
        Token::Def => 0u8,
        Token::If => 1u8,
        Token::Else => 2u8,
        Token::Elif => 3u8,
        Token::For => 4u8,
        Token::While => 5u8,
        Token::In => 6u8,
        Token::Is => 7u8,
        Token::Not => 8u8,
        Token::And => 9u8,
        Token::Or => 10u8,
        Token::NoneKw => 11u8,
        Token::True => 12u8,
        Token::False => 13u8,
        Token::Return => 14u8,
        Token::Break => 15u8,
        Token::Continue => 16u8,
        Token::Pass => 17u8,
        Token::Import => 18u8,
        Token::From => 19u8,
        Token::As => 20u8,
        Token::Class => 21u8,
        Token::Try => 22u8,
        Token::Except => 23u8,
        Token::Finally => 24u8,
        Token::Raise => 25u8,
        Token::Assert => 26u8,
        Token::Del => 27u8,
        Token::Global => 28u8,
        Token::Nonlocal => 29u8,
        Token::Lambda => 30u8,
        Token::Yield => 31u8,
        Token::Await => 32u8,
        Token::Async => 33u8,
        Token::With => 34u8,
        Token::Match => 35u8,
        Token::Case => 36u8,
        Token::BuiltInFunc(_) => 37u8,
        Token::Identifier => 38u8,
        Token::Float => 39u8,
        Token::Integer => 40u8,
        Token::ChineseNumber => 41u8,
        Token::String => 42u8,
        Token::Pow => 43u8,
        Token::FloorDiv => 44u8,
        Token::Mod => 45u8,
        Token::Equal => 46u8,
        Token::Plus => 47u8,
        Token::Minus => 48u8,
        Token::Star => 49u8,
        Token::Slash => 50u8,
        Token::BitwiseAnd => 51u8,
        Token::BitwiseOr => 52u8,
        Token::BitwiseXor => 53u8,
        Token::BitwiseNot => 54u8,
        Token::LeftShift => 55u8,
        Token::RightShift => 56u8,
        Token::Dot => 57u8,
        Token::LParen => 58u8,
        Token::RParen => 59u8,
        Token::Colon => 60u8,
        Token::Comma => 61u8,
        Token::DoubleEqual => 62u8,
        Token::NotEqual => 63u8,
        Token::Less => 64u8,
        Token::LessEqual => 65u8,
        Token::Greater => 66u8,
        Token::GreaterEqual => 67u8,
        Token::LBracket => 68u8,
        Token::RBracket => 69u8,
        Token::LBrace => 70u8,
        Token::RBrace => 71u8,
        Token::Newline => 72u8,
        Token::Comment => 73u8,
        Token::Indent => 74u8,
        Token::Dedent => 75u8,
        Token::Error => 76u8,
    }
}

/// The kind number of a token.
pub fn token_kind(t: &Token) -> (k: u8)
    ensures
        k == kind(*t),
{
    match t {
        Token::Def => 0u8,
        Token::If => 1u8,
        Token::Else => 2u8,
        Token::Elif => 3u8,
        Token::For => 4u8,
        Token::While => 5u8,
        Token::In => 6u8,
        Token::Is => 7u8,
        Token::Not => 8u8,
        Token::And => 9u8,
        Token::Or => 10u8,
        Token::NoneKw => 11u8,
        Token::True => 12u8,
        Token::False => 13u8,
        Token::Return => 14u8,
        Token::Break => 15u8,
        Token::Continue => 16u8,
        Token::Pass => 17u8,
        Token::Import => 18u8,
        Token::From => 19u8,
        Token::As => 20u8,
        Token::Class => 21u8,
        Token::Try => 22u8,
        Token::Except => 23u8,
        Token::Finally => 24u8,
        Token::Raise => 25u8,
        Token::Assert => 26u8,
        Token::Del => 27u8,
        Token::Global => 28u8,
        Token::Nonlocal => 29u8,
        Token::Lambda => 30u8,
        Token::Yield => 31u8,
        Token::Await => 32u8,
        Token::Async => 33u8,
        Token::With => 34u8,
        Token::Match => 35u8,
        Token::Case => 36u8,
        Token::BuiltInFunc(_) => 37u8,
        Token::Identifier => 38u8,
        Token::Float => 39u8,
        Token::Integer => 40u8,
        Token::ChineseNumber => 41u8,
        Token::String => 42u8,
        Token::Pow => 43u8,
        Token::FloorDiv => 44u8,
        Token::Mod => 45u8,
        Token::Equal => 46u8,
        Token::Plus => 47u8,
        Token::Minus => 48u8,
        Token::Star => 49u8,
        Token::Slash => 50u8,
        Token::BitwiseAnd => 51u8,
        Token::BitwiseOr => 52u8,
        Token::BitwiseXor => 53u8,
        Token::BitwiseNot => 54u8,
        Token::LeftShift => 55u8,
        Token::RightShift => 56u8,
        Token::Dot => 57u8,
        Token::LParen => 58u8,
        Token::RParen => 59u8,
        Token::Colon => 60u8,
        Token::Comma => 61u8,
        Token::DoubleEqual => 62u8,
        Token::NotEqual => 63u8,
        Token::Less => 64u8,
        Token::LessEqual => 65u8,
        Token::Greater => 66u8,
        Token::GreaterEqual => 67u8,
        Token::LBracket => 68u8,
        Token::RBracket => 69u8,
        Token::LBrace => 70u8,
        Token::RBrace => 71u8,
        Token::Newline => 72u8,
        Token::Comment => 73u8,
        Token::Indent => 74u8,
        Token::Dedent => 75u8,
        Token::Error => 76u8,
    }
}

/// What the grammar reads of a token's kind: the kind itself, or, for a built-in, the
/// English name it carries.
pub enum LexKind {
    Plain(Token),
    Builtin(Seq<char>),
}

/// What the grammar reads of a token's kind.
pub open spec fn lex_kind(t: Token) -> LexKind {
    match t {
        Token::BuiltInFunc(s) => LexKind::Builtin(s@),
        _ => LexKind::Plain(t),
    }
}

/// The kind number of a token view.
pub open spec fn kind_of(k: LexKind) -> u8 {
    match k {
        LexKind::Plain(t) => kind(t),
        LexKind::Builtin(_) => 37u8,
    }
}

/// A token as the grammar reads it: its kind and its source text.
pub type TokView = (LexKind, Seq<char>);

/// The view of a token sequence.
pub open spec fn toks_view(s: Seq<(Token, String)>) -> Seq<TokView> {
    s.map_values(|x: (Token, String)| (lex_kind(x.0), x.1@))
}

/// The view of a sequence with one more token.
pub proof fn lemma_toks_view_push(v: Seq<(Token, String)>, x: (Token, String))
    ensures
        toks_view(v.push(x)) == toks_view(v).push((lex_kind(x.0), x.1@)),
{
    assert(toks_view(v.push(x)) =~= toks_view(v).push((lex_kind(x.0), x.1@)));
}

} // verus!
