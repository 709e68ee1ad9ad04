//! Tokens produced by the lexer. A token records its kind (identifier
//! and literal kinds carry their lexeme as payload) and the one-based
//! line/column plus zero-based character offset where it starts.

use vstd::prelude::*;

verus! {

/// The kind of a token. Identifier, numeric and string tokens carry
/// their decoded lexeme as payload; for every other kind the lexeme is
/// determined by the kind itself.
#[derive(Debug)]
pub enum TokKind {
    Ident(String),
    Num(i64),
    Str(String),
    KwVar,
    KwConst,
    KwPrint,
    KwIf,
    KwElse,
    KwWhile,
    KwFunction,
    KwReturn,
    KwTrue,
    KwFalse,
    KwUndefined,
    KwNot,
    Plus,
    Minus,
    Star,
    Slash,
    Assign,
    EqEq,
    NotEq,
    Lt,
    Gt,
    Le,
    Ge,
    Bang,
    LParen,
    RParen,
    LBrace,
    RBrace,
    LBracket,
    RBracket,
    Comma,
    Eoi,
}

/// The mathematical model of a token kind: payloads are character
/// sequences and unbounded integers.
pub enum TokData {
    Ident(Seq<char>),
    Num(int),
    Str(Seq<char>),
    KwVar,
    KwConst,
    KwPrint,
    KwIf,
    KwElse,
    KwWhile,
    KwFunction,
    KwReturn,
    KwTrue,
    KwFalse,
    KwUndefined,
    KwNot,
    Plus,
    Minus,
    Star,
    Slash,
    Assign,
    EqEq,
    NotEq,
    Lt,
    Gt,
    Le,
    Ge,
    Bang,
    LParen,
    RParen,
    LBrace,
    RBrace,
    LBracket,
    RBracket,
    Comma,
    Eoi,
}

/// A lexical token with its source position.
#[derive(Debug)]
pub struct Token {
    pub kind: TokKind,
    pub line: u64,
    pub col: u64,
    pub off: u64,
}

/// The mathematical model of a token.
pub struct TokModel {
    pub kind: TokData,
    pub line: int,
    pub col: int,
    pub off: int,
}

/// The model of a token kind.
pub open spec fn kind_model(k: TokKind) -> TokData {
    match k {
        TokKind::Ident(s) => TokData::Ident(s@),
        TokKind::Num(n) => TokData::Num(n as int),
        TokKind::Str(s) => TokData::Str(s@),
        TokKind::KwVar => TokData::KwVar,
        TokKind::KwConst => TokData::KwConst,
        TokKind::KwPrint => TokData::KwPrint,
        TokKind::KwIf => TokData::KwIf,
        TokKind::KwElse => TokData::KwElse,
        TokKind::KwWhile => TokData::KwWhile,
        TokKind::KwFunction => TokData::KwFunction,
        TokKind::KwReturn => TokData::KwReturn,
        TokKind::KwTrue => TokData::KwTrue,
        TokKind::KwFalse => TokData::KwFalse,
        TokKind::KwUndefined => TokData::KwUndefined,
        TokKind::KwNot => TokData::KwNot,
        TokKind::Plus => TokData::Plus,
        TokKind::Minus => TokData::Minus,
        TokKind::Star => TokData::Star,
        TokKind::Slash => TokData::Slash,
        TokKind::Assign => TokData::Assign,
        TokKind::EqEq => TokData::EqEq,
        TokKind::NotEq => TokData::NotEq,
        TokKind::Lt => TokData::Lt,
        TokKind::Gt => TokData::Gt,
        TokKind::Le => TokData::Le,
        TokKind::Ge => TokData::Ge,
        TokKind::Bang => TokData::Bang,
        TokKind::LParen => TokData::LParen,
        TokKind::RParen => TokData::RParen,
        TokKind::LBrace => TokData::LBrace,
        TokKind::RBrace => TokData::RBrace,
        TokKind::LBracket => TokData::LBracket,
        TokKind::RBracket => TokData::RBracket,
        TokKind::Comma => TokData::Comma,
        TokKind::Eoi => TokData::Eoi,
    }
}

impl View for Token {
    type V = TokModel;

    open spec fn view(&self) -> TokModel {
        TokModel { kind: kind_model(self.kind), line: self.line as int, col: self.col as int, off: self.off as int }
    }
}

/// The models of a sequence of tokens.
pub open spec fn toks_model(ts: Seq<Token>) -> Seq<TokModel> {
    ts.map_values(|t: Token| t@)
}

} // verus!
