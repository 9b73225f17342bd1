use vstd::prelude::*;

verus! {

/// The lexical units of the dialect, in ghost form: string payloads
/// are character sequences, so contracts can speak of them directly.
pub enum SpecToken {
    LBrace,
    RBrace,
    Colon,
    Comma,
    StringLit(Seq<char>),
    EndOfInput,
}

/// The lexical units as the lexer emits them. Tokens are immutable once
/// produced; the parser only reads them.
#[derive(Debug, PartialEq)]
pub enum Token {
    LBrace,
    RBrace,
    Colon,
    Comma,
    StringLit(String),
    EOF,
}

impl View for Token {
    type V = SpecToken;

    open spec fn view(&self) -> SpecToken {
        match self {
            Token::LBrace => SpecToken::LBrace,
            Token::RBrace => SpecToken::RBrace,
            Token::Colon => SpecToken::Colon,
            Token::Comma => SpecToken::Comma,
            Token::StringLit(s) => SpecToken::StringLit(s@),
            Token::EOF => SpecToken::EndOfInput,
        }
    }
}

/// A token sequence as the parser expects it: the end-of-input sentinel
/// stands at the end and nowhere else.
pub open spec fn tokens_wf(ts: Seq<Token>) -> bool {
    &&& ts.len() > 0
    &&& ts.last() is EOF
    &&& forall|k: int| 0 <= k < ts.len() - 1 ==> !(#[trigger] ts[k] is EOF)
}

/// The view of a whole token sequence.
pub open spec fn toks_view(ts: Seq<Token>) -> Seq<SpecToken> {
    ts.map(|i: int, t: Token| t@)
}

} // verus!
