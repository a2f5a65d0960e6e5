//! The lexical unit: token kinds, literal payloads, and the token itself.

use vstd::prelude::*;

verus! {

/// The fixed vocabulary of token kinds.
#[derive(Debug, Clone, Copy, PartialEq, Eq, Structural)]
pub enum TokenType {
    // Single and double char tokens
    LeftParen,
    RightParen,
    LeftBrace,
    RightBrace,
    Comma,
    Dot,
    Minus,
    Plus,
    Semicolon,
    Slash,
    Star,
    Bang,
    BangEqual,
    Equal,
    EqualEqual,
    Greater,
    GreaterEqual,
    Less,
    LessEqual,
    // Literals
    Identifier,
    String,
    Number,
    // Keywords
    And,
    Class,
    Else,
    False,
    Fun,
    For,
    If,
    Nil,
    Or,
    Print,
    Return,
    Super,
    This,
    True,
    Var,
    While,
    // Special
    Eof,
}

/// Mathematical value of a literal payload: a number or a piece of text.
pub enum LitView {
    Num(int),
    Str(Seq<char>),
}

/// A literal payload carried by a `Number` or `String` token.
#[derive(Debug)]
pub enum Literal {
    Number(i64),
    String(String),
}

impl View for Literal {
    type V = LitView;

    open spec fn view(&self) -> LitView {
        match self {
            Literal::Number(n) => LitView::Num(*n as int),
            Literal::String(s) => LitView::Str(s@),
        }
    }
}

impl Literal {
    /// An owned copy with the same mathematical value.
    pub fn duplicate(&self) -> (r: Literal)
        ensures
            r@ == self@,
    {
        match self {
            Literal::Number(n) => Literal::Number(*n),
            Literal::String(s) => Literal::String(s.clone()),
        }
    }
}

/// Mathematical value of a token: its kind, exact source text, optional
/// literal payload, and the line it was scanned from.
pub struct TokenView {
    pub kind: TokenType,
    pub lexeme: Seq<char>,
    pub literal: Option<LitView>,
    pub line: nat,
}

/// A classified lexeme plus optional literal value and source line.
/// Immutable once produced by the scanner.
#[derive(Debug)]
pub struct Token {
    pub kind: TokenType,
    pub lexeme: String,
    pub literal: Option<Literal>,
    pub line: usize,
}

impl View for Token {
    type V = TokenView;

    open spec fn view(&self) -> TokenView {
        TokenView {
            kind: self.kind,
            lexeme: self.lexeme@,
            literal: match self.literal {
                Option::Some(l) => Option::Some(l@),
                Option::None => Option::None,
            },
            line: self.line as nat,
        }
    }
}

impl Token {
    /// An owned copy with the same mathematical value.
    pub fn duplicate(&self) -> (r: Token)
        ensures
            r@ == self@,
    {
        let lit = match &self.literal {
            Option::Some(l) => Option::Some(l.duplicate()),
            Option::None => Option::None,
        };
        Token { kind: self.kind, lexeme: self.lexeme.clone(), literal: lit, line: self.line }
    }
}

} // verus!

verus! {

/// The views of a sequence of tokens, elementwise.
pub open spec fn tokens_view(ts: Seq<Token>) -> Seq<TokenView>
    decreases ts.len(),
{
    if ts.len() == 0 {
        Seq::empty()
    } else {
        tokens_view(ts.drop_last()).push(ts.last()@)
    }
}

/// `tokens_view` maps element by element.
pub proof fn lemma_tokens_view(ts: Seq<Token>)
    ensures
        tokens_view(ts).len() == ts.len(),
        forall|i: int| 0 <= i < ts.len() ==> tokens_view(ts)[i] == #[trigger] ts[i]@,
        forall|i: int| 0 <= i < ts.len() ==> #[trigger] tokens_view(ts)[i] == ts[i]@,
    decreases ts.len(),
{
    if ts.len() > 0 {
        lemma_tokens_view(ts.drop_last());
        assert forall|i: int| 0 <= i < ts.len() implies tokens_view(ts)[i] == #[trigger] ts[i]@ by {
            if i < ts.len() - 1 {
                assert(ts.drop_last()[i] == ts[i]);
                assert(tokens_view(ts)[i] == tokens_view(ts.drop_last())[i]);
            }
        }
    }
}

/// Appending a token appends its view.
pub proof fn lemma_tokens_view_push(ts: Seq<Token>, t: Token)
    ensures
        tokens_view(ts.push(t)) == tokens_view(ts).push(t@),
{
    assert(ts.push(t).drop_last() =~= ts);
    assert(ts.push(t).last() == t);
}

} // verus!
