//! Lexical tokens, scanning errors, and their views and textual renderings.
//!
//! The token sequence is flat: no nesting, no relation between tokens beyond
//! their order. String payloads are kept verbatim, escape sequences
//! undecoded. A floating-point literal is carried as its validated text; an
//! integer literal is carried as its parsed `i64` value.

use crate::numbers::{spec_i64_render, render_i64_chars};
use crate::text::chars_to_string;
use vstd::prelude::*;
use vstd::string::StringExecFns;

verus! {

/// The view of a numeric literal token.
pub ghost enum NumberView {
    Integer(i64),
    Float(Seq<char>),
}

/// The view of a token: string and float payloads as character sequences.
pub ghost enum TokenView {
    LeftCurlyBrace,
    RightCurlyBrace,
    LeftSquareBrace,
    RightSquareBrace,
    Colon,
    Comma,
    StringToken(Seq<char>),
    Number(NumberView),
    Null,
    Bool(bool),
}

/// The view of a scanning error, with the offending literal text.
pub ghost enum LexerErrorView {
    UnterminatedString,
    InvalidFloat(Seq<char>),
    InvalidInteger(Seq<char>),
}

/// A numeric literal: an integer value, or a floating-point literal kept as
/// its text.
#[derive(Debug, Clone, PartialEq)]
pub enum Number {
    Integer(i64),
    Float(String),
}

/// One lexical unit of JSON source text.
#[derive(Debug, Clone, PartialEq)]
pub enum Token {
    LeftCurlyBrace,
    RightCurlyBrace,
    LeftSquareBrace,
    RightSquareBrace,
    Colon,
    Comma,
    StringToken(String),
    Number(Number),
    Null,
    Bool(bool),
}

/// A scanning failure, carrying the offending literal text where there is
/// one.
#[derive(Debug, Clone, PartialEq)]
pub enum LexerError {
    UnterminatedString,
    InvalidFloat(String),
    InvalidInteger(String),
}

impl View for Number {
    type V = NumberView;

    open spec fn view(&self) -> NumberView {
        match self {
            Number::Integer(v) => NumberView::Integer(*v),
            Number::Float(t) => NumberView::Float(t@),
        }
    }
}

impl View for Token {
    type V = TokenView;

    open spec fn view(&self) -> TokenView {
        match self {
            Token::LeftCurlyBrace => TokenView::LeftCurlyBrace,
            Token::RightCurlyBrace => TokenView::RightCurlyBrace,
            Token::LeftSquareBrace => TokenView::LeftSquareBrace,
            Token::RightSquareBrace => TokenView::RightSquareBrace,
            Token::Colon => TokenView::Colon,
            Token::Comma => TokenView::Comma,
            Token::StringToken(t) => TokenView::StringToken(t@),
            Token::Number(n) => TokenView::Number(n@),
            Token::Null => TokenView::Null,
            Token::Bool(b) => TokenView::Bool(*b),
        }
    }
}

impl View for LexerError {
    type V = LexerErrorView;

    open spec fn view(&self) -> LexerErrorView {
        match self {
            LexerError::UnterminatedString => LexerErrorView::UnterminatedString,
            LexerError::InvalidFloat(t) => LexerErrorView::InvalidFloat(t@),
            LexerError::InvalidInteger(t) => LexerErrorView::InvalidInteger(t@),
        }
    }
}

/// The views of a sequence of tokens.
pub open spec fn views_of(ts: Seq<Token>) -> Seq<TokenView> {
    ts.map_values(|t: Token| t@)
}

/// The textual rendering of a numeric literal.
pub open spec fn spec_render_number(n: NumberView) -> Seq<char> {
    match n {
        NumberView::Integer(v) => spec_i64_render(v as int),
        NumberView::Float(t) => t,
    }
}

/// The canonical textual rendering of one token: structural tokens as their
/// punctuation character, strings re-quoted, numbers as their literal text,
/// keywords as themselves.
pub open spec fn spec_render_token(t: TokenView) -> Seq<char> {
    match t {
        TokenView::LeftCurlyBrace => seq!['{'],
        TokenView::RightCurlyBrace => seq!['}'],
        TokenView::LeftSquareBrace => seq!['['],
        TokenView::RightSquareBrace => seq![']'],
        TokenView::Colon => seq![':'],
        TokenView::Comma => seq![','],
        TokenView::StringToken(text) => seq!['"'] + text + seq!['"'],
        TokenView::Number(n) => spec_render_number(n),
        TokenView::Null => seq!['n', 'u', 'l', 'l'],
        TokenView::Bool(b) => if b {
            seq!['t', 'r', 'u', 'e']
        } else {
            seq!['f', 'a', 'l', 's', 'e']
        },
    }
}

/// The canonical rendering of a token sequence: each token's rendering
/// followed by a single separating space.
pub open spec fn spec_render_tokens(ts: Seq<TokenView>) -> Seq<char>
    decreases ts.len(),
{
    if ts.len() == 0 {
        Seq::empty()
    } else {
        spec_render_token(ts[0]) + seq![' '] + spec_render_tokens(ts.drop_first())
    }
}

/// The message text of a scanning error.
pub open spec fn spec_render_error(e: LexerErrorView) -> Seq<char> {
    match e {
        LexerErrorView::UnterminatedString => "Unterminated string literal"@,
        LexerErrorView::InvalidFloat(t) => "Error parsing float literal: "@ + t,
        LexerErrorView::InvalidInteger(t) => "Error parsing integer literal: "@ + t,
    }
}

impl Number {
    /// Renders the numeric literal as text.
    pub fn render(&self) -> (s: String)
        ensures
            s@ == spec_render_number(self@),
    {
        match self {
            Number::Integer(v) => {
                let chars = render_i64_chars(*v);
                chars_to_string(&chars)
            },
            Number::Float(t) => t.clone(),
        }
    }
}

impl Token {
    /// Renders the token as its canonical text.
    pub fn render(&self) -> (s: String)
        ensures
            s@ == spec_render_token(self@),
    {
        match self {
            Token::LeftCurlyBrace => {
                proof {
                    reveal_strlit("{");
                }
                let s = String::from_str("{");
                assert(s@ =~= seq!['{']);
                s
            },
            Token::RightCurlyBrace => {
                proof {
                    reveal_strlit("}");
                }
                let s = String::from_str("}");
                assert(s@ =~= seq!['}']);
                s
            },
            Token::LeftSquareBrace => {
                proof {
                    reveal_strlit("[");
                }
                let s = String::from_str("[");
                assert(s@ =~= seq!['[']);
                s
            },
            Token::RightSquareBrace => {
                proof {
                    reveal_strlit("]");
                }
                let s = String::from_str("]");
                assert(s@ =~= seq![']']);
                s
            },
            Token::Colon => {
                proof {
                    reveal_strlit(":");
                }
                let s = String::from_str(":");
                assert(s@ =~= seq![':']);
                s
            },
            Token::Comma => {
                proof {
                    reveal_strlit(",");
                }
                let s = String::from_str(",");
                assert(s@ =~= seq![',']);
                s
            },
            Token::StringToken(text) => {
                proof {
                    reveal_strlit("\"");
                }
                let mut s = String::from_str("\"");
                s.append(text.as_str());
                s.append("\"");
                assert(s@ =~= seq!['"'] + text@ + seq!['"']);
                s
            },
            Token::Number(n) => n.render(),
            Token::Null => {
                proof {
                    reveal_strlit("null");
                }
                let s = String::from_str("null");
                assert(s@ =~= seq!['n', 'u', 'l', 'l']);
                s
            },
            Token::Bool(b) => if *b {
                proof {
                    reveal_strlit("true");
                }
                let s = String::from_str("true");
                assert(s@ =~= seq!['t', 'r', 'u', 'e']);
                s
            } else {
                proof {
                    reveal_strlit("false");
                }
                let s = String::from_str("false");
                assert(s@ =~= seq!['f', 'a', 'l', 's', 'e']);
                s
            },
        }
    }
}

impl LexerError {
    /// Renders the error as its message text.
    pub fn render(&self) -> (s: String)
        ensures
            s@ == spec_render_error(self@),
    {
        match self {
            LexerError::UnterminatedString => String::from_str("Unterminated string literal"),
            LexerError::InvalidFloat(t) => {
                let mut s = String::from_str("Error parsing float literal: ");
                s.append(t.as_str());
                s
            },
            LexerError::InvalidInteger(t) => {
                let mut s = String::from_str("Error parsing integer literal: ");
                s.append(t.as_str());
                s
            },
        }
    }
}

/// Renders a token sequence: each token followed by a single space.
pub fn render_tokens(ts: &Vec<Token>) -> (s: String)
    ensures
        s@ == spec_render_tokens(views_of(ts@)),
{
    let ghost m = views_of(ts@);
    let mut s = String::new();
    let mut i: usize = 0;
    proof {
        assert(m.skip(0) =~= m);
    }
    while i < ts.len()
        invariant
            i <= ts@.len(),
            m == views_of(ts@),
            s@ + spec_render_tokens(m.skip(i as int)) == spec_render_tokens(m),
        decreases ts@.len() - i,
    {
        let piece = ts[i].render();
        s.append(piece.as_str());
        proof {
            reveal_strlit(" ");
        }
        s.append(" ");
        proof {
            let tail = m.skip(i as int);
            assert(tail[0] == m[i as int]);
            assert(tail.drop_first() =~= m.skip(i + 1));
            assert(" "@ =~= seq![' ']);
            assert(s@ + spec_render_tokens(m.skip(i + 1)) =~= spec_render_tokens(m));
        }
        i += 1;
    }
    proof {
        assert(m.skip(m.len() as int) =~= Seq::<TokenView>::empty());
        assert(s@ + Seq::<char>::empty() =~= s@);
    }
    s
}

} // verus!
