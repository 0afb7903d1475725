//! The scanner: a specification-level tokenizer over character sequences,
//! and the verified executable `lexer` that is proved to agree with it.
//!
//! The specification walks the input suffix by suffix. On each step it
//! dispatches on the first character: structural punctuation becomes its
//! token; a double quote opens a string that runs to the first quote not
//! immediately preceded by a backslash; `t`, `f` and `n` consume a fixed
//! number of following characters and emit a keyword token only on an exact
//! match (a failed match is consumed silently); a digit or minus sign starts
//! a numeric literal that extends over digits, points, exponent markers and
//! minus signs; every other character is skipped.

use crate::numbers::{
    float_literal_ok, i64_literal_ok, int_literal_val, is_digit, is_digit_char,
};
use crate::text::{chars_to_string, contains_char, copy_range, str_to_chars};
use crate::token::{
    views_of, LexerError, LexerErrorView, Number, NumberView, Token, TokenView,
};
use vstd::prelude::*;

verus! {

/// Structural punctuation: braces, brackets, colon, comma.
pub open spec fn is_structural(c: char) -> bool {
    c == '{' || c == '}' || c == '[' || c == ']' || c == ':' || c == ','
}

/// The token of a structural character.
pub open spec fn structural_token(c: char) -> TokenView
    recommends
        is_structural(c),
{
    if c == '{' {
        TokenView::LeftCurlyBrace
    } else if c == '}' {
        TokenView::RightCurlyBrace
    } else if c == '[' {
        TokenView::LeftSquareBrace
    } else if c == ']' {
        TokenView::RightSquareBrace
    } else if c == ':' {
        TokenView::Colon
    } else {
        TokenView::Comma
    }
}

/// A character that starts a numeric literal.
pub open spec fn is_number_start(c: char) -> bool {
    c == '-' || is_digit(c)
}

/// A character that extends a numeric literal once started.
pub open spec fn is_number_char(c: char) -> bool {
    is_digit(c) || c == '.' || c == 'e' || c == '-'
}

/// The position of the closing quote of a string literal, scanning from `i`
/// with `prev` the character consumed just before: the first quote not
/// immediately preceded by a backslash, or `None` if the input ends first.
pub open spec fn string_close(s: Seq<char>, i: int, prev: char) -> Option<int>
    decreases s.len() - i,
{
    if i >= s.len() {
        None
    } else if s[i] == '"' && prev != '\\' {
        Some(i)
    } else {
        string_close(s, i + 1, s[i])
    }
}

pub proof fn lemma_string_close_range(s: Seq<char>, i: int, prev: char)
    requires
        0 <= i <= s.len(),
    ensures
        match string_close(s, i, prev) {
            Some(j) => i <= j < s.len(),
            None => true,
        },
    decreases s.len() - i,
{
    if i < s.len() && !(s[i] == '"' && prev != '\\') {
        lemma_string_close_range(s, i + 1, s[i]);
    }
}

/// Scanning for a closing quote is unchanged by dropping a prefix the scan
/// never looks at; positions shift by the prefix length.
pub proof fn lemma_string_close_skip(s: Seq<char>, d: int, i: int, prev: char)
    requires
        0 <= d <= i <= s.len(),
    ensures
        string_close(s, i, prev) == (match string_close(s.skip(d), i - d, prev) {
            Some(j) => Some(j + d),
            None => None::<int>,
        }),
    decreases s.len() - i,
{
    let t = s.skip(d);
    if i < s.len() {
        assert(t[i - d] == s[i]);
        if !(s[i] == '"' && prev != '\\') {
            lemma_string_close_skip(s, d, i + 1, s[i]);
        }
    }
}

/// The end of a numeric literal scanned from `i`: the first position holding
/// a character that does not extend the literal, or the end of the input.
pub open spec fn number_end(s: Seq<char>, i: int) -> int
    decreases s.len() - i,
{
    if i >= s.len() {
        i
    } else if is_number_char(s[i]) {
        number_end(s, i + 1)
    } else {
        i
    }
}

pub proof fn lemma_number_end_range(s: Seq<char>, i: int)
    requires
        0 <= i <= s.len(),
    ensures
        i <= number_end(s, i) <= s.len(),
    decreases s.len() - i,
{
    if i < s.len() && is_number_char(s[i]) {
        lemma_number_end_range(s, i + 1);
    }
}

/// The end of a numeric literal is unchanged by dropping a prefix the scan
/// never looks at; it shifts by the prefix length.
pub proof fn lemma_number_end_skip(s: Seq<char>, d: int, i: int)
    requires
        0 <= d <= i <= s.len(),
    ensures
        number_end(s, i) == number_end(s.skip(d), i - d) + d,
    decreases s.len() - i,
{
    let t = s.skip(d);
    if i < s.len() {
        assert(t[i - d] == s[i]);
        if is_number_char(s[i]) {
            lemma_number_end_skip(s, d, i + 1);
        }
    }
}

/// If every character from `i` up to `k` extends a literal and the character
/// at `k` (if any) does not, the literal ends exactly at `k`.
pub proof fn lemma_number_end_exact(s: Seq<char>, i: int, k: int)
    requires
        0 <= i <= k <= s.len(),
        forall|m: int| i <= m < k ==> is_number_char(#[trigger] s[m]),
        k < s.len() ==> !is_number_char(s[k]),
    ensures
        number_end(s, i) == k,
    decreases k - i,
{
    if i < k {
        lemma_number_end_exact(s, i + 1, k);
    }
}

/// Prepends a token to a scan result, letting an error pass through.
pub open spec fn prepend_token(
    t: TokenView,
    r: Result<Seq<TokenView>, LexerErrorView>,
) -> Result<Seq<TokenView>, LexerErrorView> {
    match r {
        Ok(ts) => Ok(seq![t] + ts),
        Err(e) => Err(e),
    }
}

/// The tokens of an input text, or the first scanning error.
///
/// This is the reference meaning of the scanner: `lexer` is proved to return
/// exactly this.
pub open spec fn spec_tokens(s: Seq<char>) -> Result<Seq<TokenView>, LexerErrorView>
    decreases s.len(),
        via spec_tokens_decreases
{
    if s.len() == 0 {
        Ok(Seq::empty())
    } else {
        let c = s[0];
        if is_structural(c) {
            prepend_token(structural_token(c), spec_tokens(s.skip(1)))
        } else if c == '"' {
            match string_close(s, 1, ' ') {
                None => Err(LexerErrorView::UnterminatedString),
                Some(j) => prepend_token(
                    TokenView::StringToken(s.subrange(1, j)),
                    spec_tokens(s.skip(j + 1)),
                ),
            }
        } else if c == 't' {
            let stop = if s.len() < 4 { s.len() as int } else { 4 };
            if s.subrange(1, stop) == seq!['r', 'u', 'e'] {
                prepend_token(TokenView::Bool(true), spec_tokens(s.skip(stop)))
            } else {
                spec_tokens(s.skip(stop))
            }
        } else if c == 'f' {
            let stop = if s.len() < 5 { s.len() as int } else { 5 };
            if s.subrange(1, stop) == seq!['a', 'l', 's', 'e'] {
                prepend_token(TokenView::Bool(false), spec_tokens(s.skip(stop)))
            } else {
                spec_tokens(s.skip(stop))
            }
        } else if c == 'n' {
            let stop = if s.len() < 4 { s.len() as int } else { 4 };
            if s.subrange(1, stop) == seq!['u', 'l', 'l'] {
                prepend_token(TokenView::Null, spec_tokens(s.skip(stop)))
            } else {
                spec_tokens(s.skip(stop))
            }
        } else if is_number_start(c) {
            let j = number_end(s, 1);
            let text = s.subrange(0, j);
            if text.contains('.') {
                if float_literal_ok(text) {
                    prepend_token(
                        TokenView::Number(NumberView::Float(text)),
                        spec_tokens(s.skip(j)),
                    )
                } else {
                    Err(LexerErrorView::InvalidFloat(text))
                }
            } else {
                if i64_literal_ok(text) {
                    prepend_token(
                        TokenView::Number(NumberView::Integer(int_literal_val(text) as i64)),
                        spec_tokens(s.skip(j)),
                    )
                } else {
                    Err(LexerErrorView::InvalidInteger(text))
                }
            }
        } else {
            spec_tokens(s.skip(1))
        }
    }
}

#[via_fn]
proof fn spec_tokens_decreases(s: Seq<char>) {
    if s.len() > 0 {
        lemma_string_close_range(s, 1, ' ');
        lemma_number_end_range(s, 1);
    }
}

/// Appends a scan result to tokens already emitted, letting an error pass
/// through.
pub open spec fn combine(
    ts: Seq<TokenView>,
    r: Result<Seq<TokenView>, LexerErrorView>,
) -> Result<Seq<TokenView>, LexerErrorView> {
    match r {
        Ok(rest) => Ok(ts + rest),
        Err(e) => Err(e),
    }
}

proof fn lemma_combine_prepend(
    ts: Seq<TokenView>,
    t: TokenView,
    r: Result<Seq<TokenView>, LexerErrorView>,
)
    ensures
        combine(ts, prepend_token(t, r)) == combine(ts.push(t), r),
{
    match r {
        Ok(rest) => {
            assert(ts + (seq![t] + rest) =~= ts.push(t) + rest);
        },
        Err(_) => {},
    }
}

proof fn lemma_views_push(ts: Seq<Token>, t: Token)
    ensures
        views_of(ts.push(t)) == views_of(ts).push(t@),
{
    assert(views_of(ts.push(t)) =~= views_of(ts).push(t@));
}

/// Finds the closing quote of a string literal opened just before `start`.
fn find_string_close(chars: &Vec<char>, start: usize) -> (r: Option<usize>)
    requires
        start <= chars@.len(),
    ensures
        match r {
            Some(j) => start <= j < chars@.len() && string_close(chars@, start as int, ' ')
                == Some(j as int),
            None => string_close(chars@, start as int, ' ') is None,
        },
{
    let n = chars.len();
    let mut j = start;
    let mut prev: char = ' ';
    while j < n
        invariant
            start <= j <= n,
            n == chars@.len(),
            string_close(chars@, start as int, ' ') == string_close(chars@, j as int, prev),
        decreases n - j,
    {
        let ch = chars[j];
        if ch == '"' && prev != '\\' {
            return Some(j);
        }
        prev = ch;
        j += 1;
    }
    None
}

fn num_char_at(v: &Vec<char>, j: usize) -> (b: bool)
    requires
        j < v@.len(),
    ensures
        b == is_number_char(v@[j as int]),
{
    let c = v[j];
    is_digit_char(c) || c == '.' || c == 'e' || c == '-'
}

/// Scans JSON source text into its token sequence, or fails with the first
/// lexical error.
///
/// The result is exactly `spec_tokens` of the input: an `Ok` token sequence
/// whose views are the specified tokens, or the specified error. Failure is
/// all-or-nothing: no tokens accompany an error.
#[verifier::rlimit(100)]
pub fn lexer(json_string: String) -> (r: Result<Vec<Token>, LexerError>)
    ensures
        match r {
            Ok(tokens) => spec_tokens(json_string@) == Ok::<Seq<TokenView>, LexerErrorView>(
                views_of(tokens@),
            ),
            Err(e) => spec_tokens(json_string@) == Err::<Seq<TokenView>, LexerErrorView>(e@),
        },
{
    let chars = str_to_chars(json_string.as_str());
    let ghost s = json_string@;
    let n = chars.len();
    let mut tokens: Vec<Token> = Vec::new();
    let mut i: usize = 0;
    proof {
        assert(s.skip(0) =~= s);
    }
    while i < n
        invariant
            s == json_string@,
            chars@ == s,
            n == s.len(),
            i <= n,
            spec_tokens(s) == combine(views_of(tokens@), spec_tokens(s.skip(i as int))),
        decreases n - i,
    {
        let ghost tail = s.skip(i as int);
        let ghost pre = tokens@;
        proof {
            assert(tail.len() == n - i);
            assert(tail[0] == s[i as int]);
        }
        let c = chars[i];
        if c == '{' || c == '}' || c == '[' || c == ']' || c == ':' || c == ',' {
            let tok = if c == '{' {
                Token::LeftCurlyBrace
            } else if c == '}' {
                Token::RightCurlyBrace
            } else if c == '[' {
                Token::LeftSquareBrace
            } else if c == ']' {
                Token::RightSquareBrace
            } else if c == ':' {
                Token::Colon
            } else {
                Token::Comma
            };
            proof {
                assert(spec_tokens(tail) == prepend_token(
                    structural_token(c),
                    spec_tokens(tail.skip(1)),
                ));
                assert(tail.skip(1) =~= s.skip(i + 1));
                assert(tok@ == structural_token(c));
                lemma_combine_prepend(views_of(pre), tok@, spec_tokens(s.skip(i + 1)));
                lemma_views_push(pre, tok);
            }
            tokens.push(tok);
            i += 1;
        } else if c == '"' {
            match find_string_close(&chars, i + 1) {
                None => {
                    proof {
                        lemma_string_close_skip(s, i as int, i + 1, ' ');
                        assert(string_close(tail, 1, ' ') is None);
                        assert(spec_tokens(tail) == Err::<Seq<TokenView>, LexerErrorView>(
                            LexerErrorView::UnterminatedString,
                        ));
                    }
                    return Err(LexerError::UnterminatedString);
                },
                Some(j) => {
                    let content = copy_range(&chars, i + 1, j);
                    let text = chars_to_string(&content);
                    let tok = Token::StringToken(text);
                    proof {
                        lemma_string_close_skip(s, i as int, i + 1, ' ');
                        assert(string_close(tail, 1, ' ') == Some(j - i));
                        assert(tail.subrange(1, j - i) =~= s.subrange(i + 1, j as int));
                        assert(spec_tokens(tail) == prepend_token(
                            TokenView::StringToken(tail.subrange(1, j - i)),
                            spec_tokens(tail.skip(j - i + 1)),
                        ));
                        assert(tail.skip(j - i + 1) =~= s.skip(j + 1));
                        assert(tok@ == TokenView::StringToken(tail.subrange(1, j - i)));
                        lemma_combine_prepend(views_of(pre), tok@, spec_tokens(s.skip(j + 1)));
                        lemma_views_push(pre, tok);
                    }
                    tokens.push(tok);
                    i = j + 1;
                },
            }
        } else if c == 't' {
            let matched = n - i >= 4 && chars[i + 1] == 'r' && chars[i + 2] == 'u' && chars[i + 3]
                == 'e';
            let stop = if n - i >= 4 { i + 4 } else { n };
            proof {
                let k = if tail.len() < 4 { tail.len() as int } else { 4int };
                assert(stop == i + k);
                assert(tail.subrange(1, k) =~= s.subrange(i + 1, stop as int));
                if matched {
                    assert(tail.subrange(1, k) =~= seq!['r', 'u', 'e']);
                    assert(spec_tokens(tail) == prepend_token(
                        TokenView::Bool(true),
                        spec_tokens(tail.skip(k)),
                    ));
                    lemma_combine_prepend(
                        views_of(pre),
                        TokenView::Bool(true),
                        spec_tokens(s.skip(stop as int)),
                    );
                    lemma_views_push(pre, Token::Bool(true));
                } else {
                    if n - i >= 4 {
                        assert(tail.subrange(1, k)[0] == s[i + 1]);
                        assert(tail.subrange(1, k)[1] == s[i + 2]);
                        assert(tail.subrange(1, k)[2] == s[i + 3]);
                        assert(tail.subrange(1, k) != seq!['r', 'u', 'e']);
                    } else {
                        assert(tail.subrange(1, k).len() < 3);
                        assert(tail.subrange(1, k) != seq!['r', 'u', 'e']);
                    }
                    assert(spec_tokens(tail) == spec_tokens(tail.skip(k)));
                }
                assert(tail.skip(k) =~= s.skip(stop as int));
            }
            if matched {
                tokens.push(Token::Bool(true));
            }
            i = stop;
        } else if c == 'f' {
            let matched = n - i >= 5 && chars[i + 1] == 'a' && chars[i + 2] == 'l' && chars[i + 3]
                == 's' && chars[i + 4] == 'e';
            let stop = if n - i >= 5 { i + 5 } else { n };
            proof {
                let k = if tail.len() < 5 { tail.len() as int } else { 5int };
                assert(stop == i + k);
                assert(tail.subrange(1, k) =~= s.subrange(i + 1, stop as int));
                if matched {
                    assert(tail.subrange(1, k) =~= seq!['a', 'l', 's', 'e']);
                    assert(spec_tokens(tail) == prepend_token(
                        TokenView::Bool(false),
                        spec_tokens(tail.skip(k)),
                    ));
                    lemma_combine_prepend(
                        views_of(pre),
                        TokenView::Bool(false),
                        spec_tokens(s.skip(stop as int)),
                    );
                    lemma_views_push(pre, Token::Bool(false));
                } else {
                    if n - i >= 5 {
                        assert(tail.subrange(1, k)[0] == s[i + 1]);
                        assert(tail.subrange(1, k)[1] == s[i + 2]);
                        assert(tail.subrange(1, k)[2] == s[i + 3]);
                        assert(tail.subrange(1, k)[3] == s[i + 4]);
                        assert(tail.subrange(1, k) != seq!['a', 'l', 's', 'e']);
                    } else {
                        assert(tail.subrange(1, k).len() < 4);
                        assert(tail.subrange(1, k) != seq!['a', 'l', 's', 'e']);
                    }
                    assert(spec_tokens(tail) == spec_tokens(tail.skip(k)));
                }
                assert(tail.skip(k) =~= s.skip(stop as int));
            }
            if matched {
                tokens.push(Token::Bool(false));
            }
            i = stop;
        } else if c == 'n' {
            let matched = n - i >= 4 && chars[i + 1] == 'u' && chars[i + 2] == 'l' && chars[i + 3]
                == 'l';
            let stop = if n - i >= 4 { i + 4 } else { n };
            proof {
                let k = if tail.len() < 4 { tail.len() as int } else { 4int };
                assert(stop == i + k);
                assert(tail.subrange(1, k) =~= s.subrange(i + 1, stop as int));
                if matched {
                    assert(tail.subrange(1, k) =~= seq!['u', 'l', 'l']);
                    assert(spec_tokens(tail) == prepend_token(
                        TokenView::Null,
                        spec_tokens(tail.skip(k)),
                    ));
                    lemma_combine_prepend(
                        views_of(pre),
                        TokenView::Null,
                        spec_tokens(s.skip(stop as int)),
                    );
                    lemma_views_push(pre, Token::Null);
                } else {
                    if n - i >= 4 {
                        assert(tail.subrange(1, k)[0] == s[i + 1]);
                        assert(tail.subrange(1, k)[1] == s[i + 2]);
                        assert(tail.subrange(1, k)[2] == s[i + 3]);
                        assert(tail.subrange(1, k) != seq!['u', 'l', 'l']);
                    } else {
                        assert(tail.subrange(1, k).len() < 3);
                        assert(tail.subrange(1, k) != seq!['u', 'l', 'l']);
                    }
                    assert(spec_tokens(tail) == spec_tokens(tail.skip(k)));
                }
                assert(tail.skip(k) =~= s.skip(stop as int));
            }
            if matched {
                tokens.push(Token::Null);
            }
            i = stop;
        } else if c == '-' || is_digit_char(c) {
            let mut j = i + 1;
            while j < n && num_char_at(&chars, j)
                invariant
                    i + 1 <= j <= n,
                    n == s.len(),
                    chars@ == s,
                    number_end(s, i + 1) == number_end(s, j as int),
                decreases n - j,
            {
                j += 1;
            }
            proof {
                assert(number_end(s, j as int) == j);
                lemma_number_end_skip(s, i as int, i + 1);
                assert(number_end(tail, 1) == j - i);
            }
            let text = copy_range(&chars, i, j);
            proof {
                assert(text@ =~= tail.subrange(0, j - i));
            }
            let has_dot = contains_char(&text, '.');
            if has_dot {
                if crate::numbers::check_float(&text) {
                    let tok = Token::Number(Number::Float(chars_to_string(&text)));
                    proof {
                        assert(spec_tokens(tail) == prepend_token(
                            TokenView::Number(NumberView::Float(text@)),
                            spec_tokens(tail.skip(j - i)),
                        ));
                        assert(tail.skip(j - i) =~= s.skip(j as int));
                        assert(tok@ == TokenView::Number(NumberView::Float(text@)));
                        lemma_combine_prepend(views_of(pre), tok@, spec_tokens(s.skip(j as int)));
                        lemma_views_push(pre, tok);
                    }
                    tokens.push(tok);
                    i = j;
                } else {
                    proof {
                        assert(spec_tokens(tail) == Err::<Seq<TokenView>, LexerErrorView>(
                            LexerErrorView::InvalidFloat(text@),
                        ));
                    }
                    return Err(LexerError::InvalidFloat(chars_to_string(&text)));
                }
            } else {
                match crate::numbers::parse_i64(&text) {
                    Some(v) => {
                        let tok = Token::Number(Number::Integer(v));
                        proof {
                            assert(int_literal_val(text@) as i64 == v);
                            assert(spec_tokens(tail) == prepend_token(
                                TokenView::Number(NumberView::Integer(v)),
                                spec_tokens(tail.skip(j - i)),
                            ));
                            assert(tail.skip(j - i) =~= s.skip(j as int));
                            lemma_combine_prepend(
                                views_of(pre),
                                tok@,
                                spec_tokens(s.skip(j as int)),
                            );
                            lemma_views_push(pre, tok);
                        }
                        tokens.push(tok);
                        i = j;
                    },
                    None => {
                        proof {
                            assert(spec_tokens(tail) == Err::<Seq<TokenView>, LexerErrorView>(
                                LexerErrorView::InvalidInteger(text@),
                            ));
                        }
                        return Err(LexerError::InvalidInteger(chars_to_string(&text)));
                    },
                }
            }
        } else {
            proof {
                assert(spec_tokens(tail) == spec_tokens(tail.skip(1)));
                assert(tail.skip(1) =~= s.skip(i + 1));
            }
            i += 1;
        }
    }
    proof {
        assert(s.skip(n as int) =~= Seq::<char>::empty());
        assert(views_of(tokens@) + Seq::<TokenView>::empty() =~= views_of(tokens@));
    }
    Ok(tokens)
}

} // verus!
