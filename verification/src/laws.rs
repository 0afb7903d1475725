//! Laws of the scanner, stated over its specification and proved once for
//! all inputs.

use crate::lexer::{
    is_number_char, is_number_start, is_structural, lemma_number_end_exact, prepend_token,
    spec_tokens, structural_token,
};
use crate::numbers::{
    int_literal_val, i64_literal_ok, lemma_i64_render_parses, spec_i64_render,
};
use crate::token::{
    spec_render_token, spec_render_tokens, LexerErrorView, NumberView, TokenView,
};
use vstd::prelude::*;

verus! {

/// JSON whitespace characters.
pub open spec fn is_json_whitespace(c: char) -> bool {
    c == ' ' || c == '\t' || c == '\n' || c == '\r'
}

/// The number of structural characters in a text.
pub open spec fn count_structural(s: Seq<char>) -> int
    decreases s.len(),
{
    if s.len() == 0 {
        0
    } else {
        (if is_structural(s[0]) {
            1int
        } else {
            0int
        }) + count_structural(s.skip(1))
    }
}

/// On an input of structural characters and whitespace alone, scanning
/// succeeds, and the token sequence is exactly as long as the count of
/// structural characters: whitespace produces no token.
pub proof fn lemma_structural_whitespace_scan(s: Seq<char>)
    requires
        forall|k: int|
            0 <= k < s.len() ==> is_structural(#[trigger] s[k]) || is_json_whitespace(s[k]),
    ensures
        spec_tokens(s) matches Ok(ts) && ts.len() == count_structural(s),
    decreases s.len(),
{
    if s.len() > 0 {
        let c = s[0];
        let t = s.skip(1);
        assert forall|k: int|
            0 <= k < t.len() implies is_structural(#[trigger] t[k]) || is_json_whitespace(
            t[k],
        ) by {
            assert(t[k] == s[k + 1]);
        }
        lemma_structural_whitespace_scan(t);
    }
}

/// A token whose rendering carries no free-form text: structural
/// punctuation, an integer literal, a boolean or null keyword.
pub open spec fn simple_token(t: TokenView) -> bool {
    match t {
        TokenView::StringToken(_) => false,
        TokenView::Number(n) => n matches NumberView::Integer(_),
        _ => true,
    }
}

/// Scanning a text that begins with a space reads past the space.
proof fn lemma_space_step(w: Seq<char>)
    ensures
        spec_tokens(seq![' '] + w) == spec_tokens(w),
{
    let s = seq![' '] + w;
    assert(s[0] == ' ');
    assert(s.skip(1) =~= w);
}

/// Rendering then scanning is the identity on token sequences of simple
/// tokens: the canonical text of structural, integer, boolean and null
/// tokens reads back as exactly the same sequence.
pub proof fn lemma_render_scan_round_trip(ts: Seq<TokenView>)
    requires
        forall|k: int| 0 <= k < ts.len() ==> simple_token(#[trigger] ts[k]),
    ensures
        spec_tokens(spec_render_tokens(ts)) == Ok::<Seq<TokenView>, LexerErrorView>(ts),
    decreases ts.len(),
{
    if ts.len() == 0 {
        assert(spec_render_tokens(ts) =~= Seq::<char>::empty());
        assert(ts =~= Seq::<TokenView>::empty());
    } else {
        let t = ts[0];
        let rest = ts.drop_first();
        assert forall|k: int| 0 <= k < rest.len() implies simple_token(#[trigger] rest[k]) by {
            assert(rest[k] == ts[k + 1]);
        }
        lemma_render_scan_round_trip(rest);
        let r = spec_render_token(t);
        let rrest = spec_render_tokens(rest);
        let s = spec_render_tokens(ts);
        assert(s == r + seq![' '] + rrest);
        assert(seq![t] + rest =~= ts);
        match t {
            TokenView::StringToken(_) => {
                assert(false);
            },
            TokenView::Number(n) => {
                let v = n->Integer_0;
                assert(n == NumberView::Integer(v));
                lemma_i64_render_parses(v as int);
                let rv = spec_i64_render(v as int);
                assert(r == rv);
                let m = rv.len() as int;
                assert(s.len() == m + 1 + rrest.len());
                assert forall|k: int| 0 <= k < m implies s[k] == rv[k] by {
                    assert((r + seq![' '])[k] == r[k]);
                }
                assert(s[m] == ' ');
                assert(s[0] == rv[0]);
                assert(is_number_start(s[0]));
                assert(!is_structural(s[0]));
                assert(s[0] != '"' && s[0] != 't' && s[0] != 'f' && s[0] != 'n');
                assert forall|k: int| 1 <= k < m implies is_number_char(#[trigger] s[k]) by {
                    assert(s[k] == rv[k]);
                }
                assert(!is_number_char(' '));
                lemma_number_end_exact(s, 1, m);
                let text = s.subrange(0, m);
                assert(text =~= rv);
                assert(!text.contains('.')) by {
                    if text.contains('.') {
                        let k = choose|k: int| 0 <= k < text.len() && text[k] == '.';
                        assert(text[k] == rv[k]);
                    }
                }
                assert(i64_literal_ok(text));
                assert(int_literal_val(text) as i64 == v);
                assert(spec_tokens(s) == prepend_token(
                    TokenView::Number(NumberView::Integer(v)),
                    spec_tokens(s.skip(m)),
                ));
                assert(s.skip(m) =~= seq![' '] + rrest);
                lemma_space_step(rrest);
            },
            TokenView::Null => {
                assert(r == seq!['n', 'u', 'l', 'l']);
                assert(s.len() >= 5);
                assert(s[0] == 'n');
                assert(s[1] == 'u');
                assert(s[2] == 'l');
                assert(s[3] == 'l');
                assert(s[4] == ' ');
                assert(!is_structural('n'));
                assert(s.subrange(1, 4) =~= seq!['u', 'l', 'l']);
                assert(spec_tokens(s) == prepend_token(TokenView::Null, spec_tokens(s.skip(4))));
                assert(s.skip(4) =~= seq![' '] + rrest);
                lemma_space_step(rrest);
            },
            TokenView::Bool(b) => {
                if b {
                    assert(r == seq!['t', 'r', 'u', 'e']);
                    assert(s.len() >= 5);
                    assert(s[0] == 't');
                    assert(s[1] == 'r');
                    assert(s[2] == 'u');
                    assert(s[3] == 'e');
                    assert(s[4] == ' ');
                    assert(!is_structural('t'));
                    assert(s.subrange(1, 4) =~= seq!['r', 'u', 'e']);
                    assert(spec_tokens(s) == prepend_token(
                        TokenView::Bool(true),
                        spec_tokens(s.skip(4)),
                    ));
                    assert(s.skip(4) =~= seq![' '] + rrest);
                    lemma_space_step(rrest);
                } else {
                    assert(r == seq!['f', 'a', 'l', 's', 'e']);
                    assert(s.len() >= 6);
                    assert(s[0] == 'f');
                    assert(s[1] == 'a');
                    assert(s[2] == 'l');
                    assert(s[3] == 's');
                    assert(s[4] == 'e');
                    assert(s[5] == ' ');
                    assert(!is_structural('f'));
                    assert(s.subrange(1, 5) =~= seq!['a', 'l', 's', 'e']);
                    assert(spec_tokens(s) == prepend_token(
                        TokenView::Bool(false),
                        spec_tokens(s.skip(5)),
                    ));
                    assert(s.skip(5) =~= seq![' '] + rrest);
                    lemma_space_step(rrest);
                }
            },
            _ => {
                let c = r[0];
                assert(r == seq![c]);
                assert(is_structural(c));
                assert(structural_token(c) == t);
                assert(s[0] == c);
                assert(spec_tokens(s) == prepend_token(
                    structural_token(c),
                    spec_tokens(s.skip(1)),
                ));
                assert(s.skip(1) =~= seq![' '] + rrest);
                lemma_space_step(rrest);
            },
        }
    }
}

} // verus!
