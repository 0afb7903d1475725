//! Numeric literal texts: decimal integer parsing and rendering, and the
//! grammar of floating-point literal texts.
//!
//! Integer literals are parsed to `i64` by a verified parser whose
//! specification is the usual positional reading of decimal digits.
//! Floating-point literal texts are not converted to a machine float here;
//! they are only checked against the decimal grammar (optional leading minus,
//! digits with an optional point, an optional exponent part), and carried
//! through as text.

use vstd::prelude::*;

verus! {

/// Decimal digit characters `'0'` through `'9'`.
pub open spec fn is_digit(c: char) -> bool {
    48 <= c as u32 && c as u32 <= 57
}

/// The numeric value of a decimal digit character.
pub open spec fn digit_val(c: char) -> int {
    c as u32 - 48
}

/// The digit character for a value between 0 and 9.
pub open spec fn digit_char(d: int) -> char {
    if d == 0 {
        '0'
    } else if d == 1 {
        '1'
    } else if d == 2 {
        '2'
    } else if d == 3 {
        '3'
    } else if d == 4 {
        '4'
    } else if d == 5 {
        '5'
    } else if d == 6 {
        '6'
    } else if d == 7 {
        '7'
    } else if d == 8 {
        '8'
    } else {
        '9'
    }
}

pub open spec fn all_digits(s: Seq<char>) -> bool {
    forall|k: int| 0 <= k < s.len() ==> is_digit(#[trigger] s[k])
}

/// The value of a digit string read positionally, most significant digit
/// first. An empty string reads as 0.
pub open spec fn digits_val(s: Seq<char>) -> int
    decreases s.len(),
{
    if s.len() == 0 {
        0
    } else {
        digits_val(s.drop_last()) * 10 + digit_val(s.last())
    }
}

/// An integer literal text: an optional leading minus followed by at least
/// one decimal digit and nothing else.
pub open spec fn int_literal_ok(s: Seq<char>) -> bool {
    if s.len() > 0 && s[0] == '-' {
        s.len() > 1 && all_digits(s.skip(1))
    } else {
        s.len() > 0 && all_digits(s)
    }
}

/// The mathematical value of an integer literal text.
pub open spec fn int_literal_val(s: Seq<char>) -> int {
    if s.len() > 0 && s[0] == '-' {
        -digits_val(s.skip(1))
    } else {
        digits_val(s)
    }
}

/// An integer literal text that is well formed and whose value fits in `i64`.
pub open spec fn i64_literal_ok(s: Seq<char>) -> bool {
    &&& int_literal_ok(s)
    &&& -9223372036854775808 <= int_literal_val(s)
    &&& int_literal_val(s) <= 9223372036854775807
}

pub proof fn lemma_digits_val_nonneg(s: Seq<char>)
    requires
        all_digits(s),
    ensures
        digits_val(s) >= 0,
    decreases s.len(),
{
    if s.len() > 0 {
        assert(all_digits(s.drop_last()));
        lemma_digits_val_nonneg(s.drop_last());
    }
}

/// Reading more digits can only increase the value: a prefix of a digit
/// string reads as at most the whole string.
pub proof fn lemma_digits_val_prefix_le(s: Seq<char>, k: int)
    requires
        all_digits(s),
        0 <= k <= s.len(),
    ensures
        digits_val(s.take(k)) <= digits_val(s),
    decreases s.len(),
{
    if k == s.len() {
        assert(s.take(k) =~= s);
    } else {
        let d = s.drop_last();
        assert(all_digits(d));
        assert(d.take(k) =~= s.take(k));
        lemma_digits_val_prefix_le(d, k);
        lemma_digits_val_nonneg(d);
    }
}

/// Decides whether `c` is a decimal digit character.
pub fn is_digit_char(c: char) -> (b: bool)
    ensures
        b == is_digit(c),
{
    let u = c as u32;
    48 <= u && u <= 57
}

/// Parses an integer literal text as a signed 64-bit integer.
///
/// Returns `Some` exactly when the text is an optional minus sign followed by
/// one or more decimal digits and the value fits in `i64`; the result is then
/// the positional reading of the digits, negated under a leading minus.
pub fn parse_i64(text: &Vec<char>) -> (r: Option<i64>)
    ensures
        match r {
            Some(v) => i64_literal_ok(text@) && v as int == int_literal_val(text@),
            None => !i64_literal_ok(text@),
        },
{
    let n = text.len();
    if n == 0 {
        return None;
    }
    let neg = text[0] == '-';
    let start: usize = if neg { 1 } else { 0 };
    if neg && n == 1 {
        return None;
    }
    let ghost limit: int = if neg {
        9223372036854775808int
    } else {
        9223372036854775807int
    };
    let last_digit_cap: u64 = if neg { 8 } else { 7 };
    let mut acc: u64 = 0;
    let mut i: usize = start;
    while i < n
        invariant
            n == text@.len(),
            0 < n,
            start <= i <= n,
            neg == (text@[0] == '-'),
            start == if neg { 1int } else { 0int },
            neg ==> n > 1,
            limit == if neg { 9223372036854775808int } else { 9223372036854775807int },
            last_digit_cap == if neg { 8u64 } else { 7u64 },
            all_digits(text@.subrange(start as int, i as int)),
            acc as int == digits_val(text@.subrange(start as int, i as int)),
            acc as int <= limit,
        decreases n - i,
    {
        let c = text[i];
        let u = c as u32;
        if !(48 <= u && u <= 57) {
            proof {
                let digits = text@.skip(start as int);
                assert(digits[i - start] == text@[i as int]);
                assert(!is_digit(digits[i - start]));
                assert(!all_digits(digits));
            }
            return None;
        }
        let d = (u - 48) as u64;
        if acc > 922337203685477580u64 || (acc == 922337203685477580u64 && d > last_digit_cap) {
            proof {
                let digits = text@.skip(start as int);
                let prefix = text@.subrange(start as int, i + 1);
                assert(prefix.drop_last() =~= text@.subrange(start as int, i as int));
                assert(prefix.last() == text@[i as int]);
                assert(digits_val(prefix) == acc as int * 10 + d as int);
                assert(acc as int * 10 + d as int > limit);
                if int_literal_ok(text@) {
                    assert(all_digits(digits));
                    assert(prefix =~= digits.take(i + 1 - start));
                    lemma_digits_val_prefix_le(digits, i + 1 - start);
                    assert(digits_val(digits) > limit);
                    if neg {
                        assert(int_literal_val(text@) < -9223372036854775808);
                    } else {
                        assert(text@.skip(0) =~= text@);
                        assert(int_literal_val(text@) > 9223372036854775807);
                    }
                }
            }
            return None;
        }
        proof {
            let prefix = text@.subrange(start as int, i + 1);
            assert(prefix.drop_last() =~= text@.subrange(start as int, i as int));
            assert(prefix.last() == text@[i as int]);
            assert(is_digit(text@[i as int]));
            assert(all_digits(prefix)) by {
                assert(forall|k: int|
                    0 <= k < prefix.len() - 1 ==> #[trigger] prefix[k] == prefix.drop_last()[k]);
            }
            assert(digits_val(prefix) == acc as int * 10 + d as int);
            assert(acc as int * 10 + d as int <= limit);
        }
        acc = acc * 10 + d;
        i += 1;
    }
    proof {
        let digits = text@.skip(start as int);
        assert(digits =~= text@.subrange(start as int, n as int));
        if !neg {
            assert(text@.skip(0) =~= text@);
        }
        assert(all_digits(digits));
        assert(acc as int == digits_val(digits));
    }
    if neg {
        if acc == 9223372036854775808u64 {
            Some(i64::MIN)
        } else {
            Some(-(acc as i64))
        }
    } else {
        Some(acc as i64)
    }
}

/// The digit string of a nonnegative value, most significant digit first;
/// empty for 0.
pub open spec fn nat_digits0(n: nat) -> Seq<char>
    decreases n,
{
    if n == 0 {
        Seq::empty()
    } else {
        nat_digits0(n / 10).push(digit_char((n % 10) as int))
    }
}

/// The canonical digit string of a nonnegative value: `"0"` for 0, no leading
/// zeros otherwise.
pub open spec fn spec_nat_render(n: nat) -> Seq<char> {
    if n == 0 {
        seq!['0']
    } else {
        nat_digits0(n)
    }
}

/// The canonical decimal rendering of a signed integer.
pub open spec fn spec_i64_render(v: int) -> Seq<char> {
    if v < 0 {
        seq!['-'] + spec_nat_render((-v) as nat)
    } else {
        spec_nat_render(v as nat)
    }
}

/// The digit string of `n` consists of digits only and reads back as `n`.
pub proof fn lemma_nat_digits0_props(n: nat)
    ensures
        all_digits(nat_digits0(n)),
        digits_val(nat_digits0(n)) == n,
        n > 0 ==> nat_digits0(n).len() >= 1,
        n == 0 ==> nat_digits0(n).len() == 0,
    decreases n,
{
    if n > 0 {
        lemma_nat_digits0_props(n / 10);
        let s = nat_digits0(n);
        assert(s.drop_last() =~= nat_digits0(n / 10));
        assert(s.last() == digit_char((n % 10) as int));
        assert(digit_val(digit_char((n % 10) as int)) == n % 10);
        assert(digits_val(s) == digits_val(nat_digits0(n / 10)) * 10 + n % 10);
        assert(forall|k: int|
            0 <= k < s.len() - 1 ==> #[trigger] s[k] == s.drop_last()[k]);
        assert(is_digit(s.last()));
    }
}

/// The canonical rendering of an `i64` value is a well-formed integer literal
/// text reading back as the same value.
pub proof fn lemma_i64_render_parses(v: int)
    requires
        -9223372036854775808 <= v <= 9223372036854775807,
    ensures
        int_literal_ok(spec_i64_render(v)),
        i64_literal_ok(spec_i64_render(v)),
        int_literal_val(spec_i64_render(v)) == v,
        spec_i64_render(v).len() > 0,
        v < 0 ==> spec_i64_render(v)[0] == '-',
        v >= 0 ==> is_digit(spec_i64_render(v)[0]),
        forall|k: int|
            0 <= k < spec_i64_render(v).len() ==> is_digit(#[trigger] spec_i64_render(v)[k])
                || spec_i64_render(v)[k] == '-',
{
    let s = spec_i64_render(v);
    if v < 0 {
        let m = (-v) as nat;
        lemma_nat_digits0_props(m);
        assert(s[0] == '-');
        assert(s.skip(1) =~= spec_nat_render(m));
        if m == 0 {
            assert(false);
        }
        assert(digits_val(s.skip(1)) == m);
        assert(int_literal_val(s) == v);
    } else {
        let m = v as nat;
        lemma_nat_digits0_props(m);
        if m == 0 {
            assert(s =~= seq!['0']);
            assert(s.drop_last() =~= Seq::<char>::empty());
            assert(digits_val(s) == 0);
            assert(s[0] != '-');
        } else {
            assert(s == nat_digits0(m));
            assert(is_digit(s[0]));
            assert(s[0] != '-');
        }
        assert(int_literal_val(s) == v);
    }
}

/// The digit character for a value between 0 and 9.
pub fn digit_char_of(d: u64) -> (c: char)
    requires
        d < 10,
    ensures
        c == digit_char(d as int),
{
    if d == 0 {
        '0'
    } else if d == 1 {
        '1'
    } else if d == 2 {
        '2'
    } else if d == 3 {
        '3'
    } else if d == 4 {
        '4'
    } else if d == 5 {
        '5'
    } else if d == 6 {
        '6'
    } else if d == 7 {
        '7'
    } else if d == 8 {
        '8'
    } else {
        '9'
    }
}

/// Renders a signed 64-bit integer as its canonical decimal character
/// sequence.
pub fn render_i64_chars(v: i64) -> (out: Vec<char>)
    ensures
        out@ == spec_i64_render(v as int),
{
    let neg = v < 0;
    let mut mag: u64 = if v >= 0 {
        v as u64
    } else {
        (-(v + 1)) as u64 + 1
    };
    let ghost m0 = mag as nat;
    assert(mag as int == if v >= 0 { v as int } else { -(v as int) });
    let mut out: Vec<char> = Vec::new();
    if mag == 0 {
        out.push('0');
        assert(out@ =~= spec_nat_render(0));
    } else {
        while mag > 0
            invariant
                nat_digits0(mag as nat) + out@ == nat_digits0(m0),
            decreases mag,
        {
            let d = mag % 10;
            let c = digit_char_of(d);
            let ghost out_pre = out@;
            out.insert(0, c);
            proof {
                let rest = (mag / 10) as nat;
                assert(out@ =~= seq![c] + out_pre);
                assert(nat_digits0(mag as nat) == nat_digits0(rest).push(digit_char(d as int)));
                assert(nat_digits0(rest).push(digit_char(d as int)) + out_pre =~= nat_digits0(rest)
                    + out@);
            }
            mag = mag / 10;
        }
        proof {
            assert(nat_digits0(0) + out@ =~= out@);
            assert(out@ == nat_digits0(m0));
            lemma_nat_digits0_props(m0);
        }
    }
    if neg {
        out.insert(0, '-');
        assert(out@ =~= seq!['-'] + spec_nat_render(m0));
    }
    out
}

/// The states of the floating-point literal grammar, read left to right:
/// an optional minus sign, digits around an optional decimal point, and an
/// optional exponent part `e`, optionally signed, with digits.
pub enum FloatState {
    Begin,
    Minus,
    IntPart,
    IntDot,
    DotOnly,
    Frac,
    ExpMark,
    ExpMinus,
    ExpPart,
    Bad,
}

pub open spec fn float_step(st: FloatState, c: char) -> FloatState {
    match st {
        FloatState::Begin => if is_digit(c) {
            FloatState::IntPart
        } else if c == '-' {
            FloatState::Minus
        } else if c == '.' {
            FloatState::DotOnly
        } else {
            FloatState::Bad
        },
        FloatState::Minus => if is_digit(c) {
            FloatState::IntPart
        } else if c == '.' {
            FloatState::DotOnly
        } else {
            FloatState::Bad
        },
        FloatState::IntPart => if is_digit(c) {
            FloatState::IntPart
        } else if c == '.' {
            FloatState::IntDot
        } else if c == 'e' {
            FloatState::ExpMark
        } else {
            FloatState::Bad
        },
        FloatState::IntDot => if is_digit(c) {
            FloatState::Frac
        } else if c == 'e' {
            FloatState::ExpMark
        } else {
            FloatState::Bad
        },
        FloatState::DotOnly => if is_digit(c) {
            FloatState::Frac
        } else {
            FloatState::Bad
        },
        FloatState::Frac => if is_digit(c) {
            FloatState::Frac
        } else if c == 'e' {
            FloatState::ExpMark
        } else {
            FloatState::Bad
        },
        FloatState::ExpMark => if is_digit(c) {
            FloatState::ExpPart
        } else if c == '-' {
            FloatState::ExpMinus
        } else {
            FloatState::Bad
        },
        FloatState::ExpMinus => if is_digit(c) {
            FloatState::ExpPart
        } else {
            FloatState::Bad
        },
        FloatState::ExpPart => if is_digit(c) {
            FloatState::ExpPart
        } else {
            FloatState::Bad
        },
        FloatState::Bad => FloatState::Bad,
    }
}

pub open spec fn float_run(st: FloatState, s: Seq<char>) -> FloatState
    decreases s.len(),
{
    if s.len() == 0 {
        st
    } else {
        float_run(float_step(st, s[0]), s.skip(1))
    }
}

pub open spec fn float_accepts(st: FloatState) -> bool {
    match st {
        FloatState::IntPart => true,
        FloatState::IntDot => true,
        FloatState::Frac => true,
        FloatState::ExpPart => true,
        _ => false,
    }
}

/// A well-formed floating-point literal text: what the grammar above accepts.
pub open spec fn float_literal_ok(s: Seq<char>) -> bool {
    float_accepts(float_run(FloatState::Begin, s))
}

fn float_step_at(st: FloatState, c: char) -> (r: FloatState)
    ensures
        r == float_step(st, c),
{
    match st {
        FloatState::Begin => if is_digit_char(c) {
            FloatState::IntPart
        } else if c == '-' {
            FloatState::Minus
        } else if c == '.' {
            FloatState::DotOnly
        } else {
            FloatState::Bad
        },
        FloatState::Minus => if is_digit_char(c) {
            FloatState::IntPart
        } else if c == '.' {
            FloatState::DotOnly
        } else {
            FloatState::Bad
        },
        FloatState::IntPart => if is_digit_char(c) {
            FloatState::IntPart
        } else if c == '.' {
            FloatState::IntDot
        } else if c == 'e' {
            FloatState::ExpMark
        } else {
            FloatState::Bad
        },
        FloatState::IntDot => if is_digit_char(c) {
            FloatState::Frac
        } else if c == 'e' {
            FloatState::ExpMark
        } else {
            FloatState::Bad
        },
        FloatState::DotOnly => if is_digit_char(c) {
            FloatState::Frac
        } else {
            FloatState::Bad
        },
        FloatState::Frac => if is_digit_char(c) {
            FloatState::Frac
        } else if c == 'e' {
            FloatState::ExpMark
        } else {
            FloatState::Bad
        },
        FloatState::ExpMark => if is_digit_char(c) {
            FloatState::ExpPart
        } else if c == '-' {
            FloatState::ExpMinus
        } else {
            FloatState::Bad
        },
        FloatState::ExpMinus => if is_digit_char(c) {
            FloatState::ExpPart
        } else {
            FloatState::Bad
        },
        FloatState::ExpPart => if is_digit_char(c) {
            FloatState::ExpPart
        } else {
            FloatState::Bad
        },
        FloatState::Bad => FloatState::Bad,
    }
}

/// Decides whether a text is a well-formed floating-point literal.
pub fn check_float(text: &Vec<char>) -> (r: bool)
    ensures
        r == float_literal_ok(text@),
{
    let mut st = FloatState::Begin;
    let mut i: usize = 0;
    assert(text@.skip(0) =~= text@);
    while i < text.len()
        invariant
            i <= text@.len(),
            float_run(FloatState::Begin, text@) == float_run(st, text@.skip(i as int)),
        decreases text@.len() - i,
    {
        let next = float_step_at(st, text[i]);
        proof {
            let tail = text@.skip(i as int);
            assert(tail[0] == text@[i as int]);
            assert(tail.skip(1) =~= text@.skip(i + 1));
        }
        st = next;
        i += 1;
    }
    proof {
        assert(text@.skip(text@.len() as int) =~= Seq::<char>::empty());
    }
    match st {
        FloatState::IntPart => true,
        FloatState::IntDot => true,
        FloatState::Frac => true,
        FloatState::ExpPart => true,
        _ => false,
    }
}

} // verus!
