//! Numeric literals.
//!
//! The lexer accepts a superset of float syntax (digits, `.`, and the hex
//! letters, see [`crate::lexer`]); a literal's text is kept verbatim in the
//! token and in the syntax tree.  This module says which of those texts are
//! well formed numbers — decimal digits with an optional point and an
//! optional `e`/`E` exponent — and computes the floor of a literal's value,
//! saturating at `usize::MAX`, for the places where the grammar reads a
//! number as an integer (tensor shape dimensions, operator precedences).

use vstd::prelude::*;

verus! {

/// A decimal digit.
pub open spec fn is_ascii_digit(c: char) -> bool {
    '0' <= c && c <= '9'
}

/// Every character of `s` is a decimal digit.
pub open spec fn seq_all_digits(s: Seq<char>) -> bool {
    forall|i: int| 0 <= i < s.len() ==> is_ascii_digit(#[trigger] s[i])
}

/// The value of a digit string, read in base ten; 0 for the empty string.
pub open spec fn digits_val(s: Seq<char>) -> nat
    decreases s.len(),
{
    if s.len() == 0 {
        0
    } else {
        digits_val(s.drop_last()) * 10 + ((s.last() as int - '0' as int) as nat)
    }
}

/// Ten to the `e`-th power.
pub open spec fn pow10(e: nat) -> nat
    decreases e,
{
    if e == 0 {
        1
    } else {
        10 * pow10((e - 1) as nat)
    }
}

/// A mantissa: digits with at most one point, and at least one digit.
pub open spec fn valid_mantissa(s: Seq<char>) -> bool {
    if seq_all_digits(s) {
        s.len() > 0
    } else {
        exists|d: int|
            0 <= d < s.len() && s[d] == '.' && s.len() >= 2 && (forall|i: int|
                0 <= i < s.len() && i != d ==> is_ascii_digit(#[trigger] s[i]))
    }
}

/// A well formed numeric literal: a mantissa, optionally followed by
/// `e` or `E` and a nonempty run of exponent digits.
pub open spec fn valid_number_text(s: Seq<char>) -> bool {
    valid_mantissa(s) || exists|d: int|
        0 <= d < s.len() && (s[d] == 'e' || s[d] == 'E') && valid_mantissa(s.take(d)) && d + 1
            < s.len() && seq_all_digits(s.skip(d + 1))
}

/// A well formed mantissa holds nothing but digits and at most one point.
proof fn lemma_mantissa_chars(m: Seq<char>, i: int)
    requires
        valid_mantissa(m),
        0 <= i < m.len(),
        !is_ascii_digit(m[i]),
    ensures
        m[i] == '.',
        forall|j: int| 0 <= j < m.len() && j != i ==> is_ascii_digit(#[trigger] m[j]),
        m.len() >= 2,
{
    assert(!seq_all_digits(m));
    let d = choose|d: int|
        0 <= d < m.len() && m[d] == '.' && m.len() >= 2 && (forall|j: int|
            0 <= j < m.len() && j != d ==> is_ascii_digit(#[trigger] m[j]));
    assert(i == d);
}

/// In a well formed literal, the exponent marker's position is unique.
proof fn lemma_exp_marker_unique(s: Seq<char>, d1: int, d2: int)
    requires
        valid_number_text(s),
        0 <= d1 < s.len() && (s[d1] == 'e' || s[d1] == 'E'),
        0 <= d2 < s.len() && (s[d2] == 'e' || s[d2] == 'E'),
    ensures
        d1 == d2,
{
    if valid_mantissa(s) {
        assert(!is_ascii_digit(s[d1]));
        lemma_mantissa_chars(s, d1);
        assert(false);
    } else {
        let d = choose|d: int|
            0 <= d < s.len() && (s[d] == 'e' || s[d] == 'E') && valid_mantissa(s.take(d)) && d + 1
                < s.len() && seq_all_digits(s.skip(d + 1));
        assert forall|x: int| 0 <= x < s.len() && (s[x] == 'e' || s[x] == 'E') implies x == d by {
            if x < d {
                assert(s.take(d)[x] == s[x]);
                assert(!is_ascii_digit(s.take(d)[x]));
                lemma_mantissa_chars(s.take(d), x);
                assert(false);
            } else if x > d {
                assert(s.skip(d + 1)[x - d - 1] == s[x]);
                assert(is_ascii_digit(s[x]));
                assert(false);
            }
        }
    }
}

/// Is `c` a decimal digit?  Mirrors [`is_ascii_digit`].
pub fn digit_char(c: char) -> (b: bool)
    ensures
        b == is_ascii_digit(c),
{
    '0' <= c && c <= '9'
}

/// Does `v[from..to]` form a well formed mantissa?
fn check_mantissa(v: &Vec<char>, from: usize, to: usize) -> (b: bool)
    requires
        from <= to <= v@.len(),
    ensures
        b == valid_mantissa(v@.subrange(from as int, to as int)),
{
    let ghost m = v@.subrange(from as int, to as int);
    let mut i: usize = from;
    let mut dot: Option<usize> = None;
    loop
        invariant
            from <= i <= to <= v@.len(),
            m == v@.subrange(from as int, to as int),
            match dot {
                Some(d) => from <= d < i && m[d - from] == '.' && forall|j: int|
                    0 <= j < i - from && j != d - from ==> is_ascii_digit(#[trigger] m[j]),
                None => forall|j: int| 0 <= j < i - from ==> is_ascii_digit(#[trigger] m[j]),
            },
        ensures
            valid_mantissa(m) == (i == to && (match dot {
                Some(d) => to - from >= 2,
                None => to - from >= 1,
            })),
        decreases to - i,
    {
        if i >= to {
            proof {
                match dot {
                    Some(d) => {
                        if to - from >= 2 {
                            assert(!is_ascii_digit(m[d - from]));
                            assert(!seq_all_digits(m));
                            assert(valid_mantissa(m));
                        } else {
                            // the single character is the point itself
                            if valid_mantissa(m) {
                                lemma_mantissa_chars(m, d - from);
                                assert(false);
                            }
                        }
                    },
                    None => {
                        assert(seq_all_digits(m));
                    },
                }
            }
            break ;
        }
        let c = v[i];
        proof {
            assert(m[i - from] == v@[i as int]);
        }
        if digit_char(c) {
            i = i + 1;
        } else if c == '.' {
            match dot {
                None => {
                    dot = Some(i);
                    i = i + 1;
                },
                Some(d) => {
                    proof {
                        if valid_mantissa(m) {
                            lemma_mantissa_chars(m, d - from);
                            assert(is_ascii_digit(m[i - from]));
                            assert(false);
                        }
                    }
                    return false;
                },
            }
        } else {
            proof {
                if valid_mantissa(m) {
                    lemma_mantissa_chars(m, i - from);
                    assert(false);
                }
            }
            return false;
        }
    }
    if i == to {
        match dot {
            Some(_) => to - from >= 2,
            None => to - from >= 1,
        }
    } else {
        false
    }
}

/// Does `v[from..to]` form a well formed numeric literal?
pub fn check_number_text(v: &Vec<char>, from: usize, to: usize) -> (b: bool)
    requires
        from <= to <= v@.len(),
    ensures
        b == valid_number_text(v@.subrange(from as int, to as int)),
{
    let ghost s = v@.subrange(from as int, to as int);
    // find the first exponent marker, if any
    let mut i: usize = from;
    loop
        invariant
            from <= i <= to <= v@.len(),
            s == v@.subrange(from as int, to as int),
            forall|j: int| 0 <= j < i - from ==> !(#[trigger] s[j] == 'e' || s[j] == 'E'),
        ensures
            from <= i <= to,
            forall|j: int| 0 <= j < i - from ==> !(#[trigger] s[j] == 'e' || s[j] == 'E'),
            i < to ==> (s[i - from] == 'e' || s[i - from] == 'E'),
        decreases to - i,
    {
        if i >= to {
            break ;
        }
        let c = v[i];
        proof {
            assert(s[i - from] == v@[i as int]);
        }
        if c == 'e' || c == 'E' {
            break ;
        }
        i = i + 1;
    }
    if i == to {
        // no exponent part: the whole text must be a mantissa
        let b = check_mantissa(v, from, to);
        proof {
            if !b && valid_number_text(s) {
                let d = choose|d: int|
                    0 <= d < s.len() && (s[d] == 'e' || s[d] == 'E') && valid_mantissa(s.take(d))
                        && d + 1 < s.len() && seq_all_digits(s.skip(d + 1));
                assert(false);
            }
        }
        b
    } else {
        let ghost d = i - from;
        let mantissa_ok = check_mantissa(v, from, i);
        proof {
            assert(s.take(d) =~= v@.subrange(from as int, i as int));
        }
        if !mantissa_ok {
            proof {
                if valid_number_text(s) {
                    if valid_mantissa(s) {
                        lemma_mantissa_chars(s, d);
                        assert(false);
                    } else {
                        let d2 = choose|d2: int|
                            0 <= d2 < s.len() && (s[d2] == 'e' || s[d2] == 'E') && valid_mantissa(
                                s.take(d2),
                            ) && d2 + 1 < s.len() && seq_all_digits(s.skip(d2 + 1));
                        lemma_exp_marker_unique(s, d, d2);
                        assert(false);
                    }
                }
            }
            return false;
        }
        if i + 1 >= to {
            proof {
                if valid_number_text(s) {
                    if valid_mantissa(s) {
                        lemma_mantissa_chars(s, d);
                        assert(false);
                    } else {
                        let d2 = choose|d2: int|
                            0 <= d2 < s.len() && (s[d2] == 'e' || s[d2] == 'E') && valid_mantissa(
                                s.take(d2),
                            ) && d2 + 1 < s.len() && seq_all_digits(s.skip(d2 + 1));
                        lemma_exp_marker_unique(s, d, d2);
                        assert(false);
                    }
                }
            }
            return false;
        }
        // all exponent characters must be digits
        let mut j: usize = i + 1;
        let mut digits_ok = true;
        loop
            invariant
                i as int + 1 <= j <= to <= v@.len(),
                from <= i < to,
                s == v@.subrange(from as int, to as int),
                d == i - from,
                digits_ok == (forall|k: int|
                    d + 1 <= k < j - from ==> is_ascii_digit(#[trigger] s[k])),
            ensures
                digits_ok == seq_all_digits(s.skip(d + 1)),
            decreases to - j,
        {
            if j >= to {
                proof {
                    assert(s.skip(d + 1) =~= v@.subrange(i as int + 1, to as int));
                    if digits_ok {
                        assert forall|k: int| 0 <= k < s.skip(d + 1).len() implies is_ascii_digit(
                            #[trigger] s.skip(d + 1)[k],
                        ) by {
                            assert(s.skip(d + 1)[k] == s[d + 1 + k]);
                        }
                    } else {
                        let k = choose|k: int|
                            d + 1 <= k < to - from && !is_ascii_digit(#[trigger] s[k]);
                        assert(s.skip(d + 1)[k - d - 1] == s[k]);
                    }
                }
                break ;
            }
            let c = v[j];
            proof {
                assert(s[j - from] == v@[j as int]);
            }
            if !digit_char(c) {
                digits_ok = false;
            }
            j = j + 1;
        }
        proof {
            if mantissa_ok && digits_ok {
                assert(valid_number_text(s));
            }
            if !digits_ok && valid_number_text(s) {
                if valid_mantissa(s) {
                    lemma_mantissa_chars(s, d);
                    assert(false);
                } else {
                    let d2 = choose|d2: int|
                        0 <= d2 < s.len() && (s[d2] == 'e' || s[d2] == 'E') && valid_mantissa(
                            s.take(d2),
                        ) && d2 + 1 < s.len() && seq_all_digits(s.skip(d2 + 1));
                    lemma_exp_marker_unique(s, d, d2);
                    assert(false);
                }
            }
        }
        digits_ok
    }
}

/// There is an exponent marker at position `d`.
pub open spec fn has_exp_at(s: Seq<char>, d: int) -> bool {
    0 <= d < s.len() && (s[d] == 'e' || s[d] == 'E')
}

/// The literal has an exponent part.
pub open spec fn has_exp(s: Seq<char>) -> bool {
    exists|d: int| has_exp_at(s, d)
}

/// The position of the exponent marker (unique in a well formed literal).
pub open spec fn exp_index(s: Seq<char>) -> int {
    choose|d: int| has_exp_at(s, d)
}

/// The mantissa: everything before the exponent marker.
pub open spec fn mantissa_of(s: Seq<char>) -> Seq<char> {
    if has_exp(s) {
        s.take(exp_index(s))
    } else {
        s
    }
}

/// The exponent's value; 0 when there is no exponent part.
pub open spec fn exp_val(s: Seq<char>) -> nat {
    if has_exp(s) {
        digits_val(s.skip(exp_index(s) + 1))
    } else {
        0
    }
}

/// There is a decimal point at position `d` of the mantissa.
pub open spec fn has_dot_at(m: Seq<char>, d: int) -> bool {
    0 <= d < m.len() && m[d] == '.'
}

/// The mantissa contains a decimal point.
pub open spec fn has_dot(m: Seq<char>) -> bool {
    exists|d: int| has_dot_at(m, d)
}

/// The position of the decimal point (unique in a well formed mantissa).
pub open spec fn dot_index(m: Seq<char>) -> int {
    choose|d: int| has_dot_at(m, d)
}

/// The mantissa's digits with the decimal point removed.
pub open spec fn sig_digits(m: Seq<char>) -> Seq<char> {
    if has_dot(m) {
        m.take(dot_index(m)) + m.skip(dot_index(m) + 1)
    } else {
        m
    }
}

/// How many digits follow the decimal point.
pub open spec fn frac_len(m: Seq<char>) -> nat {
    if has_dot(m) {
        (m.len() - dot_index(m) - 1) as nat
    } else {
        0
    }
}

/// The floor of the number a well formed literal denotes:
/// significant digits, scaled up by the exponent and down by the
/// fractional length.
pub open spec fn lit_floor(s: Seq<char>) -> nat {
    digits_val(sig_digits(mantissa_of(s))) * pow10(exp_val(s)) / pow10(
        frac_len(mantissa_of(s)),
    )
}

/// `x`, saturated at `usize::MAX`.
pub open spec fn sat_usize(x: nat) -> usize {
    if x > usize::MAX as nat {
        usize::MAX
    } else {
        x as usize
    }
}

/// What a well formed literal yields where the grammar reads an integer.
pub open spec fn lit_usize(s: Seq<char>) -> usize {
    sat_usize(lit_floor(s))
}

/// In a well formed literal an exponent marker at `d` is the marker.
proof fn lemma_exp_index_is(s: Seq<char>, d: int)
    requires
        valid_number_text(s),
        has_exp_at(s, d),
    ensures
        has_exp(s),
        exp_index(s) == d,
{
    let w = exp_index(s);
    assert(has_exp_at(s, w));
    lemma_exp_marker_unique(s, w, d);
}

/// In a well formed mantissa a point at `d` is the point.
proof fn lemma_dot_index_is(m: Seq<char>, d: int)
    requires
        valid_mantissa(m),
        has_dot_at(m, d),
    ensures
        has_dot(m),
        dot_index(m) == d,
{
    let w = dot_index(m);
    assert(has_dot_at(m, w));
    if w != d {
        lemma_mantissa_chars(m, w);
        assert(is_ascii_digit(m[d]));
        assert(false);
    }
}

/// The parts of a well formed literal are themselves well formed.
proof fn lemma_valid_parts(s: Seq<char>)
    requires
        valid_number_text(s),
    ensures
        valid_mantissa(mantissa_of(s)),
        seq_all_digits(s.skip(exp_index(s) + 1)) || !has_exp(s),
        has_exp(s) ==> exp_index(s) + 1 < s.len(),
{
    if has_exp(s) {
        let w = exp_index(s);
        assert(has_exp_at(s, w));
        if valid_mantissa(s) {
            lemma_mantissa_chars(s, w);
            assert(false);
        } else {
            let d = choose|d: int|
                0 <= d < s.len() && (s[d] == 'e' || s[d] == 'E') && valid_mantissa(s.take(d)) && d
                    + 1 < s.len() && seq_all_digits(s.skip(d + 1));
            lemma_exp_marker_unique(s, w, d);
        }
    } else {
        if !valid_mantissa(s) {
            let d = choose|d: int|
                0 <= d < s.len() && (s[d] == 'e' || s[d] == 'E') && valid_mantissa(s.take(d)) && d
                    + 1 < s.len() && seq_all_digits(s.skip(d + 1));
            assert(has_exp_at(s, d));
            assert(false);
        }
    }
}

/// A well formed mantissa's significant digits are all digits.
proof fn lemma_sig_digits_are_digits(m: Seq<char>)
    requires
        valid_mantissa(m),
    ensures
        seq_all_digits(sig_digits(m)),
{
    if has_dot(m) {
        let d = dot_index(m);
        assert(has_dot_at(m, d));
        lemma_mantissa_chars(m, d);
        let sd = sig_digits(m);
        assert forall|i: int| 0 <= i < sd.len() implies is_ascii_digit(#[trigger] sd[i]) by {
            if i < d {
                assert(sd[i] == m[i]);
            } else {
                assert(sd[i] == m[i + 1]);
            }
        }
    } else {
        if !seq_all_digits(m) {
            let i = choose|i: int| 0 <= i < m.len() && !is_ascii_digit(#[trigger] m[i]);
            lemma_mantissa_chars(m, i);
            assert(has_dot_at(m, i));
            assert(false);
        }
    }
}

proof fn lemma_pow10_pos(e: nat)
    ensures
        pow10(e) >= 1,
    decreases e,
{
    if e > 0 {
        lemma_pow10_pos((e - 1) as nat);
    }
}

proof fn lemma_pow10_adds(a: nat, b: nat)
    ensures
        pow10(a + b) == pow10(a) * pow10(b),
    decreases a,
{
    if a == 0 {
        assert(pow10(0 + b) == 1 * pow10(b));
    } else {
        lemma_pow10_adds((a - 1) as nat, b);
        assert(pow10(a + b) == 10 * pow10((a - 1) as nat + b));
        assert(10 * (pow10((a - 1) as nat) * pow10(b)) == (10 * pow10((a - 1) as nat)) * pow10(b))
            by (nonlinear_arith);
    }
}

proof fn lemma_pow10_increases(a: nat, b: nat)
    requires
        a <= b,
    ensures
        pow10(a) <= pow10(b),
    decreases b,
{
    if a < b {
        lemma_pow10_increases(a, (b - 1) as nat);
        lemma_pow10_pos((b - 1) as nat);
    }
}

/// Appending digit strings multiplies the left part by ten to the length
/// of the right part.
proof fn lemma_digits_val_concat(a: Seq<char>, b: Seq<char>)
    ensures
        digits_val(a + b) == digits_val(a) * pow10(b.len()) + digits_val(b),
    decreases b.len(),
{
    if b.len() == 0 {
        assert(a + b =~= a);
        assert(digits_val(b) == 0);
        assert(pow10(0) == 1);
        assert(digits_val(a) * pow10(b.len()) == digits_val(a)) by (nonlinear_arith)
            requires
                pow10(b.len()) == 1,
        ;
        assert(digits_val(a + b) == digits_val(a) * pow10(b.len()) + digits_val(b));
    } else {
        let b0 = b.drop_last();
        lemma_digits_val_concat(a, b0);
        assert((a + b).drop_last() =~= a + b0);
        assert((a + b).last() == b.last());
        let p0 = pow10(b0.len());
        let dl = ((b.last() as int - '0' as int) as nat);
        assert(digits_val(a + b) == digits_val((a + b).drop_last()) * 10 + dl);
        assert(digits_val(a + b) == (digits_val(a) * p0 + digits_val(b0)) * 10 + dl);
        assert((digits_val(a) * p0 + digits_val(b0)) * 10 == digits_val(a) * (p0 * 10)
            + digits_val(b0) * 10) by (nonlinear_arith);
        assert(pow10(b.len()) == 10 * p0);
        assert(digits_val(a) * (p0 * 10) == digits_val(a) * pow10(b.len()));
        assert(digits_val(b) == digits_val(b0) * 10 + dl);
        assert(digits_val(a + b) == digits_val(a) * pow10(b.len()) + digits_val(b));
    }
}

/// A digit string's value is below ten to its length.
proof fn lemma_digits_val_bound(s: Seq<char>)
    requires
        seq_all_digits(s),
    ensures
        digits_val(s) < pow10(s.len()),
    decreases s.len(),
{
    if s.len() == 0 {
    } else {
        let s0 = s.drop_last();
        assert(seq_all_digits(s0)) by {
            assert(forall|i: int| 0 <= i < s0.len() ==> s0[i] == s[i]);
        }
        lemma_digits_val_bound(s0);
        assert(is_ascii_digit(s.last()));
        assert(((s.last() as int - '0' as int) as nat) <= 9);
        assert(digits_val(s0) * 10 <= (pow10(s0.len()) - 1) * 10) by (nonlinear_arith)
            requires
                digits_val(s0) < pow10(s0.len()),
        ;
        assert(pow10(s.len()) == 10 * pow10(s0.len()));
    }
}

/// Dropping the last `k` digits divides the value by ten to the `k`.
proof fn lemma_digits_val_take(s: Seq<char>, k: int)
    requires
        seq_all_digits(s),
        0 <= k <= s.len(),
    ensures
        digits_val(s.take(k)) == digits_val(s) / pow10((s.len() - k) as nat),
{
    let a = s.take(k);
    let b = s.skip(k);
    assert(s =~= a + b);
    lemma_digits_val_concat(a, b);
    assert(seq_all_digits(b)) by {
        assert(forall|i: int| 0 <= i < b.len() ==> b[i] == s[k + i]);
    }
    lemma_digits_val_bound(b);
    let p = pow10(b.len());
    lemma_pow10_pos(b.len());
    vstd::arithmetic::div_mod::lemma_fundamental_div_mod_converse(
        digits_val(s) as int,
        p as int,
        digits_val(a) as int,
        digits_val(b) as int,
    );
}

/// `x`, saturated at `u128::MAX`.
pub open spec fn sat_u128(x: nat) -> u128 {
    if x > u128::MAX as nat {
        u128::MAX
    } else {
        x as u128
    }
}

/// `x > (m - d) / 10` exactly when `10 * x + d > m`.
proof fn lemma_mul10_threshold(x: int, m: int, d: int)
    requires
        0 <= x,
        0 <= d <= m,
    ensures
        (x > (m - d) / 10) <==> (10 * x + d > m),
{
    vstd::arithmetic::div_mod::lemma_fundamental_div_mod(m - d, 10);
}

/// One step of base-ten accumulation, saturating at `usize::MAX`.
fn sat_step_usize(acc: usize, d: usize, Ghost(val): Ghost<nat>) -> (r: usize)
    requires
        acc == sat_usize(val),
        d <= 9,
    ensures
        r == sat_usize((val * 10 + d) as nat),
{
    proof {
        lemma_mul10_threshold(acc as int, usize::MAX as int, d as int);
        if val > usize::MAX as nat {
            assert(val * 10 >= val) by (nonlinear_arith)
                requires
                    val >= 0,
            ;
        }
    }
    if acc > (usize::MAX - d) / 10 {
        usize::MAX
    } else {
        acc * 10 + d
    }
}

/// One step of base-ten accumulation, saturating at `u128::MAX`.
fn sat_step_u128(acc: u128, d: u128, Ghost(val): Ghost<nat>) -> (r: u128)
    requires
        acc == sat_u128(val),
        d <= 9,
    ensures
        r == sat_u128((val * 10 + d) as nat),
{
    proof {
        lemma_mul10_threshold(acc as int, u128::MAX as int, d as int);
        if val > u128::MAX as nat {
            assert(val * 10 >= val) by (nonlinear_arith)
                requires
                    val >= 0,
            ;
        }
    }
    if acc > (u128::MAX - d) / 10 {
        u128::MAX
    } else {
        acc * 10 + d
    }
}

/// The numeric digit denoted by a digit character.
fn digit_of(c: char) -> (d: usize)
    requires
        is_ascii_digit(c),
    ensures
        d == c as int - '0' as int,
        d <= 9,
{
    (c as u32 - '0' as u32) as usize
}

/// The value of the digit run `v[from..to]`, saturating at `usize::MAX`.
fn digits_value_sat(v: &Vec<char>, from: usize, to: usize) -> (r: usize)
    requires
        from <= to <= v@.len(),
        seq_all_digits(v@.subrange(from as int, to as int)),
    ensures
        r == sat_usize(digits_val(v@.subrange(from as int, to as int))),
{
    let ghost s = v@.subrange(from as int, to as int);
    let mut acc: usize = 0;
    let mut i: usize = from;
    while i < to
        invariant
            from <= i <= to <= v@.len(),
            s == v@.subrange(from as int, to as int),
            seq_all_digits(s),
            acc == sat_usize(digits_val(s.take(i - from))),
        decreases to - i,
    {
        let c = v[i];
        proof {
            assert(s[i - from] == v@[i as int]);
            assert(s.take(i - from + 1).drop_last() =~= s.take(i - from));
        }
        let d = digit_of(c);
        acc = sat_step_usize(acc, d, Ghost(digits_val(s.take(i as int - from))));
        i = i + 1;
    }
    proof {
        assert(s.take(to - from) =~= s);
    }
    acc
}

/// The value of the digit run `v[from..to]`, saturating at `u128::MAX`.
fn digits_value_sat_u128(v: &Vec<char>, from: usize, to: usize) -> (r: u128)
    requires
        from <= to <= v@.len(),
        seq_all_digits(v@.subrange(from as int, to as int)),
    ensures
        r == sat_u128(digits_val(v@.subrange(from as int, to as int))),
{
    let ghost s = v@.subrange(from as int, to as int);
    let mut acc: u128 = 0;
    let mut i: usize = from;
    while i < to
        invariant
            from <= i <= to <= v@.len(),
            s == v@.subrange(from as int, to as int),
            seq_all_digits(s),
            acc == sat_u128(digits_val(s.take(i - from))),
        decreases to - i,
    {
        let c = v[i];
        proof {
            assert(s[i - from] == v@[i as int]);
            assert(s.take(i - from + 1).drop_last() =~= s.take(i - from));
        }
        let d = digit_of(c);
        acc = sat_step_u128(acc, d as u128, Ghost(digits_val(s.take(i as int - from))));
        i = i + 1;
    }
    proof {
        assert(s.take(to - from) =~= s);
    }
    acc
}

/// Ten to the 39th exceeds `usize::MAX` on every supported word size.
proof fn lemma_pow10_39_huge()
    ensures
        pow10(39) > usize::MAX as nat,
{
    reveal_with_fuel(pow10, 41);
    assert(usize::MAX as nat <= u64::MAX as nat);
}

/// `x`, multiplied by ten `k` times, saturating at `usize::MAX`.
fn mul_pow10_sat(x: usize, k: usize, Ghost(xv): Ghost<nat>) -> (r: usize)
    requires
        x == sat_usize(xv),
        k <= 38,
    ensures
        r == sat_usize(xv * pow10(k as nat)),
{
    let mut acc: usize = x;
    let mut j: usize = 0;
    proof {
        assert(pow10(0) == 1);
        assert(xv * pow10(0) == xv) by (nonlinear_arith)
            requires
                pow10(0) == 1,
        ;
    }
    while j < k
        invariant
            j <= k,
            acc == sat_usize(xv * pow10(j as nat)),
        decreases k - j,
    {
        proof {
            assert(xv * pow10(j as nat) * 10 == xv * (pow10(j as nat) * 10)) by (nonlinear_arith);
            assert(pow10((j + 1) as nat) == 10 * pow10(j as nat));
        }
        acc = sat_step_usize(acc, 0, Ghost(xv * pow10(j as nat)));
        j = j + 1;
    }
    proof {
        assert(xv * pow10(j as nat) * 10 + 0 == xv * pow10(j as nat) * 10);
    }
    acc
}

/// The text of one numeric literal, as it stood in the source.
///
/// Stands in for the float value the literal denotes: the front end never
/// does float arithmetic, it only carries literal data through to constant
/// operations and, where the grammar wants an integer, takes the floor of
/// the denoted value.
#[derive(Debug, Clone)]
pub struct NumLit {
    pub text: String,
}

impl NumLit {
    /// The literal's text denotes a number.
    pub open spec fn wf(&self) -> bool {
        valid_number_text(self.text@)
    }

    pub fn new(text: String) -> (r: NumLit)
        ensures
            r.text@ == text@,
    {
        NumLit { text }
    }

    /// The literal's text, for callers that only display or compare it.
    pub fn text(&self) -> (r: &str)
        ensures
            r@ == self.text@,
    {
        self.text.as_str()
    }

    /// Does the text denote a number?  Mirrors [`NumLit::wf`].
    pub fn is_valid(&self) -> (b: bool)
        ensures
            b == self.wf(),
    {
        let v = crate::text::chars_of(self.text.as_str());
        let n = v.len();
        proof {
            assert(v@.subrange(0, n as int) =~= v@);
        }
        check_number_text(&v, 0, n)
    }

    /// The floor of the denoted value, saturating at `usize::MAX`: what the
    /// grammar reads where it wants an integer.
    pub fn value_as_usize(&self) -> (r: usize)
        requires
            self.wf(),
        ensures
            r == lit_usize(self.text@),
    {
        let ghost s = self.text@;
        let v = crate::text::chars_of(self.text.as_str());
        let n = v.len();
        proof {
            lemma_valid_parts(s);
        }
        // locate the exponent marker, if any
        let mut i: usize = 0;
        loop
            invariant
                0 <= i <= n,
                n == v@.len(),
                v@ == s,
                forall|j: int| 0 <= j < i ==> !has_exp_at(s, j),
            ensures
                0 <= i <= n,
                i < n ==> has_exp_at(s, i as int),
                i == n ==> !has_exp(s),
            decreases n - i,
        {
            if i >= n {
                break ;
            }
            let c = v[i];
            if c == 'e' || c == 'E' {
                break ;
            }
            i = i + 1;
        }
        let e_found: bool = i < n;
        let e_pos: usize = i;
        proof {
            if e_found {
                lemma_exp_index_is(s, e_pos as int);
            }
        }
        let m_end: usize = if e_found {
            e_pos
        } else {
            n
        };
        let ghost m = mantissa_of(s);
        proof {
            if e_found {
                assert(m =~= v@.subrange(0, m_end as int));
            } else {
                assert(m =~= v@.subrange(0, m_end as int));
            }
        }
        // locate the decimal point, if any
        let mut j: usize = 0;
        loop
            invariant
                0 <= j <= m_end <= n == v@.len(),
                v@ == s,
                m == v@.subrange(0, m_end as int),
                forall|x: int| 0 <= x < j ==> !has_dot_at(m, x),
            ensures
                0 <= j <= m_end,
                j < m_end ==> has_dot_at(m, j as int),
                j == m_end ==> !has_dot(m),
            decreases m_end - j,
        {
            if j >= m_end {
                break ;
            }
            let c = v[j];
            proof {
                assert(m[j as int] == v@[j as int]);
            }
            if c == '.' {
                break ;
            }
            j = j + 1;
        }
        let dot_found: bool = j < m_end;
        let dot_pos: usize = j;
        proof {
            if dot_found {
                lemma_dot_index_is(m, dot_pos as int);
            }
        }
        // the significant digits: the mantissa with the point removed
        let ghost sd = sig_digits(m);
        proof {
            lemma_sig_digits_are_digits(m);
        }
        let mut digits: Vec<char> = Vec::new();
        if dot_found {
            let mut p: usize = 0;
            while p < dot_pos
                invariant
                    0 <= p <= dot_pos < m_end <= n == v@.len(),
                    v@ == s,
                    m == v@.subrange(0, m_end as int),
                    digits@ == m.take(dot_pos as int).take(p as int),
                decreases dot_pos - p,
            {
                proof {
                    assert(m.take(dot_pos as int).take(p + 1 as int) =~= m.take(
                        dot_pos as int,
                    ).take(p as int).push(m[p as int]));
                    assert(m[p as int] == v@[p as int]);
                }
                digits.push(v[p]);
                p = p + 1;
            }
            proof {
                assert(m.take(dot_pos as int).take(dot_pos as int) =~= m.take(dot_pos as int));
            }
            let mut q: usize = dot_pos + 1;
            while q < m_end
                invariant
                    dot_pos + 1 <= q <= m_end <= n == v@.len(),
                    v@ == s,
                    m == v@.subrange(0, m_end as int),
                    digits@ == m.take(dot_pos as int) + m.skip(dot_pos + 1).take(
                        q - dot_pos - 1,
                    ),
                decreases m_end - q,
            {
                proof {
                    assert(m.skip(dot_pos + 1).take(q - dot_pos) =~= m.skip(dot_pos + 1).take(
                        q - dot_pos - 1,
                    ).push(m[q as int]));
                    assert(m[q as int] == v@[q as int]);
                }
                digits.push(v[q]);
                q = q + 1;
            }
            proof {
                assert(m.skip(dot_pos + 1).take(m_end - dot_pos - 1) =~= m.skip(dot_pos + 1));
                assert(digits@ == sd);
            }
        } else {
            let mut p: usize = 0;
            while p < m_end
                invariant
                    0 <= p <= m_end <= n == v@.len(),
                    v@ == s,
                    m == v@.subrange(0, m_end as int),
                    digits@ == m.take(p as int),
                decreases m_end - p,
            {
                proof {
                    assert(m.take(p + 1 as int) =~= m.take(p as int).push(m[p as int]));
                    assert(m[p as int] == v@[p as int]);
                }
                digits.push(v[p]);
                p = p + 1;
            }
            proof {
                assert(m.take(m_end as int) =~= m);
                assert(digits@ == sd);
            }
        }
        let frac: usize = if dot_found {
            m_end - dot_pos - 1
        } else {
            0
        };
        proof {
            assert(frac == frac_len(m));
        }
        // the significant digits' value, and the exponent's value
        let dlen = digits.len();
        proof {
            assert(digits@.subrange(0, dlen as int) =~= digits@);
        }
        let d_acc = digits_value_sat(&digits, 0, dlen);
        let ghost dv = digits_val(sd);
        let ghost ev = exp_val(s);
        let e128: u128 = if e_found {
            proof {
                assert(s.skip(e_pos + 1) =~= v@.subrange(e_pos + 1, n as int));
            }
            digits_value_sat_u128(&v, e_pos + 1, n)
        } else {
            proof {
                assert(v@.subrange(n as int, n as int) =~= Seq::<char>::empty());
            }
            digits_value_sat_u128(&v, n, n)
        };
        proof {
            assert(e128 == sat_u128(ev));
            assert(lit_floor(s) == dv * pow10(ev) / pow10(frac as nat));
            lemma_pow10_pos(ev);
            lemma_pow10_pos(frac as nat);
        }
        let frac39: u128 = frac as u128 + 39;
        if e128 >= frac39 {
            // the exponent outruns the fraction by at least 39 places
            proof {
                assert(ev >= frac + 39);
                let shift = (ev - frac) as nat;
                lemma_pow10_adds(shift, frac as nat);
                assert(dv * pow10(ev) == (dv * pow10(shift)) * pow10(frac as nat))
                    by (nonlinear_arith)
                    requires
                        pow10(ev) == pow10(shift) * pow10(frac as nat),
                ;
                vstd::arithmetic::mul::lemma_mul_is_commutative(
                    (dv * pow10(shift)) as int,
                    pow10(frac as nat) as int,
                );
                vstd::arithmetic::div_mod::lemma_div_multiples_vanish(
                    (dv * pow10(shift)) as int,
                    pow10(frac as nat) as int,
                );
                assert(lit_floor(s) == dv * pow10(shift));
            }
            if d_acc == 0 {
                proof {
                    assert(dv == 0);
                    let shift = (ev - frac) as nat;
                    assert(dv * pow10(shift) == 0) by (nonlinear_arith)
                        requires
                            dv == 0,
                    ;
                }
                0
            } else {
                proof {
                    let shift = (ev - frac) as nat;
                    assert(dv >= 1);
                    assert(dv * pow10(shift) >= pow10(shift)) by (nonlinear_arith)
                        requires
                            dv >= 1,
                            pow10(shift) >= 0,
                    ;
                    lemma_pow10_increases(39, shift);
                    lemma_pow10_39_huge();
                }
                usize::MAX
            }
        } else {
            proof {
                // below the cutoff the saturated exponent is exact
                assert(ev == e128 as nat);
            }
            if e128 >= frac as u128 {
                let shift: usize = (e128 - frac as u128) as usize;
                proof {
                    assert(shift < 39);
                    lemma_pow10_adds(shift as nat, frac as nat);
                    assert(dv * pow10(ev) == (dv * pow10(shift as nat)) * pow10(frac as nat))
                        by (nonlinear_arith)
                        requires
                            pow10(ev) == pow10(shift as nat) * pow10(frac as nat),
                    ;
                    vstd::arithmetic::mul::lemma_mul_is_commutative(
                        (dv * pow10(shift as nat)) as int,
                        pow10(frac as nat) as int,
                    );
                    vstd::arithmetic::div_mod::lemma_div_multiples_vanish(
                        (dv * pow10(shift as nat)) as int,
                        pow10(frac as nat) as int,
                    );
                    assert(lit_floor(s) == dv * pow10(shift as nat));
                }
                mul_pow10_sat(d_acc, shift, Ghost(dv))
            } else {
                let k: usize = frac - (e128 as usize);
                proof {
                    lemma_pow10_adds(ev, k as nat);
                    lemma_pow10_pos(k as nat);
                    vstd::arithmetic::div_mod::lemma_div_denominator(
                        (dv * pow10(ev)) as int,
                        pow10(ev) as int,
                        pow10(k as nat) as int,
                    );
                    vstd::arithmetic::mul::lemma_mul_is_commutative(dv as int, pow10(ev) as int);
                    vstd::arithmetic::div_mod::lemma_div_multiples_vanish(
                        dv as int,
                        pow10(ev) as int,
                    );
                    assert(dv * pow10(ev) / pow10(ev) == dv);
                    assert(lit_floor(s) == dv / pow10(k as nat));
                }
                if k <= dlen {
                    let keep = dlen - k;
                    proof {
                        lemma_digits_val_take(sd, keep as int);
                        assert(digits@.subrange(0, keep as int) =~= sd.take(keep as int));
                    }
                    digits_value_sat(&digits, 0, keep)
                } else {
                    proof {
                        lemma_digits_val_bound(sd);
                        lemma_pow10_increases(sd.len(), k as nat);
                        vstd::arithmetic::div_mod::lemma_fundamental_div_mod_converse(
                            dv as int,
                            pow10(k as nat) as int,
                            0,
                            dv as int,
                        );
                    }
                    0
                }
            }
        }
    }
}

} // verus!
