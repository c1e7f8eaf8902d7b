//! Printing of decimal numbers given as (sign, mantissa, exponent) parts:
//! the value of `(positive, m, e)` is `±m·10^e`.

use crate::text::string_of;
use vstd::arithmetic::div_mod::*;
use vstd::prelude::*;

verus! {

/// `10^n`.
pub open spec fn pow10(n: nat) -> nat
    decreases n,
{
    if n == 0 {
        1
    } else {
        10 * pow10((n - 1) as nat)
    }
}

/// The character of the decimal digit `d` (`0 <= d < 10`).
pub open spec fn digit_char(d: nat) -> char {
    if d == 0 {
        '0'
    } else if d == 1 {
        '1'
    } else if d == 2 {
        '2'
    } else if d == 3 {
        '3'
    } else if d == 4 {
        '4'
    } else if d == 5 {
        '5'
    } else if d == 6 {
        '6'
    } else if d == 7 {
        '7'
    } else if d == 8 {
        '8'
    } else {
        '9'
    }
}

/// The decimal writing of `n`, without leading zeros (`"0"` for zero).
pub open spec fn digits(n: nat) -> Seq<char>
    decreases n,
{
    if n < 10 {
        seq![digit_char(n)]
    } else {
        digits(n / 10).push(digit_char(n % 10))
    }
}

/// `n` zero characters.
pub open spec fn zeros(n: nat) -> Seq<char>
    decreases n,
{
    if n == 0 {
        Seq::empty()
    } else {
        zeros((n - 1) as nat).push('0')
    }
}

pub open spec fn sign_text(positive: bool) -> Seq<char> {
    if positive {
        Seq::empty()
    } else {
        seq!['-']
    }
}

/// The text of `(positive, m, e)`: the sign, the integral part, then the
/// fractional part padded to `-e` digits when `e < 0`. With `force`, an
/// integral value (`e >= 0`) ends in `.0`.
pub open spec fn decimal_text(positive: bool, m: nat, e: int, force: bool) -> Seq<char> {
    if e >= 0 {
        sign_text(positive) + digits(m * pow10(e as nat)) + (if force {
            seq!['.', '0']
        } else {
            Seq::empty()
        })
    } else {
        let k = (-e) as nat;
        let frac = digits(m % pow10(k));
        sign_text(positive) + digits(m / pow10(k)) + seq!['.'] + zeros((k - frac.len()) as nat)
            + frac
    }
}

/// `m / 10^k` rounded half away from zero.
pub open spec fn rounded_div(m: nat, k: nat) -> nat {
    (m + pow10(k) / 2) / pow10(k)
}

/// `(positive, m, e)` clamped to at most `precision` fractional digits;
/// a value that rounds to zero becomes `(true, 0, 0)`.
pub open spec fn precision_parts(p: (bool, u64, i16), precision: i16) -> (bool, u64, i16) {
    let (positive, m, e) = p;
    if e < -precision {
        let q = rounded_div(m as nat, (-(precision + e)) as nat);
        if q == 0 {
            (true, 0u64, 0i16)
        } else {
            (positive, q as u64, (-precision) as i16)
        }
    } else {
        p
    }
}

/// Clamping is idempotent: parts already clamped to `precision` fractional
/// digits are printed again as they are.
pub proof fn lemma_precision_idempotent(p: (bool, u64, i16), precision: i16)
    requires
        precision >= 0,
    ensures
        precision_parts(precision_parts(p, precision), precision) == precision_parts(p, precision),
{
}

pub proof fn lemma_pow10_positive(n: nat)
    ensures
        pow10(n) >= 1,
    decreases n,
{
    if n > 0 {
        lemma_pow10_positive((n - 1) as nat);
    }
}

pub proof fn lemma_pow10_monotone(a: nat, b: nat)
    requires
        a <= b,
    ensures
        pow10(a) <= pow10(b),
    decreases b,
{
    if a < b {
        lemma_pow10_monotone(a, (b - 1) as nat);
        lemma_pow10_positive((b - 1) as nat);
    }
}

proof fn lemma_digits_times_ten(n: nat)
    requires
        n > 0,
    ensures
        digits(n * 10) == digits(n).push('0'),
{
    assert(n * 10 >= 10) by (nonlinear_arith)
        requires
            n > 0,
    ;
    assert((n * 10) / 10 == n) by (nonlinear_arith);
    assert((n * 10) % 10 == 0) by (nonlinear_arith);
}

proof fn lemma_digits_shift(m: nat, e: nat)
    requires
        m > 0,
    ensures
        digits(m * pow10(e)) == digits(m) + zeros(e),
    decreases e,
{
    if e == 0 {
        assert(pow10(0) == 1);
        assert(m * 1 == m);
        assert(digits(m) + zeros(0) =~= digits(m));
    } else {
        let e1 = (e - 1) as nat;
        lemma_digits_shift(m, e1);
        lemma_pow10_positive(e1);
        assert(m * pow10(e1) > 0) by (nonlinear_arith)
            requires
                m > 0,
                pow10(e1) >= 1,
        ;
        lemma_digits_times_ten(m * pow10(e1));
        assert(m * pow10(e) == (m * pow10(e1)) * 10) by (nonlinear_arith)
            requires
                pow10(e) == 10 * pow10(e1),
        ;
        assert(digits(m) + zeros(e) =~= (digits(m) + zeros(e1)).push('0'));
    }
}

proof fn lemma_digits_len(n: nat)
    ensures
        1 <= digits(n).len(),
        n < pow10((digits(n).len() - 1) as nat) * 10,
    decreases n,
{
    if n >= 10 {
        lemma_digits_len(n / 10);
    }
}

/// Lengths of decimal writings are at most the number of digits of the bound.
proof fn lemma_digits_len_bound(n: nat, k: nat)
    requires
        n < pow10(k),
        k >= 1,
    ensures
        digits(n).len() <= k,
    decreases k,
{
    if n >= 10 {
        assert(n / 10 < pow10((k - 1) as nat)) by {
            lemma_div_is_ordered(n as int, (pow10(k) - 1) as int, 10);
            assert(pow10(k) == 10 * pow10((k - 1) as nat));
            lemma_div_multiples_vanish_fancy(pow10((k - 1) as nat) as int, 9, 10);
            assert((pow10(k) - 1) as int / 10 == pow10((k - 1) as nat) - 1) by {
                lemma_fundamental_div_mod_converse(
                    (pow10(k) - 1) as int,
                    10,
                    (pow10((k - 1) as nat) - 1) as int,
                    9,
                );
            }
        }
        if k == 1 {
            assert(false);
        } else {
            lemma_digits_len_bound(n / 10, (k - 1) as nat);
        }
    }
}

fn digit_char_of(d: u64) -> (c: char)
    requires
        d < 10,
    ensures
        c == digit_char(d as nat),
{
    if d == 0 {
        '0'
    } else if d == 1 {
        '1'
    } else if d == 2 {
        '2'
    } else if d == 3 {
        '3'
    } else if d == 4 {
        '4'
    } else if d == 5 {
        '5'
    } else if d == 6 {
        '6'
    } else if d == 7 {
        '7'
    } else if d == 8 {
        '8'
    } else {
        '9'
    }
}

/// Appends the decimal writing of `n`.
pub(crate) fn push_digits(out: &mut Vec<char>, n: u64)
    ensures
        final(out)@ == old(out)@ + digits(n as nat),
    decreases n,
{
    if n < 10 {
        out.push(digit_char_of(n));
    } else {
        push_digits(out, n / 10);
        out.push(digit_char_of(n % 10));
    }
}

/// Appends `n` zeros.
fn push_zeros(out: &mut Vec<char>, n: u64)
    ensures
        final(out)@ == old(out)@ + zeros(n as nat),
{
    let mut i: u64 = 0;
    while i < n
        invariant
            i <= n,
            out@ == old(out)@ + zeros(i as nat),
        decreases n - i,
    {
        out.push('0');
        i = i + 1;
    }
}

/// `10^k` for `k <= 19`, the powers that fit in a `u64`.
fn pow10_u64(k: u64) -> (r: u64)
    requires
        k <= 19,
    ensures
        r as nat == pow10(k as nat),
        r >= 1,
{
    let mut r: u64 = 1;
    let mut i: u64 = 0;
    while i < k
        invariant
            i <= k <= 19,
            r as nat == pow10(i as nat),
        decreases k - i,
    {
        proof {
            lemma_pow10_monotone((i + 1) as nat, 19);
            assert(pow10(19) == 10000000000000000000) by {
                reveal_with_fuel(pow10, 20);
            }
        }
        r = r * 10;
        i = i + 1;
    }
    proof {
        lemma_pow10_positive(k as nat);
    }
    r
}

proof fn lemma_big_power(m: nat, k: nat)
    requires
        k >= 20,
        m <= u64::MAX,
    ensures
        m < pow10(k),
        pow10(k) / 2 > m,
{
    lemma_pow10_monotone(20, k);
    assert(pow10(20) == 100000000000000000000) by {
        reveal_with_fuel(pow10, 21);
    }
}

/// `n` zero characters, or none when `n <= 0`.
pub fn trailing_zeros(n: i16) -> (r: String)
    ensures
        r@ == (if n <= 0 {
            Seq::empty()
        } else {
            zeros(n as nat)
        }),
{
    let mut out: Vec<char> = Vec::new();
    if n > 0 {
        push_zeros(&mut out, n as u64);
    }
    string_of(&out)
}

/// Appends the digits of `m·10^e`, for `e >= 0`.
fn push_integral(out: &mut Vec<char>, m: u64, e: i16)
    requires
        e >= 0,
    ensures
        final(out)@ == old(out)@ + digits(m as nat * pow10(e as nat)),
{
    if m == 0 {
        out.push('0');
        assert(m * pow10(e as nat) == 0);
    } else {
        push_digits(out, m);
        push_zeros(out, e as u64);
        proof {
            lemma_digits_shift(m as nat, e as nat);
        }
        assert(final(out)@ =~= old(out)@ + digits(m as nat * pow10(e as nat)));
    }
}

/// Appends `m / 10^k`, a point, and `m % 10^k` padded to `k` digits.
fn push_fraction(out: &mut Vec<char>, m: u64, k: u64)
    requires
        k >= 1,
    ensures
        final(out)@ == old(out)@ + digits(m as nat / pow10(k as nat)) + seq!['.'] + zeros(
            (k - digits(m as nat % pow10(k as nat)).len()) as nat,
        ) + digits(m as nat % pow10(k as nat)),
{
    let (q, r) = if k <= 19 {
        let p = pow10_u64(k);
        (m / p, m % p)
    } else {
        proof {
            lemma_big_power(m as nat, k as nat);
            lemma_basic_div(m as int, pow10(k as nat) as int);
            lemma_small_mod(m as nat, pow10(k as nat));
        }
        (0u64, m)
    };
    push_digits(out, q);
    out.push('.');
    let ghost mid = out@;
    let mut frac: Vec<char> = Vec::new();
    push_digits(&mut frac, r);
    proof {
        lemma_pow10_positive(k as nat);
        lemma_fundamental_div_mod(m as int, pow10(k as nat) as int);
        assert(r < pow10(k as nat));
        lemma_digits_len_bound(r as nat, k as nat);
    }
    push_zeros(out, k - frac.len() as u64);
    let mut i: usize = 0;
    while i < frac.len()
        invariant
            i <= frac@.len(),
            out@ == mid + zeros((k - frac@.len()) as nat) + frac@.subrange(0, i as int),
        decreases frac@.len() - i,
    {
        out.push(frac[i]);
        assert(frac@.subrange(0, i + 1) == frac@.subrange(0, i as int).push(frac@[i as int]));
        i = i + 1;
    }
    assert(frac@.subrange(0, frac@.len() as int) == frac@);
}

/// Appends the text of `(positive, m, e)` (see `decimal_text`).
pub(crate) fn push_decimal(out: &mut Vec<char>, positive: bool, m: u64, e: i16, force: bool)
    ensures
        final(out)@ == old(out)@ + decimal_text(positive, m as nat, e as int, force),
{
    let ghost start = out@;
    if !positive {
        out.push('-');
    }
    assert(out@ == start + sign_text(positive));
    if e >= 0 {
        push_integral(out, m, e);
        if force {
            out.push('.');
            out.push('0');
        }
        proof {
            let d = digits(m as nat * pow10(e as nat));
            if force {
                assert(out@ =~= start + sign_text(positive) + d + seq!['.', '0']);
            } else {
                assert(out@ =~= start + sign_text(positive) + d + Seq::<char>::empty());
            }
        }
    } else {
        let k: u64 = (-(e as i32)) as u64;
        push_fraction(out, m, k);
        assert(out@ =~= start + decimal_text(positive, m as nat, e as int, force));
    }
}

/// Prints `(positive, m, e)` (see `decimal_text`).
pub fn fmt_parts(p: (bool, u64, i16), force: bool) -> (r: String)
    ensures
        r@ == decimal_text(p.0, p.1 as nat, p.2 as int, force),
{
    let mut out: Vec<char> = Vec::new();
    push_decimal(&mut out, p.0, p.1, p.2, force);
    assert(out@ == Seq::<char>::empty() + decimal_text(p.0, p.1 as nat, p.2 as int, force));
    string_of(&out)
}

/// Clamps `p` to `precision` fractional digits (see `precision_parts`).
pub fn parts_with_precision(p: (bool, u64, i16), precision: i16) -> (r: (bool, u64, i16))
    requires
        precision > i16::MIN,
    ensures
        r == precision_parts(p, precision),
{
    let (positive, m, e) = p;
    if (e as i32) < -(precision as i32) {
        let k: u64 = (-((precision as i32) + (e as i32))) as u64;
        let q: u64 = if k <= 19 {
            let pk = pow10_u64(k);
            let half = pk / 2;
            let (d, r) = (m / pk, m % pk);
            proof {
                let pn = pow10(k as nat) as int;
                assert(pn == 10 * pow10((k - 1) as nat));
                lemma_pow10_positive((k - 1) as nat);
                lemma_fundamental_div_mod(m as int, pn);
                assert((d as int + 1) * pn == d as int * pn + pn) by (nonlinear_arith);
                assert(pn * d as int == d as int * pn) by (nonlinear_arith);
                if r >= half {
                    lemma_fundamental_div_mod_converse(
                        m as int + pn / 2,
                        pn,
                        d as int + 1,
                        r as int + pn / 2 - pn,
                    );
                } else {
                    lemma_fundamental_div_mod_converse(
                        m as int + pn / 2,
                        pn,
                        d as int,
                        r as int + pn / 2,
                    );
                }
                assert(d as int * 10 <= d as int * pn) by (nonlinear_arith)
                    requires
                        pn >= 10,
                        d >= 0,
                ;
            }
            if r >= half {
                d + 1
            } else {
                d
            }
        } else {
            proof {
                lemma_big_power(m as nat, k as nat);
                lemma_basic_div((m + pow10(k as nat) / 2) as int, pow10(k as nat) as int);
            }
            0
        };
        if q == 0 {
            (true, 0, 0)
        } else {
            (positive, q, -precision)
        }
    } else {
        p
    }
}

/// Formatting of numbers given by parts.
pub trait FloatFormat: Sized {
    /// The text that `fmt_with_decimal` prints.
    spec fn text_spec(&self, force: bool) -> Seq<char>;

    /// The parts that `with_precision` returns.
    spec fn precision_spec(&self, precision: i16) -> Self;

    fn fmt_with_decimal(self, force: bool) -> (r: String)
        ensures
            r@ == self.text_spec(force),
    ;

    fn with_precision(self, precision: i16) -> (r: Self)
        requires
            precision > i16::MIN,
        ensures
            r == self.precision_spec(precision),
    ;
}

impl FloatFormat for (bool, u64, i16) {
    open spec fn text_spec(&self, force: bool) -> Seq<char> {
        decimal_text(self.0, self.1 as nat, self.2 as int, force)
    }

    open spec fn precision_spec(&self, precision: i16) -> Self {
        precision_parts(*self, precision)
    }

    fn fmt_with_decimal(self, force: bool) -> (r: String) {
        fmt_parts(self, force)
    }

    fn with_precision(self, precision: i16) -> (r: Self) {
        parts_with_precision(self, precision)
    }
}

} // verus!
