//! Fixed-point numbers as decimal text.
//!
//! A number with `k` fraction digits is an integer count of units of
//! 10^-k. On the wire it is an optional minus sign, one or more digits and,
//! where `k > 0`, a point followed by fraction digits.

use vstd::prelude::*;

verus! {

/// The most fraction digits a number may carry.
pub const MAX_FRACTION_DIGITS: u8 = 18;

/// The byte of the minus sign.
pub const MINUS: u8 = 45;

/// The byte of the decimal point.
pub const POINT: u8 = 46;

/// The byte of the digit zero.
pub const ZERO: u8 = 48;

/// Whether `b` is one of the ten decimal digits.
pub open spec fn is_digit(b: u8) -> bool {
    48 <= b <= 57
}

/// Whether `s` holds decimal digits only.
pub open spec fn all_digits(s: Seq<u8>) -> bool {
    forall|i: int| 0 <= i < s.len() ==> is_digit(#[trigger] s[i])
}

/// Ten to the power `k`.
pub open spec fn pow10(k: nat) -> nat
    decreases k,
{
    if k == 0 {
        1
    } else {
        10 * pow10((k - 1) as nat)
    }
}

/// The number that the digit string `s` denotes; leading zeros count for
/// nothing and the empty string denotes zero.
pub open spec fn digits_value(s: Seq<u8>) -> int
    decreases s.len(),
{
    if s.len() == 0 {
        0
    } else {
        10 * digits_value(s.drop_last()) + (s.last() - 48)
    }
}

/// The digits of `n` without leading zeros; a single zero for 0.
pub open spec fn digits_of(n: nat) -> Seq<u8>
    decreases n,
{
    if n < 10 {
        seq![(48 + n) as u8]
    } else {
        digits_of(n / 10).push((48 + n % 10) as u8)
    }
}

/// The last `width` digits of `n`, with leading zeros where `n` is short.
pub open spec fn padded_digits(n: nat, width: nat) -> Seq<u8>
    decreases width,
{
    if width == 0 {
        Seq::empty()
    } else {
        padded_digits(n / 10, (width - 1) as nat).push((48 + n % 10) as u8)
    }
}

/// The canonical text of `v` units of 10^-k: a minus sign for a negative
/// number, the whole part without leading zeros and, where `k > 0`, a point
/// and exactly `k` fraction digits.
pub open spec fn decimal_text(v: int, k: nat) -> Seq<u8> {
    let m = (if v < 0 {
        -v
    } else {
        v
    }) as nat;
    let sign = if v < 0 {
        seq![45u8]
    } else {
        Seq::<u8>::empty()
    };
    if k == 0 {
        sign + digits_of(m)
    } else {
        sign + digits_of(m / pow10(k)) + seq![46u8] + padded_digits(m % pow10(k), k)
    }
}

/// How many digits stand at the front of `s`.
pub open spec fn digit_run(s: Seq<u8>) -> nat
    decreases s.len(),
{
    if s.len() > 0 && is_digit(s[0]) {
        1 + digit_run(s.skip(1))
    } else {
        0
    }
}

/// The count of units of 10^-k that the unsigned text `body` denotes: one or
/// more digits, then nothing or a point with one to `k` digits behind it.
pub open spec fn magnitude(body: Seq<u8>, k: nat) -> Option<int> {
    let n = digit_run(body) as int;
    let whole = digits_value(body.subrange(0, n));
    if n == 0 {
        None
    } else if n == body.len() {
        Some(whole * pow10(k))
    } else if body[n] == 46 {
        let frac = body.subrange(n + 1, body.len() as int);
        if 0 < frac.len() <= k && all_digits(frac) {
            Some(whole * pow10(k) + digits_value(frac) * pow10((k - frac.len()) as nat))
        } else {
            None
        }
    } else {
        None
    }
}

/// The count of units of 10^-k that the text `s` denotes, if it is a decimal
/// number with at most `k` fraction digits.
pub open spec fn decimal_value(s: Seq<u8>, k: nat) -> Option<int> {
    if s.len() > 0 && s[0] == 45 {
        match magnitude(s.skip(1), k) {
            Some(m) => Some(-m),
            None => None,
        }
    } else {
        magnitude(s, k)
    }
}

/// What `decimal_value` gives where it fits a 64-bit signed integer.
pub open spec fn decimal_i64(s: Seq<u8>, k: nat) -> Option<i64> {
    match decimal_value(s, k) {
        Some(v) => if i64::MIN <= v <= i64::MAX {
            Some(v as i64)
        } else {
            None
        },
        None => None,
    }
}

/// Ten to the power `k`.
pub fn pow10_exec(k: u8) -> (p: u64)
    requires
        k <= MAX_FRACTION_DIGITS,
    ensures
        p == pow10(k as nat),
        1 <= p <= 1_000_000_000_000_000_000,
{
    let mut p: u64 = 1;
    let mut i: u8 = 0;
    proof {
        lemma_pow10_bound(0);
    }
    while i < k
        invariant
            i <= k <= MAX_FRACTION_DIGITS,
            p == pow10(i as nat),
        decreases k - i,
    {
        proof {
            lemma_pow10_bound(i as nat);
            lemma_pow10_bound((i + 1) as nat);
        }
        p = p * 10;
        i = i + 1;
    }
    proof {
        lemma_pow10_bound(k as nat);
    }
    p
}

/// Powers of ten grow, and the largest one in use fits 60 bits.
pub proof fn lemma_pow10_bound(k: nat)
    requires
        k <= 18,
    ensures
        1 <= pow10(k) <= 1_000_000_000_000_000_000,
        k < 18 ==> 10 * pow10(k) <= 1_000_000_000_000_000_000,
{
    reveal_with_fuel(pow10, 20);
}

/// Appends the digits of `n`, without leading zeros.
pub fn push_digits(out: &mut Vec<u8>, n: u64)
    ensures
        final(out)@ == old(out)@ + digits_of(n as nat),
    decreases n,
{
    if n >= 10 {
        push_digits(out, n / 10);
    }
    let d: u8 = (n % 10) as u8;
    out.push(48 + d);
    proof {
        assert(out@ =~= old(out)@ + digits_of(n as nat));
    }
}

/// Appends the last `width` digits of `n`, zero-padded on the left.
pub fn push_padded_digits(out: &mut Vec<u8>, n: u64, width: u8)
    ensures
        final(out)@ == old(out)@ + padded_digits(n as nat, width as nat),
    decreases width,
{
    if width > 0 {
        push_padded_digits(out, n / 10, width - 1);
        let d: u8 = (n % 10) as u8;
        out.push(48 + d);
    }
    proof {
        assert(out@ =~= old(out)@ + padded_digits(n as nat, width as nat));
    }
}

/// Appends the canonical text of `v` units of 10^-`frac_digits`.
pub fn push_decimal(out: &mut Vec<u8>, v: i64, frac_digits: u8)
    requires
        frac_digits <= MAX_FRACTION_DIGITS,
    ensures
        final(out)@ == old(out)@ + decimal_text(v as int, frac_digits as nat),
{
    let m: u64 = if v < 0 {
        (-(v as i128)) as u64
    } else {
        v as u64
    };
    if v < 0 {
        out.push(MINUS);
    }
    if frac_digits == 0 {
        push_digits(out, m);
    } else {
        let p: u64 = pow10_exec(frac_digits);
        push_digits(out, m / p);
        out.push(POINT);
        push_padded_digits(out, m % p, frac_digits);
    }
    proof {
        assert(out@ =~= old(out)@ + decimal_text(v as int, frac_digits as nat));
    }
}

/// The canonical text of `v` units of 10^-`frac_digits`.
pub fn format_decimal(v: i64, frac_digits: u8) -> (text: Vec<u8>)
    requires
        frac_digits <= MAX_FRACTION_DIGITS,
    ensures
        text@ == decimal_text(v as int, frac_digits as nat),
{
    let mut text: Vec<u8> = Vec::new();
    push_decimal(&mut text, v, frac_digits);
    proof {
        assert(text@ =~= decimal_text(v as int, frac_digits as nat));
    }
    text
}

/// A digit string extended by one digit denotes ten times as much, plus the
/// digit; so extending never makes the number smaller.
pub proof fn lemma_digits_value_push(s: Seq<u8>, d: u8)
    requires
        all_digits(s),
        is_digit(d),
    ensures
        digits_value(s.push(d)) == 10 * digits_value(s) + (d - 48),
        digits_value(s) >= 0,
        digits_value(s.push(d)) >= digits_value(s),
        all_digits(s.push(d)),
    decreases s.len(),
{
    assert(s.push(d).drop_last() =~= s);
    if s.len() > 0 {
        let t = s.drop_last();
        assert(all_digits(t));
        assert(t.push(s.last()) =~= s);
        lemma_digits_value_push(t, s.last());
    }
}

/// Where the first `n` bytes of `s` are digits and the next one, if there is
/// one, is not, the leading run of digits has length `n`.
pub proof fn lemma_digit_run(s: Seq<u8>, n: int)
    requires
        0 <= n <= s.len(),
        all_digits(s.subrange(0, n)),
        n < s.len() ==> !is_digit(s[n]),
    ensures
        digit_run(s) == n,
    decreases n,
{
    if n > 0 {
        assert(is_digit(s.subrange(0, n)[0]));
        let t = s.skip(1);
        assert(t.subrange(0, n - 1) =~= s.subrange(0, n).skip(1));
        assert forall|i: int| 0 <= i < n - 1 implies is_digit(#[trigger] t.subrange(0, n - 1)[i]) by {
            assert(is_digit(s.subrange(0, n)[i + 1]));
        }
        lemma_digit_run(t, n - 1);
    }
}

/// Reads a decimal number with at most `frac_digits` fraction digits as a
/// count of units of 10^-`frac_digits`. Text that is no such number, or whose
/// value does not fit, gives `None`.
pub fn parse_decimal(s: &[u8], frac_digits: u8) -> (r: Option<i64>)
    requires
        frac_digits <= MAX_FRACTION_DIGITS,
    ensures
        r == decimal_i64(s@, frac_digits as nat),
{
    let len: usize = s.len();
    let negative: bool = len > 0 && s[0] == MINUS;
    let start: usize = if negative {
        1
    } else {
        0
    };
    let ghost body: Seq<u8> = if negative {
        s@.skip(1)
    } else {
        s@
    };
    let ghost k: nat = frac_digits as nat;
    // The whole part. `acc` follows the value until it passes 2^63, after
    // which no sign fits and only the shape of the text still matters.
    let mut acc: u128 = 0;
    let mut overflow: bool = false;
    let mut i: usize = start;
    proof {
        assert(body.subrange(0, 0) =~= Seq::<u8>::empty());
    }
    while i < len && 48 <= s[i] && s[i] <= 57
        invariant
            start <= i <= len,
            len == s@.len(),
            body.len() == len - start,
            forall|j: int| 0 <= j < body.len() ==> body[j] == s@[j + start],
            all_digits(body.subrange(0, i - start)),
            !overflow ==> acc == digits_value(body.subrange(0, i - start)),
            !overflow ==> acc <= 0x8000_0000_0000_0000,
            overflow ==> digits_value(body.subrange(0, i - start)) > 0x8000_0000_0000_0000,
        decreases len - i,
    {
        let d: u8 = s[i] - 48;
        proof {
            let before = body.subrange(0, i - start);
            assert(body.subrange(0, i + 1 - start) =~= before.push(s@[i as int]));
            lemma_digits_value_push(before, s@[i as int]);
        }
        if !overflow {
            acc = acc * 10 + d as u128;
            if acc > 0x8000_0000_0000_0000 {
                overflow = true;
            }
        }
        i = i + 1;
    }
    let ghost n: int = i - start;
    proof {
        lemma_digit_run(body, n);
    }
    if i == start {
        return None;
    }
    let p: u64 = pow10_exec(frac_digits);
    let ghost whole: int = digits_value(body.subrange(0, n));
    let mut frac_part: u128 = 0;
    if i < len {
        if s[i] != POINT {
            return None;
        }
        let frac_start: usize = i + 1;
        let ghost frac: Seq<u8> = body.subrange(n + 1, body.len() as int);
        let mut j: usize = frac_start;
        let mut count: u8 = 0;
        let mut facc: u64 = 0;
        proof {
            assert(frac.subrange(0, 0) =~= Seq::<u8>::empty());
            lemma_pow10_bound(0);
        }
        while j < len
            invariant
                frac_start <= j <= len,
                frac_start == i + 1,
                i < len,
                len == s@.len(),
                start <= i,
                k == frac_digits,
                negative <==> s@.len() > 0 && s@[0] == 45,
                body == (if negative {
                    s@.skip(1)
                } else {
                    s@
                }),
                digit_run(body) == n,
                n > 0,
                body[n] == 46,
                n == i - start,
                body.len() == len - start,
                frac == body.subrange(n + 1, body.len() as int),
                frac.len() == len - frac_start,
                forall|x: int| 0 <= x < body.len() ==> body[x] == s@[x + start],
                count == j - frac_start,
                count <= frac_digits <= MAX_FRACTION_DIGITS,
                all_digits(frac.subrange(0, count as int)),
                facc == digits_value(frac.subrange(0, count as int)),
                facc < pow10(count as nat),
            decreases len - j,
        {
            if !(48 <= s[j] && s[j] <= 57) {
                proof {
                    assert(frac[j - frac_start] == s@[j as int]);
                    assert(!all_digits(frac));
                }
                return None;
            }
            if count == frac_digits {
                proof {
                    assert(frac.len() > k);
                }
                return None;
            }
            proof {
                let before = frac.subrange(0, count as int);
                assert(frac[count as int] == s@[j as int]);
                assert(frac.subrange(0, count + 1) =~= before.push(s@[j as int]));
                lemma_digits_value_push(before, s@[j as int]);
                lemma_pow10_bound(count as nat);
                lemma_pow10_bound((count + 1) as nat);
            }
            facc = facc * 10 + (s[j] - 48) as u64;
            count = count + 1;
            j = j + 1;
        }
        proof {
            assert(frac.subrange(0, count as int) =~= frac);
        }
        if count == 0 {
            return None;
        }
        let scale: u64 = pow10_exec(frac_digits - count);
        proof {
            lemma_pow10_bound(count as nat);
            lemma_pow10_split(count as nat, (frac_digits - count) as nat);
            assert(facc * scale < pow10(k)) by (nonlinear_arith)
                requires
                    0 <= facc < pow10(count as nat),
                    scale >= 1,
                    pow10(count as nat) * scale == pow10(k),
            ;
        }
        frac_part = facc as u128 * scale as u128;
    }
    proof {
        assert(magnitude(body, k) == Some(whole * pow10(k) + frac_part));
        assert(whole >= 0) by {
            assert(body.subrange(0, n) =~= body.subrange(0, n - 1).push(body[n - 1]));
            assert(all_digits(body.subrange(0, n - 1))) by {
                assert forall|x: int| 0 <= x < n - 1 implies is_digit(
                    #[trigger] body.subrange(0, n - 1)[x],
                ) by {
                    assert(is_digit(body.subrange(0, n)[x]));
                }
            }
            assert(is_digit(body.subrange(0, n)[n - 1]));
            lemma_digits_value_push(body.subrange(0, n - 1), body[n - 1]);
        }
    }
    if overflow {
        proof {
            assert(whole * pow10(k) >= whole) by (nonlinear_arith)
                requires
                    whole >= 0,
                    pow10(k) >= 1,
            ;
        }
        return None;
    }
    proof {
        assert(acc * p <= 0x8000_0000_0000_0000 * 1_000_000_000_000_000_000) by (nonlinear_arith)
            requires
                0 <= acc <= 0x8000_0000_0000_0000,
                0 <= p <= 1_000_000_000_000_000_000,
        ;
    }
    let total: u128 = acc * p as u128 + frac_part;
    if negative {
        if total > 0x8000_0000_0000_0000 {
            None
        } else {
            Some((-(total as i128)) as i64)
        }
    } else {
        if total > 0x7fff_ffff_ffff_ffff {
            None
        } else {
            Some(total as i64)
        }
    }
}

/// Powers of ten multiply: 10^a * 10^b = 10^(a+b).
pub proof fn lemma_pow10_split(a: nat, b: nat)
    ensures
        pow10(a) * pow10(b) == pow10(a + b),
    decreases a,
{
    if a == 0 {
        assert(pow10(0) == 1);
    } else {
        lemma_pow10_split((a - 1) as nat, b);
        assert(pow10(a) == 10 * pow10((a - 1) as nat));
        assert(pow10(a + b) == 10 * pow10((a + b - 1) as nat));
        assert(pow10(a) * pow10(b) == 10 * (pow10((a - 1) as nat) * pow10(b))) by (nonlinear_arith)
            requires
                pow10(a) == 10 * pow10((a - 1) as nat),
        ;
    }
}

/// The digits of a number are digits, at least one of them, and denote it.
pub proof fn lemma_digits_of(n: nat)
    ensures
        digits_of(n).len() >= 1,
        all_digits(digits_of(n)),
        digits_value(digits_of(n)) == n,
    decreases n,
{
    if n < 10 {
        let s = seq![(48 + n) as u8];
        assert(s.drop_last() =~= Seq::<u8>::empty());
        assert(digits_value(s.drop_last()) == 0);
    } else {
        lemma_digits_of(n / 10);
        lemma_digits_value_push(digits_of(n / 10), (48 + n % 10) as u8);
    }
}

/// Padded digits are exactly `width` digits and denote the number modulo
/// 10^width.
pub proof fn lemma_padded_digits(n: nat, width: nat)
    ensures
        padded_digits(n, width).len() == width,
        all_digits(padded_digits(n, width)),
        digits_value(padded_digits(n, width)) == n % pow10(width),
    decreases width,
{
    if width == 0 {
        assert(pow10(0) == 1);
    } else {
        let w = (width - 1) as nat;
        lemma_padded_digits(n / 10, w);
        lemma_digits_value_push(padded_digits(n / 10, w), (48 + n % 10) as u8);
        lemma_pow10_positive(w);
        vstd::arithmetic::div_mod::lemma_breakdown(n as int, 10, pow10(w) as int);
        assert(pow10(width) == 10 * pow10(w));
    }
}

/// Every power of ten is at least one.
pub proof fn lemma_pow10_positive(k: nat)
    ensures
        pow10(k) >= 1,
    decreases k,
{
    if k > 0 {
        lemma_pow10_positive((k - 1) as nat);
    }
}

/// Reading the canonical text of a number gives the number back.
pub proof fn lemma_decimal_round_trip(v: int, k: nat)
    ensures
        decimal_value(decimal_text(v, k), k) == Some(v),
{
    let m = (if v < 0 {
        -v
    } else {
        v
    }) as nat;
    let text = decimal_text(v, k);
    lemma_pow10_positive(k);
    let p = pow10(k);
    let w = if k == 0 {
        digits_of(m)
    } else {
        digits_of(m / p)
    };
    let body = if k == 0 {
        w
    } else {
        w + seq![46u8] + padded_digits(m % p, k)
    };
    if k == 0 {
        lemma_digits_of(m);
    } else {
        lemma_digits_of(m / p);
    }
    let n = w.len() as int;
    assert(body.subrange(0, n) =~= w);
    if v < 0 {
        assert(text =~= seq![45u8] + body);
        assert(text[0] == 45);
        assert(text.skip(1) =~= body);
    } else {
        assert(text =~= body);
        assert(is_digit(w[0]));
        assert(text[0] == w[0]);
    }
    if k == 0 {
        lemma_digit_run(body, n);
        assert(m * 1 == m);
        assert(magnitude(body, k) == Some(m as int));
    } else {
        let f = padded_digits(m % p, k);
        lemma_padded_digits(m % p, k);
        assert(body[n] == 46);
        lemma_digit_run(body, n);
        assert(body.subrange(n + 1, body.len() as int) =~= f);
        assert(pow10(0) == 1);
        vstd::arithmetic::div_mod::lemma_small_mod(m % p, p);
        vstd::arithmetic::div_mod::lemma_mod_bound(m as int, p as int);
        vstd::arithmetic::div_mod::lemma_fundamental_div_mod(m as int, p as int);
        let frac = body.subrange(n + 1, body.len() as int);
        assert(frac.len() == k);
        assert((k - frac.len()) as nat == 0);
        assert(digits_value(frac) == m % p);
        assert(digits_value(body.subrange(0, n)) == m / p);
        assert((m / p) * p + (m % p) * 1 == m) by (nonlinear_arith)
            requires
                m == p * (m / p) + m % p,
        ;
        assert(magnitude(body, k) == Some(m as int));
    }
}

} // verus!
