//! Decimal rendering and parsing of cursor values.
//!
//! The checkpoint file stores the cursor as a decimal integer; this module
//! gives the rendering a mathematical definition (`dec_rep`, `dec_val`) and
//! proves that parsing inverts rendering.

use vstd::prelude::*;

verus! {

pub const ZERO_DIGIT: u8 = 48;

/// A decimal digit byte, `'0'` through `'9'`.
pub open spec fn is_digit(b: u8) -> bool {
    ZERO_DIGIT <= b <= ZERO_DIGIT + 9
}

pub open spec fn all_digits(s: Seq<u8>) -> bool {
    forall|i: int| 0 <= i < s.len() ==> is_digit(#[trigger] s[i])
}

pub open spec fn digit_value(b: u8) -> nat {
    (b - ZERO_DIGIT) as nat
}

/// The canonical decimal representation of `n`, most significant digit
/// first, with no leading zeros (except for `n == 0` itself).
pub open spec fn dec_rep(n: nat) -> Seq<u8>
    decreases n,
{
    if n < 10 {
        seq![(n + ZERO_DIGIT) as u8]
    } else {
        dec_rep(n / 10).push((n % 10 + ZERO_DIGIT) as u8)
    }
}

/// The numeric value of a digit string (leading zeros allowed).
pub open spec fn dec_val(s: Seq<u8>) -> nat
    decreases s.len(),
{
    if s.len() == 0 {
        0
    } else {
        dec_val(s.drop_last()) * 10 + digit_value(s.last())
    }
}

pub proof fn lemma_dec_rep_digits(n: nat)
    ensures
        all_digits(dec_rep(n)),
        dec_rep(n).len() >= 1,
    decreases n,
{
    if n >= 10 {
        lemma_dec_rep_digits(n / 10);
        assert forall|i: int| 0 <= i < dec_rep(n).len() implies is_digit(
            #[trigger] dec_rep(n)[i],
        ) by {
            if i < dec_rep(n / 10).len() {
                assert(dec_rep(n)[i] == dec_rep(n / 10)[i]);
            }
        }
    }
}

/// Rendering and then evaluating a number gives the number back.
pub proof fn lemma_dec_val_of_rep(n: nat)
    ensures
        dec_val(dec_rep(n)) == n,
    decreases n,
{
    if n < 10 {
        assert(dec_rep(n).drop_last() =~= Seq::<u8>::empty());
        assert(dec_val(dec_rep(n)) == dec_val(Seq::<u8>::empty()) * 10 + digit_value(
            (n + ZERO_DIGIT) as u8,
        ));
    } else {
        lemma_dec_val_of_rep(n / 10);
        assert(dec_rep(n).drop_last() =~= dec_rep(n / 10));
        assert(dec_val(dec_rep(n)) == (n / 10) * 10 + digit_value((n % 10 + ZERO_DIGIT) as u8));
        assert(n == (n / 10) * 10 + n % 10) by (nonlinear_arith);
    }
}

/// Appending further digits never lowers the value of a digit string.
pub proof fn lemma_dec_val_prefix(s: Seq<u8>, j: int)
    requires
        0 <= j <= s.len(),
    ensures
        dec_val(s.take(j)) <= dec_val(s),
    decreases s.len() - j,
{
    if j < s.len() {
        lemma_dec_val_prefix(s, j + 1);
        let t = s.take(j + 1);
        assert(t.drop_last() =~= s.take(j));
        assert(dec_val(s.take(j)) <= dec_val(t.drop_last()) * 10 + digit_value(t.last()));
    } else {
        assert(s.take(j) =~= s);
    }
}

pub proof fn lemma_dec_rep_no_leading_zero(n: nat)
    ensures
        dec_rep(n).len() > 1 ==> dec_rep(n)[0] != ZERO_DIGIT,
    decreases n,
{
    if n >= 10 {
        lemma_dec_rep_no_leading_zero(n / 10);
        lemma_dec_rep_digits(n / 10);
        assert(dec_rep(n)[0] == dec_rep(n / 10)[0]);
        if n / 10 < 10 {
            assert(n / 10 >= 1);
            assert(dec_rep(n / 10) == seq![(n / 10 + ZERO_DIGIT) as u8]);
            assert(dec_rep(n / 10)[0] == (n / 10 + ZERO_DIGIT) as u8);
        } else {
            lemma_dec_rep_digits(n / 10 / 10);
            assert(dec_rep(n / 10) == dec_rep(n / 10 / 10).push((n / 10 % 10 + ZERO_DIGIT) as u8));
            assert(dec_rep(n / 10).len() > 1);
        }
    }
}

/// A nonempty digit string with no leading zero has value at least one.
proof fn lemma_dec_val_positive(s: Seq<u8>)
    requires
        all_digits(s),
        s.len() >= 1,
        s[0] != ZERO_DIGIT,
    ensures
        dec_val(s) >= 1,
    decreases s.len(),
{
    if s.len() == 1 {
        assert(is_digit(s[0]));
    } else {
        lemma_dec_val_positive(s.drop_last());
    }
}

/// The canonical decimal representation is the only all-digit string
/// without a leading zero that evaluates to a given number.
pub proof fn lemma_dec_rep_unique(s: Seq<u8>, n: nat)
    requires
        all_digits(s),
        s.len() >= 1,
        s[0] != ZERO_DIGIT || s.len() == 1,
        dec_val(s) == n,
    ensures
        s == dec_rep(n),
    decreases s.len(),
{
    if s.len() == 1 {
        assert(s.drop_last() =~= Seq::<u8>::empty());
        assert(is_digit(s[0]));
        assert(dec_val(Seq::<u8>::empty()) == 0);
        assert(s.last() == s[0]);
        assert(n == dec_val(s.drop_last()) * 10 + digit_value(s.last()));
        assert(n == digit_value(s[0]));
        assert(s =~= dec_rep(n));
    } else {
        let prefix = s.drop_last();
        let d = digit_value(s.last());
        assert(is_digit(s.last()));
        assert(forall|i: int| 0 <= i < prefix.len() ==> is_digit(#[trigger] prefix[i]));
        lemma_dec_val_positive(prefix);
        let p = dec_val(prefix);
        assert(n == p * 10 + d);
        assert(n >= 10) by (nonlinear_arith)
            requires
                p >= 1,
                d >= 0,
                n == p * 10 + d,
        ;
        assert(n / 10 == p && n % 10 == d) by (nonlinear_arith)
            requires
                0 <= d < 10,
                n == p * 10 + d,
        ;
        lemma_dec_rep_unique(prefix, p);
        assert(dec_rep(n) == dec_rep(p).push((d + ZERO_DIGIT) as u8));
        assert(s =~= prefix.push(s.last()));
        assert(s.last() == (d + ZERO_DIGIT) as u8);
    }
}

/// Renders `n` in decimal, most significant digit first.
pub fn render_usize(n: usize) -> (out: Vec<u8>)
    ensures
        out@ == dec_rep(n as nat),
{
    if n == 0 {
        let mut out: Vec<u8> = Vec::new();
        out.push(ZERO_DIGIT);
        proof {
            assert(out@ =~= dec_rep(0));
        }
        return out;
    }
    let mut digits: Vec<u8> = Vec::new();
    let mut m = n;
    while m > 0
        invariant
            m > 0 ==> dec_rep(n as nat) =~= dec_rep(m as nat) + digits@.reverse(),
            m == 0 ==> dec_rep(n as nat) =~= digits@.reverse(),
        decreases m,
    {
        let d = (m % 10) as u8 + ZERO_DIGIT;
        let m2 = m / 10;
        proof {
            let rest = digits@;
            assert(d == ((m as nat) % 10 + ZERO_DIGIT) as u8);
            assert(rest.push(d).reverse() =~= seq![d] + rest.reverse());
            if m < 10 {
                assert(dec_rep(m as nat) == seq![d]);
            } else {
                assert(dec_rep(m as nat) == dec_rep(m2 as nat).push(d));
                assert(dec_rep(m2 as nat).push(d) =~= dec_rep(m2 as nat) + seq![d]);
                assert(dec_rep(m as nat) + rest.reverse() =~= dec_rep(m2 as nat) + (seq![d]
                    + rest.reverse()));
            }
        }
        digits.push(d);
        m = m2;
    }
    let mut out: Vec<u8> = Vec::new();
    let mut j: usize = digits.len();
    while j > 0
        invariant
            j <= digits@.len(),
            out@.len() == digits@.len() - j,
            forall|k: int|
                0 <= k < out@.len() ==> out@[k] == digits@[digits@.len() - 1 - k],
        decreases j,
    {
        j = j - 1;
        let b = digits[j];
        out.push(b);
    }
    proof {
        assert(out@ =~= digits@.reverse());
    }
    out
}

/// Parses a decimal digit string. Returns the value exactly when the input
/// is a nonempty, all-digit string whose value fits in `usize`.
pub fn parse_usize(s: &[u8]) -> (r: Option<usize>)
    ensures
        r == (if all_digits(s@) && s@.len() > 0 && dec_val(s@) <= usize::MAX {
            Some(dec_val(s@) as usize)
        } else {
            None::<usize>
        }),
{
    if s.len() == 0 {
        return None;
    }
    let mut acc: usize = 0;
    let mut i: usize = 0;
    while i < s.len()
        invariant
            0 <= i <= s@.len(),
            all_digits(s@.take(i as int)),
            acc == dec_val(s@.take(i as int)),
        decreases s@.len() - i,
    {
        let b = s[i];
        if b < ZERO_DIGIT || b > ZERO_DIGIT + 9 {
            assert(!is_digit(s@[i as int]));
            return None;
        }
        let shifted = match acc.checked_mul(10) {
            Some(v) => v,
            None => {
                proof {
                    overflow_means_too_large(s@, i as int, acc as nat, (b - ZERO_DIGIT) as nat);
                }
                return None;
            },
        };
        let next = match shifted.checked_add((b - ZERO_DIGIT) as usize) {
            Some(v) => v,
            None => {
                proof {
                    overflow_means_too_large(s@, i as int, acc as nat, (b - ZERO_DIGIT) as nat);
                }
                return None;
            },
        };
        proof {
            assert(s@.take(i + 1).drop_last() =~= s@.take(i as int));
            assert(all_digits(s@.take(i + 1)));
        }
        acc = next;
        i = i + 1;
    }
    proof {
        assert(s@.take(i as int) =~= s@);
    }
    Some(acc)
}

/// If the next accumulator step overflows, the whole digit string's value
/// is out of range (so `None` is the required answer).
proof fn overflow_means_too_large(s: Seq<u8>, i: int, acc: nat, d: nat)
    requires
        0 <= i < s.len(),
        all_digits(s.take(i)),
        is_digit(s[i]),
        acc == dec_val(s.take(i)),
        d == digit_value(s[i]),
        acc * 10 + d > usize::MAX,
    ensures
        !(all_digits(s) && dec_val(s) <= usize::MAX),
{
    if all_digits(s) {
        assert(s.take(i + 1).drop_last() =~= s.take(i));
        assert(dec_val(s.take(i + 1)) == acc * 10 + d);
        lemma_dec_val_prefix(s, i + 1);
    }
}

} // verus!
