use vstd::prelude::*;
use vstd::arithmetic::power2::pow2;
use crate::text::{decimal, digit_char, digit_of, push_char, push_decimal, push_str};

verus! {

/// The number of binary digits of `b` (0 for zero).
pub open spec fn bit_len(b: nat) -> nat
    decreases b,
{
    if b == 0 {
        0
    } else {
        1 + bit_len(b / 2)
    }
}

/// The value that `b as f64` holds: `b` itself when it has at most 53
/// binary digits, else `b` rounded to 53 significant binary digits, halfway
/// cases to an even last digit.
pub open spec fn as_f64_value(b: nat) -> nat {
    if bit_len(b) <= 53 {
        b
    } else {
        let p = pow2((bit_len(b) - 53) as nat);
        let q = b / p;
        let r = b % p;
        let q2 = if r * 2 > p || (r * 2 == p && q % 2 == 1) {
            q + 1
        } else {
            q
        };
        q2 * p
    }
}

/// `num / den` in hundredths, rounded to the nearest, halfway cases to an
/// even last digit: the digits that `{:.2}` shows of that quotient.
pub open spec fn rounded_hundredths(num: nat, den: nat) -> nat {
    let n = num * 100;
    let q = n / den;
    let r = n % den;
    if r * 2 > den || (r * 2 == den && q % 2 == 1) {
        q + 1
    } else {
        q
    }
}

/// A number of hundredths written with two decimals.
pub open spec fn two_decimals(h: nat) -> Seq<char> {
    decimal(h / 100) + seq!['.', digit_char((h / 10) % 10), digit_char(h % 10)]
}

/// A byte count as people read it: plain bytes below 1 KiB, else KiB, MiB
/// or GiB with two decimals.
pub open spec fn format_bytes_spec(b: nat) -> Seq<char> {
    if b >= 1073741824 {
        two_decimals(rounded_hundredths(as_f64_value(b), 1073741824)) + seq![' ', 'G', 'i', 'B']
    } else if b >= 1048576 {
        two_decimals(rounded_hundredths(b, 1048576)) + seq![' ', 'M', 'i', 'B']
    } else if b >= 1024 {
        two_decimals(rounded_hundredths(b, 1024)) + seq![' ', 'K', 'i', 'B']
    } else {
        decimal(b) + seq![' ', 'B']
    }
}

proof fn lemma_bit_len_bound(b: nat, k: nat)
    requires
        b < pow2(k),
    ensures
        bit_len(b) <= k,
    decreases k,
{
    vstd::arithmetic::power2::lemma_pow2_pos(k);
    if b > 0 {
        if k == 0 {
            vstd::arithmetic::power2::lemma2_to64();
        } else {
            vstd::arithmetic::power2::lemma_pow2_unfold(k);
            lemma_bit_len_bound(b / 2, (k - 1) as nat);
        }
    }
}

/// The value of `b as f64`.
fn f64_value(b: u64) -> (v: u128)
    ensures
        v == as_f64_value(b as nat),
        v < 0x10000000000000000000,
{
    let mut len: u64 = 0;
    let mut t: u64 = b;
    proof {
        vstd::arithmetic::power2::lemma2_to64();
        lemma_bit_len_bound(b as nat, 64);
    }
    while t > 0
        invariant
            bit_len(b as nat) == len + bit_len(t as nat),
            bit_len(b as nat) <= 64,
        decreases t,
    {
        t = t / 2;
        len = len + 1;
    }
    if len <= 53 {
        return b as u128;
    }
    let e = len - 53;
    let mut p: u128 = 1;
    let mut k: u64 = 0;
    proof {
        vstd::arithmetic::power2::lemma2_to64();
    }
    while k < e
        invariant
            e <= 11,
            k <= e,
            p == pow2(k as nat),
            p <= 2048,
            pow2(11) == 2048,
        decreases e - k,
    {
        proof {
            vstd::arithmetic::power2::lemma_pow2_unfold((k + 1) as nat);
            if k + 1 < 11 {
                vstd::arithmetic::power2::lemma_pow2_strictly_increases((k + 1) as nat, 11);
            }
        }
        p = p * 2;
        k = k + 1;
    }
    let bb = b as u128;
    let q = bb / p;
    let r = bb % p;
    let q2 = if r * 2 > p || (r * 2 == p && q % 2 == 1) {
        q + 1
    } else {
        q
    };
    assert(q2 * p < 0x10000000000000000000) by (nonlinear_arith)
        requires
            q2 <= q + 1,
            q <= bb,
            bb < 0x10000000000000000,
            p <= 2048,
    ;
    q2 * p
}

/// `num / den` in hundredths, rounded as `{:.2}` rounds.
fn hundredths(num: u128, den: u128) -> (h: u128)
    requires
        num < 0x10000000000000000000,
        0 < den <= 0x40000000,
    ensures
        h == rounded_hundredths(num as nat, den as nat),
{
    let n = num * 100;
    let q = n / den;
    let r = n % den;
    assert(r < den);
    assert(q <= n) by (nonlinear_arith)
        requires
            q == n / den,
            den > 0,
            n >= 0,
    ;
    if r * 2 > den || (r * 2 == den && q % 2 == 1) {
        q + 1
    } else {
        q
    }
}

/// Appends `h` hundredths with two decimals.
fn push_two_decimals(s: &mut String, h: u128)
    ensures
        final(s)@ == old(s)@ + two_decimals(h as nat),
{
    push_decimal(s, h / 100);
    push_char(s, '.');
    push_char(s, digit_of(((h / 10) % 10) as u64));
    push_char(s, digit_of((h % 10) as u64));
    assert(final(s)@ =~= old(s)@ + two_decimals(h as nat));
}

/// A byte count in B, KiB, MiB or GiB, the latter three with two decimals.
pub fn format_bytes(bytes: u64) -> (s: String)
    ensures
        s@ == format_bytes_spec(bytes as nat),
{
    let mut s = String::new();
    if bytes >= 1024 * 1024 * 1024 {
        let v = f64_value(bytes);
        push_two_decimals(&mut s, hundredths(v, 1024 * 1024 * 1024));
        push_str(&mut s, " GiB");
        proof {
            reveal_strlit(" GiB");
        }
    } else if bytes >= 1024 * 1024 {
        push_two_decimals(&mut s, hundredths(bytes as u128, 1024 * 1024));
        push_str(&mut s, " MiB");
        proof {
            reveal_strlit(" MiB");
        }
    } else if bytes >= 1024 {
        push_two_decimals(&mut s, hundredths(bytes as u128, 1024));
        push_str(&mut s, " KiB");
        proof {
            reveal_strlit(" KiB");
        }
    } else {
        push_decimal(&mut s, bytes as u128);
        push_str(&mut s, " B");
        proof {
            reveal_strlit(" B");
        }
    }
    assert(s@ =~= format_bytes_spec(bytes as nat));
    s
}

/// The size column's text for a byte count: the same as `format_bytes`.
pub fn format_size(bytes: u64) -> (s: String)
    ensures
        s@ == format_bytes_spec(bytes as nat),
{
    format_bytes(bytes)
}

} // verus!
