use vstd::prelude::*;
use vstd::utf8::*;
use crate::text::push_char;

verus! {

/// Number of slots in the scratch buffer of [`itoa_usize`].
pub const MAX_DIGITS: usize = 20;

/// A closed interval `[lo, hi]` of indices.
#[derive(Clone, Copy, PartialEq, Eq, Debug)]
pub struct ClosedInterval(pub usize, pub usize);

impl ClosedInterval {
    pub open spec fn spec_contains(&self, val: int) -> bool {
        self.0 <= val <= self.1
    }

    #[inline(always)]
    pub fn contains(&self, val: usize) -> (r: bool)
        ensures
            r == self.spec_contains(val as int),
    {
        self.0 <= val && self.1 >= val
    }
}

/// The ASCII byte of digit `d` (0-9, then upper-case A-F).
pub open spec fn digit_byte(d: nat) -> u8 {
    if d < 10 {
        (48 + d) as u8
    } else {
        (55 + d) as u8
    }
}

/// The digits of `n` written in base `radix`, most significant first, without leading zeros
/// (zero is written as one digit).
pub open spec fn digits(n: nat, radix: nat) -> Seq<u8>
    decreases n,
    via digits_decreases
{
    if radix < 2 {
        seq![]
    } else if n < radix {
        seq![digit_byte(n)]
    } else {
        digits(n / radix, radix).push(digit_byte(n % radix))
    }
}

#[via_fn]
proof fn digits_decreases(n: nat, radix: nat) {
    if radix >= 2 && n >= radix {
        assert(n / radix < n) by (nonlinear_arith)
            requires
                n >= radix,
                radix >= 2,
        ;
    }
}

/// `digits` as characters.
pub open spec fn digit_chars(n: nat, radix: nat) -> Seq<char> {
    digits(n, radix).map_values(|b: u8| b as char)
}

proof fn lemma_digits_len(n: nat, radix: nat, k: nat)
    requires
        2 <= radix,
        1 <= k,
        n < pow_nat(radix, k),
    ensures
        1 <= digits(n, radix).len() <= k,
    decreases n,
{
    if n >= radix {
        assert(k >= 2) by {
            if k == 1 {
                reveal_with_fuel(pow_nat, 2);
                assert(pow_nat(radix, 1) == radix);
            }
        }
        assert(pow_nat(radix, k) == radix * pow_nat(radix, (k - 1) as nat));
        assert(n / radix < pow_nat(radix, (k - 1) as nat)) by (nonlinear_arith)
            requires
                n < radix * pow_nat(radix, (k - 1) as nat),
                radix >= 2,
        ;
        assert(n / radix < n) by (nonlinear_arith)
            requires
                n >= radix,
                radix >= 2,
        ;
        lemma_digits_len(n / radix, radix, (k - 1) as nat);
    }
}

pub open spec fn pow_nat(b: nat, e: nat) -> nat
    decreases e,
{
    if e == 0 {
        1
    } else {
        b * pow_nat(b, (e - 1) as nat)
    }
}

proof fn lemma_pow_base_mono(b1: nat, b2: nat, e: nat)
    requires
        b1 <= b2,
    ensures
        pow_nat(b1, e) <= pow_nat(b2, e),
    decreases e,
{
    if e > 0 {
        lemma_pow_base_mono(b1, b2, (e - 1) as nat);
        let pa = pow_nat(b1, (e - 1) as nat);
        let pb = pow_nat(b2, (e - 1) as nat);
        assert(b1 * pa <= b2 * pb) by (nonlinear_arith)
            requires
                b1 <= b2,
                pa <= pb,
        ;
    }
}

/// Every `usize` has at most `MAX_DIGITS` digits in a base of ten or more.
proof fn lemma_usize_digits_fit(n: usize, radix: nat)
    requires
        10 <= radix,
    ensures
        1 <= digits(n as nat, radix).len() <= MAX_DIGITS,
{
    reveal_with_fuel(pow_nat, 21);
    assert(pow_nat(10, 20) == 100000000000000000000nat);
    lemma_pow_base_mono(10, radix, 20);
    lemma_digits_len(n as nat, radix, 20);
}

/// Writes the digits of `val` in base `radix` at the end of `buf` and returns the index of
/// the first digit.
pub fn itoa_usize(buf: &mut [u8; 20], val: usize, radix: usize) -> (i: usize)
    requires
        10 <= radix <= 16,
    ensures
        i < MAX_DIGITS,
        final(buf)@.subrange(i as int, MAX_DIGITS as int) == digits(val as nat, radix as nat),
{
    proof {
        lemma_usize_digits_fit(val, radix as nat);
    }
    let mut i: usize = MAX_DIGITS - 1;
    let mut v: usize = val;
    loop
        invariant
            10 <= radix <= 16,
            i < MAX_DIGITS,
            buf@.len() == MAX_DIGITS,
            digits(val as nat, radix as nat) == digits(v as nat, radix as nat)
                + buf@.subrange(i as int + 1, MAX_DIGITS as int),
            digits(v as nat, radix as nat).len() <= i + 1,
        decreases v,
    {
        let d = v % radix;
        let b: u8 = if d < 10 {
            (48 + d) as u8
        } else {
            (55 + d) as u8
        };
        buf[i] = b;
        let ghost old_v = v;
        v = v / radix;
        proof {
            if old_v >= radix {
                assert(digits(old_v as nat, radix as nat) == digits(v as nat, radix as nat).push(b));
            }
        }
        if v == 0 {
            proof {
                assert(old_v < radix && old_v % radix == old_v) by (nonlinear_arith)
                    requires
                        v == old_v / radix,
                        v == 0,
                        radix >= 10,
                ;
                assert(digits(old_v as nat, radix as nat) == seq![b]);
                assert(buf@.subrange(i as int, MAX_DIGITS as int) == seq![b]
                    + buf@.subrange(i as int + 1, MAX_DIGITS as int));
            }
            return i;
        }
        proof {
            assert(old_v >= radix) by (nonlinear_arith)
                requires
                    v == old_v / radix,
                    v != 0,
                    radix >= 10,
            ;
            assert(buf@.subrange(i as int, MAX_DIGITS as int) == seq![b]
                + buf@.subrange(i as int + 1, MAX_DIGITS as int));
            assert(digits(v as nat, radix as nat).len() >= 1);
        }
        i = i - 1;
    }
}


/// Appends the digits of `val` in base `radix` to `s`.
pub(crate) fn push_digits_to_string(s: &mut String, val: u128, radix: u128)
    requires
        2 <= radix <= 16,
    ensures
        final(s)@ == old(s)@ + digit_chars(val as nat, radix as nat),
    decreases val,
{
    let ghost s0 = s@;
    if val >= radix {
        assert(val / radix < val) by (nonlinear_arith)
            requires
                val >= radix,
                radix >= 2,
        ;
        push_digits_to_string(s, val / radix, radix);
    }
    let d = val % radix;
    let c: char = if d < 10 {
        (48 + d) as u8 as char
    } else {
        (55 + d) as u8 as char
    };
    push_char(s, c);
    proof {
        if val >= radix {
            assert(digits(val as nat, radix as nat) == digits((val / radix) as nat, radix as nat).push(
                digit_byte((val % radix) as nat),
            ));
            assert(s@ == s0 + digit_chars(val as nat, radix as nat));
        } else {
            assert(val % radix == val) by (nonlinear_arith)
                requires
                    val < radix,
            ;
            assert(s@ == s0 + digit_chars(val as nat, radix as nat));
        }
    }
}

/// Appends the digits of `val` in base `radix` to `s`.
pub fn push_itoa_usize_to_string(s: &mut String, val: usize, radix: usize)
    requires
        10 <= radix <= 16,
    ensures
        final(s)@ == old(s)@ + digit_chars(val as nat, radix as nat),
{
    push_digits_to_string(s, val as u128, radix as u128);
}

/// Appends the digits of `val` in base `radix` to `v`, as ASCII bytes.
pub fn push_itoa_usize_to_vec_u8(v: &mut Vec<u8>, val: usize, radix: usize)
    requires
        10 <= radix <= 16,
    ensures
        final(v)@ == old(v)@ + digits(val as nat, radix as nat),
{
    let mut buf: [u8; 20] = [0u8; 20];
    let i = itoa_usize(&mut buf, val, radix);
    let mut j: usize = i;
    while j < MAX_DIGITS
        invariant
            i <= j <= MAX_DIGITS,
            buf@.len() == MAX_DIGITS,
            v@ == old(v)@ + buf@.subrange(i as int, j as int),
        decreases MAX_DIGITS - j,
    {
        v.push(buf[j]);
        proof {
            assert(buf@.subrange(i as int, j + 1) == buf@.subrange(i as int, j as int).push(buf@[j as int]));
        }
        j = j + 1;
    }
}

/// Appends the UTF-8 encoding of `s` to `out`.
pub fn push_str_to_vec_u8(out: &mut Vec<u8>, s: &str)
    ensures
        final(out)@ == old(out)@ + encode_utf8(s@),
{
    let b = s.as_bytes();
    let mut j: usize = 0;
    while j < b.len()
        invariant
            j <= b@.len(),
            b@ == encode_utf8(s@),
            out@ == old(out)@ + b@.subrange(0, j as int),
        decreases b@.len() - j,
    {
        out.push(b[j]);
        proof {
            assert(b@.subrange(0, j + 1) == b@.subrange(0, j as int).push(b@[j as int]));
        }
        j = j + 1;
    }
    proof {
        assert(b@.subrange(0, b@.len() as int) == b@);
    }
}

/// Appends the UTF-8 encoding of `c` to `out`.
pub fn push_char_to_vec_u8(out: &mut Vec<u8>, c: char)
    ensures
        final(out)@ == old(out)@ + encode_scalar(c as u32),
{
    let v = c as u32;
    if v <= 0x7F {
        out.push((v & 0x7F) as u8);
    } else if v <= 0x7FF {
        out.push(0xC0 | ((v >> 6) & 0x1F) as u8);
        out.push(0x80 | (v & 0x3F) as u8);
    } else if v <= 0xFFFF {
        out.push(0xE0 | ((v >> 12) & 0x0F) as u8);
        out.push(0x80 | ((v >> 6) & 0x3F) as u8);
        out.push(0x80 | (v & 0x3F) as u8);
    } else {
        out.push(0xF0 | ((v >> 18) & 0x7) as u8);
        out.push(0x80 | ((v >> 12) & 0x3F) as u8);
        out.push(0x80 | ((v >> 6) & 0x3F) as u8);
        out.push(0x80 | (v & 0x3F) as u8);
    }
    proof {
        assert(out@ == old(out)@ + encode_scalar(v));
    }
}

} // verus!
