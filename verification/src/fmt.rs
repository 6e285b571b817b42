//! Decimal rendering of line numbers.
//!
//! A printed line number is the decimal digits of the number, right-justified
//! with spaces to a fixed minimum width.  The width is a configuration
//! constant: it is not semantically significant, but it is fixed here so that
//! output is reproducible.

use vstd::prelude::*;

verus! {

/// Minimum width, in bytes, of a printed line number.
pub const NUM_WIDTH: usize = 7;

/// The decimal digits of `n`, most significant first, as ASCII bytes.
pub open spec fn dec_digits(n: nat) -> Seq<u8>
    decreases n,
{
    if n < 10 {
        seq![(48 + n) as u8]
    } else {
        dec_digits(n / 10).push((48 + n % 10) as u8)
    }
}

/// `k` ASCII space bytes.
pub open spec fn spaces(k: nat) -> Seq<u8> {
    Seq::new(k, |i: int| 32u8)
}

/// The decimal digits of `n`, right-justified with spaces to `NUM_WIDTH`.
pub open spec fn padded_dec(n: nat) -> Seq<u8> {
    if dec_digits(n).len() >= NUM_WIDTH as int {
        dec_digits(n)
    } else {
        spaces((NUM_WIDTH as int - dec_digits(n).len()) as nat) + dec_digits(n)
    }
}

/// The numeric value of a sequence of ASCII decimal digits.
pub open spec fn digits_val(s: Seq<u8>) -> nat
    decreases s.len(),
{
    if s.len() == 0 {
        0
    } else {
        digits_val(s.drop_last()) * 10 + (if s.last() >= 48 { (s.last() - 48) as nat } else { 0 })
    }
}

/// The decimal rendering round-trips: reading the printed digits back
/// yields the line number that was printed, every byte is an ASCII digit,
/// and a positive number is printed without a leading zero.
pub proof fn lemma_dec_digits_value(n: nat)
    ensures
        digits_val(dec_digits(n)) == n,
        dec_digits(n).len() >= 1,
        forall|i: int| 0 <= i < dec_digits(n).len() ==> 48 <= #[trigger] dec_digits(n)[i] <= 57,
        n > 0 ==> dec_digits(n)[0] != 48,
    decreases n,
{
    if n < 10 {
        let s = dec_digits(n);
        assert(s == seq![(48 + n) as u8]);
        assert(s.len() == 1);
        assert(s.last() == (48 + n) as u8);
        assert((48 + n) as u8 == 48 + n);
        assert(s.drop_last() =~= Seq::<u8>::empty());
        assert(digits_val(s.drop_last()) == 0);
        assert(digits_val(s) == n);
    } else {
        lemma_dec_digits_value(n / 10);
        let d = dec_digits(n / 10);
        let full = dec_digits(n);
        assert(full == d.push((48 + n % 10) as u8));
        assert(full.drop_last() == d);
        vstd::arithmetic::div_mod::lemma_fundamental_div_mod(n as int, 10);
        assert(digits_val(full) == digits_val(d) * 10 + n % 10);
        assert(n / 10 > 0);
        assert(full[0] == d[0]);
        assert(forall|i: int| 0 <= i < full.len() - 1 ==> full[i] == d[i]);
    }
}

/// Append the decimal digits of `n` to `out`.
pub fn push_dec_digits(n: usize, out: &mut Vec<u8>)
    ensures
        final(out)@ == old(out)@ + dec_digits(n as nat),
    decreases n,
{
    if n >= 10 {
        push_dec_digits(n / 10, out);
        out.push(48 + (n % 10) as u8);
        proof {
            assert(out@ == old(out)@ + dec_digits(n as nat / 10) + seq![(48 + n as nat % 10) as u8]);
            assert(dec_digits(n as nat) == dec_digits(n as nat / 10).push((48 + n as nat % 10) as u8));
            assert(out@ =~= old(out)@ + dec_digits(n as nat));
        }
    } else {
        out.push(48 + n as u8);
        proof {
            assert(dec_digits(n as nat) == seq![(48 + n as nat) as u8]);
            assert(out@ =~= old(out)@ + dec_digits(n as nat));
        }
    }
}

/// The number of decimal digits of `n`.
fn dec_len(n: usize) -> (r: usize)
    ensures
        r == dec_digits(n as nat).len(),
    decreases n,
{
    if n < 10 {
        1
    } else {
        proof {
            lemma_dec_digits_len_bound(n as nat / 10);
        }
        1 + dec_len(n / 10)
    }
}

/// The digit count of `n` is at most `n + 1`, so computing it never overflows.
proof fn lemma_dec_digits_len_bound(n: nat)
    ensures
        dec_digits(n).len() <= n + 1,
    decreases n,
{
    if n >= 10 {
        lemma_dec_digits_len_bound(n / 10);
    }
}

/// Append the right-justified decimal rendering of `n` to `out`.
pub fn push_padded_dec(n: usize, out: &mut Vec<u8>)
    ensures
        final(out)@ == old(out)@ + padded_dec(n as nat),
{
    let len = dec_len(n);
    if len < NUM_WIDTH {
        let pad = NUM_WIDTH - len;
        let mut k: usize = 0;
        while k < pad
            invariant
                k <= pad,
                out@ == old(out)@ + spaces(k as nat),
            decreases pad - k,
        {
            out.push(32);
            k = k + 1;
            proof {
                assert(out@ =~= old(out)@ + spaces(k as nat));
            }
        }
        push_dec_digits(n, out);
        proof {
            assert(out@ =~= old(out)@ + padded_dec(n as nat));
        }
    } else {
        push_dec_digits(n, out);
    }
}

} // verus!
