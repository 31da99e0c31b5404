//! Decimal numerals: parsing integer operands from instruction tokens and
//! formatting 32-bit values for the built-in print function.
//!
//! Operand literals are an optional minus sign followed by one to eighteen
//! digit bytes; eighteen digits are enough for every value that fits in 32
//! bits, and the cap keeps the accumulated value inside 64 bits.

use vstd::prelude::*;

verus! {

pub open spec fn is_digit(b: u8) -> bool {
    48 <= b && b <= 57
}

pub open spec fn pow10(n: int) -> int
    decreases n,
{
    if n <= 0 {
        1
    } else {
        10 * pow10(n - 1)
    }
}

proof fn lemma_pow10_mono(n: int, m: int)
    requires
        0 <= n <= m,
    ensures
        pow10(n) <= pow10(m),
        1 <= pow10(n),
    decreases m,
{
    if m > 0 {
        if n == m {
            lemma_pow10_mono(n - 1, m - 1);
        } else {
            lemma_pow10_mono(n, m - 1);
        }
    }
}

proof fn lemma_pow10_18()
    ensures
        pow10(18) == 1000000000000000000,
{
    reveal_with_fuel(pow10, 20);
}

/// Value accumulated by reading digits of `s` from position `i` onward,
/// starting from `acc`; `None` as soon as a non-digit byte appears.
pub open spec fn digits_val_rec(s: Seq<u8>, i: int, acc: int) -> Option<int>
    decreases s.len() - i,
{
    if i < 0 || i >= s.len() {
        Some(acc)
    } else if is_digit(s[i]) {
        digits_val_rec(s, i + 1, acc * 10 + (s[i] - 48))
    } else {
        None
    }
}

/// The value of `s` read as an unsigned decimal numeral, if `s` is
/// nonempty and all digits.
pub open spec fn digits_val(s: Seq<u8>) -> Option<int> {
    if s.len() == 0 {
        None
    } else {
        digits_val_rec(s, 0, 0)
    }
}

/// The value of `s` read as an optionally signed decimal literal, if it
/// has one to eighteen digits and the value fits in an `i32`.
pub open spec fn spec_parse_i32(s: Seq<u8>) -> Option<i32> {
    if s.len() > 0 && s[0] == 45 {
        let ds = s.skip(1);
        if 1 <= ds.len() && ds.len() <= 18 {
            match digits_val(ds) {
                Some(v) => if v <= 0x8000_0000 {
                    Some((-v) as i32)
                } else {
                    None
                },
                None => None,
            }
        } else {
            None
        }
    } else if 1 <= s.len() && s.len() <= 18 {
        match digits_val(s) {
            Some(v) => if v <= i32::MAX {
                Some(v as i32)
            } else {
                None
            },
            None => None,
        }
    } else {
        None
    }
}

/// The value of `s` read as an unsigned decimal literal, if it has one to
/// eighteen digits and the value fits in a `u32`.
pub open spec fn spec_parse_u32(s: Seq<u8>) -> Option<u32> {
    if 1 <= s.len() && s.len() <= 18 {
        match digits_val(s) {
            Some(v) => if v <= u32::MAX {
                Some(v as u32)
            } else {
                None
            },
            None => None,
        }
    } else {
        None
    }
}

/// Reads all of `s` as an unsigned numeral; the digit cap keeps the
/// accumulator well inside `i64`.
fn digits_value(s: &[u8]) -> (r: Option<i64>)
    requires
        1 <= s@.len() <= 18,
    ensures
        match r {
            Some(v) => 0 <= v && digits_val(s@) == Some(v as int),
            None => digits_val(s@) is None,
        },
{
    let mut acc: i64 = 0;
    let mut i: usize = 0;
    while i < s.len()
        invariant
            1 <= s@.len() <= 18,
            0 <= i <= s@.len(),
            0 <= acc && acc as int <= pow10(i as int) - 1,
            digits_val_rec(s@, 0, 0) == digits_val_rec(s@, i as int, acc as int),
        decreases s@.len() - i,
    {
        let b = s[i];
        if !(48 <= b && b <= 57) {
            return None;
        }
        proof {
            lemma_pow10_18();
            lemma_pow10_mono(i as int + 1, 18);
            assert(acc * 10 <= (pow10(i as int) - 1) * 10) by (nonlinear_arith)
                requires
                    acc as int <= pow10(i as int) - 1,
                    0 <= acc,
            ;
        }
        acc = acc * 10 + ((b - 48) as i64);
        i += 1;
    }
    Some(acc)
}

/// Parses an optionally signed decimal literal into an `i32`.
pub fn parse_i32(s: &[u8]) -> (r: Option<i32>)
    ensures
        r == spec_parse_i32(s@),
{
    if s.len() > 0 && s[0] == 45 {
        let ds = vstd::slice::slice_subrange(s, 1, s.len());
        proof {
            assert(ds@ =~= s@.skip(1));
        }
        if ds.len() < 1 || ds.len() > 18 {
            return None;
        }
        match digits_value(ds) {
            Some(v) => if v <= 0x8000_0000 {
                Some((-v) as i32)
            } else {
                None
            },
            None => None,
        }
    } else {
        if s.len() < 1 || s.len() > 18 {
            return None;
        }
        match digits_value(s) {
            Some(v) => if v <= 2147483647 {
                Some(v as i32)
            } else {
                None
            },
            None => None,
        }
    }
}

/// Parses an unsigned decimal literal into a `u32`.
pub fn parse_u32(s: &[u8]) -> (r: Option<u32>)
    ensures
        r == spec_parse_u32(s@),
{
    if s.len() < 1 || s.len() > 18 {
        return None;
    }
    match digits_value(s) {
        Some(v) => if v <= 4294967295 {
            Some(v as u32)
        } else {
            None
        },
        None => None,
    }
}

/// Decimal digit bytes of `n` (for `n >= 0`), most significant first.
pub open spec fn dec_digits(n: int) -> Seq<u8>
    decreases n,
{
    if n < 10 {
        seq![(48 + n) as u8]
    } else {
        dec_digits(n / 10).push((48 + n % 10) as u8)
    }
}

/// Decimal text of the 32-bit value `v`: a minus sign first if negative.
pub open spec fn dec_i32(v: int) -> Seq<u8> {
    if v < 0 {
        seq![45u8] + dec_digits(-v)
    } else {
        dec_digits(v)
    }
}

/// Appends the decimal text of `v` to `out`.
pub fn push_decimal(out: &mut Vec<u8>, v: i32)
    ensures
        final(out)@ == old(out)@ + dec_i32(v as int),
{
    let mut n: i64 = v as i64;
    if n < 0 {
        out.push(45);
        n = -n;
    }
    let ghost n0: int = n as int;
    let mut buf: Vec<u8> = Vec::new();
    if n == 0 {
        buf.push(48);
        assert(buf@ =~= dec_digits(n0));
    } else {
        while n > 0
            invariant
                0 <= n,
                0 < n0,
                dec_digits(n0) == if n > 0 {
                    dec_digits(n as int) + buf@
                } else {
                    buf@
                },
            decreases n,
        {
            let d: u8 = (48 + (n % 10)) as u8;
            proof {
                let m = n as int;
                if m / 10 > 0 {
                    assert(m >= 10);
                    assert(dec_digits(m) == dec_digits(m / 10).push(d));
                    assert(dec_digits(m / 10).push(d) + buf@ =~= dec_digits(m / 10) + buf@.insert(
                        0,
                        d,
                    ));
                } else {
                    assert(m < 10);
                    assert(dec_digits(m) == seq![d]);
                    assert(seq![d] + buf@ =~= buf@.insert(0, d));
                }
            }
            buf.insert(0, d);
            n = n / 10;
        }
    }
    out.append(&mut buf);
    proof {
        if v < 0 {
            assert(old(out)@ + seq![45u8] + dec_digits(n0) =~= old(out)@ + dec_i32(v as int));
        }
    }
}

} // verus!
