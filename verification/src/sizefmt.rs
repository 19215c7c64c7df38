//! Byte counts rendered as human-readable sizes, without floating point.
//!
//! The renderings mirror binary floating-point output: a size is first
//! rounded to at most 53 significant bits (the precision a 64-bit float
//! keeps of a large integer), the quotient by the unit is then rounded to
//! the shown number of decimal digits, to nearest with ties to even.

use vstd::prelude::*;
use vstd::arithmetic::div_mod::{lemma_div_denominator, lemma_fundamental_div_mod};
use crate::text::string_from_chars;

verus! {

/// The character of one decimal digit.
pub open spec fn digit_char(d: int) -> char {
    if d == 0 {
        '0'
    } else if d == 1 {
        '1'
    } else if d == 2 {
        '2'
    } else if d == 3 {
        '3'
    } else if d == 4 {
        '4'
    } else if d == 5 {
        '5'
    } else if d == 6 {
        '6'
    } else if d == 7 {
        '7'
    } else if d == 8 {
        '8'
    } else {
        '9'
    }
}

/// The decimal rendering of a nonnegative integer, most significant digit
/// first.
pub open spec fn dec_str(n: int) -> Seq<char>
    decreases n,
{
    if n < 10 {
        seq![digit_char(n)]
    } else {
        dec_str(n / 10).push(digit_char(n % 10))
    }
}

/// `num / den` rounded to the nearest integer, ties to the even quotient.
pub open spec fn round_half_even(num: int, den: int) -> int {
    let q = num / den;
    let r = num % den;
    if 2 * r < den {
        q
    } else if 2 * r > den {
        q + 1
    } else if q % 2 == 0 {
        q
    } else {
        q + 1
    }
}

/// The power of two by which `n` must be divided so that the quotient has
/// at most 53 significant bits.
pub open spec fn scale_of(n: int) -> int
    decreases n,
{
    if n < 0x20000000000000 {
        1
    } else {
        2 * scale_of(n / 2)
    }
}

/// `n` rounded to at most 53 significant bits, to nearest with ties to the
/// even mantissa — the value a 64-bit float stores for the integer `n`.
pub open spec fn round53(n: int) -> int {
    round_half_even(n, scale_of(n)) * scale_of(n)
}

/// `n / den` rendered with one decimal digit, rounded half to even.
pub open spec fn fixed1(n: int, den: int) -> Seq<char> {
    let q = round_half_even(n * 10, den);
    dec_str(q / 10) + seq!['.', digit_char(q % 10)]
}

/// `n / den` rendered with two decimal digits, rounded half to even.
pub open spec fn fixed2(n: int, den: int) -> Seq<char> {
    let q = round_half_even(n * 100, den);
    dec_str(q / 100) + seq!['.', digit_char(q / 10 % 10), digit_char(q % 10)]
}

/// The rendering of a byte count: plain bytes below one KiB, one decimal
/// digit of KiB or MiB below the next unit, two decimal digits of GiB
/// beyond, with the size first rounded as a 64-bit float would round it.
pub open spec fn size_text(size: u64) -> Seq<char> {
    if size < 1024 {
        dec_str(size as int) + seq![' ', 'Б']
    } else if size < 1048576 {
        fixed1(size as int, 1024) + seq![' ', 'К', 'Б']
    } else if size < 1073741824 {
        fixed1(size as int, 1048576) + seq![' ', 'М', 'Б']
    } else {
        fixed2(round53(size as int), 1073741824) + seq![' ', 'Г', 'Б']
    }
}

/// One decimal digit as a character.
fn digit_of(d: u64) -> (c: char)
    requires
        d < 10,
    ensures
        c == digit_char(d as int),
{
    if d == 0 {
        '0'
    } else if d == 1 {
        '1'
    } else if d == 2 {
        '2'
    } else if d == 3 {
        '3'
    } else if d == 4 {
        '4'
    } else if d == 5 {
        '5'
    } else if d == 6 {
        '6'
    } else if d == 7 {
        '7'
    } else if d == 8 {
        '8'
    } else {
        '9'
    }
}

/// The decimal digits of `n`.
#[verifier::loop_isolation(false)]
fn dec_chars(n: u64) -> (r: Vec<char>)
    ensures
        r@ == dec_str(n as int),
{
    let mut acc: Vec<char> = Vec::new();
    let mut cur: u64 = n;
    let mut done = false;
    while !done
        invariant
            done ==> acc@ == dec_str(n as int),
            !done ==> dec_str(n as int) == dec_str(cur as int) + acc@,
        decreases (cur as int) + (if done { 0int } else { 1int }),
    {
        let ghost prev = acc@;
        let c = digit_of(cur % 10);
        acc.insert(0, c);
        proof {
            assert(acc@ =~= seq![c] + prev);
        }
        if cur < 10 {
            proof {
                assert(dec_str(cur as int) =~= seq![c]);
                assert(acc@ =~= dec_str(cur as int) + prev);
            }
            done = true;
        } else {
            proof {
                assert(dec_str(cur as int) =~= dec_str(cur as int / 10) + seq![c]);
                assert(dec_str(cur as int / 10) + acc@ =~= dec_str(cur as int) + prev);
            }
            cur = cur / 10;
        }
    }
    acc
}

/// Rounds `num / den` half to even over 64-bit operands.
fn rhe_u64(num: u64, den: u64) -> (q: u64)
    requires
        2 <= den <= 0x40000000,
        num as int / den as int + 1 <= u64::MAX,
    ensures
        q as int == round_half_even(num as int, den as int),
{
    let qd = num / den;
    let r = num % den;
    if 2 * r < den {
        qd
    } else if 2 * r > den {
        qd + 1
    } else if qd % 2 == 0 {
        qd
    } else {
        qd + 1
    }
}

/// Rounds `num / den` half to even over 128-bit operands.
fn rhe_u128(num: u128, den: u128) -> (q: u128)
    requires
        2 <= den <= 0x40000000,
        num as int / den as int + 1 <= u128::MAX,
    ensures
        q as int == round_half_even(num as int, den as int),
{
    let qd = num / den;
    let r = num % den;
    if 2 * r < den {
        qd
    } else if 2 * r > den {
        qd + 1
    } else if qd % 2 == 0 {
        qd
    } else {
        qd + 1
    }
}

/// Renders a byte count the way the report prints it: bytes, KiB and MiB
/// with one decimal digit, GiB with two, rounded as binary floating point
/// would round them.
#[verifier::loop_isolation(false)]
pub fn format_size(size: u64) -> (r: String)
    ensures
        r@ == size_text(size),
{
    if size < 1024 {
        let mut cs = dec_chars(size);
        cs.push(' ');
        cs.push('Б');
        proof {
            assert(cs@ =~= dec_str(size as int) + seq![' ', 'Б']);
        }
        string_from_chars(&cs)
    } else if size < 1048576 {
        let q = rhe_u64(size * 10, 1024);
        let mut cs = dec_chars(q / 10);
        cs.push('.');
        cs.push(digit_of(q % 10));
        cs.push(' ');
        cs.push('К');
        cs.push('Б');
        proof {
            assert(cs@ =~= fixed1(size as int, 1024) + seq![' ', 'К', 'Б']);
        }
        string_from_chars(&cs)
    } else if size < 1073741824 {
        let q = rhe_u64(size * 10, 1048576);
        let mut cs = dec_chars(q / 10);
        cs.push('.');
        cs.push(digit_of(q % 10));
        cs.push(' ');
        cs.push('М');
        cs.push('Б');
        proof {
            assert(cs@ =~= fixed1(size as int, 1048576) + seq![' ', 'М', 'Б']);
        }
        string_from_chars(&cs)
    } else {
        let mut p: u64 = 1;
        while size / p >= 0x20000000000000
            invariant
                1 <= p <= 0x1000,
                scale_of(size as int) == p as int * scale_of(size as int / p as int),
            decreases size as int / p as int,
        {
            proof {
                let s = size as int;
                let pi = p as int;
                lemma_fundamental_div_mod(s, pi);
                assert(s == pi * (s / pi) + s % pi);
                assert(pi * (s / pi) >= pi * 0x20000000000000) by (nonlinear_arith)
                    requires
                        s / pi >= 0x20000000000000,
                        pi >= 1,
                ;
                assert(pi <= 0x800);
                lemma_div_denominator(s, pi, 2);
                assert(s / pi / 2 == s / (pi * 2));
                assert(s / pi / 2 < s / pi);
                assert(scale_of(s / pi) == 2 * scale_of(s / pi / 2));
                assert(pi * (2 * scale_of(s / (pi * 2))) == (pi * 2) * scale_of(s / (pi * 2)))
                    by (nonlinear_arith);
                assert(scale_of(s) == (pi * 2) * scale_of(s / (pi * 2)));
            }
            p = p * 2;
        }
        proof {
            assert(scale_of(size as int / p as int) == 1);
            assert(scale_of(size as int) == p as int);
        }
        let v: u128;
        if p == 1 {
            proof {
                assert(size as int / 1int == size as int);
                assert(size as int % 1int == 0);
                assert(round_half_even(size as int, 1) == size as int);
            }
            v = size as u128;
            proof {
                assert(v as int == round53(size as int));
            }
        } else {
            proof {
                assert(size as int / p as int + 1 <= u64::MAX);
            }
            let mant = rhe_u64(size, p);
            proof {
                assert(mant as int <= size as int / p as int + 1);
                assert((size as int / p as int) < 0x20000000000000);
                assert(mant as int * p as int <= 0x20000000000000 * 0x1000) by (nonlinear_arith)
                    requires
                        0 <= mant as int <= 0x20000000000000,
                        0 <= p as int <= 0x1000,
                ;
            }
            v = mant as u128 * p as u128;
            proof {
                assert(mant as int == round_half_even(size as int, scale_of(size as int)));
                assert(v as int == mant as int * p as int);
                assert(v as int == round53(size as int));
            }
        }
        proof {
            assert(v as int == round53(size as int));
            assert(v as int <= 0x20000000000000 * 0x1000);
        }
        let num: u128 = v * 100;
        proof {
            let qn = num as int / 1073741824int;
            lemma_fundamental_div_mod(num as int, 1073741824int);
            assert(num as int == 1073741824 * qn + num as int % 1073741824);
            assert(qn <= 3435973836800);
        }
        let q128 = rhe_u128(num, 1073741824);
        proof {
            assert(q128 as int <= 3435973836800 + 1);
        }
        let q: u64 = q128 as u64;
        let mut cs = dec_chars(q / 100);
        cs.push('.');
        cs.push(digit_of(q / 10 % 10));
        cs.push(digit_of(q % 10));
        cs.push(' ');
        cs.push('Г');
        cs.push('Б');
        proof {
            assert(q as int == round_half_even(round53(size as int) * 100, 1073741824));
            assert(cs@ =~= fixed2(round53(size as int), 1073741824) + seq![' ', 'Г', 'Б']);
        }
        string_from_chars(&cs)
    }
}

} // verus!
