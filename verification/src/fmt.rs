//! Building display strings: decimal numbers and literal pieces.

use vstd::prelude::*;
use vstd::string::*;
use crate::text::push_char;

verus! {

/// The decimal digit character for `d < 10`.
pub open spec fn digit_char(d: nat) -> char {
    if d == 0 { '0' } else if d == 1 { '1' } else if d == 2 { '2' } else if d == 3 { '3' }
    else if d == 4 { '4' } else if d == 5 { '5' } else if d == 6 { '6' } else if d == 7 { '7' }
    else if d == 8 { '8' } else { '9' }
}

/// Decimal representation of `n` (no leading zeros; `0` is `"0"`).
pub open spec fn dec(n: nat) -> Seq<char>
    decreases n,
{
    if n < 10 {
        seq![digit_char(n)]
    } else {
        dec(n / 10) + seq![digit_char(n % 10)]
    }
}

fn digit(d: u64) -> (c: char)
    requires
        d < 10,
    ensures
        c == digit_char(d as nat),
{
    if d == 0 { '0' } else if d == 1 { '1' } else if d == 2 { '2' } else if d == 3 { '3' }
    else if d == 4 { '4' } else if d == 5 { '5' } else if d == 6 { '6' } else if d == 7 { '7' }
    else if d == 8 { '8' } else { '9' }
}

/// Append the decimal representation of `n`.
pub fn push_decimal(out: &mut String, n: usize)
    ensures
        final(out)@ == old(out)@ + dec(n as nat),
{
    push_decimal_u64(out, n as u64);
}

/// Append the decimal representation of `n`.
pub fn push_decimal_u64(out: &mut String, n: u64)
    ensures
        final(out)@ == old(out)@ + dec(n as nat),
    decreases n,
{
    if n >= 10 {
        push_decimal_u64(out, n / 10);
    }
    push_char(out, digit(n % 10));
    assert(dec(n as nat) == if n < 10 { seq![digit_char(n as nat)] } else { dec((n / 10) as nat) + seq![digit_char((n % 10) as nat)] });
}

/// `s` with `0`s in front up to width `w`.
pub open spec fn zero_pad(s: Seq<char>, w: nat) -> Seq<char> {
    if s.len() < w {
        Seq::new((w - s.len()) as nat, |i: int| '0') + s
    } else {
        s
    }
}

/// Append the decimal representation of `n`, zero-padded to at least `w` digits.
pub fn push_padded(out: &mut String, n: u64, w: usize)
    ensures
        final(out)@ == old(out)@ + zero_pad(dec(n as nat), w as nat),
{
    let mut digits = String::new();
    push_decimal_u64(&mut digits, n);
    let len = digits.as_str().unicode_len();
    let ghost start = out@;
    if len < w {
        let mut k: usize = 0;
        while k < w - len
            invariant
                len < w,
                0 <= k <= w - len,
                out@ == start + Seq::new(k as nat, |i: int| '0'),
            decreases w - len - k,
        {
            push_char(out, '0');
            assert(out@ =~= start + Seq::new((k + 1) as nat, |i: int| '0'));
            k = k + 1;
        }
    }
    out.append(digits.as_str());
    assert(out@ =~= start + zero_pad(dec(n as nat), w as nat));
}

/// Append a string slice.
pub fn push_str(out: &mut String, s: &str)
    ensures
        final(out)@ == old(out)@ + s@,
{
    out.append(s);
}

} // verus!
