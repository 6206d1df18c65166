//! Human-readable rendering of a byte count.
use vstd::prelude::*;
use crate::text::{decimal, digit, digit_char, push_decimal, text_of};

verus! {

pub const KB: u64 = 1024;
pub const MB: u64 = 1048576;
pub const GB: u64 = 1073741824;

/// `n / d` rounded to the nearest integer, ties to the even one.
pub open spec fn round_half_even(n: nat, d: nat) -> nat
    recommends
        d > 0,
{
    let q = n / d;
    let r = n % d;
    if 2 * r > d || (2 * r == d && q % 2 == 1) {
        q + 1
    } else {
        q
    }
}

/// `size / unit` with two decimals, rounded half to even.
pub open spec fn two_decimals(size: nat, unit: nat) -> Seq<char> {
    let h = round_half_even(size * 100, unit);
    decimal(h / 100) + seq!['.', digit_char((h % 100) / 10), digit_char(h % 10)]
}

/// The text of a byte count: in GB, MB or KB with two decimals from the unit
/// up, else in bytes.
pub open spec fn size_text(size: nat) -> Seq<char> {
    if size >= GB {
        two_decimals(size, GB as nat) + " GB"@
    } else if size >= MB {
        two_decimals(size, MB as nat) + " MB"@
    } else if size >= KB {
        two_decimals(size, KB as nat) + " KB"@
    } else {
        decimal(size) + " Bytes"@
    }
}

fn push_two_decimals(out: &mut Vec<char>, size: u64, unit: u64)
    requires
        unit == KB || unit == MB || unit == GB,
    ensures
        final(out)@ == old(out)@ + two_decimals(size as nat, unit as nat),
{
    let n: u128 = (size as u128) * 100;
    let q: u128 = n / (unit as u128);
    let r: u128 = n % (unit as u128);
    let h: u128 = if 2 * r > unit as u128 || (2 * r == unit as u128 && q % 2 == 1) {
        q + 1
    } else {
        q
    };
    assert(h == round_half_even(size as nat * 100, unit as nat));
    proof {
        vstd::arithmetic::div_mod::lemma_fundamental_div_mod(n as int, unit as int);
        assert(q * 1024 <= q * unit) by (nonlinear_arith)
            requires
                unit >= 1024,
                q >= 0,
        ;
    }
    let h64: u64 = h as u64;
    let ghost before = out@;
    push_decimal(out, h64 / 100);
    out.push('.');
    out.push(digit((h64 % 100) / 10));
    out.push(digit(h64 % 10));
    let ghost hn: nat = h64 as nat;
    assert(hn == round_half_even(size as nat * 100, unit as nat));
    assert(out@ =~= before + (decimal(hn / 100) + seq!['.', digit_char((hn % 100) / 10), digit_char(hn % 10)]));
}

/// Human-readable size: two decimals in GB, MB or KB from 1024 bytes up
/// (rounded half to even), else the exact count followed by " Bytes".
pub fn format_file_size(size: u64) -> (r: String)
    ensures
        r@ == size_text(size as nat),
{
    let mut out: Vec<char> = Vec::new();
    if size >= GB {
        push_two_decimals(&mut out, size, GB);
        out.push(' ');
        out.push('G');
        out.push('B');
        proof { reveal_strlit(" GB"); }
    } else if size >= MB {
        push_two_decimals(&mut out, size, MB);
        out.push(' ');
        out.push('M');
        out.push('B');
        proof { reveal_strlit(" MB"); }
    } else if size >= KB {
        push_two_decimals(&mut out, size, KB);
        out.push(' ');
        out.push('K');
        out.push('B');
        proof { reveal_strlit(" KB"); }
    } else {
        push_decimal(&mut out, size);
        out.push(' ');
        out.push('B');
        out.push('y');
        out.push('t');
        out.push('e');
        out.push('s');
        proof { reveal_strlit(" Bytes"); }
    }
    assert(out@ =~= size_text(size as nat));
    text_of(&out)
}

} // verus!
