//! Decimal and hexadecimal renderings of numbers, for the texts of errors.
use vstd::prelude::*;

verus! {

/// The character of digit `d` (0 to 15): `0`-`9`, then `A`-`F`.
pub open spec fn digit_char(d: int) -> char {
    if d < 10 {
        (48 + d) as char
    } else {
        (55 + d) as char
    }
}

/// The decimal digits of `n`, without leading zeros.
pub open spec fn decimal_text_of(n: nat) -> Seq<char>
    decreases n,
{
    if n < 10 {
        seq![digit_char(n as int)]
    } else {
        decimal_text_of(n / 10).push(digit_char((n % 10) as int))
    }
}

/// The last `width` upper-case hexadecimal digits of `n`, zero-padded.
pub open spec fn hex_text_of(n: nat, width: nat) -> Seq<char>
    decreases width,
{
    if width == 0 {
        Seq::empty()
    } else {
        hex_text_of(n / 16, (width - 1) as nat).push(digit_char((n % 16) as int))
    }
}

/// The text of digit `d`.
fn digit_str(d: u64) -> (s: &'static str)
    requires
        d < 16,
    ensures
        s@ == seq![digit_char(d as int)],
{
    match d {
        0 => {
            proof { reveal_strlit("0"); }
            "0"
        },
        1 => {
            proof { reveal_strlit("1"); }
            "1"
        },
        2 => {
            proof { reveal_strlit("2"); }
            "2"
        },
        3 => {
            proof { reveal_strlit("3"); }
            "3"
        },
        4 => {
            proof { reveal_strlit("4"); }
            "4"
        },
        5 => {
            proof { reveal_strlit("5"); }
            "5"
        },
        6 => {
            proof { reveal_strlit("6"); }
            "6"
        },
        7 => {
            proof { reveal_strlit("7"); }
            "7"
        },
        8 => {
            proof { reveal_strlit("8"); }
            "8"
        },
        9 => {
            proof { reveal_strlit("9"); }
            "9"
        },
        10 => {
            proof { reveal_strlit("A"); }
            "A"
        },
        11 => {
            proof { reveal_strlit("B"); }
            "B"
        },
        12 => {
            proof { reveal_strlit("C"); }
            "C"
        },
        13 => {
            proof { reveal_strlit("D"); }
            "D"
        },
        14 => {
            proof { reveal_strlit("E"); }
            "E"
        },
        _ => {
            proof { reveal_strlit("F"); }
            "F"
        },
    }
}

/// Appends the decimal digits of `n` to `out`.
pub fn push_decimal(out: &mut String, n: u64)
    ensures
        final(out)@ == old(out)@ + decimal_text_of(n as nat),
    decreases n,
{
    if n < 10 {
        out.append(digit_str(n));
    } else {
        push_decimal(out, n / 10);
        out.append(digit_str(n % 10));
    }
    assert(final(out)@ =~= old(out)@ + decimal_text_of(n as nat));
}

/// Appends the last `width` hexadecimal digits of `n` to `out`.
pub fn push_hex(out: &mut String, n: u64, width: u32)
    ensures
        final(out)@ == old(out)@ + hex_text_of(n as nat, width as nat),
    decreases width,
{
    if width > 0 {
        push_hex(out, n / 16, width - 1);
        out.append(digit_str(n % 16));
    }
    assert(final(out)@ =~= old(out)@ + hex_text_of(n as nat, width as nat));
}

} // verus!
