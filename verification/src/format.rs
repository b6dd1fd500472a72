//! Human-readable rendering of byte counts and Unix permission bits.

use vstd::prelude::*;

verus! {

/// The character that stands for decimal digit `d`.
pub open spec fn digit_char(d: nat) -> char {
    if d == 0 {
        '0'
    } else if d == 1 {
        '1'
    } else if d == 2 {
        '2'
    } else if d == 3 {
        '3'
    } else if d == 4 {
        '4'
    } else if d == 5 {
        '5'
    } else if d == 6 {
        '6'
    } else if d == 7 {
        '7'
    } else if d == 8 {
        '8'
    } else {
        '9'
    }
}

/// The decimal numeral of `n`, most significant digit first, without leading zeros.
pub open spec fn decimal(n: nat) -> Seq<char>
    decreases n,
{
    if n < 10 {
        seq![digit_char(n)]
    } else {
        decimal(n / 10).push(digit_char(n % 10))
    }
}

fn digit_str(d: u8) -> (s: &'static str)
    requires
        d < 10,
    ensures
        s@ == seq![digit_char(d as nat)],
{
    proof {
        reveal_strlit("0");
        reveal_strlit("1");
        reveal_strlit("2");
        reveal_strlit("3");
        reveal_strlit("4");
        reveal_strlit("5");
        reveal_strlit("6");
        reveal_strlit("7");
        reveal_strlit("8");
        reveal_strlit("9");
    }
    let s = if d == 0 {
        "0"
    } else if d == 1 {
        "1"
    } else if d == 2 {
        "2"
    } else if d == 3 {
        "3"
    } else if d == 4 {
        "4"
    } else if d == 5 {
        "5"
    } else if d == 6 {
        "6"
    } else if d == 7 {
        "7"
    } else if d == 8 {
        "8"
    } else {
        "9"
    };
    s
}

/// Appends the decimal numeral of `n` to `out`.
pub fn push_decimal(out: &mut String, n: u128)
    ensures
        final(out)@ == old(out)@ + decimal(n as nat),
    decreases n,
{
    if n >= 10 {
        push_decimal(out, n / 10);
    }
    let d: u8 = (n % 10) as u8;
    out.append(digit_str(d));
}

pub const KIB: u64 = 1024;

pub const MIB: u64 = 1048576;

pub const GIB: u64 = 1073741824;

pub const TIB: u64 = 1099511627776;

/// Largest power of two such that every integer below it is a binary64 value.
pub const EXACT_LIMIT: u64 = 9007199254740992;

/// The spacing of binary64 values around `n`: 1 below 2^53, then doubling with
/// each further binary order of magnitude.
pub open spec fn double_spacing(n: nat) -> nat {
    if n < EXACT_LIMIT {
        1
    } else if n < EXACT_LIMIT * 2 {
        2
    } else if n < EXACT_LIMIT * 4 {
        4
    } else if n < EXACT_LIMIT * 8 {
        8
    } else if n < EXACT_LIMIT * 16 {
        16
    } else if n < EXACT_LIMIT * 32 {
        32
    } else if n < EXACT_LIMIT * 64 {
        64
    } else if n < EXACT_LIMIT * 128 {
        128
    } else if n < EXACT_LIMIT * 256 {
        256
    } else if n < EXACT_LIMIT * 512 {
        512
    } else if n < EXACT_LIMIT * 1024 {
        1024
    } else {
        2048
    }
}

/// `numerator / denominator` rounded to the nearest integer, a tie going to the
/// even neighbour.
pub open spec fn round_half_even(numerator: nat, denominator: nat) -> nat {
    let q = numerator / denominator;
    let r = numerator % denominator;
    if 2 * r > denominator || (2 * r == denominator && q % 2 == 1) {
        q + 1
    } else {
        q
    }
}

/// The integer that a byte count becomes when it is held as a binary64 number:
/// the nearest multiple of the spacing at that magnitude, ties to even.
pub open spec fn nearest_double(n: nat) -> nat {
    round_half_even(n, double_spacing(n)) * double_spacing(n)
}

/// A count of tenths written with one fractional digit, as in `12.3`.
pub open spec fn one_decimal(tenths: nat) -> Seq<char> {
    decimal(tenths / 10).push('.').push(digit_char(tenths % 10))
}

/// The text of a size: bytes as a whole number below 1 KiB, otherwise the value
/// in the largest binary unit up to TiB that it reaches, rounded half-to-even
/// to one fractional digit.
pub open spec fn size_text(bytes: u64) -> Seq<char> {
    let v = nearest_double(bytes as nat);
    if v < KIB {
        decimal(v) + " B"@
    } else if v < MIB {
        one_decimal(round_half_even(v * 10, KIB as nat)) + " KiB"@
    } else if v < GIB {
        one_decimal(round_half_even(v * 10, MIB as nat)) + " MiB"@
    } else if v < TIB {
        one_decimal(round_half_even(v * 10, GIB as nat)) + " GiB"@
    } else {
        one_decimal(round_half_even(v * 10, TIB as nat)) + " TiB"@
    }
}

fn spacing_of(n: u64) -> (s: u128)
    ensures
        s == double_spacing(n as nat),
        1 <= s <= 2048,
{
    if n < EXACT_LIMIT {
        1
    } else if n < EXACT_LIMIT * 2 {
        2
    } else if n < EXACT_LIMIT * 4 {
        4
    } else if n < EXACT_LIMIT * 8 {
        8
    } else if n < EXACT_LIMIT * 16 {
        16
    } else if n < EXACT_LIMIT * 32 {
        32
    } else if n < EXACT_LIMIT * 64 {
        64
    } else if n < EXACT_LIMIT * 128 {
        128
    } else if n < EXACT_LIMIT * 256 {
        256
    } else if n < EXACT_LIMIT * 512 {
        512
    } else if n < EXACT_LIMIT * 1024 {
        1024
    } else {
        2048
    }
}

fn rounded_quotient(numerator: u128, denominator: u128) -> (q: u128)
    requires
        denominator > 0,
        numerator < u128::MAX,
    ensures
        q == round_half_even(numerator as nat, denominator as nat),
        q <= numerator / denominator + 1,
{
    let q: u128 = numerator / denominator;
    let r: u128 = numerator % denominator;
    // `r < denominator`, so comparing `r` with what is left of the denominator
    // decides `2 * r` against it without doubling.
    let rest: u128 = denominator - r;
    if r > rest || (r == rest && q % 2 == 1) {
        q + 1
    } else {
        q
    }
}

fn push_one_decimal(out: &mut String, tenths: u128)
    ensures
        final(out)@ == old(out)@ + one_decimal(tenths as nat),
{
    push_decimal(out, tenths / 10);
    out.append(".");
    let d: u8 = (tenths % 10) as u8;
    out.append(digit_str(d));
    proof {
        reveal_strlit(".");
    }
}

/// Formats a size in bytes with binary prefixes, as `size_text` states.
pub fn size(bytes: u64) -> (text: String)
    ensures
        text@ == size_text(bytes),
{
    let spacing: u128 = spacing_of(bytes);
    let mantissa: u128 = rounded_quotient(bytes as u128, spacing);
    let v: u128 = mantissa * spacing;
    let mut text = String::new();
    if v < KIB as u128 {
        push_decimal(&mut text, v);
        text.append(" B");
    } else if v < MIB as u128 {
        push_one_decimal(&mut text, rounded_quotient(v * 10, KIB as u128));
        text.append(" KiB");
    } else if v < GIB as u128 {
        push_one_decimal(&mut text, rounded_quotient(v * 10, MIB as u128));
        text.append(" MiB");
    } else if v < TIB as u128 {
        push_one_decimal(&mut text, rounded_quotient(v * 10, GIB as u128));
        text.append(" GiB");
    } else {
        push_one_decimal(&mut text, rounded_quotient(v * 10, TIB as u128));
        text.append(" TiB");
    }
    text
}

/// One permission letter: `letter` when `mode` has a bit of `mask` set, else `-`.
pub open spec fn permission_char(mode: u32, mask: u32, letter: char) -> char {
    if mode & mask != 0 {
        letter
    } else {
        '-'
    }
}

/// The nine permission letters of a Unix mode: read, write and execute for
/// the owner, the group and everyone else, in that order.
pub open spec fn permission_text(mode: u32) -> Seq<char> {
    seq![
        permission_char(mode, 0o400, 'r'),
        permission_char(mode, 0o200, 'w'),
        permission_char(mode, 0o100, 'x'),
        permission_char(mode, 0o040, 'r'),
        permission_char(mode, 0o020, 'w'),
        permission_char(mode, 0o010, 'x'),
        permission_char(mode, 0o004, 'r'),
        permission_char(mode, 0o002, 'w'),
        permission_char(mode, 0o001, 'x'),
    ]
}

fn push_permission(out: &mut String, mode: u32, mask: u32, letter: &'static str)
    requires
        letter@.len() == 1,
    ensures
        final(out)@ == old(out)@.push(permission_char(mode, mask, letter@[0])),
{
    if mode & mask != 0 {
        out.append(letter);
    } else {
        proof {
            reveal_strlit("-");
        }
        out.append("-");
    }
}

/// Formats a Unix file mode as nine letters such as `rwxr-xr-x`.
pub fn format_permissions(mode: u32) -> (text: String)
    ensures
        text@ == permission_text(mode),
{
    proof {
        reveal_strlit("r");
        reveal_strlit("w");
        reveal_strlit("x");
    }
    let mut text = String::new();
    push_permission(&mut text, mode, 0o400, "r");
    push_permission(&mut text, mode, 0o200, "w");
    push_permission(&mut text, mode, 0o100, "x");
    push_permission(&mut text, mode, 0o040, "r");
    push_permission(&mut text, mode, 0o020, "w");
    push_permission(&mut text, mode, 0o010, "x");
    push_permission(&mut text, mode, 0o004, "r");
    push_permission(&mut text, mode, 0o002, "w");
    push_permission(&mut text, mode, 0o001, "x");
    text
}

} // verus!
