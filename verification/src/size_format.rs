//! Byte counts as people read them: scaled to the largest binary unit that
//! the count reaches, with two decimals, followed by the exact count.

use crate::decimal::{decimal_text, digit_char, push_decimal, push_digit};
use vstd::prelude::*;
use vstd::string::*;

verus! {

/// Bytes in a kilobyte.
pub const KB: u64 = 1024;

/// Bytes in a megabyte.
pub const MB: u64 = 1_048_576;

/// Bytes in a gigabyte.
pub const GB: u64 = 1_073_741_824;

/// The least count that a double-precision number may fail to hold exactly:
/// two to the power 53.
pub const EXACT_LIMIT: u64 = 0x20_0000_0000_0000;

/// The unit in which a byte count is shown.
#[derive(Clone, Copy, Debug, PartialEq, Eq)]
pub enum SizeUnit {
    Bytes,
    Kilobytes,
    Megabytes,
    Gigabytes,
}

impl SizeUnit {
    /// The number of bytes that the unit stands for, which is also the least
    /// count that is shown in it.
    pub open spec fn bytes(self) -> nat {
        match self {
            SizeUnit::Bytes => 1,
            SizeUnit::Kilobytes => KB as nat,
            SizeUnit::Megabytes => MB as nat,
            SizeUnit::Gigabytes => GB as nat,
        }
    }

    /// The letters written after a scaled count; none for plain bytes.
    pub open spec fn suffix(self) -> Seq<char> {
        match self {
            SizeUnit::Bytes => Seq::<char>::empty(),
            SizeUnit::Kilobytes => seq!['K', 'B'],
            SizeUnit::Megabytes => seq!['M', 'B'],
            SizeUnit::Gigabytes => seq!['G', 'B'],
        }
    }
}

/// The unit in which `size` is shown: the largest whose byte count `size`
/// reaches, plain bytes below a kilobyte.
pub open spec fn unit_of(size: nat) -> SizeUnit {
    if size >= GB {
        SizeUnit::Gigabytes
    } else if size >= MB {
        SizeUnit::Megabytes
    } else if size >= KB {
        SizeUnit::Kilobytes
    } else {
        SizeUnit::Bytes
    }
}

/// `n / d` rounded to the nearest whole number; a quotient that lies exactly
/// halfway between two goes to the even one.
pub open spec fn round_half_even(n: nat, d: nat) -> nat
    recommends
        d > 0,
{
    let q = n / d;
    let r = n % d;
    if 2 * r < d || (2 * r == d && q % 2 == 0) {
        q
    } else {
        q + 1
    }
}

/// The distance between neighbouring double-precision numbers around `n`:
/// one below two to the power 53, doubling with each further binary digit.
pub open spec fn double_spacing(n: nat) -> nat
    decreases n,
{
    if n < EXACT_LIMIT {
        1
    } else {
        2 * double_spacing(n / 2)
    }
}

/// The double-precision number nearest to `n`, ties going to the one with
/// the even significand. It is `n` itself below two to the power 53.
pub open spec fn nearest_double(n: nat) -> nat {
    round_half_even(n, double_spacing(n)) * double_spacing(n)
}

/// `size` in hundredths of `unit`: the nearest double to `size`, divided by
/// `unit` and rounded to two decimals, halves to the even hundredth.
pub open spec fn hundredths(size: nat, unit: nat) -> nat
    recommends
        unit > 0,
{
    round_half_even(nearest_double(size) * 100, unit)
}

/// `h` hundredths written with a decimal point and two decimals.
pub open spec fn fixed_two_text(h: nat) -> Seq<char> {
    decimal_text(h / 100) + seq!['.', digit_char((h % 100) / 10), digit_char(h % 10)]
}

/// The words that close a byte count.
pub open spec fn bytes_word() -> Seq<char> {
    seq![' ', 'b', 'y', 't', 'e', 's']
}

/// A byte count as it is shown. Below a kilobyte: the count and the word
/// `bytes`. From a kilobyte on: the count in its unit with two decimals, the
/// unit's letters, and in parentheses the exact count and the word `bytes`.
pub open spec fn format_size_text(size: nat) -> Seq<char> {
    let unit = unit_of(size);
    if unit == SizeUnit::Bytes {
        decimal_text(size) + bytes_word()
    } else {
        fixed_two_text(hundredths(size, unit.bytes())) + unit.suffix() + seq![' ', '(']
            + decimal_text(size) + bytes_word() + seq![')']
    }
}

/// The unit in which `size` is shown.
pub fn unit_for(size: u64) -> (unit: SizeUnit)
    ensures
        unit == unit_of(size as nat),
{
    if size >= GB {
        SizeUnit::Gigabytes
    } else if size >= MB {
        SizeUnit::Megabytes
    } else if size >= KB {
        SizeUnit::Kilobytes
    } else {
        SizeUnit::Bytes
    }
}

/// `n / d` rounded to the nearest whole number, halves to the even one.
fn round_half_even_exec(n: u128, d: u128) -> (q: u128)
    requires
        d > 0,
        n <= 0xffff_ffff_ffff_ffff_ffff_ffff,
        d <= 0xffff_ffff_ffff_ffff_ffff_ffff,
    ensures
        q == round_half_even(n as nat, d as nat),
        q <= n / d + 1,
{
    let q: u128 = n / d;
    let r: u128 = n % d;
    if 2 * r < d || (2 * r == d && q % 2 == 0) {
        q
    } else {
        q + 1
    }
}

/// The distance between neighbouring double-precision numbers around `size`.
fn spacing_for(size: u64) -> (step: u64)
    ensures
        step == double_spacing(size as nat),
        1 <= step < 4096,
{
    let mut rest: u64 = size;
    let mut step: u64 = 1;
    while rest >= EXACT_LIMIT
        invariant
            step >= 1,
            step * rest <= size,
            size < EXACT_LIMIT ==> step == 1,
            size >= EXACT_LIMIT ==> rest >= 0x10_0000_0000_0000,
            double_spacing(size as nat) == step * double_spacing(rest as nat),
        decreases rest,
    {
        proof {
            let s = step as int;
            let r = rest as int;
            assert(s * r >= s * 0x20_0000_0000_0000) by (nonlinear_arith)
                requires
                    s >= 1,
                    r >= 0x20_0000_0000_0000,
            ;
            assert((2 * s) * (r / 2) <= s * r) by (nonlinear_arith)
                requires
                    s >= 1,
                    r >= 0,
            ;
            assert(s * (2 * double_spacing((r / 2) as nat)) == (2 * s) * double_spacing(
                (r / 2) as nat,
            )) by (nonlinear_arith);
        }
        rest = rest / 2;
        step = step * 2;
    }
    proof {
        let s = step as int;
        let r = rest as int;
        assert(double_spacing(rest as nat) == 1);
        assert(s * 1 == s);
        if size >= EXACT_LIMIT {
            assert(s < 4096) by (nonlinear_arith)
                requires
                    s * r <= 0xffff_ffff_ffff_ffff,
                    r >= 0x10_0000_0000_0000int,
                    s >= 1,
            ;
        }
    }
    step
}

/// The double-precision number nearest to `size`.
fn nearest_double_exec(size: u64) -> (m: u128)
    ensures
        m == nearest_double(size as nat),
        m <= 0x1_0000_0000_0000_1000,
{
    let step: u64 = spacing_for(size);
    let q: u128 = round_half_even_exec(size as u128, step as u128);
    proof {
        let s = step as int;
        let n = size as int;
        assert((n / s + 1) * s <= n + s) by (nonlinear_arith)
            requires
                s >= 1,
                n >= 0,
        ;
        assert(q * s <= (n / s + 1) * s) by (nonlinear_arith)
            requires
                q <= n / s + 1,
                s >= 1,
        ;
    }
    q * (step as u128)
}

/// `size` in hundredths of `unit`.
fn hundredths_exec(size: u64, unit: u64) -> (h: u64)
    requires
        unit >= 1024,
    ensures
        h == hundredths(size as nat, unit as nat),
{
    let m: u128 = nearest_double_exec(size);
    let h: u128 = round_half_even_exec(m * 100, unit as u128);
    assert(h <= (m * 100) / 1024 + 1) by {
        let n = (m * 100) as int;
        let u = unit as int;
        assert(n / u <= n / 1024) by (nonlinear_arith)
            requires
                n >= 0,
                u >= 1024,
        ;
    }
    h as u64
}

/// Appends `h` hundredths with a decimal point and two decimals.
fn push_fixed_two(out: &mut String, h: u64)
    ensures
        final(out)@ == old(out)@ + fixed_two_text(h as nat),
{
    push_decimal(out, h / 100);
    out.append(".");
    push_digit(out, (h % 100) / 10);
    push_digit(out, h % 10);
    proof {
        reveal_strlit(".");
        assert("."@ =~= seq!['.']);
        assert(final(out)@ =~= old(out)@ + fixed_two_text(h as nat));
    }
}

/// Appends the letters of `unit`.
fn push_suffix(out: &mut String, unit: SizeUnit)
    ensures
        final(out)@ == old(out)@ + unit.suffix(),
{
    match unit {
        SizeUnit::Bytes => {},
        SizeUnit::Kilobytes => {
            out.append("KB");
        },
        SizeUnit::Megabytes => {
            out.append("MB");
        },
        SizeUnit::Gigabytes => {
            out.append("GB");
        },
    }
    proof {
        reveal_strlit("KB");
        reveal_strlit("MB");
        reveal_strlit("GB");
        assert("KB"@ =~= seq!['K', 'B']);
        assert("MB"@ =~= seq!['M', 'B']);
        assert("GB"@ =~= seq!['G', 'B']);
        assert(final(out)@ =~= old(out)@ + unit.suffix());
    }
}

/// The number of bytes that `unit` stands for.
fn unit_bytes(unit: SizeUnit) -> (n: u64)
    ensures
        n == unit.bytes(),
{
    match unit {
        SizeUnit::Bytes => 1,
        SizeUnit::Kilobytes => KB,
        SizeUnit::Megabytes => MB,
        SizeUnit::Gigabytes => GB,
    }
}

/// Appends `size` as it is shown.
pub fn push_size(out: &mut String, size: u64)
    ensures
        final(out)@ == old(out)@ + format_size_text(size as nat),
{
    let unit = unit_for(size);
    match unit {
        SizeUnit::Bytes => {
            push_decimal(out, size);
            out.append(" bytes");
        },
        _ => {
            let h: u64 = hundredths_exec(size, unit_bytes(unit));
            push_fixed_two(out, h);
            push_suffix(out, unit);
            out.append(" (");
            push_decimal(out, size);
            out.append(" bytes");
            out.append(")");
        },
    }
    proof {
        reveal_strlit(" bytes");
        reveal_strlit(" (");
        reveal_strlit(")");
        assert(" bytes"@ =~= bytes_word());
        assert(" ("@ =~= seq![' ', '(']);
        assert(")"@ =~= seq![')']);
        assert(final(out)@ =~= old(out)@ + format_size_text(size as nat));
    }
}

/// `size` as it is shown: scaled to gigabytes, megabytes or kilobytes, the
/// largest of them that it reaches, with two decimals and the exact count
/// after it; or, below a kilobyte, the count alone.
pub fn format_size(size: u64) -> (s: String)
    ensures
        s@ == format_size_text(size as nat),
{
    let mut out = String::new();
    push_size(&mut out, size);
    assert(out@ =~= format_size_text(size as nat));
    out
}

/// Every count is shown in exactly one unit: the largest that it reaches.
/// No unit above it is reached, and every unit that is reached is at most
/// it.
pub proof fn lemma_unit_is_largest_reached(size: nat, other: SizeUnit)
    ensures
        unit_of(size) == SizeUnit::Bytes <==> size < KB,
        unit_of(size) != SizeUnit::Bytes ==> unit_of(size).bytes() <= size,
        other != SizeUnit::Bytes && other.bytes() <= size ==> other.bytes() <= unit_of(
            size,
        ).bytes(),
        other.bytes() > unit_of(size).bytes() ==> size < other.bytes(),
{
}

/// What is shown ends with the exact count, whatever the unit: for a count
/// below a kilobyte the text is the count and the word `bytes`; from a
/// kilobyte on it is the scaled count, the unit, and in parentheses the
/// exact count and the word `bytes`.
pub proof fn lemma_exact_count_is_shown(size: nat)
    ensures
        size < KB ==> format_size_text(size) == decimal_text(size) + bytes_word(),
        size >= KB ==> format_size_text(size) == fixed_two_text(
            hundredths(size, unit_of(size).bytes()),
        ) + unit_of(size).suffix() + (seq![' ', '('] + decimal_text(size) + bytes_word() + seq![')']),
{
    if size >= KB {
        let head = fixed_two_text(hundredths(size, unit_of(size).bytes())) + unit_of(size).suffix();
        let tail = seq![' ', '('] + decimal_text(size) + bytes_word() + seq![')'];
        assert(format_size_text(size) =~= head + tail);
    }
}

/// Below two to the power 53 a count is scaled as it stands, with nothing
/// lost before the division.
pub proof fn lemma_small_counts_are_exact(size: nat)
    requires
        size < EXACT_LIMIT,
    ensures
        nearest_double(size) == size,
{
    assert(double_spacing(size) == 1);
}

} // verus!
