//! What the converter prints on its way: the announcement before the
//! encoder starts and, once it has finished, the time it took, the sizes of
//! both files in human scale, and their ratio.
//!
//! The numbers are computed in double precision, as written out in
//! [`crate::binary64`], and shown rounded to the nearest last digit, ties to
//! even.

use vstd::prelude::*;
use vstd::string::*;
use vstd::arithmetic::power2::{lemma2_to64, lemma_pow2_pos, pow2};
use crate::binary64::{
    add_fraction, div_round_half_even, divide, doublings, lemma_rescaled, lemma_round_bounds,
    binary64_of, lemma_round_same_value, lemma_same_fraction, nearest_integer, round_half_even,
    round_scaled, round_to_binary64, Binary, Rounded, NORMAL_LIMIT,
};
use crate::config::{Config, ConfigView};
use crate::text::{
    append_decimal, append_one_decimal, append_two_decimals, decimal, one_decimal, two_decimals,
};

verus! {

/// Which unit a byte count is shown in: 0 for B, 1 for KB, 2 for MB, 3 for GB.
/// Each unit is 1024 of the one before; GB takes everything above.
pub open spec fn unit_index(bytes: nat) -> nat {
    if bytes < 1024 {
        0
    } else if bytes < 1024 * 1024 {
        1
    } else if bytes < 1024 * 1024 * 1024 {
        2
    } else {
        3
    }
}

/// The number of bytes in one unit.
pub open spec fn unit_size(index: nat) -> nat {
    if index == 0 {
        1
    } else if index == 1 {
        1024
    } else if index == 2 {
        1024 * 1024
    } else {
        1024 * 1024 * 1024
    }
}

/// The name of a unit.
pub open spec fn unit_name(index: nat) -> Seq<char> {
    if index == 0 {
        "B"@
    } else if index == 1 {
        "KB"@
    } else if index == 2 {
        "MB"@
    } else {
        "GB"@
    }
}

/// A byte count in tenths of its unit. The count is first taken to double
/// precision, which changes nothing below two to the 53; the division by the
/// unit is exact, and the tenths round to nearest, ties to even.
pub open spec fn size_tenths(bytes: nat) -> nat {
    let held = binary64_of(bytes);
    round_half_even(10 * held.num(), unit_size(unit_index(bytes)) * held.den())
}

/// A byte count in human scale: the scaled number with one digit after the
/// point, a space, and the unit.
pub open spec fn byte_size_text(bytes: nat) -> Seq<char> {
    one_decimal(size_tenths(bytes)) + seq![' '] + unit_name(unit_index(bytes))
}

/// The size of the output as a percentage of the size of the input, in
/// tenths of a percent. Both sizes are taken to double precision; their
/// quotient, and that quotient times one hundred, each round to double
/// precision; the tenths round to nearest, ties to even.
pub open spec fn percent_tenths(output: nat, input: nat) -> nat
    recommends
        input > 0,
{
    binary64_of(output).divided_by(binary64_of(input)).times(100).in_parts(10)
}

/// The size ratio as it is shown, without the percent sign. Nothing guards
/// an input of no bytes: the quotient is then infinite, or not a number
/// where the output is empty too, and is shown as that.
pub open spec fn ratio_text(output: nat, input: nat) -> Seq<char> {
    if input > 0 {
        one_decimal(percent_tenths(output, input))
    } else if output > 0 {
        "inf"@
    } else {
        "NaN"@
    }
}

/// A span of time as mathematical values.
pub ghost struct ElapsedView {
    pub secs: nat,
    pub nanos: nat,
}

/// A span of time in hundredths of a second. The whole seconds are taken to
/// double precision; the nanoseconds divided by ten to the ninth, and the
/// sum of the two, each round to double precision; the hundredths round to
/// nearest, ties to even.
pub open spec fn elapsed_hundredths(elapsed: ElapsedView) -> nat {
    let whole = binary64_of(elapsed.secs);
    let fraction = round_to_binary64(elapsed.nanos, 1_000_000_000);
    whole.plus(fraction).in_parts(100)
}

/// A span of time in seconds, with two digits after the point.
pub open spec fn elapsed_text(elapsed: ElapsedView) -> Seq<char> {
    two_decimals(elapsed_hundredths(elapsed))
}

/// The three lines that announce a conversion: what is converted, where
/// to, and with which settings.
pub open spec fn announcement(config: ConfigView, output: Seq<char>) -> Seq<Seq<char>> {
    seq![
        "Converting '"@ + config.input + "' for Telegram compatibility..."@,
        "Output: '"@ + output + "'"@,
        "Settings: "@ + decimal(config.bitrate) + "kbps video, "@ + decimal(config.audio_bitrate)
            + "kbps audio, "@ + decimal(config.fps) + "fps, CRF "@ + decimal(config.crf),
    ]
}

/// The lines about the sizes of both files: each size in human scale, and
/// the output as a percentage of the input.
pub open spec fn size_lines(input_size: nat, output_size: nat) -> Seq<Seq<char>> {
    seq![
        "  Input size: "@ + byte_size_text(input_size),
        "  Output size: "@ + byte_size_text(output_size),
        "  Size ratio: "@ + ratio_text(output_size, input_size) + "%"@,
    ]
}

/// The lines that report a finished conversion: the output path, the time
/// taken, and the sizes where both could be read. `sizes` holds the size of
/// the input and then that of the output.
pub open spec fn success_report(
    output: Seq<char>,
    elapsed: ElapsedView,
    sizes: Option<(nat, nat)>,
) -> Seq<Seq<char>> {
    let head = seq![
        "✓ Conversion successful: "@ + output,
        "  Time taken: "@ + elapsed_text(elapsed) + "s"@,
    ];
    match sizes {
        Some((input_size, output_size)) => head + size_lines(input_size, output_size),
        None => head,
    }
}

/// The sizes of input and output as mathematical values.
pub open spec fn sizes_view(sizes: Option<(u64, u64)>) -> Option<(nat, nat)> {
    match sizes {
        Some((input_size, output_size)) => Some((input_size as nat, output_size as nat)),
        None => None,
    }
}

/// A span of time: whole seconds, and the nanoseconds beyond them, which
/// stay below one second.
#[derive(Debug)]
pub struct Elapsed {
    secs: u64,
    nanos: u32,
}

impl View for Elapsed {
    type V = ElapsedView;

    closed spec fn view(&self) -> ElapsedView {
        ElapsedView { secs: self.secs as nat, nanos: self.nanos as nat }
    }
}

impl Elapsed {
    #[verifier::type_invariant]
    spec fn within_a_second(self) -> bool {
        self.nanos < 1_000_000_000
    }

    /// A span of `secs` seconds and `nanos` nanoseconds, where these are
    /// less than a second.
    pub fn new(secs: u64, nanos: u32) -> (elapsed: Option<Elapsed>)
        ensures
            elapsed is Some <==> nanos < 1_000_000_000,
            elapsed matches Some(e) ==> e@ == (ElapsedView {
                secs: secs as nat,
                nanos: nanos as nat,
            }),
    {
        if nanos < 1_000_000_000 {
            Some(Elapsed { secs, nanos })
        } else {
            None
        }
    }

    /// Writes the span in seconds with two digits after the point, as in
    /// `12.35`.
    pub fn format(&self) -> (text: String)
        ensures
            text@ == elapsed_text(self@),
    {
        proof {
            use_type_invariant(self);
        }
        let mut text = String::new();
        append_two_decimals(&mut text, hundredths_of(self.secs, self.nanos));
        assert(text@ =~= elapsed_text(self@));
        text
    }
}

/// The span in hundredths of a second.
fn hundredths_of(secs: u64, nanos: u32) -> (hundredths: u128)
    requires
        nanos < 1_000_000_000,
    ensures
        hundredths == elapsed_hundredths(ElapsedView { secs: secs as nat, nanos: nanos as nat }),
{
    let whole = nearest_integer(secs);
    let fraction = divide(nanos as u128, 1_000_000_000);
    let ghost vw = binary64_of(secs as nat);
    let ghost vf = fraction@;
    proof {
        lemma2_to64();
        lemma_pow2_pos((-vw.exponent) as nat);
        lemma_pow2_pos((-vf.exponent) as nat);
        if nanos > 0 {
            if fraction.exponent >= 0 {
                let p = pow2(fraction.exponent as nat);
                assert(NORMAL_LIMIT * (1_000_000_000 * p) >= 1_000_000_000) by (nonlinear_arith)
                    requires
                        p >= 1,
                ;
                assert(false);
            }
            let den = pow2((-fraction.exponent) as nat);
            assert(den > 1_000_000_000) by (nonlinear_arith)
                requires
                    NORMAL_LIMIT * 1_000_000_000 <= nanos * den,
                    nanos < 1_000_000_000,
            ;
            assert(nanos * den < (den - 1) * 1_000_000_000) by (nonlinear_arith)
                requires
                    nanos <= 999_999_999,
                    den > 1_000_000_000,
            ;
            lemma_round_bounds(
                nanos as nat * den,
                1_000_000_000,
                NORMAL_LIMIT as nat,
                (den - 1) as nat,
            );
        } else {
            assert(0 * pow2(0) == 0) by (nonlinear_arith);
        }
        assert(vf.num() < vf.den());
        assert((vw.num() * vf.den() + vf.num() * vw.den()) * vf.den() == (whole * vf.den()
            + vf.num()) * (vw.den() * vf.den())) by (nonlinear_arith)
            requires
                vw.num() == whole * vw.den(),
        ;
        assert(vw.den() * vf.den() > 0) by (nonlinear_arith)
            requires
                vw.den() > 0,
                vf.den() > 0,
        ;
        lemma_same_fraction(
            vw.num() * vf.den() + vf.num() * vw.den(),
            vw.den() * vf.den(),
            whole as nat * vf.den() + vf.num(),
            vf.den(),
        );
    }
    let sum = add_fraction(whole, fraction);
    round_scaled(sum, 100)
}

/// Writes a byte count in human scale, as in `500.0 B`, `2.0 KB`, `1.5 MB`.
pub fn format_bytes(bytes: u64) -> (text: String)
    ensures
        text@ == byte_size_text(bytes as nat),
{
    let held = nearest_integer(bytes);
    let mut text = String::new();
    let ghost value = binary64_of(bytes as nat);
    let ghost unit = unit_size(unit_index(bytes as nat));
    proof {
        lemma_pow2_pos((-value.exponent) as nat);
        assert((10 * value.num()) * unit == (10 * held) * (unit * value.den())) by (nonlinear_arith)
            requires
                value.num() == held * value.den(),
        ;
        assert(unit * value.den() > 0) by (nonlinear_arith)
            requires
                unit > 0,
                value.den() > 0,
        ;
        lemma_round_same_value(
            10 * value.num(),
            unit * value.den(),
            (10 * held) as nat,
            unit,
        );
    }
    if bytes < 1024 {
        append_one_decimal(&mut text, div_round_half_even(10 * held, 1));
        text.append(" B");
    } else if bytes < 1024 * 1024 {
        append_one_decimal(&mut text, div_round_half_even(10 * held, 1024));
        text.append(" KB");
    } else if bytes < 1024 * 1024 * 1024 {
        append_one_decimal(&mut text, div_round_half_even(10 * held, 1024 * 1024));
        text.append(" MB");
    } else {
        append_one_decimal(&mut text, div_round_half_even(10 * held, 1024 * 1024 * 1024));
        text.append(" GB");
    }
    proof {
        reveal_strlit(" B");
        reveal_strlit(" KB");
        reveal_strlit(" MB");
        reveal_strlit(" GB");
        reveal_strlit("B");
        reveal_strlit("KB");
        reveal_strlit("MB");
        reveal_strlit("GB");
        assert(text@ =~= byte_size_text(bytes as nat));
    }
    text
}

/// The size ratio in tenths of a percent.
fn percent_tenths_of(output: u64, input: u64) -> (tenths: u128)
    requires
        input > 0,
    ensures
        tenths == percent_tenths(output as nat, input as nat),
{
    let a = nearest_integer(output);
    let b = nearest_integer(input);
    let quotient = divide(a, b);
    let ghost va = binary64_of(output as nat);
    let ghost vb = binary64_of(input as nat);
    proof {
        lemma_pow2_pos((-va.exponent) as nat);
        lemma_pow2_pos((-vb.exponent) as nat);
        assert((va.num() * vb.den()) * b == a * (va.den() * vb.num())) by (nonlinear_arith)
            requires
                va.num() == a * va.den(),
                vb.num() == b * vb.den(),
        ;
        assert(va.den() * vb.num() > 0) by (nonlinear_arith)
            requires
                vb.num() == b * vb.den(),
                b > 0,
                vb.den() > 0,
                va.den() > 0,
        ;
        lemma_same_fraction(va.num() * vb.den(), va.den() * vb.num(), a as nat, b as nat);
    }
    assert(quotient@ == va.divided_by(vb));
    if quotient.mantissa == 0 {
        proof {
            lemma2_to64();
            assert(0 * pow2(0) == 0) by (nonlinear_arith);
            assert(doublings(0, 1) == 0);
            assert(round_to_binary64(0, 1) == (Binary {
                mantissa: 0,
                exponent: 0,
            }));
        }
        return 0;
    }
    let hundredfold = divide(100 * (quotient.mantissa as u128), 1);
    proof {
        lemma2_to64();
        let n = (100 * quotient.mantissa) as nat;
        if hundredfold.exponent < 0 {
            lemma_pow2_pos((-hundredfold.exponent) as nat);
            assert(n * pow2((-hundredfold.exponent) as nat) >= n)
                by (nonlinear_arith)
                requires
                    pow2((-hundredfold.exponent) as nat) >= 1,
            ;
            assert(false);
        }
        lemma_rescaled(n, hundredfold.exponent as nat, quotient.exponent as int);
        if quotient.exponent >= 0 {
            let p = pow2(quotient.exponent as nat);
            assert(100 * (quotient.mantissa * p) == (100 * quotient.mantissa) * p)
                by (nonlinear_arith);
        }
    }
    let percent = Rounded {
        mantissa: hundredfold.mantissa,
        exponent: hundredfold.exponent + quotient.exponent,
    };
    assert(percent@ == quotient@.times(100));
    round_scaled(percent, 10)
}

/// Writes the size of the output as a percentage of the size of the input,
/// with one digit after the point and without the percent sign.
pub fn format_ratio(output: u64, input: u64) -> (text: String)
    ensures
        text@ == ratio_text(output as nat, input as nat),
{
    if input > 0 {
        let mut text = String::new();
        append_one_decimal(&mut text, percent_tenths_of(output, input));
        assert(text@ =~= ratio_text(output as nat, input as nat));
        text
    } else if output > 0 {
        String::from_str("inf")
    } else {
        String::from_str("NaN")
    }
}

/// Writes the lines that announce a conversion.
pub fn announce(config: &Config, output: &str) -> (lines: Vec<String>)
    ensures
        lines.deep_view() == announcement(config@, output@),
{
    let mut first = String::from_str("Converting '");
    first.append(config.input.as_str());
    first.append("' for Telegram compatibility...");
    let mut second = String::from_str("Output: '");
    second.append(output);
    second.append("'");
    let mut third = String::from_str("Settings: ");
    append_decimal(&mut third, config.bitrate as u128);
    third.append("kbps video, ");
    append_decimal(&mut third, config.audio_bitrate as u128);
    third.append("kbps audio, ");
    append_decimal(&mut third, config.fps as u128);
    third.append("fps, CRF ");
    append_decimal(&mut third, config.crf as u128);
    let mut lines: Vec<String> = Vec::new();
    lines.push(first);
    lines.push(second);
    lines.push(third);
    assert(lines.deep_view() =~= announcement(config@, output@));
    lines
}

/// Writes the lines that report a finished conversion.
pub fn report_success(output: &str, elapsed: &Elapsed, sizes: Option<(u64, u64)>) -> (lines: Vec<
    String,
>)
    ensures
        lines.deep_view() == success_report(output@, elapsed@, sizes_view(sizes)),
{
    let mut first = String::from_str("✓ Conversion successful: ");
    first.append(output);
    let mut second = String::from_str("  Time taken: ");
    second.append(elapsed.format().as_str());
    second.append("s");
    let mut lines: Vec<String> = Vec::new();
    lines.push(first);
    lines.push(second);
    match sizes {
        Some((input_size, output_size)) => {
            let mut third = String::from_str("  Input size: ");
            third.append(format_bytes(input_size).as_str());
            let mut fourth = String::from_str("  Output size: ");
            fourth.append(format_bytes(output_size).as_str());
            let mut fifth = String::from_str("  Size ratio: ");
            fifth.append(format_ratio(output_size, input_size).as_str());
            fifth.append("%");
            lines.push(third);
            lines.push(fourth);
            lines.push(fifth);
            assert(lines.deep_view() =~= success_report(output@, elapsed@, sizes_view(sizes)));
        },
        None => {
            assert(lines.deep_view() =~= success_report(output@, elapsed@, sizes_view(sizes)));
        },
    }
    lines
}

} // verus!
