use vstd::prelude::*;
use crate::escape::{IterationResult, MAX_ITER, is_valid_result};

verus! {

/// A 24-bit colour.
#[derive(PartialEq, Eq, Structural, Clone, Copy, Debug)]
pub struct Rgb {
    pub r: u8,
    pub g: u8,
    pub b: u8,
}

/// The two ways of colouring an iteration count.
#[derive(PartialEq, Eq, Structural, Clone, Copy, Debug)]
pub enum ColorScheme {
    /// Escaped points fade from blue to red as their count grows.
    Linear,
    /// Escaped points run backwards round the hue wheel as their count grows.
    Spectrum,
}

/// `a / b` rounded to the nearest integer, halves upwards (for `a >= 0`, `b > 0`).
pub open spec fn round_div(a: int, b: int) -> int {
    (2 * a + b) / (2 * b)
}

/// The colour of hue `360 * num / den` degrees at full saturation and value:
/// with `X = 1 - |((H / 60) mod 2) - 1|`, sector `k = floor(H / 60)` gives
/// `(1,X,0)`, `(X,1,0)`, `(0,1,X)`, `(0,X,1)`, `(X,0,1)`, `(1,0,X)` for
/// `k = 0..5`, each channel scaled by 255 and rounded. A hue of exactly 360
/// degrees falls in no sector and is black.
pub open spec fn hue_color(num: int, den: int) -> Rgb {
    let sixths = 6 * num;
    let sector = sixths / den;
    let q = sixths % (2 * den);
    let dist = if q >= den { q - den } else { den - q };
    let x = round_div(255 * (den - dist), den) as u8;
    if sector == 0 {
        Rgb { r: 255, g: x, b: 0 }
    } else if sector == 1 {
        Rgb { r: x, g: 255, b: 0 }
    } else if sector == 2 {
        Rgb { r: 0, g: 255, b: x }
    } else if sector == 3 {
        Rgb { r: 0, g: x, b: 255 }
    } else if sector == 4 {
        Rgb { r: x, g: 0, b: 255 }
    } else if sector == 5 {
        Rgb { r: 255, g: 0, b: x }
    } else {
        Rgb { r: 0, g: 0, b: 0 }
    }
}

/// Linear scheme: `(c, 0, 255 - c)` with `c = round(255 * n / MAX_ITER)`.
pub open spec fn linear_color(n: int) -> Rgb {
    let c = round_div(255 * n, MAX_ITER as int);
    Rgb { r: c as u8, g: 0, b: (255 - c) as u8 }
}

/// Spectrum scheme: hue `(1 - n / MAX_ITER) * 360` degrees.
pub open spec fn spectrum_color(n: int) -> Rgb {
    hue_color(MAX_ITER - n, MAX_ITER as int)
}

/// The colour of an iteration result: black for `Bounded`, and the scheme's
/// colour of the count for `Escaped`.
pub open spec fn color_of(scheme: ColorScheme, res: IterationResult) -> Rgb {
    match res {
        IterationResult::Bounded => Rgb { r: 0, g: 0, b: 0 },
        IterationResult::Escaped(n) => match scheme {
            ColorScheme::Linear => linear_color(n as int),
            ColorScheme::Spectrum => spectrum_color(n as int),
        },
    }
}

proof fn lemma_round_div_bound(a: int, b: int)
    requires
        0 <= a <= 255 * b,
        b > 0,
    ensures
        0 <= round_div(a, b) <= 255,
{
    assert(0 <= (2 * a + b) / (2 * b) <= 255) by (nonlinear_arith)
        requires
            0 <= a <= 255 * b,
            b > 0,
    {
        assert(2 * a + b < 256 * (2 * b));
    }
}

/// Colour of the hue `360 * num / den` degrees at full saturation and value.
pub fn hue_to_rgb(num: u32, den: u32) -> (c: Rgb)
    requires
        0 < den,
        num <= den,
    ensures
        c == hue_color(num as int, den as int),
{
    let den = den as u64;
    let sixths: u64 = 6 * num as u64;
    let sector: u64 = sixths / den;
    let q: u64 = sixths % (2 * den);
    let dist: u64 = if q >= den { q - den } else { den - q };
    proof {
        lemma_round_div_bound(255 * (den - dist), den as int);
    }
    let x: u8 = ((2 * 255 * (den - dist) + den) / (2 * den)) as u8;
    if sector == 0 {
        Rgb { r: 255, g: x, b: 0 }
    } else if sector == 1 {
        Rgb { r: x, g: 255, b: 0 }
    } else if sector == 2 {
        Rgb { r: 0, g: 255, b: x }
    } else if sector == 3 {
        Rgb { r: 0, g: x, b: 255 }
    } else if sector == 4 {
        Rgb { r: x, g: 0, b: 255 }
    } else if sector == 5 {
        Rgb { r: 255, g: 0, b: x }
    } else {
        Rgb { r: 0, g: 0, b: 0 }
    }
}

/// Colour of an iteration result under the given scheme. The colour depends
/// on the scheme and the result alone.
pub fn color_for(scheme: ColorScheme, res: IterationResult) -> (c: Rgb)
    requires
        is_valid_result(res),
    ensures
        c == color_of(scheme, res),
{
    match res {
        IterationResult::Bounded => Rgb { r: 0, g: 0, b: 0 },
        IterationResult::Escaped(n) => match scheme {
            ColorScheme::Linear => {
                let max = MAX_ITER as u64;
                proof {
                    lemma_round_div_bound(255 * n, max as int);
                }
                let level: u64 = (2 * 255 * n as u64 + max) / (2 * max);
                Rgb { r: level as u8, g: 0, b: (255 - level) as u8 }
            },
            ColorScheme::Spectrum => hue_to_rgb(MAX_ITER - n, MAX_ITER),
        },
    }
}

} // verus!
