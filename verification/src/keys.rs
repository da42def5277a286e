//! Key extraction: maps a sorting mode and a pixel to an orderable scalar
//! key.
//!
//! Channel modes use the channel byte verbatim. Hue, saturation and
//! lightness come from the standard RGB-to-HSL transform. Over 8-bit
//! channels every HSL component is an exact rational number, so keys are
//! kept as fractions `num / den` of machine integers and compared by
//! cross-multiplication; this realises the usual floating-point ordering
//! exactly, with exact ties.
//!
//! With channels normalised to `[0, 1]`, `max`, `min` and
//! `chroma = max - min` taken over the three colour channels:
//!   - lightness is `(max + min) / 2`, here `(cmax + cmin) / 510`;
//!   - saturation is `0` when chroma is `0`, else
//!     `chroma / (1 - |2 * lightness - 1|)`, here
//!     `(cmax - cmin) / min(cmax + cmin, 510 - cmax - cmin)`;
//!   - hue in degrees is `0` when chroma is `0`, else the 60-degree sector
//!     formula over whichever channel is largest, giving a value in
//!     `[0, 360)`.

use vstd::prelude::*;

use crate::pixel::Pixel;

verus! {

/// The channel or derived value by which pixels are ordered.
#[derive(Clone, Copy, PartialEq, Eq, Structural, Debug)]
pub enum Mode {
    Red,
    Green,
    Blue,
    Alpha,
    Hue,
    Saturation,
    Lightness,
}

/// A sort key as an exact non-negative rational `num / den` with `den >= 1`.
#[derive(Clone, Copy, PartialEq, Eq, Structural, Debug)]
pub struct Key {
    pub num: u32,
    pub den: u32,
}

/// Largest of the three colour channels.
pub open spec fn cmax(p: Pixel) -> int {
    if p.r >= p.g && p.r >= p.b {
        p.r as int
    } else if p.g >= p.b {
        p.g as int
    } else {
        p.b as int
    }
}

/// Smallest of the three colour channels.
pub open spec fn cmin(p: Pixel) -> int {
    if p.r <= p.g && p.r <= p.b {
        p.r as int
    } else if p.g <= p.b {
        p.g as int
    } else {
        p.b as int
    }
}

/// Chroma: the spread of the colour channels.
pub open spec fn chroma(p: Pixel) -> int {
    cmax(p) - cmin(p)
}

/// Sum of the largest and smallest colour channel; lightness is this value
/// over 510.
pub open spec fn csum(p: Pixel) -> int {
    cmax(p) + cmin(p)
}

/// Numerator of the hue in degrees; the denominator is `hue_den`. Gray
/// pixels (chroma 0) take hue 0 by definition; otherwise the 60-degree
/// sector formula applies, with the sector of the largest channel, and a
/// full turn added where the raw sector value would be negative.
pub open spec fn hue_num(p: Pixel) -> int {
    let c = chroma(p);
    if c == 0 {
        0
    } else if p.r >= p.g && p.r >= p.b {
        if p.g >= p.b {
            60 * (p.g - p.b)
        } else {
            60 * (p.g - p.b + 6 * c)
        }
    } else if p.g >= p.b {
        60 * (p.b - p.r + 2 * c)
    } else {
        60 * (p.r - p.g + 4 * c)
    }
}

/// Denominator of the hue: the chroma, or 1 for the gray tie value.
pub open spec fn hue_den(p: Pixel) -> int {
    if chroma(p) == 0 {
        1
    } else {
        chroma(p)
    }
}

/// Denominator of the saturation: `min(csum, 510 - csum)`, which is the
/// normalised `1 - |2 * lightness - 1|` scaled to channel units; 1 for the
/// gray tie value.
pub open spec fn sat_den(p: Pixel) -> int {
    if chroma(p) == 0 {
        1
    } else if csum(p) <= 255 {
        csum(p)
    } else {
        510 - csum(p)
    }
}

/// Numerator of the key a mode assigns to a pixel.
pub open spec fn key_num(m: Mode, p: Pixel) -> int {
    match m {
        Mode::Red => p.r as int,
        Mode::Green => p.g as int,
        Mode::Blue => p.b as int,
        Mode::Alpha => p.a as int,
        Mode::Hue => hue_num(p),
        Mode::Saturation => chroma(p),
        Mode::Lightness => csum(p),
    }
}

/// Denominator of the key a mode assigns to a pixel.
pub open spec fn key_den(m: Mode, p: Pixel) -> int {
    match m {
        Mode::Red => 1,
        Mode::Green => 1,
        Mode::Blue => 1,
        Mode::Alpha => 1,
        Mode::Hue => hue_den(p),
        Mode::Saturation => sat_den(p),
        Mode::Lightness => 510,
    }
}

/// Every key is a well-formed non-negative rational with small components:
/// the numerator stays under 107101 and the denominator within 1 to 510.
pub proof fn lemma_key_bounds(m: Mode, p: Pixel)
    ensures
        0 <= key_num(m, p) <= 107100,
        1 <= key_den(m, p) <= 510,
{
}

/// Key ranges: as rationals, hue stays within [0, 360) degrees and
/// saturation and lightness within [0, 1].
pub proof fn lemma_key_ranges(p: Pixel)
    ensures
        key_num(Mode::Hue, p) < 360 * key_den(Mode::Hue, p),
        key_num(Mode::Saturation, p) <= key_den(Mode::Saturation, p),
        key_num(Mode::Lightness, p) <= key_den(Mode::Lightness, p),
{
}

/// The key `p` takes is at most the key `q` takes, as rationals:
/// `num(p) / den(p) <= num(q) / den(q)` by cross-multiplication.
pub open spec fn pix_le(m: Mode, p: Pixel, q: Pixel) -> bool {
    key_num(m, p) * key_den(m, q) <= key_num(m, q) * key_den(m, p)
}

/// The keys of `p` and `q` are equal as rationals.
pub open spec fn pix_keq(m: Mode, p: Pixel, q: Pixel) -> bool {
    key_num(m, p) * key_den(m, q) == key_num(m, q) * key_den(m, p)
}

/// Key equality is exactly mutual `pix_le`.
pub proof fn lemma_keq_is_le_both(m: Mode, p: Pixel, q: Pixel)
    ensures
        pix_keq(m, p, q) <==> (pix_le(m, p, q) && pix_le(m, q, p)),
{
}

/// The key order is total: any two pixels compare one way or the other.
pub proof fn lemma_pix_le_total(m: Mode, p: Pixel, q: Pixel)
    ensures
        pix_le(m, p, q) || pix_le(m, q, p),
{
}

/// Transitivity of `<=` on rationals with positive denominators.
proof fn lemma_rat_le_trans(n1: int, d1: int, n2: int, d2: int, n3: int, d3: int)
    requires
        d1 >= 1,
        d2 >= 1,
        d3 >= 1,
        n1 * d2 <= n2 * d1,
        n2 * d3 <= n3 * d2,
    ensures
        n1 * d3 <= n3 * d1,
{
    assert((n1 * d3) * d2 <= (n3 * d1) * d2) by (nonlinear_arith)
        requires
            d1 >= 1,
            d2 >= 1,
            d3 >= 1,
            n1 * d2 <= n2 * d1,
            n2 * d3 <= n3 * d2,
    ;
    assert(n1 * d3 <= n3 * d1) by (nonlinear_arith)
        requires
            d2 >= 1,
            (n1 * d3) * d2 <= (n3 * d1) * d2,
    ;
}

/// The key order is transitive.
pub proof fn lemma_pix_le_trans(m: Mode, p: Pixel, q: Pixel, s: Pixel)
    requires
        pix_le(m, p, q),
        pix_le(m, q, s),
    ensures
        pix_le(m, p, s),
{
    lemma_key_bounds(m, p);
    lemma_key_bounds(m, q);
    lemma_key_bounds(m, s);
    lemma_rat_le_trans(
        key_num(m, p),
        key_den(m, p),
        key_num(m, q),
        key_den(m, q),
        key_num(m, s),
        key_den(m, s),
    );
}

/// Gray-pixel tie value: a pixel with equal colour channels has chroma 0,
/// so both its hue key and its saturation key are the rational 0.
pub proof fn lemma_gray_tie_value(p: Pixel)
    requires
        p.r == p.g,
        p.g == p.b,
    ensures
        key_num(Mode::Hue, p) == 0,
        key_num(Mode::Saturation, p) == 0,
{
}

/// Channel key correctness: the four channel modes key a pixel by the
/// corresponding channel byte verbatim.
pub proof fn lemma_channel_keys(p: Pixel)
    ensures
        key_num(Mode::Red, p) == p.r && key_den(Mode::Red, p) == 1,
        key_num(Mode::Green, p) == p.g && key_den(Mode::Green, p) == 1,
        key_num(Mode::Blue, p) == p.b && key_den(Mode::Blue, p) == 1,
        key_num(Mode::Alpha, p) == p.a && key_den(Mode::Alpha, p) == 1,
{
}

/// Largest colour channel, as a machine integer.
fn channel_max(p: Pixel) -> (m: u8)
    ensures
        m as int == cmax(p),
{
    if p.r >= p.g && p.r >= p.b {
        p.r
    } else if p.g >= p.b {
        p.g
    } else {
        p.b
    }
}

/// Smallest colour channel, as a machine integer.
fn channel_min(p: Pixel) -> (m: u8)
    ensures
        m as int == cmin(p),
{
    if p.r <= p.g && p.r <= p.b {
        p.r
    } else if p.g <= p.b {
        p.g
    } else {
        p.b
    }
}

/// Maps a pixel to its sort key under the given mode: the channel byte for
/// the four channel modes, and the exact rational hue, saturation or
/// lightness otherwise.
pub fn extract(mode: Mode, p: Pixel) -> (k: Key)
    ensures
        k.num as int == key_num(mode, p),
        k.den as int == key_den(mode, p),
{
    match mode {
        Mode::Red => Key { num: p.r as u32, den: 1 },
        Mode::Green => Key { num: p.g as u32, den: 1 },
        Mode::Blue => Key { num: p.b as u32, den: 1 },
        Mode::Alpha => Key { num: p.a as u32, den: 1 },
        Mode::Hue => {
            let mx = channel_max(p) as u32;
            let mn = channel_min(p) as u32;
            let c = mx - mn;
            if c == 0 {
                Key { num: 0, den: 1 }
            } else if p.r >= p.g && p.r >= p.b {
                if p.g >= p.b {
                    Key { num: 60 * (p.g as u32 - p.b as u32), den: c }
                } else {
                    Key { num: 60 * (p.g as u32 + 6 * c - p.b as u32), den: c }
                }
            } else if p.g >= p.b {
                Key { num: 60 * (p.b as u32 + 2 * c - p.r as u32), den: c }
            } else {
                Key { num: 60 * (p.r as u32 + 4 * c - p.g as u32), den: c }
            }
        },
        Mode::Saturation => {
            let mx = channel_max(p) as u32;
            let mn = channel_min(p) as u32;
            let c = mx - mn;
            let s = mx + mn;
            if c == 0 {
                Key { num: 0, den: 1 }
            } else if s <= 255 {
                Key { num: c, den: s }
            } else {
                Key { num: c, den: 510 - s }
            }
        },
        Mode::Lightness => {
            let mx = channel_max(p) as u32;
            let mn = channel_min(p) as u32;
            Key { num: mx + mn, den: 510 }
        },
    }
}

/// Decides the key order of two pixels under a mode, by cross-multiplying
/// the two exact rational keys.
pub fn pix_le_exec(m: Mode, p: Pixel, q: Pixel) -> (r: bool)
    ensures
        r == pix_le(m, p, q),
{
    let kp = extract(m, p);
    let kq = extract(m, q);
    proof {
        lemma_key_bounds(m, p);
        lemma_key_bounds(m, q);
        assert((kp.num as int) * (kq.den as int) <= 107100 * 510) by (nonlinear_arith)
            requires
                0 <= (kp.num as int) <= 107100,
                0 <= (kq.den as int) <= 510,
        ;
        assert((kq.num as int) * (kp.den as int) <= 107100 * 510) by (nonlinear_arith)
            requires
                0 <= (kq.num as int) <= 107100,
                0 <= (kp.den as int) <= 510,
        ;
    }
    (kp.num as u64) * (kq.den as u64) <= (kq.num as u64) * (kp.den as u64)
}

} // verus!
