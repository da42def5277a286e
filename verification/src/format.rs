//! Pure mappings for the tool's collaborators: file-extension to output
//! format inference, and mode-name parsing. Both are case-insensitive over
//! ASCII and work on plain byte strings.

use vstd::prelude::*;

use crate::keys::Mode;

verus! {

/// The output image file formats an extension can name.
#[derive(Clone, Copy, PartialEq, Eq, Structural, Debug)]
pub enum OutputFormat {
    Jpeg,
    Png,
    Gif,
    Webp,
    Tiff,
    Tga,
    Bmp,
    Ico,
    Hdr,
    Pnm,
}

/// ASCII lower-casing of one byte; bytes outside `A`..`Z` are untouched.
pub open spec fn ascii_lower(c: u8) -> u8 {
    if ('A' as u8) <= c && c <= ('Z' as u8) {
        (c + 32) as u8
    } else {
        c
    }
}

/// ASCII lower-casing of a byte string.
pub open spec fn lower_bytes(s: Seq<u8>) -> Seq<u8> {
    s.map_values(|c: u8| ascii_lower(c))
}

/// The format a file extension names, matched case-insensitively:
/// `jpg`/`jpeg`, `png`, `gif`, `webp`, `tif`/`tiff`, `tga`, `bmp`, `ico`,
/// `hdr` and `pnm`; anything else (the empty extension included) names
/// none.
pub open spec fn spec_format_of(ext: Seq<u8>) -> Option<OutputFormat> {
    let l = lower_bytes(ext);
    if l == seq![('j' as u8), ('p' as u8), ('g' as u8)] || l == seq![('j' as u8), ('p' as u8), ('e' as u8), ('g' as u8)] {
        Some(OutputFormat::Jpeg)
    } else if l == seq![('p' as u8), ('n' as u8), ('g' as u8)] {
        Some(OutputFormat::Png)
    } else if l == seq![('g' as u8), ('i' as u8), ('f' as u8)] {
        Some(OutputFormat::Gif)
    } else if l == seq![('w' as u8), ('e' as u8), ('b' as u8), ('p' as u8)] {
        Some(OutputFormat::Webp)
    } else if l == seq![('t' as u8), ('i' as u8), ('f' as u8)] || l == seq![('t' as u8), ('i' as u8), ('f' as u8), ('f' as u8)] {
        Some(OutputFormat::Tiff)
    } else if l == seq![('t' as u8), ('g' as u8), ('a' as u8)] {
        Some(OutputFormat::Tga)
    } else if l == seq![('b' as u8), ('m' as u8), ('p' as u8)] {
        Some(OutputFormat::Bmp)
    } else if l == seq![('i' as u8), ('c' as u8), ('o' as u8)] {
        Some(OutputFormat::Ico)
    } else if l == seq![('h' as u8), ('d' as u8), ('r' as u8)] {
        Some(OutputFormat::Hdr)
    } else if l == seq![('p' as u8), ('n' as u8), ('m' as u8)] {
        Some(OutputFormat::Pnm)
    } else {
        None
    }
}

/// The mode a name picks, matched case-insensitively: `red`, `green`,
/// `blue`, `alpha`, `hue`, `saturation` or `lightness`; anything else picks
/// none.
pub open spec fn spec_mode_of(name: Seq<u8>) -> Option<Mode> {
    let l = lower_bytes(name);
    if l == seq![('r' as u8), ('e' as u8), ('d' as u8)] {
        Some(Mode::Red)
    } else if l == seq![('g' as u8), ('r' as u8), ('e' as u8), ('e' as u8), ('n' as u8)] {
        Some(Mode::Green)
    } else if l == seq![('b' as u8), ('l' as u8), ('u' as u8), ('e' as u8)] {
        Some(Mode::Blue)
    } else if l == seq![('a' as u8), ('l' as u8), ('p' as u8), ('h' as u8), ('a' as u8)] {
        Some(Mode::Alpha)
    } else if l == seq![('h' as u8), ('u' as u8), ('e' as u8)] {
        Some(Mode::Hue)
    } else if l == seq![('s' as u8), ('a' as u8), ('t' as u8), ('u' as u8), ('r' as u8), ('a' as u8), ('t' as u8), ('i' as u8), ('o' as u8), ('n' as u8)] {
        Some(Mode::Saturation)
    } else if l == seq![('l' as u8), ('i' as u8), ('g' as u8), ('h' as u8), ('t' as u8), ('n' as u8), ('e' as u8), ('s' as u8), ('s' as u8)] {
        Some(Mode::Lightness)
    } else {
        None
    }
}

/// ASCII lower-casing of one byte.
fn lower_byte(c: u8) -> (r: u8)
    ensures
        r == ascii_lower(c),
{
    if c >= ('A' as u8) && c <= ('Z' as u8) {
        c + 32
    } else {
        c
    }
}

/// ASCII lower-casing of a byte string.
fn lower_vec(s: &Vec<u8>) -> (out: Vec<u8>)
    ensures
        out@ == lower_bytes(s@),
{
    let mut out: Vec<u8> = Vec::new();
    let mut i: usize = 0;
    while i < s.len()
        invariant
            i <= s@.len(),
            out@.len() == i,
            forall|k: int| 0 <= k < i ==> out@[k] == ascii_lower(s@[k]),
        decreases s@.len() - i,
    {
        let c = lower_byte(s[i]);
        out.push(c);
        i = i + 1;
    }
    proof {
        assert(out@ =~= lower_bytes(s@));
    }
    out
}

/// Whether `v` is exactly the three bytes `a b c`.
fn eq3(v: &Vec<u8>, a: u8, b: u8, c: u8) -> (r: bool)
    ensures
        r == (v@ == seq![a, b, c]),
{
    if v.len() == 3 && v[0] == a && v[1] == b && v[2] == c {
        proof {
            assert(v@ =~= seq![a, b, c]);
        }
        true
    } else {
        false
    }
}

/// Whether `v` is exactly the four bytes `a b c d`.
fn eq4(v: &Vec<u8>, a: u8, b: u8, c: u8, d: u8) -> (r: bool)
    ensures
        r == (v@ == seq![a, b, c, d]),
{
    if v.len() == 4 && v[0] == a && v[1] == b && v[2] == c && v[3] == d {
        proof {
            assert(v@ =~= seq![a, b, c, d]);
        }
        true
    } else {
        false
    }
}

/// Whether `v` is exactly the five bytes `a b c d e`.
fn eq5(v: &Vec<u8>, a: u8, b: u8, c: u8, d: u8, e: u8) -> (r: bool)
    ensures
        r == (v@ == seq![a, b, c, d, e]),
{
    if v.len() == 5 && v[0] == a && v[1] == b && v[2] == c && v[3] == d && v[4] == e {
        proof {
            assert(v@ =~= seq![a, b, c, d, e]);
        }
        true
    } else {
        false
    }
}

/// Whether `v` is exactly the given nine bytes.
fn eq9(v: &Vec<u8>, a: u8, b: u8, c: u8, d: u8, e: u8, f: u8, g: u8, h: u8, i: u8) -> (r: bool)
    ensures
        r == (v@ == seq![a, b, c, d, e, f, g, h, i]),
{
    if v.len() == 9 && v[0] == a && v[1] == b && v[2] == c && v[3] == d && v[4] == e && v[5] == f
        && v[6] == g && v[7] == h && v[8] == i {
        proof {
            assert(v@ =~= seq![a, b, c, d, e, f, g, h, i]);
        }
        true
    } else {
        false
    }
}

/// Whether `v` is exactly the given ten bytes.
fn eq10(v: &Vec<u8>, a: u8, b: u8, c: u8, d: u8, e: u8, f: u8, g: u8, h: u8, i: u8, j: u8) -> (r:
    bool)
    ensures
        r == (v@ == seq![a, b, c, d, e, f, g, h, i, j]),
{
    if v.len() == 10 && v[0] == a && v[1] == b && v[2] == c && v[3] == d && v[4] == e && v[5] == f
        && v[6] == g && v[7] == h && v[8] == i && v[9] == j {
        proof {
            assert(v@ =~= seq![a, b, c, d, e, f, g, h, i, j]);
        }
        true
    } else {
        false
    }
}

/// Maps a file extension, given as its bytes without the dot, to the output
/// format it names, matching case-insensitively; returns `None` for an
/// unrecognised or empty extension.
pub fn get_format(ext: &Vec<u8>) -> (res: Option<OutputFormat>)
    ensures
        res == spec_format_of(ext@),
{
    let low = lower_vec(ext);
    if eq3(&low, ('j' as u8), ('p' as u8), ('g' as u8)) || eq4(&low, ('j' as u8), ('p' as u8), ('e' as u8), ('g' as u8)) {
        Some(OutputFormat::Jpeg)
    } else if eq3(&low, ('p' as u8), ('n' as u8), ('g' as u8)) {
        Some(OutputFormat::Png)
    } else if eq3(&low, ('g' as u8), ('i' as u8), ('f' as u8)) {
        Some(OutputFormat::Gif)
    } else if eq4(&low, ('w' as u8), ('e' as u8), ('b' as u8), ('p' as u8)) {
        Some(OutputFormat::Webp)
    } else if eq3(&low, ('t' as u8), ('i' as u8), ('f' as u8)) || eq4(&low, ('t' as u8), ('i' as u8), ('f' as u8), ('f' as u8)) {
        Some(OutputFormat::Tiff)
    } else if eq3(&low, ('t' as u8), ('g' as u8), ('a' as u8)) {
        Some(OutputFormat::Tga)
    } else if eq3(&low, ('b' as u8), ('m' as u8), ('p' as u8)) {
        Some(OutputFormat::Bmp)
    } else if eq3(&low, ('i' as u8), ('c' as u8), ('o' as u8)) {
        Some(OutputFormat::Ico)
    } else if eq3(&low, ('h' as u8), ('d' as u8), ('r' as u8)) {
        Some(OutputFormat::Hdr)
    } else if eq3(&low, ('p' as u8), ('n' as u8), ('m' as u8)) {
        Some(OutputFormat::Pnm)
    } else {
        None
    }
}

/// Maps a mode name, given as its bytes, to the sorting mode it picks,
/// matching case-insensitively; returns `None` for an unrecognised name.
pub fn parse_mode(name: &Vec<u8>) -> (res: Option<Mode>)
    ensures
        res == spec_mode_of(name@),
{
    let low = lower_vec(name);
    if eq3(&low, ('r' as u8), ('e' as u8), ('d' as u8)) {
        Some(Mode::Red)
    } else if eq5(&low, ('g' as u8), ('r' as u8), ('e' as u8), ('e' as u8), ('n' as u8)) {
        Some(Mode::Green)
    } else if eq4(&low, ('b' as u8), ('l' as u8), ('u' as u8), ('e' as u8)) {
        Some(Mode::Blue)
    } else if eq5(&low, ('a' as u8), ('l' as u8), ('p' as u8), ('h' as u8), ('a' as u8)) {
        Some(Mode::Alpha)
    } else if eq3(&low, ('h' as u8), ('u' as u8), ('e' as u8)) {
        Some(Mode::Hue)
    } else if eq10(&low, ('s' as u8), ('a' as u8), ('t' as u8), ('u' as u8), ('r' as u8), ('a' as u8), ('t' as u8), ('i' as u8), ('o' as u8), ('n' as u8)) {
        Some(Mode::Saturation)
    } else if eq9(&low, ('l' as u8), ('i' as u8), ('g' as u8), ('h' as u8), ('t' as u8), ('n' as u8), ('e' as u8), ('s' as u8), ('s' as u8)) {
        Some(Mode::Lightness)
    } else {
        None
    }
}

} // verus!
