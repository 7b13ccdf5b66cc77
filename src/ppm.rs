//! Plain-text PPM encoding of a rendered image.
use vstd::prelude::*;

verus! {

/// ASCII codes of the characters the format uses.
pub const ZERO: u8 = 48;
pub const NEWLINE: u8 = 10;
pub const SPACE: u8 = 32;
pub const LETTER_P: u8 = 80;
pub const DIGIT_TWO: u8 = 50;
pub const DIGIT_THREE: u8 = 51;
pub const DIGIT_FIVE: u8 = 53;

/// An 8-bit colour: the three channels of one output pixel.
#[derive(Clone, Copy, Debug, PartialEq, Eq, Structural)]
pub struct Rgb {
    pub r: u8,
    pub g: u8,
    pub b: u8,
}

impl Rgb {
    pub fn new(r: u8, g: u8, b: u8) -> (c: Rgb)
        ensures
            c == (Rgb { r, g, b }),
    {
        Rgb { r, g, b }
    }
}

/// The ASCII decimal digits of `n`, most significant first, with no leading zero.
pub open spec fn decimal(n: nat) -> Seq<u8>
    decreases n,
{
    if n < 10 {
        seq![(n + ZERO) as u8]
    } else {
        decimal(n / 10).push((n % 10 + ZERO) as u8)
    }
}

/// The plain-text PPM magic number, the width and height, and the largest channel value, each on its own line.
pub open spec fn header_text(width: nat, height: nat) -> Seq<u8> {
    seq![LETTER_P, DIGIT_THREE, NEWLINE] + decimal(width) + seq![SPACE] + decimal(height) + seq![
        NEWLINE,
        DIGIT_TWO,
        DIGIT_FIVE,
        DIGIT_FIVE,
        NEWLINE,
    ]
}

/// One pixel's line: its three channels in decimal, separated by spaces.
pub open spec fn pixel_text(c: Rgb) -> Seq<u8> {
    decimal(c.r as nat) + seq![SPACE] + decimal(c.g as nat) + seq![SPACE] + decimal(c.b as nat)
        + seq![NEWLINE]
}

/// The lines of the given pixels, in order.
pub open spec fn pixels_text(pixels: Seq<Rgb>) -> Seq<u8>
    decreases pixels.len(),
{
    if pixels.len() == 0 {
        Seq::empty()
    } else {
        pixels_text(pixels.drop_last()) + pixel_text(pixels.last())
    }
}

/// A whole image: the header, then one line per pixel in emission order.
pub open spec fn image_text(width: nat, height: nat, pixels: Seq<Rgb>) -> Seq<u8> {
    header_text(width, height) + pixels_text(pixels)
}

/// Appends the decimal digits of `n` to `out`.
fn push_decimal(out: &mut Vec<u8>, n: u32)
    ensures
        final(out)@ == old(out)@ + decimal(n as nat),
    decreases n,
{
    if n >= 10 {
        push_decimal(out, n / 10);
    }
    let digit: u8 = (n % 10) as u8;
    out.push(digit + ZERO);
}

/// Appends the image header for a `width` by `height` image to `out`.
pub fn write_header(out: &mut Vec<u8>, width: u32, height: u32)
    ensures
        final(out)@ == old(out)@ + header_text(width as nat, height as nat),
{
    out.push(LETTER_P);
    out.push(DIGIT_THREE);
    out.push(NEWLINE);
    push_decimal(out, width);
    out.push(SPACE);
    push_decimal(out, height);
    out.push(NEWLINE);
    out.push(DIGIT_TWO);
    out.push(DIGIT_FIVE);
    out.push(DIGIT_FIVE);
    out.push(NEWLINE);
    assert(final(out)@ =~= old(out)@ + header_text(width as nat, height as nat));
}

/// Appends the line of one pixel to `out`.
pub fn write_color(out: &mut Vec<u8>, color: Rgb)
    ensures
        final(out)@ == old(out)@ + pixel_text(color),
{
    push_decimal(out, color.r as u32);
    out.push(SPACE);
    push_decimal(out, color.g as u32);
    out.push(SPACE);
    push_decimal(out, color.b as u32);
    out.push(NEWLINE);
    assert(final(out)@ =~= old(out)@ + pixel_text(color));
}

/// Encodes a `width` by `height` image whose pixels are listed in emission
/// order; `None` when the number of pixels is not `width * height`.
pub fn encode_image(width: u32, height: u32, pixels: &Vec<Rgb>) -> (r: Option<Vec<u8>>)
    ensures
        pixels@.len() != width * height <==> r is None,
        r matches Some(text) ==> text@ == image_text(width as nat, height as nat, pixels@),
{
    assert(width as u64 * height as u64 <= u64::MAX) by (nonlinear_arith)
        requires
            width <= u32::MAX,
            height <= u32::MAX,
    ;
    if pixels.len() as u64 != width as u64 * height as u64 {
        return None;
    }
    let mut out: Vec<u8> = Vec::new();
    write_header(&mut out, width, height);
    let n = pixels.len();
    for k in 0..n
        invariant
            n == pixels@.len(),
            out@ == header_text(width as nat, height as nat) + pixels_text(pixels@.subrange(0, k as int)),
    {
        write_color(&mut out, pixels[k]);
        proof {
            let done = pixels@.subrange(0, k + 1);
            assert(done.drop_last() =~= pixels@.subrange(0, k as int));
            assert(done.last() == pixels@[k as int]);
        }
    }
    assert(pixels@.subrange(0, n as int) =~= pixels@);
    Some(out)
}

/// Image coordinates `(i, j)` of the `k`-th pixel emitted: rows go from the
/// top (`j == height - 1`) down to `j == 0`, each from `i == 0` rightwards.
pub fn pixel_at(width: u32, height: u32, k: u64) -> (p: (u32, u32))
    requires
        k < width * height,
    ensures
        p.0 == (k as int) % (width as int),
        p.1 == height - 1 - (k as int) / (width as int),
{
    assert(width > 0) by (nonlinear_arith)
        requires
            0 <= k < width * height,
    ;
    let row: u64 = k / width as u64;
    proof {
        assert(row < height) by (nonlinear_arith)
            requires
                row == (k as int) / (width as int),
                k < width * height,
                width > 0,
        ;
    }
    ((k % width as u64) as u32, height - 1 - row as u32)
}

} // verus!
