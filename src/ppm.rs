use vstd::prelude::*;

use crate::image::{
    PixelBuffer,
    Scanline,
    assembled,
    lemma_assembly_order_irrelevant,
    rows_distinct,
    scanlines_fit,
};

verus! {

pub const DIGIT_ZERO: u8 = 48;

pub const SPACE: u8 = 32;

pub const NEWLINE: u8 = 10;

pub const LETTER_P: u8 = 80;

pub const DIGIT_TWO: u8 = 50;

pub const DIGIT_THREE: u8 = 51;

pub const DIGIT_FIVE: u8 = 53;

/// ASCII digit for `d < 10`.
pub open spec fn digit_byte(d: nat) -> u8 {
    (DIGIT_ZERO as nat + d) as u8
}

/// Decimal text of `n`, without leading zeros.
pub open spec fn decimal(n: nat) -> Seq<u8>
    decreases n,
{
    if n < 10 {
        seq![digit_byte(n)]
    } else {
        decimal(n / 10).push(digit_byte(n % 10))
    }
}

/// One line of the pixel section: `R G B` and a newline.
pub open spec fn triple_line(r: u8, g: u8, b: u8) -> Seq<u8> {
    decimal(r as nat) + seq![SPACE] + decimal(g as nat) + seq![SPACE] + decimal(b as nat) + seq![
        NEWLINE,
    ]
}

/// The plain-PPM header: the ASCII magic number, the dimensions, and the largest
/// channel value 255.
pub open spec fn header_text(width: nat, height: nat) -> Seq<u8> {
    seq![LETTER_P, DIGIT_THREE, NEWLINE] + decimal(width) + seq![SPACE] + decimal(height) + seq![
        NEWLINE,
        DIGIT_TWO,
        DIGIT_FIVE,
        DIGIT_FIVE,
        NEWLINE,
    ]
}

/// The pixel section: the triples of `px` from the last to the first, one per
/// line. The buffer holds the bottom row first, so the picture comes out top-down.
pub open spec fn pixel_text(px: Seq<u8>) -> Seq<u8>
    decreases px.len(),
{
    if px.len() < 3 {
        Seq::empty()
    } else {
        let n = px.len() as int;
        triple_line(px[n - 3], px[n - 2], px[n - 1]) + pixel_text(px.subrange(0, n - 3))
    }
}

/// A whole plain-PPM file for an image.
pub open spec fn ppm_text(width: nat, height: nat, px: Seq<u8>) -> Seq<u8> {
    header_text(width, height) + pixel_text(px)
}

/// Appends the decimal text of `n`.
pub fn push_decimal(out: &mut Vec<u8>, n: usize)
    ensures
        final(out)@ == old(out)@ + decimal(n as nat),
    decreases n,
{
    if n >= 10 {
        push_decimal(out, n / 10);
    }
    let d: u8 = (n % 10) as u8;
    out.push(DIGIT_ZERO + d);
    proof {
        if n >= 10 {
            assert(decimal(n as nat) == decimal((n / 10) as nat).push(digit_byte((n % 10) as nat)));
        }
        assert(out@ =~= old(out)@ + decimal(n as nat));
    }
}

/// Appends the line `R G B` of one pixel.
fn push_triple(out: &mut Vec<u8>, r: u8, g: u8, b: u8)
    ensures
        final(out)@ == old(out)@ + triple_line(r, g, b),
{
    push_decimal(out, r as usize);
    out.push(SPACE);
    push_decimal(out, g as usize);
    out.push(SPACE);
    push_decimal(out, b as usize);
    out.push(NEWLINE);
    assert(out@ =~= old(out)@ + triple_line(r, g, b));
}

/// The header of a plain-PPM file of `width * height` pixels.
pub fn encode_header(width: usize, height: usize) -> (r: Vec<u8>)
    ensures
        r@ == header_text(width as nat, height as nat),
{
    let mut out: Vec<u8> = Vec::new();
    out.push(LETTER_P);
    out.push(DIGIT_THREE);
    out.push(NEWLINE);
    push_decimal(&mut out, width);
    out.push(SPACE);
    push_decimal(&mut out, height);
    out.push(NEWLINE);
    out.push(DIGIT_TWO);
    out.push(DIGIT_FIVE);
    out.push(DIGIT_FIVE);
    out.push(NEWLINE);
    assert(out@ =~= header_text(width as nat, height as nat));
    out
}

/// The pixel section of a plain-PPM file: one `R G B` line per pixel, from the
/// last triple of the buffer to the first.
pub fn pixel_lines(pixels: &Vec<u8>) -> (r: Vec<u8>)
    requires
        pixels@.len() % 3 == 0,
    ensures
        r@ == pixel_text(pixels@),
{
    let mut out: Vec<u8> = Vec::new();
    let mut end: usize = pixels.len();
    assert(pixels@.subrange(0, end as int) =~= pixels@);
    assert(out@ + pixel_text(pixels@) =~= pixel_text(pixels@));
    while end >= 3
        invariant
            end <= pixels@.len(),
            end % 3 == 0,
            out@ + pixel_text(pixels@.subrange(0, end as int)) == pixel_text(pixels@),
        decreases end,
    {
        let ghost before = out@;
        push_triple(&mut out, pixels[end - 3], pixels[end - 2], pixels[end - 1]);
        proof {
            let whole = pixels@.subrange(0, end as int);
            let rest = pixels@.subrange(0, end - 3);
            assert(whole.subrange(0, end - 3) =~= rest);
            assert(pixel_text(whole) == triple_line(
                pixels@[end - 3],
                pixels@[end - 2],
                pixels@[end - 1],
            ) + pixel_text(rest));
            assert(out@ + pixel_text(rest) =~= before + pixel_text(whole));
        }
        end = end - 3;
    }
    assert(pixel_text(pixels@.subrange(0, end as int)) =~= Seq::<u8>::empty());
    assert(out@ =~= out@ + pixel_text(pixels@.subrange(0, end as int)));
    out
}

/// The whole plain-PPM file of an image: header, then its pixels top-down.
pub fn encode_ppm(image: &PixelBuffer) -> (r: Vec<u8>)
    requires
        image.wf(),
    ensures
        r@ == ppm_text(image.width as nat, image.height as nat, image.bytes@),
{
    let mut out = encode_header(image.width, image.height);
    proof {
        assert(image.bytes@.len() % 3 == 0) by (nonlinear_arith)
            requires
                image.bytes@.len() == image.width * image.height * 3,
        ;
    }
    let body = pixel_lines(&image.bytes);
    let mut k: usize = 0;
    let ghost head = out@;
    while k < body.len()
        invariant
            k <= body@.len(),
            out@ == head + body@.subrange(0, k as int),
        decreases body@.len() - k,
    {
        out.push(body[k]);
        k = k + 1;
        assert(out@ =~= head + body@.subrange(0, k as int));
    }
    assert(body@.subrange(0, k as int) =~= body@);
    out
}

/// The output file does not depend on the order in which the scanline workers
/// finished: the same scanlines, each row rendered once, give the same bytes.
pub proof fn lemma_file_independent_of_completion_order(
    width: nat,
    height: nat,
    first: Seq<Scanline>,
    second: Seq<Scanline>,
)
    requires
        scanlines_fit(width, height, first),
        rows_distinct(first),
        rows_distinct(second),
        first.to_multiset() == second.to_multiset(),
    ensures
        ppm_text(width, height, assembled(width, height, first)) == ppm_text(
            width,
            height,
            assembled(width, height, second),
        ),
{
    lemma_assembly_order_irrelevant(width, height, first, second);
}

} // verus!
