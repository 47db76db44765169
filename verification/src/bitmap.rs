//! Rendered pages as pixels: the BGRA rows a PDF renderer hands back,
//! rearranged into an RGBA bitmap.

use vstd::prelude::*;

verus! {

/// A page rendered to pixels: `width` by `height` pixels, four bytes (red,
/// green, blue, alpha) each, rows `stride` bytes apart.
#[derive(Debug, Clone)]
pub struct RgbaBitmap {
    pub width: usize,
    pub height: usize,
    pub stride: usize,
    pub pixels: Vec<u8>,
}

/// Byte `i` of `src`, or 255 (opaque white) past its end.
pub open spec fn byte_or_white(src: Seq<u8>, i: int) -> u8 {
    if 0 <= i < src.len() {
        src[i]
    } else {
        255
    }
}

/// The distance between rows of `height` rows held in `len` bytes.
pub open spec fn row_stride(len: nat, height: nat) -> nat {
    if height == 0 {
        0
    } else {
        len / height
    }
}

/// Where channel `k` (0 red, 1 green, 2 blue, 3 alpha) sits in a BGRA pixel.
pub open spec fn bgra_offset(k: int) -> int {
    if k == 0 {
        2
    } else if k == 1 {
        1
    } else if k == 2 {
        0
    } else {
        3
    }
}

/// Channel `k` of pixel `i` (row by row) of the RGBA bitmap made from BGRA
/// rows: read at row `i / width`, column `i % width`, bytes past the end
/// read as 255.
pub open spec fn rgba_from_bgra(src: Seq<u8>, width: nat, height: nat, i: int, k: int) -> u8 {
    byte_or_white(
        src,
        (i / width as int) * row_stride(src.len(), height) + (i % width as int) * 4 + bgra_offset(k),
    )
}

fn byte_at(src: &[u8], i: usize) -> (b: u8)
    ensures
        b == byte_or_white(src@, i as int),
{
    if i < src.len() {
        src[i]
    } else {
        255
    }
}

/// The RGBA bitmap of `width` by `height` pixels held as BGRA rows in `src`
/// (rows `src.len() / height` bytes apart); bytes missing from `src` read as
/// opaque white. The result's rows are packed, `4 * width` bytes apart.
pub fn bgra_to_rgba(src: &[u8], width: usize, height: usize) -> (b: RgbaBitmap)
    requires
        width * height * 4 <= usize::MAX,
        src.len() + width * 4 <= usize::MAX,
    ensures
        b.width == width,
        b.height == height,
        b.stride == width * 4,
        b.pixels@.len() == width * height * 4,
        forall|i: int, k: int|
            0 <= i < width * height && 0 <= k < 4 ==> #[trigger] b.pixels@[4 * i + k] == rgba_from_bgra(
                src@,
                width as nat,
                height as nat,
                i,
                k,
            ),
{
    let stride: usize = if height == 0 {
        0
    } else {
        src.len() / height
    };
    assert(stride == row_stride(src@.len(), height as nat));
    proof {
        if height > 0 {
            vstd::arithmetic::div_mod::lemma_fundamental_div_mod(src@.len() as int, height as int);
            assert(stride * height <= src@.len()) by (nonlinear_arith)
                requires
                    src@.len() == height * (src@.len() as int / height as int) + src@.len() as int % height as int,
                    stride == src@.len() as int / height as int,
                    src@.len() as int % height as int >= 0,
            ;
        }
    }
    let mut pixels: Vec<u8> = Vec::new();
    let mut y: usize = 0;
    while y < height
        invariant
            y <= height,
            stride == row_stride(src@.len(), height as nat),
            height > 0 ==> stride * height <= src@.len(),
            src@.len() + width * 4 <= usize::MAX,
            pixels@.len() == (y * width) * 4,
            forall|i: int, k: int|
                0 <= i < y * width && 0 <= k < 4 ==> #[trigger] pixels@[4 * i + k] == rgba_from_bgra(
                    src@,
                    width as nat,
                    height as nat,
                    i,
                    k,
                ),
        decreases height - y,
    {
        assert(y * stride <= src@.len()) by (nonlinear_arith)
            requires
                y < height,
                stride * height <= src@.len(),
        ;
        let base = y * stride;
        let mut x: usize = 0;
        while x < width
            invariant
                y < height,
                x <= width,
                base == y * stride,
                base <= src@.len(),
                stride == row_stride(src@.len(), height as nat),
                src@.len() + width * 4 <= usize::MAX,
                pixels@.len() == (y * width + x) * 4,
                forall|i: int, k: int|
                    0 <= i < y * width + x && 0 <= k < 4 ==> #[trigger] pixels@[4 * i + k] == rgba_from_bgra(
                        src@,
                        width as nat,
                        height as nat,
                        i,
                        k,
                    ),
            decreases width - x,
        {
            let idx = base + x * 4;
            let r = byte_at(src, idx + 2);
            let g = byte_at(src, idx + 1);
            let bl = byte_at(src, idx);
            let a = byte_at(src, idx + 3);
            let ghost n: int = y * width + x;
            let ghost before = pixels@;
            pixels.push(r);
            pixels.push(g);
            pixels.push(bl);
            pixels.push(a);
            proof {
                vstd::arithmetic::div_mod::lemma_fundamental_div_mod_converse(n, width as int, y as int, x as int);
                assert(pixels@ == before + seq![r, g, bl, a]);
                assert forall|i: int, k: int|
                    0 <= i < n + 1 && 0 <= k < 4 implies #[trigger] pixels@[4 * i + k] == rgba_from_bgra(
                        src@,
                        width as nat,
                        height as nat,
                        i,
                        k,
                    ) by {
                    if i < n {
                        assert(pixels@[4 * i + k] == before[4 * i + k]);
                    } else {
                        assert(i / width as int == y);
                        assert(i % width as int == x);
                    }
                }
            }
            x += 1;
        }
        assert((y + 1) * width == y * width + width) by (nonlinear_arith);
        y += 1;
    }
    assert(y * width == width * height) by (nonlinear_arith)
        requires
            y == height,
    ;
    RgbaBitmap { width, height, stride: width * 4, pixels }
}

} // verus!
