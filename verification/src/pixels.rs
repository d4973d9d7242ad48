//! Model of the bit-packed pixel buffer.
//!
//! The buffer holds one bit per pixel, row-major, 8 pixels per byte and 16
//! bytes per row, most significant bit leftmost. These spec functions say
//! which byte and which bit a pixel lives in, how a single pixel write
//! transforms the buffer, and how byte indices map back to byte-column and
//! row for the bulk-pattern primitive.

use vstd::prelude::*;

verus! {

/// Effective x coordinate once the orientation transform is applied.
pub open spec fn spec_eff_x(flip: bool, x: u8) -> u8 {
    if flip {
        (127 - x) as u8
    } else {
        x
    }
}

/// Effective y coordinate once the orientation transform is applied.
pub open spec fn spec_eff_y(flip: bool, y: u8) -> u8 {
    if flip {
        (63 - y) as u8
    } else {
        y
    }
}

/// Index of the buffer byte holding pixel `(x, y)`.
pub open spec fn pixel_byte_index(flip: bool, x: u8, y: u8) -> int {
    spec_eff_y(flip, y) * 16 + spec_eff_x(flip, x) / 8
}

/// Single-bit mask of pixel `(x, y)` within its byte; the leftmost pixel
/// of a byte sits in the most significant bit.
pub open spec fn pixel_mask(flip: bool, x: u8) -> u8 {
    0x80u8 >> ((spec_eff_x(flip, x) % 8) as u8)
}

/// Byte `b` with the bits of `m` set (`on`) or cleared (`!on`).
pub open spec fn spec_set_bit(b: u8, m: u8, on: bool) -> u8 {
    if on {
        b | m
    } else {
        b & !m
    }
}

/// The buffer after writing value `on` to pixel `(x, y)`.
pub open spec fn spec_set_pixel(buf: Seq<u8>, flip: bool, x: u8, y: u8, on: bool) -> Seq<u8> {
    let i = pixel_byte_index(flip, x, y);
    buf.update(i, spec_set_bit(buf[i], pixel_mask(flip, x), on))
}

/// The all-zero pixel buffer: every pixel off.
pub open spec fn zero_buffer() -> Seq<u8> {
    Seq::new(1024, |i: int| 0u8)
}

/// Byte-column of buffer byte `i`: its offset within its row.
pub open spec fn byte_col(i: int) -> u8 {
    (i % 16) as u8
}

/// Row of buffer byte `i`.
pub open spec fn byte_row(i: int) -> u8 {
    (i / 16) as u8
}

/// Whether the pixel at raw position (`col`, `row`) — orientation already
/// applied — is on in `buf`.
pub open spec fn pixel_on(buf: Seq<u8>, col: u8, row: u8) -> bool {
    buf[row * 16 + col / 8] & (0x80u8 >> ((col % 8) as u8)) != 0
}

/// Whether raw position (`c`, `r`) lies in the rectangle with left edge
/// `ax`, top edge `ay`, width `w` and height `h`.
pub open spec fn in_rect(c: u8, r: u8, ax: u8, ay: u8, w: u8, h: u8) -> bool {
    ax <= c < ax + w && ay <= r < ay + h
}

/// `new_buf` is `old_buf` with exactly the pixels of the given rectangle
/// turned off: every pixel inside it is off, every pixel outside it keeps
/// its old value.
pub open spec fn rect_cleared(
    old_buf: Seq<u8>,
    new_buf: Seq<u8>,
    ax: u8,
    ay: u8,
    w: u8,
    h: u8,
) -> bool {
    &&& new_buf.len() == old_buf.len()
    &&& forall|c: u8, r: u8|
        c < 128 && r < 64 ==> #[trigger] pixel_on(new_buf, c, r) == (pixel_on(old_buf, c, r)
            && !in_rect(c, r, ax, ay, w, h))
}

/// How one masked byte write affects each pixel of that byte: with the
/// mask built from bit positions `lo..=hi`, the bits of that range come
/// out cleared and every other bit keeps its value.
pub proof fn lemma_mask_clears_bits(b: u8, lo: u8, hi: u8, j: u8)
    by (bit_vector)
    requires
        lo <= 7,
        hi <= 7,
        j <= 7,
    ensures
        lo <= j && j <= hi ==> (b & !((0xFFu8 >> lo) & (0xFFu8 << ((7 - hi) as u8)))) & (0x80u8
            >> j) == 0,
        !(lo <= j && j <= hi) ==> (b & !((0xFFu8 >> lo) & (0xFFu8 << ((7 - hi) as u8)))) & (
        0x80u8 >> j) == b & (0x80u8 >> j),
{
}

/// Writing a pixel on and then off restores the buffer, provided the
/// pixel was off to begin with: the two writes touch only that one bit.
pub proof fn lemma_set_then_clear_restores(buf: Seq<u8>, flip: bool, x: u8, y: u8)
    requires
        buf.len() == 1024,
        x < 128,
        y < 64,
        buf[pixel_byte_index(flip, x, y)] & pixel_mask(flip, x) == 0,
    ensures
        spec_set_pixel(spec_set_pixel(buf, flip, x, y, true), flip, x, y, false) == buf,
{
    let i = pixel_byte_index(flip, x, y);
    let m = pixel_mask(flip, x);
    let b = buf[i];
    assert(0 <= i < 1024);
    assert((b | m) & !m == b) by (bit_vector)
        requires
            b & m == 0u8,
    ;
    let buf1 = spec_set_pixel(buf, flip, x, y, true);
    assert(buf1[i] == b | m);
    assert(spec_set_pixel(buf1, flip, x, y, false) =~= buf);
}

} // verus!
