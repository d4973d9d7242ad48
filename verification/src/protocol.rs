//! Byte-level model of the controller protocol.
//!
//! Every value crosses the bus as a 3-byte frame: a prefix byte naming the
//! frame kind (command or data), then the payload's high nibble, then its
//! low nibble shifted up — the nibble-split layout the controller demands.
//! The spec functions here build, frame by frame, the exact byte sequence a
//! flush operation transmits, so the driver's contracts can promise the
//! whole stream byte for byte.

use vstd::prelude::*;

use crate::address::{
    spec_adj_x, spec_adj_y, spec_clamped_h, spec_clamped_w, spec_col_addr, spec_left, spec_right,
    spec_row_addr,
};

verus! {

/// Select the basic instruction set.
pub const BASIC_FUNCTION: u8 = 0x30;

/// Select the extended instruction set, a step towards graphics mode.
pub const EXTENDED_FUNCTION: u8 = 0x34;

/// Clear the controller's character display memory.
pub const CLEAR_SCREEN: u8 = 0x01;

/// Entry mode: cursor moves right, no display shift.
pub const ENTRY_MODE: u8 = 0x06;

/// Display on, cursor and blink off.
pub const DISPLAY_ON_CURSOR_OFF: u8 = 0x0C;

/// Turn graphics display mode on.
pub const GRAPHICS_ON: u8 = 0x36;

/// Set the graphics memory address; the low bits carry the address.
pub const SET_GRAPHICS_ADDRESS: u8 = 0x80;

/// Bus prefix byte announcing a command frame.
pub const COMMAND_PREFIX: u8 = 0xF8;

/// Bus prefix byte announcing a data frame.
pub const DATA_PREFIX: u8 = 0xFA;

/// A 3-byte bus frame: prefix, high nibble of `v`, low nibble of `v`
/// shifted into the high position.
pub open spec fn frame_seq(prefix: u8, v: u8) -> Seq<u8> {
    seq![prefix, v & 0xF0, (v << 4) & 0xF0]
}

/// The command frame carrying instruction byte `v`.
pub open spec fn cmd_frame(v: u8) -> Seq<u8> {
    frame_seq(COMMAND_PREFIX, v)
}

/// The data frame carrying payload byte `v`.
pub open spec fn data_frame(v: u8) -> Seq<u8> {
    frame_seq(DATA_PREFIX, v)
}

/// The two addressing command frames that select row `y`, column strip of
/// `x`: vertical address first, then horizontal address.
pub open spec fn addr_seq(x: u8, y: u8) -> Seq<u8> {
    cmd_frame(SET_GRAPHICS_ADDRESS | spec_row_addr(y))
        + cmd_frame(SET_GRAPHICS_ADDRESS | spec_col_addr(x, y))
}

/// The data frames for `n` buffer bytes starting at byte index `start`.
pub open spec fn data_seq(buf: Seq<u8>, start: int, n: int) -> Seq<u8>
    decreases n,
{
    if n <= 0 {
        Seq::empty()
    } else {
        data_seq(buf, start, n - 1) + data_frame(buf[start + n - 1])
    }
}

/// `n` data frames all carrying zero.
pub open spec fn zero_frames(n: int) -> Seq<u8>
    decreases n,
{
    if n <= 0 {
        Seq::empty()
    } else {
        zero_frames(n - 1) + data_frame(0)
    }
}

/// One row of a full flush: address row `y` at column 0, then the 16 bytes
/// of top-half row `y` followed by the 16 bytes of bottom-half row `y + 32`
/// (one addressing step covers both halves).
pub open spec fn flush_row_seq(buf: Seq<u8>, y: u8) -> Seq<u8> {
    addr_seq(0, y) + data_seq(buf, y * 16, 16) + data_seq(buf, (y + 32) * 16, 16)
}

/// The first `n` rows of a full flush.
pub open spec fn flush_rows_seq(buf: Seq<u8>, n: int) -> Seq<u8>
    decreases n,
{
    if n <= 0 {
        Seq::empty()
    } else {
        flush_rows_seq(buf, n - 1) + flush_row_seq(buf, (n - 1) as u8)
    }
}

/// Everything a full flush transmits: all 32 row addresses in order, each
/// followed by its 32 data frames.
pub open spec fn flush_full_seq(buf: Seq<u8>) -> Seq<u8> {
    flush_rows_seq(buf, 32)
}

/// One row of a region flush: address the strip holding column `ax` of row
/// `y`, then the row's buffer bytes `lb..rb`.
pub open spec fn region_row_seq(buf: Seq<u8>, ax: u8, y: u8, lb: int, rb: int) -> Seq<u8> {
    addr_seq(ax, y) + data_seq(buf, y * 16 + lb, rb - lb)
}

/// The first `n` rows of a region flush, starting at row `ay`.
pub open spec fn region_rows_seq(buf: Seq<u8>, ax: u8, ay: u8, n: int, lb: int, rb: int) -> Seq<u8>
    decreases n,
{
    if n <= 0 {
        Seq::empty()
    } else {
        region_rows_seq(buf, ax, ay, n - 1, lb, rb)
            + region_row_seq(buf, ax, (ay + n - 1) as u8, lb, rb)
    }
}

/// Everything a region flush of rectangle `(x, y, w, h)` transmits: nothing
/// for a degenerate or off-screen rectangle; otherwise the rectangle is
/// clamped to the screen, reflected as a whole when `flip` is set, its
/// horizontal span rounded outward to 16-pixel strip boundaries, and each
/// covered row transmitted as one addressing step plus its strip bytes.
pub open spec fn region_flush_seq(
    buf: Seq<u8>,
    flip: bool,
    x: u8,
    y: u8,
    w: u8,
    h: u8,
) -> Seq<u8> {
    if x >= 128 || y >= 64 || w == 0 || h == 0 {
        Seq::empty()
    } else {
        let cw = spec_clamped_w(x, w);
        let ch = spec_clamped_h(y, h);
        let ax = spec_adj_x(flip, x, cw);
        let ay = spec_adj_y(flip, y, ch);
        region_rows_seq(buf, ax, ay, ch as int, spec_left(ax) / 8, spec_right(ax, cw) / 8)
    }
}

/// Flushing a region with the orientation transform active transmits
/// exactly the bytes of flushing the point-reflected rectangle with the
/// transform inactive, for any rectangle lying on the screen.
pub proof fn lemma_flip_region_flush(buf: Seq<u8>, x: u8, y: u8, w: u8, h: u8)
    requires
        0 < w,
        0 < h,
        x + w <= 128,
        y + h <= 64,
    ensures
        region_flush_seq(buf, true, x, y, w, h) == region_flush_seq(
            buf,
            false,
            (128 - (x + w)) as u8,
            (64 - (y + h)) as u8,
            w,
            h,
        ),
{
}

/// What a full flush transmits is a function of the buffer alone: in the
/// transcript of two successive full flushes of the same buffer, the two
/// flushed stretches are byte-for-byte identical.
pub proof fn lemma_flush_full_twice_identical(t0: Seq<u8>, buf: Seq<u8>)
    ensures
        ({
            let s = flush_full_seq(buf);
            let t = t0 + s + s;
            t.subrange(t0.len() as int, (t0.len() + s.len()) as int) == t.subrange(
                (t0.len() + s.len()) as int,
                t.len() as int,
            )
        }),
{
    let s = flush_full_seq(buf);
    let t = t0 + s + s;
    assert(t.subrange(t0.len() as int, (t0.len() + s.len()) as int) =~= s);
    assert(t.subrange((t0.len() + s.len()) as int, t.len() as int) =~= s);
}

/// The data frames of `n` zero bytes are `n` zero frames.
pub proof fn lemma_data_seq_zero(buf: Seq<u8>, start: int, n: int)
    requires
        0 <= start,
        start + n <= buf.len(),
        forall|i: int| start <= i < start + n ==> buf[i] == 0,
    ensures
        data_seq(buf, start, n) == zero_frames(n),
    decreases n,
{
    if n > 0 {
        lemma_data_seq_zero(buf, start, n - 1);
    }
}

/// A run of `n` zero frames is `3 * n` bytes long and consists of the
/// zero frame repeated: its `j`-th frame is `data_frame(0)`.
pub proof fn lemma_zero_frames_flat(n: int)
    requires
        0 <= n,
    ensures
        zero_frames(n).len() == 3 * n,
        forall|j: int| 0 <= j < n ==> #[trigger] zero_frames(n).subrange(3 * j, 3 * j + 3) == data_frame(0),
    decreases n,
{
    if n > 0 {
        lemma_zero_frames_flat(n - 1);
        assert forall|j: int| 0 <= j < n implies #[trigger] zero_frames(n).subrange(
            3 * j,
            3 * j + 3,
        ) == data_frame(0) by {
            if j < n - 1 {
                assert(zero_frames(n).subrange(3 * j, 3 * j + 3) =~= zero_frames(n - 1).subrange(
                    3 * j,
                    3 * j + 3,
                ));
            } else {
                assert(zero_frames(n).subrange(3 * j, 3 * j + 3) =~= data_frame(0));
            }
        }
    }
}

/// A full flush of a cleared buffer carries only zero payloads: each of
/// its rows is the row address followed by 32 zero frames, and the zero
/// frame is `[0xFA, 0x00, 0x00]`.
pub proof fn lemma_flush_full_of_cleared(buf: Seq<u8>)
    requires
        buf.len() == 1024,
        forall|i: int| 0 <= i < 1024 ==> buf[i] == 0,
    ensures
        forall|y: u8|
            y < 32 ==> #[trigger] flush_row_seq(buf, y) == addr_seq(0, y) + zero_frames(16)
                + zero_frames(16),
        data_frame(0) == seq![0xFAu8, 0x00u8, 0x00u8],
{
    assert(0u8 & 0xF0 == 0) by (bit_vector);
    assert((0u8 << 4) & 0xF0 == 0) by (bit_vector);
    assert(data_frame(0) =~= seq![0xFAu8, 0x00u8, 0x00u8]);
    assert forall|y: u8| y < 32 implies #[trigger] flush_row_seq(buf, y) == addr_seq(0, y)
        + zero_frames(16) + zero_frames(16) by {
        lemma_data_seq_zero(buf, y * 16, 16);
        lemma_data_seq_zero(buf, (y + 32) * 16, 16);
    }
}

/// The six command frames of the initialization sequence, in the mandated
/// order.
pub open spec fn init_seq() -> Seq<u8> {
    cmd_frame(BASIC_FUNCTION) + cmd_frame(DISPLAY_ON_CURSOR_OFF) + cmd_frame(CLEAR_SCREEN)
        + cmd_frame(ENTRY_MODE) + cmd_frame(EXTENDED_FUNCTION) + cmd_frame(GRAPHICS_ON)
}

} // verus!
