//! Addressing translator: maps pixel coordinates to the controller's
//! split-screen row/column addresses.
//!
//! The controller exposes display memory as two vertical halves (rows 0..32
//! and rows 32..64). A position inside a half is named by a vertical address
//! (the row within the half) and a horizontal address counted in fixed
//! 16-pixel steps; the bottom half is reached by offsetting the horizontal
//! address past the full width of the top half.

use vstd::prelude::*;

verus! {

/// Vertical address of row `y`: the row offset within its half screen.
pub open spec fn spec_row_addr(y: u8) -> u8 {
    if y < 32 {
        y
    } else {
        (y - 32) as u8
    }
}

/// Horizontal address of column `x` on row `y`: a 16-pixel step index,
/// offset by the 8 steps of the top half when `y` lies in the bottom half.
pub open spec fn spec_col_addr(x: u8, y: u8) -> u8 {
    if y < 32 {
        x / 16
    } else {
        (x / 16 + 8) as u8
    }
}

/// Width of rectangle `(x, .., w, ..)` once trimmed to the right screen
/// edge; meaningful for an on-screen left edge (`x < 128`).
pub open spec fn spec_clamped_w(x: u8, w: u8) -> u8 {
    if x + w > 128 {
        (128 - x) as u8
    } else {
        w
    }
}

/// Height of rectangle `(.., y, .., h)` once trimmed to the bottom screen
/// edge; meaningful for an on-screen top edge (`y < 64`).
pub open spec fn spec_clamped_h(y: u8, h: u8) -> u8 {
    if y + h > 64 {
        (64 - y) as u8
    } else {
        h
    }
}

/// Left edge of a clamped rectangle after the orientation transform: the
/// whole rectangle is point-reflected, so the left edge comes from the old
/// right edge.
pub open spec fn spec_adj_x(flip: bool, x: u8, cw: u8) -> u8 {
    if flip {
        (128 - (x + cw)) as u8
    } else {
        x
    }
}

/// Top edge of a clamped rectangle after the orientation transform.
pub open spec fn spec_adj_y(flip: bool, y: u8, ch: u8) -> u8 {
    if flip {
        (64 - (y + ch)) as u8
    } else {
        y
    }
}

/// Horizontal span start `ax` rounded down to the enclosing 16-pixel strip
/// boundary.
pub open spec fn spec_left(ax: u8) -> int {
    ax - ax % 16
}

/// Exclusive right edge of the span `ax..ax + w` rounded up to the next
/// 16-pixel strip boundary; meaningful for `w >= 1`.
pub open spec fn spec_right(ax: u8, w: u8) -> int {
    (ax + w - 1) / 16 * 16 + 16
}

/// An `x` position trimmed to `0..=255`, never wrapped.
pub open spec fn spec_clamped_coord(c: i32) -> u8 {
    if c < 0 {
        0u8
    } else if c > 255 {
        255u8
    } else {
        c as u8
    }
}

/// A width or height trimmed to `0..=255`: a negative position eats into
/// the extent first, and the remainder is capped, never wrapped.
pub open spec fn spec_trimmed_extent(c: i32, e: u32) -> u8 {
    let t = if c < 0 {
        if e + c >= 0 {
            e + c
        } else {
            0
        }
    } else {
        e as int
    };
    if t > 255 {
        255u8
    } else {
        t as u8
    }
}

/// Trim a rectangle given in wide integer coordinates to the `u8` domain
/// of the flush operations: negative edges are moved to zero with the
/// width or height reduced to match, and every component is capped at 255
/// rather than wrapped.
pub fn clamp_region(x: i32, y: i32, w: u32, h: u32) -> (r: (u8, u8, u8, u8))
    ensures
        r.0 == spec_clamped_coord(x),
        r.1 == spec_clamped_coord(y),
        r.2 == spec_trimmed_extent(x, w),
        r.3 == spec_trimmed_extent(y, h),
{
    let cw = trim_extent(x, w);
    let ch = trim_extent(y, h);
    let cx = trim_coord(x);
    let cy = trim_coord(y);
    (cx, cy, cw, ch)
}

fn trim_coord(c: i32) -> (r: u8)
    ensures
        r == spec_clamped_coord(c),
{
    if c < 0 {
        0
    } else if c > 255 {
        255
    } else {
        c as u8
    }
}

fn trim_extent(c: i32, e: u32) -> (r: u8)
    ensures
        r == spec_trimmed_extent(c, e),
{
    let reduced: u32 = if c < 0 {
        let mag: u32 = (-(c as i64)) as u32;
        if e > mag {
            e - mag
        } else {
            0
        }
    } else {
        e
    };
    if reduced > 255 {
        255
    } else {
        reduced as u8
    }
}

/// Translate pixel coordinate `(x, y)` into the controller's
/// (vertical address, horizontal address) pair.
pub fn compute_address(x: u8, y: u8) -> (r: (u8, u8))
    requires
        x < 128,
        y < 64,
    ensures
        r.0 == spec_row_addr(y),
        r.1 == spec_col_addr(x, y),
{
    let row = if y < 32 { y } else { y - 32 };
    let col = if y < 32 { x / 16 } else { x / 16 + 8 };
    (row, col)
}

} // verus!
