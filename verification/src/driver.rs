//! The driver: an off-chip pixel buffer plus the flush engine that pushes
//! it, whole or by rectangle, through the controller protocol.

use vstd::prelude::*;
use vstd::pervasive::VecAdditionalExecFns;

use crate::address::{
    clamp_region, compute_address, spec_adj_x, spec_adj_y, spec_clamped_coord, spec_clamped_h,
    spec_clamped_w, spec_left, spec_right, spec_trimmed_extent,
};
use crate::bus::{DelaySource, OutPin, SerialBus};
use crate::pixels::{
    byte_col, byte_row, in_rect, lemma_mask_clears_bits, pixel_on, rect_cleared, spec_set_pixel,
    zero_buffer,
};
use crate::protocol::{
    addr_seq, cmd_frame, data_frame, data_seq, flush_full_seq, flush_rows_seq, init_seq,
    region_flush_seq, region_rows_seq, BASIC_FUNCTION, CLEAR_SCREEN, COMMAND_PREFIX, DATA_PREFIX,
    DISPLAY_ON_CURSOR_OFF, ENTRY_MODE, EXTENDED_FUNCTION, GRAPHICS_ON, SET_GRAPHICS_ADDRESS,
};

verus! {

/// A sequence is a prefix of itself extended by anything.
proof fn lemma_extension_is_prefix(t0: Seq<u8>, ext: Seq<u8>)
    ensures
        t0.is_prefix_of(t0 + ext),
{
    assert((t0 + ext).subrange(0, t0.len() as int) =~= t0);
}

/// Being a prefix is transitive.
proof fn lemma_prefix_transitive(a: Seq<u8>, b: Seq<u8>, c: Seq<u8>)
    requires
        a.is_prefix_of(b),
        b.is_prefix_of(c),
    ensures
        a.is_prefix_of(c),
{
    assert forall|i: int| 0 <= i < a.len() implies a[i] == c.subrange(0, a.len() as int)[i] by {
        assert(a[i] == b.subrange(0, a.len() as int)[i]);
        assert(b[i] == c.subrange(0, b.len() as int)[i]);
    }
    assert(a =~= c.subrange(0, a.len() as int));
}

/// Failure of a hardware collaborator, tagged by subsystem. The failing
/// transaction is aborted at once and never retried; the display may be
/// left only partly updated.
#[derive(Debug)]
pub enum Error<CommError, PinError, DelayError> {
    /// The bus rejected or failed a transfer.
    Comm(CommError),
    /// A digital output could not be driven.
    Pin(PinError),
    /// The delay provider failed.
    Delay(DelayError),
}

/// Bytes per buffer row: 128 pixels, 8 per byte.
pub const ROW_SIZE: usize = 16;

/// Bytes in the whole pixel buffer: 16 per row, 64 rows.
pub const BUFFER_SIZE: usize = 1024;

/// Driver for one ST7920-controlled display.
///
/// Owns the serial bus, the reset pin, an optional chip-select pin, the
/// 1024-byte pixel buffer and the orientation flag. Drawing calls mutate
/// only the buffer; `flush` and `flush_region` transmit it.
pub struct ST7920<SPI, RST, CS> {
    /// Serial bus the controller listens on.
    spi: SPI,
    /// Reset pin.
    rst: RST,
    /// Chip-select pin, where one is wired.
    cs: Option<CS>,
    /// Bit-packed pixel buffer, row-major, 8 pixels per byte.
    buffer: Vec<u8>,
    /// Whether the 180-degree orientation transform is applied.
    flip: bool,
}

impl<SPI, RST, CS> View for ST7920<SPI, RST, CS> {
    type V = Seq<u8>;

    /// The pixel buffer contents.
    closed spec fn view(&self) -> Seq<u8> {
        self.buffer@
    }
}

impl<SPI, RST, CS> ST7920<SPI, RST, CS> {
    /// The buffer always holds exactly `BUFFER_SIZE` bytes.
    pub closed spec fn wf(&self) -> bool {
        self.buffer@.len() == 1024
    }

    /// Whether the orientation transform is active; fixed at construction.
    pub closed spec fn flip(&self) -> bool {
        self.flip
    }

    /// Whether a chip-select pin is wired; fixed at construction.
    pub closed spec fn has_cs(&self) -> bool {
        self.cs is Some
    }
}

impl<SPI: SerialBus, RST, CS> ST7920<SPI, RST, CS> {
    /// Every byte the driver has put on the bus so far, oldest first.
    pub closed spec fn transmitted(&self) -> Seq<u8> {
        self.spi.transmitted()
    }
}

impl<SPI, RST: OutPin, CS> ST7920<SPI, RST, CS> {
    /// Whether the reset pin is driven high (controller out of reset).
    pub closed spec fn reset_high(&self) -> bool {
        self.rst.pin_high()
    }
}

impl<SPI, RST, CS> ST7920<SPI, RST, CS> where
    SPI: SerialBus,
    RST: OutPin,
    CS: OutPin<PinError = RST::PinError>,
 {
    /// Create a driver over the given bus and pins, with a zeroed buffer.
    ///
    /// `cs` may be `None` where the chip-select line is tied permanently
    /// active; `flip` selects the 180-degree orientation transform.
    pub fn new(spi: SPI, rst: RST, cs: Option<CS>, flip: bool) -> (r: ST7920<SPI, RST, CS>)
        ensures
            r.wf(),
            r@ == zero_buffer(),
            r.flip() == flip,
            r.has_cs() == (cs is Some),
            r.transmitted() == spi.transmitted(),
    {
        let mut buffer: Vec<u8> = Vec::new();
        let mut i: usize = 0;
        while i < BUFFER_SIZE
            invariant
                i <= 1024,
                buffer@.len() == i,
                forall|j: int| 0 <= j < i ==> buffer@[j] == 0,
            decreases 1024 - i,
        {
            buffer.push(0);
            i = i + 1;
        }
        assert(buffer@ =~= zero_buffer());
        ST7920 { spi, rst, cs, buffer, flip }
    }

    /// Read one buffer byte; the buffer is write-then-flush in normal
    /// use, and this accessor lets a test inspect it.
    pub fn buffer_byte(&self, i: usize) -> (r: u8)
        requires
            self.wf(),
            i < 1024,
        ensures
            r == self@[i as int],
    {
        self.buffer[i]
    }

    /// Borrow the serial bus, e.g. to inspect a recording backend.
    pub fn bus(&self) -> (r: &SPI)
        ensures
            r.transmitted() == self.transmitted(),
    {
        &self.spi
    }

    /// Zero every buffer byte. No hardware I/O takes place.
    pub fn clear_buffer(&mut self)
        requires
            old(self).wf(),
        ensures
            final(self).wf(),
            final(self)@ == zero_buffer(),
            final(self).flip() == old(self).flip(),
            final(self).has_cs() == old(self).has_cs(),
            final(self).transmitted() == old(self).transmitted(),
    {
        let mut i: usize = 0;
        while i < BUFFER_SIZE
            invariant
                i <= 1024,
                self.wf(),
                self.buffer@.len() == 1024,
                forall|j: int| 0 <= j < i ==> self.buffer@[j] == 0,
                self.flip == old(self).flip,
                self.has_cs() == old(self).has_cs(),
                self.transmitted() == old(self).transmitted(),
            decreases 1024 - i,
        {
            self.buffer.set(i, 0);
            i = i + 1;
        }
        assert(self.buffer@ =~= zero_buffer());
    }

    /// Write one pixel, ignoring coordinates off the canvas.
    ///
    /// Any non-zero `val` turns the pixel on; zero turns it off. No
    /// hardware I/O takes place.
    pub fn set_pixel(&mut self, x: u8, y: u8, val: u8)
        requires
            old(self).wf(),
        ensures
            final(self).wf(),
            final(self).flip() == old(self).flip(),
            final(self).has_cs() == old(self).has_cs(),
            final(self).transmitted() == old(self).transmitted(),
            x < 128 && y < 64 ==> final(self)@ == spec_set_pixel(
                old(self)@,
                old(self).flip(),
                x,
                y,
                val != 0,
            ),
            !(x < 128 && y < 64) ==> *final(self) == *old(self),
    {
        if x < 128 && y < 64 {
            self.set_pixel_unchecked(x, y, val);
        }
    }

    /// Write one pixel without canvas bounds checking.
    ///
    /// Any non-zero `val` turns the pixel on; zero turns it off. The
    /// coordinates must be on the canvas. No hardware I/O takes place.
    pub fn set_pixel_unchecked(&mut self, x: u8, y: u8, val: u8)
        requires
            old(self).wf(),
            x < 128,
            y < 64,
        ensures
            final(self).wf(),
            final(self).flip() == old(self).flip(),
            final(self).has_cs() == old(self).has_cs(),
            final(self).transmitted() == old(self).transmitted(),
            final(self)@ == spec_set_pixel(old(self)@, old(self).flip(), x, y, val != 0),
    {
        let ex: u8 = if self.flip { 127 - x } else { x };
        let ey: u8 = if self.flip { 63 - y } else { y };
        let idx: usize = (ey as usize) * ROW_SIZE + (ex as usize) / 8;
        let x_mask: u8 = 0x80u8 >> (ex % 8);
        let b = self.buffer[idx];
        if val != 0 {
            self.buffer.set(idx, b | x_mask);
        } else {
            self.buffer.set(idx, b & !x_mask);
        }
    }

    /// Apply a pure byte transform to the whole buffer.
    ///
    /// `f` is called for every buffer byte with its byte-column (0..16),
    /// its row (0..64) and the current byte value, and its result replaces
    /// that byte. This is a bulk-pattern primitive addressed by byte, not
    /// by pixel: the orientation transform is not applied. No hardware I/O
    /// takes place.
    pub fn modify_buffer<F: Fn(u8, u8, u8) -> u8>(&mut self, f: F)
        requires
            old(self).wf(),
            forall|c: u8, r: u8, v: u8| c < 16 && r < 64 ==> call_requires(f, (c, r, v)),
        ensures
            final(self).wf(),
            final(self).flip() == old(self).flip(),
            final(self).has_cs() == old(self).has_cs(),
            final(self).transmitted() == old(self).transmitted(),
            final(self)@.len() == 1024,
            forall|i: int|
                0 <= i < 1024 ==> call_ensures(
                    f,
                    (byte_col(i), byte_row(i), old(self)@[i]),
                    #[trigger] final(self)@[i],
                ),
    {
        let ghost buf0 = self.buffer@;
        let mut i: usize = 0;
        while i < BUFFER_SIZE
            invariant
                i <= 1024,
                self.wf(),
                self.buffer@.len() == 1024,
                self.flip == old(self).flip,
                self.has_cs() == old(self).has_cs(),
                self.transmitted() == old(self).transmitted(),
                forall|c: u8, r: u8, v: u8| c < 16 && r < 64 ==> call_requires(f, (c, r, v)),
                forall|j: int| i <= j < 1024 ==> self.buffer@[j] == buf0[j],
                forall|j: int|
                    0 <= j < i ==> call_ensures(
                        f,
                        (byte_col(j), byte_row(j), buf0[j]),
                        #[trigger] self.buffer@[j],
                    ),
            decreases 1024 - i,
        {
            let row: usize = i / ROW_SIZE;
            let column: usize = i - row * ROW_SIZE;
            let updated = f(column as u8, row as u8, self.buffer[i]);
            self.buffer.set(i, updated);
            i = i + 1;
        }
    }

    /// Run the fixed initialization sequence: hardware reset pulse, then
    /// basic function select, display on with cursor off, clear screen,
    /// entry mode, extended function select and graphics mode on, each
    /// followed by its controller-mandated settle delay.
    ///
    /// On success exactly the six command frames of `init_seq` have been
    /// transmitted, the reset pin rests high, and the settle delays add up
    /// to 200400 microseconds plus one on either side of the chip-select
    /// bracket where that pin is wired. A collaborator failure aborts the
    /// remaining steps at once.
    pub fn init<D: DelaySource>(&mut self, delay: &mut D) -> (r: Result<
        (),
        Error<SPI::BusError, RST::PinError, D::DelayError>,
    >)
        requires
            old(self).wf(),
        ensures
            final(self).wf(),
            final(self)@ == old(self)@,
            final(self).flip() == old(self).flip(),
            final(self).has_cs() == old(self).has_cs(),
            r is Ok ==> final(self).transmitted() == old(self).transmitted() + init_seq(),
            r is Ok ==> final(self).reset_high(),
            r is Ok ==> final(delay).elapsed_us() == old(delay).elapsed_us() + 200400 + (
            if old(self).has_cs() {
                2nat
            } else {
                0nat
            }),
            old(self).transmitted().is_prefix_of(final(self).transmitted()),
    {
        let ghost t0 = old(self).transmitted();
        proof {
            lemma_extension_is_prefix(t0, Seq::empty());
            assert(t0 + Seq::<u8>::empty() =~= t0);
        }
        match self.enable_cs(delay) {
            Ok(_) => {},
            Err(e) => {
                return Err(e);
            },
        }
        match self.hard_reset(delay) {
            Ok(_) => {},
            Err(e) => {
                return Err(e);
            },
        }
        match self.write_command(BASIC_FUNCTION) {
            Ok(_) => {},
            Err(e) => {
                proof {
                    lemma_prefix_transitive(t0, t0, self.transmitted());
                }
                return Err(Error::Comm(e));
            },
        }
        match delay.delay_us(200) {
            Ok(_) => {},
            Err(e) => {
                return Err(Error::Delay(e));
            },
        }
        let ghost s1 = cmd_frame(BASIC_FUNCTION);
        proof {
            lemma_extension_is_prefix(t0, s1);
        }
        match self.write_command(DISPLAY_ON_CURSOR_OFF) {
            Ok(_) => {},
            Err(e) => {
                proof {
                    lemma_prefix_transitive(t0, t0 + s1, self.transmitted());
                }
                return Err(Error::Comm(e));
            },
        }
        match delay.delay_us(100) {
            Ok(_) => {},
            Err(e) => {
                return Err(Error::Delay(e));
            },
        }
        let ghost s2 = s1 + cmd_frame(DISPLAY_ON_CURSOR_OFF);
        proof {
            assert(self.transmitted() =~= t0 + s2);
            lemma_extension_is_prefix(t0, s2);
        }
        match self.write_command(CLEAR_SCREEN) {
            Ok(_) => {},
            Err(e) => {
                proof {
                    lemma_prefix_transitive(t0, t0 + s2, self.transmitted());
                }
                return Err(Error::Comm(e));
            },
        }
        match delay.delay_us(10 * 1000) {
            Ok(_) => {},
            Err(e) => {
                return Err(Error::Delay(e));
            },
        }
        let ghost s3 = s2 + cmd_frame(CLEAR_SCREEN);
        proof {
            assert(self.transmitted() =~= t0 + s3);
            lemma_extension_is_prefix(t0, s3);
        }
        match self.write_command(ENTRY_MODE) {
            Ok(_) => {},
            Err(e) => {
                proof {
                    lemma_prefix_transitive(t0, t0 + s3, self.transmitted());
                }
                return Err(Error::Comm(e));
            },
        }
        match delay.delay_us(100) {
            Ok(_) => {},
            Err(e) => {
                return Err(Error::Delay(e));
            },
        }
        let ghost s4 = s3 + cmd_frame(ENTRY_MODE);
        proof {
            assert(self.transmitted() =~= t0 + s4);
            lemma_extension_is_prefix(t0, s4);
        }
        match self.write_command(EXTENDED_FUNCTION) {
            Ok(_) => {},
            Err(e) => {
                proof {
                    lemma_prefix_transitive(t0, t0 + s4, self.transmitted());
                }
                return Err(Error::Comm(e));
            },
        }
        match delay.delay_us(10 * 1000) {
            Ok(_) => {},
            Err(e) => {
                return Err(Error::Delay(e));
            },
        }
        let ghost s5 = s4 + cmd_frame(EXTENDED_FUNCTION);
        proof {
            assert(self.transmitted() =~= t0 + s5);
            lemma_extension_is_prefix(t0, s5);
        }
        match self.write_command(GRAPHICS_ON) {
            Ok(_) => {},
            Err(e) => {
                proof {
                    lemma_prefix_transitive(t0, t0 + s5, self.transmitted());
                }
                return Err(Error::Comm(e));
            },
        }
        match delay.delay_us(100 * 1000) {
            Ok(_) => {},
            Err(e) => {
                return Err(Error::Delay(e));
            },
        }
        let ghost s6 = s5 + cmd_frame(GRAPHICS_ON);
        proof {
            assert(self.transmitted() =~= t0 + s6);
            lemma_extension_is_prefix(t0, s6);
        }
        match self.disable_cs(delay) {
            Ok(_) => {},
            Err(e) => {
                return Err(e);
            },
        }
        proof {
            assert(s6 =~= init_seq());
        }
        Ok(())
    }

    /// Assert chip select (where wired) and let the controller settle.
    fn enable_cs<D: DelaySource>(&mut self, delay: &mut D) -> (r: Result<
        (),
        Error<SPI::BusError, RST::PinError, D::DelayError>,
    >)
        requires
            old(self).wf(),
        ensures
            final(self).wf(),
            final(self)@ == old(self)@,
            final(self).flip() == old(self).flip(),
            final(self).has_cs() == old(self).has_cs(),
            final(self).transmitted() == old(self).transmitted(),
            final(self).reset_high() == old(self).reset_high(),
            r is Ok ==> final(delay).elapsed_us() == old(delay).elapsed_us() + (
            if old(self).has_cs() {
                1nat
            } else {
                0nat
            }),
            r is Err ==> (r matches Err(Error::Pin(_)) || r matches Err(Error::Delay(_))),
    {
        match &mut self.cs {
            Some(cs) => {
                match cs.set_high() {
                    Ok(_) => {},
                    Err(e) => {
                        return Err(Error::Pin(e));
                    },
                }
                match delay.delay_us(1) {
                    Ok(_) => {},
                    Err(e) => {
                        return Err(Error::Delay(e));
                    },
                }
            },
            None => {},
        }
        Ok(())
    }

    /// Let the controller settle, then deassert chip select (where wired).
    fn disable_cs<D: DelaySource>(&mut self, delay: &mut D) -> (r: Result<
        (),
        Error<SPI::BusError, RST::PinError, D::DelayError>,
    >)
        requires
            old(self).wf(),
        ensures
            final(self).wf(),
            final(self)@ == old(self)@,
            final(self).flip() == old(self).flip(),
            final(self).has_cs() == old(self).has_cs(),
            final(self).transmitted() == old(self).transmitted(),
            final(self).reset_high() == old(self).reset_high(),
            r is Ok ==> final(delay).elapsed_us() == old(delay).elapsed_us() + (
            if old(self).has_cs() {
                1nat
            } else {
                0nat
            }),
            r is Err ==> (r matches Err(Error::Pin(_)) || r matches Err(Error::Delay(_))),
    {
        match &mut self.cs {
            Some(cs) => {
                match delay.delay_us(1) {
                    Ok(_) => {},
                    Err(e) => {
                        return Err(Error::Delay(e));
                    },
                }
                match cs.set_low() {
                    Ok(_) => {},
                    Err(e) => {
                        return Err(Error::Pin(e));
                    },
                }
            },
            None => {},
        }
        Ok(())
    }

    /// Pulse the reset pin low and back high, with the mandated 40 ms
    /// settle on either edge.
    fn hard_reset<D: DelaySource>(&mut self, delay: &mut D) -> (r: Result<
        (),
        Error<SPI::BusError, RST::PinError, D::DelayError>,
    >)
        requires
            old(self).wf(),
        ensures
            final(self).wf(),
            final(self)@ == old(self)@,
            final(self).flip() == old(self).flip(),
            final(self).has_cs() == old(self).has_cs(),
            final(self).transmitted() == old(self).transmitted(),
            r is Ok ==> final(self).reset_high(),
            r is Ok ==> final(delay).elapsed_us() == old(delay).elapsed_us() + 80000,
            r is Err ==> (r matches Err(Error::Pin(_)) || r matches Err(Error::Delay(_))),
    {
        match self.rst.set_low() {
            Ok(_) => {},
            Err(e) => {
                return Err(Error::Pin(e));
            },
        }
        match delay.delay_us(40 * 1000) {
            Ok(_) => {},
            Err(e) => {
                return Err(Error::Delay(e));
            },
        }
        match self.rst.set_high() {
            Ok(_) => {},
            Err(e) => {
                return Err(Error::Pin(e));
            },
        }
        match delay.delay_us(40 * 1000) {
            Ok(_) => {},
            Err(e) => {
                return Err(Error::Delay(e));
            },
        }
        Ok(())
    }

    /// Transmit the command frame for instruction `command` with `param`
    /// folded into its low bits.
    fn write_command_param(&mut self, command: u8, param: u8) -> (r: Result<(), SPI::BusError>)
        requires
            old(self).wf(),
        ensures
            final(self).wf(),
            final(self)@ == old(self)@,
            final(self).flip() == old(self).flip(),
            final(self).has_cs() == old(self).has_cs(),
            final(self).reset_high() == old(self).reset_high(),
            r is Ok ==> final(self).transmitted() == old(self).transmitted() + cmd_frame(
                command | param,
            ),
            old(self).transmitted().is_prefix_of(final(self).transmitted()),
    {
        let v: u8 = command | param;
        let frame: [u8; 3] = [COMMAND_PREFIX, v & 0xF0, (v << 4) & 0xF0];
        let res = self.spi.write_bytes(frame.as_slice());
        proof {
            assert(frame@ =~= cmd_frame(v));
            if res is Ok {
                lemma_extension_is_prefix(old(self).transmitted(), frame@);
            } else {
                let n = choose|n: int|
                    0 <= n <= frame@.len() && self.spi.transmitted() == old(
                        self,
                    ).spi.transmitted() + frame@.subrange(0, n);
                lemma_extension_is_prefix(old(self).transmitted(), frame@.subrange(0, n));
            }
        }
        res
    }

    /// Transmit the command frame for a bare instruction.
    fn write_command(&mut self, command: u8) -> (r: Result<(), SPI::BusError>)
        requires
            old(self).wf(),
        ensures
            final(self).wf(),
            final(self)@ == old(self)@,
            final(self).flip() == old(self).flip(),
            final(self).has_cs() == old(self).has_cs(),
            final(self).reset_high() == old(self).reset_high(),
            r is Ok ==> final(self).transmitted() == old(self).transmitted() + cmd_frame(command),
            old(self).transmitted().is_prefix_of(final(self).transmitted()),
    {
        proof {
            assert(command | 0 == command) by (bit_vector);
        }
        self.write_command_param(command, 0)
    }

    /// Transmit the data frame carrying buffer byte `data`.
    fn write_data(&mut self, data: u8) -> (r: Result<(), SPI::BusError>)
        requires
            old(self).wf(),
        ensures
            final(self).wf(),
            final(self)@ == old(self)@,
            final(self).flip() == old(self).flip(),
            final(self).has_cs() == old(self).has_cs(),
            final(self).reset_high() == old(self).reset_high(),
            r is Ok ==> final(self).transmitted() == old(self).transmitted() + data_frame(data),
            old(self).transmitted().is_prefix_of(final(self).transmitted()),
    {
        let frame: [u8; 3] = [DATA_PREFIX, data & 0xF0, (data << 4) & 0xF0];
        let res = self.spi.write_bytes(frame.as_slice());
        proof {
            assert(frame@ =~= data_frame(data));
            if res is Ok {
                lemma_extension_is_prefix(old(self).transmitted(), frame@);
            } else {
                let n = choose|n: int|
                    0 <= n <= frame@.len() && self.spi.transmitted() == old(
                        self,
                    ).spi.transmitted() + frame@.subrange(0, n);
                lemma_extension_is_prefix(old(self).transmitted(), frame@.subrange(0, n));
            }
        }
        res
    }

    /// Transmit the data frames for the `count` buffer bytes starting at
    /// byte index `start`.
    #[verifier::loop_isolation(false)]
    fn stream_bytes(&mut self, start: usize, count: usize) -> (r: Result<(), SPI::BusError>)
        requires
            old(self).wf(),
            start + count <= 1024,
        ensures
            final(self).wf(),
            final(self)@ == old(self)@,
            final(self).flip() == old(self).flip(),
            final(self).has_cs() == old(self).has_cs(),
            final(self).reset_high() == old(self).reset_high(),
            r is Ok ==> final(self).transmitted() == old(self).transmitted() + data_seq(
                old(self)@,
                start as int,
                count as int,
            ),
            old(self).transmitted().is_prefix_of(final(self).transmitted()),
    {
        let ghost t0 = old(self).transmitted();
        let ghost buf0 = old(self)@;
        proof {
            lemma_extension_is_prefix(t0, Seq::empty());
            assert(t0 + Seq::<u8>::empty() =~= t0);
        }
        let mut i: usize = 0;
        while i < count
            invariant
                i <= count,
                self.wf(),
                self@ == buf0,
                self.flip() == old(self).flip(),
                self.has_cs() == old(self).has_cs(),
                self.reset_high() == old(self).reset_high(),
                self.transmitted() == t0 + data_seq(buf0, start as int, i as int),
            decreases count - i,
        {
            let ghost pre = self.transmitted();
            let b = self.buffer[start + i];
            match self.write_data(b) {
                Ok(_) => {},
                Err(e) => {
                    proof {
                        lemma_extension_is_prefix(t0, data_seq(buf0, start as int, i as int));
                        lemma_prefix_transitive(t0, pre, self.transmitted());
                    }
                    return Err(e);
                },
            }
            proof {
                assert(self.transmitted() =~= t0 + data_seq(buf0, start as int, i + 1));
            }
            i = i + 1;
        }
        proof {
            lemma_extension_is_prefix(t0, data_seq(buf0, start as int, count as int));
        }
        Ok(())
    }

    /// Flush the whole buffer to the display.
    ///
    /// Walks all 32 row addresses; for each, one addressing step selects
    /// the row at column 0 and the 16 bytes of the top-half row are
    /// streamed, then the 16 bytes of the matching bottom-half row, which
    /// the controller reaches without another addressing step. On success
    /// exactly `flush_full_seq` of the buffer has been transmitted, so the
    /// display matches the buffer everywhere.
    #[verifier::loop_isolation(false)]
    pub fn flush<D: DelaySource>(&mut self, delay: &mut D) -> (r: Result<
        (),
        Error<SPI::BusError, RST::PinError, D::DelayError>,
    >)
        requires
            old(self).wf(),
        ensures
            final(self).wf(),
            final(self)@ == old(self)@,
            final(self).flip() == old(self).flip(),
            final(self).has_cs() == old(self).has_cs(),
            r is Ok ==> final(self).transmitted() == old(self).transmitted() + flush_full_seq(
                old(self)@,
            ),
            old(self).transmitted().is_prefix_of(final(self).transmitted()),
    {
        let ghost t0 = old(self).transmitted();
        let ghost buf0 = old(self)@;
        proof {
            lemma_extension_is_prefix(t0, Seq::empty());
            assert(t0 + Seq::<u8>::empty() =~= t0);
        }
        match self.enable_cs(delay) {
            Ok(_) => {},
            Err(e) => {
                return Err(e);
            },
        }
        let mut y: u8 = 0;
        while y < 32
            invariant
                y <= 32,
                self.wf(),
                self@ == buf0,
                self.flip() == old(self).flip(),
                self.has_cs() == old(self).has_cs(),
                self.transmitted() == t0 + flush_rows_seq(buf0, y as int),
            decreases 32 - y,
        {
            let ghost rows = flush_rows_seq(buf0, y as int);
            let ghost pre1 = self.transmitted();
            match self.set_address(0, y) {
                Ok(_) => {},
                Err(e) => {
                    proof {
                        lemma_extension_is_prefix(t0, rows);
                        lemma_prefix_transitive(t0, pre1, self.transmitted());
                    }
                    return Err(Error::Comm(e));
                },
            }
            let row_start: usize = (y as usize) * ROW_SIZE;
            let ghost pre2 = self.transmitted();
            match self.stream_bytes(row_start, 16) {
                Ok(_) => {},
                Err(e) => {
                    proof {
                        assert(t0 + (rows + addr_seq(0, y)) =~= pre2);
                        lemma_extension_is_prefix(t0, rows + addr_seq(0, y));
                        lemma_prefix_transitive(t0, pre2, self.transmitted());
                    }
                    return Err(Error::Comm(e));
                },
            }
            let ghost d1 = data_seq(buf0, y as int * 16, 16);
            let ghost pre3 = self.transmitted();
            match self.stream_bytes(row_start + 512, 16) {
                Ok(_) => {},
                Err(e) => {
                    proof {
                        assert(t0 + (rows + addr_seq(0, y) + d1) =~= pre3);
                        lemma_extension_is_prefix(t0, rows + addr_seq(0, y) + d1);
                        lemma_prefix_transitive(t0, pre3, self.transmitted());
                    }
                    return Err(Error::Comm(e));
                },
            }
            proof {
                assert(data_seq(buf0, row_start + 512, 16) == data_seq(
                    buf0,
                    (y as int + 32) * 16,
                    16,
                ));
                assert(self.transmitted() =~= t0 + flush_rows_seq(buf0, y as int + 1));
            }
            y = y + 1;
        }
        let ghost pre4 = self.transmitted();
        match self.disable_cs(delay) {
            Ok(_) => {},
            Err(e) => {
                proof {
                    lemma_extension_is_prefix(t0, flush_rows_seq(buf0, 32));
                }
                return Err(e);
            },
        }
        proof {
            lemma_extension_is_prefix(t0, flush_full_seq(buf0));
        }
        Ok(())
    }

    /// Clear the whole display: zero the buffer, then flush it all.
    pub fn clear<D: DelaySource>(&mut self, delay: &mut D) -> (r: Result<
        (),
        Error<SPI::BusError, RST::PinError, D::DelayError>,
    >)
        requires
            old(self).wf(),
        ensures
            final(self).wf(),
            final(self)@ == zero_buffer(),
            final(self).flip() == old(self).flip(),
            final(self).has_cs() == old(self).has_cs(),
            r is Ok ==> final(self).transmitted() == old(self).transmitted() + flush_full_seq(
                zero_buffer(),
            ),
            old(self).transmitted().is_prefix_of(final(self).transmitted()),
    {
        self.clear_buffer();
        self.flush(delay)
    }

    /// Flush a rectangular region of the buffer to the display.
    ///
    /// A rectangle with zero width or height, or whose top-left corner
    /// lies off screen, is a successful no-op that touches no hardware. A
    /// rectangle running past the right or bottom edge is trimmed to the
    /// screen. When the orientation transform is active the whole clamped
    /// rectangle is point-reflected before flushing. The controller can
    /// only address columns in 16-pixel steps, so the horizontal span is
    /// rounded outward to strip boundaries and whole strips are streamed:
    /// never less than the requested area. Each covered row costs one
    /// addressing step plus its strip bytes, as `region_flush_seq` lays
    /// down.
    #[verifier::loop_isolation(false)]
    #[verifier::rlimit(60)]
    pub fn flush_region<D: DelaySource>(
        &mut self,
        x: u8,
        y: u8,
        w: u8,
        h: u8,
        delay: &mut D,
    ) -> (r: Result<(), Error<SPI::BusError, RST::PinError, D::DelayError>>)
        requires
            old(self).wf(),
        ensures
            final(self).wf(),
            final(self)@ == old(self)@,
            final(self).flip() == old(self).flip(),
            final(self).has_cs() == old(self).has_cs(),
            r is Ok ==> final(self).transmitted() == old(self).transmitted() + region_flush_seq(
                old(self)@,
                old(self).flip(),
                x,
                y,
                w,
                h,
            ),
            x >= 128 || y >= 64 || w == 0 || h == 0 ==> r is Ok && *final(self) == *old(self)
                && *final(delay) == *old(delay),
            old(self).transmitted().is_prefix_of(final(self).transmitted()),
    {
        let ghost t0 = old(self).transmitted();
        let ghost buf0 = old(self)@;
        proof {
            lemma_extension_is_prefix(t0, Seq::empty());
            assert(t0 + Seq::<u8>::empty() =~= t0);
        }
        if !(x < 128 && y < 64 && w > 0 && h > 0) {
            return Ok(());
        }
        let cw: u8 = if (x as u16) + (w as u16) > 128 {
            128 - x
        } else {
            w
        };
        let ch: u8 = if (y as u16) + (h as u16) > 64 {
            64 - y
        } else {
            h
        };
        match self.enable_cs(delay) {
            Ok(_) => {},
            Err(e) => {
                return Err(e);
            },
        }
        let ax: u8 = if self.flip {
            128 - (x + cw)
        } else {
            x
        };
        let ay: u8 = if self.flip {
            64 - (y + ch)
        } else {
            y
        };
        let left: u8 = ax - ax % 16;
        let right: u8 = (ax + cw - 1) / 16 * 16 + 16;
        let lb: usize = (left / 8) as usize;
        let rb: usize = (right / 8) as usize;
        proof {
            assert(ax == spec_adj_x(old(self).flip(), x, cw));
            assert(ay == spec_adj_y(old(self).flip(), y, ch));
            assert(lb as int == spec_left(ax) / 8);
            assert(rb as int == spec_right(ax, cw) / 8);
            assert(lb < rb <= 16);
            assert(t0 + region_rows_seq(buf0, ax, ay, 0, lb as int, rb as int) =~= t0);
        }
        let mut r: u8 = 0;
        while r < ch
            invariant
                r <= ch,
                self.wf(),
                self@ == buf0,
                self.flip() == old(self).flip(),
                self.has_cs() == old(self).has_cs(),
                self.transmitted() == t0 + region_rows_seq(
                    buf0,
                    ax,
                    ay,
                    r as int,
                    lb as int,
                    rb as int,
                ),
            decreases ch - r,
        {
            let ghost rows = region_rows_seq(buf0, ax, ay, r as int, lb as int, rb as int);
            let row: u8 = ay + r;
            let ghost pre1 = self.transmitted();
            match self.set_address(ax, row) {
                Ok(_) => {},
                Err(e) => {
                    proof {
                        lemma_extension_is_prefix(t0, rows);
                        lemma_prefix_transitive(t0, pre1, self.transmitted());
                    }
                    return Err(Error::Comm(e));
                },
            }
            let row_start: usize = (row as usize) * ROW_SIZE;
            let ghost pre2 = self.transmitted();
            match self.stream_bytes(row_start + lb, rb - lb) {
                Ok(_) => {},
                Err(e) => {
                    proof {
                        assert(t0 + (rows + addr_seq(ax, row)) =~= pre2);
                        lemma_extension_is_prefix(t0, rows + addr_seq(ax, row));
                        lemma_prefix_transitive(t0, pre2, self.transmitted());
                    }
                    return Err(Error::Comm(e));
                },
            }
            proof {
                assert(self.transmitted() =~= t0 + region_rows_seq(
                    buf0,
                    ax,
                    ay,
                    r as int + 1,
                    lb as int,
                    rb as int,
                ));
            }
            r = r + 1;
        }
        let ghost whole = region_rows_seq(buf0, ax, ay, ch as int, lb as int, rb as int);
        match self.disable_cs(delay) {
            Ok(_) => {},
            Err(e) => {
                proof {
                    lemma_extension_is_prefix(t0, whole);
                }
                return Err(e);
            },
        }
        proof {
            lemma_extension_is_prefix(t0, whole);
            assert(region_flush_seq(buf0, old(self).flip(), x, y, w, h) == whole);
        }
        Ok(())
    }

    /// Flush a rectangle given in the wide signed coordinates a drawing
    /// layer hands out.
    ///
    /// The rectangle is first trimmed to the flush domain — a negative
    /// edge is moved to zero and eats into the extent, and every component
    /// is capped at 255, never wrapped — then flushed as a region.
    pub fn flush_region_graphics<D: DelaySource>(
        &mut self,
        x: i32,
        y: i32,
        w: u32,
        h: u32,
        delay: &mut D,
    ) -> (r: Result<(), Error<SPI::BusError, RST::PinError, D::DelayError>>)
        requires
            old(self).wf(),
        ensures
            final(self).wf(),
            final(self)@ == old(self)@,
            final(self).flip() == old(self).flip(),
            final(self).has_cs() == old(self).has_cs(),
            r is Ok ==> final(self).transmitted() == old(self).transmitted() + region_flush_seq(
                old(self)@,
                old(self).flip(),
                spec_clamped_coord(x),
                spec_clamped_coord(y),
                spec_trimmed_extent(x, w),
                spec_trimmed_extent(y, h),
            ),
            old(self).transmitted().is_prefix_of(final(self).transmitted()),
    {
        let (cx, cy, tw, th) = clamp_region(x, y, w, h);
        self.flush_region(cx, cy, tw, th, delay)
    }

    /// Turn off every pixel of a rectangular buffer region, without
    /// updating the display.
    ///
    /// A rectangle with zero width or height, or whose top-left corner
    /// lies off screen, is a successful no-op; one running past the right
    /// or bottom edge is trimmed to the screen, and the orientation
    /// transform point-reflects the clamped rectangle as a whole, exactly
    /// as in `flush_region`. The clear is pixel-exact: pixels outside the
    /// rectangle keep their value. Nothing is transmitted; only the
    /// chip-select bracket touches hardware, and a failure there leaves
    /// the buffer either untouched or fully cleared.
    #[verifier::loop_isolation(false)]
    #[verifier::rlimit(100)]
    pub fn clear_buffer_region<D: DelaySource>(
        &mut self,
        x: u8,
        y: u8,
        w: u8,
        h: u8,
        delay: &mut D,
    ) -> (r: Result<(), Error<SPI::BusError, RST::PinError, D::DelayError>>)
        requires
            old(self).wf(),
        ensures
            final(self).wf(),
            final(self).flip() == old(self).flip(),
            final(self).has_cs() == old(self).has_cs(),
            final(self).transmitted() == old(self).transmitted(),
            x >= 128 || y >= 64 || w == 0 || h == 0 ==> r is Ok && *final(self) == *old(self)
                && *final(delay) == *old(delay),
            r is Ok && x < 128 && y < 64 && w > 0 && h > 0 ==> rect_cleared(
                old(self)@,
                final(self)@,
                spec_adj_x(old(self).flip(), x, spec_clamped_w(x, w)),
                spec_adj_y(old(self).flip(), y, spec_clamped_h(y, h)),
                spec_clamped_w(x, w),
                spec_clamped_h(y, h),
            ),
            r is Err ==> final(self)@ == old(self)@ || rect_cleared(
                old(self)@,
                final(self)@,
                spec_adj_x(old(self).flip(), x, spec_clamped_w(x, w)),
                spec_adj_y(old(self).flip(), y, spec_clamped_h(y, h)),
                spec_clamped_w(x, w),
                spec_clamped_h(y, h),
            ),
    {
        let ghost buf0 = old(self)@;
        if !(x < 128 && y < 64 && w > 0 && h > 0) {
            return Ok(());
        }
        let cw: u8 = if (x as u16) + (w as u16) > 128 {
            128 - x
        } else {
            w
        };
        let ch: u8 = if (y as u16) + (h as u16) > 64 {
            64 - y
        } else {
            h
        };
        match self.enable_cs(delay) {
            Ok(_) => {},
            Err(e) => {
                return Err(e);
            },
        }
        let ax: u8 = if self.flip {
            128 - (x + cw)
        } else {
            x
        };
        let ay: u8 = if self.flip {
            64 - (y + ch)
        } else {
            y
        };
        proof {
            assert(ax == spec_adj_x(old(self).flip(), x, cw));
            assert(ay == spec_adj_y(old(self).flip(), y, ch));
        }
        let redge: u8 = ax + cw - 1;
        let cbs: u8 = ax / 8;
        let cbe: u8 = redge / 8;
        let mut i: u8 = 0;
        while i < ch
            invariant
                i <= ch,
                self.wf(),
                self@.len() == 1024,
                self.flip() == old(self).flip(),
                self.has_cs() == old(self).has_cs(),
                self.transmitted() == old(self).transmitted(),
                self.reset_high() == old(self).reset_high(),
                forall|c: u8, r2: u8|
                    c < 128 && r2 < 64 ==> #[trigger] pixel_on(self@, c, r2) == (pixel_on(
                        buf0,
                        c,
                        r2,
                    ) && !(in_rect(c, r2, ax, ay, cw, ch) && r2 < ay + i)),
            decreases ch - i,
        {
            let row: u8 = ay + i;
            let row_start: usize = (row as usize) * ROW_SIZE;
            let mut cb: u8 = cbs;
            while cb <= cbe
                invariant
                    cbs <= cb <= cbe + 1,
                    self.wf(),
                    self@.len() == 1024,
                    self.flip() == old(self).flip(),
                    self.has_cs() == old(self).has_cs(),
                    self.transmitted() == old(self).transmitted(),
                    self.reset_high() == old(self).reset_high(),
                    forall|c: u8, r2: u8|
                        c < 128 && r2 < 64 ==> #[trigger] pixel_on(self@, c, r2) == (pixel_on(
                            buf0,
                            c,
                            r2,
                        ) && !((in_rect(c, r2, ax, ay, cw, ch) && r2 < row) || (r2 == row && ax
                            <= c < ax + cw && c / 8 < cb))),
                decreases cbe + 1 - cb,
            {
                let lo: u8 = if ax > cb * 8 {
                    ax - cb * 8
                } else {
                    0
                };
                let hi: u8 = if redge >= cb * 8 + 7 {
                    7
                } else {
                    redge - cb * 8
                };
                let mask: u8 = (0xFFu8 >> lo) & (0xFFu8 << (7 - hi));
                let idx: usize = row_start + cb as usize;
                let b = self.buffer[idx];
                let ghost prev = self@;
                self.buffer.set(idx, b & !mask);
                proof {
                    assert forall|c: u8, r2: u8| c < 128 && r2 < 64 implies #[trigger] pixel_on(
                        self@,
                        c,
                        r2,
                    ) == (pixel_on(buf0, c, r2) && !((in_rect(c, r2, ax, ay, cw, ch) && r2 < row)
                        || (r2 == row && ax <= c < ax + cw && c / 8 < cb + 1))) by {
                        if r2 == row && c / 8 == cb {
                            let j = (c % 8) as u8;
                            lemma_mask_clears_bits(b, lo, hi, j);
                            assert(c == 8 * (c / 8) + c % 8);
                            assert(pixel_on(prev, c, r2) == (b & (0x80u8 >> j) != 0));
                            assert(lo <= j && j <= hi <==> ax <= c < ax + cw);
                        } else {
                            assert(r2 * 16 + c / 8 != row * 16 + cb);
                            assert(pixel_on(self@, c, r2) == pixel_on(prev, c, r2));
                        }
                    }
                }
                cb = cb + 1;
            }
            proof {
                assert forall|c: u8, r2: u8| c < 128 && r2 < 64 implies #[trigger] pixel_on(
                    self@,
                    c,
                    r2,
                ) == (pixel_on(buf0, c, r2) && !(in_rect(c, r2, ax, ay, cw, ch) && r2 < ay + i
                    + 1)) by {
                    if r2 == row && ax <= c < ax + cw {
                        assert(c <= redge);
                        assert(c / 8 <= cbe);
                    }
                }
            }
            i = i + 1;
        }
        match self.disable_cs(delay) {
            Ok(_) => {},
            Err(e) => {
                return Err(e);
            },
        }
        Ok(())
    }

    /// Transmit both addressing command frames that select the strip
    /// holding column `x` of row `y`.
    fn set_address(&mut self, x: u8, y: u8) -> (r: Result<(), SPI::BusError>)
        requires
            old(self).wf(),
            x < 128,
            y < 64,
        ensures
            final(self).wf(),
            final(self)@ == old(self)@,
            final(self).flip() == old(self).flip(),
            final(self).has_cs() == old(self).has_cs(),
            final(self).reset_high() == old(self).reset_high(),
            r is Ok ==> final(self).transmitted() == old(self).transmitted() + addr_seq(x, y),
            old(self).transmitted().is_prefix_of(final(self).transmitted()),
    {
        let (row, col) = compute_address(x, y);
        match self.write_command_param(SET_GRAPHICS_ADDRESS, row) {
            Ok(_) => {},
            Err(e) => {
                return Err(e);
            },
        }
        let ghost t1 = self.transmitted();
        let res = self.write_command_param(SET_GRAPHICS_ADDRESS, col);
        proof {
            if res is Ok {
                assert(self.transmitted() =~= old(self).transmitted() + addr_seq(x, y));
            }
            lemma_prefix_transitive(old(self).transmitted(), t1, self.transmitted());
        }
        res
    }
}

} // verus!
