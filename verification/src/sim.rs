//! In-memory implementations of the hardware interfaces.
//!
//! `RecordingBus` keeps every transmitted byte so a test can compare the
//! protocol stream against the expected frames byte for byte; the failing
//! variants of bus, pin and delay reject every request, which exercises the
//! driver's abort-on-first-failure paths.

use vstd::prelude::*;

use crate::bus::{DelaySource, OutPin, SerialBus};

verus! {

/// A transmitter that records every byte it is handed and never fails.
pub struct RecordingBus {
    bytes: Vec<u8>,
}

impl RecordingBus {
    /// An empty recorder.
    pub fn new() -> (r: RecordingBus)
        ensures
            r.transmitted() == Seq::<u8>::empty(),
    {
        RecordingBus { bytes: Vec::new() }
    }

    /// The recorded bytes, oldest first.
    pub fn bytes(&self) -> (r: &Vec<u8>)
        ensures
            r@ == self.transmitted(),
    {
        &self.bytes
    }
}

impl SerialBus for RecordingBus {
    type BusError = ();

    closed spec fn transmitted(&self) -> Seq<u8> {
        self.bytes@
    }

    fn write_bytes(&mut self, data: &[u8]) -> (r: Result<(), ()>) {
        let ghost t0 = self.bytes@;
        let mut i: usize = 0;
        while i < data.len()
            invariant
                i <= data@.len(),
                self.bytes@ == t0 + data@.subrange(0, i as int),
            decreases data@.len() - i,
        {
            self.bytes.push(data[i]);
            assert(data@.subrange(0, i + 1) =~= data@.subrange(0, i as int).push(data@[i as int]));
            i = i + 1;
        }
        assert(data@.subrange(0, data@.len() as int) =~= data@);
        Ok(())
    }
}

/// A transmitter that rejects every transfer and transmits nothing.
pub struct FailingBus {
}

impl FailingBus {
    /// A bus on which every write fails.
    pub fn new() -> (r: FailingBus)
        ensures
            r.transmitted() == Seq::<u8>::empty(),
    {
        FailingBus {  }
    }
}

impl SerialBus for FailingBus {
    type BusError = ();

    closed spec fn transmitted(&self) -> Seq<u8> {
        Seq::empty()
    }

    fn write_bytes(&mut self, data: &[u8]) -> (r: Result<(), ()>) {
        assert(self.transmitted() =~= old(self).transmitted() + data@.subrange(0, 0));
        Err(())
    }
}

/// A pin that records the level it is driven to and never fails.
pub struct RecordingPin {
    high: bool,
}

impl RecordingPin {
    /// A pin initially driven low.
    pub fn new() -> (r: RecordingPin)
        ensures
            !r.pin_high(),
    {
        RecordingPin { high: false }
    }

    /// Whether the pin is currently driven high.
    pub fn is_high(&self) -> (r: bool)
        ensures
            r == self.pin_high(),
    {
        self.high
    }
}

impl OutPin for RecordingPin {
    type PinError = ();

    closed spec fn pin_high(&self) -> bool {
        self.high
    }

    fn set_high(&mut self) -> (r: Result<(), ()>) {
        self.high = true;
        Ok(())
    }

    fn set_low(&mut self) -> (r: Result<(), ()>) {
        self.high = false;
        Ok(())
    }
}

/// A pin that cannot be driven.
pub struct FailingPin {
}

impl FailingPin {
    /// A pin on which every drive attempt fails.
    pub fn new() -> (r: FailingPin) {
        FailingPin {  }
    }
}

impl OutPin for FailingPin {
    type PinError = ();

    closed spec fn pin_high(&self) -> bool {
        false
    }

    fn set_high(&mut self) -> (r: Result<(), ()>) {
        Err(())
    }

    fn set_low(&mut self) -> (r: Result<(), ()>) {
        Err(())
    }
}

/// A delay source that only counts the microseconds it was asked to wait.
pub struct CountingDelay {
    total_us: u64,
}

impl CountingDelay {
    /// A delay source with no time served yet.
    pub fn new() -> (r: CountingDelay)
        ensures
            r.elapsed_us() == 0,
    {
        CountingDelay { total_us: 0 }
    }

    /// Total microseconds of waits served so far.
    pub fn total_us(&self) -> (r: u64)
        ensures
            r == self.elapsed_us(),
    {
        self.total_us
    }
}

impl DelaySource for CountingDelay {
    type DelayError = ();

    closed spec fn elapsed_us(&self) -> nat {
        self.total_us as nat
    }

    fn delay_us(&mut self, us: u32) -> (r: Result<(), ()>) {
        if us as u64 <= u64::MAX - self.total_us {
            self.total_us = self.total_us + us as u64;
            Ok(())
        } else {
            Err(())
        }
    }
}

/// A delay source whose every wait fails.
pub struct FailingDelay {
}

impl FailingDelay {
    /// A delay source on which every wait fails.
    pub fn new() -> (r: FailingDelay) {
        FailingDelay {  }
    }
}

impl DelaySource for FailingDelay {
    type DelayError = ();

    closed spec fn elapsed_us(&self) -> nat {
        0
    }

    fn delay_us(&mut self, us: u32) -> (r: Result<(), ()>) {
        Err(())
    }
}

} // verus!
