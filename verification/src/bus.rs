//! Capability interfaces for the hardware collaborators the driver needs:
//! a write-only byte-sequence transmitter, a digital output pin, and a
//! blocking delay source.
//!
//! The driver is generic over these three interfaces. An adapter over a
//! real serial peripheral implements them outside the verified library;
//! recording implementations inside it (see the `sim` module) let the
//! transmitted protocol be inspected and tested.

use vstd::prelude::*;

verus! {

/// A write-only byte-sequence transmitter.
///
/// `transmitted()` is the abstraction of the device: the sequence of every
/// byte accepted so far, in order. A successful write appends exactly the
/// bytes handed to it; a failed write may leave any prefix of them
/// transmitted, since the transfer can be torn mid-frame.
pub trait SerialBus: Sized {
    /// Error raised when a transfer is rejected or fails.
    type BusError;

    /// All bytes transmitted so far, oldest first. The default abstraction
    /// carries no information; an implementation inside the library
    /// overrides it so contracts can speak of the recorded stream.
    open spec fn transmitted(&self) -> Seq<u8> {
        Seq::empty()
    }

    /// Transmit `data`, blocking until the transfer completes.
    fn write_bytes(&mut self, data: &[u8]) -> (r: Result<(), Self::BusError>)
        ensures
            r is Ok ==> final(self).transmitted() == old(self).transmitted() + data@,
            r is Err ==> exists|n: int|
                0 <= n <= data@.len() && final(self).transmitted() == old(self).transmitted()
                    + data@.subrange(0, n),
    ;
}

/// A digital output pin.
///
/// `pin_high()` abstracts the driven level. A successful call leaves the
/// pin at the requested level; a failed call leaves it unconstrained.
pub trait OutPin: Sized {
    /// Error raised when the output cannot be driven.
    type PinError;

    /// Whether the pin is currently driven high. The default abstraction
    /// carries no information; an implementation inside the library
    /// overrides it.
    open spec fn pin_high(&self) -> bool {
        false
    }

    /// Drive the pin high.
    fn set_high(&mut self) -> (r: Result<(), Self::PinError>)
        ensures
            r is Ok ==> final(self).pin_high(),
    ;

    /// Drive the pin low.
    fn set_low(&mut self) -> (r: Result<(), Self::PinError>)
        ensures
            r is Ok ==> !final(self).pin_high(),
    ;
}

/// A blocking delay source with microsecond granularity.
///
/// `elapsed_us()` is the total time the source has been asked to wait, in
/// microseconds; a successful call adds exactly the requested wait to it,
/// so a caller's contract can state the settle delays it observed.
pub trait DelaySource: Sized {
    /// Error raised when the timing subsystem fails.
    type DelayError;

    /// Total microseconds of blocking waits served so far. The default
    /// abstraction carries no information; an implementation inside the
    /// library overrides it.
    open spec fn elapsed_us(&self) -> nat {
        0
    }

    /// Block for at least `us` microseconds.
    fn delay_us(&mut self, us: u32) -> (r: Result<(), Self::DelayError>)
        ensures
            r is Ok ==> final(self).elapsed_us() == old(self).elapsed_us() + us,
    ;
}

} // verus!
