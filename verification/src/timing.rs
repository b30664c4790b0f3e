//! The dual-clock timing coordinator: an instruction clock firing once per
//! configured period and a frame clock firing at a fixed 60 Hz cadence,
//! compared independently against the same monotonic time at every poll.
//!
//! The host loop supplies the time and performs the work; this module
//! decides which clocks fire.

use vstd::prelude::*;

verus! {

/// Microseconds per frame-clock tick: the fixed 60 Hz cadence.
pub const FRAME_US: u64 = 16666;

/// The coordinator's state: the configured instruction period and each
/// clock's last-fired timestamp, in microseconds of monotonic time.
#[derive(Clone, Copy, PartialEq, Eq, Structural, Debug)]
pub struct Timing {
    /// Microseconds per instruction-clock tick.
    pub tick_us: u64,
    /// When the frame clock last fired.
    pub last_frame: u64,
    /// When the instruction clock last fired.
    pub last_instr: u64,
}

/// Whether the frame clock has matured at `now`: a full frame period has
/// elapsed since it last fired. Depends on nothing but the frame clock's
/// own stamp.
pub open spec fn frame_due(t: Timing, now: u64) -> bool {
    now >= t.last_frame + FRAME_US
}

/// Whether the instruction clock has matured at `now`.
pub open spec fn instr_due(t: Timing, now: u64) -> bool {
    now >= t.last_instr + t.tick_us
}

impl Timing {
    /// A coordinator whose clocks both start counting at `now`.
    pub fn new(tick_us: u64, now: u64) -> (t: Timing)
        ensures
            t.tick_us == tick_us,
            t.last_frame == now,
            t.last_instr == now,
    {
        Timing { tick_us, last_frame: now, last_instr: now }
    }

    /// One scheduling poll at monotonic time `now`: reports whether each
    /// clock has matured and advances the last-fired stamp of each clock
    /// that did. The two clocks are compared independently — neither
    /// result depends on the other clock's stamp or rate.
    pub fn poll(&mut self, now: u64) -> (fired: (bool, bool))
        requires
            old(self).last_frame <= now,
            old(self).last_instr <= now,
        ensures
            fired.0 == frame_due(*old(self), now),
            fired.1 == instr_due(*old(self), now),
            final(self).tick_us == old(self).tick_us,
            final(self).last_frame == (if fired.0 {
                now
            } else {
                old(self).last_frame
            }),
            final(self).last_instr == (if fired.1 {
                now
            } else {
                old(self).last_instr
            }),
    {
        let frame = now - self.last_frame >= FRAME_US;
        if frame {
            self.last_frame = now;
        }
        let instr = now - self.last_instr >= self.tick_us;
        if instr {
            self.last_instr = now;
        }
        (frame, instr)
    }
}

/// Law: the frame clock fires at its fixed cadence regardless of the
/// instruction-clock rate — whether a poll fires the frame clock depends
/// only on the frame clock's own stamp, never on `tick_us` or on the
/// instruction clock's stamp. Timer decrements therefore stay at 60 Hz
/// however slow or fast the instruction clock is configured.
pub proof fn lemma_frame_clock_independent(a: Timing, b: Timing, now: u64)
    requires
        a.last_frame == b.last_frame,
    ensures
        frame_due(a, now) == frame_due(b, now),
{
}

} // verus!
