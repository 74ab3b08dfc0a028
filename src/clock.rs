//! Frame-advance playback driven by elapsed time.

use vstd::prelude::*;

verus! {

/// Microseconds in one second.
pub const MICROS_PER_SECOND: u64 = 1_000_000;

/// Playback state: the frame shown, whether it plays, its rate in frames per
/// second, and the time gathered since the last advance, in microseconds.
#[derive(Clone, Copy, Debug, PartialEq, Eq, Structural)]
pub struct AnimationClock {
    pub fps: u32,
    pub playing: bool,
    pub accumulated_us: u64,
    pub current_frame: usize,
}

/// The clock after `dt_us` microseconds with `frame_count` frames. It moves
/// only while playing at a positive rate over at least one frame; once the
/// gathered time exceeds one frame's duration the frame advances, wrapping
/// to the first, and the gathered time starts again from zero.
pub open spec fn tick_spec(c: AnimationClock, dt_us: u64, frame_count: usize) -> AnimationClock {
    if !c.playing || c.fps == 0 || frame_count == 0 {
        c
    } else {
        let acc: u64 = if c.accumulated_us + dt_us > u64::MAX {
            u64::MAX
        } else {
            (c.accumulated_us + dt_us) as u64
        };
        if acc * c.fps > MICROS_PER_SECOND {
            AnimationClock {
                accumulated_us: 0,
                current_frame: ((c.current_frame + 1) % (frame_count as int)) as usize,
                ..c
            }
        } else {
            AnimationClock { accumulated_us: acc, ..c }
        }
    }
}

/// The clock after a run of ticks, first to last.
pub open spec fn ticks_spec(c: AnimationClock, dts: Seq<u64>, frame_count: usize) -> AnimationClock
    decreases dts.len(),
{
    if dts.len() == 0 {
        c
    } else {
        tick_spec(ticks_spec(c, dts.drop_last(), frame_count), dts.last(), frame_count)
    }
}

/// A clock at a rate of zero never leaves its frame, however many ticks
/// pass.
pub proof fn lemma_zero_fps_never_advances(c: AnimationClock, dts: Seq<u64>, frame_count: usize)
    requires
        c.fps == 0,
    ensures
        ticks_spec(c, dts, frame_count) == c,
    decreases dts.len(),
{
    if dts.len() > 0 {
        lemma_zero_fps_never_advances(c, dts.drop_last(), frame_count);
    }
}

proof fn lemma_succ_mod(i: int, n: int)
    requires
        0 <= i,
        n > 0,
    ensures
        (i + 1) % n == if i % n == n - 1 {
            0
        } else {
            i % n + 1
        },
{
    let q = i / n;
    let r = i % n;
    assert(i == q * n + r && 0 <= r < n) by (nonlinear_arith)
        requires
            n > 0,
            q == i / n,
            r == i % n,
    ;
    if r == n - 1 {
        assert(i + 1 == (q + 1) * n + 0) by (nonlinear_arith)
            requires
                i == q * n + r,
                r == n - 1,
        ;
        vstd::arithmetic::div_mod::lemma_fundamental_div_mod_converse(i + 1, n, q + 1, 0);
    } else {
        vstd::arithmetic::div_mod::lemma_fundamental_div_mod_converse(i + 1, n, q, r + 1);
    }
}

impl AnimationClock {
    /// A stopped clock at frame 0.
    pub fn new(fps: u32) -> (c: AnimationClock)
        ensures
            c == (AnimationClock { fps, playing: false, accumulated_us: 0, current_frame: 0 }),
    {
        AnimationClock { fps, playing: false, accumulated_us: 0, current_frame: 0 }
    }

    /// Starts or stops playback; stopping keeps the current frame.
    pub fn set_playing(&mut self, playing: bool)
        ensures
            *final(self) == (AnimationClock { playing, ..*old(self) }),
    {
        self.playing = playing;
    }

    /// Advances the clock by `dt_us` microseconds over `frame_count` frames.
    pub fn tick(&mut self, dt_us: u64, frame_count: usize)
        ensures
            *final(self) == tick_spec(*old(self), dt_us, frame_count),
    {
        if !self.playing || self.fps == 0 || frame_count == 0 {
            return;
        }
        let acc: u64 = if self.accumulated_us > u64::MAX - dt_us {
            u64::MAX
        } else {
            self.accumulated_us + dt_us
        };
        let a = acc as u128;
        let f = self.fps as u128;
        proof {
            assert(a * f <= u64::MAX as int * u32::MAX as int) by (nonlinear_arith)
                requires
                    a <= u64::MAX,
                    f <= u32::MAX,
            ;
        }
        if a * f > MICROS_PER_SECOND as u128 {
            self.accumulated_us = 0;
            // `(current_frame + 1) % frame_count`, written so that the
            // successor of `usize::MAX` does not overflow
            let r = self.current_frame % frame_count;
            if r == frame_count - 1 {
                self.current_frame = 0;
            } else {
                self.current_frame = r + 1;
            }
            proof {
                lemma_succ_mod(old(self).current_frame as int, frame_count as int);
            }
        } else {
            self.accumulated_us = acc;
        }
    }
}

} // verus!
