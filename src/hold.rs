//! The decisions of an envelope follower: when a new peak is captured, how
//! long it is held, and whether the envelope freezes, attacks or releases.
//!
//! The caller compares its magnitudes and performs the arithmetic; this module
//! decides, from the outcome of those comparisons, what the follower does.

use vstd::prelude::*;

verus! {

/// What the envelope does on one call.
#[derive(Clone, Copy, Debug, PartialEq, Eq, Structural)]
pub enum Motion {
    /// The envelope is set to the held peak.
    Freeze,
    /// The envelope moves toward the input with the attack coefficient.
    Attack,
    /// The envelope moves toward the input with the release coefficient.
    Release,
}

/// The outcome of one call of the follower.
#[derive(Clone, Copy, Debug, PartialEq, Eq, Structural)]
pub struct Step {
    /// The input becomes the held peak before the envelope moves.
    pub capture: bool,
    pub motion: Motion,
}

/// Number of calls left in the hold window after a call that saw `new_peak`
/// (an input above the held peak), starting from `count`.
pub open spec fn next_count(count: nat, new_peak: bool, hold_len: nat) -> nat {
    if new_peak {
        hold_len
    } else if count > 0 {
        (count - 1) as nat
    } else {
        0
    }
}

/// The envelope's motion once the hold window has `count` calls left;
/// `rising` tells whether the input lies above the envelope.
pub open spec fn motion_for(count: nat, rising: bool) -> Motion {
    if count > 0 {
        Motion::Freeze
    } else if rising {
        Motion::Attack
    } else {
        Motion::Release
    }
}

/// The hold window left after a run of calls, `peaks[k]` telling whether
/// call `k` brought a new peak.
pub open spec fn count_after(count: nat, peaks: Seq<bool>, hold_len: nat) -> nat
    decreases peaks.len(),
{
    if peaks.len() == 0 {
        count
    } else {
        next_count(count_after(count, peaks.drop_last(), hold_len), peaks.last(), hold_len)
    }
}

/// The hold window of an envelope follower: how many more calls the held peak
/// stays frozen.
pub struct HoldCounter {
    count: usize,
}

impl View for HoldCounter {
    type V = nat;

    closed spec fn view(&self) -> nat {
        self.count as nat
    }
}

impl HoldCounter {
    /// A follower that holds nothing yet.
    pub fn new() -> (r: Self)
        ensures
            r@ == 0,
    {
        HoldCounter { count: 0 }
    }

    /// Calls left in the hold window.
    pub fn remaining(&self) -> (r: usize)
        ensures
            r == self@,
    {
        self.count
    }

    /// One call of the follower. `new_peak`: the input lies above the held
    /// peak; `rising`: it lies above the envelope; `hold_len`: the hold window,
    /// in calls, at the current refresh rate.
    pub fn step(&mut self, new_peak: bool, rising: bool, hold_len: usize) -> (r: Step)
        ensures
            final(self)@ == next_count(old(self)@, new_peak, hold_len as nat),
            r.capture == new_peak,
            r.motion == motion_for(final(self)@, rising),
    {
        if new_peak {
            self.count = hold_len;
        } else if self.count > 0 {
            self.count = self.count - 1;
        }
        let motion = if self.count > 0 {
            Motion::Freeze
        } else if rising {
            Motion::Attack
        } else {
            Motion::Release
        };
        Step { capture: new_peak, motion }
    }
}

/// While no new peak comes, the hold window shrinks by one call per call
/// until it is spent, whatever the inputs are: the envelope stays frozen at
/// the held peak on every call that leaves some of the window.
pub proof fn lemma_hold_counts_down(count: nat, peaks: Seq<bool>, hold_len: nat)
    requires
        forall|k: int| 0 <= k < peaks.len() ==> !peaks[k],
    ensures
        count_after(count, peaks, hold_len) == (if peaks.len() < count {
            (count - peaks.len()) as nat
        } else {
            0
        }),
    decreases peaks.len(),
{
    if peaks.len() > 0 {
        lemma_hold_counts_down(count, peaks.drop_last(), hold_len);
    }
}

/// A new peak followed by calls that bring none freezes the envelope on
/// exactly the first `hold_len` of those calls, the capturing one included.
pub proof fn lemma_hold_window(count: nat, peaks: Seq<bool>, hold_len: nat)
    requires
        peaks.len() > 0,
        peaks[0],
        forall|k: int| 1 <= k < peaks.len() ==> !peaks[k],
    ensures
        count_after(count, peaks, hold_len) == (if peaks.len() <= hold_len {
            (hold_len - (peaks.len() - 1)) as nat
        } else {
            0
        }),
        count_after(count, peaks, hold_len) > 0 <==> peaks.len() <= hold_len,
        motion_for(count_after(count, peaks, hold_len), true) == Motion::Freeze
            <==> peaks.len() <= hold_len,
    decreases peaks.len(),
{
    let rest = peaks.drop_last();
    if peaks.len() > 1 {
        assert(rest[0]);
        assert(forall|k: int| 1 <= k < rest.len() ==> rest[k] == peaks[k]);
        lemma_hold_window(count, rest, hold_len);
        assert(!peaks.last());
    } else {
        assert(count_after(count, rest, hold_len) == count);
        assert(peaks.last());
    }
}

/// With a hold time of zero calls a follower that starts out empty never
/// freezes: it only attacks and releases.
pub proof fn lemma_no_hold_time(peaks: Seq<bool>)
    ensures
        count_after(0, peaks, 0) == 0,
    decreases peaks.len(),
{
    if peaks.len() > 0 {
        lemma_no_hold_time(peaks.drop_last());
    }
}

} // verus!
