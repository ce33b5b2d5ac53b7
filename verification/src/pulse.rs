//! The animation clock: pure arithmetic over elapsed time, and nothing else.
//!
//! In-progress markers turn, one glyph per [`FRAME`]. The frames themselves live
//! in `icons`, per tier; this module only answers *which* one, so the tier and
//! the schedule stay independent. Times are whole milliseconds.
//!
//! **This module exists to make the idle-cost guarantee a fact rather than a
//! comment.** It is paid **only while a task is running** -- [`poll_timeout`]
//! returns the untouched [`IDLE_POLL`] otherwise, on the same code path, so an
//! idle store costs exactly what it did before animation existed. And it is
//! opt-out: `animate = false` reaches this function, not merely the drawing, so
//! switching it off restores the old wakeup schedule rather than leaving a fast
//! loop drawing a still glyph.

use vstd::prelude::*;

verus! {

/// The event loop's timeout when nothing is animating. It bounds how long a
/// store change waits to be noticed; it is not a frame rate.
pub const IDLE_POLL: u64 = 100;

/// How long each frame is held.
///
/// The slowest rate that still reads as rotation rather than as a sequence of
/// separate glyphs. It is well under [`IDLE_POLL`], so this genuinely drives the
/// loop rather than merely trimming its last wake.
pub const FRAME: u64 = 80;

/// Which frame of an `n`-frame cycle `elapsed` falls in.
pub open spec fn frame_at(elapsed: int, n: int) -> int {
    if n < 2 {
        0
    } else {
        (elapsed / FRAME as int) % n
    }
}

/// Which frame of an `n`-frame cycle `elapsed` falls in.
///
/// `n == 0` would divide by zero and `n == 1` is a tier with nothing to
/// animate; both answer 0, so callers need no special case.
pub fn frame(elapsed: u64, n: usize) -> (r: usize)
    ensures
        r == frame_at(elapsed as int, n as int),
        n > 0 ==> r < n,
{
    if n < 2 {
        return 0;
    }
    ((elapsed / FRAME) % (n as u64)) as usize
}

/// How long until the frame changes.
pub open spec fn frame_left(elapsed: int) -> int {
    FRAME - elapsed % (FRAME as int)
}

/// How long until the frame changes. Always in `1..=FRAME`, so a clamped
/// timeout can never be zero and spin.
pub fn until_next_frame(elapsed: u64) -> (r: u64)
    ensures
        r == frame_left(elapsed as int),
        1 <= r <= FRAME,
{
    FRAME - elapsed % FRAME
}

/// How long the loop waits for something to happen.
pub open spec fn timeout_at(animating: bool, elapsed: int) -> int {
    if animating && frame_left(elapsed) < IDLE_POLL {
        frame_left(elapsed)
    } else {
        IDLE_POLL as int
    }
}

/// The idle-cost guarantee, in one function.
///
/// `animating` is the caller's answer to "is at least one task in progress, and
/// is animation switched on" -- so turning the pulse off restores the previous
/// wakeup schedule exactly, rather than merely freezing the colour.
pub fn poll_timeout(animating: bool, elapsed: u64) -> (r: u64)
    ensures
        r == timeout_at(animating, elapsed as int),
{
    if animating {
        let next: u64 = until_next_frame(elapsed);
        if next < IDLE_POLL {
            next
        } else {
            IDLE_POLL
        }
    } else {
        IDLE_POLL
    }
}

/// A store with nothing running costs exactly what it did before animation
/// existed; one that is running never waits longer, and never spins.
pub proof fn law_the_idle_cost_is_untouched(elapsed: int)
    ensures
        timeout_at(false, elapsed) == IDLE_POLL,
        0 < timeout_at(true, elapsed) <= IDLE_POLL,
        timeout_at(true, elapsed) == frame_left(elapsed),
{
}

/// A frame holds for its whole window, the next one follows it, and the cycle
/// closes after exactly `n` frames.
pub proof fn law_the_cycle_closes(k: int, into: int, n: int)
    requires
        0 <= k,
        0 <= into < FRAME,
        n >= 2,
    ensures
        frame_at(k * FRAME + into, n) == frame_at(k * FRAME, n),
        frame_at((k + 1) * FRAME, n) == if frame_at(k * FRAME, n) + 1 == n {
            0
        } else {
            frame_at(k * FRAME, n) + 1
        },
        frame_at((k + n) * FRAME, n) == frame_at(k * FRAME, n),
        0 <= frame_at(k * FRAME, n) < n,
        k < n ==> frame_at(k * FRAME, n) == k,
{
    assert((k * 80 + into) / 80 == k);
    assert((k * 80) / 80 == k);
    assert(((k + 1) * 80) / 80 == k + 1);
    assert(((k + n) * 80) / 80 == k + n);
    vstd::arithmetic::div_mod::lemma_mod_add_multiples_vanish(k, n);
    vstd::arithmetic::div_mod::lemma_add_mod_noop(k, 1, n);
    vstd::arithmetic::div_mod::lemma_small_mod(1, n as nat);
    let m = k % n;
    vstd::arithmetic::div_mod::lemma_mod_bound(k, n);
    if m + 1 < n {
        vstd::arithmetic::div_mod::lemma_small_mod((m + 1) as nat, n as nat);
    } else {
        vstd::arithmetic::div_mod::lemma_mod_self_0(n);
    }
    if k < n {
        vstd::arithmetic::div_mod::lemma_small_mod(k as nat, n as nat);
    }
}

/// Waiting out what is left of a frame lands on the next one.
pub proof fn law_a_wake_lands_on_the_next_frame(elapsed: int)
    requires
        0 <= elapsed,
    ensures
        (elapsed + frame_left(elapsed)) / (FRAME as int) == elapsed / (FRAME as int) + 1,
{
}

/// The spinner starts at its first frame, stays on each for one hold, and then
/// goes on to the next, round and round.
pub proof fn law_the_spinner_turns_one_frame_at_a_time(elapsed: int, into: int, n: int)
    requires
        0 <= elapsed,
        elapsed % 80 == 0,
        0 <= into < 80,
        n >= 2,
    ensures
        frame_at(0, n) == 0,
        frame_at(elapsed + into, n) == frame_at(elapsed, n),
        frame_at(elapsed + 80, n) == if frame_at(elapsed, n) + 1 == n {
            0
        } else {
            frame_at(elapsed, n) + 1
        },
{
    assert(0int % n == 0) by (nonlinear_arith)
        requires
            n >= 2,
    ;
    let k = elapsed / 80;
    assert((elapsed + into) / 80 == k);
    assert((elapsed + 80) / 80 == k + 1);
    assert((k + 1) % n == if k % n + 1 == n {
        0
    } else {
        k % n + 1
    }) by (nonlinear_arith)
        requires
            n >= 2,
            k >= 0,
    ;
}

} // verus!
