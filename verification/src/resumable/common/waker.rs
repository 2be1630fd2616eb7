//! The park/wake state machine that every waker of the library drives.
//!
//! The state is one word. Its two low bits hold one of four phases, the rest
//! of the word is carried along untouched; bit 63 is the sticky "a clone of
//! this waker exists" hint. Each function below is one atomic transition of
//! that word: whoever keeps the word in shared memory applies the function to
//! the value it read and installs the result with a compare-and-swap.
use vstd::prelude::*;

verus! {

/// No poll session is active.
pub const IDLE: u64 = 0;

/// The task is being polled.
pub const POLLING: u64 = 1;

/// The task is suspended and waits for a wake.
pub const PARKED: u64 = 2;

/// A wake arrived while the task was being polled.
pub const NOTIFIED: u64 = 3;

/// Set by the first clone of a waker; no park and no wake clears it.
pub const EVER_SHARED: u64 = 0x8000_0000_0000_0000;

/// The bits of the word that hold the phase.
pub const STATE_MASK: u64 = 3;

/// What a wake did to the task.
#[derive(Clone, Copy, PartialEq, Eq, Structural, Debug)]
pub enum WakeOutcome {
    /// The task was running: it has been told to poll again.
    SetNotified,
    /// The task was parked: the caller now owns its continuation.
    ClaimedParked,
    /// The task was already notified, or its session is over.
    NoOp,
}

/// The phase held by a word.
pub open spec fn phase(word: u64) -> u64 {
    word % 4
}

/// The word with its phase replaced by `s`, every other bit as it was.
pub open spec fn with_phase(word: u64, s: u64) -> u64 {
    (word - word % 4 + s) as u64
}

/// The sticky clone hint.
pub open spec fn ever_shared(word: u64) -> bool {
    word >= EVER_SHARED
}

proof fn lemma_phase_bits(word: u64, s: u64)
    requires
        s < 4,
    ensures
        word & STATE_MASK == phase(word),
        (word & !STATE_MASK) | s == with_phase(word, s),
        phase(with_phase(word, s)) == s,
        word - word % 4 + s <= u64::MAX,
{
    assert(word & 3 == word % 4) by (bit_vector);
    assert((word & !3u64) | s == word - word % 4 + s) by (bit_vector)
        requires
            s < 4,
    ;
    assert((word - word % 4 + s) % 4 == s) by (bit_vector)
        requires
            s < 4,
    ;
    assert(word - word % 4 + s <= u64::MAX) by (bit_vector)
        requires
            s < 4,
    ;
}

/// Begins a poll session.
pub fn mark_polling(state: &mut u64)
    ensures
        *final(state) == POLLING,
{
    *state = POLLING;
}

/// Ends a poll session: wakes that arrive later change nothing.
pub fn mark_idle(state: &mut u64)
    ensures
        *final(state) == IDLE,
{
    *state = IDLE;
}

/// The word after a park attempt.
pub open spec fn after_park(word: u64) -> u64 {
    if phase(word) == NOTIFIED {
        with_phase(word, POLLING)
    } else {
        with_phase(word, PARKED)
    }
}

/// Whether a park attempt commits.
pub open spec fn park_commits(word: u64) -> bool {
    phase(word) != NOTIFIED
}

/// The commit decision of a suspension: park, or, when a wake raced in during
/// the poll, cancel so that the caller polls again at once.
pub fn decide_park(state: &mut u64) -> (parked: bool)
    ensures
        parked == park_commits(*old(state)),
        *final(state) == after_park(*old(state)),
{
    let refs: u64 = *state;
    let s: u64 = refs & STATE_MASK;
    proof {
        lemma_phase_bits(refs, POLLING);
        lemma_phase_bits(refs, PARKED);
    }
    if s == NOTIFIED {
        *state = (refs & !STATE_MASK) | POLLING;
        false
    } else {
        *state = (refs & !STATE_MASK) | PARKED;
        true
    }
}

/// The transition after a poll that returned pending: park, or claim another
/// poll when a wake raced in.
pub fn park_after_poll(state: &mut u64) -> (parked: bool)
    ensures
        parked == park_commits(*old(state)),
        *final(state) == after_park(*old(state)),
{
    decide_park(state)
}

/// The word after a wake.
pub open spec fn after_wake(word: u64) -> u64 {
    if phase(word) == POLLING {
        with_phase(word, NOTIFIED)
    } else if phase(word) == PARKED {
        with_phase(word, POLLING)
    } else {
        word
    }
}

/// What a wake reports.
pub open spec fn wake_outcome(word: u64) -> WakeOutcome {
    if phase(word) == POLLING {
        WakeOutcome::SetNotified
    } else if phase(word) == PARKED {
        WakeOutcome::ClaimedParked
    } else {
        WakeOutcome::NoOp
    }
}

/// The transition of a wake.
pub fn try_wake_state(state: &mut u64) -> (outcome: WakeOutcome)
    ensures
        outcome == wake_outcome(*old(state)),
        *final(state) == after_wake(*old(state)),
{
    let refs: u64 = *state;
    let s: u64 = refs & STATE_MASK;
    proof {
        lemma_phase_bits(refs, POLLING);
        lemma_phase_bits(refs, NOTIFIED);
    }
    if s == POLLING {
        *state = (refs & !STATE_MASK) | NOTIFIED;
        WakeOutcome::SetNotified
    } else if s == PARKED {
        *state = (refs & !STATE_MASK) | POLLING;
        WakeOutcome::ClaimedParked
    } else {
        WakeOutcome::NoOp
    }
}

/// The word once a clone of the waker exists: the hint is set, every other bit
/// is as it was.
pub open spec fn after_share(word: u64) -> u64 {
    if ever_shared(word) {
        word
    } else {
        (word + EVER_SHARED) as u64
    }
}

/// Records that a clone of the waker exists.
pub fn transition_to_shared(state: &mut u64)
    ensures
        *final(state) == after_share(*old(state)),
        ever_shared(*final(state)),
        phase(*final(state)) == phase(*old(state)),
{
    let word: u64 = *state;
    assert(word >= 0x8000_0000_0000_0000 ==> word | 0x8000_0000_0000_0000 == word) by (bit_vector);
    assert(word < 0x8000_0000_0000_0000 ==> word | 0x8000_0000_0000_0000 == word
        + 0x8000_0000_0000_0000) by (bit_vector);
    *state = word | EVER_SHARED;
}

/// Whether a clone of the waker exists.
pub fn is_ever_shared(state: u64) -> (shared: bool)
    ensures
        shared == ever_shared(state),
{
    assert(state & 0x8000_0000_0000_0000 != 0 <==> state >= 0x8000_0000_0000_0000)
        by (bit_vector);
    state & EVER_SHARED != 0
}

/// A step of a poll session, by the task itself or by anyone who wakes it.
pub enum SessionStep {
    /// The task attempts to park.
    Park,
    /// Somebody wakes the task.
    Wake,
}

/// The word after one step.
pub open spec fn after_step(word: u64, step: SessionStep) -> u64 {
    match step {
        SessionStep::Park => after_park(word),
        SessionStep::Wake => after_wake(word),
    }
}

/// The word after a sequence of steps.
pub open spec fn after_steps(word: u64, steps: Seq<SessionStep>) -> u64
    decreases steps.len(),
{
    if steps.len() == 0 {
        word
    } else {
        after_step(after_steps(word, steps.drop_last()), steps.last())
    }
}

/// The steps a session can take: only a task that runs attempts to park.
pub open spec fn is_session(word: u64, steps: Seq<SessionStep>) -> bool
    decreases steps.len(),
{
    if steps.len() == 0 {
        phase(word) != IDLE
    } else {
        &&& is_session(word, steps.drop_last())
        &&& steps.last() is Park ==> phase(after_steps(word, steps.drop_last())) != PARKED
    }
}

/// How many of the park attempts committed.
pub open spec fn parks(word: u64, steps: Seq<SessionStep>) -> nat
    decreases steps.len(),
{
    if steps.len() == 0 {
        0
    } else {
        let before = after_steps(word, steps.drop_last());
        parks(word, steps.drop_last()) + if steps.last() is Park && park_commits(before) {
            1nat
        } else {
            0nat
        }
    }
}

/// How many of the wakes reported `outcome`.
pub open spec fn wakes(word: u64, steps: Seq<SessionStep>, outcome: WakeOutcome) -> nat
    decreases steps.len(),
{
    if steps.len() == 0 {
        0
    } else {
        let before = after_steps(word, steps.drop_last());
        wakes(word, steps.drop_last(), outcome) + if steps.last() is Wake && wake_outcome(before)
            == outcome {
            1nat
        } else {
            0nat
        }
    }
}

/// How many of the park attempts were cancelled by an earlier wake.
pub open spec fn cancels(word: u64, steps: Seq<SessionStep>) -> nat
    decreases steps.len(),
{
    if steps.len() == 0 {
        0
    } else {
        let before = after_steps(word, steps.drop_last());
        cancels(word, steps.drop_last()) + if steps.last() is Park && !park_commits(before) {
            1nat
        } else {
            0nat
        }
    }
}

/// Every committed park is claimed by exactly one wake, or still waits for
/// one; and every notification cancels exactly one park attempt, or is still
/// pending. So however wakes and park attempts interleave, no continuation is
/// handed out twice and none is left behind.
pub proof fn law_parks_and_wakes_balance(word: u64, steps: Seq<SessionStep>)
    requires
        phase(word) == POLLING,
        is_session(word, steps),
    ensures
        parks(word, steps) == wakes(word, steps, WakeOutcome::ClaimedParked) + (if phase(
            after_steps(word, steps),
        ) == PARKED {
            1nat
        } else {
            0nat
        }),
        wakes(word, steps, WakeOutcome::SetNotified) == cancels(word, steps) + (if phase(
            after_steps(word, steps),
        ) == NOTIFIED {
            1nat
        } else {
            0nat
        }),
        phase(after_steps(word, steps)) != IDLE,
    decreases steps.len(),
{
    if steps.len() != 0 {
        law_parks_and_wakes_balance(word, steps.drop_last());
        let before = after_steps(word, steps.drop_last());
        lemma_phase_bits(before, POLLING);
        lemma_phase_bits(before, PARKED);
        lemma_phase_bits(before, NOTIFIED);
    }
}

/// No wake is lost: inside a session a wake either claims the parked task, or
/// leaves a notification behind, and then, whatever further wakes arrive, the
/// next park attempt does not commit.
pub proof fn law_no_lost_wakeup(word: u64, later: Seq<SessionStep>)
    requires
        phase(word) != IDLE,
        forall|i: int| 0 <= i < later.len() ==> #[trigger] later[i] is Wake,
    ensures
        wake_outcome(word) == WakeOutcome::ClaimedParked || !park_commits(
            after_steps(after_wake(word), later),
        ),
    decreases later.len(),
{
    lemma_phase_bits(word, NOTIFIED);
    if later.len() != 0 {
        assert(later.last() is Wake);
        let earlier = later.drop_last();
        assert forall|i: int| 0 <= i < earlier.len() implies #[trigger] earlier[i] is Wake by {
            assert(later[i] is Wake);
        }
        law_no_lost_wakeup(word, later.drop_last());
    }
}

/// What a wake and a park attempt do, told by the phase alone. A wake makes of a
/// task that is polled one that is notified, and of a parked task one that is
/// polled, which the waker owns; every other word it leaves. A park attempt of a
/// notified task makes it polled again and does not commit; any other commits
/// and leaves the task parked. A clone leaves its mark in the highest bit alone.
pub proof fn law_wakes_by_phase(word: u64)
    ensures
        word % 4 == 1 ==> after_wake(word) == word + 2 && wake_outcome(word)
            == WakeOutcome::SetNotified,
        word % 4 == 2 ==> after_wake(word) == word - 1 && wake_outcome(word)
            == WakeOutcome::ClaimedParked,
        word % 4 == 0 || word % 4 == 3 ==> after_wake(word) == word && wake_outcome(word)
            == WakeOutcome::NoOp,
        word % 4 == 3 ==> after_park(word) == word - 2 && !park_commits(word),
        word % 4 != 3 ==> after_park(word) == word - word % 4 + 2 && park_commits(word),
        word < 0x8000_0000_0000_0000 ==> after_share(word) == word + 0x8000_0000_0000_0000
            && !ever_shared(word),
        word >= 0x8000_0000_0000_0000 ==> after_share(word) == word && ever_shared(word),
{
    lemma_phase_bits(word, POLLING);
    lemma_phase_bits(word, PARKED);
    lemma_phase_bits(word, NOTIFIED);
}

/// Outside a session a wake changes nothing.
pub proof fn law_stale_wake_is_ignored(word: u64)
    requires
        phase(word) == IDLE,
    ensures
        after_wake(word) == word,
        wake_outcome(word) == WakeOutcome::NoOp,
{
}

/// The clone hint, like every bit above the phase, survives all steps.
pub proof fn law_steps_keep_upper_bits(word: u64, steps: Seq<SessionStep>)
    ensures
        after_steps(word, steps) / 4 == word / 4,
        ever_shared(after_steps(word, steps)) == ever_shared(word),
    decreases steps.len(),
{
    if steps.len() != 0 {
        law_steps_keep_upper_bits(word, steps.drop_last());
        let before = after_steps(word, steps.drop_last());
        lemma_phase_bits(before, POLLING);
        lemma_phase_bits(before, PARKED);
        lemma_phase_bits(before, NOTIFIED);
    }
}

} // verus!
