//! Sliding-window replay protection over 64-bit sequence numbers.
//!
//! The window remembers the highest sequence number accepted so far and, in
//! a 128-bit bitmap, which of the 127 numbers below it were accepted too.
use vstd::prelude::*;

verus! {

/// Width of the replay window: a number this far or further below the
/// highest one accepted is refused as too old.
pub const WINDOW_SIZE: u64 = 128;

/// Why a sequence number was refused.
#[derive(Debug, Clone, Copy, PartialEq, Eq, Structural)]
pub enum ReplayError {
    TooOld,
    Replayed,
}

pub open spec fn replay_error_text(e: ReplayError) -> Seq<char> {
    match e {
        ReplayError::TooOld => "Packet sequence number is too old"@,
        ReplayError::Replayed => "Packet sequence number already received (replay detected)"@,
    }
}

impl ReplayError {
    /// The error as a sentence for people.
    pub fn message(&self) -> (r: &'static str)
        ensures
            r@ == replay_error_text(*self),
    {
        match self {
            ReplayError::TooOld => "Packet sequence number is too old",
            ReplayError::Replayed => "Packet sequence number already received (replay detected)",
        }
    }
}

/// Bit `i` of `bitmap`, counted from the least significant bit.
pub open spec fn bit_set(bitmap: u128, i: u64) -> bool {
    (bitmap >> i) & 1u128 == 1u128
}

/// What a window knows: whether it has seen anything, the highest number
/// accepted, and the accepted numbers that are still inside the window.
#[verifier::ext_equal]
pub struct WindowModel {
    pub initialized: bool,
    pub last: u64,
    pub seen: Set<u64>,
}

/// A window that has accepted nothing yet.
pub open spec fn empty_window() -> WindowModel {
    WindowModel { initialized: false, last: 0, seen: Set::empty() }
}

/// The window refuses `seq`: it is at or below the highest number accepted
/// and either too far below it or already accepted.
pub open spec fn rejects(w: WindowModel, seq: u64) -> bool {
    &&& w.initialized
    &&& seq <= w.last
    &&& (w.last - seq >= WINDOW_SIZE || w.seen.contains(seq))
}

/// One call of `check_and_update`: the window after it and the answer.
pub open spec fn window_step(w: WindowModel, seq: u64) -> (WindowModel, Result<(), ReplayError>) {
    if !w.initialized {
        (WindowModel { initialized: true, last: seq, seen: set![seq] }, Ok(()))
    } else if seq > w.last {
        (
            WindowModel {
                initialized: true,
                last: seq,
                seen: w.seen.filter(|x: u64| seq - x < WINDOW_SIZE).insert(seq),
            },
            Ok(()),
        )
    } else if w.last - seq >= WINDOW_SIZE {
        (w, Err(ReplayError::TooOld))
    } else if w.seen.contains(seq) {
        (w, Err(ReplayError::Replayed))
    } else {
        (WindowModel { initialized: true, last: w.last, seen: w.seen.insert(seq) }, Ok(()))
    }
}

/// The window after a run of calls, one per element of `seqs`, in order.
pub open spec fn window_run(w: WindowModel, seqs: Seq<u64>) -> WindowModel
    decreases seqs.len(),
{
    if seqs.len() == 0 {
        w
    } else {
        window_step(window_run(w, seqs.drop_last()), seqs.last()).0
    }
}

#[derive(Debug, Clone)]
pub struct ReplayWindow {
    last_seq: u64,
    bitmap: u128,
    initialized: bool,
}

impl View for ReplayWindow {
    type V = WindowModel;

    closed spec fn view(&self) -> WindowModel {
        WindowModel {
            initialized: self.initialized,
            last: self.last_seq,
            seen: Set::new(
                |s: u64|
                    self.initialized && s <= self.last_seq && self.last_seq - s < WINDOW_SIZE
                        && bit_set(self.bitmap, (self.last_seq - s) as u64),
            ),
        }
    }
}

proof fn lemma_bit_of_one(i: u64)
    requires
        i < 128,
    ensures
        bit_set(1u128, i) == (i == 0),
{
    assert(((1u128 >> i) & 1u128 == 1u128) == (i == 0)) by (bit_vector)
        requires
            i < 128,
    ;
}

proof fn lemma_bit_after_advance(b: u128, d: u64, i: u64)
    requires
        1 <= d < 128,
        i < 128,
    ensures
        bit_set((b << d) | 1u128, i) == (i == 0 || (i >= d && bit_set(b, (i - d) as u64))),
{
    assert(((((b << d) | 1u128) >> i) & 1u128 == 1u128) == (i == 0 || (i >= d && ((b >> ((i
        - d) as u64)) & 1u128 == 1u128)))) by (bit_vector)
        requires
            1 <= d < 128,
            i < 128,
    ;
}

proof fn lemma_bit_mask(b: u128, d: u64, i: u64)
    requires
        d < 128,
        i < 128,
    ensures
        ((b & (1u128 << d)) != 0) == bit_set(b, d),
        bit_set(b | (1u128 << d), i) == (i == d || bit_set(b, i)),
{
    assert(((b & (1u128 << d)) != 0) == ((b >> d) & 1u128 == 1u128)) by (bit_vector)
        requires
            d < 128,
    ;
    assert((((b | (1u128 << d)) >> i) & 1u128 == 1u128) == (i == d || ((b >> i) & 1u128
        == 1u128))) by (bit_vector)
        requires
            d < 128,
            i < 128,
    ;
}

impl ReplayWindow {
    pub fn new() -> (w: Self)
        ensures
            w@ == empty_window(),
    {
        let w = Self { last_seq: 0, bitmap: 0, initialized: false };
        assert(w@.seen =~= Set::<u64>::empty());
        w
    }

    /// Forgets everything: the window accepts any number next.
    pub fn reset(&mut self)
        ensures
            final(self)@ == empty_window(),
    {
        self.last_seq = 0;
        self.bitmap = 0;
        self.initialized = false;
        assert(self@.seen =~= Set::<u64>::empty());
    }

    /// Accepts `seq` and records it, or refuses it as too old or replayed
    /// and leaves the window as it was.
    pub fn check_and_update(&mut self, seq: u64) -> (r: Result<(), ReplayError>)
        ensures
            final(self)@ == window_step(old(self)@, seq).0,
            r == window_step(old(self)@, seq).1,
            r is Err <==> rejects(old(self)@, seq),
    {
        let ghost w = self@;
        if !self.initialized {
            self.initialized = true;
            self.last_seq = seq;
            self.bitmap = 1;
            assert forall|s: u64| self@.seen.contains(s) <==> s == seq by {
                if s <= seq && seq - s < WINDOW_SIZE {
                    lemma_bit_of_one((seq - s) as u64);
                }
            }
            assert(self@ =~= window_step(w, seq).0);
            return Ok(());
        }
        if seq > self.last_seq {
            let diff = seq - self.last_seq;
            let ghost old_bitmap = self.bitmap;
            let ghost old_last = self.last_seq;
            if diff < 128 {
                self.bitmap = (self.bitmap << diff) | 1;
            } else {
                self.bitmap = 1;
            }
            self.last_seq = seq;
            assert forall|s: u64|
                self@.seen.contains(s) <==> window_step(w, seq).0.seen.contains(s) by {
                if s <= seq && seq - s < WINDOW_SIZE {
                    let i = (seq - s) as u64;
                    if diff < 128 {
                        lemma_bit_after_advance(old_bitmap, diff, i);
                        if i >= diff {
                            assert((i - diff) as u64 == (old_last - s) as u64);
                        }
                    } else {
                        lemma_bit_of_one(i);
                    }
                }
            }
            assert(self@ =~= window_step(w, seq).0);
            Ok(())
        } else {
            let diff = self.last_seq - seq;
            if diff >= 128 {
                return Err(ReplayError::TooOld);
            }
            let mask = 1u128 << diff;
            let ghost old_bitmap = self.bitmap;
            proof {
                lemma_bit_mask(old_bitmap, diff, 0);
            }
            if (self.bitmap & mask) != 0 {
                return Err(ReplayError::Replayed);
            }
            self.bitmap = self.bitmap | mask;
            assert forall|s: u64|
                self@.seen.contains(s) <==> window_step(w, seq).0.seen.contains(s) by {
                if s <= self.last_seq && self.last_seq - s < WINDOW_SIZE {
                    lemma_bit_mask(old_bitmap, diff, (self.last_seq - s) as u64);
                }
            }
            assert(self@ =~= window_step(w, seq).0);
            Ok(())
        }
    }
}

impl Default for ReplayWindow {
    fn default() -> (w: Self)
        ensures
            w@ == empty_window(),
    {
        Self::new()
    }
}

/// A refused number is refused exactly when `rejects` says so.
pub proof fn lemma_step_refuses_exactly(w: WindowModel, seq: u64)
    ensures
        window_step(w, seq).1 is Err <==> rejects(w, seq),
{
}

/// Once a number has been accepted, the window refuses it.
pub proof fn lemma_accepted_then_refused(w: WindowModel, seq: u64)
    requires
        window_step(w, seq).1 is Ok,
    ensures
        rejects(window_step(w, seq).0, seq),
{
}

/// A number that the window refuses stays refused whatever number comes next.
pub proof fn lemma_refusal_persists(w: WindowModel, s: u64, t: u64)
    requires
        rejects(w, s),
    ensures
        rejects(window_step(w, t).0, s),
{
}

/// Replay protection: a number accepted once is refused after any run of
/// further calls (with no reset in between).
pub proof fn lemma_never_accepted_twice(w: WindowModel, seq: u64, later: Seq<u64>)
    requires
        window_step(w, seq).1 is Ok,
    ensures
        window_step(window_run(window_step(w, seq).0, later), seq).1 is Err,
    decreases later.len(),
{
    if later.len() == 0 {
        lemma_accepted_then_refused(w, seq);
    } else {
        lemma_never_accepted_twice(w, seq, later.drop_last());
        lemma_refusal_persists(window_run(window_step(w, seq).0, later.drop_last()), seq, later.last());
    }
}

/// The numbers accepted during a run of calls on a window that starts as
/// `w`, one call per element of `seqs`, in order.
pub open spec fn accepted_in_run(w: WindowModel, seqs: Seq<u64>) -> Set<u64>
    decreases seqs.len(),
{
    if seqs.len() == 0 {
        Set::empty()
    } else {
        let before = accepted_in_run(w, seqs.drop_last());
        if window_step(window_run(w, seqs.drop_last()), seqs.last()).1 is Ok {
            before.insert(seqs.last())
        } else {
            before
        }
    }
}

/// `m` is the highest number of `h`.
pub open spec fn is_highest(h: Set<u64>, m: u64) -> bool {
    h.contains(m) && forall|s: u64| h.contains(s) ==> s <= m
}

/// The answer owed to `seq` by a window whose accepted numbers are `h`,
/// with `m` the highest of them.
pub open spec fn history_answer(h: Set<u64>, m: u64, seq: u64) -> Result<(), ReplayError> {
    if seq > m || (m - seq < WINDOW_SIZE && !h.contains(seq)) {
        Ok(())
    } else if m - seq >= WINDOW_SIZE {
        Err(ReplayError::TooOld)
    } else {
        Err(ReplayError::Replayed)
    }
}

/// What the window after a run from empty holds, in terms of the numbers
/// accepted so far.
pub open spec fn window_matches_history(w: WindowModel, h: Set<u64>) -> bool {
    &&& (w.initialized <==> !h.is_empty())
    &&& w.initialized ==> is_highest(h, w.last)
    &&& forall|s: u64| #[trigger] w.seen.contains(s) <==> (h.contains(s) && w.last - s < WINDOW_SIZE)
}

proof fn lemma_history_step(w: WindowModel, h: Set<u64>, seq: u64)
    requires
        window_matches_history(w, h),
    ensures
        window_matches_history(
            window_step(w, seq).0,
            if window_step(w, seq).1 is Ok { h.insert(seq) } else { h },
        ),
{
    let w2 = window_step(w, seq).0;
    let h2 = if window_step(w, seq).1 is Ok { h.insert(seq) } else { h };
    if !w.initialized {
        assert(h =~= Set::<u64>::empty());
    }
    assert forall|s: u64| #[trigger] w2.seen.contains(s) <==> (h2.contains(s) && w2.last - s < WINDOW_SIZE) by {
        if w.initialized && w.seen.contains(s) {
            assert(h.contains(s));
        }
    }
}

/// The window after any run of calls from empty (a new or reset window)
/// holds exactly what the accepted numbers say: it has started once a
/// number was accepted, its highest number is the highest accepted, and it
/// remembers the accepted numbers less than the window size below that.
pub proof fn lemma_window_is_history(seqs: Seq<u64>)
    ensures
        window_matches_history(window_run(empty_window(), seqs), accepted_in_run(empty_window(), seqs)),
    decreases seqs.len(),
{
    if seqs.len() == 0 {
        assert(accepted_in_run(empty_window(), seqs) =~= Set::<u64>::empty());
    } else {
        lemma_window_is_history(seqs.drop_last());
        lemma_history_step(
            window_run(empty_window(), seqs.drop_last()),
            accepted_in_run(empty_window(), seqs.drop_last()),
            seqs.last(),
        );
    }
}

/// After any run of calls from a new or reset window, the next call with
/// `seq` is answered from the numbers accepted so far alone: accepted when
/// none was, or `seq` is above the highest, or within the window size below
/// it and not accepted before; `TooOld` when at or more than the window size
/// below the highest; `Replayed` when within it and accepted before.
pub proof fn lemma_answer_from_history(seqs: Seq<u64>, seq: u64)
    ensures
        accepted_in_run(empty_window(), seqs).is_empty() ==> window_step(
            window_run(empty_window(), seqs),
            seq,
        ).1 is Ok,
        !accepted_in_run(empty_window(), seqs).is_empty() ==> exists|m: u64|
            is_highest(accepted_in_run(empty_window(), seqs), m),
        forall|m: u64|
            #[trigger] is_highest(accepted_in_run(empty_window(), seqs), m) ==> window_step(
                window_run(empty_window(), seqs),
                seq,
            ).1 == history_answer(accepted_in_run(empty_window(), seqs), m, seq),
{
    let w = window_run(empty_window(), seqs);
    let h = accepted_in_run(empty_window(), seqs);
    lemma_window_is_history(seqs);
    if !h.is_empty() {
        assert(is_highest(h, w.last));
    }
    assert forall|m: u64| #[trigger] is_highest(h, m) implies window_step(w, seq).1 == history_answer(h, m, seq) by {
        assert(m <= w.last && w.last <= m);
        assert(w.seen.contains(seq) <==> (h.contains(seq) && w.last - seq < WINDOW_SIZE));
    }
}

} // verus!
