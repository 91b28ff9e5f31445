//! When a capture ends: the application sends as many empty buffers in a row as there are
//! buffers.

use vstd::prelude::*;

verus! {

/// The state of a capture, as far as the end of the capture depends on it.
pub trait CaptureLoopState: Sized {
    /// What there is to the state besides the number of empty buffers.
    type Capture;

    /// The state without the number of empty buffers.
    spec fn capture(&self) -> Self::Capture;

    /// The number of empty buffers received.
    spec fn end_messages(&self) -> nat;

    /// returns the number of empty buffers received
    fn get_end_message_count(&self) -> (count: usize)
        ensures
            count == self.end_messages(),
    ;

    /// resets the counter of empty buffers to zero
    fn reset_end_message_count(&mut self)
        ensures
            final(self).end_messages() == 0,
            final(self).capture() == old(self).capture(),
    ;
}

/// Whether a capture goes on.
#[derive(Debug, Clone, Copy, PartialEq, Eq, Structural)]
pub enum LoopDecision {
    Continue,
    Finished,
}

/// The counters of a capture loop: the empty buffers counted after the last buffer but one,
/// and those counted now.
#[verifier::ext_equal]
pub struct LoopModel {
    pub last: nat,
    pub count: nat,
    pub decision: LoopDecision,
}

/// The counters before the first buffer.
pub open spec fn loop_start() -> LoopModel {
    LoopModel { last: 0, count: 0, decision: LoopDecision::Continue }
}

/// Decides after a buffer, with `count` empty buffers counted.
pub open spec fn loop_step(last: nat, count: nat, buffer_count: nat) -> LoopModel {
    if count == buffer_count {
        LoopModel { last, count, decision: LoopDecision::Finished }
    } else if last == count {
        // only count consecutive messages
        LoopModel { last: 0, count: 0, decision: LoopDecision::Continue }
    } else {
        LoopModel { last: count, count, decision: LoopDecision::Continue }
    }
}

/// The bookkeeping of a capture loop.
pub struct CaptureLoopCounter {
    last_end_msg_count: usize,
}

impl View for CaptureLoopCounter {
    type V = nat;

    closed spec fn view(&self) -> nat {
        self.last_end_msg_count as nat
    }
}

impl CaptureLoopCounter {
    /// The bookkeeping before the first buffer.
    pub fn new() -> (r: Self)
        ensures
            r@ == 0,
    {
        CaptureLoopCounter { last_end_msg_count: 0 }
    }

    /// Takes note of a processed buffer: the capture is finished when as many empty buffers
    /// came in a row as there are buffers.
    pub fn after_buffer<S: CaptureLoopState>(
        &mut self,
        state: &mut S,
        buffer_count: usize,
    ) -> (decision: LoopDecision)
        ensures
            ({
                let next = loop_step(old(self)@, old(state).end_messages(), buffer_count as nat);
                &&& decision == next.decision
                &&& final(self)@ == next.last
                &&& final(state).end_messages() == next.count
            }),
            final(state).capture() == old(state).capture(),
    {
        let count = state.get_end_message_count();
        if count == buffer_count {
            LoopDecision::Finished
        } else if self.last_end_msg_count == count {
            state.reset_end_message_count();
            self.last_end_msg_count = 0;
            LoopDecision::Continue
        } else {
            self.last_end_msg_count = count;
            LoopDecision::Continue
        }
    }
}

/// The counters after buffers of which each is empty or not, for a capture that counts each
/// empty one.
pub open spec fn loop_run(buffer_count: nat, empty: Seq<bool>) -> LoopModel
    decreases empty.len(),
{
    if empty.len() == 0 {
        loop_start()
    } else {
        let before = loop_run(buffer_count, empty.drop_last());
        let count = if empty.last() {
            before.count + 1
        } else {
            before.count
        };
        loop_step(before.last, count, buffer_count)
    }
}

/// How many empty buffers there are at the end.
pub open spec fn trailing_empty(empty: Seq<bool>) -> nat
    decreases empty.len(),
{
    if empty.len() == 0 || !empty.last() {
        0
    } else {
        trailing_empty(empty.drop_last()) + 1
    }
}

/// A capture that has not ended before ends with the buffer that completes a row of as many
/// empty ones as there are buffers, and with no other.
pub proof fn law_loop_ends_after_a_round_of_empty_buffers(buffer_count: nat, empty: Seq<bool>)
    requires
        buffer_count >= 1,
        forall|k: int|
            0 <= k < empty.len() ==> trailing_empty(#[trigger] empty.take(k)) < buffer_count,
    ensures
        loop_run(buffer_count, empty).decision is Finished <==> trailing_empty(empty)
            == buffer_count,
        loop_run(buffer_count, empty).decision is Continue ==> loop_run(buffer_count, empty).count
            == trailing_empty(empty) && loop_run(buffer_count, empty).last == trailing_empty(empty),
    decreases empty.len(),
{
    if empty.len() > 0 {
        let before = empty.drop_last();
        assert(before =~= empty.take(empty.len() - 1));
        assert forall|k: int| 0 <= k < before.len() implies trailing_empty(
            #[trigger] before.take(k),
        ) < buffer_count by {
            assert(before.take(k) =~= empty.take(k));
        }
        law_loop_ends_after_a_round_of_empty_buffers(buffer_count, before);
    }
}

} // verus!
