//! Small answers wait in a buffer, so that many of them go out in one write.
use vstd::prelude::*;

verus! {

/// Answers up to this size may wait.
pub const COALESCED_RESPONSE_BYTES: usize = 4096;

/// What is to be written, in this order.
#[derive(Debug)]
pub enum WritePlan {
    Nothing,
    /// The answers that waited.
    Waiting(Vec<u8>),
    /// The answers that waited, then the one at hand.
    WaitingAndResponse(Vec<u8>),
    /// The answer at hand.
    Response,
}

/// The bytes that a plan writes for the answer at hand.
pub open spec fn planned(plan: WritePlan, response: Seq<u8>) -> Seq<u8> {
    match plan {
        WritePlan::Nothing => Seq::empty(),
        WritePlan::Waiting(bytes) => bytes@,
        WritePlan::WaitingAndResponse(bytes) => bytes@ + response,
        WritePlan::Response => response,
    }
}

/// Answers that wait to be written, at most so many bytes of them.
#[derive(Debug)]
pub struct PendingWrite {
    pub waiting: Vec<u8>,
    pub capacity: usize,
}

impl PendingWrite {
    pub open spec fn wf(&self) -> bool {
        self.capacity >= 1 && self.waiting@.len() <= self.capacity
    }

    pub fn new(capacity: usize) -> (pending: PendingWrite)
        ensures
            pending.wf(),
            pending.waiting@ == Seq::<u8>::empty(),
            pending.capacity == (if capacity == 0 {
                1
            } else {
                capacity as int
            }),
    {
        PendingWrite {
            waiting: Vec::new(),
            capacity: if capacity == 0 {
                1
            } else {
                capacity
            },
        }
    }

    fn take(&mut self) -> (waiting: Vec<u8>)
        requires
            old(self).wf(),
        ensures
            final(self).wf(),
            final(self).capacity == old(self).capacity,
            final(self).waiting@ == Seq::<u8>::empty(),
            waiting@ == old(self).waiting@,
    {
        let mut waiting: Vec<u8> = Vec::new();
        std::mem::swap(&mut self.waiting, &mut waiting);
        waiting
    }

    /// An answer that waits where there is room for it. It goes out at once where it never has
    /// room; where the others leave none, they go out first.
    pub fn push(&mut self, response: &[u8]) -> (plan: WritePlan)
        requires
            old(self).wf(),
        ensures
            final(self).wf(),
            final(self).capacity == old(self).capacity,
            old(self).waiting@ + response@ == planned(plan, response@) + final(self).waiting@,
            response@.len() > old(self).capacity ==> final(self).waiting@ == Seq::<u8>::empty()
                && (if old(self).waiting@.len() == 0 {
                plan is Response
            } else {
                plan is WaitingAndResponse
            }),
            response@.len() <= old(self).capacity ==> {
                if old(self).waiting@.len() + response@.len() > old(self).capacity {
                    plan is Waiting && final(self).waiting@ == response@
                } else {
                    plan is Nothing && final(self).waiting@ == old(self).waiting@ + response@
                }
            },
    {
        if response.len() > self.capacity {
            return self.write_with_response(response);
        }
        if self.waiting.len() > self.capacity - response.len() {
            let waiting: Vec<u8> = self.take();
            self.waiting.extend_from_slice(response);
            assert(self.waiting@ =~= response@);
            WritePlan::Waiting(waiting)
        } else {
            self.waiting.extend_from_slice(response);
            assert(Seq::<u8>::empty() + self.waiting@ =~= self.waiting@);
            WritePlan::Nothing
        }
    }

    /// The answers that wait go out, and the one at hand behind them.
    pub fn write_with_response(&mut self, response: &[u8]) -> (plan: WritePlan)
        requires
            old(self).wf(),
        ensures
            final(self).wf(),
            final(self).capacity == old(self).capacity,
            final(self).waiting@ == Seq::<u8>::empty(),
            planned(plan, response@) == old(self).waiting@ + response@,
            if old(self).waiting@.len() == 0 {
                plan is Response
            } else {
                plan is WaitingAndResponse
            },
    {
        if self.waiting.len() == 0 {
            assert(self.waiting@ + response@ =~= response@);
            assert(self.waiting@ =~= Seq::<u8>::empty());
            return WritePlan::Response;
        }
        let waiting: Vec<u8> = self.take();
        WritePlan::WaitingAndResponse(waiting)
    }

    /// The answers that wait go out.
    pub fn flush(&mut self) -> (plan: WritePlan)
        requires
            old(self).wf(),
        ensures
            final(self).wf(),
            final(self).capacity == old(self).capacity,
            final(self).waiting@ == Seq::<u8>::empty(),
            planned(plan, Seq::empty()) == old(self).waiting@,
            if old(self).waiting@.len() == 0 {
                plan is Nothing
            } else {
                plan is Waiting
            },
    {
        if self.waiting.len() == 0 {
            assert(self.waiting@ =~= Seq::<u8>::empty());
            return WritePlan::Nothing;
        }
        let waiting: Vec<u8> = self.take();
        WritePlan::Waiting(waiting)
    }

    /// An answer of the session: small ones may wait.
    pub fn write_response(&mut self, response: &[u8]) -> (plan: WritePlan)
        requires
            old(self).wf(),
        ensures
            final(self).wf(),
            final(self).capacity == old(self).capacity,
            old(self).waiting@ + response@ == planned(plan, response@) + final(self).waiting@,
            response@.len() > COALESCED_RESPONSE_BYTES || response@.len() > old(self).capacity
                ==> final(self).waiting@ == Seq::<u8>::empty() && (if old(self).waiting@.len() == 0 {
                plan is Response
            } else {
                plan is WaitingAndResponse
            }),
            response@.len() <= COALESCED_RESPONSE_BYTES && response@.len() <= old(self).capacity
                ==> {
                if old(self).waiting@.len() + response@.len() > old(self).capacity {
                    plan is Waiting && final(self).waiting@ == response@
                } else {
                    plan is Nothing && final(self).waiting@ == old(self).waiting@ + response@
                }
            },
    {
        if response.len() <= COALESCED_RESPONSE_BYTES {
            return self.push(response);
        }
        let plan: WritePlan = self.write_with_response(response);
        assert(planned(plan, response@) + Seq::<u8>::empty() =~= planned(plan, response@));
        plan
    }
}

/// The bytes of some answers, one behind the other.
pub open spec fn joined(parts: Seq<Seq<u8>>) -> Seq<u8>
    decreases parts.len(),
{
    if parts.len() == 0 {
        Seq::empty()
    } else {
        joined(parts.drop_last()) + parts.last()
    }
}

/// The plans of a session write its answers in order and lose none: what was written, then what
/// waits, is all the answers, where each step keeps its promise.
pub proof fn law_answers_stay_in_order(
    responses: Seq<Seq<u8>>,
    written: Seq<Seq<u8>>,
    waiting: Seq<Seq<u8>>,
)
    requires
        written.len() == responses.len(),
        waiting.len() == responses.len() + 1,
        waiting[0] == Seq::<u8>::empty(),
        forall|i: int|
            #![trigger responses[i]]
            0 <= i < responses.len() ==> waiting[i] + responses[i] == written[i] + waiting[i + 1],
    ensures
        joined(written) + waiting.last() == joined(responses),
    decreases responses.len(),
{
    if responses.len() == 0 {
        assert(joined(written) + waiting.last() =~= joined(responses));
    } else {
        let last = responses.len() - 1;
        let fewer = responses.drop_last();
        assert forall|i: int| #![trigger fewer[i]] 0 <= i < fewer.len() implies waiting.drop_last()[i]
            + fewer[i] == written.drop_last()[i] + waiting.drop_last()[i + 1] by {
            assert(fewer[i] == responses[i]);
        }
        law_answers_stay_in_order(fewer, written.drop_last(), waiting.drop_last());
        assert(waiting[last] + responses[last] == written[last] + waiting[last + 1]);
        assert(waiting.drop_last().last() == waiting[last]);
        assert(joined(written) + waiting.last() =~= joined(written.drop_last()) + (written.last()
            + waiting.last()));
        assert(joined(written.drop_last()) + (waiting[last] + responses[last]) =~= (joined(
            written.drop_last(),
        ) + waiting[last]) + responses.last());
    }
}

} // verus!
