//! The provisioning job: one per relay parent.
//!
//! A job collects what could go into a block and answers requests for inherent data. For a while
//! after it has started it holds requests back, so that there is something to answer them with.
//!
//! The job itself neither waits nor sends. [`ProvisioningJob::handle`] takes what has happened and
//! says what is to be done.

use vstd::prelude::*;

use crate::hash::H256;
use crate::inherent::{InherentAssembly, InherentView};
use crate::primitives::{
    bitfield_views, CandidateReceipt, ProvisionableData, ProvisionerMessage,
    SignedAvailabilityBitfield, SignedBitfieldView,
};

verus! {

/// How long to wait before proposing, in milliseconds.
pub const PRE_PROPOSE_TIMEOUT_MILLIS: u64 = 2000;

/// When requests for inherent data are answered.
#[derive(Clone, Copy, Debug, PartialEq, Eq, Structural)]
pub enum InherentAfter {
    /// At once.
    Ready,
    /// Once this many milliseconds have passed since the start of the job.
    Wait(u64),
}

impl InherentAfter {
    /// The state of a job that starts now.
    pub fn new_from_now() -> (after: Self)
        ensures
            after == InherentAfter::Wait(PRE_PROPOSE_TIMEOUT_MILLIS),
    {
        InherentAfter::Wait(PRE_PROPOSE_TIMEOUT_MILLIS)
    }

    /// Whether requests are answered at once.
    pub fn is_ready(&self) -> (ready: bool)
        ensures
            ready == (self is Ready),
    {
        match *self {
            InherentAfter::Ready => true,
            InherentAfter::Wait(_) => false,
        }
    }

    /// Ends the wait.
    pub fn ready(&mut self)
        ensures
            *final(self) is Ready,
    {
        *self = InherentAfter::Ready;
    }
}

/// Something that has happened to a job. `R` stands for where the answer to a request goes.
#[derive(Debug)]
pub enum JobEvent<R> {
    /// A message has come in.
    Message(ProvisionerMessage<R>),
    /// The wait before proposing is over.
    TimeoutElapsed,
    /// No further message will come in.
    MessagesEnded,
}

/// What is to be done after something has happened to a job.
#[derive(Debug)]
pub enum JobAction<R> {
    /// Wait for what happens next.
    Continue,
    /// Assemble inherent data and send it to each of these, which are not none.
    SendInherentData(Vec<R>),
    /// End the job.
    Stop,
}

/// What is to be done after something has happened to a job.
pub enum JobActionView<R> {
    Continue,
    SendInherentData(Seq<R>),
    Stop,
}

impl<R> View for JobAction<R> {
    type V = JobActionView<R>;

    open spec fn view(&self) -> JobActionView<R> {
        match *self {
            JobAction::Continue => JobActionView::Continue,
            JobAction::SendInherentData(receivers) => JobActionView::SendInherentData(receivers@),
            JobAction::Stop => JobActionView::Stop,
        }
    }
}

/// The state of a job.
pub struct JobView<R> {
    pub relay_parent: H256,
    pub backed_candidates: Seq<CandidateReceipt>,
    pub signed_bitfields: Seq<SignedBitfieldView>,
    pub inherent_after: InherentAfter,
    pub awaiting_inherent: Seq<R>,
}

impl<R> JobView<R> {
    /// The state of a job at its start.
    pub open spec fn initial(relay_parent: H256) -> Self {
        JobView {
            relay_parent,
            backed_candidates: Seq::empty(),
            signed_bitfields: Seq::empty(),
            inherent_after: InherentAfter::Wait(PRE_PROPOSE_TIMEOUT_MILLIS),
            awaiting_inherent: Seq::empty(),
        }
    }

    /// What every job keeps to: a job that answers at once holds no request back.
    pub open spec fn wf(self) -> bool {
        self.inherent_after is Ready ==> self.awaiting_inherent.len() == 0
    }

    /// The state after something that could go into a block has been noted.
    pub open spec fn noted(self, data: ProvisionableData) -> Self {
        match data {
            ProvisionableData::Bitfield(_, signed_bitfield) => JobView {
                signed_bitfields: self.signed_bitfields.push(signed_bitfield@),
                ..self
            },
            ProvisionableData::BackedCandidate(backed_candidate) => JobView {
                backed_candidates: self.backed_candidates.push(backed_candidate),
                ..self
            },
            _ => self,
        }
    }

    /// The state after an event, and what is to be done.
    pub open spec fn handled(self, event: JobEvent<R>) -> (Self, JobActionView<R>) {
        match event {
            JobEvent::Message(ProvisionerMessage::RequestInherentData(_, receiver)) => {
                if self.inherent_after is Ready {
                    (self, JobActionView::SendInherentData(seq![receiver]))
                } else {
                    (
                        JobView {
                            awaiting_inherent: self.awaiting_inherent.push(receiver),
                            ..self
                        },
                        JobActionView::Continue,
                    )
                }
            },
            JobEvent::Message(ProvisionerMessage::ProvisionableData(_, data)) => (
                self.noted(data),
                JobActionView::Continue,
            ),
            JobEvent::TimeoutElapsed => (
                JobView {
                    inherent_after: InherentAfter::Ready,
                    awaiting_inherent: Seq::empty(),
                    ..self
                },
                if self.awaiting_inherent.len() > 0 {
                    JobActionView::SendInherentData(self.awaiting_inherent)
                } else {
                    JobActionView::Continue
                },
            ),
            JobEvent::MessagesEnded => (self, JobActionView::Stop),
        }
    }
}

/// A per-relay-parent job for the provisioning subsystem. `R` stands for where the answer to a
/// request for inherent data goes.
#[derive(Debug)]
pub struct ProvisioningJob<R> {
    relay_parent: H256,
    backed_candidates: Vec<CandidateReceipt>,
    signed_bitfields: Vec<SignedAvailabilityBitfield>,
    inherent_after: InherentAfter,
    awaiting_inherent: Vec<R>,
}

impl<R> View for ProvisioningJob<R> {
    type V = JobView<R>;

    closed spec fn view(&self) -> JobView<R> {
        JobView {
            relay_parent: self.relay_parent,
            backed_candidates: self.backed_candidates@,
            signed_bitfields: bitfield_views(self.signed_bitfields@),
            inherent_after: self.inherent_after,
            awaiting_inherent: self.awaiting_inherent@,
        }
    }
}

impl<R> ProvisioningJob<R> {
    /// A job for blocks after `relay_parent`.
    pub fn new(relay_parent: H256) -> (job: Self)
        ensures
            job@ == JobView::<R>::initial(relay_parent),
            job@.wf(),
    {
        let job = ProvisioningJob {
            relay_parent,
            backed_candidates: Vec::new(),
            signed_bitfields: Vec::new(),
            inherent_after: InherentAfter::new_from_now(),
            awaiting_inherent: Vec::new(),
        };
        assert(bitfield_views(job.signed_bitfields@) =~= Seq::empty());
        job
    }

    /// When the job answers requests.
    pub fn inherent_after(&self) -> (after: InherentAfter)
        ensures
            after == self@.inherent_after,
    {
        self.inherent_after
    }

    /// Takes an event, and says what is to be done.
    pub fn handle(&mut self, event: JobEvent<R>) -> (action: JobAction<R>)
        ensures
            final(self)@ == old(self)@.handled(event).0,
            action@ == old(self)@.handled(event).1,
            old(self)@.wf() ==> final(self)@.wf(),
    {
        match event {
            JobEvent::Message(ProvisionerMessage::RequestInherentData(_, return_sender)) => {
                if self.inherent_after.is_ready() {
                    let mut return_senders: Vec<R> = Vec::new();
                    return_senders.push(return_sender);
                    assert(return_senders@ =~= seq![return_sender]);
                    JobAction::SendInherentData(return_senders)
                } else {
                    self.awaiting_inherent.push(return_sender);
                    JobAction::Continue
                }
            },
            JobEvent::Message(ProvisionerMessage::ProvisionableData(_, data)) => {
                self.note_provisionable_data(data);
                JobAction::Continue
            },
            JobEvent::TimeoutElapsed => {
                self.inherent_after.ready();
                let mut return_senders: Vec<R> = Vec::new();
                std::mem::swap(&mut return_senders, &mut self.awaiting_inherent);
                if !return_senders.is_empty() {
                    JobAction::SendInherentData(return_senders)
                } else {
                    JobAction::Continue
                }
            },
            JobEvent::MessagesEnded => JobAction::Stop,
        }
    }

    /// Notes something that could go into a block: bitfields and candidates are kept, in the order in
    /// which they come, and all else is ignored.
    pub fn note_provisionable_data(&mut self, provisionable_data: ProvisionableData)
        ensures
            final(self)@ == old(self)@.noted(provisionable_data),
    {
        match provisionable_data {
            ProvisionableData::Bitfield(_, signed_bitfield) => {
                let ghost before = self.signed_bitfields@;
                self.signed_bitfields.push(signed_bitfield);
                assert(bitfield_views(self.signed_bitfields@) =~= bitfield_views(before).push(
                    signed_bitfield@,
                ));
            },
            ProvisionableData::BackedCandidate(backed_candidate) => {
                self.backed_candidates.push(backed_candidate);
            },
            _ => {},
        }
    }

    /// Starts to assemble inherent data from what has been noted.
    pub fn assemble<B>(&self) -> (assembly: InherentAssembly<'_, B>)
        ensures
            assembly@ == InherentView::<B>::initial(
                self@.relay_parent,
                self@.signed_bitfields,
                self@.backed_candidates,
            ),
            assembly@.wf(),
    {
        InherentAssembly::new(self.relay_parent, &self.signed_bitfields, &self.backed_candidates)
    }
}

/// What an action hands out data to.
pub open spec fn handed_out<R>(action: JobActionView<R>) -> Seq<R> {
    match action {
        JobActionView::SendInherentData(receivers) => receivers,
        _ => Seq::empty(),
    }
}

/// The state of a job after `events`, and all that it has handed out data to by then, in order.
pub open spec fn history<R>(job: JobView<R>, events: Seq<JobEvent<R>>) -> (JobView<R>, Seq<R>)
    decreases events.len(),
{
    if events.len() == 0 {
        (job, Seq::empty())
    } else {
        let (before, served) = history(job, events.drop_last());
        let (after, action) = before.handled(events.last());
        (after, served + handed_out(action))
    }
}

/// What the requests among `events` want to be answered to, in order.
pub open spec fn requested<R>(events: Seq<JobEvent<R>>) -> Seq<R>
    decreases events.len(),
{
    if events.len() == 0 {
        Seq::empty()
    } else {
        match events.last() {
            JobEvent::Message(ProvisionerMessage::RequestInherentData(_, receiver)) => requested(
                events.drop_last(),
            ).push(receiver),
            _ => requested(events.drop_last()),
        }
    }
}

/// The bitfields among `events`, in order.
pub open spec fn told_bitfields<R>(events: Seq<JobEvent<R>>) -> Seq<SignedBitfieldView>
    decreases events.len(),
{
    if events.len() == 0 {
        Seq::empty()
    } else {
        match events.last() {
            JobEvent::Message(
                ProvisionerMessage::ProvisionableData(_, ProvisionableData::Bitfield(_, bitfield)),
            ) => told_bitfields(events.drop_last()).push(bitfield@),
            _ => told_bitfields(events.drop_last()),
        }
    }
}

/// The candidates among `events`, in order.
pub open spec fn told_candidates<R>(events: Seq<JobEvent<R>>) -> Seq<CandidateReceipt>
    decreases events.len(),
{
    if events.len() == 0 {
        Seq::empty()
    } else {
        match events.last() {
            JobEvent::Message(
                ProvisionerMessage::ProvisionableData(_, ProvisionableData::BackedCandidate(receipt)),
            ) => told_candidates(events.drop_last()).push(receipt),
            _ => told_candidates(events.drop_last()),
        }
    }
}

/// Whether the wait before proposing ended among `events`.
pub open spec fn timeout_elapsed<R>(events: Seq<JobEvent<R>>) -> bool {
    exists|i: int| 0 <= i < events.len() && #[trigger] events[i] is TimeoutElapsed
}

/// Every job keeps to its invariant, whatever happens to it.
pub proof fn law_job_stays_well_formed<R>(job: JobView<R>, events: Seq<JobEvent<R>>)
    requires
        job.wf(),
    ensures
        history(job, events).0.wf(),
    decreases events.len(),
{
    if events.len() > 0 {
        law_job_stays_well_formed(job, events.drop_last());
    }
}

/// No request is lost, answered twice or overtaken: those that a job has been told to answer,
/// followed by those that it holds back, are those that came in.
pub proof fn law_requests_are_served_in_order<R>(job: JobView<R>, events: Seq<JobEvent<R>>)
    requires
        job.wf(),
    ensures
        history(job, events).1 + history(job, events).0.awaiting_inherent == job.awaiting_inherent
            + requested(events),
    decreases events.len(),
{
    if events.len() == 0 {
        assert(history(job, events).1 + job.awaiting_inherent =~= job.awaiting_inherent
            + requested(events));
    } else {
        let earlier = events.drop_last();
        law_requests_are_served_in_order(job, earlier);
        law_job_stays_well_formed(job, earlier);
        let (before, served) = history(job, earlier);
        let (after, action) = before.handled(events.last());
        let came = job.awaiting_inherent + requested(earlier);
        match events.last() {
            JobEvent::Message(ProvisionerMessage::RequestInherentData(_, receiver)) => {
                assert(served + handed_out(action) + after.awaiting_inherent =~= came.push(
                    receiver,
                ));
                assert(job.awaiting_inherent + requested(events) =~= came.push(receiver));
            },
            _ => {
                assert(served + handed_out(action) + after.awaiting_inherent =~= came);
            },
        }
    }
}

/// Nothing is sent before the wait before proposing is over.
pub proof fn law_nothing_is_sent_early<R>(job: JobView<R>, events: Seq<JobEvent<R>>)
    requires
        job.inherent_after !is Ready,
        !timeout_elapsed(events),
    ensures
        history(job, events).0.inherent_after == job.inherent_after,
        history(job, events).1 == Seq::<R>::empty(),
    decreases events.len(),
{
    if events.len() > 0 {
        assert(events[events.len() - 1] !is TimeoutElapsed);
        assert forall|i: int|
            0 <= i < events.drop_last().len() implies #[trigger] events.drop_last()[i] !is TimeoutElapsed by {
            assert(events[i] !is TimeoutElapsed);
        }
        law_nothing_is_sent_early(job, events.drop_last());
    }
}

/// Once the wait before proposing is over, no request is held back any more.
pub proof fn law_nothing_waits_after_the_timeout<R>(job: JobView<R>, events: Seq<JobEvent<R>>)
    requires
        job.wf(),
        timeout_elapsed(events),
    ensures
        history(job, events).0.inherent_after is Ready,
        history(job, events).0.awaiting_inherent.len() == 0,
        history(job, events).1 == job.awaiting_inherent + requested(events),
{
    law_job_stays_well_formed(job, events);
    law_requests_are_served_in_order(job, events);
    lemma_ready_after_the_timeout(job, events);
    let (after, served) = history(job, events);
    assert(served + after.awaiting_inherent =~= served);
}

/// Once the wait before proposing is over, it stays so.
proof fn lemma_ready_after_the_timeout<R>(job: JobView<R>, events: Seq<JobEvent<R>>)
    requires
        timeout_elapsed(events),
    ensures
        history(job, events).0.inherent_after is Ready,
    decreases events.len(),
{
    if events.last() !is TimeoutElapsed {
        let i = choose|i: int| 0 <= i < events.len() && #[trigger] events[i] is TimeoutElapsed;
        assert(events.drop_last()[i] is TimeoutElapsed);
        lemma_ready_after_the_timeout(job, events.drop_last());
    }
}

/// A job holds exactly the bitfields and candidates that it has been told of, in order, and keeps its
/// relay parent.
pub proof fn law_job_holds_what_it_was_told<R>(job: JobView<R>, events: Seq<JobEvent<R>>)
    ensures
        history(job, events).0.relay_parent == job.relay_parent,
        history(job, events).0.signed_bitfields == job.signed_bitfields + told_bitfields(events),
        history(job, events).0.backed_candidates == job.backed_candidates + told_candidates(events),
    decreases events.len(),
{
    if events.len() == 0 {
        assert(job.signed_bitfields + told_bitfields(events) =~= job.signed_bitfields);
        assert(job.backed_candidates + told_candidates(events) =~= job.backed_candidates);
    } else {
        law_job_holds_what_it_was_told(job, events.drop_last());
        let after = history(job, events).0;
        assert(after.signed_bitfields =~= job.signed_bitfields + told_bitfields(events));
        assert(after.backed_candidates =~= job.backed_candidates + told_candidates(events));
    }
}

/// Inherent data is assembled from all bitfields and candidates that a job has been told of since its
/// start.
pub proof fn law_assembly_uses_all_that_was_told<R, B>(
    relay_parent: H256,
    events: Seq<JobEvent<R>>,
)
    ensures
        ({
            let job = history(JobView::<R>::initial(relay_parent), events).0;
            InherentView::<B>::initial(
                job.relay_parent,
                job.signed_bitfields,
                job.backed_candidates,
            ) == InherentView::<B>::initial(
                relay_parent,
                told_bitfields(events),
                told_candidates(events),
            )
        }),
{
    let start = JobView::<R>::initial(relay_parent);
    law_job_holds_what_it_was_told(start, events);
    assert(start.signed_bitfields + told_bitfields(events) =~= told_bitfields(events));
    assert(start.backed_candidates + told_candidates(events) =~= told_candidates(events));
}

/// A job starts with nothing and waits for two seconds.
pub proof fn law_job_starts_with_a_wait<R>(relay_parent: H256)
    ensures
        JobView::<R>::initial(relay_parent).relay_parent == relay_parent,
        JobView::<R>::initial(relay_parent).backed_candidates.len() == 0,
        JobView::<R>::initial(relay_parent).signed_bitfields.len() == 0,
        JobView::<R>::initial(relay_parent).awaiting_inherent.len() == 0,
        JobView::<R>::initial(relay_parent).inherent_after == InherentAfter::Wait(2000),
{
}

/// A job ends when no further message will come in, and never before, whatever its state.
pub proof fn law_job_ends_with_its_messages<R>(job: JobView<R>, event: JobEvent<R>)
    ensures
        job.handled(event).1 is Stop <==> event is MessagesEnded,
        event is MessagesEnded ==> job.handled(event).0 == job,
{
}

/// A request that comes after the wait is answered at once, alone; one that comes before is put behind
/// those that wait already. Either way the job keeps all else.
pub proof fn law_request_is_answered_or_waits<R>(job: JobView<R>, block: H256, receiver: R)
    ensures
        ({
            let (after, action) = job.handled(
                JobEvent::Message(ProvisionerMessage::RequestInherentData(block, receiver)),
            );
            &&& after.relay_parent == job.relay_parent
            &&& after.backed_candidates == job.backed_candidates
            &&& after.signed_bitfields == job.signed_bitfields
            &&& after.inherent_after == job.inherent_after
            &&& job.inherent_after is Ready ==> {
                &&& action matches JobActionView::SendInherentData(receivers)
                &&& receivers.len() == 1
                &&& receivers[0] == receiver
                &&& after.awaiting_inherent == job.awaiting_inherent
            }
            &&& job.inherent_after is Wait ==> {
                &&& action is Continue
                &&& after.awaiting_inherent.len() == job.awaiting_inherent.len() + 1
                &&& after.awaiting_inherent.last() == receiver
                &&& after.awaiting_inherent.drop_last() == job.awaiting_inherent
            }
        }),
{
    assert(job.awaiting_inherent.push(receiver).drop_last() =~= job.awaiting_inherent);
}

/// When the wait is over, all that have waited are answered together, in the order in which they came,
/// and none waits any more. If none has waited, nothing is sent. The job keeps all else.
pub proof fn law_timeout_answers_all_that_wait<R>(job: JobView<R>)
    ensures
        ({
            let (after, action) = job.handled(JobEvent::TimeoutElapsed);
            &&& after.relay_parent == job.relay_parent
            &&& after.backed_candidates == job.backed_candidates
            &&& after.signed_bitfields == job.signed_bitfields
            &&& after.inherent_after is Ready
            &&& after.awaiting_inherent.len() == 0
            &&& job.awaiting_inherent.len() > 0 ==> action == JobActionView::SendInherentData(
                job.awaiting_inherent,
            )
            &&& job.awaiting_inherent.len() == 0 ==> action is Continue
        }),
{
}

/// A bitfield that comes in is put behind those that the job holds, with its bits, its validator and
/// its signature, whatever it is for. The job keeps all else, and goes on.
pub proof fn law_bitfield_is_kept<R>(
    job: JobView<R>,
    block: H256,
    signed_for: H256,
    bitfield: SignedAvailabilityBitfield,
)
    ensures
        ({
            let data = ProvisionableData::Bitfield(signed_for, bitfield);
            let (after, action) = job.handled(
                JobEvent::Message(ProvisionerMessage::ProvisionableData(block, data)),
            );
            &&& action is Continue
            &&& after == job.noted(data)
            &&& after.signed_bitfields.len() == job.signed_bitfields.len() + 1
            &&& after.signed_bitfields.drop_last() == job.signed_bitfields
            &&& after.signed_bitfields.last().bits == bitfield.payload@
            &&& after.signed_bitfields.last().validator_index == bitfield.validator_index
            &&& after.signed_bitfields.last().signature == bitfield.signature
            &&& after.relay_parent == job.relay_parent
            &&& after.backed_candidates == job.backed_candidates
            &&& after.inherent_after == job.inherent_after
            &&& after.awaiting_inherent == job.awaiting_inherent
        }),
{
    assert(job.signed_bitfields.push(bitfield@).drop_last() =~= job.signed_bitfields);
}

/// A candidate that comes in is put behind those that the job holds. The job keeps all else, and goes
/// on.
pub proof fn law_candidate_is_kept<R>(job: JobView<R>, block: H256, candidate: CandidateReceipt)
    ensures
        ({
            let data = ProvisionableData::BackedCandidate(candidate);
            let (after, action) = job.handled(
                JobEvent::Message(ProvisionerMessage::ProvisionableData(block, data)),
            );
            &&& action is Continue
            &&& after == job.noted(data)
            &&& after.backed_candidates.len() == job.backed_candidates.len() + 1
            &&& after.backed_candidates.drop_last() == job.backed_candidates
            &&& after.backed_candidates.last() == candidate
            &&& after.relay_parent == job.relay_parent
            &&& after.signed_bitfields == job.signed_bitfields
            &&& after.inherent_after == job.inherent_after
            &&& after.awaiting_inherent == job.awaiting_inherent
        }),
{
    assert(job.backed_candidates.push(candidate).drop_last() =~= job.backed_candidates);
}

/// What is neither a bitfield nor a candidate leaves the job as it is, and the job goes on.
pub proof fn law_all_else_is_ignored<R>(job: JobView<R>, block: H256, data: ProvisionableData)
    requires
        data !is Bitfield,
        data !is BackedCandidate,
    ensures
        job.noted(data) == job,
        ({
            let (after, action) = job.handled(
                JobEvent::Message(ProvisionerMessage::ProvisionableData(block, data)),
            );
            after == job && action is Continue
        }),
{
}

/// The view of an action says what it is and, in order, to whom inherent data is to be sent.
pub proof fn law_action_view_says_all<R>(action: JobAction<R>)
    ensures
        action@ is Continue <==> action is Continue,
        action@ is Stop <==> action is Stop,
        action@ is SendInherentData <==> action is SendInherentData,
        action matches JobAction::SendInherentData(receivers) ==> action@
            == JobActionView::SendInherentData(receivers@),
{
}

} // verus!
