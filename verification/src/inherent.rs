//! The assembly of inherent data, step by step.
//!
//! The provisioner is the subsystem best suited to choosing which specific backed candidates and
//! availability bitfields should be assembled into the block. The response to a request for inherent
//! data is a set of non-conflicting candidates and the appropriate bitfields. Non-conflicting means
//! that there are never two distinct parachain candidates included for the same parachain and that
//! new parachain candidates cannot be included until the previous one either gets declared available
//! or expired.
//!
//! When it comes to bitfields, the rule is simple: maximize availability. So basically, include all
//! bitfields. And then choose a coherent set of candidates along with that.
//!
//! [`InherentAssembly::request`] says what the assembly needs to know next, and
//! [`InherentAssembly::step`] takes the answer.

use vstd::prelude::*;

use crate::bitfields::{
    law_picked_bitfields_cover_each_core, select_availability_bitfields, selected_bitfields,
};
use crate::disputes::{
    copy_disputes, disputes_told, law_each_dispute_becomes_a_set, recent_disputes, select_disputes,
    statement_sets, votes_told, CandidateVotesReply, RecentDisputesReply,
};
use crate::error::{Canceled, Error, RuntimeApiError};
use crate::hash::H256;
use crate::primitives::{
    bitfield_views, set_views, CandidateHash, CandidateReceipt, CandidateVotes, CoreState,
    DisputeStatement, DisputeStatementSet, DisputeStatementSetView, InherentDataView,
    ProvisionerInherentData, SessionIndex, SignedAvailabilityBitfield, SignedBitfieldView,
};
use crate::selection::{
    CandidateSelection, SelectionReply, SelectionReplyView, SelectionRequest, SelectionRequestView,
    SelectionStageView, SelectionView,
};

verus! {

/// The answer to the question for the availability cores.
pub type AvailabilityCoresReply = Result<Result<Vec<CoreState>, RuntimeApiError>, Canceled>;

/// What an assembly of inherent data needs to know.
#[derive(Debug)]
pub enum InherentRequest {
    /// The availability cores at this block.
    AvailabilityCores(H256),
    /// The recent disputes.
    RecentDisputes,
    /// The votes on these disputed candidates.
    CandidateVotes(Vec<(SessionIndex, CandidateHash)>),
    /// Something that the selection of candidates needs to know.
    Selection(SelectionRequest),
}

/// What a request says.
pub enum InherentRequestView {
    AvailabilityCores(H256),
    RecentDisputes,
    CandidateVotes(Seq<(SessionIndex, CandidateHash)>),
    Selection(SelectionRequestView),
}

impl View for InherentRequest {
    type V = InherentRequestView;

    open spec fn view(&self) -> InherentRequestView {
        match *self {
            InherentRequest::AvailabilityCores(block) => InherentRequestView::AvailabilityCores(
                block,
            ),
            InherentRequest::RecentDisputes => InherentRequestView::RecentDisputes,
            InherentRequest::CandidateVotes(disputes) => InherentRequestView::CandidateVotes(
                disputes@,
            ),
            InherentRequest::Selection(request) => InherentRequestView::Selection(request@),
        }
    }
}

/// The answer to a request. Each request can also stay without an answer.
#[derive(Debug)]
pub enum InherentReply<B> {
    /// The availability cores.
    AvailabilityCores(AvailabilityCoresReply),
    /// The recent disputes.
    RecentDisputes(RecentDisputesReply),
    /// The votes on the disputed candidates.
    CandidateVotes(CandidateVotesReply),
    /// The answer to what the selection of candidates needs to know.
    Selection(SelectionReply<B>),
}

/// What an answer says.
pub enum InherentReplyView<B> {
    AvailabilityCores(Result<Result<Seq<CoreState>, RuntimeApiError>, Canceled>),
    RecentDisputes(Seq<(SessionIndex, CandidateHash)>),
    CandidateVotes(Seq<DisputeStatementSetView>),
    Selection(SelectionReplyView<B>),
}

impl<B> View for InherentReply<B> {
    type V = InherentReplyView<B>;

    open spec fn view(&self) -> InherentReplyView<B> {
        match *self {
            InherentReply::AvailabilityCores(reply) => InherentReplyView::AvailabilityCores(
                match reply {
                    Ok(Ok(cores)) => Ok(Ok(cores@)),
                    Ok(Err(error)) => Ok(Err(error)),
                    Err(canceled) => Err(canceled),
                },
            ),
            InherentReply::RecentDisputes(reply) => InherentReplyView::RecentDisputes(
                disputes_told(reply),
            ),
            InherentReply::CandidateVotes(reply) => InherentReplyView::CandidateVotes(
                statement_sets(votes_told(reply)),
            ),
            InherentReply::Selection(reply) => InherentReplyView::Selection(reply@),
        }
    }
}

/// How far an assembly has come.
#[derive(Debug)]
enum InherentStage<'a, B> {
    /// The availability cores are needed.
    AvailabilityCores,
    /// The recent disputes are needed.
    RecentDisputes { cores: Vec<CoreState> },
    /// The votes on the recent disputes are needed.
    CandidateVotes { cores: Vec<CoreState>, recent: Vec<(SessionIndex, CandidateHash)> },
    /// Bitfields and disputes are selected, and candidates are being selected.
    Selection { disputes: Vec<DisputeStatementSet>, selection: CandidateSelection<'a, B> },
    /// The assembly has ended.
    Done(Result<ProvisionerInherentData<B>, Error>),
}

/// How far an assembly has come.
pub enum InherentStageView<B> {
    AvailabilityCores,
    RecentDisputes { cores: Seq<CoreState> },
    CandidateVotes { cores: Seq<CoreState>, recent: Seq<(SessionIndex, CandidateHash)> },
    Selection { disputes: Seq<DisputeStatementSetView>, selection: SelectionView<B> },
    Done(Result<InherentDataView<B>, Error>),
}

impl<'a, B> View for InherentStage<'a, B> {
    type V = InherentStageView<B>;

    closed spec fn view(&self) -> InherentStageView<B> {
        match *self {
            InherentStage::AvailabilityCores => InherentStageView::AvailabilityCores,
            InherentStage::RecentDisputes { cores } => InherentStageView::RecentDisputes {
                cores: cores@,
            },
            InherentStage::CandidateVotes { cores, recent } => InherentStageView::CandidateVotes {
                cores: cores@,
                recent: recent@,
            },
            InherentStage::Selection { disputes, selection } => InherentStageView::Selection {
                disputes: set_views(disputes@),
                selection: selection@,
            },
            InherentStage::Done(outcome) => InherentStageView::Done(
                match outcome {
                    Ok(data) => Ok(data@),
                    Err(error) => Err(error),
                },
            ),
        }
    }
}

/// An assembly of inherent data: what it is made from, and how far it has come.
pub struct InherentView<B> {
    pub relay_parent: H256,
    pub bitfields: Seq<SignedBitfieldView>,
    pub candidates: Seq<CandidateReceipt>,
    pub stage: InherentStageView<B>,
}

/// The stage of an assembly given that of its selection of candidates: it ends with the selection.
pub open spec fn with_selection<B>(
    disputes: Seq<DisputeStatementSetView>,
    selection: SelectionView<B>,
) -> InherentStageView<B> {
    match selection.stage {
        SelectionStageView::Done(Ok(backed_candidates)) => InherentStageView::Done(
            Ok(InherentDataView { bitfields: selection.bitfields, backed_candidates, disputes }),
        ),
        SelectionStageView::Done(Err(error)) => InherentStageView::Done(Err(error)),
        _ => InherentStageView::Selection { disputes, selection },
    }
}

impl<B> InherentView<B> {
    /// The assembly at its start.
    pub open spec fn initial(
        relay_parent: H256,
        bitfields: Seq<SignedBitfieldView>,
        candidates: Seq<CandidateReceipt>,
    ) -> Self {
        InherentView {
            relay_parent,
            bitfields,
            candidates,
            stage: InherentStageView::AvailabilityCores,
        }
    }

    /// What every assembly keeps to.
    pub open spec fn wf(self) -> bool {
        self.stage matches InherentStageView::Selection { selection, .. } ==> selection.wf()
            && selection.stage !is Done
    }

    /// This assembly at another stage.
    pub open spec fn at(self, stage: InherentStageView<B>) -> Self {
        InherentView { stage, ..self }
    }

    /// What the assembly needs to know next.
    pub open spec fn request(self) -> Option<InherentRequestView> {
        match self.stage {
            InherentStageView::AvailabilityCores => Some(
                InherentRequestView::AvailabilityCores(self.relay_parent),
            ),
            InherentStageView::RecentDisputes { .. } => Some(InherentRequestView::RecentDisputes),
            InherentStageView::CandidateVotes { recent, .. } => Some(
                InherentRequestView::CandidateVotes(recent),
            ),
            InherentStageView::Selection { selection, .. } => match selection.request() {
                Some(request) => Some(InherentRequestView::Selection(request)),
                None => None,
            },
            InherentStageView::Done(_) => None,
        }
    }

    /// Whether the assembly waits for an answer of this kind.
    pub open spec fn awaits(self, reply: InherentReplyView<B>) -> bool {
        match reply {
            InherentReplyView::AvailabilityCores(_) => self.stage is AvailabilityCores,
            InherentReplyView::RecentDisputes(_) => self.stage is RecentDisputes,
            InherentReplyView::CandidateVotes(_) => self.stage is CandidateVotes,
            InherentReplyView::Selection(
                answer,
            ) => self.stage matches InherentStageView::Selection { selection, .. }
                && selection.awaits(answer),
        }
    }

    /// The assembly after an answer that it waits for.
    pub open spec fn stepped(self, reply: InherentReplyView<B>) -> Self {
        match (self.stage, reply) {
            (
                InherentStageView::AvailabilityCores,
                InherentReplyView::AvailabilityCores(answer),
            ) => match answer {
                Err(canceled) => self.at(
                    InherentStageView::Done(Err(Error::CanceledAvailabilityCores(canceled))),
                ),
                Ok(Err(error)) => self.at(InherentStageView::Done(Err(Error::Runtime(error)))),
                Ok(Ok(cores)) => self.at(InherentStageView::RecentDisputes { cores }),
            },
            (
                InherentStageView::RecentDisputes { cores },
                InherentReplyView::RecentDisputes(recent),
            ) => self.at(InherentStageView::CandidateVotes { cores, recent }),
            (
                InherentStageView::CandidateVotes { cores, .. },
                InherentReplyView::CandidateVotes(disputes),
            ) => self.at(
                InherentStageView::Selection {
                    disputes,
                    selection: SelectionView::initial(
                        self.relay_parent,
                        cores,
                        selected_bitfields(cores, self.bitfields),
                        self.candidates,
                    ),
                },
            ),
            (
                InherentStageView::Selection { disputes, selection },
                InherentReplyView::Selection(answer),
            ) => self.at(with_selection(disputes, selection.stepped(answer))),
            _ => self,
        }
    }
}

/// An assembly of inherent data for the block after `relay_parent`.
#[derive(Debug)]
pub struct InherentAssembly<'a, B> {
    relay_parent: H256,
    bitfields: &'a [SignedAvailabilityBitfield],
    candidates: &'a [CandidateReceipt],
    stage: InherentStage<'a, B>,
}

impl<'a, B> View for InherentAssembly<'a, B> {
    type V = InherentView<B>;

    closed spec fn view(&self) -> InherentView<B> {
        InherentView {
            relay_parent: self.relay_parent,
            bitfields: bitfield_views(self.bitfields@),
            candidates: self.candidates@,
            stage: self.stage.view(),
        }
    }
}

impl<'a, B> InherentAssembly<'a, B> {
    /// Starts to assemble inherent data from bitfields and candidates.
    pub fn new(
        relay_parent: H256,
        bitfields: &'a [SignedAvailabilityBitfield],
        candidates: &'a [CandidateReceipt],
    ) -> (assembly: Self)
        ensures
            assembly@ == InherentView::<B>::initial(
                relay_parent,
                bitfield_views(bitfields@),
                candidates@,
            ),
            assembly@.wf(),
    {
        InherentAssembly {
            relay_parent,
            bitfields,
            candidates,
            stage: InherentStage::AvailabilityCores,
        }
    }

    /// What the assembly needs to know next, or nothing if it has ended.
    pub fn request(&self) -> (request: Option<InherentRequest>)
        ensures
            request is Some == self@.request() is Some,
            request matches Some(r) ==> self@.request() == Some(r@),
    {
        match &self.stage {
            InherentStage::AvailabilityCores => Some(
                InherentRequest::AvailabilityCores(self.relay_parent),
            ),
            InherentStage::RecentDisputes { .. } => Some(InherentRequest::RecentDisputes),
            InherentStage::CandidateVotes { recent, .. } => Some(
                InherentRequest::CandidateVotes(copy_disputes(recent)),
            ),
            InherentStage::Selection { selection, .. } => {
                match selection.request() {
                    Some(request) => Some(InherentRequest::Selection(request)),
                    None => None,
                }
            },
            InherentStage::Done(_) => None,
        }
    }

    /// Takes the answer that the assembly waits for.
    pub fn step(self, reply: InherentReply<B>) -> (next: Self)
        requires
            self@.wf(),
            self@.awaits(reply@),
        ensures
            next@ == self@.stepped(reply@),
            next@.wf(),
    {
        let InherentAssembly { relay_parent, bitfields, candidates, stage } = self;
        let next_stage: InherentStage<'a, B> = match (stage, reply) {
            (InherentStage::AvailabilityCores, InherentReply::AvailabilityCores(answer)) => {
                match answer {
                    Err(canceled) => InherentStage::Done(
                        Err(Error::CanceledAvailabilityCores(canceled)),
                    ),
                    Ok(Err(error)) => InherentStage::Done(Err(Error::Runtime(error))),
                    Ok(Ok(cores)) => InherentStage::RecentDisputes { cores },
                }
            },
            (InherentStage::RecentDisputes { cores }, InherentReply::RecentDisputes(answer)) => {
                InherentStage::CandidateVotes { cores, recent: recent_disputes(answer) }
            },
            (
                InherentStage::CandidateVotes { cores, recent: _ },
                InherentReply::CandidateVotes(answer),
            ) => {
                let disputes = select_disputes(answer);
                let selected = select_availability_bitfields(&cores, bitfields);
                proof {
                    assert forall|c: int| 0 <= c < cores@.len() implies crate::candidates::core_readable(
                        c,
                        #[trigger] cores@[c],
                        bitfield_views(selected@),
                    ) by {
                        if let CoreState::Occupied(occupied) = cores@[c] {
                            law_picked_bitfields_cover_each_core(
                                cores@,
                                bitfield_views(bitfields@),
                                bitfield_views(selected@),
                                c,
                                occupied.availability@.len(),
                            );
                        }
                    }
                }
                InherentStage::Selection {
                    disputes,
                    selection: CandidateSelection::new(relay_parent, cores, selected, candidates),
                }
            },
            (InherentStage::Selection { disputes, selection }, InherentReply::Selection(answer)) => {
                match selection.step(answer).finish() {
                    Err(selection) => InherentStage::Selection { disputes, selection },
                    Ok((bitfields, Ok(backed_candidates))) => InherentStage::Done(
                        Ok(ProvisionerInherentData { bitfields, backed_candidates, disputes }),
                    ),
                    Ok((_, Err(error))) => InherentStage::Done(Err(error)),
                }
            },
            (stage, _) => stage,
        };
        InherentAssembly { relay_parent, bitfields, candidates, stage: next_stage }
    }

    /// The outcome of the assembly. Before it has ended, there is none.
    pub fn finish(self) -> (outcome: Option<Result<ProvisionerInherentData<B>, Error>>)
        ensures
            match self@.stage {
                InherentStageView::Done(Ok(data)) => outcome matches Some(Ok(d)) && d@ == data,
                InherentStageView::Done(Err(error)) => outcome == Some(
                    Err::<ProvisionerInherentData<B>, Error>(error),
                ),
                _ => outcome is None,
            },
    {
        match self.stage {
            InherentStage::Done(outcome) => Some(outcome),
            _ => None,
        }
    }
}

/// An assembly starts by asking for the cores at its relay parent, and is made from what it was given.
pub proof fn law_assembly_starts_with_the_cores<B>(
    relay_parent: H256,
    bitfields: Seq<SignedBitfieldView>,
    candidates: Seq<CandidateReceipt>,
)
    ensures
        ({
            let assembly = InherentView::<B>::initial(relay_parent, bitfields, candidates);
            &&& assembly.relay_parent == relay_parent
            &&& assembly.bitfields == bitfields
            &&& assembly.candidates == candidates
            &&& assembly.stage is AvailabilityCores
            &&& assembly.request() == Some(InherentRequestView::AvailabilityCores(relay_parent))
        }),
{
}

/// An assembly waits for an answer to the question that it asks, and for no other; while candidates
/// are selected, for what the selection waits for.
pub proof fn law_assembly_awaits_the_answer_to_its_question<B>(
    assembly: InherentView<B>,
    reply: InherentReplyView<B>,
)
    ensures
        assembly.awaits(reply) <==> match (assembly.stage, reply) {
            (InherentStageView::Selection { selection, .. }, InherentReplyView::Selection(answer))
                => selection.awaits(answer),
            (InherentStageView::Selection { .. }, _) => false,
            (_, reply) => match (assembly.request(), reply) {
                (
                    Some(InherentRequestView::AvailabilityCores(_)),
                    InherentReplyView::AvailabilityCores(_),
                ) => true,
                (
                    Some(InherentRequestView::RecentDisputes),
                    InherentReplyView::RecentDisputes(_),
                ) => true,
                (
                    Some(InherentRequestView::CandidateVotes(_)),
                    InherentReplyView::CandidateVotes(_),
                ) => true,
                _ => false,
            },
        },
{
}

/// Once the cores are known, the recent disputes are asked for.
pub proof fn law_cores_lead_to_the_recent_disputes<B>(
    assembly: InherentView<B>,
    cores: Seq<CoreState>,
)
    requires
        assembly.stage is AvailabilityCores,
    ensures
        ({
            let next = assembly.stepped(InherentReplyView::AvailabilityCores(Ok(Ok(cores))));
            &&& next.relay_parent == assembly.relay_parent
            &&& next.bitfields == assembly.bitfields
            &&& next.candidates == assembly.candidates
            &&& next.stage == (InherentStageView::<B>::RecentDisputes { cores })
            &&& next.request() == Some(InherentRequestView::RecentDisputes)
        }),
{
}

/// Without the cores the assembly ends, with the error that says why. Nothing more is asked then.
pub proof fn law_assembly_fails_without_the_cores<B>(
    assembly: InherentView<B>,
    canceled: Canceled,
    runtime: RuntimeApiError,
)
    requires
        assembly.stage is AvailabilityCores,
    ensures
        ({
            let gone = assembly.stepped(InherentReplyView::AvailabilityCores(Err(canceled)));
            let failed = assembly.stepped(InherentReplyView::AvailabilityCores(Ok(Err(runtime))));
            &&& gone.stage == InherentStageView::<B>::Done(
                Err(Error::CanceledAvailabilityCores(canceled)),
            )
            &&& failed.stage == InherentStageView::<B>::Done(Err(Error::Runtime(runtime)))
            &&& gone.request() is None
            &&& failed.request() is None
        }),
{
}

/// Once the recent disputes are known, the votes on all of them are asked for, in the same order.
pub proof fn law_recent_disputes_lead_to_their_votes<B>(
    assembly: InherentView<B>,
    cores: Seq<CoreState>,
    recent: Seq<(SessionIndex, CandidateHash)>,
)
    requires
        assembly.stage == (InherentStageView::<B>::RecentDisputes { cores }),
    ensures
        ({
            let next = assembly.stepped(InherentReplyView::RecentDisputes(recent));
            &&& next.relay_parent == assembly.relay_parent
            &&& next.bitfields == assembly.bitfields
            &&& next.candidates == assembly.candidates
            &&& next.stage == (InherentStageView::<B>::CandidateVotes { cores, recent })
            &&& next.request() == Some(InherentRequestView::CandidateVotes(recent))
        }),
{
}

/// Once the votes are known, candidates are selected: for the cores, from all candidates, with the
/// bitfields that go into the block. The statements on disputes are kept as they are.
pub proof fn law_votes_lead_to_the_selection<B>(
    assembly: InherentView<B>,
    cores: Seq<CoreState>,
    recent: Seq<(SessionIndex, CandidateHash)>,
    told: Seq<DisputeStatementSetView>,
)
    requires
        assembly.stage == (InherentStageView::<B>::CandidateVotes { cores, recent }),
    ensures
        ({
            let next = assembly.stepped(InherentReplyView::CandidateVotes(told));
            &&& next.relay_parent == assembly.relay_parent
            &&& next.bitfields == assembly.bitfields
            &&& next.candidates == assembly.candidates
            &&& next.stage matches InherentStageView::Selection { disputes, selection }
            &&& disputes == told
            &&& selection.relay_parent == assembly.relay_parent
            &&& selection.cores == cores
            &&& selection.bitfields == selected_bitfields(cores, assembly.bitfields)
            &&& selection.candidates == assembly.candidates
            &&& selection.stage is BlockNumber
            &&& next.request() == Some(
                InherentRequestView::Selection(
                    SelectionRequestView::BlockNumber(assembly.relay_parent),
                ),
            )
        }),
{
}

/// While candidates are selected, the assembly asks what the selection asks and hands it the answers.
/// It ends when the selection does: with its error, or with inherent data that holds the candidates
/// that were selected, the bitfields that they were selected with, and the statements on disputes.
pub proof fn law_assembly_follows_its_selection<B>(
    assembly: InherentView<B>,
    disputes: Seq<DisputeStatementSetView>,
    selection: SelectionView<B>,
    answer: SelectionReplyView<B>,
)
    requires
        assembly.stage == (InherentStageView::Selection { disputes, selection }),
    ensures
        selection.request() matches Some(request) ==> assembly.request() == Some(
            InherentRequestView::Selection(request),
        ),
        ({
            let next = assembly.stepped(InherentReplyView::Selection(answer));
            let after = selection.stepped(answer);
            &&& next.relay_parent == assembly.relay_parent
            &&& next.bitfields == assembly.bitfields
            &&& next.candidates == assembly.candidates
            &&& after.stage matches SelectionStageView::Done(Ok(backed)) ==> {
                &&& next.stage matches InherentStageView::Done(Ok(data))
                &&& data.backed_candidates == backed
                &&& data.bitfields == selection.bitfields
                &&& data.disputes == disputes
                &&& next.request() is None
            }
            &&& after.stage matches SelectionStageView::Done(Err(error)) ==> {
                &&& next.stage == InherentStageView::<B>::Done(Err(error))
                &&& next.request() is None
            }
            &&& after.stage !is Done ==> next.stage == (InherentStageView::Selection {
                disputes,
                selection: after,
            })
        }),
{
}

/// The view of a request says all of it.
pub proof fn law_inherent_request_view_says_all(request: InherentRequest)
    ensures
        request matches InherentRequest::AvailabilityCores(block) ==> request@
            == InherentRequestView::AvailabilityCores(block),
        request is RecentDisputes ==> request@ == InherentRequestView::RecentDisputes,
        request matches InherentRequest::CandidateVotes(disputes) ==> request@
            == InherentRequestView::CandidateVotes(disputes@),
        request matches InherentRequest::Selection(inner) ==> request@
            == InherentRequestView::Selection(inner@),
{
}

/// What an answer says to an assembly: the cores or the failure to tell them; the recent disputes, in
/// order, or none if nobody answered; or what it says to the selection.
pub proof fn law_inherent_reply_says_what_was_told<B>(
    cores: Vec<CoreState>,
    recent: Vec<(SessionIndex, CandidateHash)>,
    runtime: RuntimeApiError,
    canceled: Canceled,
    answer: SelectionReply<B>,
)
    ensures
        InherentReply::<B>::AvailabilityCores(Ok(Ok(cores)))@
            == InherentReplyView::<B>::AvailabilityCores(Ok(Ok(cores@))),
        InherentReply::<B>::AvailabilityCores(Ok(Err(runtime)))@
            == InherentReplyView::<B>::AvailabilityCores(Ok(Err(runtime))),
        InherentReply::<B>::AvailabilityCores(Err(canceled))@
            == InherentReplyView::<B>::AvailabilityCores(Err(canceled)),
        InherentReply::<B>::RecentDisputes(Ok(recent))@ == InherentReplyView::<B>::RecentDisputes(
            recent@,
        ),
        InherentReply::<B>::RecentDisputes(Err(canceled))@
            == InherentReplyView::<B>::RecentDisputes(Seq::empty()),
        InherentReply::<B>::Selection(answer)@ == InherentReplyView::<B>::Selection(answer@),
{
}

/// What the votes say to an assembly: one set of statements per disputed candidate, in order, with each
/// vote on it, those for it first; or none if nobody answered.
pub proof fn law_votes_say_each_statement<B>(
    told: Vec<(SessionIndex, CandidateHash, CandidateVotes)>,
    canceled: Canceled,
)
    ensures
        InherentReply::<B>::CandidateVotes(Err(canceled))@
            == InherentReplyView::<B>::CandidateVotes(Seq::empty()),
        InherentReply::<B>::CandidateVotes(Ok(told))@ matches InherentReplyView::CandidateVotes(
            sets,
        ) && {
            &&& sets.len() == told@.len()
            &&& forall|n: int|
                0 <= n < told@.len() ==> {
                    let valid = told@[n].2.valid@;
                    let invalid = told@[n].2.invalid@;
                    &&& (#[trigger] sets[n]).session == told@[n].0
                    &&& sets[n].candidate_hash == told@[n].1
                    &&& sets[n].statements.len() == valid.len() + invalid.len()
                    &&& forall|i: int|
                        0 <= i < valid.len() ==> #[trigger] sets[n].statements[i] == (
                            DisputeStatement::Valid(valid[i].0),
                            valid[i].1,
                            valid[i].2,
                        )
                    &&& forall|i: int|
                        valid.len() <= i < valid.len() + invalid.len()
                            ==> #[trigger] sets[n].statements[i] == (
                            DisputeStatement::Invalid(invalid[i - valid.len()].0),
                            invalid[i - valid.len()].1,
                            invalid[i - valid.len()].2,
                        )
                }
        },
{
    law_each_dispute_becomes_a_set(told, canceled);
    assert(statement_sets(votes_told(Err(canceled))) =~= Seq::empty());
}

} // verus!
