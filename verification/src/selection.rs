//! The selection of candidates, step by step.
//!
//! A [`CandidateSelection`] goes through the cores in order. [`CandidateSelection::request`] says
//! what it needs to know next, and [`CandidateSelection::step`] takes the answer.

use vstd::prelude::*;

use crate::candidates::{
    assign_core, backed_hashes, check_backed_order, core_assignment, core_readable,
    find_candidate, first_suitable, in_selected_order,
    law_candidates_at_ascending_positions_are_in_order,
    law_candidates_in_order_are_at_ascending_positions, law_core_can_be_assigned,
    law_first_match_is_found, law_without_a_match_nothing_is_found, one_code_upgrade,
    retain_one_code_upgrade,
};
use crate::error::{Canceled, ChainApiError, Error, RuntimeApiError};
use crate::hash::H256;
use crate::primitives::{
    bitfield_views, BackedCandidate, BlockNumber, CandidateHash, CandidateReceipt, CoreState,
    OccupiedCoreAssumption, ParaId, SignedAvailabilityBitfield, SignedBitfieldView,
};

verus! {

/// The answer to the question for the number of a block.
pub type BlockNumberReply = Result<Result<Option<BlockNumber>, ChainApiError>, Canceled>;

/// The answer to the question for the validation data of a parachain: its hash, if there is any.
pub type ValidationDataReply = Result<Result<Option<H256>, RuntimeApiError>, Canceled>;

/// Whether the block after the one that the answer names has a number.
pub open spec fn has_successor(reply: BlockNumberReply) -> bool {
    reply matches Ok(Ok(Some(n))) ==> n < BlockNumber::MAX
}

/// The number of the block under construction, given the answer to the question for the number of
/// its relay parent: one more than that, or 0 if there is no such block.
pub open spec fn block_number_under_construction(reply: BlockNumberReply) -> Result<
    BlockNumber,
    Error,
> {
    match reply {
        Err(canceled) => Err(Error::CanceledBlockNumber(canceled)),
        Ok(Err(error)) => Err(Error::ChainApi(error)),
        Ok(Ok(Some(n))) => Ok((n + 1) as BlockNumber),
        Ok(Ok(None)) => Ok(0),
    }
}

/// Produces a block number 1 higher than that of the relay parent
/// in the event of an invalid relay parent, returns `Ok(0)`
pub fn get_block_number_under_construction(reply: BlockNumberReply) -> (number: Result<
    BlockNumber,
    Error,
>)
    requires
        has_successor(reply),
    ensures
        number == block_number_under_construction(reply),
{
    match reply {
        Err(canceled) => Err(Error::CanceledBlockNumber(canceled)),
        Ok(Ok(Some(n))) => Ok(n + 1),
        Ok(Ok(None)) => Ok(0),
        Ok(Err(error)) => Err(Error::ChainApi(error)),
    }
}

/// What a selection of candidates needs to know.
#[derive(Debug)]
pub enum SelectionRequest {
    /// The number of this block.
    BlockNumber(H256),
    /// The hash of the validation data of a parachain at this block.
    PersistedValidationData(H256, ParaId, OccupiedCoreAssumption),
    /// What backs these candidates at this block.
    BackedCandidates(H256, Vec<CandidateHash>),
}

/// What a request says.
pub enum SelectionRequestView {
    BlockNumber(H256),
    PersistedValidationData(H256, ParaId, OccupiedCoreAssumption),
    BackedCandidates(H256, Seq<CandidateHash>),
}

impl View for SelectionRequest {
    type V = SelectionRequestView;

    open spec fn view(&self) -> SelectionRequestView {
        match *self {
            SelectionRequest::BlockNumber(block) => SelectionRequestView::BlockNumber(block),
            SelectionRequest::PersistedValidationData(
                block,
                para_id,
                assumption,
            ) => SelectionRequestView::PersistedValidationData(block, para_id, assumption),
            SelectionRequest::BackedCandidates(
                block,
                candidates,
            ) => SelectionRequestView::BackedCandidates(block, candidates@),
        }
    }
}

/// The answer to a request. Each request can also stay without an answer.
#[derive(Debug)]
pub enum SelectionReply<B> {
    /// The number of the block, if it exists.
    BlockNumber(BlockNumberReply),
    /// The hash of the validation data, if there is any.
    PersistedValidationData(ValidationDataReply),
    /// The backed candidates.
    BackedCandidates(Result<Vec<BackedCandidate<B>>, Canceled>),
}

/// What an answer says.
pub enum SelectionReplyView<B> {
    BlockNumber(BlockNumberReply),
    PersistedValidationData(ValidationDataReply),
    BackedCandidates(Result<Seq<BackedCandidate<B>>, Canceled>),
}

impl<B> View for SelectionReply<B> {
    type V = SelectionReplyView<B>;

    open spec fn view(&self) -> SelectionReplyView<B> {
        match *self {
            SelectionReply::BlockNumber(reply) => SelectionReplyView::BlockNumber(reply),
            SelectionReply::PersistedValidationData(
                reply,
            ) => SelectionReplyView::PersistedValidationData(reply),
            SelectionReply::BackedCandidates(reply) => SelectionReplyView::BackedCandidates(
                match reply {
                    Ok(backed) => Ok(backed@),
                    Err(canceled) => Err(canceled),
                },
            ),
        }
    }
}

/// How far a selection has come.
#[derive(Debug)]
enum SelectionStage<B> {
    /// The block number is needed.
    BlockNumber,
    /// The validation data of the parachain that can get a candidate onto core `core_idx` is needed.
    ValidationData {
        block_number: BlockNumber,
        core_idx: usize,
        para_id: ParaId,
        assumption: OccupiedCoreAssumption,
        selected: Vec<CandidateHash>,
    },
    /// All cores have been gone through, and what backs the selected candidates is needed.
    BackedCandidates { selected: Vec<CandidateHash> },
    /// The selection has ended.
    Done(Result<Vec<BackedCandidate<B>>, Error>),
}

impl<B> View for SelectionStage<B> {
    type V = SelectionStageView<B>;

    closed spec fn view(&self) -> SelectionStageView<B> {
        match *self {
            SelectionStage::BlockNumber => SelectionStageView::BlockNumber,
            SelectionStage::ValidationData {
                block_number,
                core_idx,
                para_id,
                assumption,
                selected,
            } => SelectionStageView::ValidationData {
                block_number,
                core_idx: core_idx as int,
                para_id,
                assumption,
                selected: selected@,
            },
            SelectionStage::BackedCandidates { selected } => SelectionStageView::BackedCandidates {
                selected: selected@,
            },
            SelectionStage::Done(outcome) => SelectionStageView::Done(
                match outcome {
                    Ok(candidates) => Ok(candidates@),
                    Err(error) => Err(error),
                },
            ),
        }
    }
}

/// How far a selection has come.
pub enum SelectionStageView<B> {
    BlockNumber,
    ValidationData {
        block_number: BlockNumber,
        core_idx: int,
        para_id: ParaId,
        assumption: OccupiedCoreAssumption,
        selected: Seq<CandidateHash>,
    },
    BackedCandidates { selected: Seq<CandidateHash> },
    Done(Result<Seq<BackedCandidate<B>>, Error>),
}

/// A selection of candidates: what it is made from, and how far it has come.
pub struct SelectionView<B> {
    pub relay_parent: H256,
    pub cores: Seq<CoreState>,
    pub bitfields: Seq<SignedBitfieldView>,
    pub candidates: Seq<CandidateReceipt>,
    pub stage: SelectionStageView<B>,
}

/// Whether what the bitfields say of each core can be asked.
pub open spec fn cores_readable(
    cores: Seq<CoreState>,
    bitfields: Seq<SignedBitfieldView>,
) -> bool {
    forall|c: int| 0 <= c < cores.len() ==> core_readable(c, #[trigger] cores[c], bitfields)
}

impl<B> SelectionView<B> {
    /// The selection at its start.
    pub open spec fn initial(
        relay_parent: H256,
        cores: Seq<CoreState>,
        bitfields: Seq<SignedBitfieldView>,
        candidates: Seq<CandidateReceipt>,
    ) -> Self {
        SelectionView {
            relay_parent,
            cores,
            bitfields,
            candidates,
            stage: SelectionStageView::BlockNumber,
        }
    }

    /// What every selection keeps to.
    pub open spec fn wf(self) -> bool {
        &&& cores_readable(self.cores, self.bitfields)
        &&& self.stage matches SelectionStageView::ValidationData { core_idx, .. } ==> 0
            <= core_idx < self.cores.len()
    }

    /// This selection at another stage.
    pub open spec fn at(self, stage: SelectionStageView<B>) -> Self {
        SelectionView { stage, ..self }
    }

    /// What the selection needs to know next.
    pub open spec fn request(self) -> Option<SelectionRequestView> {
        match self.stage {
            SelectionStageView::BlockNumber => Some(
                SelectionRequestView::BlockNumber(self.relay_parent),
            ),
            SelectionStageView::ValidationData { para_id, assumption, .. } => Some(
                SelectionRequestView::PersistedValidationData(
                    self.relay_parent,
                    para_id,
                    assumption,
                ),
            ),
            SelectionStageView::BackedCandidates { selected } => Some(
                SelectionRequestView::BackedCandidates(self.relay_parent, selected),
            ),
            SelectionStageView::Done(_) => None,
        }
    }

    /// Whether the selection waits for an answer of this kind.
    pub open spec fn awaits(self, reply: SelectionReplyView<B>) -> bool {
        match reply {
            SelectionReplyView::BlockNumber(number) => {
                self.stage is BlockNumber && has_successor(number)
            },
            SelectionReplyView::PersistedValidationData(_) => self.stage is ValidationData,
            SelectionReplyView::BackedCandidates(_) => self.stage is BackedCandidates,
        }
    }

    /// The stage after the cores before core `from` have been gone through: the first core from there
    /// on that can get a candidate is next, or, if there is none, the backing of what has been
    /// selected.
    pub open spec fn resumed(
        self,
        block_number: BlockNumber,
        from: int,
        selected: Seq<CandidateHash>,
    ) -> SelectionStageView<B>
        decreases self.cores.len() - from,
    {
        if from >= self.cores.len() {
            SelectionStageView::BackedCandidates { selected }
        } else {
            match core_assignment(from, self.cores[from], self.bitfields, block_number) {
                Some((para_id, assumption)) => SelectionStageView::ValidationData {
                    block_number,
                    core_idx: from,
                    para_id,
                    assumption,
                    selected,
                },
                None => self.resumed(block_number, from + 1, selected),
            }
        }
    }

    /// What has been selected once the validation data of parachain `para_id` is known to have the
    /// hash `validation_data_hash`, or not to exist.
    pub open spec fn extended(
        self,
        selected: Seq<CandidateHash>,
        para_id: ParaId,
        validation_data_hash: Option<H256>,
    ) -> Seq<CandidateHash> {
        match validation_data_hash {
            Some(hash) => match first_suitable(self.candidates, para_id, hash) {
                Some(candidate) => selected.push(candidate.hash),
                None => selected,
            },
            None => selected,
        }
    }

    /// The selection after an answer that it waits for.
    pub open spec fn stepped(self, reply: SelectionReplyView<B>) -> Self {
        match (self.stage, reply) {
            (
                SelectionStageView::BlockNumber,
                SelectionReplyView::BlockNumber(number),
            ) => match block_number_under_construction(number) {
                Ok(block_number) => self.at(self.resumed(block_number, 0, Seq::empty())),
                Err(error) => self.at(SelectionStageView::Done(Err(error))),
            },
            (
                SelectionStageView::ValidationData {
                    block_number,
                    core_idx,
                    para_id,
                    selected,
                    ..
                },
                SelectionReplyView::PersistedValidationData(data),
            ) => match data {
                Err(canceled) => self.at(
                    SelectionStageView::Done(Err(Error::CanceledPersistedValidationData(canceled))),
                ),
                Ok(Err(error)) => self.at(SelectionStageView::Done(Err(Error::Runtime(error)))),
                Ok(Ok(hash)) => self.at(
                    self.resumed(
                        block_number,
                        core_idx + 1,
                        self.extended(selected, para_id, hash),
                    ),
                ),
            },
            (
                SelectionStageView::BackedCandidates { selected },
                SelectionReplyView::BackedCandidates(backed),
            ) => self.at(SelectionStageView::Done(confirmed(selected, backed))),
            _ => self,
        }
    }
}

impl<B> SelectionView<B> {
    /// The core that is next comes at or after `from`, it can get a candidate, and no core in between
    /// can.
    proof fn lemma_resumed(
        self,
        block_number: BlockNumber,
        from: int,
        selected: Seq<CandidateHash>,
    )
        requires
            0 <= from,
        ensures
            match self.resumed(block_number, from, selected) {
                SelectionStageView::ValidationData {
                    block_number: b,
                    core_idx,
                    para_id,
                    assumption,
                    selected: s,
                } => {
                    &&& b == block_number
                    &&& s == selected
                    &&& from <= core_idx < self.cores.len()
                    &&& core_assignment(
                        core_idx,
                        self.cores[core_idx],
                        self.bitfields,
                        block_number,
                    ) == Some((para_id, assumption))
                    &&& forall|c: int|
                        from <= c < core_idx ==> core_assignment(
                            c,
                            #[trigger] self.cores[c],
                            self.bitfields,
                            block_number,
                        ) is None
                },
                SelectionStageView::BackedCandidates { selected: s } => {
                    &&& s == selected
                    &&& forall|c: int|
                        from <= c < self.cores.len() ==> core_assignment(
                            c,
                            #[trigger] self.cores[c],
                            self.bitfields,
                            block_number,
                        ) is None
                },
                _ => false,
            },
        decreases self.cores.len() - from,
    {
        if from < self.cores.len() && core_assignment(
            from,
            self.cores[from],
            self.bitfields,
            block_number,
        ) is None {
            self.lemma_resumed(block_number, from + 1, selected);
        }
    }

    /// Whatever core is next is one of the cores.
    proof fn lemma_resumed_in_range(self)
        ensures
            forall|block_number: BlockNumber, from: int, selected: Seq<CandidateHash>|
                0 <= from ==> (#[trigger] self.resumed(
                    block_number,
                    from,
                    selected,
                ) matches SelectionStageView::ValidationData { core_idx, .. } ==> 0 <= core_idx
                    < self.cores.len()),
    {
        assert forall|block_number: BlockNumber, from: int, selected: Seq<CandidateHash>|
            0 <= from implies (#[trigger] self.resumed(
            block_number,
            from,
            selected,
        ) matches SelectionStageView::ValidationData { core_idx, .. } ==> 0 <= core_idx
            < self.cores.len()) by {
            self.lemma_resumed(block_number, from, selected);
        }
    }
}

/// The outcome of a selection once what backs the selected candidates has come back: what came back
/// without all but the first code upgrade, if it is in order.
pub open spec fn confirmed<B>(
    selected: Seq<CandidateHash>,
    backed: Result<Seq<BackedCandidate<B>>, Canceled>,
) -> Result<Seq<BackedCandidate<B>>, Error> {
    match backed {
        Err(canceled) => Err(Error::CanceledBackedCandidates(canceled)),
        Ok(candidates) => if in_selected_order(selected, backed_hashes(candidates)) {
            Ok(one_code_upgrade(candidates))
        } else {
            Err(Error::BackedCandidateOrderingProblem)
        },
    }
}

/// A selection of candidates for the block after `relay_parent`.
#[derive(Debug)]
pub struct CandidateSelection<'a, B> {
    relay_parent: H256,
    cores: Vec<CoreState>,
    bitfields: Vec<SignedAvailabilityBitfield>,
    candidates: &'a [CandidateReceipt],
    stage: SelectionStage<B>,
}

impl<'a, B> View for CandidateSelection<'a, B> {
    type V = SelectionView<B>;

    closed spec fn view(&self) -> SelectionView<B> {
        SelectionView {
            relay_parent: self.relay_parent,
            cores: self.cores@,
            bitfields: bitfield_views(self.bitfields@),
            candidates: self.candidates@,
            stage: self.stage.view(),
        }
    }
}

impl<'a, B> CandidateSelection<'a, B> {
    /// Starts to determine which cores are free, and then to the degree possible, to pick a candidate
    /// appropriate to each free core.
    pub fn new(
        relay_parent: H256,
        availability_cores: Vec<CoreState>,
        bitfields: Vec<SignedAvailabilityBitfield>,
        candidates: &'a [CandidateReceipt],
    ) -> (selection: Self)
        requires
            cores_readable(availability_cores@, bitfield_views(bitfields@)),
        ensures
            selection@ == SelectionView::<B>::initial(
                relay_parent,
                availability_cores@,
                bitfield_views(bitfields@),
                candidates@,
            ),
            selection@.wf(),
    {
        CandidateSelection {
            relay_parent,
            cores: availability_cores,
            bitfields,
            candidates,
            stage: SelectionStage::BlockNumber,
        }
    }

    /// What the selection needs to know next, or nothing if it has ended.
    pub fn request(&self) -> (request: Option<SelectionRequest>)
        ensures
            request is Some == self@.request() is Some,
            request matches Some(r) ==> self@.request() == Some(r@),
    {
        match &self.stage {
            SelectionStage::BlockNumber => Some(SelectionRequest::BlockNumber(self.relay_parent)),
            SelectionStage::ValidationData { para_id, assumption, .. } => Some(
                SelectionRequest::PersistedValidationData(self.relay_parent, *para_id, *assumption),
            ),
            SelectionStage::BackedCandidates { selected } => Some(
                SelectionRequest::BackedCandidates(self.relay_parent, selected.clone()),
            ),
            SelectionStage::Done(_) => None,
        }
    }

    /// The stage after the cores before core `from` have been gone through.
    fn resume(
        cores: &[CoreState],
        bitfields: &[SignedAvailabilityBitfield],
        block_number: BlockNumber,
        from: usize,
        selected: Vec<CandidateHash>,
        Ghost(whole): Ghost<SelectionView<B>>,
    ) -> (stage: SelectionStage<B>)
        requires
            from <= cores@.len(),
            whole.cores == cores@,
            whole.bitfields == bitfield_views(bitfields@),
            cores_readable(cores@, bitfield_views(bitfields@)),
        ensures
            stage.view() == whole.resumed(block_number, from as int, selected@),
    {
        let mut core_idx: usize = from;
        while core_idx < cores.len()
            invariant
                from <= core_idx <= cores@.len(),
                whole.cores == cores@,
                whole.bitfields == bitfield_views(bitfields@),
                cores_readable(cores@, bitfield_views(bitfields@)),
                whole.resumed(block_number, from as int, selected@) == whole.resumed(
                    block_number,
                    core_idx as int,
                    selected@,
                ),
            decreases cores@.len() - core_idx,
        {
            match assign_core(core_idx, &cores[core_idx], bitfields, block_number) {
                Some((para_id, assumption)) => {
                    return SelectionStage::ValidationData {
                        block_number,
                        core_idx,
                        para_id,
                        assumption,
                        selected,
                    };
                },
                None => {},
            }
            core_idx = core_idx + 1;
        }
        SelectionStage::BackedCandidates { selected }
    }

    /// Takes the answer that the selection waits for.
    pub fn step(self, reply: SelectionReply<B>) -> (next: Self)
        requires
            self@.wf(),
            self@.awaits(reply@),
        ensures
            next@ == self@.stepped(reply@),
            next@.wf(),
    {
        let ghost before = self@;
        proof {
            before.lemma_resumed_in_range();
        }
        let CandidateSelection { relay_parent, cores, bitfields, candidates, stage } = self;
        let next_stage: SelectionStage<B> = match (stage, reply) {
            (SelectionStage::BlockNumber, SelectionReply::BlockNumber(number)) => {
                match get_block_number_under_construction(number) {
                    Ok(block_number) => {
                        let selected: Vec<CandidateHash> = Vec::with_capacity(
                            if candidates.len() < cores.len() {
                                candidates.len()
                            } else {
                                cores.len()
                            },
                        );
                        Self::resume(&cores, &bitfields, block_number, 0, selected, Ghost(before))
                    },
                    Err(error) => SelectionStage::Done(Err(error)),
                }
            },
            (
                SelectionStage::ValidationData {
                    block_number,
                    core_idx,
                    para_id,
                    assumption,
                    selected,
                },
                SelectionReply::PersistedValidationData(data),
            ) => {
                match data {
                    Err(canceled) => SelectionStage::Done(
                        Err(Error::CanceledPersistedValidationData(canceled)),
                    ),
                    Ok(Err(error)) => SelectionStage::Done(Err(Error::Runtime(error))),
                    Ok(Ok(hash)) => {
                        assert(core_idx < cores.len());
                        let mut selected = selected;
                        if let Some(validation_data_hash) = hash {
                            // of the candidates that suit, the first is picked arbitrarily
                            if let Some(candidate) = find_candidate(
                                candidates,
                                para_id,
                                validation_data_hash,
                            ) {
                                selected.push(candidate.hash);
                            }
                        }
                        Self::resume(
                            &cores,
                            &bitfields,
                            block_number,
                            core_idx + 1,
                            selected,
                            Ghost(before),
                        )
                    },
                }
            },
            (
                SelectionStage::BackedCandidates { selected },
                SelectionReply::BackedCandidates(backed),
            ) => {
                match backed {
                    Err(canceled) => SelectionStage::Done(
                        Err(Error::CanceledBackedCandidates(canceled)),
                    ),
                    Ok(backed_candidates) => {
                        if check_backed_order(&selected, &backed_candidates) {
                            SelectionStage::Done(Ok(retain_one_code_upgrade(backed_candidates)))
                        } else {
                            SelectionStage::Done(Err(Error::BackedCandidateOrderingProblem))
                        }
                    },
                }
            },
            (stage, _) => stage,
        };
        CandidateSelection { relay_parent, cores, bitfields, candidates, stage: next_stage }
    }

    /// The bitfields that the selection was made with and its outcome, or the selection as it is if
    /// it has not ended.
    pub fn finish(self) -> (outcome: Result<
        (Vec<SignedAvailabilityBitfield>, Result<Vec<BackedCandidate<B>>, Error>),
        Self,
    >)
        ensures
            match self@.stage {
                SelectionStageView::Done(Ok(candidates)) => {
                    &&& outcome matches Ok((bitfields, Ok(backed)))
                    &&& bitfield_views(bitfields@) == self@.bitfields
                    &&& backed@ == candidates
                },
                SelectionStageView::Done(Err(error)) => {
                    &&& outcome matches Ok((bitfields, Err(e)))
                    &&& bitfield_views(bitfields@) == self@.bitfields
                    &&& e == error
                },
                _ => outcome == Err::<
                    (Vec<SignedAvailabilityBitfield>, Result<Vec<BackedCandidate<B>>, Error>),
                    Self,
                >(self),
            },
    {
        let CandidateSelection { relay_parent, cores, bitfields, candidates, stage } = self;
        match stage {
            SelectionStage::Done(outcome) => Ok((bitfields, outcome)),
            stage => Err(
                CandidateSelection { relay_parent, cores, bitfields, candidates, stage },
            ),
        }
    }
}

/// The block under construction has the number after that of its relay parent. Without a relay parent
/// its number is 0, and a failure to tell the number is passed on. Only the largest number has none
/// after it.
pub proof fn law_block_number_follows_that_of_the_relay_parent(
    n: BlockNumber,
    error: ChainApiError,
    canceled: Canceled,
)
    ensures
        has_successor(Ok(Ok(Some(n)))) <==> n < 0xffff_ffff,
        n < 0xffff_ffff ==> (block_number_under_construction(Ok(Ok(Some(n)))) matches Ok(next)
            && next == n + 1),
        has_successor(Ok(Ok(None))),
        block_number_under_construction(Ok(Ok(None))) == Ok::<BlockNumber, Error>(0),
        has_successor(Ok(Err(error))),
        block_number_under_construction(Ok(Err(error))) == Err::<BlockNumber, Error>(
            Error::ChainApi(error),
        ),
        has_successor(Err(canceled)),
        block_number_under_construction(Err(canceled)) == Err::<BlockNumber, Error>(
            Error::CanceledBlockNumber(canceled),
        ),
{
}

/// Which core is next: the first from `from` on that can get a candidate, or, if none can, the backing
/// of what has been selected.
proof fn lemma_resumed_at<B>(
    selection: SelectionView<B>,
    block_number: BlockNumber,
    from: int,
    selected: Seq<CandidateHash>,
    c: int,
)
    requires
        0 <= from <= c <= selection.cores.len(),
        forall|k: int|
            from <= k < c ==> core_assignment(
                k,
                #[trigger] selection.cores[k],
                selection.bitfields,
                block_number,
            ) is None,
        c < selection.cores.len() ==> core_assignment(
            c,
            selection.cores[c],
            selection.bitfields,
            block_number,
        ) is Some,
    ensures
        selection.resumed(block_number, from, selected) == (if c < selection.cores.len() {
            let (para_id, assumption) = core_assignment(
                c,
                selection.cores[c],
                selection.bitfields,
                block_number,
            )->Some_0;
            SelectionStageView::<B>::ValidationData {
                block_number,
                core_idx: c,
                para_id,
                assumption,
                selected,
            }
        } else {
            SelectionStageView::<B>::BackedCandidates { selected }
        }),
    decreases c - from,
{
    if from < c {
        assert(core_assignment(
            from,
            selection.cores[from],
            selection.bitfields,
            block_number,
        ) is None);
        lemma_resumed_at(selection, block_number, from + 1, selected, c);
    }
}

/// A selection starts by asking for the number of its relay parent, and is made from what it was given.
pub proof fn law_selection_starts_with_the_block_number<B>(
    relay_parent: H256,
    cores: Seq<CoreState>,
    bitfields: Seq<SignedBitfieldView>,
    candidates: Seq<CandidateReceipt>,
)
    ensures
        ({
            let selection = SelectionView::<B>::initial(relay_parent, cores, bitfields, candidates);
            &&& selection.relay_parent == relay_parent
            &&& selection.cores == cores
            &&& selection.bitfields == bitfields
            &&& selection.candidates == candidates
            &&& selection.stage is BlockNumber
            &&& selection.request() == Some(SelectionRequestView::BlockNumber(relay_parent))
        }),
{
}

/// A selection can be made of any cores if each bitfield has at least one bit per core.
pub proof fn law_cores_with_bits_can_be_selected_for<B>(
    relay_parent: H256,
    cores: Seq<CoreState>,
    bitfields: Seq<SignedBitfieldView>,
    candidates: Seq<CandidateReceipt>,
)
    requires
        forall|i: int|
            0 <= i < bitfields.len() ==> cores.len() <= (#[trigger] bitfields[i]).bits.len(),
    ensures
        cores_readable(cores, bitfields),
        SelectionView::<B>::initial(relay_parent, cores, bitfields, candidates).wf(),
{
    assert forall|c: int| 0 <= c < cores.len() implies core_readable(
        c,
        #[trigger] cores[c],
        bitfields,
    ) by {
        law_core_can_be_assigned(c, cores[c], bitfields, bitfields.len() as int);
    }
}

/// A selection waits for an answer to the question that it asks, and for no other. The largest block
/// number is no answer.
pub proof fn law_selection_awaits_the_answer_to_its_question<B>(
    selection: SelectionView<B>,
    reply: SelectionReplyView<B>,
)
    ensures
        selection.awaits(reply) <==> match (selection.request(), reply) {
            (
                Some(SelectionRequestView::BlockNumber(_)),
                SelectionReplyView::BlockNumber(Ok(Ok(Some(n)))),
            ) => n < 0xffff_ffff,
            (
                Some(SelectionRequestView::BlockNumber(_)),
                SelectionReplyView::BlockNumber(_),
            ) => true,
            (
                Some(SelectionRequestView::PersistedValidationData(_, _, _)),
                SelectionReplyView::PersistedValidationData(_),
            ) => true,
            (
                Some(SelectionRequestView::BackedCandidates(_, _)),
                SelectionReplyView::BackedCandidates(_),
            ) => true,
            _ => false,
        },
        selection.request() is None <==> selection.stage is Done,
{
}

/// Once the number of the relay parent is known, the selection goes on with nothing selected: at the
/// first core that can get a candidate in the next block, whose parachain's validation data it asks
/// for, or, if there is none, with the question for what backs nothing.
pub proof fn law_block_number_leads_to_the_first_core<B>(
    selection: SelectionView<B>,
    told: Option<BlockNumber>,
    block_number: BlockNumber,
    c: int,
)
    requires
        selection.stage is BlockNumber,
        told matches Some(n) ==> block_number == n + 1,
        told is None ==> block_number == 0,
        0 <= c <= selection.cores.len(),
        forall|k: int|
            0 <= k < c ==> core_assignment(
                k,
                #[trigger] selection.cores[k],
                selection.bitfields,
                block_number,
            ) is None,
        c < selection.cores.len() ==> core_assignment(
            c,
            selection.cores[c],
            selection.bitfields,
            block_number,
        ) is Some,
    ensures
        ({
            let next = selection.stepped(SelectionReplyView::BlockNumber(Ok(Ok(told))));
            &&& next.relay_parent == selection.relay_parent
            &&& next.cores == selection.cores
            &&& next.bitfields == selection.bitfields
            &&& next.candidates == selection.candidates
            &&& c < selection.cores.len() ==> {
                let (para_id, assumption) = core_assignment(
                    c,
                    selection.cores[c],
                    selection.bitfields,
                    block_number,
                )->Some_0;
                &&& next.stage == (SelectionStageView::<B>::ValidationData {
                    block_number,
                    core_idx: c,
                    para_id,
                    assumption,
                    selected: Seq::empty(),
                })
                &&& next.request() == Some(
                    SelectionRequestView::PersistedValidationData(
                        selection.relay_parent,
                        para_id,
                        assumption,
                    ),
                )
            }
            &&& c == selection.cores.len() ==> {
                &&& next.stage == (SelectionStageView::<B>::BackedCandidates { selected: Seq::empty() })
                &&& next.request() == Some(
                    SelectionRequestView::BackedCandidates(selection.relay_parent, Seq::empty()),
                )
            }
        }),
{
    lemma_resumed_at(selection, block_number, 0, Seq::empty(), c);
}

/// Once the validation data of a parachain is known, the hash of the first candidate that names both
/// the parachain and the data is put behind those that are selected; if there is no such candidate, or
/// no validation data, nothing is. Then the selection goes on at the first later core that can get a
/// candidate, or, if there is none, asks for what backs all that it has selected.
pub proof fn law_validation_data_leads_to_the_next_core<B>(
    selection: SelectionView<B>,
    block_number: BlockNumber,
    core_idx: int,
    para_id: ParaId,
    assumption: OccupiedCoreAssumption,
    selected: Seq<CandidateHash>,
    told: Option<H256>,
    pick: Option<int>,
    c: int,
)
    requires
        selection.stage == (SelectionStageView::<B>::ValidationData {
            block_number,
            core_idx,
            para_id,
            assumption,
            selected,
        }),
        0 <= core_idx < c <= selection.cores.len(),
        forall|k: int|
            core_idx < k < c ==> core_assignment(
                k,
                #[trigger] selection.cores[k],
                selection.bitfields,
                block_number,
            ) is None,
        c < selection.cores.len() ==> core_assignment(
            c,
            selection.cores[c],
            selection.bitfields,
            block_number,
        ) is Some,
        match (told, pick) {
            (Some(hash), Some(i)) => {
                &&& 0 <= i < selection.candidates.len()
                &&& selection.candidates[i].descriptor.para_id == para_id
                &&& selection.candidates[i].descriptor.persisted_validation_data_hash == hash
                &&& forall|j: int|
                    0 <= j < i ==> (#[trigger] selection.candidates[j]).descriptor.para_id
                        != para_id
                        || selection.candidates[j].descriptor.persisted_validation_data_hash
                        != hash
            },
            (Some(hash), None) => forall|j: int|
                0 <= j < selection.candidates.len() ==> (
                #[trigger] selection.candidates[j]).descriptor.para_id != para_id
                    || selection.candidates[j].descriptor.persisted_validation_data_hash != hash,
            (None, pick) => pick is None,
        },
    ensures
        ({
            let next = selection.stepped(
                SelectionReplyView::PersistedValidationData(Ok(Ok(told))),
            );
            let now = match pick {
                Some(i) => selected.push(selection.candidates[i].hash),
                None => selected,
            };
            &&& next.relay_parent == selection.relay_parent
            &&& next.cores == selection.cores
            &&& next.bitfields == selection.bitfields
            &&& next.candidates == selection.candidates
            &&& c < selection.cores.len() ==> {
                let (para_id, assumption) = core_assignment(
                    c,
                    selection.cores[c],
                    selection.bitfields,
                    block_number,
                )->Some_0;
                &&& next.stage == (SelectionStageView::<B>::ValidationData {
                    block_number,
                    core_idx: c,
                    para_id,
                    assumption,
                    selected: now,
                })
                &&& next.request() == Some(
                    SelectionRequestView::PersistedValidationData(
                        selection.relay_parent,
                        para_id,
                        assumption,
                    ),
                )
            }
            &&& c == selection.cores.len() ==> {
                &&& next.stage == (SelectionStageView::<B>::BackedCandidates { selected: now })
                &&& next.request() == Some(
                    SelectionRequestView::BackedCandidates(selection.relay_parent, now),
                )
            }
        }),
{
    if let Some(hash) = told {
        match pick {
            Some(i) => law_first_match_is_found(selection.candidates, para_id, hash, i),
            None => law_without_a_match_nothing_is_found(selection.candidates, para_id, hash),
        }
    }
    let now = match pick {
        Some(i) => selected.push(selection.candidates[i].hash),
        None => selected,
    };
    lemma_resumed_at(selection, block_number, core_idx + 1, now, c);
}

/// A failure to answer ends the selection with the error that belongs to the question. Nothing more is
/// asked then.
pub proof fn law_failure_ends_the_selection<B>(
    selection: SelectionView<B>,
    canceled: Canceled,
    chain: ChainApiError,
    runtime: RuntimeApiError,
)
    ensures
        selection.stage is BlockNumber ==> {
            let gone = selection.stepped(SelectionReplyView::BlockNumber(Err(canceled)));
            let failed = selection.stepped(SelectionReplyView::BlockNumber(Ok(Err(chain))));
            &&& gone.stage == SelectionStageView::<B>::Done(
                Err(Error::CanceledBlockNumber(canceled)),
            )
            &&& failed.stage == SelectionStageView::<B>::Done(Err(Error::ChainApi(chain)))
            &&& gone.request() is None
            &&& failed.request() is None
        },
        selection.stage is ValidationData ==> {
            let gone = selection.stepped(
                SelectionReplyView::PersistedValidationData(Err(canceled)),
            );
            let failed = selection.stepped(
                SelectionReplyView::PersistedValidationData(Ok(Err(runtime))),
            );
            &&& gone.stage == SelectionStageView::<B>::Done(
                Err(Error::CanceledPersistedValidationData(canceled)),
            )
            &&& failed.stage == SelectionStageView::<B>::Done(Err(Error::Runtime(runtime)))
            &&& gone.request() is None
            &&& failed.request() is None
        },
        selection.stage is BackedCandidates ==> {
            let gone = selection.stepped(SelectionReplyView::BackedCandidates(Err(canceled)));
            &&& gone.stage == SelectionStageView::<B>::Done(
                Err(Error::CanceledBackedCandidates(canceled)),
            )
            &&& gone.request() is None
        },
{
}

/// Backed candidates that come back at ascending positions of the selection end it with success: all
/// of them come out but those that replace validation code after the first that does.
pub proof fn law_backing_in_order_ends_the_selection<B>(
    selection: SelectionView<B>,
    selected: Seq<CandidateHash>,
    backed: Seq<BackedCandidate<B>>,
    positions: Seq<int>,
)
    requires
        selection.stage == (SelectionStageView::<B>::BackedCandidates { selected }),
        positions.len() == backed.len(),
        forall|i: int|
            0 <= i < positions.len() ==> 0 <= #[trigger] positions[i] < selected.len()
                && selected[positions[i]] == backed[i].hash,
        forall|i: int, j: int| 0 <= i < j < positions.len() ==> positions[i] < positions[j],
    ensures
        ({
            let next = selection.stepped(SelectionReplyView::BackedCandidates(Ok(backed)));
            &&& next.relay_parent == selection.relay_parent
            &&& next.cores == selection.cores
            &&& next.bitfields == selection.bitfields
            &&& next.candidates == selection.candidates
            &&& next.stage == SelectionStageView::<B>::Done(Ok(one_code_upgrade(backed)))
            &&& next.request() is None
        }),
{
    law_candidates_at_ascending_positions_are_in_order(selected, backed, positions);
}

/// Backed candidates that come back in any other way end the selection with an error: if it succeeds,
/// they are at ascending positions of the selection.
pub proof fn law_backing_out_of_order_is_an_error<B>(
    selection: SelectionView<B>,
    selected: Seq<CandidateHash>,
    backed: Seq<BackedCandidate<B>>,
) -> (positions: Seq<int>)
    requires
        selection.stage == (SelectionStageView::<B>::BackedCandidates { selected }),
    ensures
        ({
            let next = selection.stepped(SelectionReplyView::BackedCandidates(Ok(backed)));
            &&& next.relay_parent == selection.relay_parent
            &&& next.cores == selection.cores
            &&& next.bitfields == selection.bitfields
            &&& next.candidates == selection.candidates
            &&& match next.stage {
                SelectionStageView::Done(Ok(_)) => {
                    &&& positions.len() == backed.len()
                    &&& forall|i: int|
                        0 <= i < positions.len() ==> 0 <= #[trigger] positions[i] < selected.len()
                            && selected[positions[i]] == backed[i].hash
                    &&& forall|i: int, j: int|
                        0 <= i < j < positions.len() ==> positions[i] < positions[j]
                },
                SelectionStageView::Done(Err(error)) => error
                    == Error::BackedCandidateOrderingProblem,
                _ => false,
            }
        }),
{
    if in_selected_order(selected, backed_hashes(backed)) {
        law_candidates_in_order_are_at_ascending_positions(selected, backed)
    } else {
        Seq::empty()
    }
}

/// The view of a request says all of it: which block is asked about, and what.
pub proof fn law_selection_request_view_says_all(request: SelectionRequest)
    ensures
        request matches SelectionRequest::BlockNumber(block) ==> request@
            == SelectionRequestView::BlockNumber(block),
        request matches SelectionRequest::PersistedValidationData(block, para_id, assumption)
            ==> request@ == SelectionRequestView::PersistedValidationData(
            block,
            para_id,
            assumption,
        ),
        request matches SelectionRequest::BackedCandidates(block, candidates) ==> request@
            == SelectionRequestView::BackedCandidates(block, candidates@),
{
}

/// The view of an answer says all of it.
pub proof fn law_selection_reply_view_says_all<B>(reply: SelectionReply<B>)
    ensures
        reply matches SelectionReply::BlockNumber(number) ==> reply@
            == SelectionReplyView::<B>::BlockNumber(number),
        reply matches SelectionReply::PersistedValidationData(data) ==> reply@
            == SelectionReplyView::<B>::PersistedValidationData(data),
        reply matches SelectionReply::BackedCandidates(Ok(backed)) ==> reply@
            == SelectionReplyView::<B>::BackedCandidates(Ok(backed@)),
        reply matches SelectionReply::BackedCandidates(Err(canceled)) ==> reply@
            == SelectionReplyView::<B>::BackedCandidates(Err(canceled)),
{
}

} // verus!
