//! What comes of a whole selection of candidates, and of a whole assembly of inherent data.
//!
//! The steps of [`crate::selection`] and [`crate::inherent`] each take one answer. Here stands what
//! they lead to, given all the answers, and what holds of it.

use vstd::prelude::*;

use crate::bitfields::{
    indicate_availability, is_selection, law_selection_exists, selected_bitfields,
};
use crate::candidates::{
    backed_hashes, code_upgrades, core_assignment, first_suitable, in_selected_order,
    law_found_candidate_suits, law_one_code_upgrade_is_kept, law_other_candidates_are_kept,
    law_subsequence_is_found_in_order, law_suitable_candidate_is_found, suits,
};
use crate::error::{Canceled, Error, RuntimeApiError};
use crate::hash::H256;
use crate::inherent::{InherentReplyView, InherentStageView, InherentView};
use crate::primitives::{
    BackedCandidate, BlockNumber, CandidateHash, CandidateReceipt, CoreState,
    DisputeStatementSetView, InherentDataView, OccupiedCoreAssumption, ParaId, SessionIndex,
    SignedBitfieldView,
};
use crate::selection::{
    block_number_under_construction, confirmed, has_successor, BlockNumberReply,
    SelectionReplyView, SelectionStageView, SelectionView, ValidationDataReply,
};

verus! {

/// What a selection of candidates is told.
pub struct SelectionAnswers<B> {
    /// The number of the relay parent.
    pub block_number: BlockNumberReply,
    /// The validation data of the parachain that can get a candidate onto a core.
    pub validation_data: spec_fn(int) -> ValidationDataReply,
    /// What backs the candidates that have been selected.
    pub backed: spec_fn(Seq<CandidateHash>) -> Result<Seq<BackedCandidate<B>>, Canceled>,
}

impl<B> SelectionAnswers<B> {
    /// The answer that a selection gets next.
    pub open spec fn next(self, selection: SelectionView<B>) -> SelectionReplyView<B> {
        match selection.stage {
            SelectionStageView::ValidationData {
                core_idx,
                ..
            } => SelectionReplyView::PersistedValidationData((self.validation_data)(core_idx)),
            SelectionStageView::BackedCandidates {
                selected,
            } => SelectionReplyView::BackedCandidates((self.backed)(selected)),
            _ => SelectionReplyView::BlockNumber(self.block_number),
        }
    }
}

/// A selection after it has been told `n` answers.
pub open spec fn selection_after<B>(
    selection: SelectionView<B>,
    answers: SelectionAnswers<B>,
    n: nat,
) -> SelectionView<B>
    decreases n,
{
    if n == 0 {
        selection
    } else {
        selection_after(selection.stepped(answers.next(selection)), answers, (n - 1) as nat)
    }
}

/// What the picks of candidates depend on.
pub struct PickContext {
    pub cores: Seq<CoreState>,
    pub bitfields: Seq<SignedBitfieldView>,
    pub candidates: Seq<CandidateReceipt>,
    /// The number of the block under construction.
    pub block_number: BlockNumber,
    /// The validation data of the parachain that can get a candidate onto a core.
    pub validation_data: spec_fn(int) -> ValidationDataReply,
}

impl PickContext {
    /// The parachain that can get a candidate onto core `core`, and what has to be assumed for that.
    pub open spec fn assignment(self, core: int) -> Option<(ParaId, OccupiedCoreAssumption)> {
        core_assignment(core, self.cores[core], self.bitfields, self.block_number)
    }

    /// The candidates that are selected for the first `n` cores, each with its core, in order of the
    /// cores; or the error that ends the selection before.
    pub open spec fn picks(self, n: nat) -> Result<Seq<(int, CandidateReceipt)>, Error>
        decreases n,
    {
        if n == 0 {
            Ok(Seq::empty())
        } else {
            let core = n - 1;
            match self.picks((n - 1) as nat) {
                Err(error) => Err(error),
                Ok(earlier) => match self.assignment(core) {
                    None => Ok(earlier),
                    Some((para_id, _)) => match (self.validation_data)(core) {
                        Err(canceled) => Err(Error::CanceledPersistedValidationData(canceled)),
                        Ok(Err(error)) => Err(Error::Runtime(error)),
                        Ok(Ok(None)) => Ok(earlier),
                        Ok(Ok(Some(hash))) => match first_suitable(
                            self.candidates,
                            para_id,
                            hash,
                        ) {
                            Some(candidate) => Ok(earlier.push((core, candidate))),
                            None => Ok(earlier),
                        },
                    },
                },
            }
        }
    }

    /// Whether `candidate` is what core `core` gets: the first candidate of the parachain that can get
    /// one onto the core which was made with the validation data of that parachain.
    pub open spec fn fits(self, core: int, candidate: CandidateReceipt) -> bool {
        &&& 0 <= core < self.cores.len()
        &&& self.assignment(core) matches Some((para_id, _))
        &&& (self.validation_data)(core) matches Ok(Ok(Some(hash)))
        &&& first_suitable(self.candidates, para_id, hash) == Some(candidate)
    }

    /// Whether all cores onto which the same parachain gets a candidate are told the same validation
    /// data for it. That is so if each parachain can get a candidate onto no more than one core.
    pub open spec fn validation_data_agrees(self) -> bool {
        forall|one: int, other: int, a: CandidateReceipt, b: CandidateReceipt|
            #![trigger self.fits(one, a), self.fits(other, b)]
            self.fits(one, a) && self.fits(other, b) && a.descriptor.para_id
                == b.descriptor.para_id ==> (self.validation_data)(one) == (self.validation_data)(
                other,
            )
    }

    /// Whether `backed` are backed candidates for the cores and candidates `at`: the cores ascend, and
    /// each has the hash of a candidate that fits it.
    pub open spec fn backs<B>(
        self,
        backed: Seq<BackedCandidate<B>>,
        at: Seq<(int, CandidateReceipt)>,
    ) -> bool {
        &&& at.len() == backed.len()
        &&& forall|i: int, j: int| 0 <= i < j < at.len() ==> at[i].0 < at[j].0
        &&& forall|i: int|
            0 <= i < at.len() ==> self.fits((#[trigger] at[i]).0, at[i].1) && backed[i].hash
                == at[i].1.hash
    }
}

/// The hashes of picked candidates.
pub open spec fn pick_hashes(picked: Seq<(int, CandidateReceipt)>) -> Seq<CandidateHash> {
    picked.map_values(|pick: (int, CandidateReceipt)| pick.1.hash)
}

/// What the picks of a selection depend on, once the block number is known.
pub open spec fn pick_context<B>(
    cores: Seq<CoreState>,
    bitfields: Seq<SignedBitfieldView>,
    candidates: Seq<CandidateReceipt>,
    answers: SelectionAnswers<B>,
    block_number: BlockNumber,
) -> PickContext {
    PickContext {
        cores,
        bitfields,
        candidates,
        block_number,
        validation_data: answers.validation_data,
    }
}

/// What comes of a selection of candidates.
pub open spec fn selection_outcome<B>(
    cores: Seq<CoreState>,
    bitfields: Seq<SignedBitfieldView>,
    candidates: Seq<CandidateReceipt>,
    answers: SelectionAnswers<B>,
) -> Result<Seq<BackedCandidate<B>>, Error> {
    match block_number_under_construction(answers.block_number) {
        Err(error) => Err(error),
        Ok(block_number) => match pick_context(
            cores,
            bitfields,
            candidates,
            answers,
            block_number,
        ).picks(cores.len()) {
            Err(error) => Err(error),
            Ok(picked) => {
                let selected = pick_hashes(picked);
                confirmed(selected, (answers.backed)(selected))
            },
        },
    }
}

/// A selection that has not ended waits for the answer that it gets next.
pub proof fn law_selection_never_stalls<B>(
    selection: SelectionView<B>,
    answers: SelectionAnswers<B>,
)
    requires
        has_successor(answers.block_number),
        selection.stage !is Done,
    ensures
        selection.request() is Some,
        selection.awaits(answers.next(selection)),
{
}

/// An error that ends the selection at one core is what the selection ends with.
proof fn lemma_error_stays(context: PickContext, n: nat, m: nat)
    requires
        n <= m,
        context.picks(n) is Err,
    ensures
        context.picks(m) == context.picks(n),
    decreases m,
{
    if n < m {
        lemma_error_stays(context, n, (m - 1) as nat);
    }
}

/// From core `from` on, the selection goes as [`PickContext::picks`] says.
proof fn lemma_selection_from<B>(
    selection: SelectionView<B>,
    answers: SelectionAnswers<B>,
    block_number: BlockNumber,
    from: nat,
    picked: Seq<(int, CandidateReceipt)>,
) -> (n: nat)
    requires
        block_number_under_construction(answers.block_number) == Ok::<BlockNumber, Error>(
            block_number,
        ),
        from <= selection.cores.len(),
        pick_context(
            selection.cores,
            selection.bitfields,
            selection.candidates,
            answers,
            block_number,
        ).picks(from) == Ok::<Seq<(int, CandidateReceipt)>, Error>(picked),
        selection.stage == selection.resumed(block_number, from as int, pick_hashes(picked)),
    ensures
        n <= selection.cores.len() - from + 1,
        selection_after(selection, answers, n) == selection.at(
            SelectionStageView::Done(
                selection_outcome(
                    selection.cores,
                    selection.bitfields,
                    selection.candidates,
                    answers,
                ),
            ),
        ),
    decreases selection.cores.len() - from,
{
    let cores = selection.cores;
    let selected = pick_hashes(picked);
    let context = pick_context(
        cores,
        selection.bitfields,
        selection.candidates,
        answers,
        block_number,
    );
    let outcome = selection_outcome(cores, selection.bitfields, selection.candidates, answers);
    if from == cores.len() {
        assert(selection_after(selection.stepped(answers.next(selection)), answers, 0)
            == selection.stepped(answers.next(selection)));
        assert(selection_after(selection, answers, 1) == selection.stepped(
            answers.next(selection),
        ));
        1
    } else {
        let core = from as int;
        match context.assignment(core) {
            None => {
                lemma_selection_from(selection, answers, block_number, from + 1, picked)
            },
            Some((para_id, _)) => {
                let next = selection.stepped(answers.next(selection));
                let told = (answers.validation_data)(core);
                if told is Err || told->Ok_0 is Err {
                    lemma_error_stays(context, from + 1, cores.len());
                    assert(next == selection.at(SelectionStageView::Done(outcome)));
                    assert(selection_after(next, answers, 0) == next);
                    assert(selection_after(selection, answers, 1) == next);
                    1
                } else {
                    let now = context.picks(from + 1)->Ok_0;
                    assert(pick_hashes(now) =~= selection.extended(
                        selected,
                        para_id,
                        told->Ok_0->Ok_0,
                    ));
                    lemma_resumed_same(
                        selection,
                        next,
                        block_number,
                        from + 1,
                        pick_hashes(now),
                    );
                    let rest = lemma_selection_from(next, answers, block_number, from + 1, now);
                    assert(selection_after(selection, answers, rest + 1) == selection_after(
                        next,
                        answers,
                        rest,
                    ));
                    rest + 1
                }
            },
        }
    }
}

/// Which core is next does not depend on the stage.
proof fn lemma_resumed_same<B>(
    one: SelectionView<B>,
    other: SelectionView<B>,
    block_number: BlockNumber,
    from: nat,
    selected: Seq<CandidateHash>,
)
    requires
        one.cores == other.cores,
        one.bitfields == other.bitfields,
    ensures
        one.resumed(block_number, from as int, selected) == other.resumed(
            block_number,
            from as int,
            selected,
        ),
    decreases one.cores.len() - from,
{
    if from < one.cores.len() {
        lemma_resumed_same(one, other, block_number, from + 1, selected);
    }
}

/// A selection ends, after at most one answer per core and two more, with its outcome.
pub proof fn law_selection_ends_with_its_outcome<B>(
    relay_parent: H256,
    cores: Seq<CoreState>,
    bitfields: Seq<SignedBitfieldView>,
    candidates: Seq<CandidateReceipt>,
    answers: SelectionAnswers<B>,
) -> (n: nat)
    requires
        has_successor(answers.block_number),
    ensures
        n <= cores.len() + 2,
        selection_after(
            SelectionView::<B>::initial(relay_parent, cores, bitfields, candidates),
            answers,
            n,
        ).stage == SelectionStageView::Done(
            selection_outcome(cores, bitfields, candidates, answers),
        ),
{
    let initial = SelectionView::<B>::initial(relay_parent, cores, bitfields, candidates);
    let next = initial.stepped(answers.next(initial));
    match block_number_under_construction(answers.block_number) {
        Err(_) => {
            assert(selection_after(next, answers, 0) == next);
            assert(selection_after(initial, answers, 1) == next);
            1
        },
        Ok(block_number) => {
            assert(pick_hashes(Seq::empty()) =~= Seq::empty());
            lemma_resumed_same(initial, next, block_number, 0, Seq::empty());
            let rest = lemma_selection_from(next, answers, block_number, 0, Seq::empty());
            assert(selection_after(initial, answers, rest + 1) == selection_after(
                next,
                answers,
                rest,
            ));
            rest + 1
        },
    }
}

/// Candidates are picked in ascending order of the cores, at most one per core.
pub proof fn law_picks_ascend_the_cores(context: PickContext, n: nat)
    ensures
        context.picks(n) matches Ok(picked) ==> {
            &&& forall|a: int| 0 <= a < picked.len() ==> 0 <= (#[trigger] picked[a]).0 < n
            &&& forall|a: int, b: int| 0 <= a < b < picked.len() ==> picked[a].0 < picked[b].0
        },
    decreases n,
{
    if n > 0 {
        law_picks_ascend_the_cores(context, (n - 1) as nat);
    }
}

/// Each picked candidate fits its core.
pub proof fn law_picks_fit_their_cores(context: PickContext, n: nat)
    requires
        n <= context.cores.len(),
    ensures
        context.picks(n) matches Ok(picked) ==> forall|a: int|
            0 <= a < picked.len() ==> context.fits((#[trigger] picked[a]).0, picked[a].1),
    decreases n,
{
    if n > 0 {
        law_picks_fit_their_cores(context, (n - 1) as nat);
    }
}

/// A candidate that fits a core was made for the parachain that can get one onto the core, and is one
/// of the candidates.
pub proof fn law_fitting_candidate_suits(
    context: PickContext,
    core: int,
    candidate: CandidateReceipt,
)
    requires
        context.fits(core, candidate),
    ensures
        context.candidates.contains(candidate),
        suits(
            candidate,
            context.assignment(core)->Some_0.0,
            (context.validation_data)(core)->Ok_0->Ok_0->Some_0,
        ),
{
    law_found_candidate_suits(
        context.candidates,
        context.assignment(core)->Some_0.0,
        (context.validation_data)(core)->Ok_0->Ok_0->Some_0,
    );
}

/// A candidate is picked for each core for which there is one: if a parachain can get a candidate onto
/// the core, its validation data is known and one of the candidates was made with it.
pub proof fn law_core_gets_a_candidate_if_possible(
    context: PickContext,
    n: nat,
    picked: Seq<(int, CandidateReceipt)>,
    core: int,
    i: int,
)
    requires
        context.picks(n) == Ok::<Seq<(int, CandidateReceipt)>, Error>(picked),
        0 <= core < n,
        context.assignment(core) is Some,
        (context.validation_data)(core) matches Ok(Ok(Some(_))),
        0 <= i < context.candidates.len(),
        suits(
            context.candidates[i],
            context.assignment(core)->Some_0.0,
            (context.validation_data)(core)->Ok_0->Ok_0->Some_0,
        ),
    ensures
        exists|a: int| 0 <= a < picked.len() && (#[trigger] picked[a]).0 == core,
    decreases n,
{
    let earlier = context.picks((n - 1) as nat)->Ok_0;
    if core == n - 1 {
        law_suitable_candidate_is_found(
            context.candidates,
            context.assignment(core)->Some_0.0,
            (context.validation_data)(core)->Ok_0->Ok_0->Some_0,
            i,
        );
        assert(picked[earlier.len() as int].0 == core);
    } else {
        law_core_gets_a_candidate_if_possible(context, (n - 1) as nat, earlier, core, i);
        let a = choose|a: int| 0 <= a < earlier.len() && (#[trigger] earlier[a]).0 == core;
        assert(picked[a].0 == core);
    }
}

/// There are never two distinct candidates that fit cores for the same parachain, as long as a
/// parachain that gets candidates onto several cores is told the same validation data for each of
/// them.
pub proof fn law_fitting_candidates_do_not_conflict(
    context: PickContext,
    one: int,
    other: int,
    a: CandidateReceipt,
    b: CandidateReceipt,
)
    requires
        context.validation_data_agrees(),
        context.fits(one, a),
        context.fits(other, b),
        a.descriptor.para_id == b.descriptor.para_id,
    ensures
        a == b,
{
    law_fitting_candidate_suits(context, one, a);
    law_fitting_candidate_suits(context, other, b);
}

/// There are never two distinct backed candidates for the same parachain, under the same condition.
pub proof fn law_backed_candidates_do_not_conflict<B>(
    context: PickContext,
    backed: Seq<BackedCandidate<B>>,
    at: Seq<(int, CandidateReceipt)>,
    i: int,
    j: int,
)
    requires
        context.validation_data_agrees(),
        context.backs(backed, at),
        0 <= i < backed.len(),
        0 <= j < backed.len(),
        at[i].1.descriptor.para_id == at[j].1.descriptor.para_id,
    ensures
        backed[i].hash == backed[j].hash,
{
    law_fitting_candidates_do_not_conflict(context, at[i].0, at[j].0, at[i].1, at[j].1);
}

/// A new candidate fits an occupied core only if the candidate on it has been declared available by
/// the bitfields, or expires at the block under construction.
pub proof fn law_fitting_candidate_waits_for_the_previous_one(
    context: PickContext,
    core: int,
    candidate: CandidateReceipt,
)
    requires
        context.fits(core, candidate),
    ensures
        context.cores[core] !is Free,
        context.cores[core] matches CoreState::Occupied(occupied) ==> indicate_availability(
            core,
            context.bitfields,
            occupied.availability@,
        ) || occupied.time_out_at == context.block_number,
{
}

/// A selection that succeeds gives backed candidates in ascending order of their cores, each for a
/// candidate that fits its core, and at most one of them replaces validation code.
pub proof fn law_selected_candidates_ascend_the_cores<B>(
    cores: Seq<CoreState>,
    bitfields: Seq<SignedBitfieldView>,
    candidates: Seq<CandidateReceipt>,
    answers: SelectionAnswers<B>,
    backed: Seq<BackedCandidate<B>>,
) -> (at: Seq<(int, CandidateReceipt)>)
    requires
        selection_outcome(cores, bitfields, candidates, answers) == Ok::<
            Seq<BackedCandidate<B>>,
            Error,
        >(backed),
    ensures
        block_number_under_construction(answers.block_number) matches Ok(block_number)
            && pick_context(cores, bitfields, candidates, answers, block_number).backs(backed, at),
        code_upgrades(backed) <= 1,
{
    let block_number = block_number_under_construction(answers.block_number)->Ok_0;
    let context = pick_context(cores, bitfields, candidates, answers, block_number);
    let picked = context.picks(cores.len())->Ok_0;
    let selected = pick_hashes(picked);
    let all = (answers.backed)(selected)->Ok_0;
    assert(in_selected_order(selected, backed_hashes(all)));
    law_picks_ascend_the_cores(context, cores.len());
    law_picks_fit_their_cores(context, cores.len());
    law_one_code_upgrade_is_kept(all);
    let places = law_subsequence_is_found_in_order(backed_hashes(all), selected);
    let kept = law_other_candidates_are_kept(all);
    let at = Seq::new(kept.len(), |i: int| picked[places[kept[i]]]);
    assert forall|i: int| 0 <= i < at.len() implies 0 <= #[trigger] kept[i] < places.len() && 0
        <= places[kept[i]] < picked.len() && at[i] == picked[places[kept[i]]] && backed[i].hash
        == at[i].1.hash by {
        assert(0 <= kept[i] < all.len() && all[kept[i]] == backed[i]);
        assert(0 <= places[kept[i]] < selected.len());
        assert(selected[places[kept[i]]] == backed_hashes(all)[kept[i]]);
    }
    assert forall|i: int, j: int| 0 <= i < j < at.len() implies at[i].0 < at[j].0 by {
        assert(kept[i] < kept[j]);
        assert(places[kept[i]] < places[kept[j]]);
        assert(picked[places[kept[i]]].0 < picked[places[kept[j]]].0);
    }
    assert forall|i: int| 0 <= i < at.len() implies context.fits((#[trigger] at[i]).0, at[i].1)
        && backed[i].hash == at[i].1.hash by {
        assert(0 <= kept[i] < places.len());
        assert(at[i] == picked[places[kept[i]]]);
    }
    at
}

/// What an assembly of inherent data is told.
pub struct InherentAnswers<B> {
    /// The availability cores.
    pub cores: Result<Result<Seq<CoreState>, RuntimeApiError>, Canceled>,
    /// The recent disputes.
    pub recent: Seq<(SessionIndex, CandidateHash)>,
    /// The statements on disputes.
    pub disputes: spec_fn(Seq<(SessionIndex, CandidateHash)>) -> Seq<DisputeStatementSetView>,
    /// What the selection of candidates is told.
    pub selection: SelectionAnswers<B>,
}

impl<B> InherentAnswers<B> {
    /// The answer that an assembly gets next.
    pub open spec fn next(self, assembly: InherentView<B>) -> InherentReplyView<B> {
        match assembly.stage {
            InherentStageView::RecentDisputes { .. } => InherentReplyView::RecentDisputes(
                self.recent,
            ),
            InherentStageView::CandidateVotes { recent, .. } => InherentReplyView::CandidateVotes(
                (self.disputes)(recent),
            ),
            InherentStageView::Selection { selection, .. } => InherentReplyView::Selection(
                self.selection.next(selection),
            ),
            _ => InherentReplyView::AvailabilityCores(self.cores),
        }
    }
}

/// An assembly after it has been told `n` answers.
pub open spec fn assembly_after<B>(
    assembly: InherentView<B>,
    answers: InherentAnswers<B>,
    n: nat,
) -> InherentView<B>
    decreases n,
{
    if n == 0 {
        assembly
    } else {
        assembly_after(assembly.stepped(answers.next(assembly)), answers, (n - 1) as nat)
    }
}

/// What comes of an assembly of inherent data.
pub open spec fn assembly_outcome<B>(
    bitfields: Seq<SignedBitfieldView>,
    candidates: Seq<CandidateReceipt>,
    answers: InherentAnswers<B>,
) -> Result<InherentDataView<B>, Error> {
    match answers.cores {
        Err(canceled) => Err(Error::CanceledAvailabilityCores(canceled)),
        Ok(Err(error)) => Err(Error::Runtime(error)),
        Ok(Ok(cores)) => {
            let selected = selected_bitfields(cores, bitfields);
            match selection_outcome(cores, selected, candidates, answers.selection) {
                Err(error) => Err(error),
                Ok(backed_candidates) => Ok(
                    InherentDataView {
                        bitfields: selected,
                        backed_candidates,
                        disputes: (answers.disputes)(answers.recent),
                    },
                ),
            }
        },
    }
}

/// An assembly that has not ended waits for the answer that it gets next.
pub proof fn law_assembly_never_stalls<B>(assembly: InherentView<B>, answers: InherentAnswers<B>)
    requires
        assembly.wf(),
        has_successor(answers.selection.block_number),
        assembly.stage !is Done,
    ensures
        assembly.request() is Some,
        assembly.awaits(answers.next(assembly)),
{
    if let InherentStageView::Selection { selection, .. } = assembly.stage {
        law_selection_never_stalls(selection, answers.selection);
    }
}

/// While candidates are being selected, the assembly goes as the selection does, and ends with it.
proof fn lemma_assembly_follows_selection<B>(
    assembly: InherentView<B>,
    answers: InherentAnswers<B>,
    disputes: Seq<DisputeStatementSetView>,
    selection: SelectionView<B>,
    outcome: Result<Seq<BackedCandidate<B>>, Error>,
    n: nat,
) -> (m: nat)
    requires
        assembly.stage == (InherentStageView::Selection { disputes, selection }),
        selection.stage !is Done,
        selection_after(selection, answers.selection, n).stage == SelectionStageView::Done(
            outcome,
        ),
    ensures
        m <= n,
        assembly_after(assembly, answers, m).stage == InherentStageView::Done(
            match outcome {
                Ok(backed_candidates) => Ok(
                    InherentDataView {
                        bitfields: selection.bitfields,
                        backed_candidates,
                        disputes,
                    },
                ),
                Err(error) => Err(error),
            },
        ),
    decreases n,
{
    let next_selection = selection.stepped(answers.selection.next(selection));
    let next = assembly.stepped(answers.next(assembly));
    assert(n > 0);
    if next_selection.stage is Done {
        lemma_done_stays(next_selection, answers.selection, (n - 1) as nat);
        assert(assembly_after(next, answers, 0) == next);
        assert(assembly_after(assembly, answers, 1) == next);
        1
    } else {
        let m = lemma_assembly_follows_selection(
            next,
            answers,
            disputes,
            next_selection,
            outcome,
            (n - 1) as nat,
        );
        assert(assembly_after(assembly, answers, m + 1) == assembly_after(next, answers, m));
        m + 1
    }
}

/// A selection that has ended stays as it is.
proof fn lemma_done_stays<B>(selection: SelectionView<B>, answers: SelectionAnswers<B>, n: nat)
    requires
        selection.stage is Done,
    ensures
        selection_after(selection, answers, n) == selection,
    decreases n,
{
    if n > 0 {
        lemma_done_stays(selection, answers, (n - 1) as nat);
    }
}

/// An assembly ends with its outcome: after one answer if the cores are not told, and otherwise after
/// at most one answer per core and five more.
pub proof fn law_assembly_ends_with_its_outcome<B>(
    relay_parent: H256,
    bitfields: Seq<SignedBitfieldView>,
    candidates: Seq<CandidateReceipt>,
    answers: InherentAnswers<B>,
) -> (n: nat)
    requires
        has_successor(answers.selection.block_number),
    ensures
        match answers.cores {
            Ok(Ok(cores)) => n <= cores.len() + 5,
            _ => n == 1,
        },
        assembly_after(
            InherentView::<B>::initial(relay_parent, bitfields, candidates),
            answers,
            n,
        ).stage == InherentStageView::Done(assembly_outcome(bitfields, candidates, answers)),
{
    let first = InherentView::<B>::initial(relay_parent, bitfields, candidates);
    let second = first.stepped(answers.next(first));
    match answers.cores {
        Ok(Ok(cores)) => {
            let third = second.stepped(answers.next(second));
            let fourth = third.stepped(answers.next(third));
            let selected = selected_bitfields(cores, bitfields);
            let selection = SelectionView::<B>::initial(relay_parent, cores, selected, candidates);
            let n = law_selection_ends_with_its_outcome(
                relay_parent,
                cores,
                selected,
                candidates,
                answers.selection,
            );
            let m = lemma_assembly_follows_selection(
                fourth,
                answers,
                (answers.disputes)(answers.recent),
                selection,
                selection_outcome(cores, selected, candidates, answers.selection),
                n,
            );
            assert(assembly_after(third, answers, m + 1) == assembly_after(fourth, answers, m));
            assert(assembly_after(second, answers, m + 2) == assembly_after(third, answers, m + 1));
            assert(assembly_after(first, answers, m + 3) == assembly_after(second, answers, m + 2));
            m + 3
        },
        _ => {
            assert(assembly_after(second, answers, 0) == second);
            assert(assembly_after(first, answers, 1) == second);
            1
        },
    }
}

/// Inherent data that has been assembled is coherent: its bitfields are those that go into the block,
/// its candidates are in ascending order of their cores and fit them given these bitfields, and at
/// most one of them replaces validation code.
pub proof fn law_inherent_data_is_coherent<B>(
    bitfields: Seq<SignedBitfieldView>,
    candidates: Seq<CandidateReceipt>,
    answers: InherentAnswers<B>,
    data: InherentDataView<B>,
) -> (at: Seq<(int, CandidateReceipt)>)
    requires
        assembly_outcome(bitfields, candidates, answers) == Ok::<InherentDataView<B>, Error>(data),
    ensures
        answers.cores matches Ok(Ok(cores)) && {
            &&& is_selection(cores, bitfields, data.bitfields)
            &&& block_number_under_construction(
                answers.selection.block_number,
            ) matches Ok(block_number)
            &&& pick_context(
                cores,
                data.bitfields,
                candidates,
                answers.selection,
                block_number,
            ).backs(data.backed_candidates, at)
        },
        code_upgrades(data.backed_candidates) <= 1,
        data.disputes == (answers.disputes)(answers.recent),
{
    let cores = answers.cores->Ok_0->Ok_0;
    law_selection_exists(cores, bitfields);
    law_selected_candidates_ascend_the_cores(
        cores,
        data.bitfields,
        candidates,
        answers.selection,
        data.backed_candidates,
    )
}

} // verus!
