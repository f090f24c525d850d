//! Backed candidates: which of them go into a block.
//!
//! Each core that is free, or that becomes free with the block, gets the first backed candidate that
//! was made for the parachain scheduled on it and with the validation data of that parachain. What
//! the validation data is, which block is being built and what backs the candidates has to be asked
//! for; [`crate::selection::CandidateSelection`] says at each point what to ask next and takes the
//! answers.

use vstd::prelude::*;

use crate::bitfields::{
    bitfields_indicate_availability, bits_present, indicate_availability,
    law_core_can_be_asked_about, law_core_is_available_at_two_thirds,
};
use crate::hash::H256;
use crate::primitives::{
    bitfield_views, BackedCandidate, BlockNumber, CandidateHash, CandidateReceipt, CoreState,
    OccupiedCore, OccupiedCoreAssumption, ParaId, ScheduledCore, SignedAvailabilityBitfield,
    SignedBitfieldView,
};

verus! {

/// The parachain that can get a candidate onto a core, and what has to be assumed of the candidate
/// that occupies the core now.
///
/// On a core without a candidate that is the parachain scheduled on it. On an occupied core it is the
/// parachain that comes next once the candidate is available, if the bitfields show that it is; if
/// they do not, it is the parachain that comes next once the candidate times out, if it does so at
/// the block under construction.
pub open spec fn core_assignment(
    core_idx: int,
    core: CoreState,
    bitfields: Seq<SignedBitfieldView>,
    block_number: BlockNumber,
) -> Option<(ParaId, OccupiedCoreAssumption)> {
    match core {
        CoreState::Scheduled(scheduled) => Some((scheduled.para_id, OccupiedCoreAssumption::Free)),
        CoreState::Occupied(occupied) => if indicate_availability(
            core_idx,
            bitfields,
            occupied.availability@,
        ) {
            match occupied.next_up_on_available {
                Some(next) => Some((next.para_id, OccupiedCoreAssumption::Included)),
                None => None,
            }
        } else if occupied.time_out_at == block_number {
            match occupied.next_up_on_time_out {
                Some(next) => Some((next.para_id, OccupiedCoreAssumption::TimedOut)),
                None => None,
            }
        } else {
            None
        },
        CoreState::Free => None,
    }
}

/// Whether what the bitfields say of `core` can be asked: see [`bits_present`].
pub open spec fn core_readable(
    core_idx: int,
    core: CoreState,
    bitfields: Seq<SignedBitfieldView>,
) -> bool {
    core matches CoreState::Occupied(occupied) ==> bits_present(
        core_idx,
        bitfields,
        occupied.availability@.len(),
    )
}

/// The parachain that can get a candidate onto a core: see [`core_assignment`].
pub fn assign_core(
    core_idx: usize,
    core: &CoreState,
    bitfields: &[SignedAvailabilityBitfield],
    block_number: BlockNumber,
) -> (assignment: Option<(ParaId, OccupiedCoreAssumption)>)
    requires
        core_readable(core_idx as int, *core, bitfield_views(bitfields@)),
    ensures
        assignment == core_assignment(
            core_idx as int,
            *core,
            bitfield_views(bitfields@),
            block_number,
        ),
{
    match core {
        CoreState::Scheduled(scheduled_core) => Some(
            (scheduled_core.para_id, OccupiedCoreAssumption::Free),
        ),
        CoreState::Occupied(occupied_core) => {
            if bitfields_indicate_availability(core_idx, bitfields, &occupied_core.availability) {
                match &occupied_core.next_up_on_available {
                    Some(scheduled_core) => Some(
                        (scheduled_core.para_id, OccupiedCoreAssumption::Included),
                    ),
                    None => None,
                }
            } else {
                if occupied_core.time_out_at != block_number {
                    return None;
                }
                match &occupied_core.next_up_on_time_out {
                    Some(scheduled_core) => Some(
                        (scheduled_core.para_id, OccupiedCoreAssumption::TimedOut),
                    ),
                    None => None,
                }
            }
        },
        CoreState::Free => None,
    }
}

/// Whether a candidate is one of parachain `para_id`, made with the validation data of hash
/// `validation_data_hash`.
pub open spec fn suits(
    candidate: CandidateReceipt,
    para_id: ParaId,
    validation_data_hash: H256,
) -> bool {
    &&& candidate.descriptor.para_id == para_id
    &&& candidate.descriptor.persisted_validation_data_hash == validation_data_hash
}

/// Whether the candidate at position `i` is the first that suits.
pub open spec fn suits_first(
    candidates: Seq<CandidateReceipt>,
    para_id: ParaId,
    validation_data_hash: H256,
    i: int,
) -> bool {
    &&& 0 <= i < candidates.len()
    &&& suits(candidates[i], para_id, validation_data_hash)
    &&& forall|j: int|
        0 <= j < i ==> !suits(#[trigger] candidates[j], para_id, validation_data_hash)
}

/// The first candidate that suits, if one does.
pub open spec fn first_suitable(
    candidates: Seq<CandidateReceipt>,
    para_id: ParaId,
    validation_data_hash: H256,
) -> Option<CandidateReceipt> {
    if exists|i: int| suits_first(candidates, para_id, validation_data_hash, i) {
        Some(
            candidates[choose|i: int| suits_first(candidates, para_id, validation_data_hash, i)],
        )
    } else {
        None
    }
}

/// Finds the first candidate of parachain `para_id` that was made with the validation data of hash
/// `validation_data_hash`.
pub fn find_candidate(
    candidates: &[CandidateReceipt],
    para_id: ParaId,
    validation_data_hash: H256,
) -> (found: Option<CandidateReceipt>)
    ensures
        found == first_suitable(candidates@, para_id, validation_data_hash),
{
    let mut i: usize = 0;
    while i < candidates.len()
        invariant
            i <= candidates@.len(),
            forall|j: int|
                0 <= j < i ==> !suits(#[trigger] candidates@[j], para_id, validation_data_hash),
        decreases candidates@.len() - i,
    {
        let descriptor = &candidates[i].descriptor;
        if descriptor.para_id == para_id && descriptor.persisted_validation_data_hash
            == validation_data_hash {
            proof {
                assert(suits_first(candidates@, para_id, validation_data_hash, i as int));
                let k = choose|k: int|
                    suits_first(candidates@, para_id, validation_data_hash, k);
                assert(suits(candidates@[k], para_id, validation_data_hash));
                assert(k == i);
            }
            return Some(candidates[i]);
        }
        i = i + 1;
    }
    None
}

/// Whether `part` can be had from `whole` by leaving hashes out.
pub open spec fn is_subsequence(part: Seq<CandidateHash>, whole: Seq<CandidateHash>) -> bool
    decreases whole.len(),
{
    ||| part.len() == 0
    ||| whole.len() > 0 && is_subsequence(part, whole.drop_last())
    ||| whole.len() > 0 && part.last() == whole.last() && is_subsequence(
        part.drop_last(),
        whole.drop_last(),
    )
}

/// The hashes of backed candidates.
pub open spec fn backed_hashes<B>(backed: Seq<BackedCandidate<B>>) -> Seq<CandidateHash> {
    backed.map_values(|candidate: BackedCandidate<B>| candidate.hash)
}

/// Whether what came back for the selected candidates is in order: it can be had from the selection
/// by leaving candidates out.
pub open spec fn in_selected_order(
    selected: Seq<CandidateHash>,
    backed: Seq<CandidateHash>,
) -> bool {
    is_subsequence(backed, selected)
}

/// With a sequence, all that it starts with can be had.
proof fn lemma_subsequence_drop_last(part: Seq<CandidateHash>, whole: Seq<CandidateHash>)
    requires
        part.len() > 0,
        is_subsequence(part, whole),
    ensures
        is_subsequence(part.drop_last(), whole),
    decreases whole.len(),
{
    if is_subsequence(part, whole.drop_last()) {
        lemma_subsequence_drop_last(part, whole.drop_last());
    } else {
        assert(is_subsequence(part.drop_last(), whole.drop_last()));
    }
}

/// Checks that what came back for the selected candidates is in order: see [`in_selected_order`].
///
/// The selection is in ascending order by core index, and what comes back for it should keep that
/// order. A backed candidate does not tell its core, but each selected candidate stands for at most
/// one backed candidate, with the same hash. So the two are gone through side by side.
pub fn check_backed_order<B>(
    selected: &[CandidateHash],
    backed: &[BackedCandidate<B>],
) -> (in_order: bool)
    ensures
        in_order == in_selected_order(selected@, backed_hashes(backed@)),
{
    let ghost hashes = backed_hashes(backed@);
    let mut backed_idx: usize = 0;
    let mut n: usize = 0;
    proof {
        assert(hashes.take(0).len() == 0);
        assert(selected@.take(0).len() == 0);
    }
    while n < selected.len()
        invariant
            n <= selected@.len(),
            backed_idx <= backed@.len(),
            hashes == backed_hashes(backed@),
            is_subsequence(hashes.take(backed_idx as int), selected@.take(n as int)),
            backed_idx < backed@.len() ==> !is_subsequence(
                hashes.take(backed_idx + 1),
                selected@.take(n as int),
            ),
        decreases selected@.len() - n,
    {
        proof {
            assert(selected@.take(n + 1).drop_last() =~= selected@.take(n as int));
            assert(selected@.take(n + 1).last() == selected@[n as int]);
            if backed_idx < hashes.len() {
                assert(hashes.take(backed_idx + 1).drop_last() =~= hashes.take(backed_idx as int));
                assert(hashes.take(backed_idx + 1).last() == backed@[backed_idx as int].hash);
            }
            if backed_idx + 1 < hashes.len() {
                let two = hashes.take(backed_idx + 2);
                assert(two.drop_last() =~= hashes.take(backed_idx + 1));
                if is_subsequence(two, selected@.take(n as int)) {
                    lemma_subsequence_drop_last(two, selected@.take(n as int));
                }
            }
        }
        if backed_idx < backed.len() && selected[n].0 == backed[backed_idx].hash.0 {
            backed_idx = backed_idx + 1;
        }
        n = n + 1;
    }
    proof {
        assert(selected@.take(n as int) =~= selected@);
        assert(hashes.take(hashes.len() as int) =~= hashes);
        if backed_idx < hashes.len() && is_subsequence(hashes, selected@) {
            lemma_prefix_is_subsequence(hashes, selected@, backed_idx + 1);
        }
    }
    backed.len() == backed_idx
}

/// With a sequence, each of its prefixes can be had.
proof fn lemma_prefix_is_subsequence(part: Seq<CandidateHash>, whole: Seq<CandidateHash>, n: int)
    requires
        0 <= n <= part.len(),
        is_subsequence(part, whole),
    ensures
        is_subsequence(part.take(n), whole),
    decreases part.len(),
{
    if n < part.len() {
        lemma_subsequence_drop_last(part, whole);
        assert(part.drop_last().take(n) =~= part.take(n));
        lemma_prefix_is_subsequence(part.drop_last(), whole, n);
    } else {
        assert(part.take(n) =~= part);
    }
}

/// Whether one of `candidates` replaces validation code.
pub open spec fn has_code_upgrade<B>(candidates: Seq<BackedCandidate<B>>) -> bool {
    exists|i: int|
        0 <= i < candidates.len() && (#[trigger] candidates[i]).has_new_validation_code
}

/// The candidates without those that replace validation code, but for the first of these.
pub open spec fn one_code_upgrade<B>(candidates: Seq<BackedCandidate<B>>) -> Seq<BackedCandidate<B>>
    decreases candidates.len(),
{
    if candidates.len() == 0 {
        candidates
    } else {
        let earlier = candidates.drop_last();
        if candidates.last().has_new_validation_code && has_code_upgrade(earlier) {
            one_code_upgrade(earlier)
        } else {
            one_code_upgrade(earlier).push(candidates.last())
        }
    }
}

/// Keeps only one candidate that replaces validation code, the first, and all that do not.
pub fn retain_one_code_upgrade<B>(candidates: Vec<BackedCandidate<B>>) -> (retained: Vec<
    BackedCandidate<B>,
>)
    ensures
        retained@ == one_code_upgrade(candidates@),
{
    let ghost all = candidates@;
    let mut retained: Vec<BackedCandidate<B>> = Vec::new();
    let mut with_validation_code = false;
    assert(all.take(0) =~= Seq::empty());
    for candidate in it: candidates
        invariant
            it.seq() == all,
            with_validation_code == has_code_upgrade(all.take(it.index())),
            retained@ == one_code_upgrade(all.take(it.index())),
    {
        let ghost n = it.index();
        proof {
            assert(all.take(n + 1).drop_last() =~= all.take(n));
            assert(all.take(n + 1).last() == candidate);
            assert(forall|i: int| 0 <= i < n ==> all.take(n + 1)[i] == #[trigger] all.take(n)[i]);
            assert(all.take(n + 1)[n] == candidate);
        }
        if candidate.has_new_validation_code {
            if !with_validation_code {
                retained.push(candidate);
            }
            with_validation_code = true;
        } else {
            retained.push(candidate);
        }
    }
    assert(all.take(all.len() as int) =~= all);
    retained
}

/// A candidate that suits is found whenever there is one.
pub proof fn law_suitable_candidate_is_found(
    candidates: Seq<CandidateReceipt>,
    para_id: ParaId,
    validation_data_hash: H256,
    i: int,
)
    requires
        0 <= i < candidates.len(),
        suits(candidates[i], para_id, validation_data_hash),
    ensures
        first_suitable(candidates, para_id, validation_data_hash) is Some,
    decreases i,
{
    if exists|j: int|
        0 <= j < i && suits(#[trigger] candidates[j], para_id, validation_data_hash) {
        let j = choose|j: int|
            0 <= j < i && suits(#[trigger] candidates[j], para_id, validation_data_hash);
        law_suitable_candidate_is_found(candidates, para_id, validation_data_hash, j);
    } else {
        assert(suits_first(candidates, para_id, validation_data_hash, i));
    }
}

/// What is found suits, and is one of the candidates.
pub proof fn law_found_candidate_suits(
    candidates: Seq<CandidateReceipt>,
    para_id: ParaId,
    validation_data_hash: H256,
)
    ensures
        first_suitable(candidates, para_id, validation_data_hash) matches Some(candidate) ==> {
            &&& candidates.contains(candidate)
            &&& suits(candidate, para_id, validation_data_hash)
        },
{
    if exists|i: int| suits_first(candidates, para_id, validation_data_hash, i) {
        let i = choose|i: int| suits_first(candidates, para_id, validation_data_hash, i);
        assert(candidates.contains(candidates[i]));
    }
}

/// Whether `positions` are ascending positions in `whole` at which `part` is found.
pub open spec fn found_at(
    part: Seq<CandidateHash>,
    whole: Seq<CandidateHash>,
    positions: Seq<int>,
) -> bool {
    &&& positions.len() == part.len()
    &&& forall|i: int|
        0 <= i < positions.len() ==> 0 <= #[trigger] positions[i] < whole.len()
            && whole[positions[i]] == part[i]
    &&& forall|i: int, j: int| 0 <= i < j < positions.len() ==> positions[i] < positions[j]
}

/// What can be had from a sequence by leaving hashes out is found in it, in the same order.
pub proof fn law_subsequence_is_found_in_order(
    part: Seq<CandidateHash>,
    whole: Seq<CandidateHash>,
) -> (positions: Seq<int>)
    requires
        is_subsequence(part, whole),
    ensures
        found_at(part, whole, positions),
    decreases whole.len(),
{
    if part.len() == 0 {
        Seq::empty()
    } else if is_subsequence(part, whole.drop_last()) {
        let positions = law_subsequence_is_found_in_order(part, whole.drop_last());
        assert forall|i: int| 0 <= i < positions.len() implies 0 <= #[trigger] positions[i]
            < whole.len() && whole[positions[i]] == part[i] by {
            assert(whole.drop_last()[positions[i]] == part[i]);
        }
        positions
    } else {
        let earlier = law_subsequence_is_found_in_order(part.drop_last(), whole.drop_last());
        let positions = earlier.push(whole.len() - 1);
        assert forall|i: int| 0 <= i < positions.len() implies 0 <= #[trigger] positions[i]
            < whole.len() && whole[positions[i]] == part[i] by {
            if i < earlier.len() {
                assert(0 <= earlier[i] < whole.drop_last().len());
                assert(whole.drop_last()[earlier[i]] == part.drop_last()[i]);
            }
        }
        positions
    }
}

/// What is found in a sequence in the same order can be had from it by leaving hashes out.
pub proof fn law_found_in_order_is_subsequence(
    part: Seq<CandidateHash>,
    whole: Seq<CandidateHash>,
    positions: Seq<int>,
)
    requires
        found_at(part, whole, positions),
    ensures
        is_subsequence(part, whole),
    decreases whole.len(),
{
    if part.len() > 0 {
        let last = positions.last();
        assert(0 <= positions[positions.len() - 1] < whole.len());
        if last == whole.len() - 1 {
            let earlier = positions.drop_last();
            assert forall|i: int| 0 <= i < earlier.len() implies 0 <= #[trigger] earlier[i]
                < whole.drop_last().len() && whole.drop_last()[earlier[i]]
                == part.drop_last()[i] by {
                assert(earlier[i] == positions[i]);
                assert(positions[i] < positions[positions.len() - 1]);
            }
            law_found_in_order_is_subsequence(part.drop_last(), whole.drop_last(), earlier);
        } else {
            assert forall|i: int| 0 <= i < positions.len() implies 0 <= #[trigger] positions[i]
                < whole.drop_last().len() && whole.drop_last()[positions[i]] == part[i] by {
                if i < positions.len() - 1 {
                    assert(positions[i] < positions[positions.len() - 1]);
                }
            }
            law_found_in_order_is_subsequence(part, whole.drop_last(), positions);
        }
    }
}

/// A sequence can be had from itself.
proof fn lemma_subsequence_of_itself(whole: Seq<CandidateHash>)
    ensures
        is_subsequence(whole, whole),
    decreases whole.len(),
{
    if whole.len() > 0 {
        lemma_subsequence_of_itself(whole.drop_last());
    }
}

/// If each selected candidate comes back, in the order in which they were selected, all is in order.
pub proof fn law_complete_backing_is_in_order(selected: Seq<CandidateHash>)
    ensures
        in_selected_order(selected, selected),
{
    lemma_subsequence_of_itself(selected);
}

/// Whichever candidate is missing from what comes back, the first and the last included, the others
/// are still in order.
pub proof fn law_any_candidate_may_be_missing(
    selected: Seq<CandidateHash>,
    backed: Seq<CandidateHash>,
    i: int,
)
    requires
        0 <= i < backed.len(),
        in_selected_order(selected, backed),
    ensures
        in_selected_order(selected, backed.remove(i)),
{
    let positions = law_subsequence_is_found_in_order(backed, selected);
    let others = positions.remove(i);
    assert forall|k: int| 0 <= k < others.len() implies 0 <= #[trigger] others[k] < selected.len()
        && selected[others[k]] == backed.remove(i)[k] by {
        let from = if k < i {
            k
        } else {
            k + 1
        };
        assert(others[k] == positions[from]);
    }
    law_found_in_order_is_subsequence(backed.remove(i), selected, others);
}

/// A candidate that was not selected is never accepted.
pub proof fn law_unselected_candidate_is_refused(
    selected: Seq<CandidateHash>,
    backed: Seq<CandidateHash>,
    i: int,
)
    requires
        0 <= i < backed.len(),
        !selected.contains(backed[i]),
    ensures
        !in_selected_order(selected, backed),
{
    if is_subsequence(backed, selected) {
        let positions = law_subsequence_is_found_in_order(backed, selected);
        assert(0 <= positions[i] < selected.len() && selected[positions[i]] == backed[i]);
    }
}

/// Candidates that come back out of the order in which they were selected are never accepted, if
/// none was selected twice.
pub proof fn law_reordered_candidates_are_refused(
    selected: Seq<CandidateHash>,
    backed: Seq<CandidateHash>,
    first: int,
    second: int,
    i: int,
    j: int,
)
    requires
        selected.no_duplicates(),
        0 <= first < second < selected.len(),
        0 <= i < j < backed.len(),
        backed[i] == selected[second],
        backed[j] == selected[first],
    ensures
        !in_selected_order(selected, backed),
{
    if is_subsequence(backed, selected) {
        let positions = law_subsequence_is_found_in_order(backed, selected);
        assert(0 <= positions[i] < selected.len() && selected[positions[i]] == backed[i]);
        assert(0 <= positions[j] < selected.len() && selected[positions[j]] == backed[j]);
        assert(positions[i] < positions[j]);
    }
}

/// The number of candidates that replace validation code.
pub open spec fn code_upgrades<B>(candidates: Seq<BackedCandidate<B>>) -> nat
    decreases candidates.len(),
{
    if candidates.len() == 0 {
        0
    } else {
        code_upgrades(candidates.drop_last()) + (if candidates.last().has_new_validation_code {
            1nat
        } else {
            0nat
        })
    }
}

/// Exactly one candidate that replaces validation code is kept if there is one, and none otherwise.
pub proof fn law_one_code_upgrade_is_kept<B>(candidates: Seq<BackedCandidate<B>>)
    ensures
        code_upgrades(one_code_upgrade(candidates)) == (if has_code_upgrade(candidates) {
            1nat
        } else {
            0nat
        }),
    decreases candidates.len(),
{
    if candidates.len() > 0 {
        let earlier = candidates.drop_last();
        law_one_code_upgrade_is_kept(earlier);
        assert(candidates =~= earlier.push(candidates.last()));
        if has_code_upgrade(earlier) {
            let i = choose|i: int|
                0 <= i < earlier.len() && (#[trigger] earlier[i]).has_new_validation_code;
            assert(candidates[i].has_new_validation_code);
        }
        if candidates.last().has_new_validation_code {
            assert(candidates[candidates.len() - 1].has_new_validation_code);
        }
        if has_code_upgrade(candidates) && !candidates.last().has_new_validation_code {
            let i = choose|i: int|
                0 <= i < candidates.len() && (#[trigger] candidates[i]).has_new_validation_code;
            assert(earlier[i].has_new_validation_code);
        }
        let kept = one_code_upgrade(earlier).push(candidates.last());
        assert(kept.drop_last() =~= one_code_upgrade(earlier));
    }
}

/// What is kept are the candidates at some ascending positions: exactly those of the candidates that
/// do not replace validation code and of the first that does.
pub proof fn law_other_candidates_are_kept<B>(candidates: Seq<BackedCandidate<B>>) -> (positions:
    Seq<int>)
    ensures
        positions.len() == one_code_upgrade(candidates).len(),
        forall|i: int, j: int| 0 <= i < j < positions.len() ==> positions[i] < positions[j],
        forall|i: int|
            0 <= i < positions.len() ==> 0 <= #[trigger] positions[i] < candidates.len()
                && candidates[positions[i]] == one_code_upgrade(candidates)[i],
        forall|k: int|
            0 <= k < candidates.len() ==> (positions.contains(k) <==> (
            !(#[trigger] candidates[k]).has_new_validation_code || forall|j: int|
                0 <= j < k ==> !(#[trigger] candidates[j]).has_new_validation_code)),
    decreases candidates.len(),
{
    if candidates.len() == 0 {
        Seq::empty()
    } else {
        let earlier = candidates.drop_last();
        let last = candidates.len() - 1;
        let before = law_other_candidates_are_kept(earlier);
        let dropped = candidates.last().has_new_validation_code && has_code_upgrade(earlier);
        let positions = if dropped {
            before
        } else {
            before.push(last)
        };
        assert forall|i: int| 0 <= i < positions.len() implies 0 <= #[trigger] positions[i]
            < candidates.len() && candidates[positions[i]] == one_code_upgrade(candidates)[i] by {
            if i < before.len() {
                assert(0 <= before[i] < earlier.len());
            }
        }
        assert forall|i: int, j: int| 0 <= i < j < positions.len() implies positions[i]
            < positions[j] by {
            assert(0 <= before[i] < earlier.len());
        }
        assert forall|k: int| 0 <= k < candidates.len() implies (positions.contains(k) <==> (
        !(#[trigger] candidates[k]).has_new_validation_code || forall|j: int|
            0 <= j < k ==> !(#[trigger] candidates[j]).has_new_validation_code)) by {
            if k < last {
                assert(earlier[k] == candidates[k]);
                assert(forall|j: int| 0 <= j < k ==> earlier[j] == #[trigger] candidates[j]);
                if before.contains(k) {
                    let i = choose|i: int| 0 <= i < before.len() && before[i] == k;
                    assert(positions[i] == k);
                }
                if positions.contains(k) {
                    let i = choose|i: int| 0 <= i < positions.len() && positions[i] == k;
                    assert(before[i] == k);
                }
            } else {
                assert(forall|j: int| 0 <= j < last ==> earlier[j] == #[trigger] candidates[j]);
                if dropped {
                    assert(forall|i: int| 0 <= i < before.len() ==> #[trigger] before[i] < last);
                } else {
                    assert(positions[before.len() as int] == last);
                }
            }
        }
        positions
    }
}

/// A core on which a parachain is scheduled goes to that parachain, whatever the bitfields say and
/// whichever block is built; a core that is free with nothing scheduled on it goes to none.
pub proof fn law_unoccupied_core_goes_to_what_is_scheduled(
    core_idx: int,
    scheduled: ScheduledCore,
    bitfields: Seq<SignedBitfieldView>,
    block_number: BlockNumber,
)
    ensures
        core_assignment(core_idx, CoreState::Scheduled(scheduled), bitfields, block_number) == Some(
            (scheduled.para_id, OccupiedCoreAssumption::Free),
        ),
        core_assignment(core_idx, CoreState::Free, bitfields, block_number) is None,
{
}

/// An occupied core of which at least two thirds of the validators hold their part, all signers being
/// known, goes to what is next up on availability, and to nothing else: neither the block at which the
/// candidate times out nor what is next up then matters.
pub proof fn law_available_core_goes_to_what_is_next(
    core_idx: int,
    occupied: OccupiedCore,
    bitfields: Seq<SignedBitfieldView>,
    block_number: BlockNumber,
    holders: Set<int>,
)
    requires
        forall|v: int| #[trigger]
            holders.contains(v) <==> 0 <= v < occupied.availability@.len() && (
            occupied.availability@[v] || exists|i: int|
                #![trigger bitfields[i]]
                0 <= i < bitfields.len() && bitfields[i].validator_index.0 == v
                    && bitfields[i].bits[core_idx]),
        forall|i: int|
            0 <= i < bitfields.len() ==> (#[trigger] bitfields[i]).validator_index.0
                < occupied.availability@.len(),
        3 * holders.len() >= 2 * occupied.availability@.len(),
    ensures
        occupied.next_up_on_available matches Some(next) ==> core_assignment(
            core_idx,
            CoreState::Occupied(occupied),
            bitfields,
            block_number,
        ) == Some((next.para_id, OccupiedCoreAssumption::Included)),
        occupied.next_up_on_available is None ==> core_assignment(
            core_idx,
            CoreState::Occupied(occupied),
            bitfields,
            block_number,
        ) is None,
{
    law_core_is_available_at_two_thirds(core_idx, bitfields, occupied.availability@, holders);
}

/// An occupied core of which fewer hold their part, or on which an unknown validator has a say, goes
/// to what is next up on a time-out if it times out at the block under construction, and to nothing
/// else. At any other block it goes to none.
pub proof fn law_unavailable_core_goes_to_what_is_next_on_time_out(
    core_idx: int,
    occupied: OccupiedCore,
    bitfields: Seq<SignedBitfieldView>,
    block_number: BlockNumber,
    holders: Set<int>,
)
    requires
        forall|v: int| #[trigger]
            holders.contains(v) <==> 0 <= v < occupied.availability@.len() && (
            occupied.availability@[v] || exists|i: int|
                #![trigger bitfields[i]]
                0 <= i < bitfields.len() && bitfields[i].validator_index.0 == v
                    && bitfields[i].bits[core_idx]),
        3 * holders.len() < 2 * occupied.availability@.len() || exists|i: int|
            0 <= i < bitfields.len() && (#[trigger] bitfields[i]).validator_index.0
                >= occupied.availability@.len(),
    ensures
        occupied.time_out_at == block_number ==> (occupied.next_up_on_time_out matches Some(next)
            ==> core_assignment(core_idx, CoreState::Occupied(occupied), bitfields, block_number)
            == Some((next.para_id, OccupiedCoreAssumption::TimedOut))),
        occupied.time_out_at != block_number || occupied.next_up_on_time_out is None
            ==> core_assignment(
            core_idx,
            CoreState::Occupied(occupied),
            bitfields,
            block_number,
        ) is None,
{
    law_core_is_available_at_two_thirds(core_idx, bitfields, occupied.availability@, holders);
}

/// A core can be assigned if it is not occupied, or if the bitfields have a bit for it, at least those
/// before the first that is signed by an unknown validator.
pub proof fn law_core_can_be_assigned(
    core_idx: int,
    core: CoreState,
    bitfields: Seq<SignedBitfieldView>,
    n: int,
)
    requires
        core matches CoreState::Occupied(occupied) ==> {
            &&& 0 <= n <= bitfields.len()
            &&& forall|i: int| 0 <= i < n ==> core_idx < (#[trigger] bitfields[i]).bits.len()
            &&& n < bitfields.len() ==> bitfields[n].validator_index.0
                >= occupied.availability@.len()
        },
    ensures
        core_readable(core_idx, core, bitfields),
{
    if let CoreState::Occupied(occupied) = core {
        law_core_can_be_asked_about(core_idx, bitfields, occupied.availability@.len(), n);
    }
}

/// The candidate that is found is the first that names the parachain and the validation data.
pub proof fn law_first_match_is_found(
    candidates: Seq<CandidateReceipt>,
    para_id: ParaId,
    validation_data_hash: H256,
    i: int,
)
    requires
        0 <= i < candidates.len(),
        candidates[i].descriptor.para_id == para_id,
        candidates[i].descriptor.persisted_validation_data_hash == validation_data_hash,
        forall|j: int|
            0 <= j < i ==> (#[trigger] candidates[j]).descriptor.para_id != para_id
                || candidates[j].descriptor.persisted_validation_data_hash != validation_data_hash,
    ensures
        first_suitable(candidates, para_id, validation_data_hash) == Some(candidates[i]),
{
    assert(suits_first(candidates, para_id, validation_data_hash, i));
    let k = choose|k: int| suits_first(candidates, para_id, validation_data_hash, k);
    assert(suits(candidates[k], para_id, validation_data_hash));
    assert(k == i);
}

/// Nothing is found if no candidate names both the parachain and the validation data.
pub proof fn law_without_a_match_nothing_is_found(
    candidates: Seq<CandidateReceipt>,
    para_id: ParaId,
    validation_data_hash: H256,
)
    requires
        forall|j: int|
            0 <= j < candidates.len() ==> (#[trigger] candidates[j]).descriptor.para_id != para_id
                || candidates[j].descriptor.persisted_validation_data_hash != validation_data_hash,
    ensures
        first_suitable(candidates, para_id, validation_data_hash) is None,
{
}

/// Backed candidates whose hashes are found at ascending positions of the selection are in order,
/// however many of the selected ones are missing.
pub proof fn law_candidates_at_ascending_positions_are_in_order<B>(
    selected: Seq<CandidateHash>,
    backed: Seq<BackedCandidate<B>>,
    positions: Seq<int>,
)
    requires
        positions.len() == backed.len(),
        forall|i: int|
            0 <= i < positions.len() ==> 0 <= #[trigger] positions[i] < selected.len()
                && selected[positions[i]] == backed[i].hash,
        forall|i: int, j: int| 0 <= i < j < positions.len() ==> positions[i] < positions[j],
    ensures
        in_selected_order(selected, backed_hashes(backed)),
{
    law_found_in_order_is_subsequence(backed_hashes(backed), selected, positions);
}

/// Backed candidates are in order only if their hashes are found at ascending positions of the
/// selection.
pub proof fn law_candidates_in_order_are_at_ascending_positions<B>(
    selected: Seq<CandidateHash>,
    backed: Seq<BackedCandidate<B>>,
) -> (positions: Seq<int>)
    requires
        in_selected_order(selected, backed_hashes(backed)),
    ensures
        positions.len() == backed.len(),
        forall|i: int|
            0 <= i < positions.len() ==> 0 <= #[trigger] positions[i] < selected.len()
                && selected[positions[i]] == backed[i].hash,
        forall|i: int, j: int| 0 <= i < j < positions.len() ==> positions[i] < positions[j],
{
    law_subsequence_is_found_in_order(backed_hashes(backed), selected)
}

} // verus!
