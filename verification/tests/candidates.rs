use provisioner::bits::Bitfield;
use provisioner::candidates::{
    assign_core, check_backed_order, find_candidate, retain_one_code_upgrade,
};
use provisioner::hash::H256;
use provisioner::primitives::{
    BackedCandidate, CandidateDescriptor, CandidateHash, CandidateReceipt, CoreState,
    OccupiedCore, OccupiedCoreAssumption, ParaId, ScheduledCore, SignedAvailabilityBitfield,
    ValidatorIndex, ValidatorSignature,
};

fn hash(n: u8) -> H256 {
    H256([n; 32])
}

fn receipt(mark: u8, para_id: u32, data: u8) -> CandidateReceipt {
    CandidateReceipt {
        hash: CandidateHash(hash(mark)),
        descriptor: CandidateDescriptor {
            para_id: ParaId(para_id),
            persisted_validation_data_hash: hash(data),
        },
    }
}

fn backed(mark: u8, code: bool) -> BackedCandidate<u32> {
    BackedCandidate {
        hash: CandidateHash(hash(mark)),
        has_new_validation_code: code,
        backing: mark as u32 + 1000,
    }
}

fn hashes(marks: &[u8]) -> Vec<CandidateHash> {
    marks.iter().map(|m| CandidateHash(hash(*m))).collect()
}

fn in_order(selected: &[u8], came: &[u8]) -> bool {
    let candidates: Vec<BackedCandidate<u32>> = came.iter().map(|m| backed(*m, false)).collect();
    check_backed_order(&hashes(selected), &candidates)
}

fn occupied(availability: &[bool], next: Option<u32>, time_out_at: u32, late: Option<u32>) -> CoreState {
    CoreState::Occupied(OccupiedCore {
        next_up_on_available: next.map(|id| ScheduledCore { para_id: ParaId(id) }),
        time_out_at,
        next_up_on_time_out: late.map(|id| ScheduledCore { para_id: ParaId(id) }),
        availability: Bitfield::from_bools(availability),
    })
}

#[test]
fn hashes_compare_by_all_bytes() {
    let mut other = [7; 32];
    other[31] = 8;
    assert!(H256([7; 32]) == H256([7; 32]));
    assert!(H256([7; 32]) != H256(other));
}

#[test]
fn scheduled_core_is_free() {
    let core = CoreState::Scheduled(ScheduledCore { para_id: ParaId(5) });
    assert_eq!(
        assign_core(0, &core, &[], 1),
        Some((ParaId(5), OccupiedCoreAssumption::Free))
    );
    assert_eq!(assign_core(0, &CoreState::Free, &[], 1), None);
}

#[test]
fn available_core_goes_to_the_next_in_line() {
    let core = occupied(&[true, true, false], Some(3), 9, Some(4));
    assert_eq!(
        assign_core(0, &core, &[], 9),
        Some((ParaId(3), OccupiedCoreAssumption::Included))
    );
    let core = occupied(&[true, true, false], None, 9, Some(4));
    assert_eq!(assign_core(0, &core, &[], 9), None);
}

#[test]
fn core_becomes_available_with_the_bitfields() {
    let core = occupied(&[true, false, false], Some(3), 9, Some(4));
    let bitfields = vec![SignedAvailabilityBitfield {
        payload: Bitfield::from_bools(&[false, true]),
        validator_index: ValidatorIndex(2),
        signature: ValidatorSignature([0; 64]),
    }];
    assert_eq!(
        assign_core(1, &core, &bitfields, 1),
        Some((ParaId(3), OccupiedCoreAssumption::Included))
    );
    assert_eq!(assign_core(0, &core, &bitfields, 1), None);
}

#[test]
fn core_that_times_out_goes_to_the_next_in_line() {
    let core = occupied(&[false, true, false], Some(3), 9, Some(4));
    assert_eq!(
        assign_core(0, &core, &[], 9),
        Some((ParaId(4), OccupiedCoreAssumption::TimedOut))
    );
    assert_eq!(assign_core(0, &core, &[], 8), None);
    assert_eq!(assign_core(0, &core, &[], 10), None);
    let core = occupied(&[false, true, false], Some(3), 9, None);
    assert_eq!(assign_core(0, &core, &[], 9), None);
}

#[test]
fn first_suitable_candidate_is_found() {
    let candidates = vec![
        receipt(1, 7, 20),
        receipt(2, 8, 21),
        receipt(3, 7, 21),
        receipt(4, 7, 21),
    ];
    let found = find_candidate(&candidates, ParaId(7), hash(21)).unwrap();
    assert_eq!(found.hash, CandidateHash(hash(3)));
    assert!(find_candidate(&candidates, ParaId(8), hash(20)).is_none());
    assert!(find_candidate(&candidates, ParaId(9), hash(20)).is_none());
    assert!(find_candidate(&[], ParaId(7), hash(21)).is_none());
}

#[test]
fn complete_backing_is_in_order() {
    assert!(in_order(&[], &[]));
    assert!(in_order(&[1, 2, 3], &[1, 2, 3]));
}

#[test]
fn any_candidate_may_be_missing() {
    assert!(in_order(&[1, 2, 3], &[2, 3]));
    assert!(in_order(&[1, 2, 3], &[1, 3]));
    assert!(in_order(&[1, 2, 3], &[1, 2]));
    assert!(in_order(&[1, 2, 3], &[3]));
    assert!(in_order(&[1, 2, 3], &[1]));
    assert!(in_order(&[1, 2, 3], &[]));
    assert!(in_order(&[1], &[]));
}

#[test]
fn reordered_candidates_are_refused() {
    assert!(!in_order(&[1, 2, 3], &[2, 1, 3]));
    assert!(!in_order(&[1, 2, 3], &[3, 2, 1]));
    assert!(!in_order(&[1, 2, 3], &[3, 1]));
}

#[test]
fn unselected_candidates_are_refused() {
    assert!(!in_order(&[1, 2], &[1, 2, 4]));
    assert!(!in_order(&[1, 2], &[4, 1, 2]));
    assert!(!in_order(&[], &[1]));
}

#[test]
fn a_candidate_selected_twice_comes_at_most_twice() {
    assert!(in_order(&[1, 1], &[1, 1]));
    assert!(in_order(&[1, 1], &[1]));
    assert!(in_order(&[1, 2, 1], &[2, 1]));
    assert!(!in_order(&[1, 1], &[1, 1, 1]));
}

#[test]
fn only_the_first_code_upgrade_is_kept() {
    let kept = retain_one_code_upgrade(vec![
        backed(1, false),
        backed(2, true),
        backed(3, true),
        backed(4, false),
        backed(5, true),
    ]);
    let marks: Vec<u32> = kept.iter().map(|c| c.backing).collect();
    assert_eq!(marks, vec![1001, 1002, 1004]);
    assert!(kept[1].has_new_validation_code);
}

#[test]
fn without_code_upgrades_all_are_kept() {
    let kept = retain_one_code_upgrade(vec![backed(1, false), backed(2, false)]);
    assert_eq!(kept.len(), 2);
    assert_eq!(retain_one_code_upgrade(Vec::<BackedCandidate<u32>>::new()).len(), 0);
}
