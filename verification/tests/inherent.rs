use provisioner::bits::Bitfield;
use provisioner::error::{Canceled, ChainApiError, RuntimeApiError};
use provisioner::hash::H256;
use provisioner::inherent::{InherentReply, InherentRequest};
use provisioner::primitives::{
    BackedCandidate, CandidateDescriptor, CandidateHash, CandidateReceipt, CandidateVotes,
    CoreState, OccupiedCore, OccupiedCoreAssumption, ParaId, ProvisionerInherentData,
    ScheduledCore, SignedAvailabilityBitfield, ValidatorIndex, ValidatorSignature,
};
use provisioner::selection::{
    get_block_number_under_construction, CandidateSelection, SelectionReply, SelectionRequest,
};
use provisioner::{Error, InherentAssembly};

const RELAY_PARENT: H256 = H256([42; 32]);

fn hash(n: u8) -> H256 {
    H256([n; 32])
}

fn receipt(mark: u8, para_id: u32, data: u8) -> CandidateReceipt {
    CandidateReceipt {
        hash: CandidateHash(hash(mark)),
        descriptor: CandidateDescriptor {
            para_id: ParaId(para_id),
            persisted_validation_data_hash: hash(data),
        },
    }
}

fn backed(mark: u8, code: bool) -> BackedCandidate<u8> {
    BackedCandidate { hash: CandidateHash(hash(mark)), has_new_validation_code: code, backing: mark }
}

fn scheduled(id: u32) -> CoreState {
    CoreState::Scheduled(ScheduledCore { para_id: ParaId(id) })
}

fn occupied(next: u32, time_out_at: u32, late: u32) -> CoreState {
    CoreState::Occupied(OccupiedCore {
        next_up_on_available: Some(ScheduledCore { para_id: ParaId(next) }),
        time_out_at,
        next_up_on_time_out: Some(ScheduledCore { para_id: ParaId(late) }),
        availability: Bitfield::from_bools(&[false, false, false]),
    })
}

fn signed(bits: &[bool], validator: u32) -> SignedAvailabilityBitfield {
    SignedAvailabilityBitfield {
        payload: Bitfield::from_bools(bits),
        validator_index: ValidatorIndex(validator),
        signature: ValidatorSignature([validator as u8; 64]),
    }
}

fn validation_data(data: Option<u8>) -> SelectionReply<u8> {
    SelectionReply::PersistedValidationData(Ok(Ok(data.map(hash))))
}

fn select<'a>(
    cores: Vec<CoreState>,
    bitfields: Vec<SignedAvailabilityBitfield>,
    candidates: &'a [CandidateReceipt],
) -> CandidateSelection<'a, u8> {
    CandidateSelection::new(RELAY_PARENT, cores, bitfields, candidates)
}

fn asked_validation_data(selection: &CandidateSelection<'_, u8>) -> (u32, OccupiedCoreAssumption) {
    match selection.request() {
        Some(SelectionRequest::PersistedValidationData(block, para_id, assumption)) => {
            assert_eq!(block, RELAY_PARENT);
            (para_id.0, assumption)
        }
        other => panic!("unexpected request {:?}", other),
    }
}

fn asked_backing(selection: &CandidateSelection<'_, u8>) -> Vec<u8> {
    match selection.request() {
        Some(SelectionRequest::BackedCandidates(block, selected)) => {
            assert_eq!(block, RELAY_PARENT);
            selected.iter().map(|c| (c.0).0[0]).collect()
        }
        other => panic!("unexpected request {:?}", other),
    }
}

fn outcome(selection: CandidateSelection<'_, u8>) -> Result<Vec<u8>, Error> {
    assert!(selection.request().is_none());
    match selection.finish() {
        Ok((_, Ok(candidates))) => Ok(candidates.iter().map(|c| c.backing).collect()),
        Ok((_, Err(error))) => Err(error),
        Err(_) => panic!("the selection has not ended"),
    }
}

#[test]
fn block_number_is_one_more_than_that_of_the_relay_parent() {
    assert!(matches!(get_block_number_under_construction(Ok(Ok(Some(6)))), Ok(7)));
    assert!(matches!(get_block_number_under_construction(Ok(Ok(None))), Ok(0)));
    assert!(matches!(
        get_block_number_under_construction(Err(Canceled)),
        Err(Error::CanceledBlockNumber(Canceled))
    ));
    let failed = get_block_number_under_construction(Ok(Err(ChainApiError {
        msg: "gone".to_string(),
    })));
    assert!(matches!(failed, Err(Error::ChainApi(ref e)) if e.msg == "gone"));
}

#[test]
fn selects_a_candidate_for_each_core_that_can_get_one() {
    let candidates = vec![receipt(1, 10, 100), receipt(2, 20, 200), receipt(3, 30, 130), receipt(4, 30, 131)];
    let cores = vec![
        scheduled(10),
        CoreState::Free,
        occupied(20, 99, 21),
        occupied(29, 8, 30),
        occupied(40, 99, 41),
    ];
    let bits = [false, false, true, false, false];
    let bitfields = vec![signed(&bits, 0), signed(&bits, 1)];
    let selection = select(cores, bitfields, &candidates);

    assert!(matches!(selection.request(), Some(SelectionRequest::BlockNumber(block)) if block == RELAY_PARENT));
    let selection = selection.step(SelectionReply::BlockNumber(Ok(Ok(Some(7)))));
    assert_eq!(asked_validation_data(&selection), (10, OccupiedCoreAssumption::Free));
    let selection = selection.step(validation_data(Some(100)));
    assert_eq!(asked_validation_data(&selection), (20, OccupiedCoreAssumption::Included));
    let selection = selection.step(validation_data(None));
    assert_eq!(asked_validation_data(&selection), (30, OccupiedCoreAssumption::TimedOut));
    let selection = selection.step(validation_data(Some(131)));
    assert_eq!(asked_backing(&selection), vec![1, 4]);
    let selection = selection.step(SelectionReply::BackedCandidates(Ok(vec![
        backed(1, false),
        backed(4, true),
    ])));
    assert_eq!(outcome(selection).unwrap(), vec![1, 4]);
}

#[test]
fn selects_at_most_one_code_upgrade() {
    let candidates = vec![receipt(1, 1, 9), receipt(2, 2, 9), receipt(3, 3, 9), receipt(4, 4, 9)];
    let cores = vec![scheduled(1), scheduled(2), scheduled(3), scheduled(4)];
    let mut selection =
        select(cores, vec![], &candidates).step(SelectionReply::BlockNumber(Ok(Ok(None))));
    for para_id in 1..5 {
        assert_eq!(asked_validation_data(&selection), (para_id, OccupiedCoreAssumption::Free));
        selection = selection.step(validation_data(Some(9)));
    }
    assert_eq!(asked_backing(&selection), vec![1, 2, 3, 4]);
    let selection = selection.step(SelectionReply::BackedCandidates(Ok(vec![
        backed(1, false),
        backed(2, true),
        backed(3, true),
        backed(4, false),
    ])));
    assert_eq!(outcome(selection).unwrap(), vec![1, 2, 4]);
}

#[test]
fn wrong_validation_data_selects_nothing() {
    let candidates = vec![receipt(1, 10, 100)];
    let selection = select(vec![scheduled(10)], vec![], &candidates)
        .step(SelectionReply::BlockNumber(Ok(Ok(Some(1)))))
        .step(validation_data(Some(101)));
    assert_eq!(asked_backing(&selection), Vec::<u8>::new());
    let selection = selection.step(SelectionReply::BackedCandidates(Ok(vec![])));
    assert_eq!(outcome(selection).unwrap(), Vec::<u8>::new());
}

#[test]
fn a_selection_goes_on_without_what_is_not_backed() {
    let candidates = vec![receipt(1, 1, 9), receipt(2, 2, 9)];
    let picked = || {
        select(vec![scheduled(1), scheduled(2)], vec![], &candidates)
            .step(SelectionReply::BlockNumber(Ok(Ok(Some(10)))))
            .step(validation_data(Some(9)))
            .step(validation_data(Some(9)))
    };
    assert_eq!(asked_backing(&picked()), vec![1, 2]);
    let came = |marks: &[u8]| {
        let backing = marks.iter().map(|mark| backed(*mark, false)).collect();
        outcome(picked().step(SelectionReply::BackedCandidates(Ok(backing))))
    };
    assert_eq!(came(&[1]).unwrap(), vec![1]);
    assert_eq!(came(&[2]).unwrap(), vec![2]);
    assert_eq!(came(&[]).unwrap(), Vec::<u8>::new());
    assert!(matches!(came(&[2, 1]), Err(Error::BackedCandidateOrderingProblem)));
}

#[test]
fn a_parachain_on_two_cores_gets_no_two_distinct_candidates() {
    let candidates = vec![receipt(1, 10, 100), receipt(2, 10, 100)];
    let selection = select(vec![scheduled(10), scheduled(10)], vec![], &candidates)
        .step(SelectionReply::BlockNumber(Ok(Ok(Some(1)))))
        .step(validation_data(Some(100)))
        .step(validation_data(Some(100)));
    assert_eq!(asked_backing(&selection), vec![1, 1]);
}

#[test]
fn selection_reports_each_error() {
    let candidates = vec![receipt(1, 10, 100)];
    let start = || select(vec![scheduled(10)], vec![], &candidates);

    let ended = start().step(SelectionReply::BlockNumber(Err(Canceled)));
    assert!(matches!(outcome(ended), Err(Error::CanceledBlockNumber(_))));
    let ended = start().step(SelectionReply::BlockNumber(Ok(Err(ChainApiError {
        msg: "c".to_string(),
    }))));
    assert!(matches!(outcome(ended), Err(Error::ChainApi(ref e)) if e.msg == "c"));

    let numbered = || start().step(SelectionReply::BlockNumber(Ok(Ok(Some(1)))));
    let ended = numbered().step(SelectionReply::PersistedValidationData(Err(Canceled)));
    assert!(matches!(outcome(ended), Err(Error::CanceledPersistedValidationData(_))));
    let ended = numbered().step(SelectionReply::PersistedValidationData(Ok(Err(RuntimeApiError {
        msg: "r".to_string(),
    }))));
    assert!(matches!(outcome(ended), Err(Error::Runtime(ref e)) if e.msg == "r"));

    let picked = || numbered().step(validation_data(Some(100)));
    let ended = picked().step(SelectionReply::BackedCandidates(Err(Canceled)));
    assert!(matches!(outcome(ended), Err(Error::CanceledBackedCandidates(_))));
    let ended = picked().step(SelectionReply::BackedCandidates(Ok(vec![backed(2, false)])));
    assert!(matches!(outcome(ended), Err(Error::BackedCandidateOrderingProblem)));
}

#[test]
fn unfinished_selection_has_no_outcome() {
    let selection = select(vec![], vec![], &[]);
    assert!(selection.finish().is_err());
}

fn assemble(
    bitfields: &[SignedAvailabilityBitfield],
    candidates: &[CandidateReceipt],
    replies: Vec<InherentReply<u8>>,
) -> Option<Result<ProvisionerInherentData<u8>, Error>> {
    let mut assembly = InherentAssembly::new(RELAY_PARENT, bitfields, candidates);
    for reply in replies {
        assert!(assembly.request().is_some());
        assembly = assembly.step(reply);
    }
    assembly.finish()
}

#[test]
fn assembles_bitfields_candidates_and_disputes() {
    let bitfields =
        vec![signed(&[true, false], 2), signed(&[true, false], 0), signed(&[false, true], 1)];
    let candidates = vec![receipt(5, 7, 50), receipt(6, 8, 60)];
    let assembly: InherentAssembly<'_, u8> =
        InherentAssembly::new(RELAY_PARENT, &bitfields, &candidates);

    assert!(matches!(
        assembly.request(),
        Some(InherentRequest::AvailabilityCores(block)) if block == RELAY_PARENT
    ));
    let assembly = assembly
        .step(InherentReply::AvailabilityCores(Ok(Ok(vec![occupied(7, 99, 1), scheduled(8)]))));
    assert!(matches!(assembly.request(), Some(InherentRequest::RecentDisputes)));
    let dispute = CandidateHash(hash(77));
    let assembly = assembly.step(InherentReply::RecentDisputes(Ok(vec![(3, dispute)])));
    match assembly.request() {
        Some(InherentRequest::CandidateVotes(disputes)) => assert_eq!(disputes, vec![(3, dispute)]),
        other => panic!("unexpected request {:?}", other),
    }
    let votes = CandidateVotes { valid: vec![], invalid: vec![] };
    let assembly = assembly.step(InherentReply::CandidateVotes(Ok(vec![(3, dispute, votes)])));
    assert!(matches!(
        assembly.request(),
        Some(InherentRequest::Selection(SelectionRequest::BlockNumber(block))) if block == RELAY_PARENT
    ));
    let assembly =
        assembly.step(InherentReply::Selection(SelectionReply::BlockNumber(Ok(Ok(Some(1))))));
    match assembly.request() {
        Some(InherentRequest::Selection(SelectionRequest::PersistedValidationData(
            block,
            para_id,
            assumption,
        ))) => {
            assert_eq!(block, RELAY_PARENT);
            assert_eq!(para_id, ParaId(7));
            assert_eq!(assumption, OccupiedCoreAssumption::Included);
        }
        other => panic!("unexpected request {:?}", other),
    }
    let assembly = assembly
        .step(InherentReply::Selection(validation_data(Some(50))))
        .step(InherentReply::Selection(validation_data(Some(60))))
        .step(InherentReply::Selection(SelectionReply::BackedCandidates(Ok(vec![
            backed(5, false),
            backed(6, false),
        ]))));
    assert!(assembly.request().is_none());
    let data = assembly.finish().unwrap().unwrap();
    let validators: Vec<u32> = data.bitfields.iter().map(|b| b.validator_index.0).collect();
    assert_eq!(validators, vec![0, 2]);
    let backing: Vec<u8> = data.backed_candidates.iter().map(|c| c.backing).collect();
    assert_eq!(backing, vec![5, 6]);
    assert_eq!(data.disputes.len(), 1);
    assert_eq!((data.disputes[0].session, data.disputes[0].candidate_hash), (3, dispute));
}

#[test]
fn assembly_without_cores_fails() {
    let canceled = assemble(&[], &[], vec![InherentReply::AvailabilityCores(Err(Canceled))]);
    assert!(matches!(canceled, Some(Err(Error::CanceledAvailabilityCores(_)))));
    let failed = assemble(
        &[],
        &[],
        vec![InherentReply::AvailabilityCores(Ok(Err(RuntimeApiError { msg: "r".to_string() })))],
    );
    assert!(matches!(failed, Some(Err(Error::Runtime(ref e))) if e.msg == "r"));
}

#[test]
fn assembly_goes_on_without_disputes() {
    let data = assemble(
        &[],
        &[],
        vec![
            InherentReply::AvailabilityCores(Ok(Ok(vec![]))),
            InherentReply::RecentDisputes(Err(Canceled)),
            InherentReply::CandidateVotes(Err(Canceled)),
            InherentReply::Selection(SelectionReply::BlockNumber(Ok(Ok(None)))),
            InherentReply::Selection(SelectionReply::BackedCandidates(Ok(vec![]))),
        ],
    )
    .unwrap()
    .unwrap();
    assert!(data.bitfields.is_empty() && data.backed_candidates.is_empty() && data.disputes.is_empty());
}

#[test]
fn assembly_ends_with_the_error_of_its_selection() {
    let ended = assemble(
        &[],
        &[],
        vec![
            InherentReply::AvailabilityCores(Ok(Ok(vec![]))),
            InherentReply::RecentDisputes(Ok(vec![])),
            InherentReply::CandidateVotes(Ok(vec![])),
            InherentReply::Selection(SelectionReply::BlockNumber(Err(Canceled))),
        ],
    );
    assert!(matches!(ended, Some(Err(Error::CanceledBlockNumber(_)))));
    assert!(assemble(&[], &[], vec![InherentReply::AvailabilityCores(Ok(Ok(vec![])))]).is_none());
}
