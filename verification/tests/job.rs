use provisioner::bits::Bitfield;
use provisioner::error::Canceled;
use provisioner::hash::H256;
use provisioner::inherent::{InherentReply, InherentRequest};
use provisioner::job::{InherentAfter, JobAction, JobEvent, PRE_PROPOSE_TIMEOUT_MILLIS};
use provisioner::primitives::{
    CandidateDescriptor, CandidateHash, CandidateReceipt, CoreState, OccupiedCore, ParaId,
    ProvisionableData, ProvisionerMessage, ScheduledCore, SignedAvailabilityBitfield,
    ValidatorIndex, ValidatorSignature,
};
use provisioner::selection::{SelectionReply, SelectionRequest};
use provisioner::ProvisioningJob;

const RELAY_PARENT: H256 = H256([1; 32]);

fn request(receiver: u32) -> JobEvent<u32> {
    JobEvent::Message(ProvisionerMessage::RequestInherentData(RELAY_PARENT, receiver))
}

fn data(data: ProvisionableData) -> JobEvent<u32> {
    JobEvent::Message(ProvisionerMessage::ProvisionableData(RELAY_PARENT, data))
}

fn signed(bits: &[bool], validator: u32) -> SignedAvailabilityBitfield {
    SignedAvailabilityBitfield {
        payload: Bitfield::from_bools(bits),
        validator_index: ValidatorIndex(validator),
        signature: ValidatorSignature([0; 64]),
    }
}

fn sent(action: JobAction<u32>) -> Vec<u32> {
    match action {
        JobAction::SendInherentData(receivers) => {
            assert!(!receivers.is_empty());
            receivers
        }
        other => panic!("unexpected action {:?}", other),
    }
}

#[test]
fn a_job_starts_with_a_wait_of_two_seconds() {
    let job: ProvisioningJob<u32> = ProvisioningJob::new(RELAY_PARENT);
    assert_eq!(PRE_PROPOSE_TIMEOUT_MILLIS, 2000);
    assert_eq!(job.inherent_after(), InherentAfter::Wait(2000));
    assert!(!job.inherent_after().is_ready());
}

#[test]
fn requests_are_held_back_until_the_timeout() {
    let mut job = ProvisioningJob::new(RELAY_PARENT);
    assert!(matches!(job.handle(request(1)), JobAction::Continue));
    assert!(matches!(job.handle(request(2)), JobAction::Continue));
    assert_eq!(sent(job.handle(JobEvent::TimeoutElapsed)), vec![1, 2]);
    assert!(job.inherent_after().is_ready());
    assert_eq!(sent(job.handle(request(3))), vec![3]);
    assert_eq!(sent(job.handle(request(4))), vec![4]);
}

#[test]
fn timeout_without_requests_sends_nothing() {
    let mut job = ProvisioningJob::<u32>::new(RELAY_PARENT);
    assert!(matches!(job.handle(JobEvent::TimeoutElapsed), JobAction::Continue));
    assert!(job.inherent_after().is_ready());
}

#[test]
fn job_stops_when_messages_end() {
    let mut job = ProvisioningJob::new(RELAY_PARENT);
    assert!(matches!(job.handle(request(1)), JobAction::Continue));
    assert!(matches!(job.handle(JobEvent::MessagesEnded), JobAction::Stop));
}

#[test]
fn ready_ends_the_wait() {
    let mut after = InherentAfter::new_from_now();
    assert!(!after.is_ready());
    after.ready();
    assert!(after.is_ready());
}

#[test]
fn what_is_noted_goes_into_the_inherent_data() {
    let mut job = ProvisioningJob::<u32>::new(RELAY_PARENT);
    let receipt = CandidateReceipt {
        hash: CandidateHash(H256([5; 32])),
        descriptor: CandidateDescriptor {
            para_id: ParaId(9),
            persisted_validation_data_hash: H256([6; 32]),
        },
    };
    for event in vec![
        data(ProvisionableData::Bitfield(RELAY_PARENT, signed(&[true, false], 4))),
        data(ProvisionableData::MisbehaviorReport(RELAY_PARENT, ValidatorIndex(0))),
        data(ProvisionableData::BackedCandidate(receipt)),
        data(ProvisionableData::Dispute(RELAY_PARENT, ValidatorSignature([2; 64]))),
        data(ProvisionableData::Bitfield(RELAY_PARENT, signed(&[false, false], 3))),
    ] {
        assert!(matches!(job.handle(event), JobAction::Continue));
    }

    let assembly = job.assemble::<u8>();
    assert!(matches!(
        assembly.request(),
        Some(InherentRequest::AvailabilityCores(block)) if block == RELAY_PARENT
    ));
    let occupied = CoreState::Occupied(OccupiedCore {
        next_up_on_available: None,
        time_out_at: 50,
        next_up_on_time_out: None,
        availability: Bitfield::from_bools(&[false; 10]),
    });
    let scheduled = CoreState::Scheduled(ScheduledCore { para_id: ParaId(9) });
    let assembly = assembly
        .step(InherentReply::AvailabilityCores(Ok(Ok(vec![occupied, scheduled]))))
        .step(InherentReply::RecentDisputes(Err(Canceled)))
        .step(InherentReply::CandidateVotes(Err(Canceled)))
        .step(InherentReply::Selection(SelectionReply::BlockNumber(Ok(Ok(Some(3))))))
        .step(InherentReply::Selection(SelectionReply::PersistedValidationData(Ok(Ok(Some(
            H256([6; 32]),
        ))))));
    match assembly.request() {
        Some(InherentRequest::Selection(SelectionRequest::BackedCandidates(_, selected))) => {
            assert_eq!(selected, vec![CandidateHash(H256([5; 32]))]);
        }
        other => panic!("unexpected request {:?}", other),
    }
    let assembly = assembly
        .step(InherentReply::Selection(SelectionReply::BackedCandidates(Err(Canceled))));
    assert!(assembly.finish().unwrap().is_err());
}
