//! The data that the provisioner reads and hands on.
//!
//! Each type holds what the provisioner's decisions depend on, and what has to reach the block
//! author unchanged. Hashes of receipts and of validation data come with the data: whoever decodes
//! a receipt also computes its hash.

use vstd::prelude::*;

use crate::bits::Bitfield;
use crate::hash::H256;

verus! {

/// The number of a block of the relay chain.
pub type BlockNumber = u32;

/// The index of a session of the relay chain.
pub type SessionIndex = u32;

/// Identifies a parachain.
#[derive(Clone, Copy, Debug, PartialEq, Eq, Structural)]
pub struct ParaId(pub u32);

/// The index of a validator in the validator set.
#[derive(Clone, Copy, Debug, PartialEq, Eq, Structural)]
pub struct ValidatorIndex(pub u32);

/// The signature of a validator.
#[derive(Clone, Copy, Debug, PartialEq, Eq)]
pub struct ValidatorSignature(pub [u8; 64]);

/// The hash of a candidate receipt.
#[derive(Clone, Copy, Debug, PartialEq, Eq)]
pub struct CandidateHash(pub H256);

/// What is to be assumed of the candidate that occupies a core, when validation data is asked for.
#[derive(Clone, Copy, Debug, PartialEq, Eq, Structural)]
pub enum OccupiedCoreAssumption {
    /// The candidate that occupies the core is made available and included.
    Included,
    /// The candidate that occupies the core times out.
    TimedOut,
    /// The core is not occupied.
    Free,
}

/// A core to which a parachain is assigned.
#[derive(Clone, Copy, Debug, PartialEq, Eq, Structural)]
pub struct ScheduledCore {
    /// The parachain.
    pub para_id: ParaId,
}

/// A core on which a candidate is pending availability.
#[derive(Debug)]
pub struct OccupiedCore {
    /// What is scheduled on this core next if the candidate becomes available.
    pub next_up_on_available: Option<ScheduledCore>,
    /// The block at which the candidate times out.
    pub time_out_at: BlockNumber,
    /// What is scheduled on this core next if the candidate times out.
    pub next_up_on_time_out: Option<ScheduledCore>,
    /// Which validators are known to hold their part of the candidate, one bit per validator.
    pub availability: Bitfield,
}

/// The state of an availability core.
#[derive(Debug)]
pub enum CoreState {
    /// A candidate is pending availability on the core.
    Occupied(OccupiedCore),
    /// The core is free and a parachain is scheduled on it.
    Scheduled(ScheduledCore),
    /// The core is free and nothing is scheduled on it.
    Free,
}

impl CoreState {
    /// Whether a candidate is pending availability on the core.
    pub fn is_occupied(&self) -> (occupied: bool)
        ensures
            occupied == (self is Occupied),
    {
        match self {
            CoreState::Occupied(_) => true,
            _ => false,
        }
    }
}

/// A statement of one validator, one bit per core: whether the validator holds its part of the
/// candidate that occupies the core.
#[derive(Debug)]
pub struct SignedAvailabilityBitfield {
    /// One bit per core.
    pub payload: Bitfield,
    /// The validator that signed.
    pub validator_index: ValidatorIndex,
    /// Its signature.
    pub signature: ValidatorSignature,
}

/// What a signed availability bitfield says.
pub struct SignedBitfieldView {
    pub bits: Seq<bool>,
    pub validator_index: ValidatorIndex,
    pub signature: ValidatorSignature,
}

impl View for SignedAvailabilityBitfield {
    type V = SignedBitfieldView;

    open spec fn view(&self) -> SignedBitfieldView {
        SignedBitfieldView {
            bits: self.payload@,
            validator_index: self.validator_index,
            signature: self.signature,
        }
    }
}

impl Clone for SignedAvailabilityBitfield {
    fn clone(&self) -> (copy: Self)
        ensures
            copy@ == self@,
            copy.payload@ == self.payload@,
            copy.validator_index == self.validator_index,
            copy.signature == self.signature,
    {
        SignedAvailabilityBitfield {
            payload: self.payload.clone(),
            validator_index: self.validator_index,
            signature: self.signature,
        }
    }
}

/// What each of a sequence of signed bitfields says.
pub open spec fn bitfield_views(bitfields: Seq<SignedAvailabilityBitfield>) -> Seq<
    SignedBitfieldView,
> {
    bitfields.map_values(|bitfield: SignedAvailabilityBitfield| bitfield@)
}

/// The part of a candidate receipt that says what the candidate is for.
#[derive(Clone, Copy, Debug)]
pub struct CandidateDescriptor {
    /// The parachain that the candidate belongs to.
    pub para_id: ParaId,
    /// The hash of the validation data that the candidate was made with.
    pub persisted_validation_data_hash: H256,
}

/// The receipt of a candidate that has been backed.
#[derive(Clone, Copy, Debug)]
pub struct CandidateReceipt {
    /// The hash of this receipt.
    pub hash: CandidateHash,
    /// What the candidate is for.
    pub descriptor: CandidateDescriptor,
}

/// A backed candidate, with the votes for it.
#[derive(Clone, Debug)]
pub struct BackedCandidate<B> {
    /// The hash of the candidate's receipt.
    pub hash: CandidateHash,
    /// Whether the candidate replaces the validation code of its parachain.
    pub has_new_validation_code: bool,
    /// The candidate itself and its backing, which the provisioner does not look into.
    pub backing: B,
}

/// A statement that a candidate is valid.
#[derive(Clone, Copy, Debug, PartialEq, Eq)]
pub enum ValidDisputeStatementKind {
    /// An explicit statement, issued as part of a dispute.
    Explicit,
    /// The validator seconded the candidate at this relay parent.
    BackingSeconded(H256),
    /// The validator voted for the candidate in backing, at this relay parent.
    BackingValid(H256),
    /// An approval vote.
    ApprovalChecking,
}

/// A statement that a candidate is invalid.
#[derive(Clone, Copy, Debug, PartialEq, Eq)]
pub enum InvalidDisputeStatementKind {
    /// An explicit statement, issued as part of a dispute.
    Explicit,
}

/// A statement in a dispute.
#[derive(Clone, Copy, Debug, PartialEq, Eq)]
pub enum DisputeStatement {
    /// The candidate is valid.
    Valid(ValidDisputeStatementKind),
    /// The candidate is invalid.
    Invalid(InvalidDisputeStatementKind),
}

/// The votes on a disputed candidate.
#[derive(Debug)]
pub struct CandidateVotes {
    /// The votes for it, each with the validator and its signature.
    pub valid: Vec<(ValidDisputeStatementKind, ValidatorIndex, ValidatorSignature)>,
    /// The votes against it, each with the validator and its signature.
    pub invalid: Vec<(InvalidDisputeStatementKind, ValidatorIndex, ValidatorSignature)>,
}

/// All statements on one disputed candidate.
#[derive(Clone, Debug)]
pub struct DisputeStatementSet {
    /// The candidate.
    pub candidate_hash: CandidateHash,
    /// The session of the dispute.
    pub session: SessionIndex,
    /// The statements, each with the validator and its signature.
    pub statements: Vec<(DisputeStatement, ValidatorIndex, ValidatorSignature)>,
}

/// What a dispute statement set says.
pub struct DisputeStatementSetView {
    pub candidate_hash: CandidateHash,
    pub session: SessionIndex,
    pub statements: Seq<(DisputeStatement, ValidatorIndex, ValidatorSignature)>,
}

impl View for DisputeStatementSet {
    type V = DisputeStatementSetView;

    open spec fn view(&self) -> DisputeStatementSetView {
        DisputeStatementSetView {
            candidate_hash: self.candidate_hash,
            session: self.session,
            statements: self.statements@,
        }
    }
}

/// What each of a sequence of dispute statement sets says.
pub open spec fn set_views(sets: Seq<DisputeStatementSet>) -> Seq<DisputeStatementSetView> {
    sets.map_values(|set: DisputeStatementSet| set@)
}

/// What a block author puts into the inherent of a block.
#[derive(Clone, Debug)]
pub struct ProvisionerInherentData<B> {
    /// The signed availability bitfields.
    pub bitfields: Vec<SignedAvailabilityBitfield>,
    /// The backed candidates.
    pub backed_candidates: Vec<BackedCandidate<B>>,
    /// The dispute statements.
    pub disputes: Vec<DisputeStatementSet>,
}

/// What the inherent data of a block says.
pub struct InherentDataView<B> {
    pub bitfields: Seq<SignedBitfieldView>,
    pub backed_candidates: Seq<BackedCandidate<B>>,
    pub disputes: Seq<DisputeStatementSetView>,
}

impl<B> View for ProvisionerInherentData<B> {
    type V = InherentDataView<B>;

    open spec fn view(&self) -> InherentDataView<B> {
        InherentDataView {
            bitfields: bitfield_views(self.bitfields@),
            backed_candidates: self.backed_candidates@,
            disputes: set_views(self.disputes@),
        }
    }
}

/// Something that could go into a block.
#[derive(Debug)]
pub enum ProvisionableData {
    /// A signed availability bitfield, and the relay parent it is for.
    Bitfield(H256, SignedAvailabilityBitfield),
    /// The receipt of a candidate that has been backed.
    BackedCandidate(CandidateReceipt),
    /// A report that a validator misbehaved, and the relay parent it is for.
    MisbehaviorReport(H256, ValidatorIndex),
    /// A dispute, and the relay parent it is for.
    Dispute(H256, ValidatorSignature),
}

/// A message to the provisioner. `R` stands for where the answer to a request goes.
#[derive(Debug)]
pub enum ProvisionerMessage<R> {
    /// Asks for the inherent data of a block with this relay parent.
    RequestInherentData(H256, R),
    /// Hands over something that could go into a block with this relay parent.
    ProvisionableData(H256, ProvisionableData),
}

/// The views of signed bitfields are one per bitfield, in order, and say all of it: the bits, the
/// validator and the signature.
pub proof fn law_bitfield_views_say_all(bitfields: Seq<SignedAvailabilityBitfield>)
    ensures
        bitfield_views(bitfields).len() == bitfields.len(),
        forall|i: int|
            0 <= i < bitfields.len() ==> {
                &&& (#[trigger] bitfield_views(bitfields)[i]).bits == bitfields[i].payload@
                &&& bitfield_views(bitfields)[i].validator_index == bitfields[i].validator_index
                &&& bitfield_views(bitfields)[i].signature == bitfields[i].signature
            },
{
}

/// The views of dispute statement sets are one per set, in order, and say all of it: the candidate,
/// the session and the statements.
pub proof fn law_set_views_say_all(sets: Seq<DisputeStatementSet>)
    ensures
        set_views(sets).len() == sets.len(),
        forall|i: int|
            0 <= i < sets.len() ==> {
                &&& (#[trigger] set_views(sets)[i]).candidate_hash == sets[i].candidate_hash
                &&& set_views(sets)[i].session == sets[i].session
                &&& set_views(sets)[i].statements == sets[i].statements@
            },
{
}

/// The view of inherent data says all of it: each bitfield, each candidate and each dispute, in order.
pub proof fn law_inherent_data_view_says_all<B>(data: ProvisionerInherentData<B>)
    ensures
        data@.backed_candidates == data.backed_candidates@,
        data@.bitfields.len() == data.bitfields@.len(),
        forall|i: int|
            0 <= i < data.bitfields@.len() ==> {
                &&& (#[trigger] data@.bitfields[i]).bits == data.bitfields@[i].payload@
                &&& data@.bitfields[i].validator_index == data.bitfields@[i].validator_index
                &&& data@.bitfields[i].signature == data.bitfields@[i].signature
            },
        data@.disputes.len() == data.disputes@.len(),
        forall|i: int|
            0 <= i < data.disputes@.len() ==> {
                &&& (#[trigger] data@.disputes[i]).candidate_hash == data.disputes@[i].candidate_hash
                &&& data@.disputes[i].session == data.disputes@[i].session
                &&& data@.disputes[i].statements == data.disputes@[i].statements@
            },
{
}

} // verus!
