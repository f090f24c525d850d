use provisioner::disputes::{dispute_statement_set, recent_disputes, select_disputes};
use provisioner::error::Canceled;
use provisioner::hash::H256;
use provisioner::primitives::{
    CandidateHash, CandidateVotes, DisputeStatement, InvalidDisputeStatementKind,
    ValidDisputeStatementKind, ValidatorIndex, ValidatorSignature,
};

fn candidate(n: u8) -> CandidateHash {
    CandidateHash(H256([n; 32]))
}

fn signature(n: u8) -> ValidatorSignature {
    ValidatorSignature([n; 64])
}

fn votes() -> CandidateVotes {
    CandidateVotes {
        valid: vec![
            (ValidDisputeStatementKind::Explicit, ValidatorIndex(3), signature(3)),
            (
                ValidDisputeStatementKind::BackingSeconded(H256([9; 32])),
                ValidatorIndex(1),
                signature(1),
            ),
        ],
        invalid: vec![(InvalidDisputeStatementKind::Explicit, ValidatorIndex(2), signature(2))],
    }
}

#[test]
fn votes_become_statements_valid_ones_first() {
    let set = dispute_statement_set(4, candidate(7), &votes());
    assert_eq!(set.session, 4);
    assert_eq!(set.candidate_hash, candidate(7));
    assert_eq!(
        set.statements,
        vec![
            (
                DisputeStatement::Valid(ValidDisputeStatementKind::Explicit),
                ValidatorIndex(3),
                signature(3)
            ),
            (
                DisputeStatement::Valid(ValidDisputeStatementKind::BackingSeconded(H256([9; 32]))),
                ValidatorIndex(1),
                signature(1)
            ),
            (
                DisputeStatement::Invalid(InvalidDisputeStatementKind::Explicit),
                ValidatorIndex(2),
                signature(2)
            ),
        ]
    );
}

#[test]
fn each_dispute_becomes_a_set() {
    let none = CandidateVotes { valid: vec![], invalid: vec![] };
    let sets = select_disputes(Ok(vec![(1, candidate(5), none), (2, candidate(6), votes())]));
    assert_eq!(sets.len(), 2);
    assert_eq!((sets[0].session, sets[0].candidate_hash), (1, candidate(5)));
    assert_eq!(sets[0].statements.len(), 0);
    assert_eq!((sets[1].session, sets[1].candidate_hash), (2, candidate(6)));
    assert_eq!(sets[1].statements.len(), 3);
}

#[test]
fn nobody_who_answers_means_no_disputes() {
    assert_eq!(recent_disputes(Err(Canceled)), vec![]);
    assert_eq!(recent_disputes(Ok(vec![(1, candidate(2))])), vec![(1, candidate(2))]);
    assert_eq!(select_disputes(Err(Canceled)).len(), 0);
}
