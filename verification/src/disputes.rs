//! Disputes: the statements on disputed candidates that go into a block.
//!
//! All recent disputes are asked for, not only the active ones: redundancy is fine, and everything
//! from the dispute window gets on-chain.

use vstd::prelude::*;

use crate::error::Canceled;
use crate::primitives::{
    set_views, CandidateHash, CandidateVotes, DisputeStatement, DisputeStatementSet, DisputeStatementSetView,
    InvalidDisputeStatementKind, SessionIndex, ValidDisputeStatementKind, ValidatorIndex,
    ValidatorSignature,
};

verus! {

/// The answer to the question for the recent disputes.
pub type RecentDisputesReply = Result<Vec<(SessionIndex, CandidateHash)>, Canceled>;

/// The answer to the question for the votes on disputed candidates.
pub type CandidateVotesReply = Result<
    Vec<(SessionIndex, CandidateHash, CandidateVotes)>,
    Canceled,
>;

/// The recent disputes, none if nobody answered.
pub open spec fn disputes_told(reply: RecentDisputesReply) -> Seq<(SessionIndex, CandidateHash)> {
    match reply {
        Ok(disputes) => disputes@,
        Err(_) => Seq::empty(),
    }
}

/// The votes on disputed candidates, none if nobody answered.
pub open spec fn votes_told(reply: CandidateVotesReply) -> Seq<
    (SessionIndex, CandidateHash, CandidateVotes),
> {
    match reply {
        Ok(votes) => votes@,
        Err(_) => Seq::empty(),
    }
}

/// A vote for a candidate, as a statement.
pub open spec fn valid_statement(
    vote: (ValidDisputeStatementKind, ValidatorIndex, ValidatorSignature),
) -> (DisputeStatement, ValidatorIndex, ValidatorSignature) {
    (DisputeStatement::Valid(vote.0), vote.1, vote.2)
}

/// A vote against a candidate, as a statement.
pub open spec fn invalid_statement(
    vote: (InvalidDisputeStatementKind, ValidatorIndex, ValidatorSignature),
) -> (DisputeStatement, ValidatorIndex, ValidatorSignature) {
    (DisputeStatement::Invalid(vote.0), vote.1, vote.2)
}

/// The statements on one disputed candidate: the votes for it, then the votes against it.
pub open spec fn statement_set(
    dispute: (SessionIndex, CandidateHash, CandidateVotes),
) -> DisputeStatementSetView {
    DisputeStatementSetView {
        candidate_hash: dispute.1,
        session: dispute.0,
        statements: dispute.2.valid@.map_values(
            |vote: (ValidDisputeStatementKind, ValidatorIndex, ValidatorSignature)|
                valid_statement(vote),
        ) + dispute.2.invalid@.map_values(
            |vote: (InvalidDisputeStatementKind, ValidatorIndex, ValidatorSignature)|
                invalid_statement(vote),
        ),
    }
}

/// The statements on each disputed candidate.
pub open spec fn statement_sets(
    disputes: Seq<(SessionIndex, CandidateHash, CandidateVotes)>,
) -> Seq<DisputeStatementSetView> {
    disputes.map_values(
        |dispute: (SessionIndex, CandidateHash, CandidateVotes)| statement_set(dispute),
    )
}

/// The disputes whose votes are to be asked for. If nobody told of any, there are none.
pub fn recent_disputes(reply: RecentDisputesReply) -> (disputes: Vec<(SessionIndex, CandidateHash)>)
    ensures
        disputes@ == disputes_told(reply),
{
    match reply {
        Ok(disputes) => disputes,
        Err(_) => Vec::new(),
    }
}

/// A copy of a list of disputes.
pub(crate) fn copy_disputes(disputes: &[(SessionIndex, CandidateHash)]) -> (copy: Vec<
    (SessionIndex, CandidateHash),
>)
    ensures
        copy@ == disputes@,
{
    let mut copy: Vec<(SessionIndex, CandidateHash)> = Vec::with_capacity(disputes.len());
    let mut n: usize = 0;
    while n < disputes.len()
        invariant
            n <= disputes@.len(),
            copy@ == disputes@.take(n as int),
        decreases disputes@.len() - n,
    {
        let (session, candidate_hash) = disputes[n];
        copy.push((session, candidate_hash));
        assert(disputes@.take(n + 1) =~= disputes@.take(n as int).push(disputes@[n as int]));
        n = n + 1;
    }
    assert(disputes@.take(n as int) =~= disputes@);
    copy
}

/// Makes the votes on a disputed candidate into statements.
pub fn dispute_statement_set(
    session: SessionIndex,
    candidate_hash: CandidateHash,
    votes: &CandidateVotes,
) -> (set: DisputeStatementSet)
    ensures
        set@ == statement_set((session, candidate_hash, *votes)),
{
    let mut statements: Vec<(DisputeStatement, ValidatorIndex, ValidatorSignature)> = Vec::new();
    let ghost whole = statement_set((session, candidate_hash, *votes)).statements;

    let mut n: usize = 0;
    while n < votes.valid.len()
        invariant
            n <= votes.valid@.len(),
            whole == statement_set((session, candidate_hash, *votes)).statements,
            statements@.len() == n,
            forall|i: int| 0 <= i < n ==> statements@[i] == whole[i],
        decreases votes.valid@.len() - n,
    {
        let vote = &votes.valid[n];
        statements.push((DisputeStatement::Valid(vote.0), vote.1, vote.2));
        n = n + 1;
    }

    let mut m: usize = 0;
    while m < votes.invalid.len()
        invariant
            m <= votes.invalid@.len(),
            whole == statement_set((session, candidate_hash, *votes)).statements,
            statements@.len() == votes.valid@.len() + m,
            forall|i: int| 0 <= i < statements@.len() ==> statements@[i] == whole[i],
        decreases votes.invalid@.len() - m,
    {
        let vote = &votes.invalid[m];
        statements.push((DisputeStatement::Invalid(vote.0), vote.1, vote.2));
        m = m + 1;
    }
    assert(statements@ =~= whole);
    DisputeStatementSet { candidate_hash, session, statements }
}

/// Makes the votes on each disputed candidate into statements. If nobody told of any, there are none.
pub fn select_disputes(reply: CandidateVotesReply) -> (disputes: Vec<DisputeStatementSet>)
    ensures
        set_views(disputes@) == statement_sets(votes_told(reply)),
{
    let dispute_candidate_votes = match reply {
        Ok(votes) => votes,
        Err(_) => Vec::new(),
    };
    let mut disputes: Vec<DisputeStatementSet> = Vec::with_capacity(dispute_candidate_votes.len());
    let mut n: usize = 0;
    while n < dispute_candidate_votes.len()
        invariant
            n <= dispute_candidate_votes@.len(),
            disputes@.len() == n,
            forall|i: int|
                0 <= i < n ==> (#[trigger] disputes@[i])@ == statement_set(
                    dispute_candidate_votes@[i],
                ),
        decreases dispute_candidate_votes@.len() - n,
    {
        let (session, candidate_hash, votes) = &dispute_candidate_votes[n];
        disputes.push(dispute_statement_set(*session, *candidate_hash, votes));
        n = n + 1;
    }
    assert(set_views(disputes@) =~= statement_sets(dispute_candidate_votes@));
    disputes
}

/// Each vote becomes exactly one statement, at its place: those for the candidate come first. What the
/// vote says, the validator and the signature stay what they are, and so do the candidate and the
/// session.
pub proof fn law_each_vote_becomes_a_statement(
    dispute: (SessionIndex, CandidateHash, CandidateVotes),
)
    ensures
        ({
            let set = statement_set(dispute);
            let valid = dispute.2.valid@.len();
            let invalid = dispute.2.invalid@.len();
            &&& set.session == dispute.0
            &&& set.candidate_hash == dispute.1
            &&& set.statements.len() == valid + invalid
            &&& forall|i: int|
                0 <= i < valid ==> {
                    &&& (#[trigger] set.statements[i]).0 == DisputeStatement::Valid(
                        dispute.2.valid@[i].0,
                    )
                    &&& set.statements[i].1 == dispute.2.valid@[i].1
                    &&& set.statements[i].2 == dispute.2.valid@[i].2
                }
            &&& forall|i: int|
                valid <= i < valid + invalid ==> {
                    &&& (#[trigger] set.statements[i]).0 == DisputeStatement::Invalid(
                        dispute.2.invalid@[i - valid].0,
                    )
                    &&& set.statements[i].1 == dispute.2.invalid@[i - valid].1
                    &&& set.statements[i].2 == dispute.2.invalid@[i - valid].2
                }
        }),
{
}

/// The sets are one per disputed candidate that was told of, in the same order, each with the session,
/// the candidate and all votes on it; if nobody answered, there are none.
pub proof fn law_each_dispute_becomes_a_set(
    told: Vec<(SessionIndex, CandidateHash, CandidateVotes)>,
    canceled: Canceled,
)
    ensures
        statement_sets(votes_told(Err(canceled))).len() == 0,
        ({
            let sets = statement_sets(votes_told(Ok(told)));
            &&& sets.len() == told@.len()
            &&& forall|n: int|
                0 <= n < told@.len() ==> {
                    let valid = told@[n].2.valid@;
                    let invalid = told@[n].2.invalid@;
                    &&& (#[trigger] sets[n]).session == told@[n].0
                    &&& sets[n].candidate_hash == told@[n].1
                    &&& sets[n].statements.len() == valid.len() + invalid.len()
                    &&& forall|i: int|
                        0 <= i < valid.len() ==> #[trigger] sets[n].statements[i] == (
                            DisputeStatement::Valid(valid[i].0),
                            valid[i].1,
                            valid[i].2,
                        )
                    &&& forall|i: int|
                        valid.len() <= i < valid.len() + invalid.len()
                            ==> #[trigger] sets[n].statements[i] == (
                            DisputeStatement::Invalid(invalid[i - valid.len()].0),
                            invalid[i - valid.len()].1,
                            invalid[i - valid.len()].2,
                        )
                }
        }),
{
    assert forall|n: int| 0 <= n < told@.len() implies (#[trigger] statement_sets(
        votes_told(Ok(told)),
    )[n]) == statement_set(told@[n]) by {
        law_each_vote_becomes_a_statement(told@[n]);
    }
}

/// All recent disputes that were told of are asked about, in the same order, and no others; if nobody
/// answered, there are none.
pub proof fn law_all_recent_disputes_are_asked_about(
    told: Vec<(SessionIndex, CandidateHash)>,
    canceled: Canceled,
)
    ensures
        disputes_told(Ok(told)) == told@,
        disputes_told(Err(canceled)).len() == 0,
{
}

} // verus!
