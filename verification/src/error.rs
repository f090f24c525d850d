//! What can go wrong while inherent data is assembled.

use vstd::prelude::*;

verus! {

/// The side that was to answer a request has gone away without an answer.
#[derive(Clone, Copy, Debug, PartialEq, Eq)]
pub struct Canceled;

/// A message could not be sent.
#[derive(Clone, Copy, Debug, PartialEq, Eq)]
pub enum SendError {
    /// The channel is full.
    Full,
    /// The receiving side has gone away.
    Disconnected,
}

/// A failure in what all subsystems share.
#[derive(Debug)]
pub struct UtilError {
    /// What failed.
    pub msg: String,
}

/// A failure of a request to the chain.
#[derive(Debug)]
pub struct ChainApiError {
    /// What failed.
    pub msg: String,
}

/// A failure of a request to the runtime.
#[derive(Debug)]
pub struct RuntimeApiError {
    /// What failed.
    pub msg: String,
}

/// Errors in the provisioner.
#[derive(Debug)]
pub enum Error {
    /// Something that all subsystems share has failed.
    Util(UtilError),
    /// Nobody answered the request for the availability cores.
    CanceledAvailabilityCores(Canceled),
    /// Nobody answered a request for persisted validation data.
    CanceledPersistedValidationData(Canceled),
    /// Nobody answered the request for the block number.
    CanceledBlockNumber(Canceled),
    /// Nobody answered the request for the backed candidates.
    CanceledBackedCandidates(Canceled),
    /// Nobody answered the request for the votes on disputes.
    CanceledCandidateVotes(Canceled),
    /// A request to the chain failed.
    ChainApi(ChainApiError),
    /// A request to the runtime failed.
    Runtime(RuntimeApiError),
    /// A message to the chain could not be sent.
    ChainApiMessageSend(SendError),
    /// The request for the backed candidates could not be sent.
    GetBackedCandidatesSend(SendError),
    /// The requester of the inherent data has gone away.
    InherentDataReturnChannel,
    /// The backed candidates do not match the candidates that were selected.
    BackedCandidateOrderingProblem,
}

/// What is reported of an error.
pub open spec fn error_message(error: Error) -> Seq<char> {
    match error {
        Error::Util(source) => source.msg@,
        Error::CanceledAvailabilityCores(_) => "failed to get availability cores"@,
        Error::CanceledPersistedValidationData(_) => "failed to get persisted validation data"@,
        Error::CanceledBlockNumber(_) => "failed to get block number"@,
        Error::CanceledBackedCandidates(_) => "failed to get backed candidates"@,
        Error::CanceledCandidateVotes(_) => "failed to get votes on dispute"@,
        Error::ChainApi(source) => source.msg@,
        Error::Runtime(source) => source.msg@,
        Error::ChainApiMessageSend(_) => "failed to send message to ChainAPI"@,
        Error::GetBackedCandidatesSend(_) => "failed to send message to CandidateBacking to get backed candidates"@,
        Error::InherentDataReturnChannel => "failed to send return message with Inherents"@,
        Error::BackedCandidateOrderingProblem => "backed candidate does not correspond to selected candidate; check logic in provisioner"@,
    }
}

impl Error {
    /// The text that describes the error.
    pub fn message(&self) -> (text: String)
        ensures
            text@ == error_message(*self),
    {
        match self {
            Error::Util(source) => source.msg.clone(),
            Error::CanceledAvailabilityCores(_) => "failed to get availability cores".to_string(),
            Error::CanceledPersistedValidationData(_) => {
                "failed to get persisted validation data".to_string()
            },
            Error::CanceledBlockNumber(_) => "failed to get block number".to_string(),
            Error::CanceledBackedCandidates(_) => "failed to get backed candidates".to_string(),
            Error::CanceledCandidateVotes(_) => "failed to get votes on dispute".to_string(),
            Error::ChainApi(source) => source.msg.clone(),
            Error::Runtime(source) => source.msg.clone(),
            Error::ChainApiMessageSend(_) => "failed to send message to ChainAPI".to_string(),
            Error::GetBackedCandidatesSend(_) => {
                "failed to send message to CandidateBacking to get backed candidates".to_string()
            },
            Error::InherentDataReturnChannel => {
                "failed to send return message with Inherents".to_string()
            },
            Error::BackedCandidateOrderingProblem => {
                "backed candidate does not correspond to selected candidate; check logic in provisioner".to_string()
            },
        }
    }
}

/// An error that passes on a failure reports what that failure says, unchanged.
pub proof fn law_error_reports_its_source(
    util: UtilError,
    chain: ChainApiError,
    runtime: RuntimeApiError,
)
    ensures
        error_message(Error::Util(util)) == util.msg@,
        error_message(Error::ChainApi(chain)) == chain.msg@,
        error_message(Error::Runtime(runtime)) == runtime.msg@,
{
}

/// Whatever the cause of a failed request or message, its text is the same.
pub proof fn law_error_text_does_not_depend_on_the_cause(canceled: Canceled, send: SendError)
    ensures
        error_message(Error::CanceledAvailabilityCores(canceled))
            == "failed to get availability cores"@,
        error_message(Error::CanceledPersistedValidationData(canceled))
            == "failed to get persisted validation data"@,
        error_message(Error::CanceledBlockNumber(canceled)) == "failed to get block number"@,
        error_message(Error::CanceledBackedCandidates(canceled))
            == "failed to get backed candidates"@,
        error_message(Error::CanceledCandidateVotes(canceled)) == "failed to get votes on dispute"@,
        error_message(Error::ChainApiMessageSend(send)) == "failed to send message to ChainAPI"@,
        error_message(Error::GetBackedCandidatesSend(send))
            == "failed to send message to CandidateBacking to get backed candidates"@,
{
}

} // verus!
