use provisioner::error::{Canceled, ChainApiError, RuntimeApiError, SendError, UtilError};
use provisioner::Error;

#[test]
fn messages() {
    assert_eq!(
        Error::CanceledAvailabilityCores(Canceled).message(),
        "failed to get availability cores"
    );
    assert_eq!(
        Error::CanceledPersistedValidationData(Canceled).message(),
        "failed to get persisted validation data"
    );
    assert_eq!(Error::CanceledBlockNumber(Canceled).message(), "failed to get block number");
    assert_eq!(
        Error::CanceledBackedCandidates(Canceled).message(),
        "failed to get backed candidates"
    );
    assert_eq!(
        Error::CanceledCandidateVotes(Canceled).message(),
        "failed to get votes on dispute"
    );
    assert_eq!(
        Error::ChainApiMessageSend(SendError::Full).message(),
        "failed to send message to ChainAPI"
    );
    assert_eq!(
        Error::GetBackedCandidatesSend(SendError::Disconnected).message(),
        "failed to send message to CandidateBacking to get backed candidates"
    );
    assert_eq!(
        Error::InherentDataReturnChannel.message(),
        "failed to send return message with Inherents"
    );
    assert_eq!(
        Error::BackedCandidateOrderingProblem.message(),
        "backed candidate does not correspond to selected candidate; check logic in provisioner"
    );
}

#[test]
fn messages_of_the_source() {
    assert_eq!(Error::Util(UtilError { msg: "u".to_string() }).message(), "u");
    assert_eq!(Error::ChainApi(ChainApiError { msg: "no such block".to_string() }).message(), "no such block");
    assert_eq!(Error::Runtime(RuntimeApiError { msg: "trap".to_string() }).message(), "trap");
}
