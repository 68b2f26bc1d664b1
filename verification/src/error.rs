//! The ways in which handling one inbound message can fail.

use vstd::prelude::*;

verus! {

/// Why a message was not handled. A missing component is not among these:
/// an entity without a receiver or a position is simply not an observer, and
/// the frame ends without work.
#[derive(Clone, Copy, Debug, PartialEq, Eq, Structural)]
pub enum RadarError {
    /// The host asked for an operation the radar does not implement.
    BadDispatch,
    /// A delivery carried no message.
    NoMessage,
    /// The subject has none of the shapes the radar understands. The message
    /// is rejected and never retried here.
    MalformedSubject,
    /// The body could not be read as what the subject promised.
    MalformedPayload,
    /// A key-value operation failed; the message counts as unprocessed.
    StoreUnavailable,
    /// A delta could not be published. Deltas published before it stay in
    /// effect.
    PublishFailure,
}

impl RadarError {
    /// The text of the error, for logs and replies.
    pub open spec fn message_spec(self) -> Seq<char> {
        match self {
            RadarError::BadDispatch => "bad dispatch"@,
            RadarError::NoMessage => "No Message"@,
            RadarError::MalformedSubject => "Unexpected message received on subject"@,
            RadarError::MalformedPayload => "Malformed message body"@,
            RadarError::StoreUnavailable => "Key-value store unavailable"@,
            RadarError::PublishFailure => "Error publishing message"@,
        }
    }

    pub fn message(&self) -> (text: String)
        ensures
            text@ == self.message_spec(),
    {
        match self {
            RadarError::BadDispatch => "bad dispatch".to_owned(),
            RadarError::NoMessage => "No Message".to_owned(),
            RadarError::MalformedSubject => "Unexpected message received on subject".to_owned(),
            RadarError::MalformedPayload => "Malformed message body".to_owned(),
            RadarError::StoreUnavailable => "Key-value store unavailable".to_owned(),
            RadarError::PublishFailure => "Error publishing message".to_owned(),
        }
    }
}

} // verus!
