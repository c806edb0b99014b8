//! The ways in which the coordination engine refuses a request.

use vstd::prelude::*;
use vstd::string::*;

use crate::track::MediaKind;

verus! {

/// Why an operation of the engine was refused. A refused operation changes
/// nothing and asks for no work.
#[derive(Clone, Copy, Debug, PartialEq, Eq, Structural)]
pub enum Error {
    /// Every identifier of the 32-bit range has been handed out; a new one
    /// would repeat an old one.
    IdsExhausted,
    /// The peer is not, or no longer, a member of its room.
    PeerNotFound,
    /// The peer has already published a track of this kind.
    TrackAlreadySet(MediaKind),
}

/// The text that describes an error.
pub open spec fn error_text(error: Error) -> Seq<char> {
    match error {
        Error::IdsExhausted => "identifiers exhausted"@,
        Error::PeerNotFound => "peer not found"@,
        Error::TrackAlreadySet(MediaKind::Audio) => "audio track already set"@,
        Error::TrackAlreadySet(MediaKind::Video) => "video track already set"@,
    }
}

impl Error {
    /// Describes the error in words.
    pub fn message(&self) -> (text: String)
        ensures
            text@ == error_text(*self),
    {
        match self {
            Error::IdsExhausted => String::from_str("identifiers exhausted"),
            Error::PeerNotFound => String::from_str("peer not found"),
            Error::TrackAlreadySet(MediaKind::Audio) => String::from_str("audio track already set"),
            Error::TrackAlreadySet(MediaKind::Video) => String::from_str("video track already set"),
        }
    }
}

pub type Result<T> = std::result::Result<T, Error>;

} // verus!
