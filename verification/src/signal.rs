//! Signaling messages exchanged with a client, and the rule by which inbound
//! transport frames are turned into messages.

use vstd::prelude::*;

verus! {

/// Copies an optional string.
pub fn clone_optional_string(value: &Option<String>) -> (res: Option<String>)
    ensures
        res == *value,
{
    match value {
        Some(s) => Some(s.clone()),
        None => None,
    }
}

/// An ICE candidate in the JSON shape that browsers exchange. The fields are
/// carried through unchanged.
#[derive(Debug, PartialEq, Eq)]
pub struct IceCandidateInit {
    pub candidate: String,
    pub sdp_mid: Option<String>,
    pub sdp_mline_index: Option<u16>,
    pub username_fragment: Option<String>,
}

impl Clone for IceCandidateInit {
    fn clone(&self) -> (res: Self)
        ensures
            res == *self,
    {
        IceCandidateInit {
            candidate: self.candidate.clone(),
            sdp_mid: clone_optional_string(&self.sdp_mid),
            sdp_mline_index: self.sdp_mline_index,
            username_fragment: clone_optional_string(&self.username_fragment),
        }
    }
}

/// One entry of a membership list: a peer and the name it chose.
#[derive(Debug, PartialEq, Eq)]
pub struct ServerMessagePeer {
    pub id: u32,
    pub name: String,
}

impl Clone for ServerMessagePeer {
    fn clone(&self) -> (res: Self)
        ensures
            res == *self,
    {
        ServerMessagePeer { id: self.id, name: self.name.clone() }
    }
}

/// A message from the server to a client.
#[derive(Debug, PartialEq, Eq)]
pub enum ServerMessage {
    Candidate(IceCandidateInit),
    Offer(String),
    Answer(String),
    Id(u32),
    Peers(Vec<ServerMessagePeer>),
    PeerJoined(ServerMessagePeer),
    PeerLeft(u32),
}

/// The mathematical content of a [`ServerMessage`]: the membership list is a
/// sequence, everything else is the value itself.
pub enum ServerMessageView {
    Candidate(IceCandidateInit),
    Offer(String),
    Answer(String),
    Id(u32),
    Peers(Seq<ServerMessagePeer>),
    PeerJoined(ServerMessagePeer),
    PeerLeft(u32),
}

impl View for ServerMessage {
    type V = ServerMessageView;

    open spec fn view(&self) -> ServerMessageView {
        match *self {
            ServerMessage::Candidate(c) => ServerMessageView::Candidate(c),
            ServerMessage::Offer(sdp) => ServerMessageView::Offer(sdp),
            ServerMessage::Answer(sdp) => ServerMessageView::Answer(sdp),
            ServerMessage::Id(id) => ServerMessageView::Id(id),
            ServerMessage::Peers(peers) => ServerMessageView::Peers(peers@),
            ServerMessage::PeerJoined(peer) => ServerMessageView::PeerJoined(peer),
            ServerMessage::PeerLeft(id) => ServerMessageView::PeerLeft(id),
        }
    }
}

/// A message from a client to the server.
#[derive(Debug, PartialEq, Eq)]
pub enum PeerMessage {
    Candidate(IceCandidateInit),
    Offer(String),
    Answer(String),
    Name(String),
    Pli(u32),
}

/// What the transport delivered when asked for the next frame.
#[derive(Debug, PartialEq, Eq)]
pub enum Frame {
    /// A text frame and its payload.
    Text(String),
    /// A binary frame.
    Binary,
    /// A ping control frame.
    Ping,
    /// A pong control frame.
    Pong,
    /// A close control frame.
    Close,
}

/// What the reader of a transport does with a frame.
#[derive(Debug, PartialEq, Eq)]
pub enum Inbound {
    /// Decode the payload as a [`PeerMessage`] and dispatch it; a payload that
    /// does not decode ends the session with an error.
    Decode(String),
    /// Drop the frame and read the next one.
    Skip,
}

/// Decides what to do with an inbound frame: text frames carry messages,
/// every other frame is dropped without a trace.
pub fn classify(frame: Frame) -> (step: Inbound)
    ensures
        step == (match frame {
            Frame::Text(text) => Inbound::Decode(text),
            _ => Inbound::Skip,
        }),
{
    match frame {
        Frame::Text(text) => Inbound::Decode(text),
        Frame::Binary => Inbound::Skip,
        Frame::Ping => Inbound::Skip,
        Frame::Pong => Inbound::Skip,
        Frame::Close => Inbound::Skip,
    }
}

} // verus!
