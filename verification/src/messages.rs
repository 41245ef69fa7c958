//! Wire messages of the exchange protocol.
//!
//! Every message travels wrapped with the file name it concerns, so each
//! message is self-describing and several sessions for different files can
//! share one connection. The transport (framing, serialization, sockets)
//! lives outside this crate; here the messages are plain values.

use crate::file::Segment;
use vstd::prelude::*;

verus! {

/// The closed set of message kinds, one flat tagged union.
///
/// `FetchFileInfo`, `FetchNumbers`, `FetchSegment` and `Finished` flow from
/// the requesting peer to the listener; `FileSize`, `Numbers`, `Segment` and
/// the echoed `Finished` flow back.
pub enum Request {
    /// Ask the listener for the intended size of the named file.
    FetchFileInfo,
    /// The listener's reply: the intended size of the file.
    FileSize { size: usize },
    /// Ask the listener which segment indices it holds.
    FetchNumbers,
    /// The listener's reply: its held indices, or nothing for an unknown file.
    Numbers { numbers: Option<Vec<usize>> },
    /// Ask the listener for one segment by index.
    FetchSegment { index: usize },
    /// The listener's reply: one segment of the file.
    Segment { segment: Segment },
    /// The download is complete; the listener echoes this back and the
    /// session ends.
    Finished,
}

/// A message together with the name of the file it concerns.
pub struct NamedRequest {
    pub name: String,
    pub request: Request,
}

impl NamedRequest {
    /// Wrap a message with the file name it concerns.
    pub fn new(name: String, request: Request) -> (r: NamedRequest)
        ensures
            r.name == name,
            r.request == request,
    {
        NamedRequest { name, request }
    }
}

/// Why a session must end: either the peer broke the protocol, or the local
/// state and the peer's state have desynchronized. Both are fatal for the
/// session concerned, never for the whole peer.
#[derive(Debug)]
pub enum ProtocolError {
    /// A message kind arrived that never flows in this direction.
    UnexpectedRequest,
    /// A message concerned a file this peer has not registered.
    UnknownFile,
    /// A segment was requested that the listener does not hold.
    MissingSegment,
    /// A segment would push the accumulated byte count past what this
    /// machine can represent.
    OversizedSegment,
}

} // verus!
