//! Listener-side exchange protocol.
//!
//! The listener answers one remote peer's requests by consulting the shared
//! storage; it is stateless across messages — all state lives in storage.
//! The functions here decide which reply, if any, each inbound message
//! earns and when the session closes; receiving and sending are the
//! caller's business.

use crate::messages::NamedRequest;
use crate::messages::ProtocolError;
use crate::messages::Request;
use crate::storage::Storage;
use crate::storage::memory::MemoryStorage;
use vstd::prelude::*;

verus! {

/// The reply a `FetchFileInfo` request earns: the file's intended size, or
/// no reply at all for an unknown name (the requester is left to stall).
pub open spec fn file_info_reply(s: MemoryStorage, name: Seq<char>, reply: Option<
    NamedRequest,
>) -> bool {
    if s.has_file(name) {
        &&& reply matches Some(m)
        &&& m.name@ == name
        &&& m.request matches Request::FileSize { size }
        &&& size as int == s.file_model(name).intended_size
    } else {
        reply is None
    }
}

/// The reply a `FetchNumbers` request earns: the held indices in held
/// order, or an explicit empty answer for an unknown name.
pub open spec fn numbers_reply(s: MemoryStorage, name: Seq<char>, reply: Option<
    NamedRequest,
>) -> bool {
    &&& reply matches Some(m)
    &&& m.name@ == name
    &&& m.request matches Request::Numbers { numbers }
    &&& if s.has_file(name) {
        &&& numbers matches Some(v)
        &&& v@.len() == s.file_model(name).segments.len()
        &&& forall|k: int|
            0 <= k < v@.len() ==> (#[trigger] v@[k]) as int == s.file_model(name).segments[k].index
    } else {
        numbers is None
    }
}

/// The reply a `FetchSegment` request earns when the segment is held: that
/// very segment.
pub open spec fn segment_reply(s: MemoryStorage, name: Seq<char>, index: int, reply: Option<
    NamedRequest,
>) -> bool {
    &&& reply matches Some(m)
    &&& m.name@ == name
    &&& m.request matches Request::Segment { segment }
    &&& segment@.index == index
    &&& segment@.data == s.file_model(name).data_at(index)
}

/// Answer one client-to-listener request against the shared storage.
///
/// `FetchFileInfo` for an unknown name sends nothing; `FetchNumbers`
/// answers even for an unknown name (with an explicit "unknown");
/// `FetchSegment` for a segment the listener does not hold is a contract
/// violation, fatal for this session. A listener-to-client kind, or
/// `Finished` (which `process_stream` handles), is a protocol violation.
pub fn process_listener(storage: &MemoryStorage, name: &str, request: Request) -> (r: Result<
    Option<NamedRequest>,
    ProtocolError,
>)
    requires
        storage.wf(),
    ensures
        request is FetchFileInfo ==> (r matches Ok(o) && file_info_reply(*storage, name@, o)),
        request is FetchNumbers ==> (r matches Ok(o) && numbers_reply(*storage, name@, o)),
        request matches Request::FetchSegment { index } ==> (if storage.has_file(name@)
            && storage.file_model(name@).has_index(index as int) {
            r matches Ok(o) && segment_reply(*storage, name@, index as int, o)
        } else {
            r matches Err(e) && e is MissingSegment
        }),
        (request is FileSize || request is Numbers || request is Segment || request is Finished)
            ==> (r matches Err(e) && e is UnexpectedRequest),
{
    match request {
        Request::FetchFileInfo => {
            match storage.file_size(name) {
                Some(size) => Ok(
                    Some(NamedRequest::new(name.to_owned(), Request::FileSize { size })),
                ),
                None => Ok(None),
            }
        },
        Request::FetchNumbers => {
            let numbers = storage.segment_numbers(name);
            Ok(Some(NamedRequest::new(name.to_owned(), Request::Numbers { numbers })))
        },
        Request::FetchSegment { index } => {
            let held = match storage.find_file(name) {
                Some(f) => f.find_segment(index).is_some(),
                None => false,
            };
            if held {
                let segment = storage.segment(name, index);
                Ok(Some(NamedRequest::new(name.to_owned(), Request::Segment { segment })))
            } else {
                Err(ProtocolError::MissingSegment)
            }
        },
        _ => Err(ProtocolError::UnexpectedRequest),
    }
}

/// Handle one inbound message of a listening session, whatever its kind:
/// the reply to send, if any, and whether the session closes.
///
/// `Finished` is echoed back and closes the session; the fetch kinds are
/// delegated to `process_listener`; a listener-to-client kind never
/// arrives here and is a protocol violation.
pub fn process_stream(storage: &MemoryStorage, request: NamedRequest) -> (r: Result<
    (Option<NamedRequest>, bool),
    ProtocolError,
>)
    requires
        storage.wf(),
    ensures
        request.request is Finished ==> (r matches Ok((reply, close)) && close && (
        reply matches Some(e) && e.name@ == request.name@ && e.request is Finished)),
        request.request is FetchFileInfo ==> (r matches Ok((reply, close)) && !close
            && file_info_reply(*storage, request.name@, reply)),
        request.request is FetchNumbers ==> (r matches Ok((reply, close)) && !close
            && numbers_reply(*storage, request.name@, reply)),
        request.request matches Request::FetchSegment { index } ==> (if storage.has_file(
            request.name@,
        ) && storage.file_model(request.name@).has_index(index as int) {
            r matches Ok((reply, close)) && !close && segment_reply(
                *storage,
                request.name@,
                index as int,
                reply,
            )
        } else {
            r matches Err(e) && e is MissingSegment
        }),
        (request.request is FileSize || request.request is Numbers
            || request.request is Segment) ==> (r matches Err(e) && e is UnexpectedRequest),
{
    let NamedRequest { name, request } = request;
    match request {
        Request::Finished => Ok((Some(NamedRequest::new(name, Request::Finished)), true)),
        Request::FileSize { size: _ } => Err(ProtocolError::UnexpectedRequest),
        Request::Numbers { numbers: _ } => Err(ProtocolError::UnexpectedRequest),
        Request::Segment { segment: _ } => Err(ProtocolError::UnexpectedRequest),
        other => {
            match process_listener(storage, name.as_str(), other) {
                Ok(reply) => Ok((reply, false)),
                Err(e) => Err(e),
            }
        },
    }
}

} // verus!
