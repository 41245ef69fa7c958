//! Client-side download state machine.
//!
//! A download session drives one remote peer: ask for the file's size,
//! register a placeholder, ask for the peer's segment numbers, request every
//! advertised segment, feed incoming segments into storage, and announce
//! `Finished` once the file is complete. The functions here make the
//! decisions; opening connections, sending, receiving and persisting are
//! the caller's business.

use crate::messages::NamedRequest;
use crate::messages::ProtocolError;
use crate::messages::Request;
use crate::model::SegModel;
use crate::model::empty_file;
use crate::storage::Storage;
use crate::storage::StorageError;
use crate::storage::memory::MemoryStorage;
use vstd::prelude::*;

verus! {

/// What a session must do next after one inbound message was processed.
pub enum SessionStep {
    /// Send these messages to the peer and keep the session open.
    Continue(Vec<NamedRequest>),
    /// The download finished: persist `data` at `path`, send `reply`, and
    /// close the session.
    Done { data: Vec<u8>, path: String, reply: NamedRequest },
}

/// The reply to a `FileSize` message: one `FetchNumbers` request for the
/// same file.
pub open spec fn fetch_numbers_reply(v: Seq<NamedRequest>, name: Seq<char>) -> bool {
    &&& v.len() == 1
    &&& v[0].name@ == name
    &&& v[0].request is FetchNumbers
}

/// The reply to an advertised index set: one `FetchSegment` request per
/// advertised index, in order — the whole list, whether or not some
/// segments are already held.
pub open spec fn segment_requests_reply(v: Seq<NamedRequest>, name: Seq<char>, ns: Seq<usize>) -> bool {
    &&& v.len() == ns.len()
    &&& forall|k: int|
        0 <= k < v.len() ==> (#[trigger] v[k]).name@ == name && v[k].request == (
        Request::FetchSegment { index: ns[k] })
}

/// The storage transition of a `FileSize` message: an empty placeholder of
/// the announced size is registered if the name was new, and nothing else
/// changes.
pub open spec fn registers_placeholder(
    pre: MemoryStorage,
    post: MemoryStorage,
    name: Seq<char>,
    size: int,
) -> bool {
    &&& post.has_file(name)
    &&& (!pre.has_file(name) ==> post.file_model(name) == empty_file(name, size, pre.seg_size()))
    &&& (pre.has_file(name) ==> post.file_model(name) == pre.file_model(name))
    &&& forall|n: Seq<char>| n != name ==> #[trigger] post.has_file(n) == pre.has_file(n)
    &&& forall|n: Seq<char>|
        n != name && pre.has_file(n) ==> #[trigger] post.file_model(n) == pre.file_model(n)
}

/// The storage transition of a `Segment` message: the segment is inserted
/// idempotently into the named file, and nothing else changes.
pub open spec fn inserts_segment(
    pre: MemoryStorage,
    post: MemoryStorage,
    name: Seq<char>,
    seg: SegModel,
) -> bool {
    &&& forall|n: Seq<char>| #[trigger] post.has_file(n) == pre.has_file(n)
    &&& post.file_model(name) == pre.file_model(name).add_seg(seg)
    &&& forall|n: Seq<char>|
        n != name && pre.has_file(n) ==> #[trigger] post.file_model(n) == pre.file_model(n)
}

/// One peer in its requesting role: the shared storage, exposed so that the
/// listening role and the startup code can work on the same files.
pub struct PeerClient {
    pub storage: MemoryStorage,
}

impl PeerClient {
    /// A peer with no files yet, writing completed downloads into `folder`
    /// and chunking at `segment_size`.
    pub fn new(folder: String, segment_size: usize) -> (r: PeerClient)
        requires
            segment_size >= 1,
        ensures
            r.storage.wf(),
            r.storage.folder() == folder@,
            r.storage.seg_size() == segment_size as int,
            forall|n: Seq<char>| !(#[trigger] r.storage.has_file(n)),
    {
        PeerClient { storage: MemoryStorage::new(folder, segment_size) }
    }

    /// Register an empty placeholder for a file whose size was learned from
    /// a peer. Fails, changing nothing, iff the name is already registered.
    pub fn create_empty_file(&mut self, name: &str, size: usize) -> (r: Result<(), StorageError>)
        requires
            old(self).storage.wf(),
        ensures
            final(self).storage.wf(),
            final(self).storage.folder() == old(self).storage.folder(),
            final(self).storage.seg_size() == old(self).storage.seg_size(),
            r is Ok <==> !old(self).storage.has_file(name@),
            registers_placeholder(old(self).storage, final(self).storage, name@, size as int),
    {
        self.storage.create_empty_file(name, size)
    }

    /// The reassembled bytes of the named file, or nothing for an unknown
    /// name.
    pub fn file_data(&self, name: &str) -> (r: Option<Vec<u8>>)
        requires
            self.storage.wf(),
        ensures
            r is Some <==> self.storage.has_file(name@),
            r matches Some(d) ==> d@ == self.storage.file_model(name@).collect(),
    {
        match self.storage.find_file(name) {
            Some(f) => Some(f.collect_file()),
            None => None,
        }
    }

    /// Handle one listener-to-client message of a download session.
    ///
    /// `FileSize` registers the placeholder and asks for the peer's segment
    /// numbers; `Numbers` requests every advertised segment (nothing for an
    /// unknown remote file); `Segment` feeds the segment into storage and
    /// announces `Finished` exactly when the file has become complete. Any
    /// client-to-listener kind, or `Finished`, is a protocol violation
    /// here; so is a segment for an unregistered file or one that would
    /// overflow the byte counter. Errors are fatal for the session only and
    /// leave the storage unchanged.
    pub fn process_client(&mut self, name: &str, request: Request) -> (r: Result<
        Vec<NamedRequest>,
        ProtocolError,
    >)
        requires
            old(self).storage.wf(),
        ensures
            final(self).storage.wf(),
            final(self).storage.folder() == old(self).storage.folder(),
            final(self).storage.seg_size() == old(self).storage.seg_size(),
            request matches Request::FileSize { size } ==> registers_placeholder(
                old(self).storage,
                final(self).storage,
                name@,
                size as int,
            ) && (r matches Ok(v) && fetch_numbers_reply(v@, name@)),
            request matches Request::Numbers { numbers: ns } ==> final(self).storage == old(self).storage && (match ns {
                Some(ns) => r matches Ok(v) && segment_requests_reply(v@, name@, ns@),
                None => r matches Ok(v) && v@.len() == 0,
            }),
            request matches Request::Segment { segment } ==> (if !old(self).storage.has_file(
                name@,
            ) {
                &&& final(self).storage == old(self).storage
                &&& r matches Err(e) && e is UnknownFile
            } else if old(self).storage.file_model(name@).actual_size + segment.data@.len()
                > usize::MAX {
                &&& final(self).storage == old(self).storage
                &&& r matches Err(e) && e is OversizedSegment
            } else {
                &&& inserts_segment(old(self).storage, final(self).storage, name@, segment@)
                &&& r matches Ok(v) && (if final(self).storage.file_model(name@).complete() {
                    v@.len() == 1 && v@[0].name@ == name@ && v@[0].request is Finished
                } else {
                    v@.len() == 0
                })
            }),
            (request is FetchFileInfo || request is FetchNumbers || request is FetchSegment
                || request is Finished) ==> final(self).storage == old(self).storage && (
            r matches Err(e) && e is UnexpectedRequest),
    {
        match request {
            Request::FileSize { size } => {
                // A second session for the same file may have registered the
                // placeholder already; idempotent insertion makes that safe.
                let _ = self.storage.create_empty_file(name, size);
                let mut v: Vec<NamedRequest> = Vec::new();
                v.push(NamedRequest::new(name.to_owned(), Request::FetchNumbers));
                Ok(v)
            },
            Request::Numbers { numbers } => {
                match numbers {
                    None => Ok(Vec::new()),
                    Some(ns) => {
                        let mut v: Vec<NamedRequest> = Vec::new();
                        let mut k: usize = 0;
                        while k < ns.len()
                            invariant
                                k <= ns@.len(),
                                v@.len() == k,
                                forall|j: int|
                                    0 <= j < k ==> (#[trigger] v@[j]).name@ == name@ && v@[j].request
                                        == (Request::FetchSegment { index: ns@[j] }),
                            decreases ns@.len() - k,
                        {
                            v.push(
                                NamedRequest::new(
                                    name.to_owned(),
                                    Request::FetchSegment { index: ns[k] },
                                ),
                            );
                            k = k + 1;
                        }
                        Ok(v)
                    },
                }
            },
            Request::Segment { segment } => {
                let actual = match self.storage.find_file(name) {
                    Some(f) => f.actual_size,
                    None => {
                        return Err(ProtocolError::UnknownFile);
                    },
                };
                if usize::MAX - actual < segment.data.len() {
                    return Err(ProtocolError::OversizedSegment);
                }
                let added = self.storage.add_segment(name, segment);
                proof {
                    assert(added is Ok);
                }
                if self.storage.is_complete(name) {
                    let mut v: Vec<NamedRequest> = Vec::new();
                    v.push(NamedRequest::new(name.to_owned(), Request::Finished));
                    Ok(v)
                } else {
                    Ok(Vec::new())
                }
            },
            _ => Err(ProtocolError::UnexpectedRequest),
        }
    }

    /// Handle one inbound message of a download session, whatever its kind.
    ///
    /// `Finished` from the peer ends the session: the reassembled bytes and
    /// the output path are handed back for persisting, together with the
    /// `Finished` echo to send. The listener-to-client kinds are delegated
    /// to `process_client`; a client-to-listener kind never arrives here
    /// and is a protocol violation.
    pub fn process_channel(&mut self, request: NamedRequest) -> (r: Result<
        SessionStep,
        ProtocolError,
    >)
        requires
            old(self).storage.wf(),
        ensures
            final(self).storage.wf(),
            final(self).storage.folder() == old(self).storage.folder(),
            final(self).storage.seg_size() == old(self).storage.seg_size(),
            request.request is Finished ==> final(self).storage == old(self).storage && (if old(self).storage.has_file(request.name@) {
                r matches Ok(step) && step matches SessionStep::Done { data, path, reply } && data@
                    == old(self).storage.file_model(request.name@).collect() && path@ == old(self).storage.folder() + seq!['/'] + request.name@ && reply.name@ == request.name@
                    && reply.request is Finished
            } else {
                r matches Err(e) && e is UnknownFile
            }),
            request.request matches Request::FileSize { size } ==> registers_placeholder(
                old(self).storage,
                final(self).storage,
                request.name@,
                size as int,
            ) && (r matches Ok(step) && step matches SessionStep::Continue(v)
                && fetch_numbers_reply(v@, request.name@)),
            request.request matches Request::Numbers { numbers: ns } ==> final(self).storage == old(self).storage && (match ns {
                Some(ns) => r matches Ok(step) && step matches SessionStep::Continue(v)
                    && segment_requests_reply(v@, request.name@, ns@),
                None => r matches Ok(step) && step matches SessionStep::Continue(v) && v@.len()
                    == 0,
            }),
            request.request matches Request::Segment { segment } ==> (if !old(self).storage.has_file(request.name@) {
                &&& final(self).storage == old(self).storage
                &&& r matches Err(e) && e is UnknownFile
            } else if old(self).storage.file_model(request.name@).actual_size
                + segment.data@.len() > usize::MAX {
                &&& final(self).storage == old(self).storage
                &&& r matches Err(e) && e is OversizedSegment
            } else {
                &&& inserts_segment(
                    old(self).storage,
                    final(self).storage,
                    request.name@,
                    segment@,
                )
                &&& r matches Ok(step) && step matches SessionStep::Continue(v) && (if final(self).storage.file_model(request.name@).complete() {
                    v@.len() == 1 && v@[0].name@ == request.name@ && v@[0].request is Finished
                } else {
                    v@.len() == 0
                })
            }),
            (request.request is FetchFileInfo || request.request is FetchNumbers
                || request.request is FetchSegment) ==> final(self).storage == old(self).storage
                && (r matches Err(e) && e is UnexpectedRequest),
    {
        let NamedRequest { name, request } = request;
        match request {
            Request::Finished => {
                match self.storage.find_file(name.as_str()) {
                    None => Err(ProtocolError::UnknownFile),
                    Some(f) => {
                        let data = f.collect_file();
                        let path = self.storage.path(name.as_str());
                        let reply = NamedRequest::new(name, Request::Finished);
                        Ok(SessionStep::Done { data, path, reply })
                    },
                }
            },
            Request::FetchFileInfo => Err(ProtocolError::UnexpectedRequest),
            Request::FetchNumbers => Err(ProtocolError::UnexpectedRequest),
            Request::FetchSegment { index: _ } => Err(ProtocolError::UnexpectedRequest),
            other => {
                match self.process_client(name.as_str(), other) {
                    Ok(v) => Ok(SessionStep::Continue(v)),
                    Err(e) => Err(e),
                }
            },
        }
    }
}

} // verus!
