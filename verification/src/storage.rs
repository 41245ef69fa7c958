//! The storage capability shared by all sessions of one peer.
//!
//! `Storage` abstracts the collection of managed files a peer holds, so
//! that the protocol code is independent of the backing (in-memory,
//! disk-backed, sharded). One in-memory implementation lives in `memory`.

pub mod memory;

use crate::file::Segment;
use crate::model::FileModel;
use crate::model::empty_file;
use vstd::prelude::*;

verus! {

/// Why a storage operation was refused.
#[derive(Debug)]
pub enum StorageError {
    /// A file of this name is already registered.
    AlreadyExists,
    /// No file of this name is registered.
    UnknownFile,
}

/// The set of operations the exchange protocol needs from a peer's storage.
///
/// The spec functions give every implementation one common model: which
/// names are registered, the `FileModel` behind each name, the folder that
/// completed downloads resolve into, and the agreed segment size. Each
/// operation's contract is stated against that model, so protocol code
/// verified against this trait works with any implementation.
pub trait Storage: Sized {
    /// The implementation's invariant.
    spec fn wf(&self) -> bool;

    /// Whether a file of this name is registered.
    spec fn has_file(&self, name: Seq<char>) -> bool;

    /// The model of the registered file of this name.
    spec fn file_model(&self, name: Seq<char>) -> FileModel;

    /// The folder completed downloads resolve into.
    spec fn folder(&self) -> Seq<char>;

    /// The segment size all files of this storage are chunked with.
    spec fn seg_size(&self) -> int;

    /// Idempotently insert one segment into the named file. Fails, leaving
    /// everything unchanged, iff the name is unknown.
    fn add_segment(&mut self, name: &str, segment: Segment) -> (r: Result<(), StorageError>)
        requires
            old(self).wf(),
            old(self).has_file(name@) ==> old(self).file_model(name@).actual_size
                + segment.data@.len() <= usize::MAX,
        ensures
            final(self).wf(),
            final(self).folder() == old(self).folder(),
            final(self).seg_size() == old(self).seg_size(),
            forall|n: Seq<char>| #[trigger] final(self).has_file(n) == old(self).has_file(n),
            forall|n: Seq<char>|
                n != name@ && old(self).has_file(n) ==> #[trigger] final(self).file_model(n)
                    == old(self).file_model(n),
            r is Ok <==> old(self).has_file(name@),
            old(self).has_file(name@) ==> final(self).file_model(name@) == old(self).file_model(
                name@,
            ).add_seg(segment@),
            !old(self).has_file(name@) ==> r == Result::<(), StorageError>::Err(
                StorageError::UnknownFile,
            ) && (forall|n: Seq<char>|
                old(self).has_file(n) ==> #[trigger] final(self).file_model(n) == old(
                    self,
                ).file_model(n)),
    ;

    /// Whether the named file is complete. An unregistered name is simply
    /// not complete; this never fails.
    fn is_complete(&self, name: &str) -> (r: bool)
        requires
            self.wf(),
        ensures
            r == (self.has_file(name@) && self.file_model(name@).complete()),
    ;

    /// Register an empty placeholder with the given intended size. Fails,
    /// leaving everything unchanged, iff the name is already registered.
    fn create_empty_file(&mut self, name: &str, size: usize) -> (r: Result<(), StorageError>)
        requires
            old(self).wf(),
        ensures
            final(self).wf(),
            final(self).folder() == old(self).folder(),
            final(self).seg_size() == old(self).seg_size(),
            r is Ok <==> !old(self).has_file(name@),
            forall|n: Seq<char>|
                n != name@ ==> #[trigger] final(self).has_file(n) == old(self).has_file(n),
            forall|n: Seq<char>|
                n != name@ && old(self).has_file(n) ==> #[trigger] final(self).file_model(n)
                    == old(self).file_model(n),
            final(self).has_file(name@),
            !old(self).has_file(name@) ==> final(self).file_model(name@) == empty_file(
                name@,
                size as int,
                old(self).seg_size(),
            ),
            old(self).has_file(name@) ==> final(self).file_model(name@) == old(self).file_model(
                name@,
            ),
    ;

    /// The reassembled bytes of the named file, segments concatenated in
    /// index order. Callers are meant to ask only once `is_complete` holds;
    /// on an incomplete file the missing indices contribute nothing.
    fn file_data(&self, name: &str) -> (r: Vec<u8>)
        requires
            self.wf(),
            self.has_file(name@),
        ensures
            r@ == self.file_model(name@).collect(),
    ;

    /// The intended size of the named file, or nothing for an unknown name.
    fn file_size(&self, name: &str) -> (r: Option<usize>)
        requires
            self.wf(),
        ensures
            r is Some <==> self.has_file(name@),
            r matches Some(s) ==> s as int == self.file_model(name@).intended_size,
    ;

    /// Where the finished bytes of the named file belong on this peer.
    fn path(&self, name: &str) -> (r: String)
        ensures
            r@ == self.folder() + seq!['/'] + name@,
    ;

    /// The segment indices held for the named file, in held order, or
    /// nothing for an unknown name.
    fn segment_numbers(&self, name: &str) -> (r: Option<Vec<usize>>)
        requires
            self.wf(),
        ensures
            r is Some <==> self.has_file(name@),
            r matches Some(v) ==> v@.len() == self.file_model(name@).segments.len() && forall|k: int|
                0 <= k < v@.len() ==> (#[trigger] v@[k]) as int == self.file_model(
                    name@,
                ).segments[k].index,
    ;

    /// The held segment of the named file at the given index. Asking for a
    /// name or an index that is absent is a caller contract violation.
    fn segment(&self, name: &str, index: usize) -> (r: Segment)
        requires
            self.wf(),
            self.has_file(name@),
            self.file_model(name@).has_index(index as int),
        ensures
            r@.index == index as int,
            r@.data == self.file_model(name@).data_at(index as int),
    ;
}

} // verus!
