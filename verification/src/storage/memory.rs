//! The in-memory storage backend: a vector of managed files plus the
//! folder completed downloads are written into.

use crate::file::Segment;
use crate::file::TorrentFile;
use crate::model::FileModel;
use crate::model::chunked_file;
use crate::storage::Storage;
use crate::storage::StorageError;
use vstd::prelude::*;
use vstd::string::StringExecFns;

verus! {

/// All managed files of one peer, held in memory. Names are unique; every
/// file is chunked with the one segment size the peer was configured with.
pub struct MemoryStorage {
    pub files: Vec<TorrentFile>,
    pub folder: String,
    pub segment_size: usize,
}

impl MemoryStorage {
    /// The position, within the held vector, of the file named `name`.
    pub open spec fn file_pos(&self, name: Seq<char>) -> int {
        choose|i: int| 0 <= i < self.files@.len() && (#[trigger] self.files@[i])@.name == name
    }

    /// A storage with no files yet.
    pub fn new(folder: String, segment_size: usize) -> (r: MemoryStorage)
        requires
            segment_size >= 1,
        ensures
            r.wf(),
            r.folder() == folder@,
            r.seg_size() == segment_size as int,
            forall|n: Seq<char>| !(#[trigger] r.has_file(n)),
    {
        MemoryStorage { files: Vec::new(), folder, segment_size }
    }

    /// The position of the file named `name`, if one is registered.
    fn find_index(&self, name: &str) -> (r: Option<usize>)
        requires
            self.wf(),
        ensures
            match r {
                Some(i) => i < self.files@.len() && self.files@[i as int]@.name == name@
                    && self.has_file(name@) && i as int == self.file_pos(name@),
                None => !self.has_file(name@),
            },
    {
        let key: String = name.to_owned();
        let mut i: usize = 0;
        while i < self.files.len()
            invariant
                self.wf(),
                key@ == name@,
                i <= self.files@.len(),
                forall|j: int| 0 <= j < i ==> (#[trigger] self.files@[j])@.name != name@,
            decreases self.files@.len() - i,
        {
            if self.files[i].name == key {
                proof {
                    lemma_file_pos_unique(*self, i as int);
                }
                return Some(i);
            }
            i = i + 1;
        }
        proof {
            if self.has_file(name@) {
                let j = self.file_pos(name@);
                assert(0 <= j < self.files@.len() && self.files@[j]@.name == name@);
            }
        }
        None
    }

    /// The file named `name`, if one is registered.
    pub fn find_file(&self, name: &str) -> (r: Option<&TorrentFile>)
        requires
            self.wf(),
        ensures
            match r {
                Some(f) => self.has_file(name@) && f@ == self.file_model(name@) && f@.wf(),
                None => !self.has_file(name@),
            },
    {
        match self.find_index(name) {
            Some(i) => {
                proof {
                    assert(self.files@[i as int]@.wf());
                }
                Some(&self.files[i])
            },
            None => None,
        }
    }

    /// Chunk a local file's bytes eagerly and register the result. Fails,
    /// leaving everything unchanged, iff the name is already registered.
    pub fn register_file(&mut self, name: &str, data: Vec<u8>) -> (r: Result<(), StorageError>)
        requires
            old(self).wf(),
        ensures
            final(self).wf(),
            final(self).folder() == old(self).folder(),
            final(self).seg_size() == old(self).seg_size(),
            r is Ok <==> !old(self).has_file(name@),
            forall|n: Seq<char>|
                n != name@ ==> #[trigger] final(self).has_file(n) == old(self).has_file(n),
            forall|n: Seq<char>|
                n != name@ && old(self).has_file(n) ==> #[trigger] final(self).file_model(n)
                    == old(self).file_model(n),
            final(self).has_file(name@),
            !old(self).has_file(name@) ==> final(self).file_model(name@) == chunked_file(
                name@,
                data@,
                old(self).seg_size(),
            ),
            old(self).has_file(name@) ==> final(self).file_model(name@) == old(self).file_model(
                name@,
            ),
    {
        match self.find_index(name) {
            Some(_) => Err(StorageError::AlreadyExists),
            None => {
                let f = TorrentFile::new(data, name, self.segment_size);
                self.files.push(f);
                proof {
                    lemma_push_file(*old(self), *self, self.files@.last());
                }
                Ok(())
            },
        }
    }
}

/// In a well-formed storage the file at any position is the unique carrier
/// of its name: `file_pos` returns exactly that position.
proof fn lemma_file_pos_unique(s: MemoryStorage, k: int)
    requires
        s.wf(),
        0 <= k < s.files@.len(),
    ensures
        s.has_file(s.files@[k]@.name),
        s.file_pos(s.files@[k]@.name) == k,
{
    let n = s.files@[k]@.name;
    assert(s.has_file(n));
    let k2 = s.file_pos(n);
    assert(0 <= k2 < s.files@.len() && s.files@[k2]@.name == n);
    if k2 != k {
        if k2 < k {
            assert(s.files@[k2]@.name != s.files@[k]@.name);
        } else {
            assert(s.files@[k]@.name != s.files@[k2]@.name);
        }
    }
}

/// Appending a well-formed file under a fresh name preserves the storage
/// invariant, registers exactly that name, and leaves every other file as
/// it was.
proof fn lemma_push_file(s0: MemoryStorage, s1: MemoryStorage, f: TorrentFile)
    requires
        s0.wf(),
        f@.wf(),
        f@.segment_size == s0.segment_size as int,
        !s0.has_file(f@.name),
        s1.files@ == s0.files@.push(f),
        s1.folder == s0.folder,
        s1.segment_size == s0.segment_size,
    ensures
        s1.wf(),
        s1.has_file(f@.name),
        s1.file_model(f@.name) == f@,
        forall|n: Seq<char>| #[trigger] s1.has_file(n) == (s0.has_file(n) || n == f@.name),
        forall|n: Seq<char>|
            n != f@.name && s0.has_file(n) ==> #[trigger] s1.file_model(n) == s0.file_model(n),
{
    let oldlen = s0.files@.len() as int;
    assert forall|i: int, j: int| 0 <= i < j < s1.files@.len() implies (#[trigger] s1.files@[i])@
        .name != (#[trigger] s1.files@[j])@.name by {
        if j == oldlen {
            assert(s1.files@[i] == s0.files@[i]);
            if s0.files@[i]@.name == f@.name {
                assert(s0.has_file(f@.name));
            }
        } else {
            assert(s1.files@[i] == s0.files@[i] && s1.files@[j] == s0.files@[j]);
        }
    }
    assert forall|i: int| 0 <= i < s1.files@.len() implies (#[trigger] s1.files@[i])@.wf() && s1
        .files@[i]@.segment_size == s1.segment_size as int by {
        if i < oldlen {
            assert(s1.files@[i] == s0.files@[i]);
        } else {
            assert(s1.files@[i] == f);
        }
    }
    assert(s1.wf());
    assert(s1.files@[oldlen]@.name == f@.name);
    lemma_file_pos_unique(s1, oldlen);
    assert forall|n: Seq<char>| #[trigger] s1.has_file(n) == (s0.has_file(n) || n == f@.name) by {
        if s1.has_file(n) {
            let i = s1.file_pos(n);
            assert(0 <= i < s1.files@.len() && s1.files@[i]@.name == n);
            if i < oldlen {
                assert(s0.files@[i]@.name == n);
                assert(s0.has_file(n));
            }
        }
        if s0.has_file(n) {
            let i = s0.file_pos(n);
            assert(0 <= i < s0.files@.len() && s0.files@[i]@.name == n);
            assert(s1.files@[i]@.name == n);
            assert(s1.has_file(n));
        }
        if n == f@.name {
            assert(s1.has_file(n));
        }
    }
    assert forall|n: Seq<char>| n != f@.name && s0.has_file(n) implies #[trigger] s1.file_model(n)
        == s0.file_model(n) by {
        let i = s0.file_pos(n);
        assert(0 <= i < s0.files@.len() && s0.files@[i]@.name == n);
        assert(s1.files@[i]@.name == n);
        lemma_file_pos_unique(s1, i);
        lemma_file_pos_unique(s0, i);
    }
}

/// Replacing the file at one position by a well-formed file of the same
/// name preserves the storage invariant, changes exactly that file's model,
/// and leaves every other file as it was.
proof fn lemma_update_file(s0: MemoryStorage, s1: MemoryStorage, pos: int, f: TorrentFile)
    requires
        s0.wf(),
        0 <= pos < s0.files@.len(),
        f@.wf(),
        f@.name == s0.files@[pos]@.name,
        f@.segment_size == s0.segment_size as int,
        s1.files@ == s0.files@.update(pos, f),
        s1.folder == s0.folder,
        s1.segment_size == s0.segment_size,
    ensures
        s1.wf(),
        forall|n: Seq<char>| #[trigger] s1.has_file(n) == s0.has_file(n),
        s1.file_model(f@.name) == f@,
        forall|n: Seq<char>|
            n != f@.name && s0.has_file(n) ==> #[trigger] s1.file_model(n) == s0.file_model(n),
{
    assert(s1.files@.len() == s0.files@.len());
    assert forall|i: int| 0 <= i < s1.files@.len() implies (#[trigger] s1.files@[i])@.name == s0
        .files@[i]@.name by {
        if i != pos {
            assert(s1.files@[i] == s0.files@[i]);
        }
    }
    assert forall|i: int| 0 <= i < s1.files@.len() implies (#[trigger] s1.files@[i])@.wf() && s1
        .files@[i]@.segment_size == s1.segment_size as int by {
        if i != pos {
            assert(s1.files@[i] == s0.files@[i]);
        }
    }
    assert forall|i: int, j: int| 0 <= i < j < s1.files@.len() implies (#[trigger] s1.files@[i])@
        .name != (#[trigger] s1.files@[j])@.name by {
        assert(s0.files@[i]@.name != s0.files@[j]@.name);
    }
    assert(s1.wf());
    assert forall|n: Seq<char>| #[trigger] s1.has_file(n) == s0.has_file(n) by {
        if s1.has_file(n) {
            let i = s1.file_pos(n);
            assert(s0.files@[i]@.name == n);
            assert(s0.has_file(n));
        }
        if s0.has_file(n) {
            let i = s0.file_pos(n);
            assert(s1.files@[i]@.name == n);
            assert(s1.has_file(n));
        }
    }
    assert(s1.files@[pos]@.name == f@.name);
    lemma_file_pos_unique(s1, pos);
    assert(s1.file_model(f@.name) == f@);
    assert forall|n: Seq<char>| n != f@.name && s0.has_file(n) implies #[trigger] s1.file_model(n)
        == s0.file_model(n) by {
        let i = s0.file_pos(n);
        assert(0 <= i < s0.files@.len() && s0.files@[i]@.name == n);
        assert(i != pos);
        assert(s1.files@[i]@.name == n);
        lemma_file_pos_unique(s1, i);
        lemma_file_pos_unique(s0, i);
    }
}

impl Storage for MemoryStorage {
    open spec fn wf(&self) -> bool {
        &&& self.segment_size >= 1
        &&& forall|i: int|
            0 <= i < self.files@.len() ==> (#[trigger] self.files@[i])@.wf() && self.files@[i]@
                .segment_size == self.segment_size as int
        &&& forall|i: int, j: int|
            0 <= i < j < self.files@.len() ==> (#[trigger] self.files@[i])@.name
                != (#[trigger] self.files@[j])@.name
    }

    open spec fn has_file(&self, name: Seq<char>) -> bool {
        exists|i: int| 0 <= i < self.files@.len() && (#[trigger] self.files@[i])@.name == name
    }

    open spec fn file_model(&self, name: Seq<char>) -> FileModel {
        self.files@[self.file_pos(name)]@
    }

    open spec fn folder(&self) -> Seq<char> {
        self.folder@
    }

    open spec fn seg_size(&self) -> int {
        self.segment_size as int
    }

    fn add_segment(&mut self, name: &str, segment: Segment) -> (r: Result<(), StorageError>) {
        match self.find_index(name) {
            None => Err(StorageError::UnknownFile),
            Some(i) => {
                proof {
                    assert(self.files@[i as int]@.wf());
                }
                self.files[i].add_segment(segment);
                proof {
                    let ghost fnew = self.files@[i as int];
                    lemma_update_file(*old(self), *self, i as int, fnew);
                }
                Ok(())
            },
        }
    }

    fn is_complete(&self, name: &str) -> (r: bool) {
        match self.find_file(name) {
            Some(file) => file.is_complete(),
            None => false,
        }
    }

    fn create_empty_file(&mut self, name: &str, size: usize) -> (r: Result<(), StorageError>) {
        match self.find_index(name) {
            Some(_) => Err(StorageError::AlreadyExists),
            None => {
                let f = TorrentFile::new_empty(name, size, self.segment_size);
                self.files.push(f);
                proof {
                    lemma_push_file(*old(self), *self, self.files@.last());
                }
                Ok(())
            },
        }
    }

    fn file_data(&self, name: &str) -> (r: Vec<u8>) {
        match self.find_file(name) {
            Some(file) => file.collect_file(),
            None => unreached(),
        }
    }

    fn file_size(&self, name: &str) -> (r: Option<usize>) {
        match self.find_file(name) {
            Some(file) => Some(file.intended_size),
            None => None,
        }
    }

    fn path(&self, name: &str) -> (r: String) {
        let mut r = self.folder.clone();
        r.append("/");
        r.append(name);
        proof {
            reveal_strlit("/");
            assert(("/")@ =~= seq!['/']);
            assert(r@ =~= self.folder() + seq!['/'] + name@);
        }
        r
    }

    fn segment_numbers(&self, name: &str) -> (r: Option<Vec<usize>>) {
        match self.find_file(name) {
            Some(file) => Some(file.segment_numbers()),
            None => None,
        }
    }

    fn segment(&self, name: &str, index: usize) -> (r: Segment) {
        match self.find_file(name) {
            Some(file) => {
                match file.find_segment(index) {
                    Some(k) => file.segments[k].clone(),
                    None => unreached(),
                }
            },
            None => unreached(),
        }
    }
}

} // verus!
