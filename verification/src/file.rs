//! Executable segments and managed files.
//!
//! `TorrentFile` owns the set of segments for one named file, tracks the
//! intended against the accumulated size, and answers completeness and
//! reassembly queries. Every operation is specified exactly against the
//! ghost model in `model`.

use crate::model::FileModel;
use crate::model::SegModel;
use crate::model::ceil_div;
use crate::model::chunk_data;
use crate::model::chunk_segments;
use crate::model::chunked_file;
use crate::model::empty_file;
use crate::model::lemma_add_seg_wf;
use crate::model::lemma_ceil_div_bounds;
use crate::model::lemma_chunk_bounds;
use crate::model::lemma_pos_of_unique;
use vstd::arithmetic::div_mod::lemma_fundamental_div_mod;
use vstd::arithmetic::div_mod::lemma_mod_division_less_than_divisor;
use vstd::arithmetic::mul::lemma_mul_inequality;
use vstd::math::min;
use vstd::prelude::*;

verus! {

/// One fixed-size slice of file data plus its position within the file.
/// Immutable once created; equality of interest is equality by index.
pub struct Segment {
    pub index: usize,
    pub data: Vec<u8>,
}

impl View for Segment {
    type V = SegModel;

    open spec fn view(&self) -> SegModel {
        SegModel { index: self.index as int, data: self.data@ }
    }
}

impl Clone for Segment {
    /// Cloning copies the index and the bytes exactly.
    fn clone(&self) -> (r: Self)
        ensures
            r@ == self@,
    {
        let r = Segment { index: self.index, data: copy_bytes(&self.data, 0, self.data.len()) };
        proof {
            assert(r.data@ =~= self.data@);
        }
        r
    }
}

/// A fresh vector holding the bytes `data[start..end]`.
fn copy_bytes(data: &Vec<u8>, start: usize, end: usize) -> (r: Vec<u8>)
    requires
        start <= end <= data.len(),
    ensures
        r@ == data@.subrange(start as int, end as int),
{
    let mut r: Vec<u8> = Vec::new();
    let mut t: usize = start;
    while t < end
        invariant
            start <= t <= end <= data.len(),
            r@ =~= data@.subrange(start as int, t as int),
        decreases end - t,
    {
        r.push(data[t]);
        proof {
            assert(r@ =~= data@.subrange(start as int, t + 1));
        }
        t = t + 1;
    }
    proof {
        assert(r@ =~= data@.subrange(start as int, end as int));
    }
    r
}

/// The record of one named file during an exchange: the segments held so
/// far, the intended size learned at registration, the accumulated byte
/// count, and the segment size the swarm has agreed on.
pub struct TorrentFile {
    pub segments: Vec<Segment>,
    pub name: String,
    pub intended_size: usize,
    pub actual_size: usize,
    pub segment_size: usize,
}

impl View for TorrentFile {
    type V = FileModel;

    open spec fn view(&self) -> FileModel {
        FileModel {
            name: self.name@,
            segments: self.segments@.map_values(|s: Segment| s@),
            intended_size: self.intended_size as int,
            actual_size: self.actual_size as int,
            segment_size: self.segment_size as int,
        }
    }
}

impl TorrentFile {
    /// Eagerly chunk `data` into a complete managed file: starting at offset
    /// zero, each segment takes the next `segment_size` bytes, the final one
    /// whatever remains.
    pub fn new(data: Vec<u8>, name: &str, segment_size: usize) -> (r: TorrentFile)
        requires
            segment_size >= 1,
        ensures
            r@ == chunked_file(name@, data@, segment_size as int),
            r@.wf(),
            r@.complete(),
    {
        let ghost len = data@.len() as int;
        let ghost sz = segment_size as int;
        let ghost model_segs = chunk_segments(data@, sz);
        proof {
            lemma_ceil_div_bounds(len, sz);
        }
        let mut segments: Vec<Segment> = Vec::new();
        let mut read: usize = 0;
        let mut index: usize = 0;
        proof {
            assert(index * sz == 0) by (nonlinear_arith)
                requires
                    index == 0,
            ;
        }
        while read < data.len()
            invariant
                segment_size >= 1,
                sz == segment_size as int,
                len == data@.len(),
                read <= data.len(),
                index <= ceil_div(len, sz),
                read as int == min(index * sz, len),
                segments@.len() == index,
                forall|j: int|
                    0 <= j < index ==> (#[trigger] segments@[j])@.index == j && segments@[j]@.data
                        == chunk_data(data@, sz, j),
            decreases data.len() - read,
        {
            proof {
                lemma_ceil_div_bounds(len, sz);
                assert(index * sz < len);
                if index >= ceil_div(len, sz) {
                    lemma_mul_inequality(ceil_div(len, sz), index as int, sz);
                    assert(ceil_div(len, sz) * sz <= index * sz);
                    assert(false);
                }
                lemma_chunk_bounds(data@, sz, index as int);
                assert((index + 1) * sz == index * sz + sz) by (nonlinear_arith);
                assert(index as int <= index * sz) by (nonlinear_arith)
                    requires
                        sz >= 1,
                        index >= 0,
                ;
            }
            let size = if data.len() - read < segment_size {
                data.len() - read
            } else {
                segment_size
            };
            let chunk = copy_bytes(&data, read, read + size);
            proof {
                assert(read + size == min((index + 1) * sz, len));
                assert(chunk@ == chunk_data(data@, sz, index as int));
            }
            let segment = Segment { index, data: chunk };
            segments.push(segment);
            read = read + size;
            index = index + 1;
        }
        proof {
            assert(index == ceil_div(len, sz)) by {
                if index < ceil_div(len, sz) {
                    lemma_chunk_bounds(data@, sz, index as int);
                }
            }
            assert forall|j: int| 0 <= j < index implies segments@.map_values(|s: Segment| s@)[j]
                == model_segs[j] by {
                assert(model_segs[j] == SegModel { index: j, data: chunk_data(data@, sz, j) });
                assert(segments@[j]@.index == j && segments@[j]@.data == chunk_data(data@, sz, j));
            }
            assert(segments@.map_values(|s: Segment| s@) =~= model_segs);
        }
        let intended = data.len();
        let r = TorrentFile {
            segments,
            name: name.to_owned(),
            intended_size: intended,
            actual_size: intended,
            segment_size,
        };
        proof {
            assert(r@ =~= chunked_file(name@, data@, sz));
            crate::laws::lemma_chunk_roundtrip(name@, data@, sz);
        }
        r
    }

    /// An empty placeholder for a file whose size was learned from a peer.
    /// It is complete immediately iff that size is zero.
    pub fn new_empty(name: &str, size: usize, segment_size: usize) -> (r: TorrentFile)
        requires
            segment_size >= 1,
        ensures
            r@ == empty_file(name@, size as int, segment_size as int),
            r@.wf(),
            r@.complete() <==> size == 0,
    {
        let r = TorrentFile {
            segments: Vec::new(),
            name: name.to_owned(),
            intended_size: size,
            actual_size: 0,
            segment_size,
        };
        proof {
            assert(r@.segments =~= Seq::<SegModel>::empty());
            assert(r@ =~= empty_file(name@, size as int, segment_size as int));
            crate::laws::lemma_empty_file_complete(name@, size as int, segment_size as int);
        }
        r
    }

    /// The position of the held segment carrying `index`, if any.
    pub fn find_segment(&self, index: usize) -> (r: Option<usize>)
        requires
            self@.wf(),
        ensures
            match r {
                Some(k) => k < self.segments@.len() && self@.segments[k as int].index
                    == index as int && self@.has_index(index as int) && k as int == self@.pos_of(
                    index as int,
                ),
                None => !self@.has_index(index as int),
            },
    {
        let mut k: usize = 0;
        while k < self.segments.len()
            invariant
                self@.wf(),
                k <= self.segments@.len(),
                forall|j: int| 0 <= j < k ==> (#[trigger] self@.segments[j].index) != index as int,
            decreases self.segments@.len() - k,
        {
            if self.segments[k].index == index {
                proof {
                    lemma_pos_of_unique(self@, k as int);
                }
                return Some(k);
            }
            k = k + 1;
        }
        proof {
            if self@.has_index(index as int) {
                let j = self@.pos_of(index as int);
                assert(0 <= j < self@.segments.len() && self@.segments[j].index == index as int);
            }
        }
        None
    }

    /// Idempotent insertion: a segment whose index is already held is
    /// ignored (first writer wins); otherwise the segment is appended and
    /// the accumulated byte count grows by its length.
    pub fn add_segment(&mut self, to_add: Segment)
        requires
            old(self)@.wf(),
            old(self).actual_size + to_add.data@.len() <= usize::MAX,
        ensures
            final(self)@ == old(self)@.add_seg(to_add@),
            final(self)@.wf(),
    {
        proof {
            lemma_add_seg_wf(old(self)@, to_add@);
        }
        match self.find_segment(to_add.index) {
            Some(_) => {
                proof {
                    assert(old(self)@.add_seg(to_add@) == old(self)@);
                }
            },
            None => {
                self.actual_size = self.actual_size + to_add.data.len();
                self.segments.push(to_add);
                proof {
                    assert(self@.segments =~= old(self)@.segments.push(to_add@));
                    assert(self@ =~= old(self)@.add_seg(to_add@));
                }
            },
        }
    }

    /// Whether the file is complete: the accumulated byte count equals the
    /// intended size and the held indices are exactly the contiguous range
    /// `[0, expected_segment_count)`.
    pub fn is_complete(&self) -> (r: bool)
        requires
            self@.wf(),
        ensures
            r == self@.complete(),
    {
        if self.actual_size != self.intended_size {
            return false;
        }
        let q = self.intended_size / self.segment_size;
        let rem = self.intended_size % self.segment_size;
        proof {
            lemma_fundamental_div_mod(self.intended_size as int, self.segment_size as int);
            lemma_mod_division_less_than_divisor(
                self.intended_size as int,
                self.segment_size as int,
            );
            assert(q <= self.intended_size && (rem != 0 ==> q < self.intended_size))
                by (nonlinear_arith)
                requires
                    self.intended_size as int == self.segment_size as int * (q as int) + (
                    rem as int),
                    0 <= rem < self.segment_size,
                    self.segment_size >= 1,
                    q == self.intended_size as int / self.segment_size as int,
                    q >= 0,
            ;
        }
        let expected = if rem == 0 {
            q
        } else {
            q + 1
        };
        proof {
            assert(expected as int == self@.expected_count());
        }
        if self.segments.len() != expected {
            return false;
        }
        let mut j: usize = 0;
        while j < expected
            invariant
                self@.wf(),
                j <= expected,
                expected as int == self@.expected_count(),
                self.segments@.len() == expected,
                self.actual_size == self.intended_size,
                forall|i: int| 0 <= i < j ==> self@.has_index(i),
            decreases expected - j,
        {
            match self.find_segment(j) {
                Some(_) => {},
                None => {
                    return false;
                },
            }
            j = j + 1;
        }
        true
    }

    /// The reassembled bytes: held segments concatenated in index order.
    /// After `is_complete` returns true this is the whole file, byte for
    /// byte; on an incomplete file the missing indices contribute nothing.
    pub fn collect_file(&self) -> (r: Vec<u8>)
        requires
            self@.wf(),
        ensures
            r@ == self@.collect(),
    {
        let mut out: Vec<u8> = Vec::new();
        let n = self.segments.len();
        let mut j: usize = 0;
        while j < n
            invariant
                self@.wf(),
                j <= n,
                n == self.segments@.len(),
                out@ == self@.collect_upto(j as int),
            decreases n - j,
        {
            match self.find_segment(j) {
                Some(k) => {
                    let seg_len = self.segments[k].data.len();
                    let mut t: usize = 0;
                    while t < seg_len
                        invariant
                            self@.wf(),
                            k < self.segments@.len(),
                            seg_len == self.segments@[k as int].data@.len(),
                            t <= seg_len,
                            out@ == self@.collect_upto(j as int) + self.segments@[k as int].data@
                                .subrange(0, t as int),
                        decreases seg_len - t,
                    {
                        out.push(self.segments[k].data[t]);
                        proof {
                            assert(out@ =~= self@.collect_upto(j as int) + self.segments@[
                            k as int].data@.subrange(0, t + 1));
                        }
                        t = t + 1;
                    }
                    proof {
                        assert(self.segments@[k as int].data@.subrange(0, seg_len as int)
                            =~= self@.data_at(j as int));
                        assert(out@ == self@.collect_upto(j as int) + self@.data_at(j as int));
                        assert(self@.collect_upto(j + 1) == self@.collect_upto(j as int)
                            + self@.data_at(j as int));
                    }
                },
                None => {
                    proof {
                        assert(self@.collect_upto(j + 1) =~= self@.collect_upto(j as int));
                    }
                },
            }
            j = j + 1;
        }
        out
    }

    /// The indices of the held segments, in held order.
    pub fn segment_numbers(&self) -> (r: Vec<usize>)
        ensures
            r@.len() == self@.segments.len(),
            forall|k: int| 0 <= k < r@.len() ==> (#[trigger] r@[k]) as int == self@.segments[k].index,
    {
        let mut r: Vec<usize> = Vec::new();
        let mut k: usize = 0;
        while k < self.segments.len()
            invariant
                k <= self.segments@.len(),
                r@.len() == k,
                forall|j: int| 0 <= j < k ==> (#[trigger] r@[j]) as int == self@.segments[j].index,
            decreases self.segments@.len() - k,
        {
            r.push(self.segments[k].index);
            k = k + 1;
        }
        r
    }
}

} // verus!
