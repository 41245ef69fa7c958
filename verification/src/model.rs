//! Mathematical model of segments and managed files.
//!
//! `SegModel` and `FileModel` are the ghost counterparts of the executable
//! `Segment` and `TorrentFile` types. Every executable operation on a
//! `TorrentFile` is specified as a pure function on `FileModel`, so that the
//! protocol-level lemmas can be stated and proved once, over the model.

use vstd::arithmetic::div_mod::lemma_fundamental_div_mod;
use vstd::arithmetic::div_mod::lemma_mod_division_less_than_divisor;
use vstd::arithmetic::mul::lemma_mul_inequality;
use vstd::math::min;
use vstd::prelude::*;

verus! {

/// One fixed-size slice of a file's bytes, addressed by an integer index.
#[verifier::ext_equal]
pub ghost struct SegModel {
    pub index: int,
    pub data: Seq<u8>,
}

/// The record of one named file: the segments held so far, the size the
/// complete file is supposed to have, the number of bytes accumulated, and
/// the segment size the swarm has agreed on.
#[verifier::ext_equal]
pub ghost struct FileModel {
    pub name: Seq<char>,
    pub segments: Seq<SegModel>,
    pub intended_size: int,
    pub actual_size: int,
    pub segment_size: int,
}

/// Ceiling division for non-negative `a` and positive `b`.
pub open spec fn ceil_div(a: int, b: int) -> int {
    if a % b == 0 {
        a / b
    } else {
        a / b + 1
    }
}

/// Sum of the byte lengths of a sequence of segments.
pub open spec fn sum_len(segs: Seq<SegModel>) -> int
    decreases segs.len(),
{
    if segs.len() == 0 {
        0
    } else {
        sum_len(segs.drop_last()) + segs.last().data.len()
    }
}

impl FileModel {
    /// Well-formedness: a positive segment size, no duplicate segment
    /// indices, non-negative indices and intended size, and an accumulated
    /// byte count that is exactly the sum of the held segments' lengths.
    pub open spec fn wf(self) -> bool {
        &&& self.segment_size >= 1
        &&& self.intended_size >= 0
        &&& self.actual_size == sum_len(self.segments)
        &&& forall|k: int| 0 <= k < self.segments.len() ==> (#[trigger] self.segments[k].index) >= 0
        &&& forall|k1: int, k2: int|
            0 <= k1 < k2 < self.segments.len() ==> #[trigger] self.segments[k1].index
                != #[trigger] self.segments[k2].index
    }

    /// How many segments a complete file of this intended size has.
    pub open spec fn expected_count(self) -> int {
        ceil_div(self.intended_size, self.segment_size)
    }

    /// Whether some held segment carries the index `i`.
    pub open spec fn has_index(self, i: int) -> bool {
        exists|k: int| 0 <= k < self.segments.len() && (#[trigger] self.segments[k].index) == i
    }

    /// The position, within the held sequence, of the segment with index `i`.
    pub open spec fn pos_of(self, i: int) -> int {
        choose|k: int| 0 <= k < self.segments.len() && (#[trigger] self.segments[k].index) == i
    }

    /// The bytes of the held segment with index `i`.
    pub open spec fn data_at(self, i: int) -> Seq<u8> {
        self.segments[self.pos_of(i)].data
    }

    /// A file is complete iff the accumulated byte count equals the intended
    /// size and the indices held are exactly the contiguous range
    /// `[0, expected_count)`.
    pub open spec fn complete(self) -> bool {
        &&& self.actual_size == self.intended_size
        &&& self.segments.len() == self.expected_count()
        &&& forall|i: int| 0 <= i < self.expected_count() ==> self.has_index(i)
    }

    /// Idempotent insertion: a segment whose index is already held leaves
    /// the file unchanged; otherwise it is appended and the byte count grows.
    pub open spec fn add_seg(self, s: SegModel) -> FileModel {
        if self.has_index(s.index) {
            self
        } else {
            FileModel {
                segments: self.segments.push(s),
                actual_size: self.actual_size + s.data.len(),
                ..self
            }
        }
    }

    /// Insertion of a whole sequence of segments, in order.
    pub open spec fn add_all(self, segs: Seq<SegModel>) -> FileModel
        decreases segs.len(),
    {
        if segs.len() == 0 {
            self
        } else {
            self.add_all(segs.drop_last()).add_seg(segs.last())
        }
    }

    /// The reassembled bytes of positions `0 .. n`: segments concatenated in
    /// index order, a missing index contributing nothing.
    pub open spec fn collect_upto(self, n: int) -> Seq<u8>
        decreases n,
    {
        if n <= 0 {
            Seq::empty()
        } else {
            self.collect_upto(n - 1) + if self.has_index(n - 1) {
                self.data_at(n - 1)
            } else {
                Seq::empty()
            }
        }
    }

    /// The reassembled bytes of the whole file. On a complete file this is
    /// the original byte sequence; on an incomplete one it is whatever the
    /// held prefix of indices yields.
    pub open spec fn collect(self) -> Seq<u8> {
        self.collect_upto(self.segments.len() as int)
    }
}

/// In a well-formed file, the segment carrying index `i` sits at a unique
/// position: `pos_of` returns exactly that position.
pub proof fn lemma_pos_of_unique(f: FileModel, k: int)
    requires
        f.wf(),
        0 <= k < f.segments.len(),
    ensures
        f.has_index(f.segments[k].index),
        f.pos_of(f.segments[k].index) == k,
{
    let i = f.segments[k].index;
    assert(f.has_index(i));
    let k2 = f.pos_of(i);
    assert(0 <= k2 < f.segments.len() && f.segments[k2].index == i);
    if k2 != k {
        if k2 < k {
            assert(f.segments[k2].index != f.segments[k].index);
        } else {
            assert(f.segments[k].index != f.segments[k2].index);
        }
    }
}

/// Appending one segment adds its length to the sum.
pub proof fn lemma_sum_len_push(segs: Seq<SegModel>, s: SegModel)
    ensures
        sum_len(segs.push(s)) == sum_len(segs) + s.data.len(),
{
    assert(segs.push(s).drop_last() =~= segs);
    assert(segs.push(s).last() == s);
}

/// Inserting a segment with a non-negative index preserves well-formedness.
pub proof fn lemma_add_seg_wf(f: FileModel, s: SegModel)
    requires
        f.wf(),
        s.index >= 0,
    ensures
        f.add_seg(s).wf(),
{
    if !f.has_index(s.index) {
        lemma_sum_len_push(f.segments, s);
        let r = f.add_seg(s);
        assert forall|k1: int, k2: int| 0 <= k1 < k2 < r.segments.len() implies #[trigger] r
            .segments[k1].index != #[trigger] r.segments[k2].index by {
            if k2 == r.segments.len() - 1 {
                assert(r.segments[k2] == s);
                assert(f.segments[k1].index != s.index) by {
                    if f.segments[k1].index == s.index {
                        assert(f.has_index(s.index));
                    }
                }
            }
        }
    }
}

/// A freshly registered file with no segments yet.
pub open spec fn empty_file(name: Seq<char>, size: int, segment_size: int) -> FileModel {
    FileModel {
        name: name,
        segments: Seq::empty(),
        intended_size: size,
        actual_size: 0,
        segment_size: segment_size,
    }
}

/// The bytes of chunk `j` of `data`: the `j`-th slice of `sz` bytes, the
/// final chunk being whatever remains.
pub open spec fn chunk_data(data: Seq<u8>, sz: int, j: int) -> Seq<u8> {
    data.subrange(j * sz, min((j + 1) * sz, data.len() as int))
}

/// The segments that chunking `data` at size `sz` produces, in index order.
pub open spec fn chunk_segments(data: Seq<u8>, sz: int) -> Seq<SegModel> {
    Seq::new(ceil_div(data.len() as int, sz) as nat, |j: int| SegModel {
        index: j,
        data: chunk_data(data, sz, j),
    })
}

/// The managed file that eager chunking of a local file produces.
pub open spec fn chunked_file(name: Seq<char>, data: Seq<u8>, sz: int) -> FileModel {
    FileModel {
        name: name,
        segments: chunk_segments(data, sz),
        intended_size: data.len() as int,
        actual_size: data.len() as int,
        segment_size: sz,
    }
}

/// The sum of segment lengths can also be peeled off at the front.
pub proof fn lemma_sum_len_drop_first(segs: Seq<SegModel>)
    requires
        segs.len() > 0,
    ensures
        sum_len(segs) == segs[0].data.len() + sum_len(segs.drop_first()),
    decreases segs.len(),
{
    if segs.len() == 1 {
        assert(segs.drop_last() =~= Seq::empty());
        assert(segs.drop_first() =~= Seq::empty());
    } else {
        let dl = segs.drop_last();
        lemma_sum_len_drop_first(dl);
        assert(segs.drop_first().drop_last() =~= dl.drop_first());
        assert(segs.drop_first().last() == segs.last());
        assert(sum_len(segs.drop_first()) == sum_len(dl.drop_first()) + segs.last().data.len());
    }
}

/// Reversing a sequence of segments does not change the sum of lengths.
pub proof fn lemma_sum_len_reverse(segs: Seq<SegModel>)
    ensures
        sum_len(segs.reverse()) == sum_len(segs),
    decreases segs.len(),
{
    if segs.len() > 0 {
        let rev = segs.reverse();
        assert(rev[0] == segs.last());
        assert(rev.drop_first() =~= segs.drop_last().reverse());
        lemma_sum_len_drop_first(rev);
        lemma_sum_len_reverse(segs.drop_last());
    }
}

/// Two files that hold the same indices with the same bytes reassemble the
/// same prefix.
pub proof fn lemma_collect_upto_agree(a: FileModel, b: FileModel, n: int)
    requires
        forall|i: int| #[trigger] a.has_index(i) <==> #[trigger] b.has_index(i),
        forall|i: int| a.has_index(i) ==> #[trigger] a.data_at(i) == b.data_at(i),
    ensures
        a.collect_upto(n) == b.collect_upto(n),
    decreases n,
{
    if n > 0 {
        lemma_collect_upto_agree(a, b, n - 1);
    }
}

/// What inserting a whole sequence of fresh segments with distinct indices
/// does to a file: every aspect of the result depends only on the *set* of
/// segments inserted, not on their order.
pub proof fn lemma_add_all_props(f: FileModel, segs: Seq<SegModel>)
    requires
        f.wf(),
        forall|k: int| 0 <= k < segs.len() ==> (#[trigger] segs[k].index) >= 0,
        forall|k1: int, k2: int|
            0 <= k1 < k2 < segs.len() ==> #[trigger] segs[k1].index != #[trigger] segs[k2].index,
        forall|k: int| 0 <= k < segs.len() ==> !f.has_index(#[trigger] segs[k].index),
    ensures
        f.add_all(segs).wf(),
        f.add_all(segs).name == f.name,
        f.add_all(segs).intended_size == f.intended_size,
        f.add_all(segs).segment_size == f.segment_size,
        f.add_all(segs).segments.len() == f.segments.len() + segs.len(),
        f.add_all(segs).actual_size == f.actual_size + sum_len(segs),
        forall|i: int|
            #[trigger] f.add_all(segs).has_index(i) <==> (f.has_index(i) || exists|k: int|
                0 <= k < segs.len() && (#[trigger] segs[k].index) == i),
        forall|i: int|
            f.has_index(i) ==> #[trigger] f.add_all(segs).data_at(i) == f.data_at(i),
        forall|k: int|
            0 <= k < segs.len() ==> f.add_all(segs).data_at(#[trigger] segs[k].index)
                == segs[k].data,
    decreases segs.len(),
{
    if segs.len() == 0 {
        assert(f.add_all(segs) == f);
    } else {
        let dl = segs.drop_last();
        let s = segs.last();
        let r0 = f.add_all(dl);
        lemma_add_all_props(f, dl);
        assert(!r0.has_index(s.index)) by {
            if f.has_index(s.index) {
                assert(!f.has_index(segs[segs.len() - 1].index));
            }
            if exists|k: int| 0 <= k < dl.len() && (#[trigger] dl[k].index) == s.index {
                let k = choose|k: int| 0 <= k < dl.len() && (#[trigger] dl[k].index) == s.index;
                assert(segs[k].index != segs[segs.len() - 1].index);
            }
        }
        let r = r0.add_seg(s);
        assert(r.segments == r0.segments.push(s));
        lemma_add_seg_wf(r0, s);
        lemma_sum_len_push(r0.segments, s);
        assert(sum_len(segs) == sum_len(dl) + s.data.len());

        // Which indices the result holds.
        assert forall|i: int| #[trigger] r.has_index(i) implies (r0.has_index(i) || i
            == s.index) by {
            let k = r.pos_of(i);
            assert(0 <= k < r.segments.len() && r.segments[k].index == i);
            if k < r0.segments.len() {
                assert(r0.segments[k].index == i);
                assert(r0.has_index(i));
            }
        }
        assert forall|i: int| r0.has_index(i) || i == s.index implies #[trigger] r.has_index(
            i,
        ) by {
            if r0.has_index(i) {
                let k = r0.pos_of(i);
                assert(r.segments[k].index == i);
            } else {
                assert(r.segments[r.segments.len() - 1].index == i);
            }
        }

        // Bytes held at old indices are untouched; the new index holds `s`.
        assert forall|i: int| r0.has_index(i) implies #[trigger] r.data_at(i) == r0.data_at(
            i,
        ) by {
            let k = r0.pos_of(i);
            assert(0 <= k < r0.segments.len() && r0.segments[k].index == i);
            assert(r.segments[k].index == i);
            lemma_pos_of_unique(r, k);
            lemma_pos_of_unique(r0, k);
        }
        assert(r.data_at(s.index) == s.data) by {
            lemma_pos_of_unique(r, r.segments.len() - 1);
        }

        // Stitch the inductive facts about `dl` together with the new segment.
        assert forall|i: int| #[trigger] f.add_all(segs).has_index(i) implies (f.has_index(i)
            || exists|k: int| 0 <= k < segs.len() && (#[trigger] segs[k].index) == i) by {
            if !f.has_index(i) {
                if i == s.index {
                    assert(segs[segs.len() - 1].index == i);
                } else {
                    assert(r0.has_index(i));
                    let k = choose|k: int|
                        0 <= k < dl.len() && (#[trigger] dl[k].index) == i;
                    assert(segs[k].index == i);
                }
            }
        }
        assert forall|i: int|
            f.has_index(i) || exists|k: int|
                0 <= k < segs.len() && (#[trigger] segs[k].index) == i implies #[trigger] f
            .add_all(segs).has_index(i) by {
            if !f.has_index(i) {
                let k = choose|k: int| 0 <= k < segs.len() && (#[trigger] segs[k].index) == i;
                if k < segs.len() - 1 {
                    assert(dl[k].index == i);
                    assert(r0.has_index(i));
                } else {
                    assert(i == s.index);
                }
            }
        }
        assert forall|k: int| 0 <= k < segs.len() implies f.add_all(segs).data_at(
            #[trigger] segs[k].index,
        ) == segs[k].data by {
            if k < segs.len() - 1 {
                assert(dl[k].index == segs[k].index && dl[k].data == segs[k].data);
                assert(r0.data_at(dl[k].index) == dl[k].data);
                assert(r0.has_index(dl[k].index)) by {
                    let kk = choose|kk: int|
                        0 <= kk < dl.len() && (#[trigger] dl[kk].index) == dl[k].index;
                    assert(r0.has_index(dl[k].index) <==> (f.has_index(dl[k].index)
                        || exists|kk: int|
                        0 <= kk < dl.len() && (#[trigger] dl[kk].index) == dl[k].index));
                    assert(dl[k].index == dl[k].index);
                }
            }
        }
    }
}

/// Bounds of ceiling division: `ceil_div(a, b)` is the least integer whose
/// product with `b` reaches `a`.
pub proof fn lemma_ceil_div_bounds(a: int, b: int)
    requires
        a >= 0,
        b >= 1,
    ensures
        ceil_div(a, b) >= 0,
        ceil_div(a, b) * b >= a,
        (ceil_div(a, b) - 1) * b < a,
        a == 0 ==> ceil_div(a, b) == 0,
{
    let q = a / b;
    let r = a % b;
    lemma_fundamental_div_mod(a, b);
    lemma_mod_division_less_than_divisor(a, b);
    assert(a == b * q + r);
    assert(0 <= r < b);
    assert(q >= 0) by (nonlinear_arith)
        requires
            a == b * q + r,
            a >= 0,
            b >= 1,
            r < b,
    ;
    if r == 0 {
        assert(ceil_div(a, b) == q);
        assert(q * b == a && (q - 1) * b == a - b) by (nonlinear_arith)
            requires
                a == b * q,
        ;
    } else {
        assert(ceil_div(a, b) == q + 1);
        assert((q + 1) * b == a - r + b && q * b == a - r) by (nonlinear_arith)
            requires
                a == b * q + r,
        ;
    }
}

/// Each chunk index below the chunk count addresses a valid, non-empty slice
/// of the data.
pub proof fn lemma_chunk_bounds(data: Seq<u8>, sz: int, j: int)
    requires
        sz >= 1,
        0 <= j < ceil_div(data.len() as int, sz),
    ensures
        0 <= j * sz < data.len(),
        j * sz < min((j + 1) * sz, data.len() as int) <= data.len(),
        chunk_data(data, sz, j).len() == min((j + 1) * sz, data.len() as int) - j * sz,
{
    let len = data.len() as int;
    let count = ceil_div(len, sz);
    lemma_ceil_div_bounds(len, sz);
    assert(j * sz >= 0) by (nonlinear_arith)
        requires
            j >= 0,
            sz >= 1,
    ;
    lemma_mul_inequality(j, count - 1, sz);
    assert(j * sz <= (count - 1) * sz);
    assert(j * sz < len);
    assert(j * sz < (j + 1) * sz) by (nonlinear_arith)
        requires
            sz >= 1,
    ;
}

/// The first `m` chunks of `data` together hold `min(m * sz, len)` bytes.
pub proof fn lemma_chunk_prefix_sum(data: Seq<u8>, sz: int, m: int)
    requires
        sz >= 1,
        0 <= m <= ceil_div(data.len() as int, sz),
    ensures
        sum_len(chunk_segments(data, sz).subrange(0, m)) == min(m * sz, data.len() as int),
    decreases m,
{
    let len = data.len() as int;
    let cs = chunk_segments(data, sz);
    if m == 0 {
        assert(cs.subrange(0, 0) =~= Seq::empty());
    } else {
        lemma_chunk_prefix_sum(data, sz, m - 1);
        lemma_chunk_bounds(data, sz, m - 1);
        assert(cs.subrange(0, m).drop_last() =~= cs.subrange(0, m - 1));
        assert(cs.subrange(0, m).last() == cs[m - 1]);
        assert(min((m - 1) * sz, len) == (m - 1) * sz);
        assert((m - 1) * sz + (min(m * sz, len) - (m - 1) * sz) == min(m * sz, len));
    }
}

/// Eager chunking yields a well-formed, complete file whose segments carry
/// the indices `0, 1, ...` in order.
pub proof fn lemma_chunked_file_wf(name: Seq<char>, data: Seq<u8>, sz: int)
    requires
        sz >= 1,
    ensures
        chunked_file(name, data, sz).wf(),
        chunked_file(name, data, sz).complete(),
{
    let len = data.len() as int;
    let count = ceil_div(len, sz);
    let f = chunked_file(name, data, sz);
    lemma_ceil_div_bounds(len, sz);
    assert(f.segments.subrange(0, count) =~= f.segments);
    lemma_chunk_prefix_sum(data, sz, count);
    assert(min(count * sz, len) == len);
    assert(f.actual_size == sum_len(f.segments));
    assert forall|i: int| 0 <= i < f.expected_count() implies f.has_index(i) by {
        assert(f.segments[i].index == i);
    }
}

/// The first `n` positions of a chunked file reassemble to the first
/// `min(n * sz, len)` bytes of the data.
pub proof fn lemma_chunked_collect_upto(name: Seq<char>, data: Seq<u8>, sz: int, n: int)
    requires
        sz >= 1,
        0 <= n <= ceil_div(data.len() as int, sz),
    ensures
        chunked_file(name, data, sz).collect_upto(n) == data.subrange(
            0,
            min(n * sz, data.len() as int),
        ),
    decreases n,
{
    let len = data.len() as int;
    let f = chunked_file(name, data, sz);
    if n == 0 {
        assert(f.collect_upto(0) =~= data.subrange(0, 0));
        assert(n * sz == 0) by (nonlinear_arith)
            requires
                n == 0,
        ;
        assert(min(n * sz, len) == 0);
    } else {
        lemma_chunked_collect_upto(name, data, sz, n - 1);
        lemma_chunk_bounds(data, sz, n - 1);
        lemma_chunked_file_wf(name, data, sz);
        assert(f.segments[n - 1].index == n - 1);
        lemma_pos_of_unique(f, n - 1);
        assert(f.has_index(n - 1));
        assert(f.data_at(n - 1) == chunk_data(data, sz, n - 1));
        assert(min((n - 1) * sz, len) == (n - 1) * sz);
        assert(f.collect_upto(n) == f.collect_upto(n - 1) + f.data_at(n - 1));
        assert(f.collect_upto(n) == data.subrange(0, (n - 1) * sz) + data.subrange(
            (n - 1) * sz,
            min(n * sz, len),
        ));
        assert(data.subrange(0, (n - 1) * sz) + data.subrange((n - 1) * sz, min(n * sz, len))
            =~= data.subrange(0, min(n * sz, len)));
    }
}

} // verus!
