//! Laws of the segmented-file model.
//!
//! Each proof function here states one guarantee of the library over the
//! ghost model of managed files, for all inputs, and is proved once and for
//! all. The executable operations are specified exactly in terms of the same
//! model functions (`add_seg`, `collect`, `complete`, ...), so these laws
//! carry over to every run of the executable code.

use crate::model::FileModel;
use crate::model::SegModel;
use crate::model::ceil_div;
use crate::model::chunked_file;
use crate::model::empty_file;
use crate::model::lemma_add_all_props;
use crate::model::lemma_ceil_div_bounds;
use crate::model::lemma_chunked_collect_upto;
use crate::model::lemma_chunked_file_wf;
use crate::model::lemma_collect_upto_agree;
use crate::model::lemma_sum_len_reverse;
use vstd::math::min;
use vstd::prelude::*;

verus! {

/// Idempotent insertion: for any managed file and any segment, inserting the
/// same segment twice yields exactly the state that inserting it once yields
/// — the same byte count and the same held segments.
pub proof fn lemma_add_segment_idempotent(f: FileModel, s: SegModel)
    ensures
        f.add_seg(s).add_seg(s) == f.add_seg(s),
{
    let r = f.add_seg(s);
    if !f.has_index(s.index) {
        assert(r.segments[r.segments.len() - 1].index == s.index);
        assert(r.has_index(s.index));
    }
}

/// Completeness monotonicity: once a file is complete, inserting any further
/// segment of that file (one whose index lies below the expected segment
/// count) is a no-op, so the file stays complete. A segment with an index at
/// or beyond the expected count is not a segment of the file and is excluded.
pub proof fn lemma_complete_monotonic(f: FileModel, s: SegModel)
    requires
        f.complete(),
        0 <= s.index < f.expected_count(),
    ensures
        f.add_seg(s) == f,
        f.add_seg(s).complete(),
{
    assert(f.has_index(s.index));
}

/// Chunk/reassemble round-trip: chunking any byte sequence yields a complete
/// file whose reassembly is exactly the original bytes.
pub proof fn lemma_chunk_roundtrip(name: Seq<char>, data: Seq<u8>, sz: int)
    requires
        sz >= 1,
    ensures
        chunked_file(name, data, sz).wf(),
        chunked_file(name, data, sz).complete(),
        chunked_file(name, data, sz).collect() == data,
{
    let len = data.len() as int;
    let count = ceil_div(len, sz);
    lemma_chunked_file_wf(name, data, sz);
    lemma_ceil_div_bounds(len, sz);
    lemma_chunked_collect_upto(name, data, sz, count);
    assert(min(count * sz, len) == len);
    assert(data.subrange(0, len) =~= data);
}

/// A freshly registered placeholder is well-formed, and it is complete
/// already iff the intended size is zero: a zero-length file needs no
/// segments at all.
pub proof fn lemma_empty_file_complete(name: Seq<char>, size: int, sz: int)
    requires
        size >= 0,
        sz >= 1,
    ensures
        empty_file(name, size, sz).wf(),
        empty_file(name, size, sz).complete() <==> size == 0,
{
    lemma_ceil_div_bounds(size, sz);
    if size == 0 {
        assert(empty_file(name, size, sz).expected_count() == 0);
    }
}

/// Out-of-order delivery: inserting a set of fresh segments with distinct
/// indices in reverse order yields the same completeness result and the same
/// reassembled bytes as inserting them in forward order.
pub proof fn lemma_out_of_order_delivery(f: FileModel, segs: Seq<SegModel>)
    requires
        f.wf(),
        forall|k: int| 0 <= k < segs.len() ==> (#[trigger] segs[k].index) >= 0,
        forall|k1: int, k2: int|
            0 <= k1 < k2 < segs.len() ==> #[trigger] segs[k1].index != #[trigger] segs[k2].index,
        forall|k: int| 0 <= k < segs.len() ==> !f.has_index(#[trigger] segs[k].index),
    ensures
        f.add_all(segs.reverse()).wf(),
        f.add_all(segs).wf(),
        f.add_all(segs.reverse()).complete() == f.add_all(segs).complete(),
        f.add_all(segs.reverse()).collect() == f.add_all(segs).collect(),
{
    let n = segs.len() as int;
    let rev = segs.reverse();
    assert forall|k: int| 0 <= k < rev.len() implies (#[trigger] rev[k].index) >= 0 by {
        assert(rev[k] == segs[n - 1 - k]);
    }
    assert forall|k1: int, k2: int| 0 <= k1 < k2 < rev.len() implies #[trigger] rev[k1].index
        != #[trigger] rev[k2].index by {
        assert(rev[k1] == segs[n - 1 - k1] && rev[k2] == segs[n - 1 - k2]);
        assert(segs[n - 1 - k2].index != segs[n - 1 - k1].index);
    }
    assert forall|k: int| 0 <= k < rev.len() implies !f.has_index(#[trigger] rev[k].index) by {
        assert(rev[k] == segs[n - 1 - k]);
    }
    lemma_add_all_props(f, segs);
    lemma_add_all_props(f, rev);
    lemma_sum_len_reverse(segs);
    let a = f.add_all(segs);
    let b = f.add_all(rev);

    assert forall|i: int| #[trigger] a.has_index(i) <==> #[trigger] b.has_index(i) by {
        if exists|k: int| 0 <= k < segs.len() && (#[trigger] segs[k].index) == i {
            let k = choose|k: int| 0 <= k < segs.len() && (#[trigger] segs[k].index) == i;
            assert(rev[n - 1 - k] == segs[k]);
            assert(rev[n - 1 - k].index == i);
        }
        if exists|k: int| 0 <= k < rev.len() && (#[trigger] rev[k].index) == i {
            let k = choose|k: int| 0 <= k < rev.len() && (#[trigger] rev[k].index) == i;
            assert(rev[k] == segs[n - 1 - k]);
            assert(segs[n - 1 - k].index == i);
        }
    }
    assert forall|i: int| a.has_index(i) implies #[trigger] a.data_at(i) == b.data_at(i) by {
        if f.has_index(i) {
            assert(a.data_at(i) == f.data_at(i) && b.data_at(i) == f.data_at(i));
        } else {
            let k = choose|k: int| 0 <= k < segs.len() && (#[trigger] segs[k].index) == i;
            assert(a.data_at(segs[k].index) == segs[k].data);
            assert(rev[n - 1 - k] == segs[k]);
            assert(b.data_at(rev[n - 1 - k].index) == rev[n - 1 - k].data);
        }
    }
    lemma_collect_upto_agree(a, b, a.segments.len() as int);
    assert(a.segments.len() == b.segments.len());
    assert(a.expected_count() == b.expected_count());
    if a.complete() {
        assert forall|i: int| 0 <= i < b.expected_count() implies b.has_index(i) by {
            assert(a.has_index(i));
        }
        assert(b.complete());
    }
    if b.complete() {
        assert forall|i: int| 0 <= i < a.expected_count() implies a.has_index(i) by {
            assert(b.has_index(i));
        }
        assert(a.complete());
    }
}

} // verus!
