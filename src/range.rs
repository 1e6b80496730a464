//! Byte ranges of the segments and how a content length is split into them.
use vstd::prelude::*;
use crate::decimal::{decimal, push_decimal};

verus! {

/// An inclusive byte interval `[low, high]` of the resource.
#[derive(Clone, Copy, Debug, PartialEq, Eq)]
pub struct Range {
    pub low: u64,
    pub high: u64,
}

/// First byte of segment `index` when every segment but the last holds `task_size` bytes.
pub open spec fn segment_low(index: int, task_size: int) -> int {
    index * task_size
}

/// Last byte of segment `index`: the last segment runs up to `content_length`.
pub open spec fn segment_high(index: int, procs: int, task_size: int, content_length: int) -> int {
    if index == procs - 1 {
        content_length
    } else {
        index * task_size + task_size - 1
    }
}

/// Bytes that a complete partial file of segment `index` holds.
pub open spec fn planned_size(index: int, procs: int, task_size: int, content_length: int) -> int {
    if index == procs - 1 {
        content_length - index * task_size
    } else {
        task_size
    }
}

/// Byte `x` lies in the planned range of some segment.
pub open spec fn in_some_segment(x: int, procs: int, task_size: int, content_length: int) -> bool {
    exists|i: int|
        0 <= i < procs && segment_low(i, task_size) <= x <= #[trigger] segment_high(
            i,
            procs,
            task_size,
            content_length,
        )
}

/// `r` is the range planned for segment `index`.
pub open spec fn is_planned_range(
    r: Range,
    index: int,
    procs: int,
    task_size: int,
    content_length: int,
) -> bool {
    &&& r.low == segment_low(index, task_size)
    &&& r.high == segment_high(index, procs, task_size, content_length)
}

/// The text of a `Range` request header for bytes `low` through `high`.
pub open spec fn range_header(low: nat, high: nat) -> Seq<char> {
    seq!['b', 'y', 't', 'e', 's', '='] + decimal(low) + seq!['-'] + decimal(high)
}

impl Default for Range {
    fn default() -> (r: Range)
        ensures
            r.low == 0 && r.high == 0,
    {
        Range { low: 0, high: 0 }
    }
}

impl Range {
    /// The range of segment `index` out of `procs`, each but the last `task_size` bytes long.
    pub fn from(index: u64, procs: u64, task_size: u64, content_length: u64) -> (r: Range)
        requires
            index < procs,
            index * task_size <= u64::MAX,
            index + 1 < procs ==> 0 < task_size && index * task_size + task_size <= u64::MAX,
        ensures
            is_planned_range(r, index as int, procs as int, task_size as int, content_length as int),
    {
        assert(task_size * index == index * task_size) by (nonlinear_arith);
        let low = task_size * index;
        if index == procs - 1 {
            return Range { low, high: content_length };
        }
        Range { low, high: low + task_size - 1 }
    }

    /// The header value `bytes=<low>-<high>` that requests this range.
    pub fn bytes_range(&self) -> (r: String)
        ensures
            r@ == range_header(self.low as nat, self.high as nat),
    {
        let mut s = String::from_str("bytes=");
        proof { reveal_strlit("bytes="); }
        push_decimal(&mut s, self.low);
        s.append("-");
        proof { reveal_strlit("-"); }
        push_decimal(&mut s, self.high);
        assert(s@ == range_header(self.low as nat, self.high as nat));
        s
    }

    /// The width `high - low` of the range.
    pub fn abs(&self) -> (r: u64)
        requires
            self.low <= self.high,
        ensures
            r == self.high - self.low,
    {
        self.high - self.low
    }
}

/// A range of segment `index` is fixed by the four planning inputs: two ranges
/// planned from the same inputs are equal.
pub proof fn lemma_planned_range_unique(
    r1: Range,
    r2: Range,
    index: int,
    procs: int,
    task_size: int,
    content_length: int,
)
    requires
        is_planned_range(r1, index, procs, task_size, content_length),
        is_planned_range(r2, index, procs, task_size, content_length),
    ensures
        r1 == r2,
{
}

/// For `1 <= procs <= content_length`, with `task_size = content_length / procs`,
/// the planned ranges follow each other in index order without gap or overlap
/// and together cover exactly the bytes `0` through `content_length`.
pub proof fn lemma_segments_partition(procs: int, content_length: int)
    requires
        1 <= procs <= content_length,
    ensures
        segment_low(0, content_length / procs) == 0,
        segment_high(procs - 1, procs, content_length / procs, content_length) == content_length,
        forall|i: int|
            0 <= i < procs ==> 0 <= segment_low(i, content_length / procs) <= #[trigger] segment_high(
                i,
                procs,
                content_length / procs,
                content_length,
            ) <= content_length,
        forall|i: int|
            0 <= i < procs - 1 ==> #[trigger] segment_high(i, procs, content_length / procs, content_length)
                + 1 == segment_low(i + 1, content_length / procs),
        forall|i: int, j: int|
            0 <= i < j < procs ==> #[trigger] segment_high(i, procs, content_length / procs, content_length)
                < #[trigger] segment_low(j, content_length / procs),
        forall|x: int|
            0 <= x <= content_length <==> #[trigger] in_some_segment(
                x,
                procs,
                content_length / procs,
                content_length,
            ),
{
    let ts = content_length / procs;
    let cl = content_length;
    assert(ts >= 1) by (nonlinear_arith)
        requires 1 <= procs <= cl, ts == cl / procs;
    assert(procs * ts <= cl) by (nonlinear_arith)
        requires 1 <= procs, ts == cl / procs;
    assert(0 * ts == 0) by (nonlinear_arith);
    assert forall|i: int| 0 <= i < procs implies 0 <= segment_low(i, ts) <= #[trigger] segment_high(
        i,
        procs,
        ts,
        cl,
    ) <= cl by {
        assert(0 <= i * ts) by (nonlinear_arith) requires 0 <= i, 1 <= ts;
        assert((i + 1) * ts <= procs * ts) by (nonlinear_arith) requires 0 <= i < procs, 1 <= ts;
        assert((i + 1) * ts == i * ts + ts) by (nonlinear_arith);
    }
    assert forall|i: int| 0 <= i < procs - 1 implies #[trigger] segment_high(i, procs, ts, cl) + 1
        == segment_low(i + 1, ts) by {
        assert((i + 1) * ts == i * ts + ts) by (nonlinear_arith);
    }
    assert forall|i: int, j: int| 0 <= i < j < procs implies #[trigger] segment_high(i, procs, ts, cl)
        < #[trigger] segment_low(j, ts) by {
        assert((i + 1) * ts <= j * ts) by (nonlinear_arith) requires 0 <= i < j, 1 <= ts;
        assert((i + 1) * ts == i * ts + ts) by (nonlinear_arith);
    }
    assert forall|x: int| 0 <= x <= cl implies in_some_segment(x, procs, ts, cl) by {
        let q = x / ts;
        assert(q * ts <= x < q * ts + ts && 0 <= q) by (nonlinear_arith)
            requires 1 <= ts, 0 <= x, q == x / ts;
        if q < procs - 1 {
            assert(segment_low(q, ts) <= x <= segment_high(q, procs, ts, cl));
        } else {
            assert((procs - 1) * ts <= q * ts) by (nonlinear_arith) requires procs - 1 <= q, 1 <= ts;
            assert(segment_low(procs - 1, ts) <= x <= segment_high(procs - 1, procs, ts, cl));
        }
    }
}

/// Bytes of `content` that a complete partial file of segment `i` holds.
pub open spec fn segment_bytes(content: Seq<u8>, i: int, procs: int, task_size: int) -> Seq<u8> {
    content.subrange(
        segment_low(i, task_size),
        segment_low(i, task_size) + planned_size(i, procs, task_size, content.len() as int),
    )
}

/// The first `n` parts joined in index order.
pub open spec fn joined(parts: Seq<Seq<u8>>, n: nat) -> Seq<u8>
    decreases n,
{
    if n == 0 {
        seq![]
    } else {
        joined(parts, (n - 1) as nat) + parts[n - 1]
    }
}

proof fn lemma_joined_prefix(content: Seq<u8>, parts: Seq<Seq<u8>>, procs: int, n: nat)
    requires
        1 <= procs <= content.len(),
        parts.len() == procs,
        n < procs,
        forall|i: int|
            0 <= i < procs ==> #[trigger] parts[i] == segment_bytes(
                content,
                i,
                procs,
                content.len() as int / procs,
            ),
    ensures
        n * (content.len() as int / procs) <= content.len(),
        joined(parts, n) == content.subrange(0, n * (content.len() as int / procs)),
    decreases n,
{
    let ts = content.len() as int / procs;
    let cl = content.len() as int;
    assert(procs * ts <= cl) by (nonlinear_arith)
        requires 1 <= procs, ts == cl / procs;
    assert(n * ts <= procs * ts) by (nonlinear_arith)
        requires n < procs, 0 <= ts;
    if n == 0 {
        assert(content.subrange(0, 0) =~= seq![]);
    } else {
        lemma_joined_prefix(content, parts, procs, (n - 1) as nat);
        assert((n - 1) * ts + ts == n * ts) by (nonlinear_arith);
        assert(joined(parts, n) =~= content.subrange(0, n * ts));
    }
}

/// Joining, in ascending index order, the partial files of all segments, each
/// holding exactly its planned bytes, gives back the whole resource, whose
/// length is the content length.
pub proof fn lemma_assembly(content: Seq<u8>, parts: Seq<Seq<u8>>, procs: int)
    requires
        1 <= procs <= content.len(),
        parts.len() == procs,
        forall|i: int|
            0 <= i < procs ==> #[trigger] parts[i] == segment_bytes(
                content,
                i,
                procs,
                content.len() as int / procs,
            ),
    ensures
        joined(parts, procs as nat) == content,
        joined(parts, procs as nat).len() == content.len(),
{
    lemma_joined_prefix(content, parts, procs, (procs - 1) as nat);
    assert(joined(parts, procs as nat) =~= content);
}

} // verus!
