//! Splitting a partly disclosed byte buffer into disclosed and withheld segments.

use std::ops::Range;
use vstd::prelude::*;

verus! {

/// One piece of a partly disclosed buffer, in buffer order.
#[derive(Debug, Clone, PartialEq, Eq)]
pub enum Segment {
    /// Bytes that were disclosed, copied from the buffer.
    Disclosed(Vec<u8>),
    /// A withheld run of bytes, known only by its length.
    Redacted(usize),
}

/// Why a buffer could not be split.
#[derive(Debug, Clone, Copy, PartialEq, Eq, Structural)]
pub enum SegmentError {
    /// The withheld ranges overlap, are out of order, empty, or reach past the
    /// end of the buffer.
    InvalidRanges,
}

/// The mathematical form of a [`Segment`].
pub ghost enum SegmentView {
    Disclosed(Seq<u8>),
    Redacted(nat),
}

impl View for Segment {
    type V = SegmentView;

    open spec fn view(&self) -> SegmentView {
        match self {
            Segment::Disclosed(b) => SegmentView::Disclosed(b@),
            Segment::Redacted(n) => SegmentView::Redacted(*n as nat),
        }
    }
}

impl SegmentView {
    /// How many buffer positions the segment covers.
    pub open spec fn len(self) -> nat {
        match self {
            SegmentView::Disclosed(b) => b.len(),
            SegmentView::Redacted(n) => n,
        }
    }
}

/// The views of a sequence of segments.
pub open spec fn segments_view(v: Seq<Segment>) -> Seq<SegmentView> {
    v.map_values(|s: Segment| s@)
}

/// Withheld ranges are well formed over a buffer of `len` bytes: each range is
/// non-empty and inside the buffer, and each starts at or after the end of the
/// one before it.
pub open spec fn ranges_valid(ranges: Seq<Range<usize>>, len: nat) -> bool {
    &&& forall|i: int|
        0 <= i < ranges.len() ==> #[trigger] ranges[i].start < ranges[i].end && ranges[i].end
            <= len
    &&& forall|i: int| 0 < i < ranges.len() ==> ranges[i - 1].end <= #[trigger] ranges[i].start
}

/// The segments of `buf` from position `pos`, where `ranges[k..]` are the
/// withheld ranges still ahead. A disclosed run is emitted only when it is not
/// empty; every withheld range gives exactly one redacted segment.
pub open spec fn tiling_from(buf: Seq<u8>, ranges: Seq<Range<usize>>, k: int, pos: int) -> Seq<
    SegmentView,
>
    decreases ranges.len() - k,
{
    if k < 0 || k >= ranges.len() {
        if pos < buf.len() {
            seq![SegmentView::Disclosed(buf.subrange(pos, buf.len() as int))]
        } else {
            seq![]
        }
    } else {
        let r = ranges[k];
        let gap = if pos < r.start {
            seq![SegmentView::Disclosed(buf.subrange(pos, r.start as int))]
        } else {
            seq![]
        };
        gap + seq![SegmentView::Redacted((r.end - r.start) as nat)] + tiling_from(
            buf,
            ranges,
            k + 1,
            r.end as int,
        )
    }
}

/// The segments of the whole of `buf` with the withheld `ranges`.
pub open spec fn tiling(buf: Seq<u8>, ranges: Seq<Range<usize>>) -> Seq<SegmentView> {
    tiling_from(buf, ranges, 0, 0)
}

/// The sum of the lengths that the segments cover.
pub open spec fn total_len(s: Seq<SegmentView>) -> nat
    decreases s.len(),
{
    if s.len() == 0 {
        0
    } else {
        total_len(s.drop_last()) + s.last().len()
    }
}

/// The bytes that one segment shows, with withheld bytes drawn as `fill`.
pub open spec fn shown(s: SegmentView, fill: u8) -> Seq<u8> {
    match s {
        SegmentView::Disclosed(b) => b,
        SegmentView::Redacted(n) => Seq::new(n, |_i: int| fill),
    }
}

/// The segments laid end to end, withheld bytes drawn as `fill`.
pub open spec fn shown_all(s: Seq<SegmentView>, fill: u8) -> Seq<u8>
    decreases s.len(),
{
    if s.len() == 0 {
        seq![]
    } else {
        shown_all(s.drop_last(), fill) + shown(s.last(), fill)
    }
}

/// The lengths of the redacted segments, in order.
pub open spec fn redacted_lengths(s: Seq<SegmentView>) -> Seq<nat>
    decreases s.len(),
{
    if s.len() == 0 {
        seq![]
    } else {
        let rest = redacted_lengths(s.drop_last());
        match s.last() {
            SegmentView::Redacted(n) => rest.push(n),
            SegmentView::Disclosed(_) => rest,
        }
    }
}

/// The lengths of the given ranges, in order.
pub open spec fn range_lengths(ranges: Seq<Range<usize>>) -> Seq<nat> {
    ranges.map_values(|r: Range<usize>| (r.end - r.start) as nat)
}

/// Position `i` lies inside one of the withheld ranges.
pub open spec fn withheld(ranges: Seq<Range<usize>>, i: int) -> bool {
    exists|j: int| 0 <= j < ranges.len() && #[trigger] ranges[j].start <= i < ranges[j].end
}

/// `buf` with every withheld position replaced by `fill`.
pub open spec fn masked(buf: Seq<u8>, ranges: Seq<Range<usize>>, fill: u8) -> Seq<u8> {
    Seq::new(buf.len(), |i: int| if withheld(ranges, i) { fill } else { buf[i] })
}

proof fn lemma_concat_measures(a: Seq<SegmentView>, b: Seq<SegmentView>, fill: u8)
    ensures
        total_len(a + b) == total_len(a) + total_len(b),
        shown_all(a + b, fill) == shown_all(a, fill) + shown_all(b, fill),
        redacted_lengths(a + b) == redacted_lengths(a) + redacted_lengths(b),
    decreases b.len(),
{
    if b.len() == 0 {
        assert(a + b == a);
        assert(shown_all(a, fill) + seq![] == shown_all(a, fill));
        assert(redacted_lengths(a) + seq![] == redacted_lengths(a));
    } else {
        lemma_concat_measures(a, b.drop_last(), fill);
        assert((a + b).drop_last() == a + b.drop_last());
        assert((a + b).last() == b.last());
        assert(shown_all(a + b, fill) == shown_all(a, fill) + shown_all(b, fill));
        match b.last() {
            SegmentView::Redacted(n) => {
                assert(redacted_lengths(a + b) == redacted_lengths(a) + redacted_lengths(b));
            },
            SegmentView::Disclosed(_) => {},
        }
    }
}

proof fn lemma_single_measures(x: SegmentView, fill: u8)
    ensures
        total_len(seq![x]) == x.len(),
        shown_all(seq![x], fill) == shown(x, fill),
        redacted_lengths(seq![x]) == (match x {
            SegmentView::Redacted(n) => seq![n],
            SegmentView::Disclosed(_) => Seq::<nat>::empty(),
        }),
{
    let e = Seq::<SegmentView>::empty();
    assert(seq![x].drop_last() == e);
    assert(seq![x].last() == x);
    assert(total_len(e) == 0);
    assert(shown_all(e, fill) == Seq::<u8>::empty());
    assert(redacted_lengths(e) == Seq::<nat>::empty());
    assert(Seq::<u8>::empty() + shown(x, fill) == shown(x, fill));
    match x {
        SegmentView::Redacted(n) => {
            assert(Seq::<nat>::empty().push(n) == seq![n]);
        },
        SegmentView::Disclosed(_) => {},
    }
}

/// Well-formed ranges are pairwise ordered, not just neighbour by neighbour.
proof fn lemma_ranges_ordered(ranges: Seq<Range<usize>>, len: nat, j: int, l: int)
    requires
        ranges_valid(ranges, len),
        0 <= j < l < ranges.len(),
    ensures
        ranges[j].end <= ranges[l].start,
    decreases l - j,
{
    if j + 1 < l {
        lemma_ranges_ordered(ranges, len, j, l - 1);
        assert(ranges[l - 1].start < ranges[l - 1].end);
    }
}

proof fn lemma_tiling_from(buf: Seq<u8>, ranges: Seq<Range<usize>>, k: int, pos: int, fill: u8)
    requires
        ranges_valid(ranges, buf.len()),
        0 <= k <= ranges.len(),
        0 <= pos <= buf.len(),
        k < ranges.len() ==> pos <= ranges[k].start,
        forall|j: int| 0 <= j < k ==> #[trigger] ranges[j].end <= pos,
    ensures
        total_len(tiling_from(buf, ranges, k, pos)) == buf.len() - pos,
        shown_all(tiling_from(buf, ranges, k, pos), fill) == masked(buf, ranges, fill).subrange(
            pos,
            buf.len() as int,
        ),
        redacted_lengths(tiling_from(buf, ranges, k, pos)) == range_lengths(
            ranges.subrange(k, ranges.len() as int),
        ),
    decreases ranges.len() - k,
{
    let m = masked(buf, ranges, fill);
    if k >= ranges.len() {
        assert forall|i: int| pos <= i < buf.len() implies !withheld(ranges, i) by {
            if withheld(ranges, i) {
                let j = choose|j: int| 0 <= j < ranges.len() && #[trigger] ranges[j].start <= i
                    < ranges[j].end;
                assert(ranges[j].end <= pos);
            }
        }
        if pos < buf.len() {
            let x = SegmentView::Disclosed(buf.subrange(pos, buf.len() as int));
            lemma_single_measures(x, fill);
            assert(buf.subrange(pos, buf.len() as int) == m.subrange(pos, buf.len() as int));
        } else {
            assert(m.subrange(pos, buf.len() as int) == Seq::<u8>::empty());
        }
        assert(ranges.subrange(k, ranges.len() as int) == Seq::<Range<usize>>::empty());
        assert(range_lengths(Seq::<Range<usize>>::empty()) == Seq::<nat>::empty());
    } else {
        let r = ranges[k];
        let end = r.end as int;
        let start = r.start as int;
        assert(start < end <= buf.len());
        assert forall|j: int| 0 <= j < k + 1 implies #[trigger] ranges[j].end <= end by {
            if j < k {
                assert(ranges[j].end <= pos);
            }
        }
        if k + 1 < ranges.len() {
            assert(ranges[k].end <= ranges[k + 1].start);
        }
        lemma_tiling_from(buf, ranges, k + 1, end, fill);
        let gap = if pos < start {
            seq![SegmentView::Disclosed(buf.subrange(pos, start))]
        } else {
            seq![]
        };
        let red = SegmentView::Redacted((r.end - r.start) as nat);
        let rest = tiling_from(buf, ranges, k + 1, end);
        assert(tiling_from(buf, ranges, k, pos) == gap + seq![red] + rest);
        lemma_concat_measures(gap + seq![red], rest, fill);
        lemma_concat_measures(gap, seq![red], fill);
        lemma_single_measures(red, fill);
        // the gap shows the buffer unchanged
        assert forall|i: int| pos <= i < start implies !withheld(ranges, i) by {
            if withheld(ranges, i) {
                let j = choose|j: int| 0 <= j < ranges.len() && #[trigger] ranges[j].start <= i
                    < ranges[j].end;
                if j < k {
                    assert(ranges[j].end <= pos);
                } else if j > k {
                    lemma_ranges_ordered(ranges, buf.len(), k, j);
                }
            }
        }
        if pos < start {
            lemma_single_measures(gap[0], fill);
            assert(gap == seq![gap[0]]);
            assert(buf.subrange(pos, start) == m.subrange(pos, start));
        } else {
            assert(total_len(gap) == 0);
            assert(shown_all(gap, fill) == Seq::<u8>::empty());
            assert(redacted_lengths(gap) == Seq::<nat>::empty());
        }
        // the withheld range shows only the fill byte
        assert forall|i: int| start <= i < end implies withheld(ranges, i) by {
            assert(ranges[k].start <= i < ranges[k].end);
        }
        assert(shown(red, fill) == m.subrange(start, end));
        assert(m.subrange(pos, buf.len() as int) == m.subrange(pos, start) + m.subrange(start, end)
            + m.subrange(end, buf.len() as int));
        assert(shown_all(gap, fill) + shown(red, fill) + shown_all(rest, fill) == m.subrange(
            pos,
            buf.len() as int,
        ));
        let tail = ranges.subrange(k + 1, ranges.len() as int);
        assert(ranges.subrange(k, ranges.len() as int) == seq![r] + tail);
        assert(range_lengths(seq![r] + tail) == seq![(r.end - r.start) as nat] + range_lengths(
            tail,
        ));
        assert(redacted_lengths(gap) + seq![(r.end - r.start) as nat] + range_lengths(tail)
            == seq![(r.end - r.start) as nat] + range_lengths(tail));
    }
}

proof fn lemma_tiling_from_ignores_withheld(
    a: Seq<u8>,
    b: Seq<u8>,
    ranges: Seq<Range<usize>>,
    k: int,
    pos: int,
)
    requires
        ranges_valid(ranges, a.len()),
        a.len() == b.len(),
        forall|i: int| 0 <= i < a.len() && !withheld(ranges, i) ==> a[i] == b[i],
        0 <= k <= ranges.len(),
        0 <= pos <= a.len(),
        k < ranges.len() ==> pos <= ranges[k].start,
        forall|j: int| 0 <= j < k ==> #[trigger] ranges[j].end <= pos,
    ensures
        tiling_from(a, ranges, k, pos) == tiling_from(b, ranges, k, pos),
    decreases ranges.len() - k,
{
    if k >= ranges.len() {
        assert forall|i: int| pos <= i < a.len() implies !withheld(ranges, i) by {
            if withheld(ranges, i) {
                let j = choose|j: int| 0 <= j < ranges.len() && #[trigger] ranges[j].start <= i
                    < ranges[j].end;
                assert(ranges[j].end <= pos);
            }
        }
        assert(a.subrange(pos, a.len() as int) == b.subrange(pos, b.len() as int));
    } else {
        let start = ranges[k].start as int;
        let end = ranges[k].end as int;
        assert forall|j: int| 0 <= j < k + 1 implies #[trigger] ranges[j].end <= end by {
            if j < k {
                assert(ranges[j].end <= pos);
            }
        }
        if k + 1 < ranges.len() {
            assert(ranges[k].end <= ranges[k + 1].start);
        }
        lemma_tiling_from_ignores_withheld(a, b, ranges, k + 1, end);
        assert forall|i: int| pos <= i < start implies !withheld(ranges, i) by {
            if withheld(ranges, i) {
                let j = choose|j: int| 0 <= j < ranges.len() && #[trigger] ranges[j].start <= i
                    < ranges[j].end;
                if j < k {
                    assert(ranges[j].end <= pos);
                } else if j > k {
                    lemma_ranges_ordered(ranges, a.len(), k, j);
                }
            }
        }
        assert(a.subrange(pos, start) == b.subrange(pos, start));
    }
}

/// Withheld bytes never reach the output: two buffers that agree at every
/// position outside the withheld ranges give the same segments and the same
/// masked bytes, whatever they hold inside those ranges.
pub proof fn lemma_withheld_bytes_never_shown(
    a: Seq<u8>,
    b: Seq<u8>,
    ranges: Seq<Range<usize>>,
    fill: u8,
)
    requires
        ranges_valid(ranges, a.len()),
        a.len() == b.len(),
        forall|i: int| 0 <= i < a.len() && !withheld(ranges, i) ==> a[i] == b[i],
    ensures
        tiling(a, ranges) == tiling(b, ranges),
        masked(a, ranges, fill) == masked(b, ranges, fill),
{
    lemma_tiling_from_ignores_withheld(a, b, ranges, 0, 0);
    assert(masked(a, ranges, fill) == masked(b, ranges, fill));
}

/// Tiling: the segments of a buffer with well-formed withheld ranges cover it
/// exactly once. Their lengths add up to the buffer's length, and laid end to
/// end they give back the buffer with the withheld positions, and only those,
/// replaced by the fill byte.
pub proof fn lemma_segments_tile(buf: Seq<u8>, ranges: Seq<Range<usize>>, fill: u8)
    requires
        ranges_valid(ranges, buf.len()),
    ensures
        total_len(tiling(buf, ranges)) == buf.len(),
        shown_all(tiling(buf, ranges), fill) == masked(buf, ranges, fill),
{
    lemma_tiling_from(buf, ranges, 0, 0, fill);
    assert(masked(buf, ranges, fill).subrange(0, buf.len() as int) == masked(buf, ranges, fill));
}

/// One redacted segment per withheld range: the redacted segments are as many
/// as the ranges, and each has its range's length, in the ranges' order.
pub proof fn lemma_one_redaction_per_range(buf: Seq<u8>, ranges: Seq<Range<usize>>)
    requires
        ranges_valid(ranges, buf.len()),
    ensures
        redacted_lengths(tiling(buf, ranges)) == range_lengths(ranges),
        redacted_lengths(tiling(buf, ranges)).len() == ranges.len(),
{
    lemma_tiling_from(buf, ranges, 0, 0, 0);
    assert(ranges.subrange(0, ranges.len() as int) == ranges);
}

/// With nothing withheld a buffer is one disclosed segment, or no segment at
/// all when it is empty.
pub proof fn lemma_no_ranges(buf: Seq<u8>)
    ensures
        tiling(buf, seq![]) == (if buf.len() == 0 {
            Seq::<SegmentView>::empty()
        } else {
            seq![SegmentView::Disclosed(buf)]
        }),
{
    assert(buf.subrange(0, buf.len() as int) == buf);
}

/// Checks that `ranges` are well formed over a buffer of `len` bytes.
pub fn ranges_are_valid(ranges: &Vec<Range<usize>>, len: usize) -> (r: bool)
    ensures
        r == ranges_valid(ranges@, len as nat),
{
    let mut i: usize = 0;
    while i < ranges.len()
        invariant
            i <= ranges.len(),
            ranges_valid(ranges@.subrange(0, i as int), len as nat),
        decreases ranges.len() - i,
    {
        let r = &ranges[i];
        if !(r.start < r.end && r.end <= len) {
            return false;
        }
        if i > 0 && ranges[i - 1].end > r.start {
            return false;
        }
        i = i + 1;
        assert(ranges@.subrange(0, i as int) == ranges@.subrange(0, i - 1).push(ranges@[i - 1]));
    }
    assert(ranges@.subrange(0, i as int) == ranges@);
    true
}

/// Copies `buf[from..to]` into a new vector.
fn copy_range(buf: &[u8], from: usize, to: usize) -> (r: Vec<u8>)
    requires
        from <= to <= buf@.len(),
    ensures
        r@ == buf@.subrange(from as int, to as int),
{
    let mut out: Vec<u8> = Vec::new();
    let mut i: usize = from;
    while i < to
        invariant
            from <= i <= to <= buf@.len(),
            out@ == buf@.subrange(from as int, i as int),
        decreases to - i,
    {
        out.push(buf[i]);
        i = i + 1;
        assert(out@ == buf@.subrange(from as int, i as int));
    }
    out
}

/// Splits `buf` into segments that tile it in order: one disclosed segment for
/// each non-empty run between withheld ranges and one redacted segment for each
/// withheld range, carrying only its length. Fails with `InvalidRanges` exactly
/// when the ranges are not well formed over the buffer.
pub fn segment(buf: &[u8], ranges: &Vec<Range<usize>>) -> (r: Result<Vec<Segment>, SegmentError>)
    ensures
        r is Err <==> !ranges_valid(ranges@, buf@.len()),
        r matches Err(e) ==> e == SegmentError::InvalidRanges,
        r matches Ok(v) ==> segments_view(v@) == tiling(buf@, ranges@),
{
    if !ranges_are_valid(ranges, buf.len()) {
        return Err(SegmentError::InvalidRanges);
    }
    let ghost whole = tiling(buf@, ranges@);
    let mut out: Vec<Segment> = Vec::new();
    let mut pos: usize = 0;
    let mut k: usize = 0;
    while k < ranges.len()
        invariant
            ranges_valid(ranges@, buf@.len()),
            k <= ranges.len(),
            pos <= buf@.len(),
            k == 0 ==> pos == 0,
            k > 0 ==> pos == ranges@[k - 1].end,
            segments_view(out@) + tiling_from(buf@, ranges@, k as int, pos as int) == whole,
        decreases ranges.len() - k,
    {
        let start = ranges[k].start;
        let end = ranges[k].end;
        let ghost before = out@;
        let ghost rest = tiling_from(buf@, ranges@, k + 1, end as int);
        if pos < start {
            let d = copy_range(buf, pos, start);
            out.push(Segment::Disclosed(d));
        }
        out.push(Segment::Redacted(end - start));
        proof {
            let gap = if pos < start {
                seq![SegmentView::Disclosed(buf@.subrange(pos as int, start as int))]
            } else {
                seq![]
            };
            assert(segments_view(out@) == segments_view(before) + gap + seq![
                SegmentView::Redacted((end - start) as nat),
            ]);
            assert(tiling_from(buf@, ranges@, k as int, pos as int) == gap + seq![
                SegmentView::Redacted((end - start) as nat),
            ] + rest);
        }
        pos = end;
        k = k + 1;
    }
    if pos < buf.len() {
        let d = copy_range(buf, pos, buf.len());
        out.push(Segment::Disclosed(d));
    }
    assert(segments_view(out@) == whole);
    Ok(out)
}

/// Lays the segments end to end, drawing each withheld byte as `fill`. Over
/// the segments of a buffer this is the buffer with its withheld positions
/// masked, so no withheld byte of the buffer can appear in it.
pub fn masked_bytes(segments: &Vec<Segment>, fill: u8) -> (r: Vec<u8>)
    requires
        total_len(segments_view(segments@)) <= usize::MAX,
    ensures
        r@ == shown_all(segments_view(segments@), fill),
{
    let mut out: Vec<u8> = Vec::new();
    let mut i: usize = 0;
    while i < segments.len()
        invariant
            i <= segments.len(),
            total_len(segments_view(segments@)) <= usize::MAX,
            out@ == shown_all(segments_view(segments@.subrange(0, i as int)), fill),
            out@.len() == total_len(segments_view(segments@.subrange(0, i as int))),
        decreases segments.len() - i,
    {
        let ghost pre = segments_view(segments@.subrange(0, i as int));
        proof {
            assert(segments@.subrange(0, i + 1) == segments@.subrange(0, i as int).push(
                segments@[i as int],
            ));
            let next = segments_view(segments@.subrange(0, i + 1));
            assert(next == pre.push(segments@[i as int]@));
            assert(next.drop_last() == pre);
            lemma_concat_measures(next, segments_view(segments@.subrange(i + 1, segments@.len() as int)), fill);
            assert(segments@.subrange(0, i + 1) + segments@.subrange(i + 1, segments@.len() as int)
                == segments@);
            assert(segments_view(segments@) == next + segments_view(
                segments@.subrange(i + 1, segments@.len() as int),
            ));
        }
        match &segments[i] {
            Segment::Disclosed(b) => {
                let mut j: usize = 0;
                let ghost base = out@;
                while j < b.len()
                    invariant
                        j <= b.len(),
                        out@ == base + b@.subrange(0, j as int),
                        base.len() + b@.len() <= usize::MAX,
                    decreases b.len() - j,
                {
                    out.push(b[j]);
                    j = j + 1;
                    assert(out@ == base + b@.subrange(0, j as int));
                }
                assert(b@.subrange(0, b@.len() as int) == b@);
            },
            Segment::Redacted(n) => {
                let mut j: usize = 0;
                let ghost base = out@;
                while j < *n
                    invariant
                        j <= *n,
                        out@ == base + Seq::new(j as nat, |_i: int| fill),
                        base.len() + *n <= usize::MAX,
                    decreases *n - j,
                {
                    out.push(fill);
                    j = j + 1;
                    assert(out@ == base + Seq::new(j as nat, |_i: int| fill));
                }
            },
        }
        i = i + 1;
    }
    assert(segments@.subrange(0, segments@.len() as int) == segments@);
    out
}

} // verus!
