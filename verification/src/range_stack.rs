//! The stack of frames in which the highlighted ranges of nested scopes are
//! collected, and the merges that resolve a scope's ranges against those of
//! the scope around it.

use crate::tags::Highlight;
use crate::text_range::TextRange;
use vstd::prelude::*;

verus! {

/// A range of the source text with its highlight.
#[derive(Clone, Copy, Debug, PartialEq, Eq, Structural)]
pub struct HighlightedRange {
    pub range: TextRange,
    pub highlight: Highlight,
    /// Tells apart the bindings of local variables that share a name.
    pub binding_hash: Option<u64>,
}

impl HighlightedRange {
    /// The same highlight and binding hash over `[start, end)`.
    pub open spec fn over(self, start: u32, end: u32) -> HighlightedRange {
        HighlightedRange {
            range: TextRange { start, end },
            highlight: self.highlight,
            binding_hash: self.binding_hash,
        }
    }

    /// The same range and binding hash under another highlight.
    pub open spec fn retagged(self, highlight: Highlight) -> HighlightedRange {
        HighlightedRange { range: self.range, highlight, binding_hash: self.binding_hash }
    }
}

/// A frame: the ranges collected for one scope, in the order of their arrival.
pub type Frame = Seq<HighlightedRange>;

/// Every range of the frame is well formed.
pub open spec fn all_wf(frame: Frame) -> bool {
    forall|i: int| 0 <= i < frame.len() ==> (#[trigger] frame[i]).range.wf()
}

/// The frame is ordered and free of overlap: each range ends before or where
/// every later one starts.
pub open spec fn disjoint_sorted(frame: Frame) -> bool {
    forall|i: int, j: int|
        0 <= i < j < frame.len() ==> (#[trigger] frame[i]).range.end <= (#[trigger] frame[j]).range.start
}

/// The range alone, or nothing where it is empty.
pub open spec fn unless_empty(r: HighlightedRange) -> Frame {
    if r.range.empty() {
        Seq::empty()
    } else {
        seq![r]
    }
}

/// Whether `parent` can be split around `children` one after the other: each
/// child lies within `parent`, behind the child before it.
pub open spec fn splits(parent: TextRange, children: Frame) -> bool {
    &&& children.len() > 0 ==> parent.start <= children[0].range.start
    &&& forall|i: int| 0 <= i < children.len() ==> (#[trigger] children[i]).range.end <= parent.end
    &&& forall|i: int, j: int|
        0 <= i && i + 1 == j && j < children.len() ==> (#[trigger] children[i]).range.end <= (
        #[trigger] children[j]).range.start
}

/// `parent` split around `children`: the children unchanged and in their
/// order, with the non-empty pieces of `parent` that lie before, between and
/// behind them.
pub open spec fn split_around(parent: HighlightedRange, children: Frame) -> Frame
    decreases children.len(),
{
    if children.len() == 0 {
        unless_empty(parent)
    } else {
        let child = children[0];
        unless_empty(parent.over(parent.range.start, child.range.start)).push(child)
            + split_around(parent.over(child.range.end, parent.range.end), children.drop_first())
    }
}

/// Whether the last range of `prev` is to be split around `children`: it is
/// where that range encloses the first child.
pub open spec fn needs_flattening(prev: Frame, children: Frame) -> bool {
    children.len() > 0 && prev.len() > 0 && prev.last().range.encloses(children[0].range)
}

/// Whether `children` can be merged into `prev`.
pub open spec fn mergeable(prev: Frame, children: Frame) -> bool {
    needs_flattening(prev, children) ==> splits(prev.last().range, children)
}

/// `children` merged into `prev`: appended where they are siblings of its
/// last range, and that range split around them where it encloses them.
pub open spec fn merged(prev: Frame, children: Frame) -> Frame {
    if needs_flattening(prev, children) {
        prev.drop_last() + split_around(prev.last(), children)
    } else {
        prev + children
    }
}

/// What is looked for in a frame.
#[derive(Clone, Copy, Debug)]
pub enum Probe {
    /// A range that encloses the given one.
    Enclosing(TextRange),
    /// A range that covers the given offset.
    Covering(u32),
    /// A range that starts at the given offset or behind it.
    StartingFrom(u32),
    /// A range that starts behind the given offset.
    StartingAfter(u32),
}

impl Probe {
    /// Whether `range` is what the probe looks for.
    pub open spec fn hits(self, range: TextRange) -> bool {
        match self {
            Probe::Enclosing(inner) => range.encloses(inner),
            Probe::Covering(offset) => range.covers(offset),
            Probe::StartingFrom(offset) => range.start >= offset,
            Probe::StartingAfter(offset) => range.start > offset,
        }
    }

    pub fn matches(&self, range: &TextRange) -> (b: bool)
        ensures
            b == self.hits(*range),
    {
        match self {
            Probe::Enclosing(inner) => range.contains_range(*inner),
            Probe::Covering(offset) => range.contains(*offset),
            Probe::StartingFrom(offset) => range.start() >= *offset,
            Probe::StartingAfter(offset) => range.start() > *offset,
        }
    }
}

/// The position of the first range of `frame` that `probe` hits, or the
/// frame's length where it hits none.
pub open spec fn first_hit(frame: Frame, probe: Probe) -> int
    decreases frame.len(),
{
    if frame.len() == 0 {
        0
    } else if probe.hits(frame[0].range) {
        0
    } else {
        1 + first_hit(frame.drop_first(), probe)
    }
}

/// `first_hit` is a position of the frame or its length; the probe hits the
/// range there and none before it.
pub proof fn lemma_first_hit(frame: Frame, probe: Probe)
    ensures
        0 <= first_hit(frame, probe) <= frame.len(),
        first_hit(frame, probe) < frame.len() ==> probe.hits(
            frame[first_hit(frame, probe)].range,
        ),
        forall|i: int| 0 <= i < first_hit(frame, probe) ==> !probe.hits((#[trigger] frame[i]).range),
    decreases frame.len(),
{
    if frame.len() > 0 && !probe.hits(frame[0].range) {
        let rest = frame.drop_first();
        lemma_first_hit(rest, probe);
        assert forall|i: int| 0 <= i < first_hit(frame, probe) implies !probe.hits(
            (#[trigger] frame[i]).range,
        ) by {
            if i > 0 {
                assert(frame[i] == rest[i - 1]);
            }
        }
    }
}

/// A position that the probe hits, with none hit before it, is `first_hit`.
pub proof fn lemma_first_hit_is(frame: Frame, probe: Probe, k: int)
    requires
        0 <= k <= frame.len(),
        k < frame.len() ==> probe.hits(frame[k].range),
        forall|i: int| 0 <= i < k ==> !probe.hits((#[trigger] frame[i]).range),
    ensures
        first_hit(frame, probe) == k,
    decreases frame.len(),
{
    if frame.len() > 0 && k > 0 {
        let rest = frame.drop_first();
        assert(!probe.hits(frame[0].range));
        assert forall|i: int| 0 <= i < k - 1 implies !probe.hits((#[trigger] rest[i]).range) by {
            assert(rest[i] == frame[i + 1]);
        }
        lemma_first_hit_is(rest, probe, k - 1);
    }
}

/// The position of the first range of `frame` that `probe` hits, or the
/// frame's length.
pub fn position(frame: &Vec<HighlightedRange>, probe: Probe) -> (idx: usize)
    ensures
        idx == first_hit(frame@, probe),
        idx <= frame@.len(),
{
    let mut idx: usize = 0;
    while idx < frame.len() && !probe.matches(&frame[idx].range)
        invariant
            0 <= idx <= frame@.len(),
            forall|i: int| 0 <= i < idx ==> !probe.hits((#[trigger] frame@[i]).range),
        decreases frame@.len() - idx,
    {
        idx += 1;
    }
    proof {
        lemma_first_hit_is(frame@, probe, idx as int);
    }
    idx
}

/// The starts of the frame's ranges do not decrease.
pub open spec fn sorted(frame: Frame) -> bool {
    forall|i: int, j: int|
        0 <= i < j < frame.len() ==> (#[trigger] frame[i]).range.start <= (#[trigger] frame[j]).range.start
}

/// `range` put into a sorted frame, behind the ranges that start where it
/// starts or before.
pub open spec fn insert_sorted(frame: Frame, range: HighlightedRange) -> Frame {
    frame.insert(first_hit(frame, Probe::StartingAfter(range.range.start)), range)
}

/// The frame sorted by the starts of its ranges; ranges with the same start
/// keep their order.
pub open spec fn sorted_by_start(frame: Frame) -> Frame
    decreases frame.len(),
{
    if frame.len() == 0 {
        frame
    } else {
        insert_sorted(sorted_by_start(frame.drop_last()), frame.last())
    }
}

/// `insert_sorted` keeps a sorted frame sorted, and holds what the frame
/// held, once more `range`.
pub proof fn lemma_insert_sorted(frame: Frame, range: HighlightedRange)
    requires
        sorted(frame),
    ensures
        sorted(insert_sorted(frame, range)),
        insert_sorted(frame, range).len() == frame.len() + 1,
        insert_sorted(frame, range).to_multiset() == frame.to_multiset().insert(range),
        all_wf(frame) && range.range.wf() ==> all_wf(insert_sorted(frame, range)),
{
    let probe = Probe::StartingAfter(range.range.start);
    let k = first_hit(frame, probe);
    lemma_first_hit(frame, probe);
    let res = insert_sorted(frame, range);
    assert forall|i: int, j: int| 0 <= i < j < res.len() implies (#[trigger] res[i]).range.start <= (
    #[trigger] res[j]).range.start by {
        if i < k && j > k {
            assert(res[i] == frame[i]);
            assert(res[j] == frame[j - 1]);
            if j - 1 > i {
            }
        } else if i == k {
            assert(res[j] == frame[j - 1]);
            assert(probe.hits(frame[k].range));
            if j - 1 > k {
            }
        } else if j == k {
            assert(res[i] == frame[i]);
            assert(!probe.hits(frame[i].range));
        } else if j < k {
            assert(res[i] == frame[i]);
            assert(res[j] == frame[j]);
        } else {
            assert(res[i] == frame[i - 1]);
            assert(res[j] == frame[j - 1]);
        }
    }
    vstd::seq_lib::to_multiset_insert(frame, k, range);
    if all_wf(frame) && range.range.wf() {
        assert forall|i: int| 0 <= i < res.len() implies (#[trigger] res[i]).range.wf() by {
            if i < k {
                assert(res[i] == frame[i]);
            } else if i > k {
                assert(res[i] == frame[i - 1]);
            }
        }
    }
}

/// `sorted_by_start` yields a sorted frame that holds the same ranges.
pub proof fn lemma_sorted_by_start(frame: Frame)
    ensures
        sorted(sorted_by_start(frame)),
        sorted_by_start(frame).len() == frame.len(),
        sorted_by_start(frame).to_multiset() == frame.to_multiset(),
        all_wf(frame) ==> all_wf(sorted_by_start(frame)),
    decreases frame.len(),
{
    if frame.len() > 0 {
        let init = frame.drop_last();
        lemma_sorted_by_start(init);
        if all_wf(frame) {
            assert forall|i: int| 0 <= i < init.len() implies (#[trigger] init[i]).range.wf() by {
                assert(init[i] == frame[i]);
            }
            assert(frame.last().range.wf());
        }
        lemma_insert_sorted(sorted_by_start(init), frame.last());
        vstd::seq_lib::to_multiset_build(init, frame.last());
        assert(init.push(frame.last()) =~= frame);
    }
}

/// Sorting leaves a frame that is sorted as it is.
pub proof fn lemma_sorted_by_start_of_sorted(frame: Frame)
    requires
        sorted(frame),
    ensures
        sorted_by_start(frame) == frame,
    decreases frame.len(),
{
    if frame.len() > 0 {
        let init = frame.drop_last();
        assert forall|i: int, j: int| 0 <= i < j < init.len() implies (#[trigger] init[i]).range.start
            <= (#[trigger] init[j]).range.start by {
            assert(init[i] == frame[i]);
            assert(init[j] == frame[j]);
        }
        lemma_sorted_by_start_of_sorted(init);
        let probe = Probe::StartingAfter(frame.last().range.start);
        assert forall|i: int| 0 <= i < init.len() implies !probe.hits((#[trigger] init[i]).range) by {
            assert(init[i] == frame[i]);
        }
        lemma_first_hit_is(init, probe, init.len() as int);
        assert(init.insert(init.len() as int, frame.last()) =~= frame);
    }
}

/// Sorts the frame by the starts of its ranges; ranges with the same start
/// keep their order.
pub fn sort_by_start(frame: &mut Vec<HighlightedRange>)
    ensures
        final(frame)@ == sorted_by_start(old(frame)@),
{
    let ghost frame0 = frame@;
    let mut i: usize = 0;
    assert(frame@.take(0) =~= sorted_by_start(frame0.take(0)));
    while i < frame.len()
        invariant
            0 <= i <= frame@.len(),
            frame@.len() == frame0.len(),
            frame@.take(i as int) == sorted_by_start(frame0.take(i as int)),
            frame@.skip(i as int) == frame0.skip(i as int),
        decreases frame@.len() - i,
    {
        let range = frame[i];
        let ghost before = frame@;
        let ghost head = frame@.take(i as int);
        let ghost probe = Probe::StartingAfter(range.range.start);
        assert(range == frame0[i as int]) by {
            assert(frame@.skip(i as int)[0] == frame0.skip(i as int)[0]);
        }
        proof {
            lemma_sorted_by_start(frame0.take(i as int));
        }
        let mut pos: usize = i;
        while pos > 0 && frame[pos - 1].range.start() > range.range.start()
            invariant
                0 <= pos <= i < frame@.len(),
                frame@ == before,
                head == before.take(i as int),
                probe == Probe::StartingAfter(range.range.start),
                forall|k: int| pos <= k < i ==> probe.hits((#[trigger] head[k]).range),
            decreases pos,
        {
            pos -= 1;
        }
        proof {
            assert forall|k: int| 0 <= k < pos implies !probe.hits((#[trigger] head[k]).range) by {
                assert(head[pos - 1] == before[pos - 1]);
                if k < pos - 1 {
                    assert(head[k].range.start <= head[pos - 1].range.start);
                }
            }
            lemma_first_hit_is(head, probe, pos as int);
        }
        if pos < i {
            frame.remove(i);
            frame.insert(pos, range);
        }
        i += 1;
        proof {
            let grown = frame0.take(i as int);
            assert(grown.drop_last() =~= frame0.take(i - 1));
            assert(grown.last() == range);
            assert(frame@.take(i as int) =~= head.insert(pos as int, range));
            assert(frame@.skip(i as int) =~= frame0.skip(i as int)) by {
                assert forall|k: int| 0 <= k < frame@.len() - i implies frame@.skip(i as int)[k]
                    == frame0.skip(i as int)[k] by {
                    assert(before.skip(i - 1)[k + 1] == frame0.skip(i - 1)[k + 1]);
                }
            }
        }
    }
    assert(frame@.take(i as int) =~= frame@);
    assert(frame0.take(i as int) =~= frame0);
}

/// `child` injected into `prev`.
///
/// Where a range of `prev` encloses `child`, the first such range is split
/// around it, under the replacement highlight if one is given. Else, where a
/// range covers the start of `child`, the first such range is cut off there
/// and `child` follows it; what that range held behind the cut is dropped.
/// Else `child` goes before the first range that starts where it starts or
/// behind.
pub open spec fn injected(prev: Frame, child: HighlightedRange, overwrite: Option<Highlight>) -> Frame {
    let enclosing = first_hit(prev, Probe::Enclosing(child.range));
    let covering = first_hit(prev, Probe::Covering(child.range.start));
    if enclosing < prev.len() {
        let parent = match overwrite {
            Some(highlight) => prev[enclosing].retagged(highlight),
            None => prev[enclosing],
        };
        prev.take(enclosing) + split_around(parent, seq![child]) + prev.skip(enclosing + 1)
    } else if covering < prev.len() {
        let parent = prev[covering];
        prev.take(covering) + unless_empty(
            parent.over(parent.range.start, child.range.start),
        ).push(child) + prev.skip(covering + 1)
    } else {
        prev.insert(first_hit(prev, Probe::StartingFrom(child.range.start)), child)
    }
}

/// `children` injected into `prev` one after the other.
pub open spec fn injected_all(prev: Frame, children: Frame, overwrite: Option<Highlight>) -> Frame
    decreases children.len(),
{
    if children.len() == 0 {
        prev
    } else {
        injected_all(injected(prev, children[0], overwrite), children.drop_first(), overwrite)
    }
}

/// Injecting a well-formed range into a well-formed frame leaves it so.
pub proof fn lemma_injected_wf(prev: Frame, child: HighlightedRange, overwrite: Option<Highlight>)
    requires
        all_wf(prev),
        child.range.wf(),
    ensures
        all_wf(injected(prev, child, overwrite)),
{
    let enclosing = first_hit(prev, Probe::Enclosing(child.range));
    let covering = first_hit(prev, Probe::Covering(child.range.start));
    let from = first_hit(prev, Probe::StartingFrom(child.range.start));
    lemma_first_hit(prev, Probe::Enclosing(child.range));
    lemma_first_hit(prev, Probe::Covering(child.range.start));
    lemma_first_hit(prev, Probe::StartingFrom(child.range.start));
    let res = injected(prev, child, overwrite);
    if enclosing < prev.len() {
        let parent = match overwrite {
            Some(highlight) => prev[enclosing].retagged(highlight),
            None => prev[enclosing],
        };
        let mid = split_around(parent, seq![child]);
        assert(prev[enclosing].range.wf());
        assert(seq![child].drop_first() =~= Seq::<HighlightedRange>::empty());
        let tail = parent.over(child.range.end, parent.range.end);
        assert(split_around(tail, Seq::<HighlightedRange>::empty()) == unless_empty(tail));
        assert(all_wf(mid));
        assert forall|i: int| 0 <= i < res.len() implies (#[trigger] res[i]).range.wf() by {
            if i < enclosing {
                assert(res[i] == prev[i]);
            } else if i < enclosing + mid.len() {
                assert(res[i] == mid[i - enclosing]);
            } else {
                assert(res[i] == prev[i - mid.len() + 1]);
            }
        }
    } else if covering < prev.len() {
        let parent = prev[covering];
        assert(parent.range.wf());
        let mid = unless_empty(parent.over(parent.range.start, child.range.start)).push(child);
        assert(all_wf(mid));
        assert forall|i: int| 0 <= i < res.len() implies (#[trigger] res[i]).range.wf() by {
            if i < covering {
                assert(res[i] == prev[i]);
            } else if i < covering + mid.len() {
                assert(res[i] == mid[i - covering]);
            } else {
                assert(res[i] == prev[i - mid.len() + 1]);
            }
        }
    } else {
        assert forall|i: int| 0 <= i < res.len() implies (#[trigger] res[i]).range.wf() by {
            if i < from {
                assert(res[i] == prev[i]);
            } else if i > from {
                assert(res[i] == prev[i - 1]);
            }
        }
    }
}

/// The frames with the innermost injected into the one below it, both
/// sorted first.
pub open spec fn popped_and_injected(frames: Seq<Frame>, overwrite: Option<Highlight>) -> Seq<Frame> {
    frames.drop_last().drop_last().push(
        injected_all(
            sorted_by_start(frames[frames.len() - 2]),
            sorted_by_start(frames[frames.len() - 1]),
            overwrite,
        ),
    )
}

/// Whether there is a frame to inject and one below it to take it.
pub open spec fn can_pop_and_inject(frames: Seq<Frame>) -> bool {
    frames.len() >= 2
}

/// Each range ends before or where the next one starts.
pub open spec fn adjacent_disjoint(frame: Frame) -> bool {
    forall|i: int, j: int|
        0 <= i && i + 1 == j && j < frame.len() ==> (#[trigger] frame[i]).range.end <= (
        #[trigger] frame[j]).range.start
}

/// Well-formed ranges of which each ends before the next one starts are
/// ordered and free of overlap as a whole.
pub proof fn lemma_adjacent_disjoint(frame: Frame)
    requires
        all_wf(frame),
        adjacent_disjoint(frame),
    ensures
        disjoint_sorted(frame),
        sorted(frame),
{
    assert forall|i: int, j: int| 0 <= i < j < frame.len() implies (#[trigger] frame[i]).range.end
        <= (#[trigger] frame[j]).range.start && frame[i].range.start <= frame[j].range.start by {
        lemma_adjacent_reach(frame, i, j);
    }
}

proof fn lemma_adjacent_reach(frame: Frame, i: int, j: int)
    requires
        all_wf(frame),
        adjacent_disjoint(frame),
        0 <= i < j < frame.len(),
    ensures
        frame[i].range.end <= frame[j].range.start,
        frame[i].range.start <= frame[j].range.start,
    decreases j - i,
{
    assert(frame[i].range.wf());
    if i + 1 < j {
        lemma_adjacent_reach(frame, i, j - 1);
        assert(frame[j - 1].range.end <= frame[j].range.start);
        assert(frame[j - 1].range.wf());
    } else {
        assert(frame[i].range.end <= frame[i + 1].range.start);
    }
}

/// The stack of frames that is kept during the walk of a tree, one frame for
/// each scope that is open, the innermost last.
#[derive(Debug)]
pub struct HighlightedRangeStack {
    stack: Vec<Vec<HighlightedRange>>,
}

impl View for HighlightedRangeStack {
    type V = Seq<Frame>;

    closed spec fn view(&self) -> Seq<Frame> {
        Seq::new(self.stack@.len(), |i: int| self.stack@[i]@)
    }
}

/// Every range of every frame is well formed.
pub open spec fn frames_wf(frames: Seq<Frame>) -> bool {
    forall|i: int| 0 <= i < frames.len() ==> all_wf(#[trigger] frames[i])
}

/// The frames with an empty one opened on top.
pub open spec fn pushed(frames: Seq<Frame>) -> Seq<Frame> {
    frames.push(Seq::empty())
}

/// The frames with `range` appended to the innermost.
pub open spec fn added(frames: Seq<Frame>, range: HighlightedRange) -> Seq<Frame> {
    frames.drop_last().push(frames.last().push(range))
}

/// The frames with `ranges` appended to the innermost, in their order.
pub open spec fn added_all(frames: Seq<Frame>, ranges: Frame) -> Seq<Frame> {
    frames.drop_last().push(frames.last() + ranges)
}

/// Appending range by range is appending all of them.
pub proof fn lemma_added_all_step(frames: Seq<Frame>, ranges: Frame, i: int)
    requires
        frames.len() >= 1,
        0 <= i < ranges.len(),
    ensures
        added_all(frames, ranges.take(0)) == frames,
        added(added_all(frames, ranges.take(i)), ranges[i]) == added_all(frames, ranges.take(i + 1)),
        added_all(frames, ranges.take(ranges.len() as int)) == added_all(frames, ranges),
{
    assert(frames.last() + ranges.take(0) =~= frames.last());
    assert(added_all(frames, ranges.take(0)) =~= frames);
    let before = added_all(frames, ranges.take(i));
    assert(before.drop_last() =~= frames.drop_last());
    assert((frames.last() + ranges.take(i)).push(ranges[i]) =~= frames.last() + ranges.take(i + 1));
    assert(ranges.take(ranges.len() as int) =~= ranges);
}

/// The frames with the innermost merged into the one below it.
pub open spec fn popped(frames: Seq<Frame>) -> Seq<Frame> {
    frames.drop_last().drop_last().push(
        merged(frames[frames.len() - 2], frames[frames.len() - 1]),
    )
}

/// Whether the innermost frame can be merged into the one below it.
pub open spec fn can_pop(frames: Seq<Frame>) -> bool {
    frames.len() >= 2 && mergeable(frames[frames.len() - 2], frames[frames.len() - 1])
}

impl HighlightedRangeStack {
    /// The validity of a stack: the root frame is there, and all ranges are
    /// well formed.
    pub open spec fn wf(&self) -> bool {
        self@.len() >= 1 && frames_wf(self@)
    }

    /// A stack that holds the empty root frame.
    pub fn new() -> (s: HighlightedRangeStack)
        ensures
            s.wf(),
            s@ == seq![Seq::<HighlightedRange>::empty()],
    {
        let mut stack: Vec<Vec<HighlightedRange>> = Vec::new();
        stack.push(Vec::new());
        let s = HighlightedRangeStack { stack };
        assert(s@ =~= seq![Seq::<HighlightedRange>::empty()]);
        s
    }

    /// Opens an empty frame for a scope that is entered.
    pub fn push(&mut self)
        requires
            old(self).wf(),
        ensures
            final(self).wf(),
            final(self)@ == pushed(old(self)@),
    {
        self.stack.push(Vec::new());
        assert(self@ =~= pushed(old(self)@));
    }

    /// Appends `range` to the innermost frame.
    pub fn add(&mut self, range: HighlightedRange)
        requires
            old(self).wf(),
            range.range.wf(),
        ensures
            final(self).wf(),
            final(self)@ == added(old(self)@, range),
    {
        let mut top = self.stack.pop().unwrap();
        top.push(range);
        self.stack.push(top);
        assert(self@ =~= added(old(self)@, range));
        assert forall|i: int| 0 <= i < self@.len() implies all_wf(#[trigger] self@[i]) by {
            if i < self@.len() - 1 {
                assert(self@[i] == old(self)@[i]);
            }
        }
    }

    /// Merges the innermost frame into the one below it, when the scope that
    /// it was opened for is left.
    ///
    /// Where the last range below encloses the first range of the frame, it
    /// is split around the frame's ranges: `[0, 23)` around `[16, 21)` gives
    /// `[0, 16)`, `[16, 21)`, `[21, 23)`. Otherwise the frame's ranges are
    /// appended as they are.
    pub fn pop(&mut self)
        requires
            old(self).wf(),
            can_pop(old(self)@),
        ensures
            final(self).wf(),
            final(self)@ == popped(old(self)@),
    {
        let ghost frames = self@;
        let mut children = self.stack.pop().unwrap();
        let mut prev = self.stack.pop().unwrap();
        let ghost prev0 = prev@;
        assert(prev0 == frames[frames.len() - 2]);
        assert(children@ == frames[frames.len() - 1]);
        assert(all_wf(prev0) && all_wf(children@));
        let needs_flattening = children.len() > 0 && prev.len() > 0 && prev[prev.len()
            - 1].range.contains_range(children[0].range);
        if !needs_flattening {
            prev.append(&mut children);
        } else {
            let mut parent = prev.pop().unwrap();
            let ghost parent0 = parent;
            let mut i: usize = 0;
            assert(children@.skip(0) =~= children@);
            while i < children.len()
                invariant
                    0 <= i <= children.len(),
                    all_wf(children@),
                    all_wf(prev@),
                    splits(parent0.range, children@),
                    parent0.range.wf(),
                    parent.range.wf(),
                    parent == parent0.over(parent.range.start, parent0.range.end),
                    parent.range.start == if i == 0 {
                        parent0.range.start
                    } else {
                        children@[i - 1].range.end
                    },
                    prev@ + split_around(parent, children@.skip(i as int)) == prev0.drop_last()
                        + split_around(parent0, children@),
                decreases children.len() - i,
            {
                let ele = children[i];
                let ghost rest = children@.skip(i as int);
                let ghost before = parent;
                let ghost prev_before = prev@;
                assert(rest[0] == ele);
                assert(rest.drop_first() =~= children@.skip(i + 1));
                assert(children@[i as int].range.wf());
                let cloned = Self::intersect(&mut parent, &ele);
                if !parent.range.is_empty() {
                    prev.push(parent);
                }
                prev.push(ele);
                assert(prev@ =~= prev_before + unless_empty(
                    before.over(before.range.start, ele.range.start),
                ).push(ele));
                parent = cloned;
                i += 1;
                assert(prev@ + split_around(parent, children@.skip(i as int)) =~= prev_before
                    + split_around(before, rest));
            }
            assert(children@.skip(i as int) =~= Seq::<HighlightedRange>::empty());
            let ghost prev_before = prev@;
            if !parent.range.is_empty() {
                prev.push(parent);
            }
            assert(prev@ =~= prev_before + split_around(parent, children@.skip(i as int)));
        }
        self.stack.push(prev);
        assert(self@ =~= popped(frames));
        assert forall|i: int| 0 <= i < self@.len() implies all_wf(#[trigger] self@[i]) by {
            if i < self@.len() - 1 {
                assert(self@[i] == frames[i]);
            }
        }
    }

    /// Injects the innermost frame into the one below it. Unlike `pop`, which
    /// splits the last range below only, this looks for the range to split
    /// among all of them, so that the ranges of the frame may lie anywhere.
    ///
    /// Both frames are sorted by start first. Where `overwrite_parent` is
    /// given, a range that is split takes that highlight.
    pub fn pop_and_inject(&mut self, overwrite_parent: Option<Highlight>)
        requires
            old(self).wf(),
            can_pop_and_inject(old(self)@),
        ensures
            final(self).wf(),
            final(self)@ == popped_and_injected(old(self)@, overwrite_parent),
    {
        let ghost frames = self@;
        let mut children = self.stack.pop().unwrap();
        let mut prev = self.stack.pop().unwrap();
        assert(prev@ == frames[frames.len() - 2]);
        assert(children@ == frames[frames.len() - 1]);
        assert(all_wf(prev@) && all_wf(children@));
        proof {
            lemma_sorted_by_start(prev@);
            lemma_sorted_by_start(children@);
        }
        sort_by_start(&mut children);
        sort_by_start(&mut prev);
        let ghost prev0 = prev@;
        let mut n: usize = 0;
        assert(children@.skip(0) =~= children@);
        while n < children.len()
            invariant
                0 <= n <= children.len(),
                all_wf(children@),
                all_wf(prev@),
                injected_all(prev@, children@.skip(n as int), overwrite_parent) == injected_all(
                    prev0,
                    children@,
                    overwrite_parent,
                ),
            decreases children.len() - n,
        {
            let child = children[n];
            let ghost rest = children@.skip(n as int);
            let ghost before = prev@;
            assert(rest[0] == child);
            assert(rest.drop_first() =~= children@.skip(n + 1));
            proof {
                lemma_injected_wf(before, child, overwrite_parent);
            }
            Self::inject(&mut prev, child, overwrite_parent);
            n += 1;
        }
        self.stack.push(prev);
        assert(self@ =~= popped_and_injected(frames, overwrite_parent));
        assert forall|i: int| 0 <= i < self@.len() implies all_wf(#[trigger] self@[i]) by {
            if i < self@.len() - 1 {
                assert(self@[i] == frames[i]);
            }
        }
    }

    /// Injects `child` into the frame `prev`.
    pub fn inject(
        prev: &mut Vec<HighlightedRange>,
        child: HighlightedRange,
        overwrite_parent: Option<Highlight>,
    )
        ensures
            final(prev)@ == injected(old(prev)@, child, overwrite_parent),
    {
        proof {
            lemma_first_hit(prev@, Probe::Enclosing(child.range));
            lemma_first_hit(prev@, Probe::Covering(child.range.start));
        }
        let idx = position(prev, Probe::Enclosing(child.range));
        if idx < prev.len() {
            let mut parent = prev[idx];
            if let Some(tag) = overwrite_parent {
                parent.highlight = tag;
            }
            let ghost whole = parent;
            let cloned = Self::intersect(&mut parent, &child);
            proof {
                lemma_split_around_one(whole, child);
            }
            Self::splice(prev, idx, parent, child, Some(cloned));
        } else {
            let idx = position(prev, Probe::Covering(child.range.start));
            if idx < prev.len() {
                let mut parent = prev[idx];
                assert(!Probe::Enclosing(child.range).hits(prev@[idx as int].range));
                Self::intersect_partial(&mut parent, &child);
                Self::splice(prev, idx, parent, child, None);
            } else {
                let idx = position(prev, Probe::StartingFrom(child.range.start));
                prev.insert(idx, child);
            }
        }
    }

    /// Puts `before`, `child` and `after` in the place of the range at `idx`,
    /// leaving out `before` and `after` where they are empty.
    fn splice(
        prev: &mut Vec<HighlightedRange>,
        idx: usize,
        before: HighlightedRange,
        child: HighlightedRange,
        after: Option<HighlightedRange>,
    )
        requires
            idx < old(prev)@.len(),
        ensures
            final(prev)@ == old(prev)@.take(idx as int) + (unless_empty(before).push(child)
                + match after {
                Some(rest) => unless_empty(rest),
                None => Seq::empty(),
            }) + old(prev)@.skip(idx + 1),
    {
        let ghost old_prev = prev@;
        let ghost head = old_prev.take(idx as int);
        let ghost tail = old_prev.skip(idx + 1);
        let len = prev.len();
        assert(idx < len);
        let insert_idx = if before.range.is_empty() {
            prev.remove(idx);
            idx
        } else {
            prev.set(idx, before);
            idx + 1
        };
        assert(prev@ =~= head + unless_empty(before) + tail);
        prev.insert(insert_idx, child);
        assert(prev@ =~= head + unless_empty(before).push(child) + tail);
        let len = prev.len();
        assert(insert_idx < len);
        match after {
            Some(rest) => {
                if !rest.range.is_empty() {
                    prev.insert(insert_idx + 1, rest);
                }
                assert(prev@ =~= head + (unless_empty(before).push(child) + unless_empty(rest))
                    + tail);
            },
            None => {
                assert(prev@ =~= head + (unless_empty(before).push(child)
                    + Seq::<HighlightedRange>::empty()) + tail);
            },
        }
    }

    /// The ranges of the root frame, sorted by start: the result of the walk.
    ///
    /// The walk must be over, so that only the root frame is left, and must
    /// have left no overlap in it: sorted by start, each range ends before
    /// or where the next one starts. That is so for every frame of ranges
    /// that are not empty and of which no two overlap, in whatever order
    /// they stand (`lemma_disjoint_frame_flattens`).
    pub fn flattened(self) -> (res: Vec<HighlightedRange>)
        requires
            self.wf(),
            self@.len() == 1,
            adjacent_disjoint(sorted_by_start(self@[0])),
        ensures
            res@ == sorted_by_start(self@[0]),
            res@.to_multiset() == self@[0].to_multiset(),
            all_wf(res@),
            sorted(res@),
            disjoint_sorted(res@),
    {
        proof {
            lemma_sorted_by_start(self@[0]);
        }
        self.try_flattened().unwrap()
    }

    /// Appends `ranges` to the innermost frame, in their order.
    pub fn add_all(&mut self, ranges: &Vec<HighlightedRange>)
        requires
            old(self).wf(),
            all_wf(ranges@),
        ensures
            final(self).wf(),
            final(self)@ == added_all(old(self)@, ranges@),
    {
        let ghost frames = self@;
        let mut i: usize = 0;
        proof {
            if ranges@.len() > 0 {
                lemma_added_all_step(frames, ranges@, 0);
            } else {
                assert(frames.last() + ranges@.take(0) =~= frames.last());
                assert(added_all(frames, ranges@.take(0)) =~= frames);
            }
        }
        while i < ranges.len()
            invariant
                0 <= i <= ranges@.len(),
                frames.len() >= 1,
                all_wf(ranges@),
                self.wf(),
                self@ == added_all(frames, ranges@.take(i as int)),
            decreases ranges@.len() - i,
        {
            proof {
                lemma_added_all_step(frames, ranges@, i as int);
            }
            self.add(ranges[i]);
            i += 1;
        }
        assert(ranges@.take(i as int) =~= ranges@);
    }

    /// Cuts `child` out of `parent`: `parent` becomes the part before
    /// `child`, and the part behind `child` is returned.
    pub fn intersect(parent: &mut HighlightedRange, child: &HighlightedRange) -> (rest:
        HighlightedRange)
        requires
            old(parent).range.encloses(child.range),
        ensures
            *final(parent) == old(parent).over(old(parent).range.start, child.range.start),
            rest == old(parent).over(child.range.end, old(parent).range.end),
    {
        let mut cloned = *parent;
        parent.range = TextRange::new(parent.range.start(), child.range.start());
        cloned.range = TextRange::new(child.range.end(), cloned.range.end());
        cloned
    }

    /// Cuts off `parent` where `child`, which reaches beyond it, starts.
    pub fn intersect_partial(parent: &mut HighlightedRange, child: &HighlightedRange)
        requires
            old(parent).range.start <= child.range.start,
            old(parent).range.end >= child.range.start,
            child.range.end > old(parent).range.end,
        ensures
            *final(parent) == old(parent).over(old(parent).range.start, child.range.start),
    {
        parent.range = TextRange::new(parent.range.start(), child.range.start());
    }
}


/// Entering a scope and leaving it without a range in between changes
/// nothing: the merge of an empty frame leaves the frames as they were.
pub proof fn lemma_push_then_pop(frames: Seq<Frame>)
    requires
        frames.len() >= 1,
    ensures
        can_pop(pushed(frames)),
        popped(pushed(frames)) == frames,
{
    let opened = pushed(frames);
    assert(opened[opened.len() - 1] == Seq::<HighlightedRange>::empty());
    assert(opened[opened.len() - 2] == frames.last());
    assert(merged(frames.last(), Seq::<HighlightedRange>::empty()) =~= frames.last());
    assert(opened.drop_last().drop_last() =~= frames.drop_last());
    assert(frames.drop_last().push(frames.last()) =~= frames);
}

/// A parent split around one child that lies within it: the child stays as
/// it is, and the parent's highlight is left on the piece before the child
/// and on the piece behind it, each only where it is not empty. So the merge
/// gives one, two or three ranges.
pub proof fn lemma_split_around_one(parent: HighlightedRange, child: HighlightedRange)
    requires
        parent.range.encloses(child.range),
    ensures
        splits(parent.range, seq![child]),
        split_around(parent, seq![child]) == unless_empty(
            parent.over(parent.range.start, child.range.start),
        ).push(child) + unless_empty(parent.over(child.range.end, parent.range.end)),
        merged(seq![parent], seq![child]) == split_around(parent, seq![child]),
        split_around(parent, seq![child]).len() == 1 + (if parent.range.start
            < child.range.start {
            1int
        } else {
            0int
        }) + (if child.range.end < parent.range.end {
            1int
        } else {
            0int
        }),
{
    let rest = parent.over(child.range.end, parent.range.end);
    assert(seq![child].drop_first() =~= Seq::<HighlightedRange>::empty());
    assert(split_around(rest, Seq::<HighlightedRange>::empty()) == unless_empty(rest));
    assert(seq![parent].drop_last() + split_around(parent, seq![child]) =~= split_around(
        parent,
        seq![child],
    ));
}

/// A range that comes out of a split is one of the children, or a piece of
/// the parent that is not empty and carries the parent's highlight.
pub open spec fn child_or_piece(
    range: HighlightedRange,
    parent: HighlightedRange,
    children: Frame,
) -> bool {
    ||| children.contains(range)
    ||| {
        &&& !range.range.empty()
        &&& range.range.wf()
        &&& parent.range.encloses(range.range)
        &&& range == parent.over(range.range.start, range.range.end)
    }
}

/// No piece of length zero comes out of a split, and nothing but the
/// children and pieces of the parent. The result is ordered and free of
/// overlap where the children are well formed.
pub proof fn lemma_split_around(parent: HighlightedRange, children: Frame)
    requires
        parent.range.wf(),
        splits(parent.range, children),
        all_wf(children),
    ensures
        forall|i: int|
            0 <= i < split_around(parent, children).len() ==> child_or_piece(
                #[trigger] split_around(parent, children)[i],
                parent,
                children,
            ),
        all_wf(split_around(parent, children)),
        disjoint_sorted(split_around(parent, children)),
        forall|i: int|
            0 <= i < split_around(parent, children).len() ==> parent.range.encloses(
                (#[trigger] split_around(parent, children)[i]).range,
            ),
    decreases children.len(),
{
    let res = split_around(parent, children);
    if children.len() > 0 {
        let child = children[0];
        let head = unless_empty(parent.over(parent.range.start, child.range.start)).push(child);
        let rest_parent = parent.over(child.range.end, parent.range.end);
        let rest = children.drop_first();
        assert(child.range.wf());
        assert(splits(rest_parent.range, rest)) by {
            if rest.len() > 0 {
                assert(rest[0] == children[1]);
                assert(children[0].range.end <= children[1].range.start);
            }
            assert forall|i: int| 0 <= i < rest.len() implies (#[trigger] rest[i]).range.end
                <= rest_parent.range.end by {
                assert(rest[i] == children[i + 1]);
            }
            assert forall|i: int, j: int| 0 <= i && i + 1 == j && j < rest.len() implies (
            #[trigger] rest[i]).range.end <= (#[trigger] rest[j]).range.start by {
                assert(rest[i] == children[i + 1]);
                assert(rest[j] == children[j + 1]);
            }
        }
        assert(all_wf(rest)) by {
            assert forall|i: int| 0 <= i < rest.len() implies (#[trigger] rest[i]).range.wf() by {
                assert(rest[i] == children[i + 1]);
            }
        }
        lemma_split_around(rest_parent, rest);
        let tail = split_around(rest_parent, rest);
        assert(res == head + tail);
        assert forall|i: int| 0 <= i < res.len() implies child_or_piece(
            #[trigger] res[i],
            parent,
            children,
        ) && res[i].range.wf() && parent.range.encloses(res[i].range) by {
            if i < head.len() {
                assert(res[i] == head[i]);
                if res[i] == child {
                    assert(children[0] == child);
                }
            } else {
                let x = tail[i - head.len()];
                assert(res[i] == x);
                assert(child_or_piece(x, rest_parent, rest));
                if rest.contains(x) {
                    let k = choose|k: int| 0 <= k < rest.len() && rest[k] == x;
                    assert(children[k + 1] == x);
                }
            }
        }
        assert forall|i: int, j: int| 0 <= i < j < res.len() implies (#[trigger] res[i]).range.end
            <= (#[trigger] res[j]).range.start by {
            if j < head.len() {
                assert(res[i] == head[i]);
                assert(res[j] == head[j]);
            } else if i < head.len() {
                assert(res[i] == head[i]);
                assert(res[j] == tail[j - head.len()]);
                assert(rest_parent.range.encloses(tail[j - head.len()].range));
            } else {
                assert(res[i] == tail[i - head.len()]);
                assert(res[j] == tail[j - head.len()]);
            }
        }
    }
}

/// A merge keeps the frame ordered and free of overlap: if the frame and
/// the children are so, and the children either are split into the frame's
/// last range or start behind its end, then the merged frame is so too.
pub proof fn lemma_merged_disjoint(prev: Frame, children: Frame)
    requires
        all_wf(prev),
        all_wf(children),
        disjoint_sorted(prev),
        disjoint_sorted(children),
        mergeable(prev, children),
        !needs_flattening(prev, children) && prev.len() > 0 && children.len() > 0
            ==> prev.last().range.end <= children[0].range.start,
    ensures
        all_wf(merged(prev, children)),
        disjoint_sorted(merged(prev, children)),
{
    let res = merged(prev, children);
    if needs_flattening(prev, children) {
        let parent = prev.last();
        let init = prev.drop_last();
        let pieces = split_around(parent, children);
        assert(parent.range.wf());
        lemma_split_around(parent, children);
        assert forall|i: int| 0 <= i < res.len() implies (#[trigger] res[i]).range.wf() by {
            if i < init.len() {
                assert(res[i] == prev[i]);
            } else {
                assert(res[i] == pieces[i - init.len()]);
            }
        }
        assert forall|i: int, j: int| 0 <= i < j < res.len() implies (#[trigger] res[i]).range.end
            <= (#[trigger] res[j]).range.start by {
            if j < init.len() {
                assert(res[i] == prev[i]);
                assert(res[j] == prev[j]);
            } else if i < init.len() {
                assert(res[i] == prev[i]);
                assert(res[j] == pieces[j - init.len()]);
                assert(parent.range.encloses(pieces[j - init.len()].range));
                assert(prev[i].range.end <= prev[prev.len() - 1].range.start);
            } else {
                assert(res[i] == pieces[i - init.len()]);
                assert(res[j] == pieces[j - init.len()]);
            }
        }
    } else {
        assert forall|i: int| 0 <= i < res.len() implies (#[trigger] res[i]).range.wf() by {
            if i < prev.len() {
                assert(res[i] == prev[i]);
            } else {
                assert(res[i] == children[i - prev.len()]);
            }
        }
        assert forall|i: int, j: int| 0 <= i < j < res.len() implies (#[trigger] res[i]).range.end
            <= (#[trigger] res[j]).range.start by {
            if j < prev.len() {
                assert(res[i] == prev[i]);
                assert(res[j] == prev[j]);
            } else if i < prev.len() {
                let k = j - prev.len();
                assert(res[i] == prev[i]);
                assert(res[j] == children[k]);
                assert(prev[prev.len() - 1].range.wf());
                assert(children[0].range.wf());
                if i < prev.len() - 1 {
                    assert(prev[i].range.end <= prev[prev.len() - 1].range.start);
                }
                if k > 0 {
                    assert(children[0].range.end <= children[k].range.start);
                }
            } else {
                assert(res[i] == children[i - prev.len()]);
                assert(res[j] == children[j - prev.len()]);
            }
        }
    }
}

/// Every range of the frame is well formed and not empty.
pub open spec fn solid(frame: Frame) -> bool {
    forall|i: int| 0 <= i < frame.len() ==> (#[trigger] frame[i]).range.start < frame[i].range.end
}

/// Every range of the frame lies within `span`.
pub open spec fn all_within(frame: Frame, span: TextRange) -> bool {
    forall|i: int| 0 <= i < frame.len() ==> span.encloses((#[trigger] frame[i]).range)
}

/// Whether `range` shares no offset with a range of the frame.
pub open spec fn clear_of(frame: Frame, range: TextRange) -> bool {
    forall|i: int|
        0 <= i < frame.len() ==> (#[trigger] frame[i]).range.end <= range.start || range.end
            <= frame[i].range.start
}

/// A frame stays in order where one of its ranges gives way to ranges that
/// lie within it and are in order themselves.
pub proof fn lemma_replaced_disjoint(prev: Frame, idx: int, mid: Frame)
    requires
        solid(prev),
        disjoint_sorted(prev),
        0 <= idx < prev.len(),
        solid(mid),
        disjoint_sorted(mid),
        all_within(mid, prev[idx].range),
    ensures
        solid(prev.take(idx) + mid + prev.skip(idx + 1)),
        disjoint_sorted(prev.take(idx) + mid + prev.skip(idx + 1)),
{
    let res = prev.take(idx) + mid + prev.skip(idx + 1);
    let parent = prev[idx].range;
    let at = |k: int| -> int {
        if k < idx {
            k
        } else if k < idx + mid.len() {
            idx
        } else {
            k - mid.len() + 1
        }
    };
    assert forall|k: int| 0 <= k < res.len() implies (#[trigger] res[k]).range.start
        < res[k].range.end && prev[at(k)].range.encloses(res[k].range) && 0 <= at(k)
        < prev.len() by {
        if k < idx {
            assert(res[k] == prev[k]);
        } else if k < idx + mid.len() {
            assert(res[k] == mid[k - idx]);
            assert(parent.encloses(mid[k - idx].range));
        } else {
            assert(res[k] == prev[k - mid.len() + 1]);
        }
    }
    assert forall|i: int, j: int| 0 <= i < j < res.len() implies (#[trigger] res[i]).range.end <= (
    #[trigger] res[j]).range.start by {
        assert(prev[at(i)].range.encloses(res[i].range));
        assert(prev[at(j)].range.encloses(res[j].range));
        if at(i) < at(j) {
            assert(prev[at(i)].range.end <= prev[at(j)].range.start);
        } else {
            assert(idx <= i && j < idx + mid.len());
            assert(res[i] == mid[i - idx]);
            assert(res[j] == mid[j - idx]);
        }
    }
}

/// A frame stays in order where a range that is clear of all its ranges is
/// put before the first range that starts where it starts or behind.
pub proof fn lemma_inserted_disjoint(prev: Frame, child: HighlightedRange)
    requires
        solid(prev),
        disjoint_sorted(prev),
        child.range.start < child.range.end,
        clear_of(prev, child.range),
    ensures
        solid(prev.insert(first_hit(prev, Probe::StartingFrom(child.range.start)), child)),
        disjoint_sorted(prev.insert(first_hit(prev, Probe::StartingFrom(child.range.start)), child)),
{
    let probe = Probe::StartingFrom(child.range.start);
    let from = first_hit(prev, probe);
    lemma_first_hit(prev, probe);
    let res = prev.insert(from, child);
    assert forall|i: int| 0 <= i < res.len() implies (#[trigger] res[i]).range.start
        < res[i].range.end by {
        if i < from {
            assert(res[i] == prev[i]);
        } else if i > from {
            assert(res[i] == prev[i - 1]);
        }
    }
    assert forall|i: int, j: int| 0 <= i < j < res.len() implies (#[trigger] res[i]).range.end <= (
    #[trigger] res[j]).range.start by {
        if j < from {
            assert(res[i] == prev[i]);
            assert(res[j] == prev[j]);
        } else if j == from {
            assert(res[i] == prev[i]);
            assert(!probe.hits(prev[i].range));
            assert(prev[i].range.end <= child.range.start || child.range.end
                <= prev[i].range.start);
        } else if i == from {
            assert(res[j] == prev[j - 1]);
            assert(probe.hits(prev[from].range));
            assert(prev[j - 1].range.start < prev[j - 1].range.end);
            assert(prev[from].range.start < prev[from].range.end);
            if j - 1 > from {
                assert(prev[from].range.end <= prev[j - 1].range.start);
            }
            assert(prev[j - 1].range.end <= child.range.start || child.range.end <= prev[j
                - 1].range.start);
        } else if i < from {
            assert(res[i] == prev[i]);
            assert(res[j] == prev[j - 1]);
        } else {
            assert(res[i] == prev[i - 1]);
            assert(res[j] == prev[j - 1]);
        }
    }
}

/// An injection keeps the frame ordered and free of overlap, and its ranges
/// non-empty: if the frame is so, and the child is not empty and lies
/// within a range of the frame or clear of all of them, then the frame with
/// the child injected is so too.
pub proof fn lemma_injected_disjoint(
    prev: Frame,
    child: HighlightedRange,
    overwrite: Option<Highlight>,
)
    requires
        solid(prev),
        disjoint_sorted(prev),
        child.range.start < child.range.end,
        first_hit(prev, Probe::Enclosing(child.range)) < prev.len() || clear_of(prev, child.range),
    ensures
        solid(injected(prev, child, overwrite)),
        disjoint_sorted(injected(prev, child, overwrite)),
{
    let enclosing = first_hit(prev, Probe::Enclosing(child.range));
    let covering = first_hit(prev, Probe::Covering(child.range.start));
    lemma_first_hit(prev, Probe::Enclosing(child.range));
    lemma_first_hit(prev, Probe::Covering(child.range.start));
    if enclosing < prev.len() {
        let parent = match overwrite {
            Some(highlight) => prev[enclosing].retagged(highlight),
            None => prev[enclosing],
        };
        let mid = split_around(parent, seq![child]);
        assert(prev[enclosing].range.start < prev[enclosing].range.end);
        lemma_split_around_one(parent, child);
        assert(all_wf(seq![child]));
        lemma_split_around(parent, seq![child]);
        assert forall|i: int| 0 <= i < mid.len() implies (#[trigger] mid[i]).range.start
            < mid[i].range.end by {
            assert(child_or_piece(mid[i], parent, seq![child]));
            if seq![child].contains(mid[i]) {
                let k = choose|k: int| 0 <= k < seq![child].len() && seq![child][k] == mid[i];
                assert(seq![child][k] == child);
            }
        }
        lemma_replaced_disjoint(prev, enclosing, mid);
    } else {
        assert(covering == prev.len()) by {
            if covering < prev.len() {
                assert(prev[covering].range.covers(child.range.start));
                assert(prev[covering].range.end <= child.range.start || child.range.end
                    <= prev[covering].range.start);
            }
        }
        lemma_inserted_disjoint(prev, child);
    }
}

/// Whether every range of the frame is well formed.
pub fn is_all_wf(frame: &Vec<HighlightedRange>) -> (b: bool)
    ensures
        b == all_wf(frame@),
{
    let mut i: usize = 0;
    while i < frame.len()
        invariant
            0 <= i <= frame@.len(),
            forall|k: int| 0 <= k < i ==> (#[trigger] frame@[k]).range.wf(),
        decreases frame@.len() - i,
    {
        if frame[i].range.start() > frame[i].range.end() {
            assert(!frame@[i as int].range.wf());
            return false;
        }
        i += 1;
    }
    true
}

/// Whether each range of the frame ends before or where the next starts.
pub fn is_adjacent_disjoint(frame: &Vec<HighlightedRange>) -> (b: bool)
    ensures
        b == adjacent_disjoint(frame@),
{
    let mut i: usize = 1;
    while i < frame.len()
        invariant
            1 <= i,
            forall|k: int, l: int|
                0 <= k && k + 1 == l && l < i && l < frame@.len() ==> (#[trigger] frame@[k]).range.end
                    <= (#[trigger] frame@[l]).range.start,
        decreases frame@.len() - i,
    {
        if frame[i - 1].range.end() > frame[i].range.start() {
            assert(!(frame@[i - 1].range.end <= frame@[i as int].range.start));
            return false;
        }
        i += 1;
    }
    true
}

impl HighlightedRangeStack {
    /// The number of frames.
    pub fn depth(&self) -> (n: usize)
        ensures
            n == self@.len(),
    {
        self.stack.len()
    }

    /// Whether the innermost frame can be merged into the one below it.
    pub fn can_pop(&self) -> (b: bool)
        ensures
            b == can_pop(self@),
    {
        let n = self.stack.len();
        if n < 2 {
            return false;
        }
        let prev = &self.stack[n - 2];
        let children = &self.stack[n - 1];
        assert(prev@ == self@[n - 2] && children@ == self@[n - 1]);
        if children.len() == 0 || prev.len() == 0 {
            return true;
        }
        let parent = prev[prev.len() - 1].range;
        if !parent.contains_range(children[0].range) {
            return true;
        }
        let mut i: usize = 0;
        while i < children.len()
            invariant
                0 <= i <= children@.len(),
                n == self@.len(),
                n >= 2,
                prev@ == self@[n - 2],
                children@ == self@[n - 1],
                needs_flattening(prev@, children@),
                parent == prev@.last().range,
                forall|k: int| 0 <= k < i ==> (#[trigger] children@[k]).range.end <= parent.end,
                forall|k: int, l: int|
                    0 <= k && k + 1 == l && l < i ==> (#[trigger] children@[k]).range.end <= (
                    #[trigger] children@[l]).range.start,
            decreases children@.len() - i,
        {
            if children[i].range.end() > parent.end() {
                assert(!(children@[i as int].range.end <= parent.end));
                return false;
            }
            if i > 0 && children[i - 1].range.end() > children[i].range.start() {
                assert(!(children@[i - 1].range.end <= children@[i as int].range.start));
                return false;
            }
            i += 1;
        }
        true
    }

    /// Merges the innermost frame into the one below it if that can be
    /// done, and says whether it was done.
    pub fn try_pop(&mut self) -> (ok: bool)
        requires
            old(self).wf(),
        ensures
            final(self).wf(),
            ok == can_pop(old(self)@),
            ok ==> final(self)@ == popped(old(self)@),
            !ok ==> final(self)@ == old(self)@,
    {
        if self.can_pop() {
            self.pop();
            true
        } else {
            false
        }
    }

    /// Injects the innermost frame into the one below it if there are two
    /// frames, and says whether there were.
    pub fn try_pop_and_inject(&mut self, overwrite_parent: Option<Highlight>) -> (ok: bool)
        requires
            old(self).wf(),
        ensures
            final(self).wf(),
            ok == can_pop_and_inject(old(self)@),
            ok ==> final(self)@ == popped_and_injected(old(self)@, overwrite_parent),
            !ok ==> final(self)@ == old(self)@,
    {
        if self.stack.len() < 2 {
            false
        } else {
            self.pop_and_inject(overwrite_parent);
            true
        }
    }

    /// Whether the walk is over and has left no overlap, so that the result
    /// can be handed out.
    pub open spec fn can_flatten(&self) -> bool {
        self@.len() == 1 && adjacent_disjoint(sorted_by_start(self@[0]))
    }

    /// The ranges of the root frame, sorted by start, if the walk is over
    /// and has left no overlap; nothing otherwise.
    pub fn try_flattened(self) -> (res: Option<Vec<HighlightedRange>>)
        requires
            self.wf(),
        ensures
            res is Some == self.can_flatten(),
            res matches Some(ranges) ==> {
                &&& ranges@ == sorted_by_start(self@[0])
                &&& all_wf(ranges@)
                &&& sorted(ranges@)
                &&& disjoint_sorted(ranges@)
            },
    {
        let mut stack = self.stack;
        if stack.len() != 1 {
            return None;
        }
        let mut res = stack.pop().unwrap();
        proof {
            assert(res@ == self@[0]);
            lemma_sorted_by_start(res@);
        }
        sort_by_start(&mut res);
        if !is_adjacent_disjoint(&res) {
            return None;
        }
        proof {
            lemma_adjacent_disjoint(res@);
        }
        Some(res)
    }
}

/// Whether `frame` is the frame of a scope that spans `span`, at the time
/// when the walk has come to `cursor` within it: its ranges are not empty,
/// ordered and free of overlap, and lie within `span`; and its last range
/// has started, and either has ended too or ends at `reach`.
pub open spec fn settled_to(frame: Frame, cursor: u32, span: TextRange, reach: u32) -> bool {
    &&& span.start <= cursor <= span.end
    &&& reach <= span.end
    &&& solid(frame)
    &&& disjoint_sorted(frame)
    &&& all_within(frame, span)
    &&& frame.len() > 0 ==> frame.last().range.start <= cursor && (frame.last().range.end
        <= cursor || frame.last().range.end == reach)
}

/// The last range that comes out of a split around one child or more: what
/// is left of the parent behind the last child, and that child if nothing
/// is left.
pub proof fn lemma_split_around_last(parent: HighlightedRange, children: Frame)
    requires
        children.len() > 0,
    ensures
        split_around(parent, children).len() > 0,
        split_around(parent, children).last() == if children.last().range.end
            == parent.range.end {
            children.last()
        } else {
            parent.over(children.last().range.end, parent.range.end)
        },
    decreases children.len(),
{
    let child = children[0];
    let head = unless_empty(parent.over(parent.range.start, child.range.start)).push(child);
    let rest_parent = parent.over(child.range.end, parent.range.end);
    let rest = children.drop_first();
    let tail = split_around(rest_parent, rest);
    assert(split_around(parent, children) == head + tail);
    if rest.len() > 0 {
        lemma_split_around_last(rest_parent, rest);
        assert(rest.last() == children.last());
        assert((head + tail).last() == tail.last());
    } else {
        assert(tail == unless_empty(rest_parent));
        if rest_parent.range.empty() {
            assert(head + tail =~= head);
        } else {
            assert((head + tail).last() == rest_parent);
        }
    }
}

/// The frame of a scope stays in order when the frame of a scope inside it
/// is merged into it.
///
/// Let `frame` be the frame of a scope that spans `span`, settled at
/// `cursor`, with a last range that has ended or ends at `reach`; and let
/// `children` be the ranges of a scope inside it that spans `child`, from
/// `cursor` on and either as far as `reach` or from there on: ranges that
/// are not empty, ordered and free of overlap, and within `child`. Then
/// `children` can be merged into `frame`, and the merged frame is settled
/// at the end of `child`.
pub proof fn lemma_merge_settled_to(
    frame: Frame,
    children: Frame,
    cursor: u32,
    child: TextRange,
    span: TextRange,
    reach: u32,
)
    requires
        settled_to(frame, cursor, span, reach),
        solid(children),
        disjoint_sorted(children),
        all_within(children, child),
        cursor <= child.start <= child.end <= span.end,
        child.end <= reach || reach <= child.start,
    ensures
        mergeable(frame, children),
        all_wf(merged(frame, children)),
        settled_to(merged(frame, children), child.end, span, reach),
{
    let res = merged(frame, children);
    assert(all_wf(frame)) by {
        assert forall|i: int| 0 <= i < frame.len() implies (#[trigger] frame[i]).range.wf() by {}
    }
    assert(all_wf(children)) by {
        assert forall|i: int| 0 <= i < children.len() implies (#[trigger] children[i]).range.wf() by {}
    }
    if children.len() == 0 {
        assert(res =~= frame);
    } else if frame.len() == 0 {
        assert(res =~= children);
        assert forall|i: int| 0 <= i < res.len() implies span.encloses((#[trigger] res[i]).range) by {
            assert(child.encloses(children[i].range));
        }
        assert(child.encloses(children[children.len() - 1].range));
    } else {
        let last = frame.last();
        let first = children[0];
        assert(child.encloses(first.range));
        assert(first.range.start < first.range.end);
        assert(last.range.start < last.range.end);
        assert(span.encloses(last.range));
        assert(child.encloses(children[children.len() - 1].range));
        if needs_flattening(frame, children) {
            assert(last.range.end == reach && child.end <= reach);
            assert(splits(last.range, children)) by {
                assert forall|i: int| 0 <= i < children.len() implies (#[trigger] children[i]).range.end
                    <= last.range.end by {
                    assert(child.encloses(children[i].range));
                }
            }
            lemma_merged_disjoint(frame, children);
            lemma_split_around(last, children);
            lemma_split_around_last(last, children);
            let pieces = split_around(last, children);
            let init = frame.drop_last();
            assert forall|i: int| 0 <= i < res.len() implies (#[trigger] res[i]).range.start
                < res[i].range.end && span.encloses(res[i].range) by {
                if i < init.len() {
                    assert(res[i] == frame[i]);
                } else {
                    let piece = pieces[i - init.len()];
                    assert(res[i] == piece);
                    assert(child_or_piece(piece, last, children));
                    assert(last.range.encloses(piece.range));
                    if children.contains(piece) {
                        let k = choose|k: int| 0 <= k < children.len() && children[k] == piece;
                        assert(children[k].range.start < children[k].range.end);
                    }
                }
            }
            assert(res.last() == pieces.last());
        } else {
            assert(last.range.end <= first.range.start);
            lemma_merged_disjoint(frame, children);
            assert forall|i: int| 0 <= i < res.len() implies (#[trigger] res[i]).range.start
                < res[i].range.end && span.encloses(res[i].range) by {
                if i < frame.len() {
                    assert(res[i] == frame[i]);
                } else {
                    assert(res[i] == children[i - frame.len()]);
                    assert(child.encloses(children[i - frame.len()].range));
                }
            }
            assert(res.last() == children.last());
        }
    }
}

/// A settled frame is sorted, and no two of its ranges overlap.
pub proof fn lemma_settled_is_flat(frame: Frame, cursor: u32, span: TextRange, reach: u32)
    requires
        settled_to(frame, cursor, span, reach),
    ensures
        all_wf(frame),
        sorted(frame),
        disjoint_sorted(frame),
        sorted_by_start(frame) == frame,
        adjacent_disjoint(sorted_by_start(frame)),
{
    assert forall|i: int| 0 <= i < frame.len() implies (#[trigger] frame[i]).range.wf() by {}
    assert forall|i: int, j: int| 0 <= i < j < frame.len() implies (#[trigger] frame[i]).range.start
        <= (#[trigger] frame[j]).range.start by {
        assert(frame[i].range.start < frame[i].range.end);
    }
    lemma_sorted_by_start_of_sorted(frame);
}

/// Whether each range of `children` lies within a range of `frame`.
pub open spec fn each_enclosed(frame: Frame, children: Frame) -> bool {
    forall|k: int|
        0 <= k < children.len() ==> exists|i: int|
            0 <= i < frame.len() && (#[trigger] frame[i]).range.encloses(
                (#[trigger] children[k]).range,
            )
}

/// A probe that hits a range of the frame has a first hit.
pub proof fn lemma_first_hit_exists(frame: Frame, probe: Probe, i: int)
    requires
        0 <= i < frame.len(),
        probe.hits(frame[i].range),
    ensures
        first_hit(frame, probe) <= i,
{
    lemma_first_hit(frame, probe);
}

/// Injections keep a frame in order: if the frame and the children are in
/// order, with no empty range, and each child lies within a range of the
/// frame, then the
/// frame that comes of injecting them one after the other is in order, with no empty range, and within any
/// span that the frame was within.
pub proof fn lemma_injected_all_disjoint(
    prev: Frame,
    children: Frame,
    overwrite: Option<Highlight>,
    span: TextRange,
)
    requires
        solid(prev),
        disjoint_sorted(prev),
        all_within(prev, span),
        solid(children),
        disjoint_sorted(children),
        each_enclosed(prev, children),
    ensures
        solid(injected_all(prev, children, overwrite)),
        disjoint_sorted(injected_all(prev, children, overwrite)),
        all_within(injected_all(prev, children, overwrite), span),
    decreases children.len(),
{
    if children.len() > 0 {
        let child = children[0];
        let rest = children.drop_first();
        let probe = Probe::Enclosing(child.range);
        let holder = choose|i: int|
            0 <= i < prev.len() && (#[trigger] prev[i]).range.encloses(child.range);
        lemma_first_hit_exists(prev, probe, holder);
        lemma_first_hit(prev, probe);
        let at = first_hit(prev, probe);
        lemma_injected_disjoint(prev, child, overwrite);
        let next = injected(prev, child, overwrite);
        let parent = match overwrite {
            Some(highlight) => prev[at].retagged(highlight),
            None => prev[at],
        };
        let mid = split_around(parent, seq![child]);
        lemma_split_around_one(parent, child);
        let before = unless_empty(parent.over(parent.range.start, child.range.start));
        let after = unless_empty(parent.over(child.range.end, parent.range.end));
        assert(mid == before.push(child) + after);
        assert(next == prev.take(at) + mid + prev.skip(at + 1));
        assert(span.encloses(prev[at].range));
        assert(child.range.start < child.range.end);
        assert forall|i: int| 0 <= i < next.len() implies span.encloses((#[trigger] next[i]).range) by {
            if i < at {
                assert(next[i] == prev[i]);
            } else if i < at + mid.len() {
                assert(next[i] == mid[i - at]);
                assert(parent.range.encloses(mid[i - at].range));
            } else {
                assert(next[i] == prev[i - mid.len() + 1]);
            }
        }
        assert forall|k: int| 0 <= k < rest.len() implies exists|i: int|
            0 <= i < next.len() && (#[trigger] next[i]).range.encloses(
                (#[trigger] rest[k]).range,
            ) by {
            let other = rest[k];
            assert(other == children[k + 1]);
            assert(child.range.end <= other.range.start);
            assert(other.range.start < other.range.end);
            let m = choose|m: int|
                0 <= m < prev.len() && (#[trigger] prev[m]).range.encloses(children[k + 1].range);
            if m < at {
                assert(next[m] == prev[m]);
            } else if m > at {
                assert(next[m + mid.len() - 1] == prev[m]);
            } else {
                // The child and the other range lie within the same range,
                // the other range behind the child.
                assert(child.range.end < parent.range.end);
                assert(after == seq![parent.over(child.range.end, parent.range.end)]);
                let last = at + mid.len() - 1;
                assert(next[last] == mid[mid.len() - 1]);
                assert(mid[mid.len() - 1] == parent.over(child.range.end, parent.range.end));
                assert(next[last].range.encloses(other.range));
            }
        }
        assert(solid(rest)) by {
            assert forall|k: int| 0 <= k < rest.len() implies (#[trigger] rest[k]).range.start
                < rest[k].range.end by {
                assert(rest[k] == children[k + 1]);
            }
        }
        assert(disjoint_sorted(rest)) by {
            assert forall|i: int, j: int| 0 <= i < j < rest.len() implies (
            #[trigger] rest[i]).range.end <= (#[trigger] rest[j]).range.start by {
                assert(rest[i] == children[i + 1]);
                assert(rest[j] == children[j + 1]);
            }
        }
        lemma_injected_all_disjoint(next, rest, overwrite, span);
    }
}

/// Whether `inner` lies within each of `children` that it shares an offset
/// with, so that it lies across no border of them.
pub open spec fn crosses_none(children: Frame, inner: TextRange) -> bool {
    forall|k: int|
        0 <= k < children.len() ==> (#[trigger] children[k]).range.encloses(inner) || inner.end
            <= children[k].range.start || children[k].range.end <= inner.start
}

/// A range that lies within the parent and across no border of the children
/// lies within one of the ranges that come out of the split of the parent
/// around the children.
pub proof fn lemma_split_encloses(parent: HighlightedRange, children: Frame, inner: TextRange)
    requires
        splits(parent.range, children),
        inner.start < inner.end,
        parent.range.encloses(inner),
        crosses_none(children, inner),
    ensures
        exists|i: int|
            0 <= i < split_around(parent, children).len() && (#[trigger] split_around(
                parent,
                children,
            )[i]).range.encloses(inner),
    decreases children.len(),
{
    let res = split_around(parent, children);
    if children.len() == 0 {
        assert(res == seq![parent]);
        assert(res[0].range.encloses(inner));
    } else {
        let child = children[0];
        let before = parent.over(parent.range.start, child.range.start);
        let head = unless_empty(before).push(child);
        let rest_parent = parent.over(child.range.end, parent.range.end);
        let rest = children.drop_first();
        let tail = split_around(rest_parent, rest);
        assert(res == head + tail);
        assert(child.range.encloses(inner) || inner.end <= child.range.start || child.range.end
            <= inner.start);
        if child.range.encloses(inner) {
            let at = head.len() - 1;
            assert(res[at] == child);
        } else if inner.end <= child.range.start {
            assert(head[0] == before);
            assert(res[0] == before);
            assert(res[0].range.encloses(inner));
        } else {
            assert(splits(rest_parent.range, rest)) by {
                if rest.len() > 0 {
                    assert(rest[0] == children[1]);
                    assert(children[0].range.end <= children[1].range.start);
                }
                assert forall|i: int| 0 <= i < rest.len() implies (#[trigger] rest[i]).range.end
                    <= rest_parent.range.end by {
                    assert(rest[i] == children[i + 1]);
                }
                assert forall|i: int, j: int| 0 <= i && i + 1 == j && j < rest.len() implies (
                #[trigger] rest[i]).range.end <= (#[trigger] rest[j]).range.start by {
                    assert(rest[i] == children[i + 1]);
                    assert(rest[j] == children[j + 1]);
                }
            }
            assert(crosses_none(rest, inner)) by {
                assert forall|k: int| 0 <= k < rest.len() implies (#[trigger] rest[k]).range.encloses(
                    inner,
                ) || inner.end <= rest[k].range.start || rest[k].range.end <= inner.start by {
                    assert(rest[k] == children[k + 1]);
                }
            }
            lemma_split_encloses(rest_parent, rest, inner);
            let at = choose|i: int| 0 <= i < tail.len() && (#[trigger] tail[i]).range.encloses(inner);
            assert(res[head.len() + at] == tail[at]);
        }
    }
}

/// Whether the frame holds a range that lies at `range`.
pub open spec fn holds(frame: Frame, range: TextRange) -> bool {
    exists|k: int| 0 <= k < frame.len() && (#[trigger] frame[k]).range == range
}

/// Each child is among the ranges that come out of a split.
pub proof fn lemma_split_around_holds(parent: HighlightedRange, children: Frame, k: int)
    requires
        0 <= k < children.len(),
    ensures
        holds(split_around(parent, children), children[k].range),
    decreases children.len(),
{
    let child = children[0];
    let head = unless_empty(parent.over(parent.range.start, child.range.start)).push(child);
    let rest_parent = parent.over(child.range.end, parent.range.end);
    let rest = children.drop_first();
    let tail = split_around(rest_parent, rest);
    let res = split_around(parent, children);
    assert(res == head + tail);
    if k == 0 {
        assert(res[head.len() - 1] == child);
    } else {
        lemma_split_around_holds(rest_parent, rest, k - 1);
        assert(rest[k - 1] == children[k]);
        let at = choose|at: int| 0 <= at < tail.len() && (#[trigger] tail[at]).range == rest[k
            - 1].range;
        assert(res[head.len() + at] == tail[at]);
    }
}

/// A merge keeps the children: each of them is in the merged frame.
pub proof fn lemma_merged_holds(prev: Frame, children: Frame, k: int)
    requires
        0 <= k < children.len(),
    ensures
        holds(merged(prev, children), children[k].range),
{
    let res = merged(prev, children);
    if needs_flattening(prev, children) {
        lemma_split_around_holds(prev.last(), children, k);
        let split = split_around(prev.last(), children);
        let at = choose|at: int| 0 <= at < split.len() && (#[trigger] split[at]).range
            == children[k].range;
        assert(res[prev.len() - 1 + at] == split[at]);
    } else {
        assert(res[prev.len() + k] == children[k]);
    }
}

/// A merge keeps the ranges of the frame that do not enclose the first
/// child: only a range that encloses it is split.
pub proof fn lemma_merged_keeps(prev: Frame, children: Frame, range: TextRange)
    requires
        holds(prev, range),
        children.len() > 0 ==> !range.encloses(children[0].range),
    ensures
        holds(merged(prev, children), range),
{
    let res = merged(prev, children);
    let k = choose|k: int| 0 <= k < prev.len() && (#[trigger] prev[k]).range == range;
    if needs_flattening(prev, children) {
        assert(k < prev.len() - 1);
        assert(res[k] == prev[k]);
    } else {
        assert(res[k] == prev[k]);
    }
}

/// An injection into a range that encloses the child keeps the ranges that
/// do not enclose it.
pub proof fn lemma_injected_keeps(
    prev: Frame,
    child: HighlightedRange,
    overwrite: Option<Highlight>,
    range: TextRange,
)
    requires
        first_hit(prev, Probe::Enclosing(child.range)) < prev.len(),
        holds(prev, range),
        !range.encloses(child.range),
    ensures
        holds(injected(prev, child, overwrite), range),
{
    let probe = Probe::Enclosing(child.range);
    lemma_first_hit(prev, probe);
    let at = first_hit(prev, probe);
    let parent = match overwrite {
        Some(highlight) => prev[at].retagged(highlight),
        None => prev[at],
    };
    let mid = split_around(parent, seq![child]);
    let res = injected(prev, child, overwrite);
    assert(res == prev.take(at) + mid + prev.skip(at + 1));
    let k = choose|k: int| 0 <= k < prev.len() && (#[trigger] prev[k]).range == range;
    assert(k != at);
    if k < at {
        assert(res[k] == prev[k]);
    } else {
        assert(res[k + mid.len() - 1] == prev[k]);
    }
}

/// After an injection into a range that encloses the child, each of the
/// children that follow lies within a range of the frame again.
pub proof fn lemma_injected_encloses_rest(
    prev: Frame,
    children: Frame,
    overwrite: Option<Highlight>,
)
    requires
        solid(prev),
        solid(children),
        disjoint_sorted(children),
        each_enclosed(prev, children),
        children.len() > 0,
    ensures
        first_hit(prev, Probe::Enclosing(children[0].range)) < prev.len(),
        each_enclosed(injected(prev, children[0], overwrite), children.drop_first()),
        solid(children.drop_first()),
        disjoint_sorted(children.drop_first()),
{
    let child = children[0];
    let rest = children.drop_first();
    let probe = Probe::Enclosing(child.range);
    let holder = choose|i: int|
        0 <= i < prev.len() && (#[trigger] prev[i]).range.encloses(child.range);
    lemma_first_hit_exists(prev, probe, holder);
    lemma_first_hit(prev, probe);
    let at = first_hit(prev, probe);
    let next = injected(prev, child, overwrite);
    let parent = match overwrite {
        Some(highlight) => prev[at].retagged(highlight),
        None => prev[at],
    };
    let mid = split_around(parent, seq![child]);
    lemma_split_around_one(parent, child);
    let after = unless_empty(parent.over(child.range.end, parent.range.end));
    assert(next == prev.take(at) + mid + prev.skip(at + 1));
    assert(child.range.start < child.range.end);
    assert forall|k: int| 0 <= k < rest.len() implies exists|i: int|
        0 <= i < next.len() && (#[trigger] next[i]).range.encloses((#[trigger] rest[k]).range) by {
        let other = rest[k];
        assert(other == children[k + 1]);
        assert(child.range.end <= other.range.start);
        assert(other.range.start < other.range.end);
        let m = choose|m: int|
            0 <= m < prev.len() && (#[trigger] prev[m]).range.encloses(children[k + 1].range);
        if m < at {
            assert(next[m] == prev[m]);
        } else if m > at {
            assert(next[m + mid.len() - 1] == prev[m]);
        } else {
            assert(child.range.end < parent.range.end);
            assert(after == seq![parent.over(child.range.end, parent.range.end)]);
            let last = at + mid.len() - 1;
            assert(next[last] == mid[mid.len() - 1]);
            assert(mid[mid.len() - 1] == parent.over(child.range.end, parent.range.end));
            assert(next[last].range.encloses(other.range));
        }
    }
    assert forall|k: int| 0 <= k < rest.len() implies (#[trigger] rest[k]).range.start
        < rest[k].range.end by {
        assert(rest[k] == children[k + 1]);
    }
    assert forall|i: int, j: int| 0 <= i < j < rest.len() implies (#[trigger] rest[i]).range.end <= (
    #[trigger] rest[j]).range.start by {
        assert(rest[i] == children[i + 1]);
        assert(rest[j] == children[j + 1]);
    }
}

/// An injection of a child that has ended, into a range that encloses it,
/// keeps a settled frame settled.
pub proof fn lemma_injected_settled(
    prev: Frame,
    child: HighlightedRange,
    overwrite: Option<Highlight>,
    cursor: u32,
    span: TextRange,
    reach: u32,
)
    requires
        settled_to(prev, cursor, span, reach),
        child.range.start < child.range.end,
        child.range.end <= cursor,
        first_hit(prev, Probe::Enclosing(child.range)) < prev.len(),
    ensures
        settled_to(injected(prev, child, overwrite), cursor, span, reach),
{
    let probe = Probe::Enclosing(child.range);
    lemma_first_hit(prev, probe);
    let at = first_hit(prev, probe);
    lemma_injected_disjoint(prev, child, overwrite);
    let res = injected(prev, child, overwrite);
    let parent = match overwrite {
        Some(highlight) => prev[at].retagged(highlight),
        None => prev[at],
    };
    let mid = split_around(parent, seq![child]);
    lemma_split_around_one(parent, child);
    let after = parent.over(child.range.end, parent.range.end);
    assert(res == prev.take(at) + mid + prev.skip(at + 1));
    assert(span.encloses(prev[at].range));
    assert forall|i: int| 0 <= i < res.len() implies span.encloses((#[trigger] res[i]).range) by {
        if i < at {
            assert(res[i] == prev[i]);
        } else if i < at + mid.len() {
            assert(res[i] == mid[i - at]);
            lemma_split_around(parent, seq![child]);
            assert(parent.range.encloses(mid[i - at].range));
        } else {
            assert(res[i] == prev[i - mid.len() + 1]);
        }
    }
    if at == prev.len() - 1 {
        assert(res.last() == mid.last());
        if after.range.empty() {
            assert(mid.last() == child);
        } else {
            assert(mid.last() == after);
        }
    } else {
        assert(res.last() == prev.last());
    }
}

/// Injections of children that have ended, each into a range that encloses
/// it, keep a settled frame settled.
pub proof fn lemma_injected_all_settled(
    prev: Frame,
    children: Frame,
    overwrite: Option<Highlight>,
    cursor: u32,
    span: TextRange,
    reach: u32,
)
    requires
        settled_to(prev, cursor, span, reach),
        solid(children),
        disjoint_sorted(children),
        each_enclosed(prev, children),
        forall|k: int| 0 <= k < children.len() ==> (#[trigger] children[k]).range.end <= cursor,
    ensures
        settled_to(injected_all(prev, children, overwrite), cursor, span, reach),
    decreases children.len(),
{
    if children.len() > 0 {
        lemma_injected_encloses_rest(prev, children, overwrite);
        lemma_injected_settled(prev, children[0], overwrite, cursor, span, reach);
        let rest = children.drop_first();
        assert forall|k: int| 0 <= k < rest.len() implies (#[trigger] rest[k]).range.end
            <= cursor by {
            assert(rest[k] == children[k + 1]);
        }
        lemma_injected_all_settled(
            injected(prev, children[0], overwrite),
            rest,
            overwrite,
            cursor,
            span,
            reach,
        );
    }
}

/// Injections of children, each into a range that encloses it, keep the
/// ranges that enclose none of the children.
pub proof fn lemma_injected_all_keeps(
    prev: Frame,
    children: Frame,
    overwrite: Option<Highlight>,
    range: TextRange,
)
    requires
        solid(prev),
        disjoint_sorted(prev),
        solid(children),
        disjoint_sorted(children),
        each_enclosed(prev, children),
        holds(prev, range),
        forall|k: int| 0 <= k < children.len() ==> !range.encloses((#[trigger] children[k]).range),
    ensures
        holds(injected_all(prev, children, overwrite), range),
    decreases children.len(),
{
    if children.len() > 0 {
        lemma_injected_encloses_rest(prev, children, overwrite);
        lemma_injected_keeps(prev, children[0], overwrite, range);
        lemma_injected_disjoint(prev, children[0], overwrite);
        let rest = children.drop_first();
        assert forall|k: int| 0 <= k < rest.len() implies !range.encloses(
            (#[trigger] rest[k]).range,
        ) by {
            assert(rest[k] == children[k + 1]);
        }
        lemma_injected_all_keeps(injected(prev, children[0], overwrite), rest, overwrite, range);
    }
}

/// Whether no range of `children` shares an offset with a range of `frame`.
pub open spec fn all_clear(frame: Frame, children: Frame) -> bool {
    forall|k: int| 0 <= k < children.len() ==> clear_of(frame, (#[trigger] children[k]).range)
}

/// Whether each range of `frame` lies where a range of `first` or of
/// `second` lies.
pub open spec fn drawn_from(frame: Frame, first: Frame, second: Frame) -> bool {
    forall|k: int|
        0 <= k < frame.len() ==> holds(first, (#[trigger] frame[k]).range) || holds(
            second,
            frame[k].range,
        )
}

/// Injections of children that are clear of the frame keep it in order, and
/// add nothing but the children: each goes to its place among the ranges of
/// the frame, and none is split.
pub proof fn lemma_injected_all_clear(prev: Frame, children: Frame)
    requires
        solid(prev),
        disjoint_sorted(prev),
        solid(children),
        disjoint_sorted(children),
        all_clear(prev, children),
    ensures
        solid(injected_all(prev, children, None)),
        disjoint_sorted(injected_all(prev, children, None)),
        drawn_from(injected_all(prev, children, None), prev, children),
    decreases children.len(),
{
    if children.len() == 0 {
        assert forall|k: int| 0 <= k < prev.len() implies holds(prev, (#[trigger] prev[k]).range) by {}
    } else {
        let child = children[0];
        let rest = children.drop_first();
        assert(clear_of(prev, child.range));
        assert(child.range.start < child.range.end);
        lemma_first_hit(prev, Probe::Enclosing(child.range));
        lemma_first_hit(prev, Probe::Covering(child.range.start));
        let enclosing = first_hit(prev, Probe::Enclosing(child.range));
        let covering = first_hit(prev, Probe::Covering(child.range.start));
        assert(enclosing == prev.len()) by {
            if enclosing < prev.len() {
                assert(prev[enclosing].range.start < prev[enclosing].range.end);
                assert(prev[enclosing].range.end <= child.range.start || child.range.end
                    <= prev[enclosing].range.start);
            }
        }
        assert(covering == prev.len()) by {
            if covering < prev.len() {
                assert(prev[covering].range.end <= child.range.start || child.range.end
                    <= prev[covering].range.start);
            }
        }
        lemma_injected_disjoint(prev, child, None);
        let from = first_hit(prev, Probe::StartingFrom(child.range.start));
        lemma_first_hit(prev, Probe::StartingFrom(child.range.start));
        let next = injected(prev, child, None);
        assert(next == prev.insert(from, child));
        assert forall|k: int| 0 <= k < rest.len() implies (#[trigger] rest[k]).range.start
            < rest[k].range.end by {
            assert(rest[k] == children[k + 1]);
        }
        assert forall|i: int, j: int| 0 <= i < j < rest.len() implies (
        #[trigger] rest[i]).range.end <= (#[trigger] rest[j]).range.start by {
            assert(rest[i] == children[i + 1]);
            assert(rest[j] == children[j + 1]);
        }
        assert forall|k: int| 0 <= k < rest.len() implies clear_of(
            next,
            (#[trigger] rest[k]).range,
        ) by {
            let other = rest[k];
            assert(other == children[k + 1]);
            assert(clear_of(prev, children[k + 1].range));
            assert(child.range.end <= other.range.start);
            assert forall|i: int| 0 <= i < next.len() implies (#[trigger] next[i]).range.end
                <= other.range.start || other.range.end <= next[i].range.start by {
                if i < from {
                    assert(next[i] == prev[i]);
                } else if i > from {
                    assert(next[i] == prev[i - 1]);
                }
            }
        }
        lemma_injected_all_clear(next, rest);
        let res = injected_all(prev, children, None);
        assert forall|k: int| 0 <= k < res.len() implies holds(prev, (#[trigger] res[k]).range)
            || holds(children, res[k].range) by {
            if holds(next, res[k].range) {
                let at = choose|at: int| 0 <= at < next.len() && (#[trigger] next[at]).range
                    == res[k].range;
                if at < from {
                    assert(prev[at] == next[at]);
                } else if at == from {
                    assert(children[0].range == res[k].range);
                } else {
                    assert(prev[at - 1] == next[at]);
                }
            } else {
                let at = choose|at: int| 0 <= at < rest.len() && (#[trigger] rest[at]).range
                    == res[k].range;
                assert(children[at + 1] == rest[at]);
            }
        }
    }
}

/// No two ranges of the frame overlap, wherever in it they stand.
pub open spec fn pairwise_disjoint(frame: Frame) -> bool {
    forall|i: int, j: int|
        0 <= i < frame.len() && 0 <= j < frame.len() && i != j ==> (#[trigger] frame[i]).range.end
            <= (#[trigger] frame[j]).range.start || frame[j].range.end <= frame[i].range.start
}

/// A frame whose ranges are not empty, and of which no two overlap, can be
/// flattened whatever the order of its ranges is: sorted by start it holds
/// the same ranges, each as often as before, and each ends before or where
/// the next one starts.
pub proof fn lemma_disjoint_frame_flattens(frame: Frame)
    requires
        solid(frame),
        pairwise_disjoint(frame),
    ensures
        sorted_by_start(frame).to_multiset() == frame.to_multiset(),
        solid(sorted_by_start(frame)),
        sorted(sorted_by_start(frame)),
        adjacent_disjoint(sorted_by_start(frame)),
        disjoint_sorted(sorted_by_start(frame)),
    decreases frame.len(),
{
    lemma_sorted_by_start(frame);
    if frame.len() > 0 {
        let init = frame.drop_last();
        let last = frame.last();
        assert forall|i: int| 0 <= i < init.len() implies (#[trigger] init[i]).range.start
            < init[i].range.end by {
            assert(init[i] == frame[i]);
        }
        assert forall|i: int, j: int|
            0 <= i < init.len() && 0 <= j < init.len() && i != j implies (#[trigger] init[i]).range.end
            <= (#[trigger] init[j]).range.start || init[j].range.end <= init[i].range.start by {
            assert(init[i] == frame[i]);
            assert(init[j] == frame[j]);
        }
        lemma_disjoint_frame_flattens(init);
        lemma_sorted_by_start(init);
        let before = sorted_by_start(init);
        let probe = Probe::StartingAfter(last.range.start);
        let at = first_hit(before, probe);
        lemma_first_hit(before, probe);
        let res = insert_sorted(before, last);
        assert(res == sorted_by_start(frame));
        assert forall|m: int| 0 <= m < before.len() implies (#[trigger] before[m]).range.end
            <= last.range.start || last.range.end <= before[m].range.start by {
            before.to_multiset_ensures();
            init.to_multiset_ensures();
            assert(before.contains(before[m]));
            assert(before.to_multiset().count(before[m]) > 0);
            assert(init.to_multiset().count(before[m]) > 0);
            assert(init.contains(before[m]));
            let i = choose|i: int| 0 <= i < init.len() && init[i] == before[m];
            assert(frame[i] == before[m]);
            assert(frame[frame.len() - 1] == last);
        }
        assert forall|i: int| 0 <= i < res.len() implies (#[trigger] res[i]).range.start
            < res[i].range.end by {
            if i < at {
                assert(res[i] == before[i]);
            } else if i > at {
                assert(res[i] == before[i - 1]);
            }
        }
        assert forall|i: int, j: int| 0 <= i && i + 1 == j && j < res.len() implies (
        #[trigger] res[i]).range.end <= (#[trigger] res[j]).range.start by {
            if j < at {
                assert(res[i] == before[i]);
                assert(res[j] == before[j]);
            } else if j == at {
                assert(res[i] == before[i]);
                assert(!probe.hits(before[i].range));
            } else if i == at {
                assert(res[j] == before[at]);
                assert(probe.hits(before[at].range));
            } else {
                assert(res[i] == before[i - 1]);
                assert(res[j] == before[j - 1]);
            }
        }
        assert(all_wf(res));
    }
    lemma_adjacent_disjoint(sorted_by_start(frame));
}

} // verus!
