//! The scrolling tunnel: an ordered queue of segments, oldest first, that is
//! moved left, trimmed at the front and extended at the back once per tick.

use crate::fixed::{clamp, sat_add, sat_sub, ONE};
use crate::random::RandomSource;
use crate::vector::V2;
use std::collections::VecDeque;
use vstd::prelude::*;

verus! {

/// How far the tunnel moves left in one tick: 0.001.
pub const SCROLL_SPEED: i64 = 1_000;

/// The horizontal distance from one new segment to the next: 0.2.
pub const SEGMENT_SPACING: i64 = 200_000;

/// New midpoints are drawn from `[MIDPOINT_LOW, MIDPOINT_HIGH)`: 0.2 to 0.8.
pub const MIDPOINT_LOW: i64 = 200_000;

pub const MIDPOINT_HIGH: i64 = 800_000;

/// New half-widths are drawn from `[HALF_WIDTH_LOW, HALF_WIDTH_HIGH)`: 0.1 to
/// 0.2.
pub const HALF_WIDTH_LOW: i64 = 100_000;

pub const HALF_WIDTH_HIGH: i64 = 200_000;

/// The two segments that every tunnel starts from stand at 0 and at
/// `OPENING_LENGTH` (0.4), with midpoint 0.5 and half-width 0.4.
pub const OPENING_LENGTH: i64 = 400_000;

pub const OPENING_MIDPOINT: i64 = 500_000;

pub const OPENING_HALF_WIDTH: i64 = 400_000;

/// One keyframe of the tunnel: at `center.x` the opening is centred on
/// `center.y` and reaches `half_width` up and down from there.
#[derive(Clone, Copy, Debug, PartialEq, Eq, Structural)]
pub struct TunnelSegment {
    pub center: V2,
    pub half_width: i64,
}

impl TunnelSegment {
    /// The point of the ground below the centre.
    pub open spec fn ground_point(self) -> V2 {
        self.center.minus(V2 { x: 0, y: self.half_width })
    }

    /// The point of the ceiling above the centre.
    pub open spec fn ceiling_point(self) -> V2 {
        self.center.plus(V2 { x: 0, y: self.half_width })
    }

    /// The segment one tick later: `SCROLL_SPEED` further left.
    pub open spec fn scrolled(self) -> TunnelSegment {
        TunnelSegment {
            center: V2 { x: clamp(self.center.x - SCROLL_SPEED), y: self.center.y },
            half_width: self.half_width,
        }
    }

    /// Whether the opening is not empty and lies within the unit square's
    /// height.
    pub open spec fn in_bounds(self) -> bool {
        &&& self.half_width > 0
        &&& 0 <= self.center.y - self.half_width
        &&& self.center.y + self.half_width <= ONE
    }

    /// Whether midpoint and half-width lie in the ranges that new segments are
    /// drawn from.
    pub open spec fn in_drawn_ranges(self) -> bool {
        &&& MIDPOINT_LOW <= self.center.y < MIDPOINT_HIGH
        &&& HALF_WIDTH_LOW <= self.half_width < HALF_WIDTH_HIGH
    }

    /// The segment at `x` with the given midpoint and half-width.
    pub fn new(x: i64, midpoint: i64, half_width: i64) -> (s: TunnelSegment)
        ensures
            s == (TunnelSegment { center: V2 { x, y: midpoint }, half_width }),
    {
        TunnelSegment { center: V2::new(x, midpoint), half_width }
    }

    /// The point of the ground below the centre.
    pub fn ground(&self) -> (p: V2)
        ensures
            p == self.ground_point(),
    {
        self.center - V2::new(0, self.half_width)
    }

    /// The point of the ceiling above the centre.
    pub fn ceiling(&self) -> (p: V2)
        ensures
            p == self.ceiling_point(),
    {
        self.center + V2::new(0, self.half_width)
    }
}

/// Every segment moved one tick to the left.
pub open spec fn scrolled(s: Seq<TunnelSegment>) -> Seq<TunnelSegment> {
    Seq::new(s.len(), |i: int| s[i].scrolled())
}

/// The queue without the segments that have left the screen: the oldest
/// segment goes for as long as its successor is left of 0, so that one segment
/// at most stays off-screen at the front.
pub open spec fn evicted(s: Seq<TunnelSegment>) -> Seq<TunnelSegment>
    decreases s.len(),
{
    if s.len() >= 2 && s[1].center.x < 0 {
        evicted(s.drop_first())
    } else {
        s
    }
}

/// Whether the queue reaches the right edge of the screen.
pub open spec fn reaches_edge(s: Seq<TunnelSegment>) -> bool {
    s.len() > 0 && s.last().center.x >= ONE
}

/// Where the next segment goes: at 0 in an empty queue, else
/// `SEGMENT_SPACING` right of the newest.
pub open spec fn next_x(s: Seq<TunnelSegment>) -> i64 {
    if s.len() == 0 {
        0
    } else {
        clamp(s.last().center.x + SEGMENT_SPACING)
    }
}

/// Whether `s[i]` is what extending `s[..i]` by one segment may give: the
/// queue did not reach the edge yet, the segment stands at the next place, and
/// its midpoint and half-width lie in the ranges they are drawn from.
pub open spec fn appended_at(s: Seq<TunnelSegment>, i: int) -> bool {
    &&& !reaches_edge(s.subrange(0, i))
    &&& s[i].center.x == next_x(s.subrange(0, i))
    &&& s[i].in_drawn_ranges()
}

/// Whether `after` is `before` extended to the right edge: `before` is kept
/// as it is, segments are appended only while the edge is not reached, and
/// `after` reaches it. This fixes how many segments are appended and where;
/// only their midpoints and half-widths are free within their ranges.
pub open spec fn extension(before: Seq<TunnelSegment>, after: Seq<TunnelSegment>) -> bool {
    &&& before.is_prefix_of(after)
    &&& forall|i: int| before.len() <= i < after.len() ==> #[trigger] appended_at(after, i)
    &&& reaches_edge(after)
}

/// Whether `after` is what one tick may make of `before`: scrolled, trimmed
/// at the front, extended at the back.
pub open spec fn tube_moved(before: Seq<TunnelSegment>, after: Seq<TunnelSegment>) -> bool {
    extension(evicted(scrolled(before)), after)
}

/// How far the newest segment is from the right edge: 0 once the edge is
/// reached, and more than any such distance for an empty queue.
pub open spec fn distance_to_edge(s: Seq<TunnelSegment>) -> int {
    if s.len() == 0 {
        ONE + 0x8000_0000_0000_0001
    } else if s.last().center.x >= ONE {
        0
    } else {
        ONE - s.last().center.x
    }
}

/// The horizontal distance from segment `i` to its successor.
pub open spec fn gap(s: Seq<TunnelSegment>, i: int) -> int {
    s[i + 1].center.x - s[i].center.x
}

/// Whether each segment stands at least `SEGMENT_SPACING` and at most twice
/// that right of the one before it.
pub open spec fn spaced(s: Seq<TunnelSegment>) -> bool {
    forall|i: int|
        0 <= i < s.len() - 1 ==> SEGMENT_SPACING <= #[trigger] gap(s, i) <= 2 * SEGMENT_SPACING
}

/// Whether the horizontal positions grow strictly along the queue: no segment
/// occurs twice and none is out of order.
pub open spec fn strictly_increasing(s: Seq<TunnelSegment>) -> bool {
    forall|i: int, j: int| 0 <= i < j < s.len() ==> s[i].center.x < s[j].center.x
}

/// What holds of the tunnel between the steps of a tick: at least two
/// segments, regularly spaced, each opening within bounds, exactly one segment
/// left of 0, and the newest less than one spacing beyond the right edge.
pub open spec fn shaped(s: Seq<TunnelSegment>) -> bool {
    &&& s.len() >= 2
    &&& spaced(s)
    &&& forall|i: int| 0 <= i < s.len() ==> (#[trigger] s[i]).in_bounds()
    &&& s[0].center.x < 0 <= s[1].center.x
    &&& s.last().center.x < ONE + SEGMENT_SPACING
}

/// What holds of the tunnel after every tick: it is shaped and spans the
/// screen, from left of 0 to the right edge or beyond.
pub open spec fn well_formed(s: Seq<TunnelSegment>) -> bool {
    shaped(s) && reaches_edge(s)
}

/// Whether two queues agree in the midpoint and half-width of every segment
/// that both have.
pub open spec fn same_heights(a: Seq<TunnelSegment>, b: Seq<TunnelSegment>) -> bool {
    forall|i: int|
        0 <= i < a.len() && i < b.len() ==> (#[trigger] a[i]).center.y == b[i].center.y
            && a[i].half_width == b[i].half_width
}

/// Whether `states` is the history of a tunnel: the first state is what the
/// first tick makes of the opening, and each later one is what a tick makes of
/// the state before it.
pub open spec fn is_history(states: Seq<Seq<TunnelSegment>>) -> bool {
    &&& states.len() > 0
    &&& tube_moved(opening(), states[0])
    &&& forall|k: int| 0 < k < states.len() ==> tube_moved(states[k - 1], #[trigger] states[k])
}

/// The values that a stretch of segments takes from the random source when
/// it is appended: for each segment in order its midpoint and then its
/// half-width.
pub open spec fn heights(s: Seq<TunnelSegment>) -> Seq<i64>
    decreases s.len(),
{
    if s.len() == 0 {
        Seq::empty()
    } else {
        heights(s.drop_last()).push(s.last().center.y).push(s.last().half_width)
    }
}

/// The segments that a tick has appended: what stands in `after` behind the
/// segments that the tick kept of `before`.
pub open spec fn appended_by_tick(
    before: Seq<TunnelSegment>,
    after: Seq<TunnelSegment>,
) -> Seq<TunnelSegment> {
    after.skip(evicted(scrolled(before)).len() as int)
}

/// The two segments that every tunnel starts from.
pub open spec fn opening() -> Seq<TunnelSegment> {
    seq![
        TunnelSegment { center: V2 { x: 0, y: OPENING_MIDPOINT }, half_width: OPENING_HALF_WIDTH },
        TunnelSegment {
            center: V2 { x: OPENING_LENGTH, y: OPENING_MIDPOINT },
            half_width: OPENING_HALF_WIDTH,
        },
    ]
}

/// The ground as a polyline, one point per segment.
pub open spec fn ground_line(s: Seq<TunnelSegment>) -> Seq<V2> {
    Seq::new(s.len(), |i: int| s[i].ground_point())
}

/// The ceiling as a polyline, one point per segment.
pub open spec fn ceiling_line(s: Seq<TunnelSegment>) -> Seq<V2> {
    Seq::new(s.len(), |i: int| s[i].ceiling_point())
}

/// The tunnel: its segments in order, oldest (leftmost) first.
#[derive(Clone, Debug, PartialEq, Eq)]
pub struct Tunnel {
    pub segments: VecDeque<TunnelSegment>,
}

impl View for Tunnel {
    type V = Seq<TunnelSegment>;

    open spec fn view(&self) -> Seq<TunnelSegment> {
        self.segments@
    }
}

impl Tunnel {
    /// The tunnel that holds the given segments, in their order.
    pub fn from_segments(segments: &Vec<TunnelSegment>) -> (t: Tunnel)
        ensures
            t@ == segments@,
    {
        let mut queue: VecDeque<TunnelSegment> = VecDeque::new();
        let mut i: usize = 0;
        while i < segments.len()
            invariant
                i <= segments.len(),
                queue@ == segments@.subrange(0, i as int),
            decreases segments.len() - i,
        {
            queue.push_back(segments[i]);
            i += 1;
        }
        Tunnel { segments: queue }
    }

    /// The number of segments.
    pub fn len(&self) -> (n: usize)
        ensures
            n == self@.len(),
    {
        self.segments.len()
    }

    /// Whether the newest segment stands at or beyond the right edge.
    pub fn reaches_edge(&self) -> (r: bool)
        ensures
            r == reaches_edge(self@),
    {
        let n: usize = self.segments.len();
        n > 0 && self.segments[n - 1].center.x >= ONE
    }

    /// The ground as a polyline, one point per segment.
    pub fn ground(&self) -> (line: Vec<V2>)
        ensures
            line@ == ground_line(self@),
    {
        let mut line: Vec<V2> = Vec::new();
        let mut i: usize = 0;
        while i < self.segments.len()
            invariant
                i <= self.segments@.len(),
                line@ == ground_line(self@).subrange(0, i as int),
            decreases self.segments@.len() - i,
        {
            let segment: TunnelSegment = self.segments[i];
            line.push(segment.ground());
            i += 1;
        }
        line
    }

    /// The ceiling as a polyline, one point per segment.
    pub fn ceiling(&self) -> (line: Vec<V2>)
        ensures
            line@ == ceiling_line(self@),
    {
        let mut line: Vec<V2> = Vec::new();
        let mut i: usize = 0;
        while i < self.segments.len()
            invariant
                i <= self.segments@.len(),
                line@ == ceiling_line(self@).subrange(0, i as int),
            decreases self.segments@.len() - i,
        {
            let segment: TunnelSegment = self.segments[i];
            line.push(segment.ceiling());
            i += 1;
        }
        line
    }

    /// Moves every segment `SCROLL_SPEED` to the left.
    pub fn scroll(&mut self)
        ensures
            final(self)@ == scrolled(old(self)@),
    {
        let n: usize = self.segments.len();
        let mut i: usize = 0;
        while i < n
            invariant
                i <= n,
                n == old(self)@.len(),
                self@.len() == n,
                forall|j: int| 0 <= j < n - i ==> self@[j] == old(self)@[i + j],
                forall|j: int| n - i <= j < n ==> self@[j] == old(self)@[j - (n - i)].scrolled(),
            decreases n - i,
        {
            let front: Option<TunnelSegment> = self.segments.pop_front();
            match front {
                Some(segment) => {
                    let x: i64 = sat_sub(segment.center.x, SCROLL_SPEED);
                    self.segments.push_back(
                        TunnelSegment::new(x, segment.center.y, segment.half_width),
                    );
                },
                None => {},
            }
            i += 1;
        }
    }

    /// Drops the oldest segment for as long as its successor is left of 0.
    pub fn evict(&mut self)
        ensures
            final(self)@ == evicted(old(self)@),
    {
        while self.segments.len() >= 2 && self.segments[1].center.x < 0
            invariant
                evicted(self@) == evicted(old(self)@),
            decreases self@.len(),
        {
            self.segments.pop_front();
        }
    }

    /// Appends the segment with the given midpoint and half-width at the next
    /// place: at 0 in an empty tunnel, else `SEGMENT_SPACING` right of the
    /// newest segment.
    pub fn push_next(&mut self, midpoint: i64, half_width: i64)
        ensures
            final(self)@ == old(self)@.push(
                TunnelSegment { center: V2 { x: next_x(old(self)@), y: midpoint }, half_width },
            ),
    {
        let n: usize = self.segments.len();
        let x: i64 = if n == 0 {
            0
        } else {
            sat_add(self.segments[n - 1].center.x, SEGMENT_SPACING)
        };
        self.segments.push_back(TunnelSegment::new(x, midpoint, half_width));
    }

    /// Appends segments until the tunnel reaches the right edge, each at the
    /// next place, with a midpoint drawn from `[MIDPOINT_LOW, MIDPOINT_HIGH)`
    /// and then a half-width drawn from `[HALF_WIDTH_LOW, HALF_WIDTH_HIGH)`.
    /// The source hands out these values and no others; where the tunnel
    /// reaches the edge already, the source stays as it was.
    pub fn extend(&mut self, rng: &mut RandomSource)
        ensures
            extension(old(self)@, final(self)@),
            final(rng).drawn() == old(rng).drawn() + heights(
                final(self)@.skip(old(self)@.len() as int),
            ),
            reaches_edge(old(self)@) ==> *final(rng) == *old(rng),
    {
        let ghost start = self@.len() as int;
        assert(self@.skip(start) =~= Seq::<TunnelSegment>::empty());
        assert(rng.drawn() =~= rng.drawn() + heights(self@.skip(start)));
        while !self.reaches_edge()
            invariant
                start == old(self)@.len(),
                old(self)@.is_prefix_of(self@),
                forall|i: int| start <= i < self@.len() ==> #[trigger] appended_at(self@, i),
                rng.drawn() == old(rng).drawn() + heights(self@.skip(start)),
                reaches_edge(old(self)@) ==> *rng == *old(rng),
            decreases distance_to_edge(self@),
        {
            let ghost before = self@;
            let ghost record = rng.drawn();
            assert(!reaches_edge(old(self)@)) by {
                if before.len() == start {
                    assert(before =~= old(self)@);
                }
            }
            let midpoint: i64 = rng.uniform(MIDPOINT_LOW, MIDPOINT_HIGH);
            let half_width: i64 = rng.uniform(HALF_WIDTH_LOW, HALF_WIDTH_HIGH);
            self.push_next(midpoint, half_width);
            proof {
                assert forall|i: int| start <= i < self@.len() implies #[trigger] appended_at(
                    self@,
                    i,
                ) by {
                    if i < before.len() {
                        assert(appended_at(before, i));
                    }
                }
                let tail = self@.skip(start);
                assert(tail.drop_last() =~= before.skip(start));
                assert(rng.drawn() =~= old(rng).drawn() + heights(tail));
            }
        }
    }

    /// A new tunnel: the opening, put through its first tick, which appends
    /// four segments and so takes eight values from the source.
    pub fn initialize(rng: &mut RandomSource) -> (tube: Tunnel)
        ensures
            tube_moved(opening(), tube@),
            well_formed(tube@),
            tube@.len() == 6,
            final(rng).drawn() == old(rng).drawn() + heights(tube@.skip(2)),
    {
        let mut segments: VecDeque<TunnelSegment> = VecDeque::new();
        segments.push_back(TunnelSegment::new(0, OPENING_MIDPOINT, OPENING_HALF_WIDTH));
        segments.push_back(
            TunnelSegment::new(OPENING_LENGTH, OPENING_MIDPOINT, OPENING_HALF_WIDTH),
        );
        let mut tube = Tunnel { segments };
        move_tube(&mut tube, rng);
        proof {
            lemma_first_tick_well_formed(tube@);
            lemma_first_tick_length(tube@);
        }
        tube
    }
}

/// One tick of the tunnel: every segment moves `SCROLL_SPEED` to the left, the
/// segments that have left the screen are dropped, and new ones are appended
/// until the tunnel reaches the right edge again. The source hands out the
/// heights of the appended segments and nothing else; where nothing is
/// appended, it stays as it was.
pub fn move_tube(tube: &mut Tunnel, rng: &mut RandomSource)
    ensures
        tube_moved(old(tube)@, final(tube)@),
        well_formed(old(tube)@) ==> well_formed(final(tube)@),
        final(rng).drawn() == old(rng).drawn() + heights(
            appended_by_tick(old(tube)@, final(tube)@),
        ),
        reaches_edge(evicted(scrolled(old(tube)@))) ==> *final(rng) == *old(rng),
{
    tube.scroll();
    tube.evict();
    tube.extend(rng);
    proof {
        if well_formed(old(tube)@) {
            lemma_tick_keeps_well_formed(old(tube)@, tube@);
        }
    }
}

/// What `evicted` keeps is the end of the queue from the first segment on
/// whose successor is not left of 0: every segment dropped had a successor
/// left of 0, the second segment kept (if there is one) is not left of 0, and
/// a queue that is not empty keeps at least its newest segment.
pub proof fn lemma_evicted_trims(s: Seq<TunnelSegment>)
    ensures
        evicted(s).len() <= s.len(),
        evicted(s) == s.skip(s.len() - evicted(s).len()),
        forall|j: int| 0 < j <= s.len() - evicted(s).len() ==> (#[trigger] s[j]).center.x < 0,
        evicted(s).len() >= 2 ==> evicted(s)[1].center.x >= 0,
        s.len() > 0 ==> evicted(s).len() > 0,
    decreases s.len(),
{
    if s.len() >= 2 && s[1].center.x < 0 {
        let u = s.drop_first();
        lemma_evicted_trims(u);
        let dropped = u.len() - evicted(u).len();
        assert(u.skip(dropped) =~= s.skip(dropped + 1));
        assert forall|j: int| 0 < j <= dropped + 1 implies (#[trigger] s[j]).center.x < 0 by {
            if j > 1 {
                assert(s[j] == u[j - 1]);
            }
        }
    } else {
        assert(s.skip(0) =~= s);
    }
}

/// A tick leaves at least two segments in any tunnel that had two, and the
/// newest of them at the right edge or beyond.
pub proof fn lemma_tick_keeps_two(before: Seq<TunnelSegment>, after: Seq<TunnelSegment>)
    requires
        before.len() >= 2,
        tube_moved(before, after),
    ensures
        after.len() >= 2,
        after.last().center.x >= ONE,
{
    let kept = evicted(scrolled(before));
    lemma_evicted_trims(scrolled(before));
    if kept.len() == 1 {
        let last = scrolled(before).len() - 1;
        assert(scrolled(before)[last].center.x < 0);
        assert(kept[0] == scrolled(before)[last]);
        assert(after.subrange(0, 1) =~= kept);
    }
}

/// In a spaced queue each segment stands at least `SEGMENT_SPACING` further
/// right for every place it is further back.
pub proof fn lemma_spaced_increasing(s: Seq<TunnelSegment>, i: int, j: int)
    requires
        spaced(s),
        0 <= i <= j < s.len(),
    ensures
        s[j].center.x - s[i].center.x >= (j - i) * SEGMENT_SPACING,
    decreases j - i,
{
    if i < j {
        lemma_spaced_increasing(s, i, j - 1);
        assert(gap(s, j - 1) >= SEGMENT_SPACING);
    }
}

/// A well-formed tunnel has at least two segments, reaches the right edge,
/// and holds no segment twice or out of order.
pub proof fn lemma_well_formed_ordered(s: Seq<TunnelSegment>)
    requires
        well_formed(s),
    ensures
        s.len() >= 2,
        s.last().center.x >= ONE,
        strictly_increasing(s),
{
    assert forall|i: int, j: int| 0 <= i < j < s.len() implies s[i].center.x < s[j].center.x by {
        lemma_spaced_increasing(s, i, j);
    }
}

/// Extending a shaped tunnel to the right edge makes it well-formed.
pub proof fn lemma_extension_well_formed(before: Seq<TunnelSegment>, after: Seq<TunnelSegment>)
    requires
        shaped(before),
        extension(before, after),
    ensures
        well_formed(after),
{
    let n = before.len() as int;
    assert forall|i: int| n <= i < after.len() implies (#[trigger] after[i]).in_bounds() && gap(
        after,
        i - 1,
    ) == SEGMENT_SPACING && after[i].center.x < ONE + SEGMENT_SPACING by {
        assert(appended_at(after, i));
    }
    assert forall|i: int| 0 <= i < after.len() implies (#[trigger] after[i]).in_bounds() by {
        if i < n {
            assert(after[i] == before[i]);
        }
    }
    assert forall|i: int| 0 <= i < after.len() - 1 implies SEGMENT_SPACING <= #[trigger] gap(
        after,
        i,
    ) <= 2 * SEGMENT_SPACING by {
        if i + 1 < n {
            assert(gap(after, i) == gap(before, i));
        }
    }
}

/// Scrolling a well-formed tunnel and dropping what has left the screen
/// leaves it shaped, and at most one segment is dropped.
pub proof fn lemma_scroll_evict_shaped(s: Seq<TunnelSegment>)
    requires
        well_formed(s),
    ensures
        shaped(evicted(scrolled(s))),
        evicted(scrolled(s)) == scrolled(s) || evicted(scrolled(s)) == scrolled(s).drop_first(),
{
    let t = scrolled(s);
    assert(gap(s, 0) <= 2 * SEGMENT_SPACING);
    assert forall|i: int| 0 <= i < s.len() implies (#[trigger] t[i]).center.x == s[i].center.x
        - SCROLL_SPEED by {
        if i >= 1 {
            lemma_spaced_increasing(s, 1, i);
        }
    }
    assert forall|i: int| 0 <= i < t.len() - 1 implies SEGMENT_SPACING <= #[trigger] gap(t, i) <= 2
        * SEGMENT_SPACING by {
        assert(gap(t, i) == gap(s, i));
    }
    assert forall|i: int| 0 <= i < t.len() implies (#[trigger] t[i]).in_bounds() by {
    }
    if t[1].center.x < 0 {
        let u = t.drop_first();
        assert(gap(t, 1) >= SEGMENT_SPACING);
        assert forall|i: int| 0 <= i < u.len() - 1 implies SEGMENT_SPACING <= #[trigger] gap(u, i)
            <= 2 * SEGMENT_SPACING by {
            assert(gap(u, i) == gap(t, i + 1));
        }
        assert forall|i: int| 0 <= i < u.len() implies (#[trigger] u[i]).in_bounds() by {
        }
        assert(evicted(u) == u);
    }
}

/// A tick keeps a well-formed tunnel well-formed.
pub proof fn lemma_tick_keeps_well_formed(before: Seq<TunnelSegment>, after: Seq<TunnelSegment>)
    requires
        well_formed(before),
        tube_moved(before, after),
    ensures
        well_formed(after),
{
    lemma_scroll_evict_shaped(before);
    lemma_extension_well_formed(evicted(scrolled(before)), after);
}

/// The first tick makes a well-formed tunnel of the opening.
pub proof fn lemma_first_tick_well_formed(after: Seq<TunnelSegment>)
    requires
        tube_moved(opening(), after),
    ensures
        well_formed(after),
{
    lemma_extension_well_formed(scrolled(opening()), after);
}

/// The first tick appends four segments to the two of the opening.
pub proof fn lemma_first_tick_length(after: Seq<TunnelSegment>)
    requires
        tube_moved(opening(), after),
    ensures
        after.len() == 6,
{
    let t = scrolled(opening());
    assert(evicted(t) == t);
    assert(t[1].center.x == OPENING_LENGTH - SCROLL_SPEED);
    assert(after[0] == t[0] && after[1] == t[1]);
    lemma_appended_follows(after, 2);
    lemma_appended_follows(after, 3);
    lemma_appended_follows(after, 4);
    lemma_appended_follows(after, 5);
    if after.len() > 6 {
        assert(appended_at(after, 6));
        assert(after.subrange(0, 6).last() == after[5]);
    }
}

/// An appended segment stands `SEGMENT_SPACING` right of the one before it,
/// which does not reach the edge; and where the queue ends below the edge
/// before place `i`, it goes on to that place.
proof fn lemma_appended_follows(after: Seq<TunnelSegment>, i: int)
    requires
        i >= 2,
        i <= after.len(),
        reaches_edge(after),
        forall|j: int| 2 <= j < after.len() ==> #[trigger] appended_at(after, j),
        after[i - 1].center.x < ONE,
    ensures
        i < after.len(),
        after[i].center.x == after[i - 1].center.x + SEGMENT_SPACING,
{
    if i == after.len() {
        assert(after.last() == after[i - 1]);
    }
    assert(appended_at(after, i));
    assert(after.subrange(0, i).last() == after[i - 1]);
}

/// At every tick of a tunnel's history the tunnel is well-formed: it has at
/// least two segments, its newest segment stands at the right edge or beyond,
/// and its segments stand in strictly increasing order.
pub proof fn lemma_history_well_formed(states: Seq<Seq<TunnelSegment>>, k: int)
    requires
        is_history(states),
        0 <= k < states.len(),
    ensures
        well_formed(states[k]),
        states[k].len() >= 2,
        states[k].last().center.x >= ONE,
        strictly_increasing(states[k]),
    decreases k,
{
    if k == 0 {
        lemma_first_tick_well_formed(states[0]);
    } else {
        lemma_history_well_formed(states, k - 1);
        lemma_tick_keeps_well_formed(states[k - 1], states[k]);
    }
    lemma_well_formed_ordered(states[k]);
}

/// Two extensions of one queue that agree in the heights they drew agree up
/// to any place that both have.
proof fn lemma_extensions_agree(
    before: Seq<TunnelSegment>,
    a: Seq<TunnelSegment>,
    b: Seq<TunnelSegment>,
    i: int,
)
    requires
        extension(before, a),
        extension(before, b),
        same_heights(a, b),
        0 <= i <= a.len(),
        i <= b.len(),
    ensures
        a.subrange(0, i) == b.subrange(0, i),
    decreases i,
{
    if i > before.len() {
        lemma_extensions_agree(before, a, b, i - 1);
        assert(appended_at(a, i - 1));
        assert(appended_at(b, i - 1));
    }
}

/// Extending a queue is determined by the queue and by the heights drawn: two
/// extensions that agree in those are the same.
pub proof fn lemma_extension_determined(
    before: Seq<TunnelSegment>,
    a: Seq<TunnelSegment>,
    b: Seq<TunnelSegment>,
)
    requires
        extension(before, a),
        extension(before, b),
        same_heights(a, b),
    ensures
        a == b,
{
    let n = if a.len() <= b.len() {
        a.len() as int
    } else {
        b.len() as int
    };
    lemma_extensions_agree(before, a, b, n);
    if a.len() < b.len() {
        assert(appended_at(b, n));
    } else if b.len() < a.len() {
        assert(appended_at(a, n));
    } else {
        assert(b.subrange(0, n) =~= b);
    }
}

/// Each segment takes two values from the source: `heights` is twice as long as
/// the stretch of segments.
pub proof fn lemma_heights_len(s: Seq<TunnelSegment>)
    ensures
        heights(s).len() == 2 * s.len(),
    decreases s.len(),
{
    if s.len() > 0 {
        lemma_heights_len(s.drop_last());
    }
}

/// Of the two values that a segment takes from the source, the midpoint comes
/// first and the half-width second, and the segments take theirs in order.
pub proof fn lemma_heights_at(s: Seq<TunnelSegment>, i: int)
    requires
        0 <= i < s.len(),
    ensures
        heights(s).len() == 2 * s.len(),
        heights(s)[2 * i] == s[i].center.y,
        heights(s)[2 * i + 1] == s[i].half_width,
    decreases s.len(),
{
    lemma_heights_len(s);
    lemma_heights_len(s.drop_last());
    if i < s.len() - 1 {
        lemma_heights_at(s.drop_last(), i);
    }
}

/// A queue that reaches the right edge after scrolling keeps its newest
/// segment through the trimming and so needs no new segment: a tick of it
/// takes nothing from the source.
pub proof fn lemma_tick_without_draw(s: Seq<TunnelSegment>)
    requires
        s.len() > 0,
        s.last().center.x - SCROLL_SPEED >= ONE,
    ensures
        reaches_edge(evicted(scrolled(s))),
{
    let t = scrolled(s);
    lemma_evicted_trims(t);
    let kept = evicted(t);
    assert(kept.last() == t[t.len() - 1]);
}

/// Extending a queue is determined by the queue and by the values that the
/// source hands out: two extensions that took the same values are the same.
pub proof fn lemma_extension_determined_by_record(
    before: Seq<TunnelSegment>,
    a: Seq<TunnelSegment>,
    b: Seq<TunnelSegment>,
)
    requires
        extension(before, a),
        extension(before, b),
        heights(a.skip(before.len() as int)) == heights(b.skip(before.len() as int)),
    ensures
        a == b,
{
    let n = before.len() as int;
    lemma_heights_len(a.skip(n));
    lemma_heights_len(b.skip(n));
    assert forall|i: int| 0 <= i < a.len() && i < b.len() implies (#[trigger] a[i]).center.y
        == b[i].center.y && a[i].half_width == b[i].half_width by {
        if i < n {
            assert(a[i] == before[i]);
            assert(b[i] == before[i]);
        } else {
            lemma_heights_at(a.skip(n), i - n);
            lemma_heights_at(b.skip(n), i - n);
        }
    }
    lemma_extension_determined(before, a, b);
}

/// A tick of the tunnel is determined by the tunnel before it and by the
/// values that the source hands out in it: two outcomes that took the same
/// values are the same.
pub proof fn lemma_tick_determined_by_record(
    before: Seq<TunnelSegment>,
    a: Seq<TunnelSegment>,
    b: Seq<TunnelSegment>,
)
    requires
        tube_moved(before, a),
        tube_moved(before, b),
        heights(appended_by_tick(before, a)) == heights(appended_by_tick(before, b)),
    ensures
        a == b,
{
    lemma_extension_determined_by_record(evicted(scrolled(before)), a, b);
}

/// A tick of the tunnel is determined by the tunnel before it and by the
/// heights drawn in it: two outcomes that agree in those are the same.
pub proof fn lemma_tick_determined(
    before: Seq<TunnelSegment>,
    a: Seq<TunnelSegment>,
    b: Seq<TunnelSegment>,
)
    requires
        tube_moved(before, a),
        tube_moved(before, b),
        same_heights(a, b),
    ensures
        a == b,
{
    lemma_extension_determined(evicted(scrolled(before)), a, b);
}

} // verus!
