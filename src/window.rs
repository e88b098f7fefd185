use vstd::prelude::*;

verus! {

/// A chart point: its time relative to the latest reading, and the reading in watts.
pub type Point = (i64, u64);

/// Number of points shown on the live chart.
pub const WINDOW_CAPACITY: usize = 100;

/// The points of a well-formed window are ordered by relative time, consecutive,
/// and end at time 0 with the latest reading; there are at most `cap` of them.
pub open spec fn window_wf(s: Seq<Point>, cap: nat) -> bool {
    &&& 0 < cap <= i64::MAX
    &&& s.len() <= cap
    &&& forall|i: int| 0 <= i < s.len() ==> #[trigger] s[i].0 == i - (s.len() - 1)
}

/// Every point moved one unit further into the past.
pub open spec fn aged(s: Seq<Point>) -> Seq<Point> {
    Seq::new(s.len(), |i: int| ((s[i].0 - 1) as i64, s[i].1))
}

/// The window after one reading `v`: every point ages by one, the oldest leaves if
/// the window is full, and the reading is appended at time 0.
pub open spec fn next_window(s: Seq<Point>, cap: nat, v: u64) -> Seq<Point> {
    let a = aged(s);
    let kept = if s.len() == cap {
        a.drop_first()
    } else {
        a
    };
    kept.push((0, v))
}

/// The window reached from an empty one by the readings `rs`, in order.
pub open spec fn replay(cap: nat, rs: Seq<u64>) -> Seq<Point>
    decreases rs.len(),
{
    if rs.len() == 0 {
        Seq::empty()
    } else {
        next_window(replay(cap, rs.drop_last()), cap, rs.last())
    }
}

/// One step keeps the window well formed.
pub proof fn lemma_next_window_wf(s: Seq<Point>, cap: nat, v: u64)
    requires
        window_wf(s, cap),
    ensures
        window_wf(next_window(s, cap, v), cap),
        next_window(s, cap, v).len() == if s.len() == cap {
            s.len()
        } else {
            s.len() + 1
        },
{
    let t = next_window(s, cap, v);
    assert forall|i: int| 0 <= i < t.len() implies #[trigger] t[i].0 == i - (t.len() - 1) by {
        if i < t.len() - 1 {
            if s.len() == cap {
                assert(s[i + 1].0 == i + 1 - (s.len() - 1));
            } else {
                assert(s[i].0 == i - (s.len() - 1));
            }
        }
    }
}

/// Aging: after a step the new reading stands last at time 0, and each point that
/// stays sits one unit further back than it did, its reading unchanged; the points
/// keep their order.
pub proof fn lemma_step_ages_survivors(s: Seq<Point>, cap: nat, v: u64)
    requires
        window_wf(s, cap),
    ensures
        ({
            let t = next_window(s, cap, v);
            let off: int = if s.len() == cap {
                1
            } else {
                0
            };
            &&& t.len() == s.len() - off + 1
            &&& t.last() == (0i64, v)
            &&& forall|i: int|
                0 <= i < t.len() - 1 ==> #[trigger] t[i].0 == s[i + off].0 - 1 && t[i].1 == s[i + off].1
        }),
{
}

/// Eviction: when the window is full, the point that leaves is the first one, the
/// one with the smallest relative time; all the others stay.
pub proof fn lemma_full_window_evicts_oldest(s: Seq<Point>, cap: nat, v: u64)
    requires
        window_wf(s, cap),
        s.len() == cap,
    ensures
        next_window(s, cap, v) == aged(s.drop_first()).push((0i64, v)),
        forall|j: int| 0 < j < s.len() ==> s[0].0 < #[trigger] s[j].0,
{
    assert(s[0].0 == 0 - (s.len() - 1));
    assert(aged(s).drop_first() =~= aged(s.drop_first()));
    assert forall|j: int| 0 < j < s.len() implies s[0].0 < #[trigger] s[j].0 by {
        assert(s[j].0 == j - (s.len() - 1));
    }
}

/// Bound: from an empty window, `k` readings leave `min(k, cap)` points, so after
/// at least `cap` readings the window holds exactly `cap` points.
pub proof fn lemma_replay_bound(cap: nat, rs: Seq<u64>)
    requires
        0 < cap <= i64::MAX,
    ensures
        window_wf(replay(cap, rs), cap),
        replay(cap, rs).len() == if rs.len() < cap {
            rs.len()
        } else {
            cap
        },
        rs.len() >= cap ==> replay(cap, rs).len() == cap,
    decreases rs.len(),
{
    if rs.len() > 0 {
        lemma_replay_bound(cap, rs.drop_last());
        lemma_next_window_wf(replay(cap, rs.drop_last()), cap, rs.last());
    }
}

/// The bounded, time-ordered window of the latest readings behind the live chart.
pub struct SlidingWindow {
    points: Vec<Point>,
    capacity: usize,
}

impl View for SlidingWindow {
    type V = Seq<Point>;

    closed spec fn view(&self) -> Seq<Point> {
        self.points@
    }
}

impl SlidingWindow {
    /// The most points the window holds.
    pub closed spec fn spec_capacity(&self) -> nat {
        self.capacity as nat
    }

    pub open spec fn wf(&self) -> bool {
        window_wf(self@, self.spec_capacity())
    }

    /// An empty window of at most `capacity` points.
    pub fn new(capacity: usize) -> (r: SlidingWindow)
        requires
            0 < capacity <= i64::MAX,
        ensures
            r.wf(),
            r@ == Seq::<Point>::empty(),
            r.spec_capacity() == capacity,
    {
        SlidingWindow { points: Vec::new(), capacity }
    }

    /// Takes one reading: ages every point by one unit, evicts the oldest point if
    /// the window is full, and appends the reading at time 0.
    pub fn record(&mut self, reading: u64)
        requires
            old(self).wf(),
        ensures
            final(self).wf(),
            final(self).spec_capacity() == old(self).spec_capacity(),
            final(self)@ == next_window(old(self)@, old(self).spec_capacity(), reading),
    {
        let ghost s = self@;
        let ghost cap = self.spec_capacity();
        let n = self.points.len();
        let mut i: usize = 0;
        while i < n
            invariant
                window_wf(s, cap),
                self.capacity == cap,
                self.points@.len() == n,
                n == s.len(),
                0 <= i <= n,
                forall|j: int| 0 <= j < i ==> self.points@[j] == aged(s)[j],
                forall|j: int| i <= j < n ==> self.points@[j] == s[j],
            decreases n - i,
        {
            let p = self.points[i];
            assert(s[i as int].0 == i - (n - 1));
            self.points.set(i, (p.0 - 1, p.1));
            i = i + 1;
        }
        assert(self.points@ =~= aged(s));
        if self.points.len() == self.capacity {
            self.points.remove(0);
        }
        self.points.push((0, reading));
        proof {
            assert(self.points@ =~= next_window(s, cap, reading));
            lemma_next_window_wf(s, cap, reading);
        }
    }

    pub fn len(&self) -> (r: usize)
        ensures
            r == self@.len(),
    {
        self.points.len()
    }

    pub fn capacity(&self) -> (r: usize)
        ensures
            r == self.spec_capacity(),
    {
        self.capacity
    }

    /// The points, oldest first.
    pub fn points(&self) -> (r: Vec<Point>)
        ensures
            r@ == self@,
    {
        let mut r: Vec<Point> = Vec::new();
        let mut i: usize = 0;
        while i < self.points.len()
            invariant
                0 <= i <= self.points@.len(),
                r@ == self.points@.take(i as int),
            decreases self.points@.len() - i,
        {
            r.push(self.points[i]);
            i = i + 1;
            assert(r@ =~= self.points@.take(i as int));
        }
        assert(self.points@.take(i as int) =~= self.points@);
        r
    }
}

} // verus!
