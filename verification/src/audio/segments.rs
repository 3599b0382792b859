//! Encoded segments by presentation time.

use vstd::prelude::*;

verus! {

/// One encoded segment.
#[derive(Debug)]
pub struct SegmentRef {
    /// Presentation time of the first sample, in nanoseconds.
    pub pts_ns: i64,
    /// Duration, in nanoseconds.
    pub duration_ns: i64,
    /// Encoded payload.
    pub chunk: Vec<u8>,
    /// Whether playback can start here.
    pub seekable: bool,
    /// Whether the decoder must be reset before this segment.
    pub discontinuity: bool,
}

/// What a segment holds.
#[verifier::ext_equal]
pub struct SegmentView {
    pub pts_ns: i64,
    pub duration_ns: i64,
    pub chunk: Seq<u8>,
    pub seekable: bool,
    pub discontinuity: bool,
}

impl View for SegmentRef {
    type V = SegmentView;

    open spec fn view(&self) -> SegmentView {
        SegmentView {
            pts_ns: self.pts_ns,
            duration_ns: self.duration_ns,
            chunk: self.chunk@,
            seekable: self.seekable,
            discontinuity: self.discontinuity,
        }
    }
}

impl Clone for SegmentRef {
    fn clone(&self) -> (r: Self)
        ensures
            r@ == self@,
    {
        SegmentRef {
            pts_ns: self.pts_ns,
            duration_ns: self.duration_ns,
            chunk: crate::chunk::copy_bytes(&self.chunk),
            seekable: self.seekable,
            discontinuity: self.discontinuity,
        }
    }
}

/// The views of `segments`.
pub open spec fn segment_views(segments: Seq<SegmentRef>) -> Seq<SegmentView> {
    segments.map_values(|s: SegmentRef| s@)
}

/// Later segments play later.
pub open spec fn ascending(segments: Seq<SegmentView>) -> bool {
    forall|i: int, j: int|
        0 <= i < j < segments.len() ==> (#[trigger] segments[i]).pts_ns < (#[trigger]
        segments[j]).pts_ns
}

/// Segments by the time at which they play; of two with the same time the later one counts.
pub open spec fn by_pts(segments: Seq<SegmentView>) -> Map<i64, SegmentView>
    decreases segments.len(),
{
    if segments.len() == 0 {
        Map::empty()
    } else {
        by_pts(segments.drop_last()).insert(segments.last().pts_ns, segments.last())
    }
}

/// Whether one of the segments plays at `pts`.
pub open spec fn plays_at(segments: Seq<SegmentView>, pts: i64) -> bool {
    exists|i: int| 0 <= i < segments.len() && (#[trigger] segments[i]).pts_ns == pts
}

proof fn lemma_by_pts(segments: Seq<SegmentView>)
    requires
        ascending(segments),
    ensures
        forall|k: i64| #[trigger] by_pts(segments).contains_key(k) <==> plays_at(segments, k),
        forall|i: int|
            0 <= i < segments.len() ==> by_pts(segments)[(#[trigger] segments[i]).pts_ns]
                == segments[i],
        by_pts(segments).dom().finite(),
        by_pts(segments).dom().len() == segments.len(),
    decreases segments.len(),
{
    if segments.len() > 0 {
        let before = segments.drop_last();
        let n = segments.len() - 1;
        assert forall|i: int, j: int| 0 <= i < j < before.len() implies (#[trigger]
        before[i]).pts_ns < (#[trigger] before[j]).pts_ns by {
            assert(before[i] == segments[i] && before[j] == segments[j]);
        }
        lemma_by_pts(before);
        assert forall|k: i64| #[trigger] by_pts(segments).contains_key(k) <==> plays_at(
            segments,
            k,
        ) by {
            if plays_at(before, k) {
                let i = choose|i: int| 0 <= i < before.len() && (#[trigger] before[i]).pts_ns == k;
                assert(segments[i].pts_ns == k);
            }
            if k == segments.last().pts_ns {
                assert(segments[n].pts_ns == k);
            }
            if plays_at(segments, k) && k != segments.last().pts_ns {
                let i = choose|i: int|
                    0 <= i < segments.len() && (#[trigger] segments[i]).pts_ns == k;
                assert(before[i].pts_ns == k);
            }
        }
        assert forall|i: int| 0 <= i < segments.len() implies by_pts(
            segments,
        )[(#[trigger] segments[i]).pts_ns] == segments[i] by {
            if i < n {
                assert(before[i] == segments[i]);
                assert(segments[i].pts_ns < segments[n].pts_ns);
            }
        }
        if plays_at(before, segments.last().pts_ns) {
            let i = choose|i: int|
                0 <= i < before.len() && (#[trigger] before[i]).pts_ns == segments.last().pts_ns;
            assert(segments[i].pts_ns < segments[n].pts_ns);
        }
    }
}

/// Index of segments by presentation time.
pub struct SegmentIndex {
    segments: Vec<SegmentRef>,
}

impl View for SegmentIndex {
    type V = Map<i64, SegmentView>;

    closed spec fn view(&self) -> Map<i64, SegmentView> {
        by_pts(segment_views(self.segments@))
    }
}

impl Default for SegmentIndex {
    fn default() -> (r: Self)
        ensures
            r.wf(),
            r@ == Map::<i64, SegmentView>::empty(),
    {
        SegmentIndex { segments: Vec::new() }
    }
}

impl SegmentIndex {
    /// Segments are kept in the order in which they play, at most one for each time.
    pub closed spec fn wf(&self) -> bool {
        ascending(segment_views(self.segments@))
    }

    /// Segments are found under the times at which they play.
    pub broadcast proof fn lemma_keys(&self, k: i64)
        requires
            self.wf(),
            #[trigger] self@.contains_key(k),
        ensures
            self@[k].pts_ns == k,
    {
        let views = segment_views(self.segments@);
        lemma_by_pts(views);
        let i = choose|i: int| 0 <= i < views.len() && (#[trigger] views[i]).pts_ns == k;
        assert(views[i].pts_ns == k);
    }

    /// An empty index.
    pub fn new() -> (r: Self)
        ensures
            r.wf(),
            r@ == Map::<i64, SegmentView>::empty(),
    {
        SegmentIndex { segments: Vec::new() }
    }

    /// The position of the first segment that plays at or after `pts_ns`.
    fn lower_bound(&self, pts_ns: i64) -> (at: usize)
        requires
            self.wf(),
        ensures
            at <= self.segments@.len(),
            forall|i: int| 0 <= i < at ==> (#[trigger] self.segments@[i]).pts_ns < pts_ns,
            forall|i: int|
                at <= i < self.segments@.len() ==> (#[trigger] self.segments@[i]).pts_ns >= pts_ns,
    {
        let ghost views = segment_views(self.segments@);
        let mut low: usize = 0;
        let mut high: usize = self.segments.len();
        while low < high
            invariant
                low <= high <= self.segments@.len(),
                views == segment_views(self.segments@),
                ascending(views),
                forall|i: int| 0 <= i < low ==> (#[trigger] self.segments@[i]).pts_ns < pts_ns,
                forall|i: int|
                    high <= i < self.segments@.len() ==> (#[trigger] self.segments@[i]).pts_ns
                        >= pts_ns,
            decreases high - low,
        {
            let middle: usize = low + (high - low) / 2;
            assert(views[middle as int].pts_ns == self.segments@[middle as int].pts_ns);
            assert forall|i: int| 0 <= i < views.len() implies #[trigger] self.segments@[i].pts_ns
                == views[i].pts_ns by {}
            if self.segments[middle].pts_ns < pts_ns {
                low = middle + 1;
            } else {
                high = middle;
            }
        }
        low
    }

    /// Inserts a segment, in place of one that plays at the same time.
    pub fn insert(&mut self, seg: SegmentRef)
        requires
            old(self).wf(),
        ensures
            final(self).wf(),
            final(self)@ == old(self)@.insert(seg.pts_ns, seg@),
    {
        let ghost before = segment_views(self.segments@);
        let at: usize = self.lower_bound(seg.pts_ns);
        let ghost added = seg@;
        assert forall|i: int| 0 <= i < before.len() implies #[trigger] self.segments@[i].pts_ns
            == before[i].pts_ns by {}
        let replaces: bool = at < self.segments.len() && self.segments[at].pts_ns == seg.pts_ns;
        if replaces {
            self.segments[at] = seg;
            assert(segment_views(self.segments@) =~= before.update(at as int, added));
        } else {
            self.segments.insert(at, seg);
            assert(segment_views(self.segments@) =~= before.insert(at as int, added));
        }
        proof {
            let after = segment_views(self.segments@);
            assert forall|i: int, j: int| 0 <= i < j < after.len() implies (#[trigger]
            after[i]).pts_ns < (#[trigger] after[j]).pts_ns by {
                if !replaces {
                    if i < at {
                        assert(after[i] == before[i]);
                    } else if i > at {
                        assert(after[i] == before[i - 1]);
                    }
                    if j < at {
                        assert(after[j] == before[j]);
                    } else if j > at {
                        assert(after[j] == before[j - 1]);
                    }
                }
            }
            lemma_by_pts(before);
            lemma_by_pts(after);
            let wanted = by_pts(before).insert(added.pts_ns, added);
            assert forall|k: i64| #[trigger] by_pts(after).contains_key(k) <==> wanted.contains_key(
                k,
            ) by {
                if plays_at(before, k) {
                    let i = choose|i: int|
                        0 <= i < before.len() && (#[trigger] before[i]).pts_ns == k;
                    if replaces || i < at {
                        assert(after[i].pts_ns == k);
                    } else {
                        assert(after[i + 1] == before[i]);
                    }
                }
                if k == added.pts_ns {
                    assert(after[at as int].pts_ns == k);
                }
                if plays_at(after, k) && k != added.pts_ns {
                    let i = choose|i: int|
                        0 <= i < after.len() && (#[trigger] after[i]).pts_ns == k;
                    if replaces || i < at {
                        assert(before[i].pts_ns == k);
                    } else {
                        assert(after[i] == before[i - 1]);
                    }
                }
            }
            assert forall|k: i64| #[trigger] by_pts(after).contains_key(k) implies by_pts(after)[k]
                == wanted[k] by {
                let i = choose|i: int| 0 <= i < after.len() && (#[trigger] after[i]).pts_ns == k;
                assert(by_pts(after)[after[i].pts_ns] == after[i]);
                if i == at {
                    assert(after[i] == added);
                } else if replaces || i < at {
                    assert(after[i] == before[i]);
                } else {
                    assert(after[i] == before[i - 1]);
                }
            }
            assert(by_pts(after) =~= wanted);
        }
    }

    /// Removes all segments.
    pub fn clear(&mut self)
        ensures
            final(self).wf(),
            final(self)@ == Map::<i64, SegmentView>::empty(),
    {
        self.segments.clear();
    }

    /// Number of segments.
    pub fn len(&self) -> (n: usize)
        requires
            self.wf(),
        ensures
            n == self@.dom().len(),
            self@.dom().finite(),
    {
        proof {
            lemma_by_pts(segment_views(self.segments@));
        }
        self.segments.len()
    }

    /// Whether there are no segments.
    pub fn is_empty(&self) -> (r: bool)
        requires
            self.wf(),
        ensures
            r == (self@ == Map::<i64, SegmentView>::empty()),
    {
        let ghost views = segment_views(self.segments@);
        proof {
            lemma_by_pts(views);
            if views.len() > 0 {
                assert(plays_at(views, views[0].pts_ns));
                assert(self@.contains_key(views[0].pts_ns));
            }
        }
        self.segments.is_empty()
    }

    /// The last seekable segment that plays at or before `pts_ns`.
    pub fn nearest_prior_seekable(&self, pts_ns: i64) -> (r: Option<&SegmentRef>)
        requires
            self.wf(),
        ensures
            match r {
                Some(seg) => {
                    &&& self@.contains_key(seg.pts_ns)
                    &&& self@[seg.pts_ns] == seg@
                    &&& seg.seekable
                    &&& seg.pts_ns <= pts_ns
                    &&& forall|k: i64| #[trigger]
                        self@.contains_key(k) && seg.pts_ns < k <= pts_ns ==> !self@[k].seekable
                },
                None => forall|k: i64| #[trigger]
                    self@.contains_key(k) && k <= pts_ns ==> !self@[k].seekable,
            },
    {
        let ghost views = segment_views(self.segments@);
        proof {
            lemma_by_pts(views);
        }
        let mut at: usize = self.lower_bound(pts_ns);
        if at < self.segments.len() && self.segments[at].pts_ns == pts_ns {
            at = at + 1;
        }
        assert forall|i: int| at <= i < views.len() implies (#[trigger] views[i]).pts_ns
            > pts_ns by {
            assert(views[i].pts_ns == self.segments@[i].pts_ns);
            if i > 0 {
                assert(views[i - 1].pts_ns < views[i].pts_ns);
            }
        }
        while at > 0
            invariant
                at <= self.segments@.len(),
                views == segment_views(self.segments@),
                self@ == by_pts(views),
                ascending(views),
                forall|k: i64| #[trigger] by_pts(views).contains_key(k) <==> plays_at(views, k),
                forall|i: int|
                    0 <= i < views.len() ==> by_pts(views)[(#[trigger] views[i]).pts_ns]
                        == views[i],
                forall|i: int|
                    at <= i < views.len() ==> (#[trigger] views[i]).pts_ns > pts_ns
                        || !views[i].seekable,
                forall|i: int| 0 <= i < at ==> (#[trigger] views[i]).pts_ns <= pts_ns,
            decreases at,
        {
            at = at - 1;
            let seg = &self.segments[at];
            assert(views[at as int] == seg@);
            if seg.seekable {
                assert(plays_at(views, seg.pts_ns));
                assert forall|k: i64| #[trigger]
                    self@.contains_key(k) && seg.pts_ns < k <= pts_ns implies !self@[k].seekable by {
                    let i = choose|i: int| 0 <= i < views.len() && (#[trigger] views[i]).pts_ns == k;
                    assert(by_pts(views)[views[i].pts_ns] == views[i]);
                    assert(i > at);
                }
                return Some(seg);
            }
        }
        assert forall|k: i64| #[trigger]
            self@.contains_key(k) && k <= pts_ns implies !self@[k].seekable by {
            let i = choose|i: int| 0 <= i < views.len() && (#[trigger] views[i]).pts_ns == k;
            assert(by_pts(views)[views[i].pts_ns] == views[i]);
        }
        None
    }

    /// The first segment that plays at or after `pts_ns`.
    pub fn next_at_or_after(&self, pts_ns: i64) -> (r: Option<&SegmentRef>)
        requires
            self.wf(),
        ensures
            match r {
                Some(seg) => {
                    &&& self@.contains_key(seg.pts_ns)
                    &&& self@[seg.pts_ns] == seg@
                    &&& pts_ns <= seg.pts_ns
                    &&& forall|k: i64| #[trigger]
                        self@.contains_key(k) && pts_ns <= k ==> seg.pts_ns <= k
                },
                None => forall|k: i64| #[trigger] self@.contains_key(k) ==> k < pts_ns,
            },
    {
        let ghost views = segment_views(self.segments@);
        proof {
            lemma_by_pts(views);
        }
        let at: usize = self.lower_bound(pts_ns);
        assert forall|k: i64| #[trigger] self@.contains_key(k) && pts_ns <= k implies at
            < views.len() && views[at as int].pts_ns <= k by {
            let i = choose|i: int| 0 <= i < views.len() && (#[trigger] views[i]).pts_ns == k;
            assert(self.segments@[i].pts_ns == k);
            assert(at <= i);
        }
        if at < self.segments.len() {
            let seg = &self.segments[at];
            assert(views[at as int] == seg@);
            assert(plays_at(views, seg.pts_ns));
            Some(seg)
        } else {
            None
        }
    }

    /// The segments that play at or after `start` and before `end`, in the order in which they
    /// play. There are none where `end` is not after `start`.
    pub fn range_ns(&self, start: i64, end: i64) -> (r: Vec<&SegmentRef>)
        requires
            self.wf(),
        ensures
            forall|i: int, j: int|
                0 <= i < j < r@.len() ==> (#[trigger] r@[i]).pts_ns < (#[trigger] r@[j]).pts_ns,
            forall|i: int|
                0 <= i < r@.len() ==> start <= (#[trigger] r@[i]).pts_ns < end
                    && self@.contains_key(r@[i].pts_ns) && self@[r@[i].pts_ns] == r@[i]@,
            forall|k: i64| #[trigger]
                self@.contains_key(k) && start <= k < end ==> exists|i: int|
                    0 <= i < r@.len() && (#[trigger] r@[i]).pts_ns == k,
    {
        let ghost views = segment_views(self.segments@);
        proof {
            lemma_by_pts(views);
        }
        let first: usize = self.lower_bound(start);
        let mut at: usize = first;
        let mut out: Vec<&SegmentRef> = Vec::new();
        while at < self.segments.len() && self.segments[at].pts_ns < end
            invariant
                first <= at <= self.segments@.len(),
                views == segment_views(self.segments@),
                ascending(views),
                forall|i: int|
                    first <= i < self.segments@.len() ==> (#[trigger] self.segments@[i]).pts_ns
                        >= start,
                forall|i: int| first <= i < at ==> (#[trigger] self.segments@[i]).pts_ns < end,
                out@.len() == at - first,
                forall|i: int| 0 <= i < out@.len() ==> *(#[trigger] out@[i]) == self.segments@[first
                    + i],
            decreases self.segments@.len() - at,
        {
            out.push(&self.segments[at]);
            at = at + 1;
        }
        proof {
            assert forall|i: int, j: int| 0 <= i < j < out@.len() implies (#[trigger]
            out@[i]).pts_ns < (#[trigger] out@[j]).pts_ns by {
                assert(views[first + i].pts_ns < views[first + j].pts_ns);
            }
            assert forall|i: int| 0 <= i < out@.len() implies start <= (#[trigger] out@[i]).pts_ns
                < end && self@.contains_key(out@[i].pts_ns) && self@[out@[i].pts_ns]
                == out@[i]@ by {
                assert(views[first + i] == out@[i]@);
                assert(plays_at(views, out@[i].pts_ns));
            }
            assert forall|k: i64| #[trigger]
                self@.contains_key(k) && start <= k < end implies exists|i: int|
                0 <= i < out@.len() && (#[trigger] out@[i]).pts_ns == k by {
                let m = choose|m: int| 0 <= m < views.len() && (#[trigger] views[m]).pts_ns == k;
                assert(self.segments@[m].pts_ns == k);
                if m >= at {
                    if m > at {
                        assert(views[at as int].pts_ns < views[m].pts_ns);
                    }
                    assert(self.segments@[at as int].pts_ns == views[at as int].pts_ns);
                }
                assert(out@[m - first].pts_ns == k);
            }
        }
        out
    }
}

} // verus!
