use vstd::prelude::*;

use crate::shared::FrameId;

verus! {

/// The number of recent accesses that the buffer pool's replacer keeps per frame.
pub const LRUK_REPLACER_K: usize = 2;

/// The most recent `k` entries of `h`.
pub open spec fn keep_last(h: Seq<int>, k: nat) -> Seq<int> {
    if h.len() > k {
        h.subrange(h.len() - k, h.len() as int)
    } else {
        h
    }
}

/// What the replacer knows: for each frame `f` in `1..=num_frames` (stored at
/// index `f - 1`) its recent access timestamps, oldest first, and whether it
/// may be evicted; and the logical time of the next access.
pub struct ReplacerState {
    pub num_frames: nat,
    pub k: nat,
    pub histories: Seq<Seq<int>>,
    pub evictable: Seq<bool>,
    pub now: int,
}

impl ReplacerState {
    pub open spec fn valid_frame(self, f: int) -> bool {
        1 <= f <= self.num_frames
    }

    pub open spec fn history(self, f: int) -> Seq<int> {
        self.histories[f - 1]
    }

    pub open spec fn is_evictable(self, f: int) -> bool {
        self.evictable[f - 1]
    }

    /// A frame with fewer than `k` recorded accesses has an infinite backward
    /// k-distance.
    pub open spec fn infinite_distance(self, f: int) -> bool {
        self.history(f).len() < self.k
    }

    /// The timestamp that ranks a frame within its class: for an infinite
    /// k-distance the most recent access (`-1` for none), else the k-th most
    /// recent access. The smaller it is, the further in the past it lies.
    pub open spec fn order_key(self, f: int) -> int {
        let h = self.history(f);
        if h.len() < self.k {
            if h.len() == 0 {
                -1
            } else {
                h.last()
            }
        } else {
            h[h.len() - self.k]
        }
    }

    /// Frame `a` goes before frame `b` (or is `b`): infinite k-distance first,
    /// then the older key, then the lower frame id.
    pub open spec fn evicts_before(self, a: int, b: int) -> bool {
        ||| (self.infinite_distance(a) && !self.infinite_distance(b))
        ||| (self.infinite_distance(a) == self.infinite_distance(b) && self.order_key(a)
            < self.order_key(b))
        ||| (self.infinite_distance(a) == self.infinite_distance(b) && self.order_key(a)
            == self.order_key(b) && a <= b)
    }

    pub open spec fn evictable_frame(self, f: int) -> bool {
        self.valid_frame(f) && self.is_evictable(f)
    }

    pub open spec fn has_evictable(self) -> bool {
        exists|f: int| #[trigger] self.evictable_frame(f)
    }

    /// The frame that eviction picks: evictable, and before every other
    /// evictable frame.
    pub open spec fn is_victim(self, f: int) -> bool {
        &&& self.evictable_frame(f)
        &&& forall|g: int| #[trigger] self.evictable_frame(g) ==> self.evicts_before(f, g)
    }

    /// The state after an access to frame `f` at the current time.
    pub open spec fn after_access(self, f: int) -> ReplacerState {
        ReplacerState {
            histories: self.histories.update(f - 1, keep_last(self.history(f).push(self.now), self.k)),
            now: self.now + 1,
            ..self
        }
    }

    pub open spec fn with_evictable(self, f: int, flag: bool) -> ReplacerState {
        ReplacerState { evictable: self.evictable.update(f - 1, flag), ..self }
    }

    /// The state after frame `f` lost its history and its eligibility.
    pub open spec fn cleared(self, f: int) -> ReplacerState {
        ReplacerState {
            histories: self.histories.update(f - 1, Seq::empty()),
            evictable: self.evictable.update(f - 1, false),
            ..self
        }
    }

    pub open spec fn can_record(self) -> bool {
        self.now < u64::MAX
    }
}

/// Per-frame record: recent access timestamps, oldest first, and whether the
/// frame may be evicted.
pub struct LRUKNode {
    history: Vec<u64>,
    is_evictable: bool,
}

/// Chooses eviction victims by backward k-distance among the evictable frames
/// `1..=num_frames`.
pub struct LRUKReplacerInternal {
    num_frames: usize,
    k: usize,
    nodes: Vec<LRUKNode>,
    current_timestamp: u64,
}

pub open spec fn history_view(h: Seq<u64>) -> Seq<int> {
    h.map_values(|t: u64| t as int)
}

impl View for LRUKReplacerInternal {
    type V = ReplacerState;

    closed spec fn view(&self) -> ReplacerState {
        ReplacerState {
            num_frames: self.num_frames as nat,
            k: self.k as nat,
            histories: Seq::new(self.nodes@.len(), |i: int| history_view(self.nodes@[i].history@)),
            evictable: Seq::new(self.nodes@.len(), |i: int| self.nodes@[i].is_evictable),
            now: self.current_timestamp as int,
        }
    }
}

/// A replacement policy over frames `1..=num_frames`.
pub trait Replacer: Sized + View<V = ReplacerState> {
    /// The structure's internal invariant.
    spec fn well_formed(&self) -> bool;

    /// Appends the current time to frame `frame_id`'s history, keeping its
    /// `k` most recent accesses, and advances the time.
    fn record_access(&mut self, frame_id: FrameId)
        requires
            old(self).well_formed(),
            old(self)@.valid_frame(frame_id as int),
            old(self)@.can_record(),
        ensures
            final(self).well_formed(),
            final(self)@ == old(self)@.after_access(frame_id as int),
    ;

    /// Marks frame `frame_id` as eligible or not for eviction.
    fn set_evictable(&mut self, frame_id: FrameId, flag: bool)
        requires
            old(self).well_formed(),
            old(self)@.valid_frame(frame_id as int),
        ensures
            final(self).well_formed(),
            final(self)@ == old(self)@.with_evictable(frame_id as int, flag),
    ;

    /// Drops frame `frame_id`'s history and makes it ineligible for eviction.
    fn remove(&mut self, frame_id: FrameId)
        requires
            old(self).well_formed(),
            old(self)@.valid_frame(frame_id as int),
        ensures
            final(self).well_formed(),
            final(self)@ == old(self)@.cleared(frame_id as int),
    ;

    /// Picks the victim among the evictable frames: a frame with infinite
    /// k-distance first, the oldest most recent access among those; else the
    /// largest k-distance; ties go to the lowest frame id. The victim loses its
    /// history and its eligibility. `None` when no frame is evictable.
    fn evict(&mut self) -> (r: Option<FrameId>)
        requires
            old(self).well_formed(),
        ensures
            final(self).well_formed(),
            r.is_none() <==> !old(self)@.has_evictable(),
            r.is_none() ==> final(self)@ == old(self)@,
            r matches Some(f) ==> old(self)@.is_victim(f as int) && final(self)@ == old(
                self,
            )@.cleared(f as int),
    ;
}

impl Replacer for LRUKReplacerInternal {
    open spec fn well_formed(&self) -> bool {
        self.wf()
    }

    fn record_access(&mut self, frame_id: FrameId) {
        let idx = (frame_id - 1) as usize;
        let ts = self.current_timestamp;
        let ghost old_hist = self.nodes@[idx as int].history@;
        let mut node = self.nodes.remove(idx);
        node.history.push(ts);
        if node.history.len() > self.k {
            node.history.remove(0);
        }
        proof {
            let pushed = old_hist.push(ts);
            if pushed.len() > self.k {
                assert(node.history@ =~= pushed.subrange(1, pushed.len() as int));
            }
            assert(history_view(node.history@) =~= keep_last(history_view(old_hist).push(ts as int), self.k as nat));
        }
        self.nodes.insert(idx, node);
        self.current_timestamp = ts + 1;
        proof {
            let s = old(self)@.after_access(frame_id as int);
            assert(self@.histories =~= s.histories);
            assert(self@.evictable =~= s.evictable);
        }
    }

    fn set_evictable(&mut self, frame_id: FrameId, flag: bool) {
        let idx = (frame_id - 1) as usize;
        let mut node = self.nodes.remove(idx);
        node.is_evictable = flag;
        self.nodes.insert(idx, node);
        proof {
            let s = old(self)@.with_evictable(frame_id as int, flag);
            assert(self@.histories =~= s.histories);
            assert(self@.evictable =~= s.evictable);
        }
    }

    fn remove(&mut self, frame_id: FrameId) {
        let idx = (frame_id - 1) as usize;
        self.nodes.set(idx, LRUKNode { history: Vec::new(), is_evictable: false });
        proof {
            assert(history_view(self.nodes@[idx as int].history@) =~= Seq::<int>::empty());
            let s = old(self)@.cleared(frame_id as int);
            assert(self@.histories =~= s.histories);
            assert(self@.evictable =~= s.evictable);
        }
    }

    fn evict(&mut self) -> (r: Option<FrameId>) {
        match self.victim() {
            None => None,
            Some(v) => {
                self.remove(v);
                Some(v)
            },
        }
    }
}

impl LRUKReplacerInternal {

    pub closed spec fn wf(&self) -> bool {
        &&& self.nodes@.len() == self.num_frames
        &&& self.num_frames < isize::MAX
        &&& self.k >= 1
        &&& forall|i: int| 0 <= i < self.nodes@.len() ==> #[trigger] self.nodes@[i].history@.len() <= self.k
    }

    /// A replacer for frames `1..=num_frames` that keeps `k` accesses per
    /// frame; no frame has a history or is evictable.
    pub fn new(num_frames: usize, k: usize) -> (r: Self)
        requires
            num_frames < isize::MAX,
            k >= 1,
        ensures
            r.wf(),
            r@.num_frames == num_frames,
            r@.k == k,
            r@.now == 0,
            forall|f: int| r@.valid_frame(f) ==> r@.history(f) == Seq::<int>::empty(),
            forall|f: int| r@.valid_frame(f) ==> !r@.is_evictable(f),
    {
        let mut nodes: Vec<LRUKNode> = Vec::new();
        let mut i: usize = 0;
        while i < num_frames
            invariant
                i <= num_frames,
                nodes@.len() == i,
                forall|j: int| 0 <= j < i ==> #[trigger] nodes@[j].history@.len() == 0
                    && !nodes@[j].is_evictable,
            decreases num_frames - i,
        {
            nodes.push(LRUKNode { history: Vec::new(), is_evictable: false });
            i = i + 1;
        }
        let r = LRUKReplacerInternal { num_frames, k, nodes, current_timestamp: 0 };
        assert forall|f: int| r@.valid_frame(f) implies r@.history(f) == Seq::<int>::empty() by {
            assert(r@.history(f) =~= Seq::<int>::empty());
        }
        r
    }

    pub fn num_frames(&self) -> (r: usize)
        ensures
            r == self@.num_frames,
    {
        self.num_frames
    }

    /// The logical time that the next access will get.
    pub fn current_timestamp(&self) -> (r: u64)
        ensures
            r == self@.now,
    {
        self.current_timestamp
    }

    pub fn k(&self) -> (r: usize)
        ensures
            r == self@.k,
    {
        self.k
    }

    /// The frame that `evict` would pick, with no change: `None` when no frame
    /// is evictable.
    pub fn victim(&self) -> (r: Option<FrameId>)
        requires
            self.wf(),
        ensures
            r.is_none() <==> !self@.has_evictable(),
            r matches Some(f) ==> self@.is_victim(f as int),
    {
        let mut best: usize = 0;
        let mut found = false;
        let mut i: usize = 0;
        while i < self.nodes.len()
            invariant
                self.wf(),
                i <= self.nodes@.len(),
                found ==> best < i && self@.evictable_frame(best + 1),
                found ==> forall|f: int|
                    1 <= f <= i && #[trigger] self@.evictable_frame(f) ==> self@.evicts_before(
                        best + 1,
                        f,
                    ),
                !found ==> forall|f: int| 1 <= f <= i ==> !#[trigger] self@.evictable_frame(f),
            decreases self.nodes@.len() - i,
        {
            if self.nodes[i].is_evictable {
                if !found || self.goes_before(i, best) {
                    best = i;
                    found = true;
                }
            }
            i = i + 1;
        }
        if !found {
            return None;
        }
        Some((best + 1) as FrameId)
    }

    /// Whether some frame is evictable.
    pub fn has_evictable(&self) -> (r: bool)
        requires
            self.wf(),
        ensures
            r == self@.has_evictable(),
    {
        let mut i: usize = 0;
        while i < self.nodes.len()
            invariant
                self.wf(),
                i <= self.nodes@.len(),
                forall|f: int| 1 <= f <= i ==> !#[trigger] self@.evictable_frame(f),
            decreases self.nodes@.len() - i,
        {
            if self.nodes[i].is_evictable {
                assert(self@.evictable_frame(i + 1));
                return true;
            }
            i = i + 1;
        }
        false
    }

    /// The class and key by which the frame at index `i` is ranked.
    fn rank_of(&self, i: usize) -> (r: (bool, i128))
        requires
            self.wf(),
            i < self.nodes@.len(),
        ensures
            r.0 == self@.infinite_distance(i + 1),
            r.1 == self@.order_key(i + 1),
    {
        let h = &self.nodes[i].history;
        let len = h.len();
        proof {
            assert(self@.history(i + 1) == history_view(h@));
        }
        if len < self.k {
            if len == 0 {
                (true, -1)
            } else {
                (true, h[len - 1] as i128)
            }
        } else {
            (false, h[len - self.k] as i128)
        }
    }

    /// Whether the frame at index `a` goes before the frame at index `b`.
    fn goes_before(&self, a: usize, b: usize) -> (r: bool)
        requires
            self.wf(),
            a < self.nodes@.len(),
            b < self.nodes@.len(),
        ensures
            r == self@.evicts_before(a + 1, b + 1),
    {
        let (inf_a, key_a) = self.rank_of(a);
        let (inf_b, key_b) = self.rank_of(b);
        (inf_a && !inf_b) || (inf_a == inf_b && key_a < key_b) || (inf_a == inf_b && key_a == key_b
            && a <= b)
    }
}


/// Well-formedness seen from outside: sizes agree and `k` is positive.
pub broadcast proof fn lemma_replacer_sizes(r: &LRUKReplacerInternal)
    requires
        r.wf(),
    ensures
        #![trigger r.wf()]
        r@.histories.len() == r@.num_frames,
        r@.evictable.len() == r@.num_frames,
        r@.num_frames < isize::MAX,
        r@.k >= 1,
{
}

/// As long as some evictable frame has fewer than `k` recorded accesses, no
/// frame with `k` accesses or more is the victim, however long ago that
/// single access and however recent the others' accesses.
pub proof fn lemma_infinite_distance_evicted_first(s: ReplacerState, a: int, b: int)
    requires
        s.evictable_frame(a),
        s.infinite_distance(a),
        !s.infinite_distance(b),
    ensures
        !s.is_victim(b),
{
}

/// The victim is unique: two frames that both go before every evictable frame
/// are the same frame.
pub proof fn lemma_victim_unique(s: ReplacerState, a: int, b: int)
    requires
        s.is_victim(a),
        s.is_victim(b),
    ensures
        a == b,
{
    assert(s.evicts_before(a, b));
    assert(s.evicts_before(b, a));
}

} // verus!
