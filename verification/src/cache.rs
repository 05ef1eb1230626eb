//! The bounded cache of thumbnails.
use std::collections::HashMap;
use vstd::prelude::*;
use vstd::std_specs::hash::*;

use crate::wire;

verus! {

/// Maximum number of thumbnails that are kept. Thumbnails of windows that are not in the current
/// list are dropped first; after that an arbitrary one is dropped, so the cap always holds.
pub const MAX_THUMB_CACHE: usize = 64;

/// Thumbnails by frame window: width, height and ARGB pixels.
#[derive(Debug)]
pub struct ThumbCache {
    pub map: HashMap<u32, (u32, u32, Vec<u32>)>,
}

impl View for ThumbCache {
    type V = Map<u32, (u32, u32, Vec<u32>)>;

    open spec fn view(&self) -> Map<u32, (u32, u32, Vec<u32>)> {
        self.map@
    }
}

/// The cache after a thumbnail was stored. With room, it is just added. Without, only the windows
/// in `live` are kept; where that makes no room either, one of them goes as well.
pub open spec fn stored(
    before: Map<u32, (u32, u32, Vec<u32>)>,
    after: Map<u32, (u32, u32, Vec<u32>)>,
    frame: u32,
    thumb: (u32, u32, Vec<u32>),
    live: Set<u32>,
) -> bool {
    let kept = before.restrict(live);
    if before.dom().len() < MAX_THUMB_CACHE {
        after == before.insert(frame, thumb)
    } else if kept.dom().len() < MAX_THUMB_CACHE {
        after == kept.insert(frame, thumb)
    } else {
        exists|k: u32|
            kept.dom().contains(k) && after == #[trigger] kept.remove(k).insert(frame, thumb)
    }
}

impl ThumbCache {
    /// The cache keeps its cap.
    pub open spec fn wf(self) -> bool {
        self@.dom().finite() && self@.dom().len() <= MAX_THUMB_CACHE
    }

    /// An empty cache.
    pub fn new() -> (r: ThumbCache)
        ensures
            r@ == Map::<u32, (u32, u32, Vec<u32>)>::empty(),
            r.wf(),
    {
        broadcast use group_hash_axioms;

        let r = ThumbCache { map: HashMap::new() };
        assert(r@.dom() =~= Set::empty());
        r
    }

    /// The keys of the cache, each once, in no particular order.
    fn keys(&self) -> (r: Vec<u32>)
        ensures
            forall|k: u32| self@.dom().contains(k) <==> r@.contains(k),
    {
        broadcast use group_hash_axioms;

        let mut r: Vec<u32> = Vec::new();
        let ghost all = vstd::std_specs::iter::IteratorSpec::remaining(
            &spec_keys_iter(&self.map),
        ).unref();
        for k in it: self.map.keys()
            invariant
                r@ == all.take(it.index()),
                it.seq().unref() == all,
                it.seq().len() == all.len(),
                all.to_set() == self.map@.dom(),
        {
            r.push(*k);
        }
        assert(all.take(all.len() as int) =~= all);
        assert forall|k: u32| self@.dom().contains(k) <==> r@.contains(k) by {
            assert(r@.to_set() == self.map@.dom());
            assert(r@.to_set().contains(k) <==> r@.contains(k));
        }
        r
    }

    /// Drops the thumbnails of windows that are not in `live`.
    fn retain(&mut self, live: &Vec<u32>)
        requires
            old(self).wf(),
        ensures
            final(self)@ == old(self)@.restrict(live@.to_set()),
            final(self).wf(),
    {
        broadcast use group_hash_axioms;

        let keys: Vec<u32> = self.keys();
        let n: usize = keys.len();
        let mut i: usize = 0;
        let ghost all = self@;
        while i < n
            invariant
                i <= n,
                n == keys.len(),
                forall|k: u32|
                    self@.dom().contains(k) <==> (all.dom().contains(k) && (live@.contains(k)
                        || !keys@.take(i as int).contains(k))),
                forall|k: u32| #[trigger] self@.dom().contains(k) ==> self@[k] == all[k],
                self@.dom().finite(),
                self@.dom().len() <= all.dom().len(),
            decreases n - i,
        {
            let k: u32 = keys[i];
            let ghost before = self@;
            proof {
                assert(keys@.take(i + 1) =~= keys@.take(i as int).push(k));
                assert forall|j: u32|
                    keys@.take(i + 1).contains(j) <==> (keys@.take(i as int).contains(j) || j
                        == k) by {
                    vstd::seq_lib::lemma_seq_contains_after_push(keys@.take(i as int), k, j);
                }
            }
            if !wire::holds(live, k) {
                self.map.remove(&k);
                assert(self@ == before.remove(k));
            }
            i = i + 1;
        }
        proof {
            assert(keys@.take(n as int) =~= keys@);
            let want = all.restrict(live@.to_set());
            assert forall|k: u32| self@.dom().contains(k) <==> want.dom().contains(k) by {
                assert(live@.to_set().contains(k) <==> live@.contains(k));
                assert(all.dom().contains(k) ==> keys@.contains(k));
            }
            assert(self@ =~= want);
        }
    }

    /// Stores a thumbnail, making room first where the cache is full.
    pub fn store(&mut self, frame: u32, thumb: (u32, u32, Vec<u32>), live: &Vec<u32>)
        requires
            old(self).wf(),
        ensures
            stored(old(self)@, final(self)@, frame, thumb, live@.to_set()),
            final(self).wf(),
    {
        broadcast use group_hash_axioms;

        let ghost before = self@;
        if self.map.len() >= MAX_THUMB_CACHE {
            self.retain(live);
            let ghost kept = self@;
            if self.map.len() >= MAX_THUMB_CACHE {
                let keys: Vec<u32> = self.keys();
                proof {
                    if keys.len() == 0 {
                        assert forall|k: u32| !kept.dom().contains(k) by {
                            assert(!keys@.contains(k));
                        }
                        assert(kept.dom() =~= Set::empty());
                    }
                }
                let k: u32 = keys[0];
                assert(keys@.contains(k));
                self.map.remove(&k);
                assert(self@ == kept.remove(k));
                self.map.insert(frame, thumb);
                assert(self@ == kept.remove(k).insert(frame, thumb));
                return;
            }
        }
        self.map.insert(frame, thumb);
    }

    /// Forgets the thumbnail of a window.
    pub fn forget(&mut self, frame: u32)
        requires
            old(self).wf(),
        ensures
            final(self)@ == old(self)@.remove(frame),
            final(self).wf(),
    {
        broadcast use group_hash_axioms;

        self.map.remove(&frame);
    }

    /// The thumbnail of a window.
    pub fn get(&self, frame: u32) -> (r: Option<&(u32, u32, Vec<u32>)>)
        ensures
            match r {
                Some(t) => self@.dom().contains(frame) && *t == self@[frame],
                None => !self@.dom().contains(frame),
            },
    {
        broadcast use group_hash_axioms;

        self.map.get(&frame)
    }

    /// The size of a window's thumbnail.
    pub open spec fn size(self, frame: u32) -> Option<(u32, u32)> {
        if self@.dom().contains(frame) {
            Some((self@[frame].0, self@[frame].1))
        } else {
            None
        }
    }

    /// The size of a window's thumbnail, if there is one.
    pub fn size_of(&self, frame: u32) -> (r: Option<(u32, u32)>)
        ensures
            r == self.size(frame),
    {
        match self.get(frame) {
            Some(t) => Some((t.0, t.1)),
            None => None,
        }
    }
}

/// What was stored is what is read back, and the cap holds.
pub proof fn law_stored_thumbnails_are_found(
    before: Map<u32, (u32, u32, Vec<u32>)>,
    after: Map<u32, (u32, u32, Vec<u32>)>,
    frame: u32,
    thumb: (u32, u32, Vec<u32>),
    live: Set<u32>,
)
    requires
        stored(before, after, frame, thumb, live),
        before.dom().finite(),
        before.dom().len() <= MAX_THUMB_CACHE,
    ensures
        after.dom().contains(frame),
        after[frame] == thumb,
        after.dom().len() <= MAX_THUMB_CACHE,
{
    let kept = before.restrict(live);
    assert(kept.dom() =~= before.dom().intersect(live));
    vstd::set_lib::lemma_len_intersect(before.dom(), live);
    if before.dom().len() >= MAX_THUMB_CACHE && kept.dom().len() >= MAX_THUMB_CACHE {
        let k = choose|k: u32|
            kept.dom().contains(k) && after == #[trigger] kept.remove(k).insert(frame, thumb);
        assert(after == kept.remove(k).insert(frame, thumb));
        assert(kept.remove(k).dom() =~= kept.dom().remove(k));
    }
}

/// The thumbnail of a window in the current list is kept, unless the cache is full of such
/// windows.
pub proof fn law_live_thumbnails_are_kept(
    before: Map<u32, (u32, u32, Vec<u32>)>,
    after: Map<u32, (u32, u32, Vec<u32>)>,
    frame: u32,
    thumb: (u32, u32, Vec<u32>),
    live: Set<u32>,
    w: u32,
)
    requires
        stored(before, after, frame, thumb, live),
        before.dom().finite(),
        before.dom().contains(w),
        live.contains(w),
        w != frame,
        before.restrict(live).dom().len() < MAX_THUMB_CACHE,
    ensures
        after.dom().contains(w),
        after[w] == before[w],
{
    assert(before.restrict(live).dom().contains(w));
}

/// Storing a thumbnail touches no other: what is found under another frame was there before. With
/// fewer than 64 thumbnails everything is kept, and there are never more than 64.
pub proof fn law_other_thumbnails_stay(
    before: Map<u32, (u32, u32, Vec<u32>)>,
    after: Map<u32, (u32, u32, Vec<u32>)>,
    frame: u32,
    thumb: (u32, u32, Vec<u32>),
    live: Set<u32>,
    w: u32,
)
    requires
        stored(before, after, frame, thumb, live),
        before.dom().finite(),
        before.dom().len() <= 64,
    ensures
        after.dom().contains(frame) && after[frame] == thumb,
        after.dom().len() <= 64,
        w != frame && after.dom().contains(w) ==> before.dom().contains(w) && after[w] == before[w],
        w != frame && before.dom().contains(w) && before.dom().len() < 64 ==> after.dom().contains(w),
        w != frame && after.dom().contains(w) && before.dom().len() >= 64 ==> live.contains(w),
{
    law_stored_thumbnails_are_found(before, after, frame, thumb, live);
    let kept = before.restrict(live);
    if before.dom().len() >= MAX_THUMB_CACHE && kept.dom().len() >= MAX_THUMB_CACHE {
        let k = choose|k: u32|
            kept.dom().contains(k) && after == #[trigger] kept.remove(k).insert(frame, thumb);
        assert(after == kept.remove(k).insert(frame, thumb));
    }
}

/// Of the thumbnails that are still wanted, storing another drops at most one.
pub proof fn law_at_most_one_live_thumbnail_goes(
    before: Map<u32, (u32, u32, Vec<u32>)>,
    after: Map<u32, (u32, u32, Vec<u32>)>,
    frame: u32,
    thumb: (u32, u32, Vec<u32>),
    live: Set<u32>,
    v: u32,
    w: u32,
)
    requires
        stored(before, after, frame, thumb, live),
        v != w,
        before.dom().contains(v) && live.contains(v),
        before.dom().contains(w) && live.contains(w),
    ensures
        after.dom().contains(v) || after.dom().contains(w),
{
    let kept = before.restrict(live);
    assert(kept.dom().contains(v) && kept.dom().contains(w));
    if before.dom().len() >= MAX_THUMB_CACHE && kept.dom().len() >= MAX_THUMB_CACHE {
        let k = choose|k: u32|
            kept.dom().contains(k) && after == #[trigger] kept.remove(k).insert(frame, thumb);
        assert(after == kept.remove(k).insert(frame, thumb));
    }
}

} // verus!
