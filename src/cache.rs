use crate::geo::{tile_file_name, TileId};
use vstd::prelude::*;

verus! {

/// A miss: a lookup of `id` in a cache holding `m` has to open the tile.
pub open spec fn needs_open<H>(m: Map<TileId, H>, id: TileId) -> bool {
    !m.contains_key(id)
}

/// What a lookup of `id` does to a cache holding `before`, where `open`
/// is the opener it was given: a hit returns the cached handle and changes
/// nothing; a miss calls `open` once with the tile's file name, caches the
/// handle it returned, or returns its error and caches nothing.
pub open spec fn get_or_open_post<H, E, F: FnOnce(String) -> Result<H, E>>(
    before: Map<TileId, H>,
    id: TileId,
    open: F,
    after: Map<TileId, H>,
    r: Result<H, E>,
) -> bool {
    if before.contains_key(id) {
        after == before && r == Ok::<H, E>(before[id])
    } else {
        exists|name: String|
            name@ == tile_file_name(id) && #[trigger] open.ensures((name,), r) && match r {
                Ok(h) => after == before.insert(id, h),
                Err(_) => after == before,
            }
    }
}

/// Opening happens at most once per tile: after a lookup of `id` has
/// returned a handle, the cache holds `id`, so a second lookup of `id` is a
/// hit. It needs no opener, changes nothing, and returns the same handle.
pub proof fn lemma_second_lookup_opens_nothing<H, E, F1, F2>(
    m0: Map<TileId, H>,
    id: TileId,
    open1: F1,
    m1: Map<TileId, H>,
    r1: Result<H, E>,
    open2: F2,
    m2: Map<TileId, H>,
    r2: Result<H, E>,
)
    where
        F1: FnOnce(String) -> Result<H, E>,
        F2: FnOnce(String) -> Result<H, E>,
    requires
        get_or_open_post(m0, id, open1, m1, r1),
        r1 is Ok,
        get_or_open_post(m1, id, open2, m2, r2),
    ensures
        !needs_open(m1, id),
        m2 == m1,
        r2 == r1,
{
}

/// Open tile handles, at most one per tile, opened on first use and kept
/// for the life of the cache.
pub struct TileCache<H> {
    entries: Vec<(TileId, H)>,
}

/// No tile appears in two entries.
pub closed spec fn keys_unique<H>(s: Seq<(TileId, H)>) -> bool {
    forall|i: int, j: int| 0 <= i < s.len() && 0 <= j < s.len() && i != j ==> #[trigger] s[i].0 != #[trigger] s[j].0
}

closed spec fn holds<H>(s: Seq<(TileId, H)>, id: TileId) -> bool {
    exists|i: int| 0 <= i < s.len() && #[trigger] s[i].0 == id
}

closed spec fn slot<H>(s: Seq<(TileId, H)>, id: TileId) -> int {
    choose|i: int| 0 <= i < s.len() && #[trigger] s[i].0 == id
}

/// The handles of a sequence of entries, by tile.
pub closed spec fn entries_map<H>(s: Seq<(TileId, H)>) -> Map<TileId, H> {
    Map::new(|id: TileId| holds(s, id), |id: TileId| s[slot(s, id)].1)
}

/// With unique keys, the entry at `i` is the one the map reports.
proof fn lemma_entry_at<H>(s: Seq<(TileId, H)>, i: int)
    requires
        keys_unique(s),
        0 <= i < s.len(),
    ensures
        entries_map(s).contains_key(s[i].0),
        entries_map(s)[s[i].0] == s[i].1,
{
    assert(holds(s, s[i].0));
    let k = slot(s, s[i].0);
    if k != i {
        assert(s[k].0 != s[i].0);
    }
}

/// Appending an entry for a tile not yet present inserts it into the map.
proof fn lemma_push<H>(s: Seq<(TileId, H)>, id: TileId, h: H)
    requires
        keys_unique(s),
        !entries_map(s).contains_key(id),
    ensures
        keys_unique(s.push((id, h))),
        entries_map(s.push((id, h))) == entries_map(s).insert(id, h),
{
    let t = s.push((id, h));
    assert forall|i: int, j: int| 0 <= i < t.len() && 0 <= j < t.len() && i != j implies #[trigger] t[i].0 != #[trigger] t[j].0 by {
        if i == s.len() {
            assert(!holds(s, id));
            assert(s[j].0 != id);
        } else if j == s.len() {
            assert(!holds(s, id));
            assert(s[i].0 != id);
        } else {
            assert(t[i] == s[i] && t[j] == s[j]);
        }
    }
    let m = entries_map(t);
    let e = entries_map(s).insert(id, h);
    assert forall|k: TileId| m.contains_key(k) <==> e.contains_key(k) by {
        if m.contains_key(k) {
            let i = slot(t, k);
            if i < s.len() {
                assert(t[i] == s[i]);
                assert(holds(s, k));
            }
        }
        if e.contains_key(k) && k != id {
            let i = slot(s, k);
            assert(t[i] == s[i]);
            assert(holds(t, k));
        }
        if k == id {
            assert(t[s.len() as int].0 == id);
            assert(holds(t, k));
        }
    }
    assert forall|k: TileId| #[trigger] m.contains_key(k) implies m[k] == e[k] by {
        let i = slot(t, k);
        lemma_entry_at(t, i);
        if k == id {
            lemma_entry_at(t, s.len() as int);
        } else {
            assert(i < s.len());
            assert(t[i] == s[i]);
            lemma_entry_at(s, i);
        }
    }
    assert(m =~= e);
}

impl<H> TileCache<H> {
    /// Each tile appears in at most one entry.
    pub closed spec fn wf(&self) -> bool {
        keys_unique(self.entries@)
    }

    /// The cached handles, by tile.
    pub closed spec fn view(&self) -> Map<TileId, H> {
        entries_map(self.entries@)
    }

    /// An empty cache.
    pub fn new() -> (r: TileCache<H>)
        ensures
            r.wf(),
            r@ == Map::<TileId, H>::empty(),
    {
        let r = TileCache { entries: Vec::new() };
        assert(r@ =~= Map::<TileId, H>::empty());
        r
    }

    /// Position of `id` in the entries, if it is cached.
    fn find(&self, id: TileId) -> (r: Option<usize>)
        requires
            self.wf(),
        ensures
            r is None ==> !self@.contains_key(id),
            r is Some ==> r->Some_0 < self.entries.len() && self.entries[r->Some_0 as int].0 == id
                && self@.contains_key(id) && self@[id] == self.entries[r->Some_0 as int].1,
    {
        let mut i: usize = 0;
        while i < self.entries.len()
            invariant
                self.wf(),
                i <= self.entries.len(),
                forall|j: int| 0 <= j < i ==> self.entries[j].0 != id,
            decreases self.entries.len() - i,
        {
            if self.entries[i].0 == id {
                proof {
                    lemma_entry_at(self.entries@, i as int);
                }
                return Some(i);
            }
            i = i + 1;
        }
        proof {
            if holds(self.entries@, id) {
                let k = slot(self.entries@, id);
                assert(self.entries[k].0 != id);
            }
        }
        None
    }

    /// The cached handle of `id`, if any.
    pub fn get(&self, id: TileId) -> (r: Option<&H>)
        requires
            self.wf(),
        ensures
            r is Some <==> self@.contains_key(id),
            r is Some ==> *r->Some_0 == self@[id],
    {
        match self.find(id) {
            Some(i) => Some(&self.entries[i].1),
            None => None,
        }
    }

    /// The handle of `id`: the cached one on a hit; on a miss, `open` is
    /// called once with the tile's file name and a handle it returns is
    /// cached before being returned.
    pub fn get_or_open<E, F>(&mut self, id: TileId, open: F) -> (r: Result<&H, E>)
        where
            F: FnOnce(String) -> Result<H, E>,
        requires
            old(self).wf(),
            needs_open(old(self)@, id) ==> forall|name: String| open.requires((name,)),
        ensures
            final(self).wf(),
            get_or_open_post(
                old(self)@,
                id,
                open,
                final(self)@,
                match r {
                    Ok(h) => Ok::<H, E>(*h),
                    Err(e) => Err::<H, E>(e),
                },
            ),
    {
        match self.find(id) {
            Some(i) => Ok(&self.entries[i].1),
            None => {
                let name = id.file_name();
                let ghost name_v = name@;
                let out = open(name);
                assert(exists|n: String| n@ == name_v && open.ensures((n,), out));
                match out {
                    Ok(h) => {
                        proof {
                            lemma_push(self.entries@, id, h);
                        }
                        self.entries.push((id, h));
                        let n = self.entries.len() - 1;
                        Ok(&self.entries[n].1)
                    },
                    Err(e) => Err(e),
                }
            },
        }
    }
}

} // verus!
