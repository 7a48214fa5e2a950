//! Thumbnail sidebar state: a byte-budgeted least-recently-used texture
//! cache, the queue of pages waiting for a thumbnail, and the active page.

use vstd::prelude::*;

use crate::rotation::PdfPageRotation;
use crate::types::PageIndex;

verus! {

/// Default cache budget for thumbnail textures (64 MiB).
pub const DEFAULT_THUMBNAIL_BUDGET: usize = 64 * 1024 * 1024;

/// How many thumbnails are rendered per frame at most.
pub const THUMBNAILS_PER_FRAME: usize = 3;

/// Default thumbnail width in pixels.
pub const DEFAULT_THUMBNAIL_WIDTH: u32 = 120;

/// Identifies a cached thumbnail: a page at a rotation.
#[derive(Clone, Copy, Debug, PartialEq, Eq, Hash, Structural)]
pub struct ThumbnailCacheKey {
    /// The page.
    pub page: PageIndex,
    /// The rotation it was rendered at.
    pub rotation: PdfPageRotation,
}

/// One cached thumbnail texture (of type `T`) with its size and the frame in
/// which it was last used.
#[derive(Debug)]
pub struct CacheEntry<T> {
    /// What the texture shows.
    pub key: ThumbnailCacheKey,
    /// The texture.
    pub texture: T,
    /// Size of the texture in bytes.
    pub byte_size: usize,
    /// Frame in which the texture was inserted or last looked up.
    pub last_accessed_frame: u64,
}

/// Total size in bytes of the entries.
pub open spec fn sum_bytes<T>(s: Seq<CacheEntry<T>>) -> nat
    decreases s.len(),
{
    if s.len() == 0 {
        0
    } else {
        sum_bytes(s.drop_last()) + s.last().byte_size as nat
    }
}

/// No key occurs twice among the entries.
pub open spec fn keys_distinct<T>(s: Seq<CacheEntry<T>>) -> bool {
    forall|i: int, j: int| 0 <= i < j < s.len() ==> (#[trigger] s[i]).key != (#[trigger] s[j]).key
}

/// The position of the entry for `key`, searching from `i`; `-1` if absent.
pub open spec fn key_position_from<T>(s: Seq<CacheEntry<T>>, key: ThumbnailCacheKey, i: int) -> int
    decreases s.len() - i,
{
    if i < 0 || i >= s.len() {
        -1
    } else if s[i].key == key {
        i
    } else {
        key_position_from(s, key, i + 1)
    }
}

/// The position of the entry for `key`; `-1` if absent.
pub open spec fn key_position<T>(s: Seq<CacheEntry<T>>, key: ThumbnailCacheKey) -> int {
    key_position_from(s, key, 0)
}

/// The entries without the one for `key`.
pub open spec fn without_key<T>(s: Seq<CacheEntry<T>>, key: ThumbnailCacheKey) -> Seq<CacheEntry<T>> {
    if key_position(s, key) >= 0 {
        s.remove(key_position(s, key))
    } else {
        s
    }
}

/// Position of the first least recently used entry among the first `n`.
pub open spec fn lru_position_upto<T>(s: Seq<CacheEntry<T>>, n: int) -> int
    decreases n,
{
    if n <= 1 {
        0
    } else {
        let m = lru_position_upto(s, n - 1);
        if s[n - 1].last_accessed_frame < s[m].last_accessed_frame {
            n - 1
        } else {
            m
        }
    }
}

/// Position of the first least recently used entry.
pub open spec fn lru_position<T>(s: Seq<CacheEntry<T>>) -> int {
    lru_position_upto(s, s.len() as int)
}

/// The entries left after evicting least recently used entries, one at a
/// time, while their total size exceeds `budget`.
pub open spec fn evicted<T>(s: Seq<CacheEntry<T>>, budget: nat) -> Seq<CacheEntry<T>>
    decreases s.len(),
{
    if sum_bytes(s) <= budget || s.len() == 0 {
        s
    } else {
        proof {
            lemma_lru_position(s, s.len() as int);
        }
        evicted(s.remove(lru_position(s)), budget)
    }
}

/// A byte-budgeted least-recently-used cache of thumbnail textures.
pub struct ThumbnailCache<T> {
    entries: Vec<CacheEntry<T>>,
    total_bytes: usize,
    budget_bytes: usize,
    frame_counter: u64,
}

proof fn lemma_sum_remove<T>(s: Seq<CacheEntry<T>>, i: int)
    requires
        0 <= i < s.len(),
    ensures
        sum_bytes(s.remove(i)) + s[i].byte_size == sum_bytes(s),
    decreases s.len(),
{
    if i == s.len() - 1 {
        assert(s.remove(i) =~= s.drop_last());
    } else {
        lemma_sum_remove(s.drop_last(), i);
        assert(s.remove(i).drop_last() =~= s.drop_last().remove(i));
        assert(s.remove(i).last() == s.last());
    }
}

proof fn lemma_sum_push<T>(s: Seq<CacheEntry<T>>, e: CacheEntry<T>)
    ensures
        sum_bytes(s.push(e)) == sum_bytes(s) + e.byte_size,
{
    assert(s.push(e).drop_last() =~= s);
}

proof fn lemma_key_position<T>(s: Seq<CacheEntry<T>>, key: ThumbnailCacheKey, i: int)
    requires
        0 <= i <= s.len(),
    ensures
        key_position_from(s, key, i) == -1 || i <= key_position_from(s, key, i) < s.len(),
        key_position_from(s, key, i) >= 0 ==> s[key_position_from(s, key, i)].key == key,
        key_position_from(s, key, i) == -1 ==> forall|j: int| i <= j < s.len() ==> s[j].key != key,
    decreases s.len() - i,
{
    if i < s.len() && s[i].key != key {
        lemma_key_position(s, key, i + 1);
    }
}

/// The least recently used position lies among the first `n` entries, and no
/// entry among them was used earlier.
pub proof fn lemma_lru_position<T>(s: Seq<CacheEntry<T>>, n: int)
    requires
        1 <= n <= s.len(),
    ensures
        0 <= lru_position_upto(s, n) < n,
        forall|j: int|
            0 <= j < n ==> s[lru_position_upto(s, n)].last_accessed_frame <= (
            #[trigger] s[j]).last_accessed_frame,
    decreases n,
{
    if n > 1 {
        lemma_lru_position(s, n - 1);
    }
}

/// Evicting keeps a part of the entries, in their order, whose total size is
/// within the budget; nothing is evicted from entries that already fit; and
/// every evicted entry was used no more recently than every entry that stays.
pub proof fn lemma_evicted<T>(s: Seq<CacheEntry<T>>, budget: nat)
    ensures
        sum_bytes(evicted(s, budget)) <= budget,
        sum_bytes(s) <= budget ==> evicted(s, budget) == s,
        forall|y: CacheEntry<T>| #[trigger] evicted(s, budget).contains(y) ==> s.contains(y),
        forall|x: CacheEntry<T>, y: CacheEntry<T>|
            s.contains(x) && !evicted(s, budget).contains(x) && #[trigger] evicted(s, budget).contains(y)
                ==> #[trigger] x.last_accessed_frame <= y.last_accessed_frame,
        evicted(s, budget).len() <= s.len(),
    decreases s.len(),
{
    if sum_bytes(s) <= budget || s.len() == 0 {
        if s.len() == 0 {
            assert(sum_bytes(s) == 0);
        }
    } else {
        let m = lru_position(s);
        lemma_lru_position(s, s.len() as int);
        let t = s.remove(m);
        lemma_evicted(t, budget);
        let r = evicted(s, budget);
        assert(r == evicted(t, budget));
        assert forall|y: CacheEntry<T>| #[trigger] r.contains(y) implies s.contains(y) by {
            assert(t.contains(y));
            let k = choose|k: int| 0 <= k < t.len() && t[k] == y;
            if k < m {
                assert(s[k] == y);
            } else {
                assert(s[k + 1] == y);
            }
        }
        assert forall|x: CacheEntry<T>, y: CacheEntry<T>|
            s.contains(x) && !r.contains(x) && #[trigger] r.contains(y) implies #[trigger] x.last_accessed_frame
            <= y.last_accessed_frame by {
            let kx = choose|k: int| 0 <= k < s.len() && s[k] == x;
            let ky = choose|k: int| 0 <= k < s.len() && s[k] == y;
            assert(s.contains(y));
            if kx == m {
                assert(s[m].last_accessed_frame <= s[ky].last_accessed_frame);
            } else {
                if kx < m {
                    assert(t[kx] == x);
                } else {
                    assert(t[kx - 1] == x);
                }
                assert(t.contains(x));
            }
        }
    }
}


/// An entry that fits in the budget and was used no earlier than every other
/// entry survives eviction: a freshly cached thumbnail within the budget is
/// still cached afterwards.
pub proof fn lemma_newest_survives<T>(s: Seq<CacheEntry<T>>, e: CacheEntry<T>, budget: nat)
    requires
        e.byte_size <= budget,
        forall|i: int| 0 <= i < s.len() ==> (#[trigger] s[i]).last_accessed_frame <= e.last_accessed_frame,
    ensures
        evicted(s.push(e), budget).contains(e),
    decreases s.len(),
{
    let t = s.push(e);
    if sum_bytes(t) <= budget {
        assert(t[t.len() - 1] == e);
    } else if s.len() == 0 {
        lemma_sum_push(s, e);
        assert(sum_bytes(s) == 0);
    } else {
        let n = t.len() as int;
        lemma_lru_position(t, n - 1);
        let m = lru_position_upto(t, n - 1);
        assert(t[m] == s[m]);
        assert(!(t[n - 1].last_accessed_frame < t[m].last_accessed_frame));
        assert(lru_position(t) == m);
        assert(t.remove(m) =~= s.remove(m).push(e));
        assert forall|i: int| 0 <= i < s.remove(m).len() implies (#[trigger] s.remove(m)[i]).last_accessed_frame
            <= e.last_accessed_frame by {
            let i0 = if i < m { i } else { i + 1 };
            assert(s.remove(m)[i] == s[i0]);
        }
        lemma_newest_survives(s.remove(m), e, budget);
    }
}

impl<T> CacheEntry<T> {
    /// Whether this entry is the one for `key`.
    fn has_key(&self, key: ThumbnailCacheKey) -> (b: bool)
        ensures
            b == (self.key == key),
    {
        self.key.page.0 == key.page.0 && self.key.rotation == key.rotation
    }
}

impl<T> ThumbnailCache<T> {
    /// The cached entries, in insertion order.
    pub closed spec fn entries(&self) -> Seq<CacheEntry<T>> {
        self.entries@
    }

    /// The recorded total size of the cached textures.
    pub closed spec fn total(&self) -> nat {
        self.total_bytes as nat
    }

    /// The byte budget.
    pub closed spec fn budget(&self) -> nat {
        self.budget_bytes as nat
    }

    /// The current frame number.
    pub closed spec fn frame(&self) -> u64 {
        self.frame_counter
    }

    /// The cache's invariant: the recorded total is the sum of the entry
    /// sizes and within the budget, no key occurs twice, and no entry was
    /// used after the current frame.
    pub closed spec fn wf(&self) -> bool {
        &&& self.total_bytes == sum_bytes(self.entries@)
        &&& self.total_bytes <= self.budget_bytes
        &&& keys_distinct(self.entries@)
        &&& forall|i: int|
            0 <= i < self.entries@.len() ==> (#[trigger] self.entries@[i]).last_accessed_frame
                <= self.frame_counter
    }

    /// What the invariant says of a cache: its recorded total is the sum of
    /// the entry sizes and within the budget, no key occurs twice, and no
    /// entry was used after the current frame.
    pub proof fn lemma_wf_facts(&self)
        requires
            self.wf(),
        ensures
            self.total() == sum_bytes(self.entries()),
            self.total() <= self.budget(),
            keys_distinct(self.entries()),
            forall|i: int|
                0 <= i < self.entries().len() ==> (#[trigger] self.entries()[i]).last_accessed_frame
                    <= self.frame(),
    {
    }

    /// An empty cache with the given budget, at frame zero.
    pub fn new(budget_bytes: usize) -> (cache: ThumbnailCache<T>)
        ensures
            cache.wf(),
            cache.entries() == Seq::<CacheEntry<T>>::empty(),
            cache.total() == 0,
            cache.budget() == budget_bytes,
            cache.frame() == 0,
    {
        ThumbnailCache { entries: Vec::new(), total_bytes: 0, budget_bytes, frame_counter: 0 }
    }

    fn find(&self, key: ThumbnailCacheKey) -> (pos: Option<usize>)
        ensures
            match pos {
                Some(i) => i == key_position(self.entries@, key),
                None => key_position(self.entries@, key) == -1,
            },
    {
        let mut i: usize = 0;
        while i < self.entries.len()
            invariant
                i <= self.entries@.len(),
                key_position(self.entries@, key) == key_position_from(self.entries@, key, i as int),
            decreases self.entries.len() - i,
        {
            if self.entries[i].has_key(key) {
                return Some(i);
            }
            i += 1;
        }
        None
    }

    /// Whether a texture for `key` is cached; a lookup counts as a use in the
    /// current frame.
    pub fn touch(&mut self, key: ThumbnailCacheKey) -> (hit: bool)
        requires
            old(self).wf(),
        ensures
            final(self).wf(),
            hit == (key_position(old(self).entries(), key) >= 0),
            final(self).entries() == if hit {
                let i = key_position(old(self).entries(), key);
                old(self).entries().update(
                    i,
                    CacheEntry { last_accessed_frame: old(self).frame(), ..old(self).entries()[i] },
                )
            } else {
                old(self).entries()
            },
            final(self).total() == old(self).total(),
            final(self).budget() == old(self).budget(),
            final(self).frame() == old(self).frame(),
    {
        proof {
            lemma_key_position(self.entries@, key, 0);
        }
        match self.find(key) {
            None => false,
            Some(i) => {
                let ghost before = self.entries@;
                let mut entry = self.entries.remove(i);
                entry.last_accessed_frame = self.frame_counter;
                self.entries.insert(i, entry);
                proof {
                    assert(self.entries@ =~= before.update(
                        i as int,
                        CacheEntry { last_accessed_frame: self.frame_counter, ..before[i as int] },
                    ));
                    lemma_sum_remove(before, i as int);
                    lemma_sum_remove(self.entries@, i as int);
                    assert(self.entries@.remove(i as int) =~= before.remove(i as int));
                    assert forall|a: int, b: int| 0 <= a < b < self.entries@.len() implies (
                    #[trigger] self.entries@[a]).key != (#[trigger] self.entries@[b]).key by {
                        assert(before[a].key != before[b].key);
                    }
                    assert forall|a: int| 0 <= a < self.entries@.len() implies (
                    #[trigger] self.entries@[a]).last_accessed_frame <= self.frame_counter by {
                        assert(before[a].last_accessed_frame <= self.frame_counter);
                    }
                }
                true
            },
        }
    }

    /// Evict least recently used entries while the total exceeds the budget.
    fn evict_to_budget(&mut self)
        requires
            old(self).total_bytes == sum_bytes(old(self).entries@),
            keys_distinct(old(self).entries@),
            forall|i: int|
                0 <= i < old(self).entries@.len() ==> (#[trigger] old(self).entries@[i]).last_accessed_frame
                    <= old(self).frame_counter,
        ensures
            final(self).wf(),
            final(self).entries@ == evicted(old(self).entries@, old(self).budget_bytes as nat),
            final(self).budget_bytes == old(self).budget_bytes,
            final(self).frame_counter == old(self).frame_counter,
    {
        let ghost target = evicted(self.entries@, self.budget_bytes as nat);
        while self.total_bytes > self.budget_bytes && self.entries.len() > 0
            invariant
                self.total_bytes == sum_bytes(self.entries@),
                keys_distinct(self.entries@),
                forall|i: int|
                    0 <= i < self.entries@.len() ==> (#[trigger] self.entries@[i]).last_accessed_frame
                        <= self.frame_counter,
                evicted(self.entries@, self.budget_bytes as nat) == target,
                self.budget_bytes == old(self).budget_bytes,
                self.frame_counter == old(self).frame_counter,
            decreases self.entries.len(),
        {
            let mut m: usize = 0;
            let mut j: usize = 1;
            while j < self.entries.len()
                invariant
                    1 <= j <= self.entries@.len(),
                    m == lru_position_upto(self.entries@, j as int),
                    m < j,
                decreases self.entries.len() - j,
            {
                proof {
                    lemma_lru_position(self.entries@, j as int);
                }
                if self.entries[j].last_accessed_frame < self.entries[m].last_accessed_frame {
                    m = j;
                }
                j += 1;
            }
            let ghost before = self.entries@;
            proof {
                lemma_sum_remove(before, m as int);
            }
            let removed = self.entries.remove(m);
            self.total_bytes = self.total_bytes - removed.byte_size;
            proof {
                assert forall|a: int, b: int| 0 <= a < b < self.entries@.len() implies (
                #[trigger] self.entries@[a]).key != (#[trigger] self.entries@[b]).key by {
                    let a0 = if a < m { a } else { a + 1 };
                    let b0 = if b < m { b } else { b + 1 };
                    assert(self.entries@[a] == before[a0]);
                    assert(self.entries@[b] == before[b0]);
                }
                assert forall|a: int| 0 <= a < self.entries@.len() implies (
                #[trigger] self.entries@[a]).last_accessed_frame <= self.frame_counter by {
                    let a0 = if a < m { a } else { a + 1 };
                    assert(self.entries@[a] == before[a0]);
                }
            }
        }
        proof {
            if self.entries@.len() == 0 {
                assert(sum_bytes(self.entries@) == 0);
            }
            lemma_evicted(old(self).entries@, old(self).budget_bytes as nat);
        }
    }

    /// Cache a texture for `key` of `byte_size` bytes, used in the current
    /// frame, replacing any texture cached for the same key. A texture larger
    /// than the whole budget is not cached (and the old one is gone). Least
    /// recently used entries are then evicted until the budget is met.
    pub fn insert(&mut self, key: ThumbnailCacheKey, texture: T, byte_size: usize)
        requires
            old(self).wf(),
            old(self).total() + byte_size <= usize::MAX,
        ensures
            final(self).wf(),
            final(self).entries() == if byte_size > old(self).budget() {
                without_key(old(self).entries(), key)
            } else {
                evicted(
                    without_key(old(self).entries(), key).push(
                        CacheEntry {
                            key,
                            texture,
                            byte_size,
                            last_accessed_frame: old(self).frame(),
                        },
                    ),
                    old(self).budget(),
                )
            },
            byte_size <= old(self).budget() ==> final(self).entries().contains(
                CacheEntry { key, texture, byte_size, last_accessed_frame: old(self).frame() },
            ),
            final(self).total() == sum_bytes(final(self).entries()),
            final(self).total() <= final(self).budget(),
            keys_distinct(final(self).entries()),
            final(self).budget() == old(self).budget(),
            final(self).frame() == old(self).frame(),
    {
        proof {
            lemma_key_position(self.entries@, key, 0);
        }
        match self.find(key) {
            None => {},
            Some(i) => {
                let ghost before = self.entries@;
                proof {
                    lemma_sum_remove(before, i as int);
                }
                let old_entry = self.entries.remove(i);
                self.total_bytes = self.total_bytes - old_entry.byte_size;
                proof {
                    assert forall|a: int, b: int| 0 <= a < b < self.entries@.len() implies (
                    #[trigger] self.entries@[a]).key != (#[trigger] self.entries@[b]).key by {
                        let a0 = if a < i { a } else { a + 1 };
                        let b0 = if b < i { b } else { b + 1 };
                        assert(self.entries@[a] == before[a0]);
                        assert(self.entries@[b] == before[b0]);
                    }
                    assert forall|a: int| 0 <= a < self.entries@.len() implies (
                    #[trigger] self.entries@[a]).last_accessed_frame <= self.frame_counter by {
                        let a0 = if a < i { a } else { a + 1 };
                        assert(self.entries@[a] == before[a0]);
                    }
                }
            },
        }
        let ghost rest = self.entries@;
        assert(rest == without_key(old(self).entries@, key));
        if byte_size > self.budget_bytes {
            return ;
        }
        proof {
            lemma_key_position(rest, key, 0);
            lemma_sum_push(
                rest,
                CacheEntry { key, texture, byte_size, last_accessed_frame: self.frame_counter },
            );
        }
        let frame = self.frame_counter;
        let ghost new_entry = CacheEntry { key, texture, byte_size, last_accessed_frame: frame };
        proof {
            assert forall|a: int| 0 <= a < rest.len() implies (#[trigger] rest[a]).last_accessed_frame
                <= new_entry.last_accessed_frame by {
                assert(rest[a].last_accessed_frame <= self.frame_counter);
            }
            lemma_newest_survives(rest, new_entry, self.budget_bytes as nat);
        }
        self.entries.push(CacheEntry { key, texture, byte_size, last_accessed_frame: frame });
        self.total_bytes = self.total_bytes + byte_size;
        proof {
            assert forall|a: int, b: int| 0 <= a < b < self.entries@.len() implies (
            #[trigger] self.entries@[a]).key != (#[trigger] self.entries@[b]).key by {
                if b == self.entries@.len() - 1 {
                    assert(rest[a].key != key);
                } else {
                    assert(rest[a].key != rest[b].key);
                }
            }
            assert forall|a: int| 0 <= a < self.entries@.len() implies (
            #[trigger] self.entries@[a]).last_accessed_frame <= self.frame_counter by {
                if a < rest.len() {
                    assert(self.entries@[a] == rest[a]);
                }
            }
        }
        self.evict_to_budget();
    }

    /// The recorded total size of the cached textures.
    pub fn total_bytes(&self) -> (bytes: usize)
        ensures
            bytes == self.total(),
            self.wf() ==> bytes == sum_bytes(self.entries()) && bytes <= self.budget(),
    {
        self.total_bytes
    }

    /// Change the budget, evicting least recently used entries until the new
    /// budget is met.
    pub fn set_budget(&mut self, bytes: usize)
        requires
            old(self).wf(),
        ensures
            final(self).wf(),
            final(self).entries() == evicted(old(self).entries(), bytes as nat),
            final(self).total() == sum_bytes(final(self).entries()),
            final(self).total() <= final(self).budget(),
            keys_distinct(final(self).entries()),
            final(self).budget() == bytes,
            final(self).frame() == old(self).frame(),
    {
        self.budget_bytes = bytes;
        self.evict_to_budget();
    }

    /// Drop every cached texture.
    pub fn clear(&mut self)
        requires
            old(self).wf(),
        ensures
            final(self).wf(),
            final(self).entries() == Seq::<CacheEntry<T>>::empty(),
            final(self).total() == 0,
            final(self).budget() == old(self).budget(),
            final(self).frame() == old(self).frame(),
    {
        self.entries.clear();
        self.total_bytes = 0;
    }

    /// Advance to the next frame (the counter stops at its maximum).
    pub fn tick_frame(&mut self)
        requires
            old(self).wf(),
        ensures
            final(self).wf(),
            final(self).entries() == old(self).entries(),
            final(self).total() == old(self).total(),
            final(self).budget() == old(self).budget(),
            final(self).frame() == if old(self).frame() == u64::MAX {
                u64::MAX
            } else {
                (old(self).frame() + 1) as u64
            },
    {
        self.frame_counter = self.frame_counter.saturating_add(1);
    }
}


/// The abstract state of a [`ThumbnailPlugin`], without its cache.
pub struct ThumbnailPluginView {
    /// Whether the sidebar is shown.
    pub visible: bool,
    /// Pages waiting for a thumbnail, in request order.
    pub pending_pages: Seq<PageIndex>,
    /// Width of rendered thumbnails in pixels.
    pub thumbnail_width: u32,
    /// A page whose thumbnail was clicked and not yet navigated to.
    pub pending_click_page: Option<PageIndex>,
    /// The first visible page, as last seen.
    pub active_page: Option<usize>,
    /// Identity of the document the state belongs to.
    pub document_identity: Option<usize>,
}

/// Plugin state of the page-thumbnail sidebar; `T` is the texture type.
pub struct ThumbnailPlugin<T> {
    visible: bool,
    cache: ThumbnailCache<T>,
    pending_pages: Vec<PageIndex>,
    thumbnail_width: u32,
    pending_click_page: Option<PageIndex>,
    active_page: Option<usize>,
    document_identity: Option<usize>,
}

impl<T> View for ThumbnailPlugin<T> {
    type V = ThumbnailPluginView;

    closed spec fn view(&self) -> ThumbnailPluginView {
        ThumbnailPluginView {
            visible: self.visible,
            pending_pages: self.pending_pages@,
            thumbnail_width: self.thumbnail_width,
            pending_click_page: self.pending_click_page,
            active_page: self.active_page,
            document_identity: self.document_identity,
        }
    }
}

/// The first visible page, if any page is visible.
pub open spec fn first_visible(visible_pages: Seq<PageIndex>) -> Option<usize> {
    if visible_pages.len() == 0 {
        None
    } else {
        Some(visible_pages[0].0)
    }
}

/// The view of the state for a new document: nothing waiting, no click and no
/// active page. (The cache, which the view leaves out, is emptied along with
/// it; the functions that reset say so of the cache.)
pub open spec fn document_reset(v: ThumbnailPluginView) -> ThumbnailPluginView {
    ThumbnailPluginView {
        pending_pages: Seq::empty(),
        pending_click_page: None,
        active_page: None,
        ..v
    }
}

/// Whether a frame with the open document `document` (`None` when none is
/// open) leaves the document the state belonged to: a document was followed
/// and none is open now, or another document is open.
pub open spec fn document_changes(current: Option<usize>, document: Option<usize>) -> bool {
    match document {
        None => current.is_some(),
        Some(id) => current != Some(id),
    }
}

impl<T> ThumbnailPlugin<T> {
    /// The thumbnail texture cache.
    pub closed spec fn cache(&self) -> ThumbnailCache<T> {
        self.cache
    }

    /// The plugin's invariant: its cache is well formed.
    pub closed spec fn wf(&self) -> bool {
        self.cache.wf()
    }

    /// The cache of a well-formed plugin never holds more than its budget,
    /// records its size truly and holds each key once. Every method keeps
    /// the plugin well formed and only `set_cache_budget` changes the budget,
    /// so after `set_cache_budget(b)` the cache stays within `b` through every
    /// later frame update, lookup and insert until the budget changes again.
    pub proof fn lemma_within_budget(&self)
        requires
            self.wf(),
        ensures
            self.cache().wf(),
            sum_bytes(self.cache().entries()) <= self.cache().budget(),
            self.cache().total() == sum_bytes(self.cache().entries()),
            keys_distinct(self.cache().entries()),
    {
        self.cache.lemma_wf_facts();
    }

    /// Create a new thumbnail plugin: hidden, empty cache with the default
    /// budget, thumbnails 120 pixels wide.
    pub fn new() -> (plugin: ThumbnailPlugin<T>)
        ensures
            plugin.wf(),
            !plugin@.visible,
            plugin@.pending_pages == Seq::<PageIndex>::empty(),
            plugin@.thumbnail_width == DEFAULT_THUMBNAIL_WIDTH,
            plugin@.pending_click_page.is_none(),
            plugin@.active_page.is_none(),
            plugin@.document_identity.is_none(),
            plugin.cache().entries() == Seq::<CacheEntry<T>>::empty(),
            plugin.cache().budget() == DEFAULT_THUMBNAIL_BUDGET,
            plugin.cache().frame() == 0,
    {
        ThumbnailPlugin {
            visible: false,
            cache: ThumbnailCache::new(DEFAULT_THUMBNAIL_BUDGET),
            pending_pages: Vec::new(),
            thumbnail_width: DEFAULT_THUMBNAIL_WIDTH,
            pending_click_page: None,
            active_page: None,
            document_identity: None,
        }
    }

    /// A stable identifier for this plugin.
    pub fn id(&self) -> (id: &'static str)
        ensures
            id@ == "viewkai.thumbnail"@,
    {
        "viewkai.thumbnail"
    }

    /// Forget everything that belongs to the current document.
    pub fn reset_document_state(&mut self)
        requires
            old(self).wf(),
        ensures
            final(self).wf(),
            final(self)@ == document_reset(old(self)@),
            final(self).cache().entries() == Seq::<CacheEntry<T>>::empty(),
            final(self).cache().budget() == old(self).cache().budget(),
            final(self).cache().frame() == old(self).cache().frame(),
    {
        self.cache.clear();
        self.pending_pages.clear();
        self.pending_click_page = None;
        self.active_page = None;
    }

    /// Make the state belong to the document with the given identity:
    /// switching to another document forgets the old one's state.
    pub fn sync_document(&mut self, identity: usize)
        requires
            old(self).wf(),
        ensures
            final(self).wf(),
            final(self)@ == if old(self)@.document_identity == Some(identity) {
                old(self)@
            } else {
                ThumbnailPluginView {
                    document_identity: Some(identity),
                    ..document_reset(old(self)@)
                }
            },
            old(self)@.document_identity == Some(identity) ==> final(self).cache() == old(
                self,
            ).cache(),
            old(self)@.document_identity != Some(identity) ==> final(self).cache().entries()
                == Seq::<CacheEntry<T>>::empty(),
            final(self).cache().budget() == old(self).cache().budget(),
            final(self).cache().frame() == old(self).cache().frame(),
    {
        let same = match self.document_identity {
            Some(current) => current == identity,
            None => false,
        };
        if !same {
            self.reset_document_state();
            self.document_identity = Some(identity);
        }
    }

    /// Make the first visible page the active one; returns whether it changed.
    pub fn update_active_page(&mut self, visible_pages: &[PageIndex]) -> (changed: bool)
        ensures
            final(self)@ == (ThumbnailPluginView {
                active_page: first_visible(visible_pages@),
                ..old(self)@
            }),
            changed == (old(self)@.active_page != first_visible(visible_pages@)),
            final(self).cache() == old(self).cache(),
            final(self).wf() == old(self).wf(),
    {
        let next: Option<usize> = if visible_pages.len() == 0 {
            None
        } else {
            Some(visible_pages[0].0)
        };
        let same = match (self.active_page, next) {
            (None, None) => true,
            (Some(a), Some(b)) => a == b,
            _ => false,
        };
        if same {
            return false;
        }
        self.active_page = next;
        true
    }

    /// The first visible page, as last seen.
    pub fn active_page(&self) -> (page: Option<usize>)
        ensures
            page == self@.active_page,
    {
        self.active_page
    }

    /// Set the thumbnail cache budget in bytes.
    pub fn set_cache_budget(&mut self, bytes: usize)
        requires
            old(self).wf(),
        ensures
            final(self).wf(),
            final(self)@ == old(self)@,
            final(self).cache().entries() == evicted(old(self).cache().entries(), bytes as nat),
            final(self).cache().budget() == bytes,
            final(self).cache().frame() == old(self).cache().frame(),
    {
        self.cache.set_budget(bytes);
    }

    /// Return the current thumbnail cache usage in bytes.
    pub fn cache_bytes(&self) -> (bytes: usize)
        requires
            self.wf(),
        ensures
            bytes == self.cache().total(),
            bytes == sum_bytes(self.cache().entries()),
            bytes <= self.cache().budget(),
    {
        self.cache.total_bytes()
    }

    /// Return whether the thumbnail sidebar is visible.
    pub fn visible(&self) -> (visible: bool)
        ensures
            visible == self@.visible,
    {
        self.visible
    }

    /// Show or hide the thumbnail sidebar.
    pub fn set_visible(&mut self, visible: bool)
        ensures
            final(self)@ == (ThumbnailPluginView { visible, ..old(self)@ }),
            final(self).cache() == old(self).cache(),
            final(self).wf() == old(self).wf(),
    {
        self.visible = visible;
    }

    /// Return the currently queued click target, if any.
    pub fn pending_click_page(&self) -> (page: Option<PageIndex>)
        ensures
            page == self@.pending_click_page,
    {
        self.pending_click_page
    }

    /// Queue navigation to a page whose thumbnail was clicked.
    pub fn click_page(&mut self, page: PageIndex)
        ensures
            final(self)@ == (ThumbnailPluginView { pending_click_page: Some(page), ..old(self)@ }),
            final(self).cache() == old(self).cache(),
            final(self).wf() == old(self).wf(),
    {
        self.pending_click_page = Some(page);
    }

    /// Take the queued click target, leaving none.
    pub fn take_pending_click(&mut self) -> (page: Option<PageIndex>)
        ensures
            page == old(self)@.pending_click_page,
            final(self)@ == (ThumbnailPluginView { pending_click_page: None, ..old(self)@ }),
            final(self).cache() == old(self).cache(),
            final(self).wf() == old(self).wf(),
    {
        self.pending_click_page.take()
    }

    /// Width of rendered thumbnails in pixels.
    pub fn thumbnail_width(&self) -> (width: u32)
        ensures
            width == self@.thumbnail_width,
    {
        self.thumbnail_width
    }

    /// Whether pages are still waiting for a thumbnail.
    pub fn has_pending(&self) -> (pending: bool)
        ensures
            pending == (self@.pending_pages.len() > 0),
    {
        self.pending_pages.len() > 0
    }

    /// Whether a texture for `key` is cached; the lookup counts as a use.
    pub fn touch_cached(&mut self, key: ThumbnailCacheKey) -> (hit: bool)
        requires
            old(self).wf(),
        ensures
            final(self).wf(),
            final(self)@ == old(self)@,
            hit == (key_position(old(self).cache().entries(), key) >= 0),
            final(self).cache().entries() == if hit {
                let i = key_position(old(self).cache().entries(), key);
                old(self).cache().entries().update(
                    i,
                    CacheEntry {
                        last_accessed_frame: old(self).cache().frame(),
                        ..old(self).cache().entries()[i]
                    },
                )
            } else {
                old(self).cache().entries()
            },
            final(self).cache().total() == old(self).cache().total(),
            final(self).cache().budget() == old(self).cache().budget(),
            final(self).cache().frame() == old(self).cache().frame(),
    {
        self.cache.touch(key)
    }

    /// Cache a freshly rendered thumbnail.
    pub fn store_thumbnail(&mut self, key: ThumbnailCacheKey, texture: T, byte_size: usize)
        requires
            old(self).wf(),
            old(self).cache().total() + byte_size <= usize::MAX,
        ensures
            final(self).wf(),
            final(self)@ == old(self)@,
            final(self).cache().entries() == if byte_size > old(self).cache().budget() {
                without_key(old(self).cache().entries(), key)
            } else {
                evicted(
                    without_key(old(self).cache().entries(), key).push(
                        CacheEntry {
                            key,
                            texture,
                            byte_size,
                            last_accessed_frame: old(self).cache().frame(),
                        },
                    ),
                    old(self).cache().budget(),
                )
            },
            final(self).cache().budget() == old(self).cache().budget(),
            final(self).cache().frame() == old(self).cache().frame(),
    {
        self.cache.insert(key, texture, byte_size);
    }

    /// The per-frame update: advance the cache's frame, follow the first
    /// visible page, drop all state when no document is open (or follow the
    /// open one), and take up to three waiting pages to render now. Returns
    /// whether the active page changed, and the pages to render.
    pub fn begin_frame(&mut self, visible_pages: &[PageIndex], document: Option<usize>) -> (out: (
        bool,
        Vec<PageIndex>,
    ))
        requires
            old(self).wf(),
        ensures
            final(self).wf(),
            out.0 == (old(self)@.active_page != first_visible(visible_pages@)),
            ({
                let v = ThumbnailPluginView { active_page: first_visible(visible_pages@), ..old(self)@ };
                match document {
                    None => {
                        &&& out.1@.len() == 0
                        &&& final(self)@ == if v.document_identity.is_some() {
                            ThumbnailPluginView { document_identity: None, ..document_reset(v) }
                        } else {
                            v
                        }
                    },
                    Some(id) => {
                        let w = if v.document_identity == Some(id) {
                            v
                        } else {
                            ThumbnailPluginView { document_identity: Some(id), ..document_reset(v) }
                        };
                        let n = if w.pending_pages.len() < THUMBNAILS_PER_FRAME {
                            w.pending_pages.len() as int
                        } else {
                            THUMBNAILS_PER_FRAME as int
                        };
                        &&& out.1@ == w.pending_pages.take(n)
                        &&& final(self)@ == ThumbnailPluginView {
                            pending_pages: w.pending_pages.skip(n),
                            ..w
                        }
                    },
                }
            }),
            final(self).cache().entries() == if document_changes(old(self)@.document_identity, document) {
                Seq::<CacheEntry<T>>::empty()
            } else {
                old(self).cache().entries()
            },
            final(self).cache().frame() == if old(self).cache().frame() == u64::MAX {
                u64::MAX
            } else {
                (old(self).cache().frame() + 1) as u64
            },
            final(self).cache().budget() == old(self).cache().budget(),
    {
        self.cache.tick_frame();
        let changed = self.update_active_page(visible_pages);
        match document {
            None => {
                if self.document_identity.is_some() {
                    self.document_identity = None;
                    self.reset_document_state();
                }
                (changed, Vec::new())
            },
            Some(id) => {
                self.sync_document(id);
                let n: usize = if self.pending_pages.len() < THUMBNAILS_PER_FRAME {
                    self.pending_pages.len()
                } else {
                    THUMBNAILS_PER_FRAME
                };
                let mut now = self.pending_pages.split_off(n);
                std::mem::swap(&mut now, &mut self.pending_pages);
                (changed, now)
            },
        }
    }
}

fn queue_contains(queue: &Vec<PageIndex>, page: PageIndex) -> (found: bool)
    ensures
        found == queue@.contains(page),
{
    let mut i: usize = 0;
    while i < queue.len()
        invariant
            i <= queue@.len(),
            forall|j: int| 0 <= j < i ==> queue@[j] != page,
        decreases queue.len() - i,
    {
        if queue[i].0 == page.0 {
            assert(queue@[i as int] == page);
            return true;
        }
        i += 1;
    }
    false
}

impl<T: Clone> ThumbnailPlugin<T> {
    /// Return the cached thumbnail for a page of the document with the given
    /// identity, or queue the page for rendering. The flag tells whether the
    /// page was newly queued (and a repaint is due).
    pub fn thumbnail_texture(&mut self, document: usize, page: PageIndex, rotation: PdfPageRotation) -> (out: (
        Option<T>,
        bool,
    ))
        requires
            old(self).wf(),
        ensures
            final(self).wf(),
            ({
                let key = ThumbnailCacheKey { page, rotation };
                let same_doc = old(self)@.document_identity == Some(document);
                let v = if same_doc {
                    old(self)@
                } else {
                    ThumbnailPluginView { document_identity: Some(document), ..document_reset(old(self)@) }
                };
                let cached = same_doc && key_position(old(self).cache().entries(), key) >= 0;
                &&& out.0.is_some() == cached
                &&& out.0 matches Some(t) ==> cloned(
                    old(self).cache().entries()[key_position(old(self).cache().entries(), key)].texture,
                    t,
                )
                &&& out.1 == (!cached && !v.pending_pages.contains(page))
                &&& final(self)@ == if out.1 {
                    ThumbnailPluginView { pending_pages: v.pending_pages.push(page), ..v }
                } else {
                    v
                }
                &&& final(self).cache().entries() == if !same_doc {
                    Seq::<CacheEntry<T>>::empty()
                } else if cached {
                    let i = key_position(old(self).cache().entries(), key);
                    old(self).cache().entries().update(
                        i,
                        CacheEntry {
                            last_accessed_frame: old(self).cache().frame(),
                            ..old(self).cache().entries()[i]
                        },
                    )
                } else {
                    old(self).cache().entries()
                }
            }),
            final(self).cache().budget() == old(self).cache().budget(),
            final(self).cache().frame() == old(self).cache().frame(),
    {
        self.sync_document(document);
        let key = ThumbnailCacheKey { page, rotation };
        let found = self.cache.get(key);
        if found.is_some() {
            return (found, false);
        }
        if !queue_contains(&self.pending_pages, page) {
            self.pending_pages.push(page);
            return (None, true);
        }
        (None, false)
    }
}

impl<T: Clone> ThumbnailCache<T> {
    /// Look up the texture for `key`, marking it used in the current frame.
    pub fn get(&mut self, key: ThumbnailCacheKey) -> (texture: Option<T>)
        requires
            old(self).wf(),
        ensures
            final(self).wf(),
            texture.is_some() == (key_position(old(self).entries(), key) >= 0),
            texture matches Some(t) ==> cloned(
                old(self).entries()[key_position(old(self).entries(), key)].texture,
                t,
            ),
            final(self).entries() == if texture.is_some() {
                let i = key_position(old(self).entries(), key);
                old(self).entries().update(
                    i,
                    CacheEntry { last_accessed_frame: old(self).frame(), ..old(self).entries()[i] },
                )
            } else {
                old(self).entries()
            },
            final(self).total() == old(self).total(),
            final(self).budget() == old(self).budget(),
            final(self).frame() == old(self).frame(),
    {
        let hit = self.touch(key);
        if !hit {
            return None;
        }
        proof {
            lemma_key_position(old(self).entries@, key, 0);
        }
        match self.find(key) {
            Some(i) => {
                proof {
                    lemma_key_position(self.entries@, key, 0);
                    let p = key_position(old(self).entries@, key);
                    if i != p {
                        assert(self.entries@[p].key == key);
                    }
                }
                Some(self.entries[i].texture.clone())
            },
            None => {
                proof {
                    lemma_key_position(self.entries@, key, 0);
                    let p = key_position(old(self).entries@, key);
                    assert(self.entries@[p].key == key);
                }
                None
            },
        }
    }
}

} // verus!
