//! The cache of Steam user names: entries keyed by Steam id, each with the
//! number of times it was used and when it was last fetched. Entries expire
//! after thirty days; when the cache grows past fifty entries, the rarely used
//! ones are dropped. Loading and storing the cache file is left to the caller.

use vstd::prelude::*;

verus! {

/// Seconds after which an entry is stale: thirty days.
pub const EXPIRY_SECS: u64 = 2_592_000;

/// Entries kept before rarely used ones are dropped.
pub const SOFT_LIMIT: usize = 50;

/// Uses below which an entry counts as rarely used.
pub const RARE_USES: u32 = 3;

#[derive(Debug)]
pub struct CacheEntry {
    pub username: String,
    pub call_count: u32,
    /// Seconds since the Unix epoch.
    pub last_updated: u64,
}

impl CacheEntry {
    pub fn copy(&self) -> (r: CacheEntry)
        ensures
            r.username@ == self.username@,
            r.call_count == self.call_count,
            r.last_updated == self.last_updated,
    {
        CacheEntry {
            username: self.username.clone(),
            call_count: self.call_count,
            last_updated: self.last_updated,
        }
    }
}

/// An entry fetched at `last_updated` is stale at `now`.
pub open spec fn is_expired(last_updated: u64, now: u64) -> bool {
    now > last_updated && now - last_updated > EXPIRY_SECS
}

pub struct SteamCacheManager {
    pub entries: Vec<(String, CacheEntry)>,
    /// Names fetched from Steam since the cache was last cleared.
    pub call_count: u32,
}

/// The position of the entry for `id`, if any.
pub open spec fn position_of(s: Seq<(String, CacheEntry)>, id: Seq<char>, i: int) -> bool {
    0 <= i < s.len() && s[i].0@ == id
}

pub open spec fn has_id(s: Seq<(String, CacheEntry)>, id: Seq<char>) -> bool {
    exists|i: int| position_of(s, id, i)
}

/// Whether an entry goes: a rarely used one when `rare`, else a stale one.
pub open spec fn drops(e: CacheEntry, now: u64, rare: bool) -> bool {
    if rare {
        e.call_count < RARE_USES
    } else {
        is_expired(e.last_updated, now)
    }
}

/// The entries that stay, unchanged and in order.
pub open spec fn kept_entries(s: Seq<(String, CacheEntry)>, now: u64, rare: bool) -> Seq<
    (String, CacheEntry),
>
    decreases s.len(),
{
    if s.len() == 0 {
        Seq::empty()
    } else if drops(s.last().1, now, rare) {
        kept_entries(s.drop_last(), now, rare)
    } else {
        kept_entries(s.drop_last(), now, rare).push(s.last())
    }
}

impl SteamCacheManager {
    /// No two entries share an id.
    pub open spec fn wf(&self) -> bool {
        forall|i: int, j: int|
            0 <= i < j < self.entries@.len() ==> #[trigger] self.entries@[i].0@
                != #[trigger] self.entries@[j].0@
    }

    pub fn new() -> (r: SteamCacheManager)
        ensures
            r.wf(),
            r.entries@.len() == 0,
            r.call_count == 0,
    {
        SteamCacheManager { entries: Vec::new(), call_count: 0 }
    }

    pub fn get_cache_size(&self) -> (r: usize)
        ensures
            r == self.entries@.len(),
    {
        self.entries.len()
    }

    fn find(&self, id: &str) -> (r: Option<usize>)
        ensures
            r matches Some(i) ==> position_of(self.entries@, id@, i as int),
            r is None ==> !has_id(self.entries@, id@),
    {
        let mut i: usize = 0;
        while i < self.entries.len()
            invariant
                i <= self.entries@.len(),
                forall|j: int| 0 <= j < i ==> self.entries@[j].0@ != id@,
            decreases self.entries@.len() - i,
        {
            if self.entries[i].0.as_str().to_owned() == id.to_owned() {
                return Some(i);
            }
            i += 1;
        }
        None
    }

    /// Copies of all entries, in order.
    pub fn get_all_cache_entries(&self) -> (r: Vec<(String, CacheEntry)>)
        ensures
            r@.len() == self.entries@.len(),
            forall|i: int|
                0 <= i < r@.len() ==> {
                    &&& (#[trigger] r@[i]).0@ == self.entries@[i].0@
                    &&& r@[i].1.username@ == self.entries@[i].1.username@
                    &&& r@[i].1.call_count == self.entries@[i].1.call_count
                    &&& r@[i].1.last_updated == self.entries@[i].1.last_updated
                },
    {
        let mut r: Vec<(String, CacheEntry)> = Vec::new();
        let mut i: usize = 0;
        while i < self.entries.len()
            invariant
                i <= self.entries@.len(),
                r@.len() == i,
                forall|j: int|
                    0 <= j < i ==> {
                        &&& (#[trigger] r@[j]).0@ == self.entries@[j].0@
                        &&& r@[j].1.username@ == self.entries@[j].1.username@
                        &&& r@[j].1.call_count == self.entries@[j].1.call_count
                        &&& r@[j].1.last_updated == self.entries@[j].1.last_updated
                    },
            decreases self.entries@.len() - i,
        {
            let e = &self.entries[i];
            r.push((e.0.clone(), e.1.copy()));
            i += 1;
        }
        r
    }

    /// Empties the cache and resets the fetch count.
    pub fn clear_cache(&mut self)
        ensures
            final(self).wf(),
            final(self).entries@.len() == 0,
            final(self).call_count == 0,
    {
        self.entries = Vec::new();
        self.call_count = 0;
    }

    /// Keeps the entries for which `stale` is false, in order; returns how many went.
    fn drop_where(&mut self, now: u64, rare: bool) -> (r: usize)
        requires
            old(self).wf(),
        ensures
            final(self).wf(),
            final(self).call_count == old(self).call_count,
            final(self).entries@ == kept_entries(old(self).entries@, now, rare),
            r == old(self).entries@.len() - final(self).entries@.len(),
    {
        let ghost old_entries = self.entries@;
        let mut src: Vec<(String, CacheEntry)> = Vec::new();
        std::mem::swap(&mut src, &mut self.entries);
        assert(src@ == old_entries);
        let n = src.len();
        let mut kept: Vec<(String, CacheEntry)> = Vec::new();
        let mut i: usize = 0;
        while i < n
            invariant
                n == old_entries.len(),
                src@.len() == n - i,
                src@ == old_entries.subrange(i as int, n as int),
                kept@ == kept_entries(old_entries.subrange(0, i as int), now, rare),
                kept@.len() <= i,
                forall|a: int, b: int|
                    0 <= a < b < old_entries.len() ==> #[trigger] old_entries[a].0@
                        != #[trigger] old_entries[b].0@,
                forall|a: int|
                    0 <= a < kept@.len() ==> exists|b: int|
                        0 <= b < i && (#[trigger] kept@[a]).0@ == old_entries[b].0@,
                forall|a: int, b: int|
                    0 <= a < b < kept@.len() ==> #[trigger] kept@[a].0@ != #[trigger] kept@[b].0@,
            decreases n - i,
        {
            let e = src.remove(0);
            let ghost pre = old_entries.subrange(0, i as int);
            assert(old_entries.subrange(0, i + 1) =~= pre.push(old_entries[i as int]));
            assert(e == old_entries[i as int]);
            let stale = if rare {
                e.1.call_count < RARE_USES
            } else {
                now > e.1.last_updated && now - e.1.last_updated > EXPIRY_SECS
            };
            assert(stale == drops(e.1, now, rare));
            assert(pre.push(e).drop_last() =~= pre);
            if !stale {
                kept.push(e);
            }
            i += 1;
        }
        assert(old_entries.subrange(0, n as int) =~= old_entries);
        self.entries = kept;
        n - self.entries.len()
    }

    /// The cached name for `id` at time `now`. A stale entry is dropped and
    /// gives `None`; a fresh one counts one more use. The flag says that the
    /// use count reached a multiple of ten, when the cache is worth storing.
    pub fn get_cached_username(&mut self, steam_id: &str, now: u64) -> (r: Option<(String, bool)>)
        requires
            old(self).wf(),
        ensures
            final(self).wf(),
            final(self).call_count == old(self).call_count,
            !has_id(old(self).entries@, steam_id@) ==> r is None && final(self).entries@
                == old(self).entries@,
            forall|i: int|
                position_of(old(self).entries@, steam_id@, i) ==> {
                    let e = old(self).entries@[i].1;
                    if is_expired(e.last_updated, now) {
                        r is None && final(self).entries@ == old(self).entries@.remove(i)
                    } else if e.call_count == u32::MAX {
                        r is None && final(self).entries@ == old(self).entries@
                    } else {
                        &&& (r matches Some((name, store)) && name@ == e.username@ && store == (
                        (e.call_count as int + 1) % 10 == 0))
                        &&& final(self).entries@.len() == old(self).entries@.len()
                        &&& final(self).entries@[i].1.call_count == e.call_count + 1
                        &&& final(self).entries@[i].0@ == steam_id@
                        &&& final(self).entries@[i].1.username@ == e.username@
                        &&& final(self).entries@[i].1.last_updated == e.last_updated
                        &&& forall|j: int|
                            0 <= j < old(self).entries@.len() && j != i
                                ==> final(self).entries@[j] == old(self).entries@[j]
                    }
                },
    {
        let i = match self.find(steam_id) {
            Some(i) => i,
            None => {
                return None;
            },
        };
        let last = self.entries[i].1.last_updated;
        if now > last && now - last > EXPIRY_SECS {
            self.entries.remove(i);
            proof {
                assert forall|a: int, b: int|
                    0 <= a < b < self.entries@.len() implies #[trigger] self.entries@[a].0@
                    != #[trigger] self.entries@[b].0@ by {
                    let oa = if a < i { a } else { a + 1 };
                    let ob = if b < i { b } else { b + 1 };
                    assert(self.entries@[a] == old(self).entries@[oa]);
                    assert(self.entries@[b] == old(self).entries@[ob]);
                }
            }
            return None;
        }
        if self.entries[i].1.call_count == u32::MAX {
            return None;
        }
        let (id, entry) = self.entries.remove(i);
        let count = entry.call_count + 1;
        let name = entry.username.clone();
        let updated = CacheEntry {
            username: entry.username,
            call_count: count,
            last_updated: entry.last_updated,
        };
        self.entries.insert(i, (id, updated));
        proof {
            assert forall|j: int|
                0 <= j < old(self).entries@.len() && j != i implies self.entries@[j] == old(
                self,
            ).entries@[j] by {}
        }
        Some((name, count % 10 == 0))
    }

    /// Stores a freshly fetched name for `id`, with one use, fetched at `now`,
    /// and counts the fetch. Past fifty entries, the rarely used ones go.
    pub fn update_cache(&mut self, steam_id: &str, username: String, now: u64)
        requires
            old(self).wf(),
        ensures
            final(self).wf(),
            final(self).call_count == if old(self).call_count == u32::MAX {
                u32::MAX
            } else {
                (old(self).call_count + 1) as u32
            },
            old(self).entries@.len() < SOFT_LIMIT ==> has_id(final(self).entries@, steam_id@),
            final(self).entries@.len() <= old(self).entries@.len() + 1,
    {
        let entry = CacheEntry { username, call_count: 1, last_updated: now };
        match self.find(steam_id) {
            Some(i) => {
                let (id, _old) = self.entries.remove(i);
                self.entries.insert(i, (id, entry));
                proof {
                    assert forall|a: int, b: int|
                        0 <= a < b < self.entries@.len() implies #[trigger] self.entries@[a].0@
                        != #[trigger] self.entries@[b].0@ by {
                        if a != i {
                            assert(self.entries@[a] == old(self).entries@[a]);
                        }
                        if b != i {
                            assert(self.entries@[b] == old(self).entries@[b]);
                        }
                    }
                    assert(position_of(self.entries@, steam_id@, i as int));
                }
            },
            None => {
                self.entries.push((steam_id.to_owned(), entry));
                proof {
                    assert(position_of(self.entries@, steam_id@, self.entries@.len() - 1));
                    assert forall|a: int, b: int|
                        0 <= a < b < self.entries@.len() implies #[trigger] self.entries@[a].0@
                        != #[trigger] self.entries@[b].0@ by {
                        assert(self.entries@[a] == old(self).entries@[a]);
                        if b < old(self).entries@.len() {
                            assert(self.entries@[b] == old(self).entries@[b]);
                        } else {
                            assert(!position_of(old(self).entries@, steam_id@, a));
                        }
                    }
                }
            },
        }
        self.call_count = self.call_count.saturating_add(1);
        if self.entries.len() > SOFT_LIMIT {
            self.drop_where(now, true);
        }
    }

    /// Drops the stale entries; returns how many went.
    pub fn cleanup_expired_cache(&mut self, now: u64) -> (r: usize)
        requires
            old(self).wf(),
        ensures
            final(self).wf(),
            final(self).call_count == old(self).call_count,
            final(self).entries@ == kept_entries(old(self).entries@, now, false),
            r == old(self).entries@.len() - final(self).entries@.len(),
    {
        self.drop_where(now, false)
    }
}

} // verus!
