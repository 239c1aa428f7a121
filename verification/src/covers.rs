//! The in-memory cover-art cache: a least-recently-used cache of the `lru`
//! crate from cover names to picture handles. The pictures themselves are
//! kept by the caller under their handles; the cache decides which handle
//! a cover name stands for and which handle is let go when it is full.
use vstd::prelude::*;
use lru::LruCache;

verus! {

/// `lru::LruCache`, held as it is.
#[verifier::external_type_specification]
#[verifier::external_body]
#[verifier::reject_recursive_types(K)]
#[verifier::reject_recursive_types(V)]
#[verifier::reject_recursive_types(S)]
pub struct ExLruCache<K, V, S>(lru::LruCache<K, V, S>);

/// The hasher an `LruCache` uses unless told otherwise.
#[verifier::external_type_specification]
#[verifier::external_body]
pub struct ExDefaultHasher(lru::DefaultHasher);

/// The entries an `LruCache` of cover names holds: name to picture handle.
pub uninterp spec fn lru_entries(c: LruCache<String, u64>) -> Map<Seq<char>, u64>;

/// The capacity an `LruCache` of cover names was made with.
pub uninterp spec fn lru_capacity(c: LruCache<String, u64>) -> nat;

/// No entries at all.
pub open spec fn no_covers() -> Map<Seq<char>, u64> {
    Map::empty()
}

/// `LruCache::new`: an empty cache that holds at most `cap` entries. Its
/// table for `cap` entries is allocated at once, so `cap` is kept to what
/// can be allocated.
#[verifier::external_body]
fn lru_new(cap: usize) -> (made: LruCache<String, u64>)
    requires
        0 < cap <= 1_048_576,
    ensures
        lru_entries(made) == no_covers(),
        lru_capacity(made) == cap,
{
    LruCache::new(std::num::NonZeroUsize::new(cap).unwrap())
}

/// `LruCache::get`: the handle stored under `name`, if any. The entries and
/// the capacity stay as they were (the entry becomes the most recently
/// used, an order these contracts do not follow).
#[verifier::external_body]
fn lru_get(c: &mut LruCache<String, u64>, name: &str) -> (r: Option<u64>)
    ensures
        lru_entries(*final(c)) == lru_entries(*old(c)),
        lru_capacity(*final(c)) == lru_capacity(*old(c)),
        r == (if lru_entries(*old(c)).contains_key(name@) {
            Some(lru_entries(*old(c))[name@])
        } else {
            None
        }),
{
    c.get(name).copied()
}

/// `LruCache::push`: stores `handle` under `name`. When `name` was there,
/// its old entry is handed back; otherwise, when the cache was full, the
/// least recently used entry (one of the old entries: which one is not
/// stated here) is let go and handed back; otherwise nothing is.
#[verifier::external_body]
fn lru_push(c: &mut LruCache<String, u64>, name: String, handle: u64) -> (r: Option<(String, u64)>)
    requires
        lru_entries(*old(c)).dom().finite(),
    ensures
        lru_capacity(*final(c)) == lru_capacity(*old(c)),
        lru_entries(*old(c)).contains_key(name@) ==> r == Some((name, lru_entries(*old(c))[name@]))
            && lru_entries(*final(c)) == lru_entries(*old(c)).insert(name@, handle),
        !lru_entries(*old(c)).contains_key(name@) && lru_entries(*old(c)).len() < lru_capacity(*old(c))
            ==> r is None && lru_entries(*final(c)) == lru_entries(*old(c)).insert(name@, handle),
        !lru_entries(*old(c)).contains_key(name@) && lru_entries(*old(c)).len() == lru_capacity(*old(c))
            ==> (r matches Some((k, v)) && lru_entries(*old(c)).contains_key(k@) && lru_entries(*old(c))[k@]
            == v && lru_entries(*final(c)) == lru_entries(*old(c)).remove(k@).insert(name@, handle)),
{
    c.push(name, handle)
}

/// Cover names mapped to picture handles, at most `capacity` of them.
pub struct CoverCache {
    entries: LruCache<String, u64>,
}

impl View for CoverCache {
    type V = Map<Seq<char>, u64>;

    closed spec fn view(&self) -> Map<Seq<char>, u64> {
        lru_entries(self.entries)
    }
}

impl CoverCache {
    /// The most entries the cache holds.
    pub closed spec fn capacity(&self) -> nat {
        lru_capacity(self.entries)
    }

    /// The cache holds finitely many entries, no more than its capacity.
    pub closed spec fn wf(&self) -> bool {
        &&& self@.dom().finite()
        &&& self.capacity() > 0
        &&& self@.len() <= self.capacity()
    }

    /// An empty cache for at most `capacity` covers.
    pub fn new(capacity: usize) -> (c: CoverCache)
        requires
            0 < capacity <= 1_048_576,
        ensures
            c.wf(),
            c@ == Map::<Seq<char>, u64>::empty(),
            c.capacity() == capacity,
            c@.len() <= c.capacity(),
    {
        CoverCache { entries: lru_new(capacity) }
    }

    /// The picture handle remembered for `name`, if any.
    pub fn lookup(&mut self, name: &str) -> (r: Option<u64>)
        requires
            old(self).wf(),
        ensures
            final(self).wf(),
            final(self)@ == old(self)@,
            final(self).capacity() == old(self).capacity(),
            final(self)@.dom().finite(),
            final(self)@.len() <= final(self).capacity(),
            r == (if old(self)@.contains_key(name@) {
                Some(old(self)@[name@])
            } else {
                None
            }),
    {
        lru_get(&mut self.entries, name)
    }

    /// Remembers `handle` as the picture for `name`, unless a picture is
    /// already remembered for it: the one kept is returned, the earlier one
    /// winning. When a new entry does not fit, the least recently used one
    /// is let go and its handle returned too, so that its picture can be
    /// dropped.
    pub fn remember(&mut self, name: &str, handle: u64) -> (r: (u64, Option<u64>))
        requires
            old(self).wf(),
        ensures
            final(self).wf(),
            final(self).capacity() == old(self).capacity(),
            final(self)@.dom().finite(),
            final(self)@.len() <= final(self).capacity(),
            final(self)@.contains_key(name@),
            final(self)@[name@] == r.0,
            old(self)@.contains_key(name@) ==> r == (old(self)@[name@], None::<u64>) && final(self)@ == old(
                self,
            )@,
            !old(self)@.contains_key(name@) ==> r.0 == handle,
            !old(self)@.contains_key(name@) && old(self)@.len() < old(self).capacity() ==> r.1 is None
                && final(self)@ == old(self)@.insert(name@, handle),
            !old(self)@.contains_key(name@) && old(self)@.len() == old(self).capacity() ==> (r.1 matches Some(
                h,
            ) && exists|k: Seq<char>|
                #![trigger old(self)@[k]]
                old(self)@.contains_key(k) && old(self)@[k] == h && final(self)@ == old(self)@.remove(k).insert(
                    name@,
                    handle,
                )),
    {
        match lru_get(&mut self.entries, name) {
            Some(kept) => (kept, None),
            None => {
                let ghost before = self@;
                match lru_push(&mut self.entries, name.to_owned(), handle) {
                    Some((gone, h)) => {
                        proof {
                            assert(before.contains_key(gone@) && before[gone@] == h);
                            assert(self@ == before.remove(gone@).insert(name@, handle));
                            assert(before.remove(gone@).len() == before.len() - 1);
                        }
                        (handle, Some(h))
                    },
                    None => (handle, None),
                }
            },
        }
    }
}

} // verus!
