//! The key-value store: byte-string values under text keys, each with an
//! optional expiry that is enforced lazily, when the key is next touched.
//!
//! Time is a count of milliseconds that the caller reads from its clock and
//! hands in; the store itself never looks at a clock.

use crate::buffer::bytes_view;
use bytes::Bytes;
use vstd::hash_map::StringHashMap;
use vstd::prelude::*;

verus! {

/// A length of time in milliseconds.
#[derive(Clone, Copy, Debug, PartialEq, Eq)]
pub struct Ttl {
    pub millis: u128,
}

impl Ttl {
    /// A lifetime of `secs` seconds.
    pub fn from_secs(secs: u64) -> (t: Ttl)
        ensures
            t.millis == secs * 1000,
    {
        Ttl { millis: (secs as u128) * 1000 }
    }

    /// A lifetime of `millis` milliseconds.
    pub fn from_millis(millis: u64) -> (t: Ttl)
        ensures
            t.millis == millis,
    {
        Ttl { millis: millis as u128 }
    }
}

/// A stored value and the moment from which it no longer counts.
#[derive(Debug)]
pub struct Entry {
    value: Bytes,
    expire_at: Option<u128>,
}

/// The mathematical value of an `Entry`.
pub struct EntryView {
    pub value: Seq<u8>,
    pub expire_at: Option<nat>,
}

impl View for Entry {
    type V = EntryView;

    closed spec fn view(&self) -> EntryView {
        EntryView {
            value: bytes_view(self.value),
            expire_at: match self.expire_at {
                Some(t) => Some(t as nat),
                None => None,
            },
        }
    }
}

/// What the store holds: an entry under each key that is present.
pub type StoreView = Map<Seq<char>, EntryView>;

/// An entry is expired once its expiry lies in the past.
pub open spec fn expired(e: EntryView, now: nat) -> bool {
    e.expire_at matches Some(t) && t < now
}

/// The moment at which a value set at `now` with lifetime `expire` runs out.
/// A lifetime that ends beyond every moment a clock can show is none at all.
pub open spec fn deadline(expire: Option<nat>, now: nat) -> Option<nat> {
    match expire {
        Some(d) => if now + d <= u128::MAX {
            Some(now + d)
        } else {
            None
        },
        None => None,
    }
}

/// The store after a `get` of `key` at `now`: an expired entry is gone.
pub open spec fn store_after_get(m: StoreView, key: Seq<char>, now: nat) -> StoreView {
    if m.contains_key(key) && expired(m[key], now) {
        m.remove(key)
    } else {
        m
    }
}

/// What a `get` of `key` at `now` returns: the value of an entry that is
/// present and not expired.
pub open spec fn store_get(m: StoreView, key: Seq<char>, now: nat) -> Option<Seq<u8>> {
    if m.contains_key(key) && !expired(m[key], now) {
        Some(m[key].value)
    } else {
        None
    }
}

/// The store after a `set` at `now`. The value is always overwritten; the
/// expiry of an entry that exists is kept when `keep_ttl` asks for it.
pub open spec fn store_set(
    m: StoreView,
    key: Seq<char>,
    value: Seq<u8>,
    expire: Option<nat>,
    keep_ttl: bool,
    now: nat,
) -> StoreView {
    let expire_at = if m.contains_key(key) && keep_ttl {
        m[key].expire_at
    } else {
        deadline(expire, now)
    };
    m.insert(key, EntryView { value, expire_at })
}

/// The time that an entry has left at `now`; zero stands for one that never
/// expires.
pub open spec fn store_ttl(m: StoreView, key: Seq<char>, now: nat) -> Option<nat> {
    if m.contains_key(key) && !expired(m[key], now) {
        match m[key].expire_at {
            Some(t) => Some((t - now) as nat),
            None => Some(0),
        }
    } else {
        None
    }
}

/// What a call may hand to `set`: a key and a value that are not empty, a
/// lifetime that is positive, and no new lifetime together with `keep_ttl`.
pub open spec fn settable(
    key: Seq<char>,
    value: Seq<u8>,
    expire: Option<nat>,
    keep_ttl: bool,
) -> bool {
    &&& key.len() > 0
    &&& value.len() > 0
    &&& expire matches Some(d) ==> d > 0
    &&& keep_ttl ==> expire is None
}

/// The store's invariant on its content: no empty key and no empty value.
pub open spec fn store_ok(m: StoreView) -> bool {
    forall|k: Seq<char>| #[trigger]
        m.contains_key(k) ==> k.len() > 0 && m[k].value.len() > 0
}

/// A key that was never set reads as absent: the empty store holds no key,
/// a `set` or a `get` of another key brings none in, and a `get` of a key
/// that is not held returns nothing and changes nothing.
pub proof fn lemma_unset_key_is_absent(
    m: StoreView,
    key: Seq<char>,
    other: Seq<char>,
    value: Seq<u8>,
    expire: Option<nat>,
    keep_ttl: bool,
    now: nat,
)
    requires
        !m.contains_key(key),
        other != key,
    ensures
        !Map::<Seq<char>, EntryView>::empty().contains_key(key),
        !store_set(m, other, value, expire, keep_ttl, now).contains_key(key),
        !store_after_get(m, other, now).contains_key(key),
        store_get(m, key, now) is None,
        store_after_get(m, key, now) == m,
{
}

/// Last write wins: after two `set`s of one key, the second without expiry,
/// every `get` of the key returns the second value.
pub proof fn lemma_last_write_wins(
    m: StoreView,
    key: Seq<char>,
    v1: Seq<u8>,
    e1: Option<nat>,
    k1: bool,
    t1: nat,
    v2: Seq<u8>,
    t2: nat,
    t3: nat,
)
    ensures
        store_get(
            store_set(store_set(m, key, v1, e1, k1, t1), key, v2, None, false, t2),
            key,
            t3,
        ) == Some(v2),
{
}

/// A value set with a lifetime is read back until the lifetime has run out.
/// After that a `get` returns nothing and removes the entry, and the next
/// `set` finds the key new: `keep_ttl` has nothing to keep.
pub proof fn lemma_expiry_is_lazy(
    m: StoreView,
    key: Seq<char>,
    value: Seq<u8>,
    life: nat,
    t0: nat,
    t1: nat,
    v2: Seq<u8>,
    e2: Option<nat>,
    k2: bool,
    t2: nat,
)
    requires
        t0 + life <= u128::MAX,
    ensures
        t1 <= t0 + life ==> store_get(store_set(m, key, value, Some(life), false, t0), key, t1)
            == Some(value),
        t1 > t0 + life ==> {
            let m1 = store_set(m, key, value, Some(life), false, t0);
            let m2 = store_after_get(m1, key, t1);
            &&& store_get(m1, key, t1) is None
            &&& m2 == m.remove(key)
            &&& !m2.contains_key(key)
            &&& store_set(m2, key, v2, e2, k2, t2)[key] == (EntryView {
                value: v2,
                expire_at: deadline(e2, t2),
            })
        },
{
    let m1 = store_set(m, key, value, Some(life), false, t0);
    if t1 > t0 + life {
        assert(store_after_get(m1, key, t1) =~= m.remove(key));
    }
}

/// `keep_ttl` keeps the expiry: a value set with a lifetime and then set
/// again with `keep_ttl` has the new value and still runs out when the first
/// lifetime does.
pub proof fn lemma_keep_ttl_keeps_expiry(
    m: StoreView,
    key: Seq<char>,
    v1: Seq<u8>,
    life: nat,
    t0: nat,
    v2: Seq<u8>,
    t1: nat,
    t2: nat,
)
    requires
        t0 + life <= u128::MAX,
    ensures
        ({
            let m2 = store_set(
                store_set(m, key, v1, Some(life), false, t0),
                key,
                v2,
                None,
                true,
                t1,
            );
            &&& m2[key] == (EntryView { value: v2, expire_at: Some(t0 + life) })
            &&& t2 <= t0 + life ==> store_get(m2, key, t2) == Some(v2)
            &&& t2 > t0 + life ==> store_get(m2, key, t2) is None
        }),
{
}

/// Two `set`s of one key, in whichever order they take effect, leave under
/// the key the whole value of the one that came second, and nothing of the
/// other.
pub proof fn lemma_two_sets_leave_one_value(
    m: StoreView,
    key: Seq<char>,
    v1: Seq<u8>,
    e1: Option<nat>,
    k1: bool,
    t1: nat,
    v2: Seq<u8>,
    e2: Option<nat>,
    k2: bool,
    t2: nat,
)
    ensures
        store_set(store_set(m, key, v1, e1, k1, t1), key, v2, e2, k2, t2)[key].value == v2,
        store_set(store_set(m, key, v2, e2, k2, t2), key, v1, e1, k1, t1)[key].value == v1,
        store_set(store_set(m, key, v1, e1, k1, t1), key, v2, e2, k2, t2).dom() == m.dom().insert(
            key,
        ),
        store_set(store_set(m, key, v2, e2, k2, t2), key, v1, e1, k1, t1).dom() == m.dom().insert(
            key,
        ),
{
    let a = store_set(store_set(m, key, v1, e1, k1, t1), key, v2, e2, k2, t2);
    let b = store_set(store_set(m, key, v2, e2, k2, t2), key, v1, e1, k1, t1);
    assert(a.dom() =~= m.dom().insert(key));
    assert(b.dom() =~= m.dom().insert(key));
}

// The views of the entries of a map, key by key.
spec fn entry_views(m: Map<Seq<char>, Entry>) -> StoreView {
    m.map_values(|e: Entry| e@)
}

proof fn lemma_views_insert(m: Map<Seq<char>, Entry>, key: Seq<char>, e: Entry)
    ensures
        entry_views(m.insert(key, e)) == entry_views(m).insert(key, e@),
{
    assert(entry_views(m.insert(key, e)) =~= entry_views(m).insert(key, e@));
}

proof fn lemma_views_remove(m: Map<Seq<char>, Entry>, key: Seq<char>)
    ensures
        entry_views(m.remove(key)) == entry_views(m).remove(key),
{
    assert(entry_views(m.remove(key)) =~= entry_views(m).remove(key));
}

/// The store of string values.
pub struct StringDb {
    entries: StringHashMap<Entry>,
}

impl View for StringDb {
    type V = StoreView;

    closed spec fn view(&self) -> StoreView {
        entry_views(self.entries@)
    }
}

/// Tells whether the expiry of `entry` lies before `now`.
fn is_expired(entry: &Entry, now: u64) -> (b: bool)
    ensures
        b == expired(entry@, now as nat),
{
    match entry.expire_at {
        Some(t) => t < now as u128,
        None => false,
    }
}

impl StringDb {
    /// The invariant that every operation keeps: no key and no value is
    /// empty.
    pub closed spec fn wf(&self) -> bool {
        store_ok(self@)
    }

    /// An empty store.
    pub fn new() -> (db: StringDb)
        ensures
            db.wf(),
            db@ == Map::<Seq<char>, EntryView>::empty(),
    {
        let db = StringDb { entries: StringHashMap::new() };
        assert(db@ =~= Map::<Seq<char>, EntryView>::empty());
        db
    }

    /// What a well-formed store holds meets the content invariant: no empty
    /// key, no empty value.
    pub proof fn lemma_wf(&self)
        requires
            self.wf(),
        ensures
            store_ok(self@),
    {
    }

    /// Drops the entry under `key` if its expiry lies before `now`, and tells
    /// what is left under the key: a copy of the value of a live entry.
    fn sweep(&mut self, key: &str, now: u64) -> (r: Option<Entry>)
        requires
            old(self).wf(),
        ensures
            final(self).wf(),
            final(self)@ == store_after_get(old(self)@, key@, now as nat),
            match r {
                Some(e) => final(self)@.contains_key(key@) && final(self)@[key@] == e@
                    && !expired(e@, now as nat),
                None => !final(self)@.contains_key(key@),
            },
    {
        let found: Option<Entry> = match self.entries.get(key) {
            Some(entry) => Some(Entry { value: entry.value.clone(), expire_at: entry.expire_at }),
            None => None,
        };
        match found {
            Some(entry) => {
                if is_expired(&entry, now) {
                    proof {
                        lemma_views_remove(self.entries@, key@);
                    }
                    self.entries.remove(key);
                    None
                } else {
                    Some(entry)
                }
            },
            None => None,
        }
    }

    /// Looks `key` up at the moment `now`. An entry whose expiry has passed is
    /// removed and counts as absent; otherwise a copy of the value comes back.
    pub fn get(&mut self, key: &str, now: u64) -> (r: Option<Bytes>)
        requires
            old(self).wf(),
        ensures
            final(self).wf(),
            final(self)@ == store_after_get(old(self)@, key@, now as nat),
            match r {
                Some(b) => store_get(old(self)@, key@, now as nat) == Some(bytes_view(b)),
                None => store_get(old(self)@, key@, now as nat) is None,
            },
    {
        match self.sweep(key, now) {
            Some(entry) => Some(entry.value),
            None => None,
        }
    }

    /// Stores `value` under `key` at the moment `now`.
    pub fn set(&mut self, key: String, value: Bytes, expire: Option<Ttl>, keep_ttl: bool, now: u64)
        requires
            old(self).wf(),
            settable(key@, bytes_view(value), ttl_view(expire), keep_ttl),
        ensures
            final(self).wf(),
            final(self)@ == store_set(
                old(self)@,
                key@,
                bytes_view(value),
                ttl_view(expire),
                keep_ttl,
                now as nat,
            ),
    {
        let fresh: Option<u128> = match expire {
            Some(d) => (now as u128).checked_add(d.millis),
            None => None,
        };
        let expire_at: Option<u128> = match self.entries.get(key.as_str()) {
            Some(entry) => if keep_ttl {
                entry.expire_at
            } else {
                fresh
            },
            None => fresh,
        };
        let entry = Entry { value, expire_at };
        proof {
            lemma_views_insert(self.entries@, key@, entry);
        }
        self.entries.insert(key, entry);
    }

    /// Removes `key`, whether or not its entry has expired.
    pub fn del(&mut self, key: &str)
        requires
            old(self).wf(),
        ensures
            final(self).wf(),
            final(self)@ == old(self)@.remove(key@),
    {
        proof {
            lemma_views_remove(self.entries@, key@);
        }
        self.entries.remove(key);
    }

    /// Tells whether `key` is present at the moment `now`; an expired entry
    /// is removed and counts as absent.
    pub fn check_exist(&mut self, key: &str, now: u64) -> (b: bool)
        requires
            old(self).wf(),
        ensures
            final(self).wf(),
            final(self)@ == store_after_get(old(self)@, key@, now as nat),
            b == store_get(old(self)@, key@, now as nat).is_some(),
    {
        self.sweep(key, now).is_some()
    }

    /// The time that `key` has left at the moment `now`: nothing for a key
    /// that is absent or expired (an expired entry is removed), zero for one
    /// that never expires.
    pub fn get_ttl(&mut self, key: &str, now: u64) -> (r: Option<Ttl>)
        requires
            old(self).wf(),
        ensures
            final(self).wf(),
            final(self)@ == store_after_get(old(self)@, key@, now as nat),
            ttl_view(r) == store_ttl(old(self)@, key@, now as nat),
    {
        match self.sweep(key, now) {
            Some(entry) => match entry.expire_at {
                Some(t) => Some(Ttl { millis: t - now as u128 }),
                None => Some(Ttl { millis: 0 }),
            },
            None => None,
        }
    }
}

/// A lifetime as a number of milliseconds, where there is one.
pub open spec fn ttl_view(t: Option<Ttl>) -> Option<nat> {
    match t {
        Some(d) => Some(d.millis as nat),
        None => None,
    }
}

/// What the inside of a `Db` holds.
pub struct DbInner {
    pub string_db: StringDb,
}

/// The store that the connections of one server share. Everything goes
/// through `get` and `set`; whoever shares a `Db` between connections puts it
/// behind a lock and calls them with the lock held.
pub struct Db {
    inner: DbInner,
}

impl View for Db {
    type V = StoreView;

    closed spec fn view(&self) -> StoreView {
        self.inner.string_db@
    }
}

impl Db {
    /// The invariant of the store inside.
    pub closed spec fn wf(&self) -> bool {
        self.inner.string_db.wf()
    }

    /// A store around `string_db`.
    pub fn new(string_db: StringDb) -> (db: Db)
        ensures
            db@ == string_db@,
            db.wf() == string_db.wf(),
    {
        Db { inner: DbInner { string_db } }
    }

    /// What a well-formed store holds meets the content invariant: no empty
    /// key, no empty value.
    pub proof fn lemma_wf(&self)
        requires
            self.wf(),
        ensures
            store_ok(self@),
    {
    }

    /// Looks `key` up at the moment `now`: nothing for a key that is absent,
    /// nothing for one whose expiry has passed, which is removed on the way,
    /// and else a copy of the value.
    pub fn get(&mut self, key: &str, now: u64) -> (r: Option<Bytes>)
        requires
            old(self).wf(),
        ensures
            final(self).wf(),
            final(self)@ == store_after_get(old(self)@, key@, now as nat),
            match r {
                Some(b) => store_get(old(self)@, key@, now as nat) == Some(bytes_view(b)),
                None => store_get(old(self)@, key@, now as nat) is None,
            },
    {
        self.inner.string_db.get(key, now)
    }

    /// Stores `value` under `key` at the moment `now`. The value of a key
    /// that exists is overwritten, and so is its expiry unless `keep_ttl` is
    /// set; a key that does not exist gets a new entry.
    pub fn set(&mut self, key: String, value: Bytes, expire: Option<Ttl>, keep_ttl: bool, now: u64)
        requires
            old(self).wf(),
            settable(key@, bytes_view(value), ttl_view(expire), keep_ttl),
        ensures
            final(self).wf(),
            final(self)@ == store_set(
                old(self)@,
                key@,
                bytes_view(value),
                ttl_view(expire),
                keep_ttl,
                now as nat,
            ),
    {
        self.inner.string_db.set(key, value, expire, keep_ttl, now)
    }
}

} // verus!
