//! The shared key/value store: entries with per-key time-to-live, the
//! time-ordered expiration index the background expirer walks, and the
//! per-channel pub/sub broadcasters.
//!
//! Instants are monotonic milliseconds; the runtime around the store supplies
//! the current instant and serialises access.
use vstd::prelude::*;

use crate::pubsub::{broadcast_channel, broadcast_send, broadcast_subscribe};

verus! {

/// A stored value together with its optional absolute expiration instant.
pub struct Entry {
    pub data: Vec<u8>,
    pub expires_at: Option<u64>,
}

/// The mathematical value of an [`Entry`].
pub struct EntryV {
    pub data: Seq<u8>,
    pub expires_at: Option<u64>,
}

impl View for Entry {
    type V = EntryV;

    open spec fn view(&self) -> EntryV {
        EntryV { data: self.data@, expires_at: self.expires_at }
    }
}

/// The mathematical value of the store: the entry map, the set of pending
/// expirations, the set of channels with a broadcaster, and the shutdown
/// flag for the expirer.
#[verifier::ext_equal]
pub struct DbV {
    pub entries: Map<Seq<char>, EntryV>,
    pub expirations: Set<(u64, Seq<char>)>,
    pub channels: Set<Seq<char>>,
    pub shutdown: bool,
}

/// True when the entry is dead at instant `now`.
pub open spec fn entry_expired(e: EntryV, now: u64) -> bool {
    e.expires_at matches Some(t) && t <= now
}

/// The instant `ms` milliseconds after `now`, saturating at the largest
/// representable instant.
pub open spec fn expire_instant(now: u64, ms: u64) -> u64 {
    if now + ms <= u64::MAX {
        (now + ms) as u64
    } else {
        u64::MAX
    }
}

/// What SET does to the store value: the entry is written with its computed
/// expiration instant, the key's old expiration record is dropped, and the
/// new one, if any, is added.
pub open spec fn db_set(d: DbV, key: Seq<char>, value: Seq<u8>, expire: Option<u64>, now: u64) -> DbV {
    let when = match expire {
        Some(ms) => Some(expire_instant(now, ms)),
        None => None,
    };
    let cleared = Set::new(|p: (u64, Seq<char>)| d.expirations.contains(p) && p.1 != key);
    DbV {
        entries: d.entries.insert(key, EntryV { data: value, expires_at: when }),
        expirations: match when {
            Some(t) => cleared.insert((t, key)),
            None => cleared,
        },
        channels: d.channels,
        shutdown: d.shutdown,
    }
}

/// What GET reads from the store value.
pub open spec fn db_get(d: DbV, key: Seq<char>) -> Option<Seq<u8>> {
    if d.entries.contains_key(key) {
        Some(d.entries[key].data)
    } else {
        None
    }
}

/// What one purge pass at instant `now` does to the store value: every entry
/// dead at `now` is removed together with its expiration record. A store
/// already shut down is left alone.
pub open spec fn db_purge(d: DbV, now: u64) -> DbV {
    if d.shutdown {
        d
    } else {
        DbV {
            entries: Map::new(
                |k: Seq<char>| d.entries.contains_key(k) && !entry_expired(d.entries[k], now),
                |k: Seq<char>| d.entries[k],
            ),
            expirations: Set::new(|p: (u64, Seq<char>)| d.expirations.contains(p) && p.0 > now),
            channels: d.channels,
            shutdown: d.shutdown,
        }
    }
}

/// The server state shared across all connections: the entries, the
/// expiration index ordered by instant, and the pub/sub broadcasters.
pub struct Db {
    entries: Vec<(String, Entry)>,
    expirations: Vec<(u64, String)>,
    pub_sub: Vec<(String, tokio::sync::broadcast::Sender<Vec<u8>>)>,
    shutdown: bool,
}

/// True when an index of the expiration sequence records key `k` at `t`.
pub open spec fn exp_at(s: Seq<(u64, String)>, i: int, t: u64, k: Seq<char>) -> bool {
    0 <= i < s.len() && s[i].0 == t && s[i].1@ == k
}

impl View for Db {
    type V = DbV;

    closed spec fn view(&self) -> DbV {
        DbV {
            entries: Map::new(
                |k: Seq<char>|
                    exists|i: int| 0 <= i < self.entries@.len() && self.entries@[i].0@ == k,
                |k: Seq<char>|
                    self.entries@[choose|i: int|
                        0 <= i < self.entries@.len() && self.entries@[i].0@ == k].1@,
            ),
            expirations: Set::new(
                |p: (u64, Seq<char>)|
                    exists|i: int| exp_at(self.expirations@, i, p.0, p.1),
            ),
            channels: Set::new(
                |c: Seq<char>|
                    exists|i: int| 0 <= i < self.pub_sub@.len() && self.pub_sub@[i].0@ == c,
            ),
            shutdown: self.shutdown,
        }
    }
}

impl Db {
    /// The keys of the entry list are distinct.
    pub closed spec fn keys_unique(&self) -> bool {
        forall|i: int, j: int|
            #![trigger self.entries@[i], self.entries@[j]]
            0 <= i < j < self.entries@.len() ==> self.entries@[i].0@ != self.entries@[j].0@
    }

    /// The expiration index is ordered by instant and holds no record twice.
    pub closed spec fn exps_sorted(&self) -> bool {
        forall|i: int, j: int|
            #![trigger self.expirations@[i], self.expirations@[j]]
            0 <= i < j < self.expirations@.len() ==> self.expirations@[i].0
                <= self.expirations@[j].0 && !(self.expirations@[i].0 == self.expirations@[j].0
                && self.expirations@[i].1@ == self.expirations@[j].1@)
    }

    /// Exactly the keys with a time-to-live appear in the expiration index,
    /// each under its entry's instant.
    pub open spec fn ttl_linked(&self) -> bool {
        &&& forall|p: (u64, Seq<char>)| #[trigger]
            self@.expirations.contains(p) ==> self@.entries.contains_key(p.1)
                && self@.entries[p.1].expires_at == Some(p.0)
        &&& forall|k: Seq<char>| #[trigger]
            self@.entries.contains_key(k) ==> match self@.entries[k].expires_at {
                Some(t) => self@.expirations.contains((t, k)),
                None => true,
            }
    }

    /// The store's internal invariant.
    pub closed spec fn wf(&self) -> bool {
        &&& self.keys_unique()
        &&& self.exps_sorted()
        &&& self.ttl_linked()
    }

    /// The earliest pending expiration instant, if any.
    pub closed spec fn next_deadline(&self) -> Option<u64> {
        if self.expirations@.len() == 0 {
            None
        } else {
            Some(self.expirations@[0].0)
        }
    }

    /// An empty store.
    pub fn new() -> (db: Db)
        ensures
            db.wf(),
            db@.entries =~= Map::<Seq<char>, EntryV>::empty(),
            db@.expirations =~= Set::<(u64, Seq<char>)>::empty(),
            db@.channels =~= Set::<Seq<char>>::empty(),
            !db@.shutdown,
    {
        Db { entries: Vec::new(), expirations: Vec::new(), pub_sub: Vec::new(), shutdown: false }
    }

    /// The value stored under `key`, if any.
    pub fn get(&self, key: &str) -> (r: Option<Vec<u8>>)
        requires
            self.wf(),
        ensures
            match r {
                Some(v) => db_get(self@, key@) == Some(v@),
                None => db_get(self@, key@) is None,
            },
    {
        let mut i: usize = 0;
        while i < self.entries.len()
            invariant
                self.wf(),
                i <= self.entries@.len(),
                forall|j: int| 0 <= j < i ==> (#[trigger] self.entries@[j].0)@ != key@,
            decreases self.entries@.len() - i,
        {
            if crate::text::str_eq(self.entries[i].0.as_str(), key) {
                proof {
                    self.lemma_lookup(i as int);
                }
                return Some(self.entries[i].1.data.clone());
            }
            i = i + 1;
        }
        proof {
            if self@.entries.contains_key(key@) {
                let w = choose|w: int|
                    0 <= w < self.entries@.len() && self.entries@[w].0@ == key@;
                assert(self.entries@[w].0@ != key@);
            }
        }
        None
    }

    /// The unique index holding `key` determines the map's value at `key`.
    proof fn lemma_lookup(&self, i: int)
        requires
            self.keys_unique(),
            0 <= i < self.entries@.len(),
        ensures
            self@.entries.contains_key(self.entries@[i].0@),
            self@.entries[self.entries@[i].0@] == self.entries@[i].1@,
    {
        let k = self.entries@[i].0@;
        assert(self@.entries.contains_key(k));
        let w = choose|w: int| 0 <= w < self.entries@.len() && self.entries@[w].0@ == k;
        assert(self.entries@[w].0@ == k);
        assert(self.entries@[i].0@ == k);
        assert(w == i);
    }

    /// Takes the key's entry out of the entry list, leaving everything else
    /// alone.
    fn remove_entry(&mut self, key: &str) -> (prev: Option<Entry>)
        requires
            old(self).keys_unique(),
        ensures
            final(self).keys_unique(),
            final(self)@.entries == old(self)@.entries.remove(key@),
            final(self).expirations == old(self).expirations,
            final(self).pub_sub == old(self).pub_sub,
            final(self).shutdown == old(self).shutdown,
            match prev {
                Some(e) => old(self)@.entries.contains_key(key@) && e@ == old(self)@.entries[key@],
                None => !old(self)@.entries.contains_key(key@),
            },
    {
        let ghost olds = self.entries@;
        let mut i: usize = 0;
        while i < self.entries.len()
            invariant
                *self == *old(self),
                old(self).keys_unique(),
                olds == old(self).entries@,
                i <= self.entries@.len(),
                forall|j: int| 0 <= j < i ==> (#[trigger] self.entries@[j].0)@ != key@,
            decreases self.entries@.len() - i,
        {
            if crate::text::str_eq(self.entries[i].0.as_str(), key) {
                proof {
                    self.lemma_lookup(i as int);
                }
                let pair = self.entries.remove(i);
                proof {
                    olds.remove_ensures(i as int);
                    let news = self.entries@;
                    assert forall|a: int, b: int|
                        #![trigger news[a], news[b]]
                        0 <= a < b < news.len() implies news[a].0@ != news[b].0@ by {
                        let oa: int = if a < i { a } else { a + 1 };
                        let ob: int = if b < i { b } else { b + 1 };
                        assert(news[a] == olds[oa] && news[b] == olds[ob]);
                    }
                    assert forall|k2: Seq<char>| #[trigger]
                        self@.entries.contains_key(k2)
                            <==> old(self)@.entries.remove(key@).contains_key(k2) by {
                        if k2 != key@ {
                            if exists|w: int| 0 <= w < news.len() && news[w].0@ == k2 {
                                let w = choose|w: int| 0 <= w < news.len() && news[w].0@ == k2;
                                let ow: int = if w < i { w } else { w + 1 };
                                assert(olds[ow].0@ == k2);
                            }
                            if exists|w: int| 0 <= w < olds.len() && olds[w].0@ == k2 {
                                let w = choose|w: int| 0 <= w < olds.len() && olds[w].0@ == k2;
                                assert(w != i);
                                let nw: int = if w < i { w } else { w - 1 };
                                assert(news[nw].0@ == k2);
                            }
                        } else {
                            if exists|w: int| 0 <= w < news.len() && news[w].0@ == k2 {
                                let w = choose|w: int| 0 <= w < news.len() && news[w].0@ == k2;
                                let ow: int = if w < i { w } else { w + 1 };
                                assert(olds[ow].0@ == key@ && ow != i);
                                assert(olds[i as int].0@ == key@);
                                assert(false);
                            }
                        }
                    }
                    assert forall|k2: Seq<char>|
                        self@.entries.contains_key(k2) implies #[trigger] self@.entries[k2]
                            == old(self)@.entries.remove(key@)[k2] by {
                        let w = choose|w: int| 0 <= w < news.len() && news[w].0@ == k2;
                        let ow: int = if w < i { w } else { w + 1 };
                        assert(olds[ow].0@ == k2);
                        self.lemma_lookup_in(news, w, k2);
                        old(self).lemma_lookup_in(olds, ow, k2);
                    }
                    assert(self@.entries =~= old(self)@.entries.remove(key@));
                }
                return Some(pair.1);
            }
            i = i + 1;
        }
        proof {
            if old(self)@.entries.contains_key(key@) {
                let w = choose|w: int| 0 <= w < olds.len() && olds[w].0@ == key@;
                assert(olds[w].0@ != key@);
            }
            assert(self@.entries =~= old(self)@.entries.remove(key@));
        }
        None
    }

    /// The unique index of `k` in an entry list determines the map value.
    proof fn lemma_lookup_in(&self, s: Seq<(String, Entry)>, i: int, k: Seq<char>)
        requires
            self.entries@ == s,
            self.keys_unique(),
            0 <= i < s.len(),
            s[i].0@ == k,
        ensures
            self@.entries.contains_key(k),
            self@.entries[k] == s[i].1@,
    {
        self.lemma_lookup(i);
    }

    /// Appends an entry under a key not yet present.
    fn push_entry(&mut self, key: String, e: Entry)
        requires
            old(self).keys_unique(),
            !old(self)@.entries.contains_key(key@),
        ensures
            final(self).keys_unique(),
            final(self)@.entries == old(self)@.entries.insert(key@, e@),
            final(self).expirations == old(self).expirations,
            final(self).pub_sub == old(self).pub_sub,
            final(self).shutdown == old(self).shutdown,
    {
        let ghost olds = self.entries@;
        let ghost ev = e@;
        let ghost k = key@;
        self.entries.push((key, e));
        proof {
            let news = self.entries@;
            assert forall|a: int, b: int|
                #![trigger news[a], news[b]]
                0 <= a < b < news.len() implies news[a].0@ != news[b].0@ by {
                if b < olds.len() {
                    assert(olds[a].0@ != olds[b].0@);
                } else {
                    assert(news[b].0@ == k);
                    if news[a].0@ == k {
                        assert(olds[a].0@ == k);
                        assert(old(self)@.entries.contains_key(k));
                    }
                }
            }
            assert forall|k2: Seq<char>| #[trigger]
                self@.entries.contains_key(k2) <==> old(self)@.entries.insert(
                    k,
                    ev,
                ).contains_key(k2) by {
                if k2 == k {
                    assert(news[olds.len() as int].0@ == k);
                } else {
                    if exists|w: int| 0 <= w < news.len() && news[w].0@ == k2 {
                        let w = choose|w: int| 0 <= w < news.len() && news[w].0@ == k2;
                        assert(olds[w].0@ == k2);
                    }
                    if exists|w: int| 0 <= w < olds.len() && olds[w].0@ == k2 {
                        let w = choose|w: int| 0 <= w < olds.len() && olds[w].0@ == k2;
                        assert(news[w].0@ == k2);
                    }
                }
            }
            assert forall|k2: Seq<char>|
                self@.entries.contains_key(k2) implies #[trigger] self@.entries[k2]
                    == old(self)@.entries.insert(k, ev)[k2] by {
                if k2 == k {
                    self.lemma_lookup_in(news, olds.len() as int, k);
                } else {
                    let w = choose|w: int| 0 <= w < news.len() && news[w].0@ == k2;
                    assert(olds[w].0@ == k2);
                    self.lemma_lookup_in(news, w, k2);
                    old(self).lemma_lookup_in(olds, w, k2);
                }
            }
            assert(self@.entries =~= old(self)@.entries.insert(k, ev));
        }
    }

    /// Drops the record of `key` expiring at `t` from the index, if present.
    fn remove_expiration(&mut self, t: u64, key: &str)
        requires
            old(self).exps_sorted(),
        ensures
            final(self).exps_sorted(),
            final(self)@.expirations == old(self)@.expirations.remove((t, key@)),
            old(self)@.expirations.contains((t, key@)) ==> final(self).expirations@.len() < old(
                self,
            ).expirations@.len(),
            final(self).entries == old(self).entries,
            final(self).pub_sub == old(self).pub_sub,
            final(self).shutdown == old(self).shutdown,
    {
        let ghost olds = self.expirations@;
        let ghost p = (t, key@);
        let mut i: usize = 0;
        while i < self.expirations.len()
            invariant
                *self == *old(self),
                old(self).exps_sorted(),
                olds == old(self).expirations@,
                p == (t, key@),
                i <= self.expirations@.len(),
                forall|j: int|
                    0 <= j < i ==> !((#[trigger] self.expirations@[j]).0 == t
                        && self.expirations@[j].1@ == key@),
            decreases self.expirations@.len() - i,
        {
            if self.expirations[i].0 == t && crate::text::str_eq(
                self.expirations[i].1.as_str(),
                key,
            ) {
                proof {
                    assert(olds[i as int].0 == t && olds[i as int].1@ == key@);
                }
                self.expirations.remove(i);
                proof {
                    olds.remove_ensures(i as int);
                    assert(olds[i as int].0 == t && olds[i as int].1@ == key@);
                    let news = self.expirations@;
                    assert forall|a: int, b: int|
                        #![trigger news[a], news[b]]
                        0 <= a < b < news.len() implies news[a].0 <= news[b].0 && !(news[a].0
                        == news[b].0 && news[a].1@ == news[b].1@) by {
                        let oa: int = if a < i { a } else { a + 1 };
                        let ob: int = if b < i { b } else { b + 1 };
                        assert(news[a] == olds[oa] && news[b] == olds[ob]);
                        assert(olds[oa].0 <= olds[ob].0 && !(olds[oa].0 == olds[ob].0
                            && olds[oa].1@ == olds[ob].1@));
                    }
                    assert forall|q: (u64, Seq<char>)| #[trigger]
                        self@.expirations.contains(q) <==> old(self)@.expirations.remove(
                            p,
                        ).contains(q) by {
                        if q.0 == t && q.1 == key@ {
                            assert(q =~= p);
                            if exists|w: int| exp_at(news, w, q.0, q.1) {
                                let w = choose|w: int| exp_at(news, w, q.0, q.1);
                                let ow: int = if w < i { w } else { w + 1 };
                                assert(exp_at(olds, ow, t, key@) && ow != i);
                                assert(olds[ow].0 == olds[i as int].0 && olds[ow].1@ == olds[
                                i as int].1@);
                                assert(false);
                            }
                        } else {
                            assert(q != p);
                            if exists|w: int| exp_at(news, w, q.0, q.1) {
                                let w = choose|w: int| exp_at(news, w, q.0, q.1);
                                let ow: int = if w < i { w } else { w + 1 };
                                assert(exp_at(olds, ow, q.0, q.1));
                            }
                            if exists|w: int| exp_at(olds, w, q.0, q.1) {
                                let w = choose|w: int| exp_at(olds, w, q.0, q.1);
                                assert(olds[w].0 == q.0 && olds[w].1@ == q.1);
                                assert(w != i);
                                let nw: int = if w < i { w } else { w - 1 };
                                assert(exp_at(news, nw, q.0, q.1));
                            }
                        }
                    }
                    assert(self@.expirations =~= old(self)@.expirations.remove(p));
                }
                return ;
            }
            i = i + 1;
        }
        proof {
            if old(self)@.expirations.contains(p) {
                let w = choose|w: int| exp_at(olds, w, p.0, p.1);
                assert(!(olds[w].0 == t && olds[w].1@ == key@));
            }
            assert(self@.expirations =~= old(self)@.expirations.remove(p));
        }
    }

    /// The earliest pending expiration instant, if any.
    pub fn next_expiration(&self) -> (r: Option<u64>)
        ensures
            r == self.next_deadline(),
    {
        if self.expirations.len() == 0 {
            None
        } else {
            Some(self.expirations[0].0)
        }
    }

    /// Stores `value` under `key`, replacing any previous entry and its
    /// expiration record; with `expire` given, the entry dies `expire`
    /// milliseconds after `now`. Returns whether the new record is due
    /// strictly before everything that was pending, so a waiting expirer
    /// must be woken.
    pub fn set(&mut self, key: String, value: Vec<u8>, expire: Option<u64>, now: u64) -> (notify:
        bool)
        requires
            old(self).wf(),
        ensures
            final(self).wf(),
            final(self)@ == db_set(old(self)@, key@, value@, expire, now),
            notify == match expire {
                Some(ms) => match old(self).next_deadline() {
                    Some(e) => e > expire_instant(now, ms),
                    None => true,
                },
                None => false,
            },
    {
        let ghost d0 = self@;
        let ghost goal = db_set(old(self)@, key@, value@, expire, now);
        let when: Option<u64> = match expire {
            Some(ms) => Some(
                if ms <= u64::MAX - now {
                    now + ms
                } else {
                    u64::MAX
                },
            ),
            None => None,
        };
        let notify: bool = match when {
            Some(w) => match self.next_expiration() {
                Some(e) => e > w,
                None => true,
            },
            None => false,
        };
        let prev = self.remove_entry(key.as_str());
        match &prev {
            Some(p) => {
                match p.expires_at {
                    Some(t) => {
                        self.remove_expiration(t, key.as_str());
                    },
                    None => {},
                }
            },
            None => {},
        }
        proof {
            // No expiration record for the key survives: the key had at most
            // one, tied to its previous entry.
            assert forall|q: (u64, Seq<char>)| #[trigger]
                self@.expirations.contains(q) implies q.1 != key@ by {
                if q.1 == key@ {
                    assert(d0.expirations.contains(q));
                    assert(d0.entries.contains_key(key@) && d0.entries[key@].expires_at == Some(
                        q.0,
                    ));
                }
            }
        }
        match when {
            Some(w) => {
                self.insert_expiration(w, key.clone());
            },
            None => {},
        }
        self.push_entry(key, Entry { data: value, expires_at: when });
        proof {
            assert(self@.entries =~= goal.entries);
            assert(self@.expirations =~= goal.expirations);
            assert(self@.channels =~= goal.channels);
            assert(self@ == goal) by {
                assert(self@.entries == goal.entries && self@.expirations == goal.expirations
                    && self@.channels == goal.channels && self@.shutdown == goal.shutdown);
            }
            // The invariant is restored: the new entry and its record agree,
            // and nothing else changed.
            assert forall|q: (u64, Seq<char>)| #[trigger]
                self@.expirations.contains(q) implies self@.entries.contains_key(q.1)
                && self@.entries[q.1].expires_at == Some(q.0) by {
                if q.1 != key@ {
                    assert(d0.expirations.contains(q));
                }
            }
            assert forall|k: Seq<char>| #[trigger]
                self@.entries.contains_key(k) implies match self@.entries[k].expires_at {
                Some(t) => self@.expirations.contains((t, k)),
                None => true,
            } by {
                if k != key@ {
                    assert(d0.entries.contains_key(k));
                    if let Some(t) = d0.entries[k].expires_at {
                        assert(d0.expirations.contains((t, k)));
                    }
                }
            }
        }
        notify
    }

    /// Removes every entry whose instant has passed and returns the next
    /// pending instant — the least one left, which the expirer sleeps until.
    /// A store that was shut down is left alone and yields nothing.
    pub fn purge_expired_keys(&mut self, now: u64) -> (r: Option<u64>)
        requires
            old(self).wf(),
        ensures
            final(self).wf(),
            final(self)@ == db_purge(old(self)@, now),
            r == if old(self)@.shutdown {
                None::<u64>
            } else {
                final(self).next_deadline()
            },
            match r {
                Some(t) => t > now && (exists|k: Seq<char>|
                    final(self)@.expirations.contains((t, k))) && (forall|p: (u64, Seq<char>)|
                    final(self)@.expirations.contains(p) ==> t <= p.0),
                None => !old(self)@.shutdown ==> final(self)@.expirations =~= Set::<
                    (u64, Seq<char>),
                >::empty(),
            },
    {
        if self.shutdown {
            return None;
        }
        let ghost d0 = self@;
        while self.expirations.len() > 0 && self.expirations[0].0 <= now
            invariant
                self.wf(),
                !self@.shutdown,
                d0 == old(self)@,
                db_purge(self@, now) == db_purge(d0, now),
                self@.channels == d0.channels,
            decreases self.expirations@.len(),
        {
            let ghost dpre = self@;
            let ghost len0 = self.expirations@.len();
            let t = self.expirations[0].0;
            let key = self.expirations[0].1.clone();
            proof {
                assert(dpre.expirations.contains((t, key@))) by {
                    assert(exp_at(self.expirations@, 0, ((t, key@)).0, ((t, key@)).1));
                }
            }
            self.remove_expiration(t, key.as_str());
            let _ = self.remove_entry_for_purge(t, key, Ghost(dpre), Ghost(now));
            proof {
                assert(self.expirations@.len() < len0);
            }
        }
        proof {
            // Nothing left is due: the head instant, if any, lies after
            // `now`, the index is ordered, and every entry with a
            // time-to-live has its record in the index.
            assert forall|k: Seq<char>|
                self@.entries.contains_key(k) implies #[trigger] db_purge(
                self@,
                now,
            ).entries.contains_key(k) by {
                if let Some(t) = self@.entries[k].expires_at {
                    assert(self@.expirations.contains((t, k)));
                    let w = choose|w: int| exp_at(self.expirations@, w, t, k);
                    if w > 0 {
                        assert(self.expirations@[0].0 <= self.expirations@[w].0);
                    }
                }
            }
            assert forall|q: (u64, Seq<char>)|
                self@.expirations.contains(q) implies #[trigger] db_purge(
                self@,
                now,
            ).expirations.contains(q) by {
                let w = choose|w: int| exp_at(self.expirations@, w, q.0, q.1);
                if w > 0 {
                    assert(self.expirations@[0].0 <= self.expirations@[w].0);
                }
            }
            assert(db_purge(self@, now).entries =~= self@.entries);
            assert(db_purge(self@, now).expirations =~= self@.expirations);
            assert(self@ == db_purge(self@, now));
        }
        if self.expirations.len() == 0 {
            proof {
                assert forall|p: (u64, Seq<char>)| !#[trigger] self@.expirations.contains(p) by {
                    if exists|w: int| exp_at(self.expirations@, w, p.0, p.1) {
                        let w = choose|w: int| exp_at(self.expirations@, w, p.0, p.1);
                    }
                }
                assert(self@.expirations =~= Set::<(u64, Seq<char>)>::empty());
            }
            None
        } else {
            let t = self.expirations[0].0;
            proof {
                let ghost q = (t, self.expirations@[0].1@);
                assert(self@.expirations.contains(q)) by {
                    assert(exp_at(self.expirations@, 0, q.0, q.1));
                }
                assert forall|p: (u64, Seq<char>)| #[trigger]
                    self@.expirations.contains(p) implies t <= p.0 by {
                    let w = choose|w: int| exp_at(self.expirations@, w, p.0, p.1);
                    if w > 0 {
                        assert(self.expirations@[0].0 <= self.expirations@[w].0);
                    }
                }
            }
            Some(t)
        }
    }

    /// One purge step: takes the already-unlinked record `(t, key)` out of
    /// the entries, preserving what a purge pass at `now` yields.
    fn remove_entry_for_purge(
        &mut self,
        t: u64,
        key: String,
        Ghost(dpre): Ghost<DbV>,
        Ghost(now): Ghost<u64>,
    ) -> (prev: Option<Entry>)
        requires
            old(self).keys_unique(),
            old(self).exps_sorted(),
            // The state before the record was taken off the index:
            dpre.entries == old(self)@.entries,
            dpre.expirations.contains((t, key@)),
            old(self)@.expirations == dpre.expirations.remove((t, key@)),
            dpre.channels == old(self)@.channels,
            dpre.shutdown == old(self)@.shutdown,
            !dpre.shutdown,
            t <= now,
            // The invariant of the state before:
            forall|q: (u64, Seq<char>)| #[trigger]
                dpre.expirations.contains(q) ==> dpre.entries.contains_key(q.1)
                    && dpre.entries[q.1].expires_at == Some(q.0),
            forall|k: Seq<char>| #[trigger]
                dpre.entries.contains_key(k) ==> match dpre.entries[k].expires_at {
                    Some(t2) => dpre.expirations.contains((t2, k)),
                    None => true,
                },
        ensures
            final(self).wf(),
            !final(self)@.shutdown,
            final(self)@.channels == dpre.channels,
            final(self).expirations == old(self).expirations,
            db_purge(final(self)@, now) == db_purge(dpre, now),
    {
        let ghost d0 = dpre;
        let prev = self.remove_entry(key.as_str());
        proof {
            let d2 = self@;
            // The invariant holds of the new state.
            assert forall|q: (u64, Seq<char>)| #[trigger]
                d2.expirations.contains(q) implies d2.entries.contains_key(q.1)
                && d2.entries[q.1].expires_at == Some(q.0) by {
                assert(d0.expirations.contains(q));
                assert(d0.entries.contains_key(q.1) && d0.entries[q.1].expires_at == Some(q.0));
                if q.1 == key@ {
                    assert(d0.entries[key@].expires_at == Some(t));
                    assert(q.0 == t);
                    assert(!d2.expirations.contains((t, key@)));
                }
            }
            assert forall|k: Seq<char>| #[trigger]
                d2.entries.contains_key(k) implies match d2.entries[k].expires_at {
                Some(t2) => d2.expirations.contains((t2, k)),
                None => true,
            } by {
                assert(d0.entries.contains_key(k) && k != key@);
                if let Some(t2) = d0.entries[k].expires_at {
                    assert(d0.expirations.contains((t2, k)));
                    assert(!(t2 == t && k == key@));
                }
            }
            // Purging the new state yields what purging the old state does:
            // the removed entry was dead at `now`.
            assert(db_purge(d2, now).entries =~= db_purge(d0, now).entries) by {
                assert forall|k: Seq<char>| #[trigger]
                    db_purge(d0, now).entries.contains_key(k) implies db_purge(
                    d2,
                    now,
                ).entries.contains_key(k) by {
                    assert(!entry_expired(d0.entries[k], now));
                    assert(k != key@) by {
                        if k == key@ {
                            assert(d0.entries[key@].expires_at == Some(t));
                        }
                    }
                }
            }
            assert(db_purge(d2, now).expirations =~= db_purge(d0, now).expirations);
            assert(db_purge(d2, now) == db_purge(d0, now));
        }
        prev
    }

    /// A fresh receiver for the channel, creating its broadcaster on first
    /// subscription.
    pub fn subscribe(&mut self, channel: String) -> (rx: tokio::sync::broadcast::Receiver<Vec<u8>>)
        requires
            old(self).wf(),
        ensures
            final(self).wf(),
            final(self)@.channels == old(self)@.channels.insert(channel@),
            final(self)@.entries == old(self)@.entries,
            final(self)@.expirations == old(self)@.expirations,
            final(self)@.shutdown == old(self)@.shutdown,
    {
        let mut i: usize = 0;
        while i < self.pub_sub.len()
            invariant
                *self == *old(self),
                old(self).wf(),
                i <= self.pub_sub@.len(),
            decreases self.pub_sub@.len() - i,
        {
            if crate::text::str_eq(self.pub_sub[i].0.as_str(), channel.as_str()) {
                proof {
                    assert(self@.channels.contains(channel@)) by {
                        assert(self.pub_sub@[i as int].0@ == channel@);
                    }
                    assert(self@.channels =~= old(self)@.channels.insert(channel@));
                }
                return broadcast_subscribe(&self.pub_sub[i].1);
            }
            i = i + 1;
        }
        let (tx, rx) = broadcast_channel(1024);
        let ghost olds = self.pub_sub@;
        self.pub_sub.push((channel, tx));
        proof {
            let news = self.pub_sub@;
            assert forall|c: Seq<char>| #[trigger]
                self@.channels.contains(c) <==> old(self)@.channels.insert(channel@).contains(
                    c,
                ) by {
                if c == channel@ {
                    assert(news[olds.len() as int].0@ == c);
                } else {
                    if exists|w: int| 0 <= w < news.len() && news[w].0@ == c {
                        let w = choose|w: int| 0 <= w < news.len() && news[w].0@ == c;
                        assert(olds[w].0@ == c);
                    }
                    if exists|w: int| 0 <= w < olds.len() && olds[w].0@ == c {
                        let w = choose|w: int| 0 <= w < olds.len() && olds[w].0@ == c;
                        assert(news[w].0@ == c);
                    }
                }
            }
            assert(self@.channels =~= old(self)@.channels.insert(channel@));
            assert(self@.entries =~= old(self)@.entries);
            assert(self@.expirations =~= old(self)@.expirations);
        }
        rx
    }

    /// Sends `message` to the channel's subscribers and returns the receiver
    /// count the broadcaster reports; a channel with no broadcaster or no
    /// receivers counts zero.
    pub fn publish(&self, channel: &str, message: Vec<u8>) -> (r: usize)
        ensures
            !self@.channels.contains(channel@) ==> r == 0,
            r != 0 ==> self@.channels.contains(channel@),
    {
        let mut i: usize = 0;
        while i < self.pub_sub.len()
            invariant
                i <= self.pub_sub@.len(),
                forall|j: int| 0 <= j < i ==> (#[trigger] self.pub_sub@[j].0)@ != channel@,
            decreases self.pub_sub@.len() - i,
        {
            if crate::text::str_eq(self.pub_sub[i].0.as_str(), channel) {
                proof {
                    assert(self@.channels.contains(channel@)) by {
                        assert(self.pub_sub@[i as int].0@ == channel@);
                    }
                }
                return match broadcast_send(&self.pub_sub[i].1, message) {
                    Ok(n) => n,
                    Err(_) => 0,
                };
            }
            i = i + 1;
        }
        proof {
            if self@.channels.contains(channel@) {
                let w = choose|w: int| 0 <= w < self.pub_sub@.len() && self.pub_sub@[w].0@
                    == channel@;
                assert(self.pub_sub@[w].0@ != channel@);
            }
        }
        0
    }

    /// True when the store has been told to shut its expirer down.
    pub fn is_shutdown(&self) -> (r: bool)
        ensures
            r == self@.shutdown,
    {
        self.shutdown
    }

    /// Tells the expirer to exit at its next pass.
    pub fn set_shutdown(&mut self)
        requires
            old(self).wf(),
        ensures
            final(self).wf(),
            final(self)@ == (DbV { shutdown: true, ..old(self)@ }),
    {
        self.shutdown = true;
        proof {
            assert(self@ =~~= (DbV { shutdown: true, ..old(self)@ }) || self@ == (DbV {
                shutdown: true,
                ..old(self)@
            }));
        }
    }

    /// Adds a record of `key` expiring at `t` to the index, keeping it
    /// ordered by instant.
    #[verifier::rlimit(50)]
    fn insert_expiration(&mut self, t: u64, key: String)
        requires
            old(self).exps_sorted(),
            !old(self)@.expirations.contains((t, key@)),
        ensures
            final(self).exps_sorted(),
            final(self)@.expirations == old(self)@.expirations.insert((t, key@)),
            final(self).entries == old(self).entries,
            final(self).pub_sub == old(self).pub_sub,
            final(self).shutdown == old(self).shutdown,
    {
        let ghost olds = self.expirations@;
        let ghost p = (t, key@);
        let mut idx: usize = 0;
        while idx < self.expirations.len() && self.expirations[idx].0 <= t
            invariant
                *self == *old(self),
                old(self).exps_sorted(),
                olds == old(self).expirations@,
                idx <= self.expirations@.len(),
                forall|j: int| 0 <= j < idx ==> (#[trigger] self.expirations@[j]).0 <= t,
            decreases self.expirations@.len() - idx,
        {
            idx = idx + 1;
        }
        proof {
            assert forall|j: int| idx <= j < olds.len() implies (#[trigger] olds[j]).0 > t by {
                if idx < olds.len() {
                    assert(olds[idx as int].0 <= olds[j].0 || j == idx);
                }
            }
        }
        let ghost inserted = (t, key);
        self.expirations.insert(idx, (t, key.clone()));
        proof {
            olds.insert_ensures(idx as int, inserted);
            let news = self.expirations@;
            assert(news[idx as int] == inserted);
            assert forall|a: int, b: int|
                #![trigger news[a], news[b]]
                0 <= a < b < news.len() implies news[a].0 <= news[b].0 && !(news[a].0 == news[b].0
                && news[a].1@ == news[b].1@) by {
                if a < idx {
                    assert(news[a] == olds[a]);
                }
                if a > idx {
                    assert(news[(a - 1) + 1] == olds[a - 1]);
                }
                if b < idx {
                    assert(news[b] == olds[b]);
                }
                if b > idx {
                    assert(news[(b - 1) + 1] == olds[b - 1]);
                }
                if a == idx && b > idx {
                    assert(olds[b - 1].0 > t);
                }
                if b == idx && a < idx {
                    assert(olds[a].0 <= t);
                    if olds[a].0 == t && olds[a].1@ == key@ {
                        assert(old(self)@.expirations.contains((t, key@))) by {
                            assert(exp_at(
                                old(self).expirations@,
                                a,
                                ((t, key@)).0,
                                ((t, key@)).1,
                            ));
                        }
                    }
                }
                if a < idx && b > idx {
                    assert(olds[a].0 <= olds[b - 1].0 && !(olds[a].0 == olds[b - 1].0 && olds[a].1@
                        == olds[b - 1].1@));
                }
                if a > idx && b > idx {
                    assert(olds[a - 1].0 <= olds[b - 1].0 && !(olds[a - 1].0 == olds[b - 1].0
                        && olds[a - 1].1@ == olds[b - 1].1@));
                }
            }
            assert forall|q: (u64, Seq<char>)| #[trigger]
                self@.expirations.contains(q) <==> old(self)@.expirations.insert(p).contains(
                    q,
                ) by {
                if q.0 == t && q.1 == key@ {
                    assert(q =~= p);
                    assert(exp_at(news, idx as int, q.0, q.1));
                } else {
                    assert(q != p);
                    if exists|w: int| exp_at(news, w, q.0, q.1) {
                        let w = choose|w: int| exp_at(news, w, q.0, q.1);
                        assert(news[w].0 == q.0 && news[w].1@ == q.1);
                        assert(w != idx);
                        let ow: int = if w < idx { w } else { w - 1 };
                        if w > idx {
                            assert(news[(w - 1) + 1] == olds[w - 1]);
                        }
                        assert(exp_at(olds, ow, q.0, q.1));
                    }
                    if exists|w: int| exp_at(olds, w, q.0, q.1) {
                        let w = choose|w: int| exp_at(olds, w, q.0, q.1);
                        let nw: int = if w < idx { w } else { w + 1 };
                        if w >= idx {
                            assert(news[w + 1] == olds[w]);
                        }
                        assert(exp_at(news, nw, q.0, q.1));
                    }
                }
            }
            assert(self@.expirations =~= old(self)@.expirations.insert(p));
        }
    }
}

/// SET/GET round trip: after SET k v with no time-to-live, GET k yields v,
/// and after a further SET k v2, GET k yields v2.
pub proof fn lemma_set_get_round_trip(
    d: DbV,
    k: Seq<char>,
    v: Seq<u8>,
    v2: Seq<u8>,
    now1: u64,
    now2: u64,
)
    ensures
        db_get(db_set(d, k, v, None, now1), k) == Some(v),
        db_get(db_set(db_set(d, k, v, None, now1), k, v2, None, now2), k) == Some(v2),
{
}

/// TTL correctness: after SET k v with a time-to-live, GET k yields v, a
/// purge pass before the deadline keeps it, and a purge pass at or after the
/// deadline removes it. Between the deadline and the next purge pass a read
/// may still see the entry; the purge pass bounds that staleness.
pub proof fn lemma_ttl_expiry(d: DbV, k: Seq<char>, v: Seq<u8>, ms: u64, now: u64, probe: u64)
    requires
        !d.shutdown,
    ensures
        ({
            let d1 = db_set(d, k, v, Some(ms), now);
            &&& db_get(d1, k) == Some(v)
            &&& probe < expire_instant(now, ms) ==> db_get(db_purge(d1, probe), k) == Some(v)
            &&& probe >= expire_instant(now, ms) ==> db_get(db_purge(d1, probe), k) is None
        }),
{
}

/// At most one expiration record per key: the index never holds two records
/// for the same key, under any sequence of operations, because each
/// operation preserves the store's invariant.
pub proof fn lemma_one_expiration_per_key(db: &Db, t1: u64, t2: u64, k: Seq<char>)
    requires
        db.wf(),
        db@.expirations.contains((t1, k)),
        db@.expirations.contains((t2, k)),
    ensures
        t1 == t2,
{
}

} // verus!
