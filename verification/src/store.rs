//! The shared cache: a mapping from byte-string keys to values with an
//! optional absolute expiration, modelled as a `Map<Seq<u8>, EntryModel>`.
//!
//! An entry whose expiration lies at or before the current clock reading is
//! logically absent: readers report it as missing and evict it lazily, and
//! `sweep` purges all such entries at once. All operations take the clock as
//! a plain argument (Unix seconds), so every contract is exact.

use vstd::prelude::*;
use vstd::slice::slice_to_vec;
use crate::ascii::bytes_eq;

verus! {

/// A stored value: either a 64-bit signed integer or a short byte string.
#[derive(Debug, PartialEq, Eq)]
pub enum Value {
    Int(i64),
    Text(Vec<u8>),
}

/// Mathematical model of a `Value`.
pub enum ValueModel {
    Int(i64),
    Text(Seq<u8>),
}

impl View for Value {
    type V = ValueModel;

    open spec fn view(&self) -> ValueModel {
        match self {
            Value::Int(i) => ValueModel::Int(*i),
            Value::Text(t) => ValueModel::Text(t@),
        }
    }
}

/// A value together with its optional absolute expiration (Unix seconds).
/// `None` means the entry never expires.
#[derive(Debug, PartialEq, Eq)]
pub struct Entry {
    pub value: Value,
    pub expires_at: Option<u64>,
}

/// Mathematical model of an `Entry`.
pub struct EntryModel {
    pub value: ValueModel,
    pub expires_at: Option<u64>,
}

impl View for Entry {
    type V = EntryModel;

    open spec fn view(&self) -> EntryModel {
        EntryModel { value: self.value@, expires_at: self.expires_at }
    }
}

/// An entry whose expiration lies at or before `now` is logically absent.
pub open spec fn spec_expired(e: EntryModel, now: u64) -> bool {
    match e.expires_at {
        Some(t) => t <= now,
        None => false,
    }
}

/// The key is present and not expired at `now`.
pub open spec fn spec_live(m: Map<Seq<u8>, EntryModel>, k: Seq<u8>, now: u64) -> bool {
    m.dom().contains(k) && !spec_expired(m[k], now)
}

/// Addition on `u64` that stops at the top of the range, used to place an
/// absolute expiration at `now + ttl`.
pub open spec fn sat_add64(a: u64, b: u64) -> u64 {
    if a + b > u64::MAX {
        u64::MAX
    } else {
        (a + b) as u64
    }
}

pub fn clone_bytes(v: &Vec<u8>) -> (r: Vec<u8>)
    ensures
        r@ == v@,
{
    slice_to_vec(v.as_slice())
}

pub fn clone_value(v: &Value) -> (r: Value)
    ensures
        r@ == v@,
{
    match v {
        Value::Int(i) => Value::Int(*i),
        Value::Text(t) => Value::Text(clone_bytes(t)),
    }
}

pub fn clone_entry(e: &Entry) -> (r: Entry)
    ensures
        r@ == e@,
{
    Entry { value: clone_value(&e.value), expires_at: e.expires_at }
}

/// No two slots hold the same key.
pub open spec fn unique_keys(s: Seq<(Vec<u8>, Entry)>) -> bool {
    forall|i: int, j: int| 0 <= i < j < s.len() ==> (#[trigger] s[i]).0@ != (#[trigger] s[j]).0@
}

/// The mapping that a sequence of key/entry slots denotes; a later slot for
/// the same key would win, though the store keeps keys unique.
pub open spec fn assoc_map(s: Seq<(Vec<u8>, Entry)>) -> Map<Seq<u8>, EntryModel>
    decreases s.len(),
{
    if s.len() == 0 {
        Map::empty()
    } else {
        assoc_map(s.drop_last()).insert(s.last().0@, s.last().1@)
    }
}

/// The slot sequence as the snapshot `list` hands out.
pub open spec fn pairs_view(s: Seq<(Vec<u8>, Entry)>) -> Seq<(Seq<u8>, EntryModel)> {
    Seq::new(s.len(), |i: int| (s[i].0@, s[i].1@))
}

pub proof fn lemma_assoc_contains(s: Seq<(Vec<u8>, Entry)>, k: Seq<u8>)
    ensures
        assoc_map(s).dom().contains(k) <==> exists|i: int|
            0 <= i < s.len() && (#[trigger] s[i]).0@ == k,
    decreases s.len(),
{
    if s.len() > 0 {
        lemma_assoc_contains(s.drop_last(), k);
        if s.last().0@ == k {
            assert(s[s.len() - 1].0@ == k);
        } else {
            if assoc_map(s).dom().contains(k) {
                let i = choose|i: int| 0 <= i < s.drop_last().len() && (#[trigger] s.drop_last()[i]).0@ == k;
                assert(s[i].0@ == k);
            }
            if exists|i: int| 0 <= i < s.len() && (#[trigger] s[i]).0@ == k {
                let i = choose|i: int| 0 <= i < s.len() && (#[trigger] s[i]).0@ == k;
                assert(i < s.len() - 1);
                assert(s.drop_last()[i].0@ == k);
            }
        }
    }
}

pub proof fn lemma_assoc_index(s: Seq<(Vec<u8>, Entry)>, i: int)
    requires
        unique_keys(s),
        0 <= i < s.len(),
    ensures
        assoc_map(s).dom().contains(s[i].0@),
        assoc_map(s)[s[i].0@] == s[i].1@,
    decreases s.len(),
{
    if i == s.len() - 1 {
    } else {
        assert(unique_keys(s.drop_last())) by {
            assert(forall|a: int, b: int|
                0 <= a < b < s.drop_last().len() ==> (#[trigger] s.drop_last()[a]).0@ != (
                #[trigger] s.drop_last()[b]).0@);
        }
        assert(s.drop_last()[i] == s[i]);
        lemma_assoc_index(s.drop_last(), i);
        assert(s[i].0@ != s.last().0@);
    }
}

pub proof fn lemma_assoc_update(s: Seq<(Vec<u8>, Entry)>, i: int, p: (Vec<u8>, Entry))
    requires
        unique_keys(s),
        0 <= i < s.len(),
        p.0@ == s[i].0@,
    ensures
        assoc_map(s.update(i, p)) =~= assoc_map(s).insert(p.0@, p.1@),
    decreases s.len(),
{
    let t = s.update(i, p);
    if i == s.len() - 1 {
        assert(t.drop_last() =~= s.drop_last());
        assert(t.last() == p);
    } else {
        assert(unique_keys(s.drop_last())) by {
            assert(forall|a: int, b: int|
                0 <= a < b < s.drop_last().len() ==> (#[trigger] s.drop_last()[a]).0@ != (
                #[trigger] s.drop_last()[b]).0@);
        }
        assert(s.drop_last()[i] == s[i]);
        lemma_assoc_update(s.drop_last(), i, p);
        assert(t.drop_last() =~= s.drop_last().update(i, p));
        assert(t.last() == s.last());
        assert(s[i].0@ != s.last().0@);
    }
}

pub proof fn lemma_assoc_remove(s: Seq<(Vec<u8>, Entry)>, i: int)
    requires
        unique_keys(s),
        0 <= i < s.len(),
    ensures
        assoc_map(s.remove(i)) =~= assoc_map(s).remove(s[i].0@),
    decreases s.len(),
{
    let t = s.remove(i);
    if i == s.len() - 1 {
        assert(t =~= s.drop_last());
        lemma_assoc_contains(s.drop_last(), s[i].0@);
        assert(forall|j: int|
            0 <= j < s.drop_last().len() ==> (#[trigger] s.drop_last()[j]).0@ != s[i].0@);
        assert(!assoc_map(s.drop_last()).dom().contains(s[i].0@));
    } else {
        assert(unique_keys(s.drop_last())) by {
            assert(forall|a: int, b: int|
                0 <= a < b < s.drop_last().len() ==> (#[trigger] s.drop_last()[a]).0@ != (
                #[trigger] s.drop_last()[b]).0@);
        }
        assert(s.drop_last()[i] == s[i]);
        lemma_assoc_remove(s.drop_last(), i);
        assert(t.drop_last() =~= s.drop_last().remove(i));
        assert(t.last() == s.last());
        assert(s[i].0@ != s.last().0@);
    }
}

/// The cache itself. The slot order is an implementation detail: the view is
/// a map, and the listing order is published only through `entries_view`.
pub struct Store {
    pairs: Vec<(Vec<u8>, Entry)>,
}

impl View for Store {
    type V = Map<Seq<u8>, EntryModel>;

    closed spec fn view(&self) -> Map<Seq<u8>, EntryModel> {
        assoc_map(self.pairs@)
    }
}

impl Store {
    /// Internal well-formedness: keys are unique.
    pub closed spec fn inv(self) -> bool {
        unique_keys(self.pairs@)
    }

    /// The snapshot that `list` returns, in the store's own (unspecified)
    /// listing order.
    pub closed spec fn entries_view(self) -> Seq<(Seq<u8>, EntryModel)> {
        pairs_view(self.pairs@)
    }

    /// The published connection between the listing snapshot and the map
    /// view: the snapshot holds exactly the stored pairs, each key once.
    pub proof fn lemma_entries_view(self)
        requires
            self.inv(),
        ensures
            forall|i: int, j: int|
                0 <= i < j < self.entries_view().len() ==> (#[trigger] self.entries_view()[i]).0
                    != (#[trigger] self.entries_view()[j]).0,
            forall|i: int|
                0 <= i < self.entries_view().len() ==> self@.dom().contains(
                    (#[trigger] self.entries_view()[i]).0,
                ) && self@[self.entries_view()[i].0] == self.entries_view()[i].1,
            forall|k: Seq<u8>|
                self@.dom().contains(k) ==> exists|i: int|
                    0 <= i < self.entries_view().len() && (#[trigger] self.entries_view()[i]).0
                        == k,
    {
        assert forall|i: int|
            0 <= i < self.entries_view().len() implies self@.dom().contains(
            (#[trigger] self.entries_view()[i]).0,
        ) && self@[self.entries_view()[i].0] == self.entries_view()[i].1 by {
            lemma_assoc_index(self.pairs@, i);
        }
        assert forall|k: Seq<u8>| self@.dom().contains(k) implies exists|i: int|
            0 <= i < self.entries_view().len() && (#[trigger] self.entries_view()[i]).0 == k by {
            lemma_assoc_contains(self.pairs@, k);
            let i = choose|i: int| 0 <= i < self.pairs@.len() && (#[trigger] self.pairs@[i]).0@ == k;
            assert(self.entries_view()[i].0 == k);
        }
    }

    /// An empty store.
    pub fn new() -> (s: Store)
        ensures
            s.inv(),
            s@ == Map::<Seq<u8>, EntryModel>::empty(),
            s.entries_view() == Seq::<(Seq<u8>, EntryModel)>::empty(),
    {
        let s = Store { pairs: Vec::new() };
        proof {
            assert(s@ =~= Map::<Seq<u8>, EntryModel>::empty());
            assert(s.entries_view() =~= Seq::<(Seq<u8>, EntryModel)>::empty());
        }
        s
    }

    /// Index of the slot holding `key`, if any.
    fn find(&self, key: &[u8]) -> (r: Option<usize>)
        requires
            self.inv(),
        ensures
            match r {
                Some(i) => i < self.pairs@.len() && self.pairs@[i as int].0@ == key@
                    && self@.dom().contains(key@) && self@[key@] == self.pairs@[i as int].1@,
                None => !self@.dom().contains(key@),
            },
    {
        let n = self.pairs.len();
        let mut i: usize = 0;
        while i < n
            invariant
                self.inv(),
                n == self.pairs@.len(),
                i <= n,
                forall|j: int| 0 <= j < i ==> (#[trigger] self.pairs@[j]).0@ != key@,
            decreases n - i,
        {
            if bytes_eq(self.pairs[i].0.as_slice(), key) {
                proof {
                    lemma_assoc_index(self.pairs@, i as int);
                }
                return Some(i);
            }
            i = i + 1;
        }
        proof {
            lemma_assoc_contains(self.pairs@, key@);
        }
        None
    }

    /// Full replacement: the key maps afterwards to exactly the given value
    /// and expiration, whatever was there before.
    pub fn set(&mut self, key: Vec<u8>, value: Value, expires_at: Option<u64>)
        requires
            old(self).inv(),
        ensures
            final(self).inv(),
            final(self)@ == old(self)@.insert(key@, EntryModel { value: value@, expires_at }),
    {
        let entry = Entry { value, expires_at };
        let idx = self.find(key.as_slice());
        match idx {
            Some(i) => {
                proof {
                    lemma_assoc_update(self.pairs@, i as int, (key, entry));
                }
                self.pairs.set(i, (key, entry));
                proof {
                    assert(unique_keys(self.pairs@)) by {
                        assert(forall|a: int|
                            0 <= a < self.pairs@.len() && a != i ==> (
                            #[trigger] self.pairs@[a]).0@ == old(self).pairs@[a].0@);
                    }
                }
            }
            None => {
                proof {
                    lemma_assoc_contains(self.pairs@, key@);
                    assert(self.pairs@.push((key, entry)).drop_last() =~= self.pairs@);
                }
                self.pairs.push((key, entry));
            }
        }
    }

    /// Read a key. A lapsed entry is evicted and reported absent; otherwise
    /// the store is untouched and a live entry's value is returned.
    pub fn get(&mut self, key: &[u8], now: u64) -> (r: Option<Value>)
        requires
            old(self).inv(),
        ensures
            final(self).inv(),
            match r {
                Some(v) => spec_live(old(self)@, key@, now) && v@ == old(self)@[key@].value
                    && final(self)@ == old(self)@,
                None => !spec_live(old(self)@, key@, now) && final(self)@ == old(self)@.remove(
                    key@,
                ),
            },
    {
        let idx = self.find(key);
        match idx {
            Some(i) => {
                let expired = match self.pairs[i].1.expires_at {
                    Some(t) => t <= now,
                    None => false,
                };
                if expired {
                    proof {
                        lemma_assoc_remove(self.pairs@, i as int);
                        let t = self.pairs@.remove(i as int);
                        assert(unique_keys(t)) by {
                            assert(forall|a: int|
                                0 <= a < t.len() ==> #[trigger] t[a] == if a < i {
                                    self.pairs@[a]
                                } else {
                                    self.pairs@[a + 1]
                                });
                        }
                    }
                    self.pairs.remove(i);
                    None
                } else {
                    proof {
                        assert(old(self)@ =~= old(self)@.remove(key@).insert(
                            key@,
                            old(self)@[key@],
                        ));
                    }
                    Some(clone_value(&self.pairs[i].1.value))
                }
            }
            None => {
                proof {
                    assert(self@ =~= self@.remove(key@));
                }
                None
            }
        }
    }

    /// Delete a key. Returns whether a live entry was removed; a lapsed
    /// entry is evicted but reported absent.
    pub fn delete(&mut self, key: &[u8], now: u64) -> (r: bool)
        requires
            old(self).inv(),
        ensures
            final(self).inv(),
            r == spec_live(old(self)@, key@, now),
            final(self)@ == old(self)@.remove(key@),
    {
        let idx = self.find(key);
        match idx {
            Some(i) => {
                let expired = match self.pairs[i].1.expires_at {
                    Some(t) => t <= now,
                    None => false,
                };
                proof {
                    lemma_assoc_remove(self.pairs@, i as int);
                    let t = self.pairs@.remove(i as int);
                    assert(unique_keys(t)) by {
                        assert(forall|a: int|
                            0 <= a < t.len() ==> #[trigger] t[a] == if a < i {
                                self.pairs@[a]
                            } else {
                                self.pairs@[a + 1]
                            });
                    }
                }
                self.pairs.remove(i);
                !expired
            }
            None => {
                proof {
                    assert(self@ =~= self@.remove(key@));
                }
                false
            }
        }
    }

    /// The integer that `incr` stores and returns: one more than a live
    /// integer (wrapping at the top of the range, as two's-complement
    /// addition does), and `1` for a live text entry or an absent or lapsed
    /// key.
    pub open spec fn spec_incr_val(m: Map<Seq<u8>, EntryModel>, k: Seq<u8>, now: u64) -> i64 {
        if spec_live(m, k, now) {
            match m[k].value {
                ValueModel::Int(i) => if i == i64::MAX {
                    i64::MIN
                } else {
                    (i + 1) as i64
                },
                ValueModel::Text(_) => 1,
            }
        } else {
            1
        }
    }

    /// The expiration that `incr` leaves behind: a live entry keeps its own;
    /// a fresh entry takes `now + ttl` when a TTL is given, and otherwise
    /// never expires.
    pub open spec fn spec_incr_exp(
        m: Map<Seq<u8>, EntryModel>,
        k: Seq<u8>,
        ttl: Option<u64>,
        now: u64,
    ) -> Option<u64> {
        if spec_live(m, k, now) {
            m[k].expires_at
        } else {
            match ttl {
                Some(t) => Some(sat_add64(now, t)),
                None => None,
            }
        }
    }

    /// Increment a key, creating it at `1` when absent, lapsed or text.
    pub fn incr(&mut self, key: &[u8], ttl: Option<u64>, now: u64) -> (r: i64)
        requires
            old(self).inv(),
        ensures
            final(self).inv(),
            r == Self::spec_incr_val(old(self)@, key@, now),
            final(self)@ == old(self)@.insert(
                key@,
                EntryModel {
                    value: ValueModel::Int(r),
                    expires_at: Self::spec_incr_exp(old(self)@, key@, ttl, now),
                },
            ),
    {
        let idx = self.find(key);
        let (new_val, new_exp): (i64, Option<u64>) = match idx {
            Some(i) => {
                let expired = match self.pairs[i].1.expires_at {
                    Some(t) => t <= now,
                    None => false,
                };
                if expired {
                    (
                        1,
                        match ttl {
                            Some(t) => Some(now.saturating_add(t)),
                            None => None,
                        },
                    )
                } else {
                    let nv = match self.pairs[i].1.value {
                        Value::Int(v) => if v == i64::MAX {
                            i64::MIN
                        } else {
                            v + 1
                        },
                        Value::Text(_) => 1,
                    };
                    (nv, self.pairs[i].1.expires_at)
                }
            }
            None => (
                1,
                match ttl {
                    Some(t) => Some(now.saturating_add(t)),
                    None => None,
                },
            ),
        };
        let entry = Entry { value: Value::Int(new_val), expires_at: new_exp };
        let key_copy = slice_to_vec(key);
        match idx {
            Some(i) => {
                proof {
                    lemma_assoc_update(self.pairs@, i as int, (key_copy, entry));
                }
                self.pairs.set(i, (key_copy, entry));
                proof {
                    assert(unique_keys(self.pairs@)) by {
                        assert(forall|a: int|
                            0 <= a < self.pairs@.len() && a != i ==> (
                            #[trigger] self.pairs@[a]).0@ == old(self).pairs@[a].0@);
                    }
                }
            }
            None => {
                proof {
                    lemma_assoc_contains(self.pairs@, key@);
                    assert(self.pairs@.push((key_copy, entry)).drop_last() =~= self.pairs@);
                }
                self.pairs.push((key_copy, entry));
            }
        }
        new_val
    }

    /// The store after a sweep: exactly the entries that were not expired at
    /// `now`.
    pub open spec fn spec_sweep(m: Map<Seq<u8>, EntryModel>, now: u64) -> Map<Seq<u8>, EntryModel> {
        Map::new(|k: Seq<u8>| m.dom().contains(k) && !spec_expired(m[k], now), |k: Seq<u8>| m[k])
    }

    /// Remove every entry whose expiration lies at or before `now`.
    pub fn sweep(&mut self, now: u64)
        requires
            old(self).inv(),
        ensures
            final(self).inv(),
            final(self)@ == Self::spec_sweep(old(self)@, now),
    {
        let ghost orig = self.pairs@;
        let mut kept: Vec<(Vec<u8>, Entry)> = Vec::new();
        let n = self.pairs.len();
        let mut i: usize = 0;
        while i < n
            invariant
                unique_keys(orig),
                n == orig.len(),
                self.pairs@ == orig,
                i <= n,
                unique_keys(kept@),
                forall|j: int|
                    0 <= j < kept@.len() ==> exists|l: int|
                        0 <= l < i && (#[trigger] kept@[j]).0@ == orig[l].0@,
                assoc_map(kept@) == Self::spec_sweep(assoc_map(orig.take(i as int)), now),
            decreases n - i,
        {
            let ghost prev = kept@;
            let ghost mprev = assoc_map(orig.take(i as int));
            proof {
                assert(orig.take(i + 1).drop_last() =~= orig.take(i as int));
                assert(orig.take(i + 1).last() == orig[i as int]);
                lemma_assoc_contains(orig.take(i as int), orig[i as int].0@);
                assert(forall|l: int|
                    0 <= l < i ==> (#[trigger] orig.take(i as int)[l]).0@ == orig[l].0@);
                assert(!assoc_map(orig.take(i as int)).dom().contains(orig[i as int].0@));
            }
            let keep = match self.pairs[i].1.expires_at {
                Some(t) => t > now,
                None => true,
            };
            if keep {
                let p = &self.pairs[i];
                let cloned_pair = (clone_bytes(&p.0), clone_entry(&p.1));
                proof {
                    assert(forall|j: int|
                        0 <= j < prev.len() ==> (#[trigger] prev[j]).0@ != orig[i as int].0@);
                    assert(prev.push(cloned_pair).drop_last() =~= prev);
                    assert(assoc_map(prev.push(cloned_pair)) =~= assoc_map(prev).insert(
                        orig[i as int].0@,
                        orig[i as int].1@,
                    ));
                    assert(assoc_map(prev).insert(orig[i as int].0@, orig[i as int].1@)
                        =~= Self::spec_sweep(assoc_map(orig.take(i + 1)), now));
                }
                kept.push(cloned_pair);
            } else {
                proof {
                    assert(assoc_map(prev) =~= Self::spec_sweep(assoc_map(orig.take(i + 1)), now));
                }
            }
            i = i + 1;
        }
        proof {
            assert(orig.take(n as int) =~= orig);
        }
        self.pairs = kept;
    }

    /// A snapshot of all slots, expired ones included, in listing order.
    pub fn list(&self) -> (r: Vec<(Vec<u8>, Entry)>)
        requires
            self.inv(),
        ensures
            pairs_view(r@) == self.entries_view(),
    {
        let mut out: Vec<(Vec<u8>, Entry)> = Vec::new();
        let n = self.pairs.len();
        let mut i: usize = 0;
        while i < n
            invariant
                n == self.pairs@.len(),
                i <= n,
                pairs_view(out@) == pairs_view(self.pairs@).take(i as int),
            decreases n - i,
        {
            let p = &self.pairs[i];
            let cloned_pair = (clone_bytes(&p.0), clone_entry(&p.1));
            proof {
                let prev = out@;
                let target = pairs_view(self.pairs@).take(i + 1);
                assert(prev.len() == i) by {
                    assert(pairs_view(prev).len() == prev.len());
                    assert(pairs_view(self.pairs@).take(i as int).len() == i);
                }
                assert(cloned_pair.0@ == self.pairs@[i as int].0@);
                assert(cloned_pair.1@ == self.pairs@[i as int].1@);
                assert forall|j: int|
                    0 <= j < target.len() implies pairs_view(prev.push(cloned_pair))[j] == target[j]
                    by {
                    if j < i {
                        assert(pairs_view(prev)[j] == pairs_view(self.pairs@).take(i as int)[j]);
                        assert(prev.push(cloned_pair)[j] == prev[j]);
                    } else {
                        assert(prev.push(cloned_pair)[j] == cloned_pair);
                    }
                }
                assert(pairs_view(prev.push(cloned_pair)) =~= target);
            }
            out.push(cloned_pair);
            i = i + 1;
        }
        proof {
            assert(pairs_view(self.pairs@).take(n as int) =~= pairs_view(self.pairs@));
        }
        out
    }
}

} // verus!
