//! A table of values under keys, each key at most once.
use crate::text::same_text;
use vstd::prelude::*;

verus! {

/// A key, told apart from another by what it holds.
pub trait Key: View + Sized {
    /// Whether two keys hold the same.
    fn same(&self, other: &Self) -> (b: bool)
        ensures
            b == (self@ == other@),
    ;
}

impl Key for String {
    fn same(&self, other: &Self) -> (b: bool) {
        same_text(self.as_str(), other.as_str())
    }
}

/// Values under keys.
pub struct Table<K: Key, V> {
    entries: Vec<(K, V)>,
}

/// The entry at `i` stands under `key`.
spec fn stands_under<K: Key, V>(entries: Seq<(K, V)>, key: K::V, i: int) -> bool {
    0 <= i < entries.len() && entries[i].0@ == key
}

/// The values that stand under keys in a list of entries.
spec fn as_map<K: Key, V>(entries: Seq<(K, V)>) -> Map<K::V, V> {
    Map::new(
        |key: K::V| exists|i: int| stands_under(entries, key, i),
        |key: K::V| entries[choose|i: int| stands_under(entries, key, i)].1,
    )
}

/// No key stands twice.
spec fn keys_are_distinct<K: Key, V>(entries: Seq<(K, V)>) -> bool {
    forall|i: int, j: int|
        #![trigger entries[i], entries[j]]
        0 <= i < j < entries.len() ==> entries[i].0@ != entries[j].0@
}

impl<K: Key, V> View for Table<K, V> {
    type V = Map<K::V, V>;

    closed spec fn view(&self) -> Map<K::V, V> {
        as_map(self.entries@)
    }
}

/// With distinct keys an entry is what its key stands for.
proof fn lemma_entry<K: Key, V>(entries: Seq<(K, V)>, i: int)
    requires
        keys_are_distinct(entries),
        0 <= i < entries.len(),
    ensures
        as_map(entries).contains_key(entries[i].0@),
        as_map(entries)[entries[i].0@] == entries[i].1,
{
    let key = entries[i].0@;
    assert(stands_under(entries, key, i));
    let k = choose|k: int| stands_under(entries, key, k);
    assert(k == i) by {
        assert(entries[k].0@ == entries[i].0@);
    }
}

/// A key that no entry has stands for nothing.
proof fn lemma_no_entry<K: Key, V>(entries: Seq<(K, V)>, key: K::V)
    requires
        forall|i: int| 0 <= i < entries.len() ==> (#[trigger] entries[i]).0@ != key,
    ensures
        !as_map(entries).contains_key(key),
{
}

/// A list with one more entry, under a key that no entry had.
proof fn lemma_push<K: Key, V>(entries: Seq<(K, V)>, e: (K, V))
    requires
        keys_are_distinct(entries),
        !as_map(entries).contains_key(e.0@),
    ensures
        keys_are_distinct(entries.push(e)),
        as_map(entries.push(e)) == as_map(entries).insert(e.0@, e.1),
{
    let more = entries.push(e);
    assert forall|i: int| 0 <= i < entries.len() implies (#[trigger] entries[i]).0@ != e.0@ by {
        lemma_entry(entries, i);
    }
    assert forall|i: int, j: int|
        #![trigger more[i], more[j]]
        0 <= i < j < more.len() implies more[i].0@ != more[j].0@ by {
        assert(more[i] == entries[i]);
        if j < entries.len() {
            assert(more[j] == entries[j]);
        }
    }
    let m = as_map(entries).insert(e.0@, e.1);
    assert forall|i: int| 0 <= i < more.len() implies m.contains_key((#[trigger] more[i]).0@)
        && m[more[i].0@] == more[i].1 by {
        if i < entries.len() {
            assert(more[i] == entries[i]);
            lemma_entry(entries, i);
        }
    }
    assert forall|key: K::V| #[trigger] m.contains_key(key) implies exists|i: int| #[trigger]
        stands_under(more, key, i) by {
        if key == e.0@ {
            assert(stands_under(more, key, entries.len() as int));
        } else {
            let i = choose|i: int| stands_under(entries, key, i);
            assert(stands_under(more, key, i));
        }
    }
    lemma_same_map(more, m);
}

/// A map that holds each entry, and nothing under other keys, is that of the list.
proof fn lemma_same_map<K: Key, V>(entries: Seq<(K, V)>, m: Map<K::V, V>)
    requires
        keys_are_distinct(entries),
        forall|i: int|
            0 <= i < entries.len() ==> m.contains_key((#[trigger] entries[i]).0@)
                && m[entries[i].0@] == entries[i].1,
        forall|key: K::V| #[trigger]
            m.contains_key(key) ==> exists|i: int| #[trigger] stands_under(entries, key, i),
    ensures
        as_map(entries) == m,
{
    assert forall|key: K::V| as_map(entries).contains_key(key) implies #[trigger] m.contains_key(
        key,
    ) && as_map(entries)[key] == m[key] by {
        let i = choose|i: int| stands_under(entries, key, i);
        lemma_entry(entries, i);
    }
    assert(as_map(entries) =~= m);
}

/// A list without its entry at `at`, whose place the last entry takes.
proof fn lemma_swap_remove<K: Key, V>(entries: Seq<(K, V)>, at: int)
    requires
        keys_are_distinct(entries),
        0 <= at < entries.len(),
    ensures
        keys_are_distinct(entries.update(at, entries.last()).drop_last()),
        as_map(entries.update(at, entries.last()).drop_last()) == as_map(entries).remove(
            entries[at].0@,
        ),
{
    let n = entries.len() - 1;
    let less = entries.update(at, entries.last()).drop_last();
    let m = as_map(entries).remove(entries[at].0@);
    assert forall|i: int, j: int|
        #![trigger less[i], less[j]]
        0 <= i < j < less.len() implies less[i].0@ != less[j].0@ by {
        let a = if i == at {
            n
        } else {
            i
        };
        let b = if j == at {
            n
        } else {
            j
        };
        assert(less[i] == entries[a]);
        assert(less[j] == entries[b]);
    }
    assert forall|i: int| 0 <= i < less.len() implies m.contains_key((#[trigger] less[i]).0@)
        && m[less[i].0@] == less[i].1 by {
        let a = if i == at {
            n
        } else {
            i
        };
        assert(less[i] == entries[a]);
        assert(entries[a].0@ != entries[at].0@);
        lemma_entry(entries, a);
    }
    assert forall|key: K::V| #[trigger] m.contains_key(key) implies exists|i: int| #[trigger]
        stands_under(less, key, i) by {
        let i = choose|i: int| stands_under(entries, key, i);
        if i == n {
            assert(stands_under(less, key, at));
        } else {
            assert(stands_under(less, key, i));
        }
    }
    lemma_same_map(less, m);
}

/// With distinct keys there are as many keys as entries.
proof fn lemma_size<K: Key, V>(entries: Seq<(K, V)>)
    requires
        keys_are_distinct(entries),
    ensures
        as_map(entries).dom().finite(),
        as_map(entries).dom().len() == entries.len(),
    decreases entries.len(),
{
    if entries.len() == 0 {
        assert(as_map(entries).dom() =~= Set::empty());
    } else {
        let rest = entries.drop_last();
        let e = entries.last();
        assert(rest.push(e) =~= entries);
        assert forall|i: int, j: int|
            #![trigger rest[i], rest[j]]
            0 <= i < j < rest.len() implies rest[i].0@ != rest[j].0@ by {
            assert(rest[i] == entries[i] && rest[j] == entries[j]);
        }
        assert forall|i: int| 0 <= i < rest.len() implies (#[trigger] rest[i]).0@ != e.0@ by {
            assert(rest[i] == entries[i]);
            assert(entries[i].0@ != entries[entries.len() - 1].0@);
        }
        lemma_no_entry(rest, e.0@);
        lemma_size(rest);
        lemma_push(rest, e);
        assert(as_map(entries).dom() =~= as_map(rest).dom().insert(e.0@));
    }
}

impl<K: Key, V> Table<K, V> {
    /// No key stands twice.
    pub closed spec fn wf(&self) -> bool {
        keys_are_distinct(self.entries@)
    }

    /// A table without entries.
    pub fn new() -> (t: Self)
        ensures
            t.wf(),
            t@ == Map::<K::V, V>::empty(),
    {
        let t = Table { entries: Vec::new() };
        assert(t@ =~= Map::<K::V, V>::empty());
        t
    }

    /// How many keys there are.
    pub fn len(&self) -> (n: usize)
        requires
            self.wf(),
        ensures
            self@.dom().finite(),
            n == self@.dom().len(),
    {
        proof {
            lemma_size(self.entries@);
        }
        self.entries.len()
    }

    /// Where the entry of a key stands.
    fn find(&self, key: &K) -> (r: Option<usize>)
        ensures
            match r {
                Some(i) => i < self.entries.len() && self.entries@[i as int].0@ == key@,
                None => !self@.contains_key(key@),
            },
    {
        let mut i: usize = 0;
        while i < self.entries.len()
            invariant
                i <= self.entries.len(),
                forall|j: int| 0 <= j < i ==> (#[trigger] self.entries@[j]).0@ != key@,
            decreases self.entries.len() - i,
        {
            if self.entries[i].0.same(key) {
                return Some(i);
            }
            i = i + 1;
        }
        proof {
            lemma_no_entry(self.entries@, key@);
        }
        None
    }

    /// The value under a key.
    pub fn get(&self, key: &K) -> (r: Option<&V>)
        requires
            self.wf(),
        ensures
            match r {
                Some(v) => self@.contains_key(key@) && *v == self@[key@],
                None => !self@.contains_key(key@),
            },
    {
        match self.find(key) {
            Some(i) => {
                proof {
                    lemma_entry(self.entries@, i as int);
                }
                Some(&self.entries[i].1)
            },
            None => None,
        }
    }

    /// Whether a key stands for a value.
    pub fn contains_key(&self, key: &K) -> (b: bool)
        requires
            self.wf(),
        ensures
            b == self@.contains_key(key@),
    {
        self.get(key).is_some()
    }

    /// Takes the value under a key out of the table.
    pub fn remove(&mut self, key: &K) -> (r: Option<V>)
        requires
            old(self).wf(),
        ensures
            final(self).wf(),
            final(self)@ == old(self)@.remove(key@),
            match r {
                Some(v) => old(self)@.contains_key(key@) && v == old(self)@[key@],
                None => !old(self)@.contains_key(key@),
            },
    {
        match self.find(key) {
            Some(i) => {
                proof {
                    lemma_entry(self.entries@, i as int);
                    lemma_swap_remove(self.entries@, i as int);
                }
                let (_, v) = self.entries.swap_remove(i);
                Some(v)
            },
            None => {
                assert(self@.remove(key@) =~= self@);
                None
            },
        }
    }

    /// Takes some entry out of the table, unless there is none.
    pub fn pop(&mut self) -> (r: Option<(K, V)>)
        requires
            old(self).wf(),
        ensures
            final(self).wf(),
            match r {
                Some((key, v)) => {
                    &&& old(self)@.contains_key(key@)
                    &&& v == old(self)@[key@]
                    &&& final(self)@ == old(self)@.remove(key@)
                },
                None => old(self)@ == Map::<K::V, V>::empty() && final(self)@ == old(self)@,
            },
            old(self)@.dom().finite(),
    {
        proof {
            lemma_size(self.entries@);
        }
        if self.entries.len() == 0 {
            assert(self@ =~= Map::<K::V, V>::empty());
            None
        } else {
            proof {
                let last = self.entries.len() - 1;
                lemma_entry(self.entries@, last);
                lemma_swap_remove(self.entries@, last);
                assert(self.entries@.update(last, self.entries@.last()) =~= self.entries@);
            }
            self.entries.pop()
        }
    }

    /// Puts a value under a key, in place of the one that stood there.
    pub fn insert(&mut self, key: K, value: V)
        requires
            old(self).wf(),
        ensures
            final(self).wf(),
            final(self)@ == old(self)@.insert(key@, value),
    {
        let ghost before = self@;
        self.remove(&key);
        proof {
            lemma_push(self.entries@, (key, value));
        }
        self.entries.push((key, value));
        assert(before.remove(key@).insert(key@, value) =~= before.insert(key@, value));
    }
}

/// How long before `now` the time `then` was; nothing where it was not before.
pub open spec fn age(now: u64, then: u64) -> int {
    if then <= now {
        now - then
    } else {
        0
    }
}

/// The entries of a table of times that are younger than `limit`.
pub open spec fn recent<A>(times: Map<A, u64>, now: u64, limit: u64) -> Map<A, u64> {
    Map::new(
        |key: A| times.contains_key(key) && age(now, times[key]) < limit,
        |key: A| times[key],
    )
}

/// The entry of `kept` at `j` is that of `all` at `from[j]`.
spec fn picked<K: Key, V>(
    all: Seq<(K, V)>,
    kept: Seq<(K, V)>,
    from: Seq<int>,
    j: int,
) -> bool {
    0 <= from[j] < all.len() && kept[j] == all[from[j]]
}

impl<K: Key> Table<K, u64> {
    /// Drops the entries of a table of times that are as old as `limit` or older.
    pub fn keep_recent(&mut self, now: u64, limit: u64)
        requires
            old(self).wf(),
        ensures
            final(self).wf(),
            final(self)@ == recent(old(self)@, now, limit),
    {
        let ghost all = self.entries@;
        let mut kept: Vec<(K, u64)> = Vec::new();
        let ghost mut from: Seq<int> = Seq::empty();
        let ghost m = recent(as_map(all), now, limit);
        while self.entries.len() > 0
            invariant
                keys_are_distinct(all),
                m == recent(as_map(all), now, limit),
                self.entries.len() <= all.len(),
                self.entries@ == all.take(self.entries.len() as int),
                kept.len() == from.len(),
                forall|j: int|
                    0 <= j < kept.len() ==> #[trigger] picked(all, kept@, from, j)
                        && self.entries.len() <= from[j] && age(now, kept@[j].1) < limit,
                keys_are_distinct(kept@),
                forall|i: int|
                    self.entries.len() <= i < all.len() && age(now, (#[trigger] all[i]).1) < limit
                        ==> exists|j: int| #[trigger] stands_under(kept@, all[i].0@, j),
            decreases self.entries.len(),
        {
            let ghost n = self.entries.len() - 1;
            let ghost before = kept@;
            let ghost picks = from;
            let e = self.entries.pop().unwrap();
            assert(e == all[n]);
            assert(self.entries@ =~= all.take(n));
            if now.saturating_sub(e.1) < limit {
                kept.push(e);
                proof {
                    from = from.push(n);
                    assert forall|i: int, j: int|
                        #![trigger kept@[i], kept@[j]]
                        0 <= i < j < kept.len() implies kept@[i].0@ != kept@[j].0@ by {
                        assert(kept@[i] == before[i]);
                        if j < before.len() {
                            assert(kept@[j] == before[j]);
                        } else {
                            assert(picked(all, before, picks, i));
                            assert(all[from[i]].0@ != all[n].0@);
                        }
                    }
                    assert(stands_under(kept@, all[n].0@, before.len() as int));
                }
            }
            assert forall|j: int| 0 <= j < kept.len() implies #[trigger] picked(all, kept@, from, j)
                && self.entries.len() <= from[j] && age(now, kept@[j].1) < limit by {
                if j < before.len() {
                    assert(picked(all, before, picks, j));
                    assert(kept@[j] == before[j]);
                }
            }
            assert forall|i: int|
                self.entries.len() <= i < all.len() && age(now, (#[trigger] all[i]).1)
                    < limit implies exists|j: int| #[trigger]
                stands_under(kept@, all[i].0@, j) by {
                if i > n {
                    let j = choose|j: int| stands_under(before, all[i].0@, j);
                    assert(stands_under(kept@, all[i].0@, j));
                }
            }
        }
        proof {
            assert forall|j: int| 0 <= j < kept.len() implies m.contains_key(
                (#[trigger] kept@[j]).0@,
            ) && m[kept@[j].0@] == kept@[j].1 by {
                assert(picked(all, kept@, from, j));
                lemma_entry(all, from[j]);
            }
            assert forall|key: K::V| #[trigger] m.contains_key(key) implies exists|j: int|
                #[trigger] stands_under(kept@, key, j) by {
                let i = choose|i: int| stands_under(all, key, i);
                lemma_entry(all, i);
                assert(age(now, all[i].1) < limit);
            }
            lemma_same_map(kept@, m);
        }
        self.entries = kept;
    }
}

} // verus!
