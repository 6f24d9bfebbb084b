//! A small table keyed by entity identity (slot index and serial), kept in
//! increasing key order so that what it holds can be reported in a fixed
//! order.
use vstd::prelude::*;

verus! {

/// An entity's identity: its slot index and the serial of its occupant.
#[derive(Clone, Copy, PartialEq, Eq, Structural, Debug)]
pub struct EntityKey {
    pub index: i32,
    pub serial: u32,
}

/// Keys ordered by index, then serial.
pub open spec fn key_lt(a: EntityKey, b: EntityKey) -> bool {
    a.index < b.index || (a.index == b.index && a.serial < b.serial)
}

pub fn key_less(a: EntityKey, b: EntityKey) -> (r: bool)
    ensures
        r == key_lt(a, b),
{
    a.index < b.index || (a.index == b.index && a.serial < b.serial)
}

/// Keys strictly increasing along the sequence.
pub open spec fn keys_increasing<S>(s: Seq<(EntityKey, S)>) -> bool {
    forall|i: int, j: int| 0 <= i < j < s.len() ==> key_lt(#[trigger] s[i].0, #[trigger] s[j].0)
}

/// Some entry of the sequence has key `k`.
pub open spec fn has_key<S>(s: Seq<(EntityKey, S)>, k: EntityKey) -> bool {
    exists|i: int| 0 <= i < s.len() && s[i].0 == k
}

/// The entries of a sequence as a map from key to value.
pub open spec fn as_map<S>(s: Seq<(EntityKey, S)>) -> Map<EntityKey, S> {
    Map::new(
        |k: EntityKey| has_key(s, k),
        |k: EntityKey| s[choose|i: int| 0 <= i < s.len() && s[i].0 == k].1,
    )
}

pub proof fn lemma_as_map_at<S>(s: Seq<(EntityKey, S)>, i: int)
    requires
        keys_increasing(s),
        0 <= i < s.len(),
    ensures
        as_map(s).contains_key(s[i].0),
        as_map(s)[s[i].0] == s[i].1,
{
    let k = s[i].0;
    assert(has_key(s, k));
    let j = choose|j: int| 0 <= j < s.len() && s[j].0 == k;
    if j < i {
        assert(key_lt(s[j].0, s[i].0));
    } else if j > i {
        assert(key_lt(s[i].0, s[j].0));
    }
}

/// Values keyed by entity, held in increasing key order.
pub struct EntityTable<S> {
    entries: Vec<(EntityKey, S)>,
}

impl<S> View for EntityTable<S> {
    type V = Map<EntityKey, S>;

    closed spec fn view(&self) -> Map<EntityKey, S> {
        as_map(self.entries@)
    }
}

impl<S: Copy> EntityTable<S> {
    /// The entries in increasing key order.
    pub closed spec fn entries(&self) -> Seq<(EntityKey, S)> {
        self.entries@
    }

    pub closed spec fn wf(&self) -> bool {
        keys_increasing(self.entries@)
    }

    /// The entries, in increasing key order, are what the table holds.
    pub proof fn lemma_entries(&self)
        requires
            self.wf(),
        ensures
            keys_increasing(self.entries()),
            as_map(self.entries()) == self@,
    {
    }

    pub fn new() -> (t: Self)
        ensures
            t.wf(),
            t@ == Map::<EntityKey, S>::empty(),
    {
        let t = EntityTable { entries: Vec::new() };
        assert(t@ =~= Map::<EntityKey, S>::empty());
        t
    }

    /// The position of `k`, or where it would go.
    fn locate(&self, k: EntityKey) -> (r: (usize, bool))
        requires
            self.wf(),
        ensures
            r.0 <= self.entries@.len(),
            r.1 ==> r.0 < self.entries@.len() && self.entries@[r.0 as int].0 == k,
            !r.1 ==> forall|j: int| 0 <= j < r.0 ==> key_lt(#[trigger] self.entries@[j].0, k),
            !r.1 ==> forall|j: int|
                r.0 <= j < self.entries@.len() ==> key_lt(k, #[trigger] self.entries@[j].0),
    {
        let n = self.entries.len();
        let mut i: usize = 0;
        while i < n && key_less(self.entries[i].0, k)
            invariant
                n == self.entries@.len(),
                i <= n,
                forall|j: int| 0 <= j < i ==> key_lt(#[trigger] self.entries@[j].0, k),
            decreases n - i,
        {
            i = i + 1;
        }
        if i < n && self.entries[i].0 == k {
            (i, true)
        } else {
            proof {
                assert forall|j: int| i <= j < self.entries@.len() implies key_lt(
                    k,
                    #[trigger] self.entries@[j].0,
                ) by {
                    let e = self.entries@[i as int].0;
                    assert(!key_lt(e, k) && e != k);
                    if j > i {
                        assert(key_lt(self.entries@[i as int].0, self.entries@[j].0));
                    }
                }
            }
            (i, false)
        }
    }

    /// The value held for `k`.
    pub fn get(&self, k: EntityKey) -> (r: Option<S>)
        requires
            self.wf(),
        ensures
            r == (if self@.contains_key(k) {
                Some(self@[k])
            } else {
                None
            }),
    {
        let (i, found) = self.locate(k);
        if found {
            proof {
                lemma_as_map_at(self.entries@, i as int);
            }
            Some(self.entries[i].1)
        } else {
            proof {
                assert(!has_key(self.entries@, k)) by {
                    if has_key(self.entries@, k) {
                        let j = choose|j: int| 0 <= j < self.entries@.len() && self.entries@[j].0 == k;
                        if j < i {
                            assert(key_lt(self.entries@[j].0, k));
                        } else {
                            assert(key_lt(k, self.entries@[j].0));
                        }
                    }
                }
            }
            None
        }
    }

    /// Some entry is held for `k`.
    pub fn contains(&self, k: EntityKey) -> (r: bool)
        requires
            self.wf(),
        ensures
            r == self@.contains_key(k),
    {
        self.get(k).is_some()
    }

    /// Hold `v` for `k`, returning what was held before.
    pub fn insert(&mut self, k: EntityKey, v: S) -> (r: Option<S>)
        requires
            old(self).wf(),
        ensures
            final(self).wf(),
            final(self)@ == old(self)@.insert(k, v),
            r == (if old(self)@.contains_key(k) {
                Some(old(self)@[k])
            } else {
                None
            }),
    {
        let ghost before = self.entries@;
        let (i, found) = self.locate(k);
        if found {
            let prev = self.entries[i].1;
            proof {
                lemma_as_map_at(before, i as int);
            }
            self.entries.set(i, (k, v));
            proof {
                let after = self.entries@;
                assert(keys_increasing(after)) by {
                    assert forall|a: int, b: int| 0 <= a < b < after.len() implies key_lt(
                        #[trigger] after[a].0,
                        #[trigger] after[b].0,
                    ) by {
                        assert(key_lt(before[a].0, before[b].0));
                    }
                }
                assert forall|k2: EntityKey| has_key(after, k2) == has_key(before, k2) by {
                    if has_key(after, k2) {
                        let j = choose|j: int| 0 <= j < after.len() && after[j].0 == k2;
                        assert(before[j].0 == k2);
                    }
                    if has_key(before, k2) {
                        let j = choose|j: int| 0 <= j < before.len() && before[j].0 == k2;
                        assert(after[j].0 == k2);
                    }
                }
                assert forall|k2: EntityKey| #[trigger]
                    as_map(after).contains_key(k2) implies as_map(after)[k2] == as_map(
                    before,
                ).insert(k, v)[k2] by {
                    let j = choose|j: int| 0 <= j < after.len() && after[j].0 == k2;
                    lemma_as_map_at(after, j);
                    if j != i {
                        lemma_as_map_at(before, j);
                    }
                }
                assert(as_map(after) =~= as_map(before).insert(k, v));
            }
            Some(prev)
        } else {
            proof {
                assert(!has_key(before, k)) by {
                    if has_key(before, k) {
                        let j = choose|j: int| 0 <= j < before.len() && before[j].0 == k;
                        if j < i {
                            assert(key_lt(before[j].0, k));
                        } else {
                            assert(key_lt(k, before[j].0));
                        }
                    }
                }
            }
            self.entries.insert(i, (k, v));
            proof {
                let after = self.entries@;
                assert(after.len() == before.len() + 1);
                assert forall|j: int| 0 <= j < after.len() implies #[trigger] after[j] == if j < i {
                    before[j]
                } else if j == i {
                    (k, v)
                } else {
                    before[j - 1]
                } by {}
                assert(keys_increasing(after)) by {
                    assert forall|a: int, b: int| 0 <= a < b < after.len() implies key_lt(
                        #[trigger] after[a].0,
                        #[trigger] after[b].0,
                    ) by {
                        if a < i && b < i {
                            assert(key_lt(before[a].0, before[b].0));
                        } else if a < i && b == i {
                        } else if a < i {
                            assert(key_lt(before[a].0, k));
                            assert(key_lt(k, before[b - 1].0));
                        } else if a == i {
                            assert(key_lt(k, before[b - 1].0));
                        } else {
                            assert(key_lt(before[a - 1].0, before[b - 1].0));
                        }
                    }
                }
                assert forall|k2: EntityKey| has_key(after, k2) == (k2 == k || has_key(before, k2)) by {
                    if has_key(after, k2) {
                        let j = choose|j: int| 0 <= j < after.len() && after[j].0 == k2;
                        if j < i {
                            assert(before[j].0 == k2);
                        } else if j > i {
                            assert(before[j - 1].0 == k2);
                        }
                    }
                    if k2 == k {
                        assert(after[i as int].0 == k2);
                    }
                    if has_key(before, k2) {
                        let j = choose|j: int| 0 <= j < before.len() && before[j].0 == k2;
                        if j < i {
                            assert(after[j].0 == k2);
                        } else {
                            assert(after[j + 1].0 == k2);
                        }
                    }
                }
                assert forall|k2: EntityKey| #[trigger]
                    as_map(after).contains_key(k2) implies as_map(after)[k2] == as_map(
                    before,
                ).insert(k, v)[k2] by {
                    let j = choose|j: int| 0 <= j < after.len() && after[j].0 == k2;
                    lemma_as_map_at(after, j);
                    if j < i {
                        lemma_as_map_at(before, j);
                    } else if j > i {
                        lemma_as_map_at(before, j - 1);
                    }
                }
                assert(as_map(after) =~= as_map(before).insert(k, v));
            }
            None
        }
    }

    /// Stop holding anything for `k`, returning what was held.
    pub fn remove(&mut self, k: EntityKey) -> (r: Option<S>)
        requires
            old(self).wf(),
        ensures
            final(self).wf(),
            final(self)@ == old(self)@.remove(k),
            r == (if old(self)@.contains_key(k) {
                Some(old(self)@[k])
            } else {
                None
            }),
    {
        let ghost before = self.entries@;
        let (i, found) = self.locate(k);
        if !found {
            proof {
                assert(!has_key(before, k)) by {
                    if has_key(before, k) {
                        let j = choose|j: int| 0 <= j < before.len() && before[j].0 == k;
                        if j < i {
                            assert(key_lt(before[j].0, k));
                        } else {
                            assert(key_lt(k, before[j].0));
                        }
                    }
                }
                assert(as_map(before) =~= as_map(before).remove(k));
            }
            return None;
        }
        proof {
            lemma_as_map_at(before, i as int);
        }
        let (_, v) = self.entries.remove(i);
        proof {
            let after = self.entries@;
            assert forall|j: int| 0 <= j < after.len() implies #[trigger] after[j] == if j < i {
                before[j]
            } else {
                before[j + 1]
            } by {}
            assert(keys_increasing(after)) by {
                assert forall|a: int, b: int| 0 <= a < b < after.len() implies key_lt(
                    #[trigger] after[a].0,
                    #[trigger] after[b].0,
                ) by {
                    if b < i {
                        assert(key_lt(before[a].0, before[b].0));
                    } else if a < i {
                        assert(key_lt(before[a].0, before[b + 1].0));
                    } else {
                        assert(key_lt(before[a + 1].0, before[b + 1].0));
                    }
                }
            }
            assert forall|k2: EntityKey| has_key(after, k2) == (k2 != k && has_key(before, k2)) by {
                if has_key(after, k2) {
                    let j = choose|j: int| 0 <= j < after.len() && after[j].0 == k2;
                    if j < i {
                        assert(before[j].0 == k2);
                        assert(key_lt(before[j].0, before[i as int].0));
                    } else {
                        assert(before[j + 1].0 == k2);
                        assert(key_lt(before[i as int].0, before[j + 1].0));
                    }
                }
                if k2 != k && has_key(before, k2) {
                    let j = choose|j: int| 0 <= j < before.len() && before[j].0 == k2;
                    if j < i {
                        assert(after[j].0 == k2);
                    } else {
                        assert(j != i);
                        assert(after[j - 1].0 == k2);
                    }
                }
            }
            assert forall|k2: EntityKey| #[trigger]
                as_map(after).contains_key(k2) implies as_map(after)[k2] == as_map(before).remove(
                k,
            )[k2] by {
                let j = choose|j: int| 0 <= j < after.len() && after[j].0 == k2;
                lemma_as_map_at(after, j);
                if j < i {
                    lemma_as_map_at(before, j);
                } else {
                    lemma_as_map_at(before, j + 1);
                }
            }
            assert(as_map(after) =~= as_map(before).remove(k));
        }
        Some(v)
    }

    /// The first key held with slot `index`, in key order.
    pub fn first_with_index(&self, index: i32) -> (r: Option<EntityKey>)
        requires
            self.wf(),
        ensures
            match r {
                Some(k) => k.index == index && self@.contains_key(k) && forall|k2: EntityKey|
                    #[trigger] self@.contains_key(k2) && k2.index == index ==> k2 == k || key_lt(k, k2),
                None => forall|k2: EntityKey| #[trigger] self@.contains_key(k2) ==> k2.index != index,
            },
    {
        let n = self.entries.len();
        let mut i: usize = 0;
        while i < n
            invariant
                n == self.entries@.len(),
                i <= n,
                keys_increasing(self.entries@),
                forall|j: int| 0 <= j < i ==> (#[trigger] self.entries@[j]).0.index != index,
            decreases n - i,
        {
            if self.entries[i].0.index == index {
                let k = self.entries[i].0;
                proof {
                    assert(has_key(self.entries@, k));
                    assert forall|k2: EntityKey| #[trigger]
                        self@.contains_key(k2) && k2.index == index implies k2 == k || key_lt(k, k2) by {
                        let j = choose|j: int| 0 <= j < n && self.entries@[j].0 == k2;
                        if j > i {
                            assert(key_lt(self.entries@[i as int].0, self.entries@[j].0));
                        }
                    }
                }
                return Some(k);
            }
            i = i + 1;
        }
        proof {
            assert forall|k2: EntityKey| #[trigger] self@.contains_key(k2) implies k2.index != index by {
                let j = choose|j: int| 0 <= j < n && self.entries@[j].0 == k2;
            }
        }
        None
    }

    /// Everything held, in increasing key order, leaving the table empty.
    pub fn drain(&mut self) -> (r: Vec<(EntityKey, S)>)
        requires
            old(self).wf(),
        ensures
            final(self).wf(),
            final(self)@ == Map::<EntityKey, S>::empty(),
            keys_increasing(r@),
            as_map(r@) == old(self)@,
    {
        let mut r: Vec<(EntityKey, S)> = Vec::new();
        std::mem::swap(&mut r, &mut self.entries);
        assert(self@ =~= Map::<EntityKey, S>::empty());
        r
    }
}

} // verus!
