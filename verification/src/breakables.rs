//! Breakable map props: a prop that leaves the view (or is deleted) and
//! never comes back was broken at the tick it left.
use vstd::prelude::*;
use crate::entity_table::{EntityKey, EntityTable, as_map, key_lt, keys_increasing, lemma_as_map_at};

verus! {

/// What is known of a breakable prop: its subclass, team and position.
#[derive(Clone, Copy, Debug)]
pub struct PropState<P> {
    pub subclass_id: u32,
    pub team_num: i64,
    pub pos: P,
}

/// What the tracker knows: the props in view, and the props that left it
/// with the tick they left at.
pub struct BreakablesView<P> {
    pub live: Map<EntityKey, PropState<P>>,
    pub pending: Map<EntityKey, (i32, PropState<P>)>,
}

pub struct BreakableTracker<P> {
    live: EntityTable<PropState<P>>,
    pending: EntityTable<(i32, PropState<P>)>,
}

impl<P: Copy> View for BreakableTracker<P> {
    type V = BreakablesView<P>;

    closed spec fn view(&self) -> BreakablesView<P> {
        BreakablesView { live: self.live@, pending: self.pending@ }
    }
}

/// A broken prop: the tick it left, its identity and its last state.
pub type BreakRow<P> = (i32, EntityKey, PropState<P>);

/// Break rows ordered by tick, then key.
pub open spec fn break_lt<P>(a: BreakRow<P>, b: BreakRow<P>) -> bool {
    a.0 < b.0 || (a.0 == b.0 && key_lt(a.1, b.1))
}

pub open spec fn breaks_increasing<P>(s: Seq<BreakRow<P>>) -> bool {
    forall|i: int, j: int| 0 <= i < j < s.len() ==> break_lt(#[trigger] s[i], #[trigger] s[j])
}

pub open spec fn break_row<P>(e: (EntityKey, (i32, PropState<P>))) -> BreakRow<P> {
    (e.1.0, e.0, e.1.1)
}

/// Insert `e` into the ordered rows, none of which has its key.
fn insert_break<P: Copy>(rows: &mut Vec<BreakRow<P>>, e: BreakRow<P>)
    requires
        breaks_increasing(old(rows)@),
        forall|j: int| 0 <= j < old(rows)@.len() ==> (#[trigger] old(rows)@[j]).1 != e.1,
    ensures
        breaks_increasing(final(rows)@),
        final(rows)@.to_set() == old(rows)@.to_set().insert(e),
{
    let n = rows.len();
    let mut i: usize = 0;
    while i < n && (rows[i].0 < e.0 || (rows[i].0 == e.0 && crate::entity_table::key_less(rows[i].1, e.1)))
        invariant
            n == rows@.len(),
            i <= n,
            forall|j: int| 0 <= j < i ==> break_lt(#[trigger] rows@[j], e),
        decreases n - i,
    {
        i = i + 1;
    }
    let ghost before = rows@;
    proof {
        assert forall|j: int| i <= j < n implies break_lt(e, #[trigger] before[j]) by {
            let f = before[i as int];
            assert(f.1 != e.1);
            assert(!break_lt(f, e));
            assert(break_lt(e, f)) by {
                if f.0 == e.0 {
                    assert(f.1.index != e.1.index || f.1.serial != e.1.serial);
                }
            }
            if j > i {
                assert(break_lt(before[i as int], before[j]));
            }
        }
    }
    rows.insert(i, e);
    proof {
        let after = rows@;
        assert forall|j: int| 0 <= j < after.len() implies #[trigger] after[j] == if j < i {
            before[j]
        } else if j == i {
            e
        } else {
            before[j - 1]
        } by {}
        assert(breaks_increasing(after)) by {
            assert forall|a: int, b: int| 0 <= a < b < after.len() implies break_lt(
                #[trigger] after[a],
                #[trigger] after[b],
            ) by {
                if a < i && b < i {
                    assert(break_lt(before[a], before[b]));
                } else if a < i && b > i {
                    assert(break_lt(before[a], e));
                    assert(break_lt(e, before[b - 1]));
                } else if a == i && b > i {
                    assert(break_lt(e, before[b - 1]));
                } else if a > i {
                    assert(break_lt(before[a - 1], before[b - 1]));
                }
            }
        }
        assert(after.to_set() =~= before.to_set().insert(e)) by {
            assert forall|y: BreakRow<P>| after.to_set().contains(y) implies before.to_set().insert(e).contains(y) by {
                let k = choose|k: int| 0 <= k < after.len() && after[k] == y;
                if k < i {
                    assert(before[k] == y);
                } else if k > i {
                    assert(before[k - 1] == y);
                }
            }
            assert forall|y: BreakRow<P>| before.to_set().insert(e).contains(y) implies after.to_set().contains(y) by {
                if y == e {
                    assert(after[i as int] == e);
                } else {
                    let k = choose|k: int| 0 <= k < before.len() && before[k] == y;
                    if k < i {
                        assert(after[k] == y);
                    } else {
                        assert(after[k + 1] == y);
                    }
                }
            }
        }
    }
}

impl<P: Copy> BreakableTracker<P> {
    pub closed spec fn wf(&self) -> bool {
        self.live.wf() && self.pending.wf()
    }

    pub fn new() -> (t: Self)
        ensures
            t.wf(),
            t@.live == Map::<EntityKey, PropState<P>>::empty(),
            t@.pending == Map::<EntityKey, (i32, PropState<P>)>::empty(),
    {
        BreakableTracker { live: EntityTable::new(), pending: EntityTable::new() }
    }

    /// Prop `key` came back into view: it was not broken after all.
    pub fn reactivated(&mut self, key: EntityKey)
        requires
            old(self).wf(),
        ensures
            final(self).wf(),
            final(self)@.live == old(self)@.live,
            final(self)@.pending == old(self)@.pending.remove(key),
    {
        self.pending.remove(key);
    }

    /// Prop `key` was updated with `state`; a prop that has left the view
    /// keeps the state it left with.
    pub fn updated(&mut self, key: EntityKey, state: PropState<P>)
        requires
            old(self).wf(),
        ensures
            final(self).wf(),
            final(self)@.pending == old(self)@.pending,
            final(self)@.live == if old(self)@.pending.contains_key(key) {
                old(self)@.live
            } else {
                old(self)@.live.insert(key, state)
            },
    {
        if !self.pending.contains(key) {
            self.live.insert(key, state);
        }
    }

    /// Prop `key` left the view at `tick`: if it was in view, it is held as
    /// left, keeping the tick it first left at.
    pub fn left(&mut self, key: EntityKey, tick: i32)
        requires
            old(self).wf(),
        ensures
            final(self).wf(),
            final(self)@.live == old(self)@.live.remove(key),
            final(self)@.pending == if old(self)@.live.contains_key(key) && !old(self)@.pending.contains_key(
                key,
            ) {
                old(self)@.pending.insert(key, (tick, old(self)@.live[key]))
            } else {
                old(self)@.pending
            },
    {
        match self.live.remove(key) {
            Some(state) => {
                if !self.pending.contains(key) {
                    self.pending.insert(key, (tick, state));
                }
            },
            None => {},
        }
    }

    /// Prop `key` was deleted at `tick`; `current` is what its slot holds
    /// now, if anything. A slot holding another prop means the old one was
    /// replaced (forgotten, not broken); a slot holding the same prop is a
    /// rebuild (nothing changes); an empty slot means the prop left.
    pub fn deleted(&mut self, key: EntityKey, current: Option<EntityKey>, tick: i32)
        requires
            old(self).wf(),
        ensures
            final(self).wf(),
            match current {
                Some(c) => {
                    &&& final(self)@.pending == old(self)@.pending
                    &&& final(self)@.live == if c != key {
                        old(self)@.live.remove(key)
                    } else {
                        old(self)@.live
                    }
                },
                None => {
                    &&& final(self)@.live == old(self)@.live.remove(key)
                    &&& final(self)@.pending == if old(self)@.live.contains_key(key)
                        && !old(self)@.pending.contains_key(key) {
                        old(self)@.pending.insert(key, (tick, old(self)@.live[key]))
                    } else {
                        old(self)@.pending
                    }
                },
            },
    {
        match current {
            Some(c) => {
                if c != key {
                    self.live.remove(key);
                }
            },
            None => self.left(key, tick),
        }
    }

    /// The props that left and never came back, ordered by the tick they
    /// left at, then by key: exactly one row for each.
    pub fn finish(&mut self) -> (rows: Vec<BreakRow<P>>)
        requires
            old(self).wf(),
        ensures
            final(self).wf(),
            breaks_increasing(rows@),
            forall|r: BreakRow<P>|
                rows@.contains(r) <==> (old(self)@.pending.contains_key(r.1) && old(self)@.pending[r.1] == (
                r.0,
                r.2,
            )),
    {
        let ghost held = self.pending@;
        let drained = self.pending.drain();
        let mut rows: Vec<BreakRow<P>> = Vec::new();
        let n = drained.len();
        let mut i: usize = 0;
        while i < n
            invariant
                n == drained@.len(),
                i <= n,
                keys_increasing(drained@),
                as_map(drained@) == held,
                breaks_increasing(rows@),
                rows@.to_set() == drained@.take(i as int).map_values(|e| break_row(e)).to_set(),
                forall|j: int| 0 <= j < rows@.len() ==> exists|m: int| 0 <= m < i && (#[trigger] rows@[j]).1 == drained@[m].0,
            decreases n - i,
        {
            let (key, (tick, state)) = drained[i];
            proof {
                assert forall|j: int| 0 <= j < rows@.len() implies (#[trigger] rows@[j]).1 != key by {
                    let m = choose|m: int| 0 <= m < i && rows@[j].1 == drained@[m].0;
                    assert(key_lt(drained@[m].0, drained@[i as int].0));
                }
            }
            let ghost before = rows@;
            insert_break(&mut rows, (tick, key, state));
            proof {
                assert(drained@.take(i + 1).map_values(|e| break_row(e)) =~= drained@.take(i as int).map_values(
                    |e| break_row(e),
                ).push((tick, key, state)));
                drained@.take(i as int).map_values(|e| break_row(e)).lemma_push_to_set_commute(
                    (tick, key, state),
                );
                assert forall|j: int| 0 <= j < rows@.len() implies exists|m: int|
                    0 <= m < i + 1 && (#[trigger] rows@[j]).1 == drained@[m].0 by {
                    assert(rows@.to_set().contains(rows@[j]));
                    if rows@[j] == (tick, key, state) {
                        assert(drained@[i as int].0 == rows@[j].1);
                    } else {
                        assert(before.to_set().contains(rows@[j]));
                        let j2 = choose|j2: int| 0 <= j2 < before.len() && before[j2] == rows@[j];
                        let m = choose|m: int| 0 <= m < i && before[j2].1 == drained@[m].0;
                        assert(0 <= m < i + 1 && rows@[j].1 == drained@[m].0);
                    }
                }
            }
            i = i + 1;
        }
        proof {
            assert(drained@.take(n as int) =~= drained@);
            let rs = drained@.map_values(|e| break_row(e));
            let rowset = rs.to_set();
            assert forall|r: BreakRow<P>| rows@.contains(r) <==> (held.contains_key(r.1) && held[r.1] == (
                r.0,
                r.2,
            )) by {
                if rows@.contains(r) {
                    assert(rows@.to_set().contains(r));
                    let m = choose|m: int| 0 <= m < rs.len() && rs[m] == r;
                    lemma_as_map_at(drained@, m);
                }
                if held.contains_key(r.1) && held[r.1] == (r.0, r.2) {
                    let m = choose|m: int| 0 <= m < drained@.len() && drained@[m].0 == r.1;
                    lemma_as_map_at(drained@, m);
                    assert(rs[m] == r);
                    assert(rowset.contains(r));
                    assert(rows@.to_set().contains(r));
                }
            }
        }
        rows
    }
}

} // verus!
