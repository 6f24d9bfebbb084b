//! Snapshot passes: which per-tick datasets a pass collects, at which ticks,
//! and how the demo is split into independently decodable segments.
use vstd::prelude::*;
use std::collections::HashSet;

use crate::datasets::{direct_event_message_type, direct_message, UserMessage};
use crate::text::same_text;

verus! {

/// Which snapshot datasets a pass should collect.
#[derive(Clone, Copy, PartialEq, Eq, Structural)]
pub struct SnapWants {
    pub player_ticks: bool,
    pub world_ticks: bool,
    pub troopers: bool,
}

impl SnapWants {
    /// A pass that collects nothing.
    pub fn none() -> (w: SnapWants)
        ensures
            !w.player_ticks && !w.world_ticks && !w.troopers,
    {
        SnapWants { player_ticks: false, world_ticks: false, troopers: false }
    }

    /// Whether any snapshot dataset is wanted.
    pub fn any(self) -> (r: bool)
        ensures
            r == (self.player_ticks || self.world_ticks || self.troopers),
    {
        self.player_ticks || self.world_ticks || self.troopers
    }
}

/// Which ticks a snapshot pass collects rows at.
pub enum TickPredicate {
    /// Every tick.
    All,
    /// Every tick within `[start, end]`.
    Window { start: i32, end: i32 },
    /// The explicit tick set, within `[start, end]`.
    TickSet { ticks: HashSet<i32>, start: i32, end: i32 },
}

impl TickPredicate {
    /// Whether the pass collects a row at tick `t`.
    pub open spec fn selects(&self, t: i32) -> bool {
        match self {
            TickPredicate::All => true,
            TickPredicate::Window { start, end } => *start <= t <= *end,
            TickPredicate::TickSet { ticks, start, end } => *start <= t <= *end && ticks@.contains(t),
        }
    }

    /// Whether the pass collects a row at tick `t`.
    pub fn matches(&self, t: i32) -> (r: bool)
        ensures
            r == self.selects(t),
    {
        broadcast use vstd::std_specs::hash::group_hash_axioms;

        match self {
            TickPredicate::All => true,
            TickPredicate::Window { start, end } => t >= *start && t <= *end,
            TickPredicate::TickSet { ticks, start, end } => t >= *start && t <= *end && ticks.contains(
                &t,
            ),
        }
    }
}

/// The `(start_offset, end_tick)` bounds of segment `i` of `n` over the
/// full-packet `(offset, tick)` list: segment 0 starts from the signon
/// baseline (`None`), the others at an evenly spaced full packet; each ends
/// at the tick of the next segment's first full packet, the last one never.
pub open spec fn segment_bounds(offsets: Seq<(usize, i32)>, n: int, i: int) -> (Option<usize>, i32) {
    let len = offsets.len() as int;
    (
        if i == 0 {
            None
        } else {
            Some(offsets[i * len / n].0)
        },
        if i == n - 1 {
            i32::MAX
        } else {
            offsets[(i + 1) * len / n].1
        },
    )
}

proof fn lemma_segment_index(i: int, len: int, n: int)
    requires
        0 <= i < n,
        len > 0,
    ensures
        0 <= i * len / n < len,
{
    assert(0 <= i * len) by (nonlinear_arith)
        requires
            0 <= i,
            0 < len,
    ;
    assert(i * len < n * len) by (nonlinear_arith)
        requires
            0 <= i < n,
            0 < len,
    ;
    assert(i * len / n < len) by (nonlinear_arith)
        requires
            0 <= i * len < n * len,
            0 < n,
    ;
    assert(0 <= i * len / n) by (nonlinear_arith)
        requires
            0 <= i * len,
            0 < n,
    ;
}

/// Split the full-packet offsets into `n` contiguous segments that can be
/// decoded independently (see `segment_bounds`); no segments for `n == 0`.
pub fn segment_ranges(offsets: &Vec<(usize, i32)>, n: usize) -> (r: Vec<(Option<usize>, i32)>)
    requires
        n <= 1 || offsets@.len() > 0,
        n * offsets@.len() <= usize::MAX,
    ensures
        r@.len() == n,
        forall|i: int| 0 <= i < n ==> #[trigger] r@[i] == segment_bounds(offsets@, n as int, i),
{
    let len = offsets.len();
    let mut r: Vec<(Option<usize>, i32)> = Vec::new();
    let mut i: usize = 0;
    while i < n
        invariant
            len == offsets@.len(),
            n <= 1 || len > 0,
            n * len <= usize::MAX,
            i <= n,
            r@.len() == i,
            forall|j: int| 0 <= j < i ==> #[trigger] r@[j] == segment_bounds(offsets@, n as int, j),
        decreases n - i,
    {
        let start = if i != 0 {
            proof {
                lemma_segment_index(i as int, len as int, n as int);
                assert(i * len <= n * len) by (nonlinear_arith)
                    requires
                        i <= n,
                ;
            }
            Some(offsets[i * len / n].0)
        } else {
            None
        };
        let end_tick = if i == n - 1 {
            i32::MAX
        } else {
            proof {
                lemma_segment_index((i + 1) as int, len as int, n as int);
                assert((i + 1) * len <= n * len) by (nonlinear_arith)
                    requires
                        i + 1 <= n,
                ;
            }
            offsets[(i + 1) * len / n].1
        };
        r.push((start, end_tick));
        i = i + 1;
    }
    r
}

/// Consecutive segments meet: each segment but the last ends at the tick of
/// the full packet at which the next one starts.
pub proof fn lemma_segments_contiguous(offsets: Seq<(usize, i32)>, n: int, i: int)
    requires
        0 <= i < n - 1,
        offsets.len() > 0,
    ensures
        exists|k: int|
            0 <= k < offsets.len() && segment_bounds(offsets, n, i).1 == offsets[k].1 && segment_bounds(
                offsets,
                n,
                i + 1,
            ).0 == Some(offsets[k].0),
{
    let k = (i + 1) * (offsets.len() as int) / n;
    lemma_segment_index(i + 1, offsets.len() as int, n);
    assert(segment_bounds(offsets, n, i).1 == offsets[k].1);
}

/// Non-decreasing.
pub open spec fn sorted_i32(s: Seq<i32>) -> bool {
    forall|i: int, j: int| 0 <= i <= j < s.len() ==> s[i] <= s[j]
}

/// Number of entries of `s` below `tick`.
pub open spec fn count_below(s: Seq<i32>, tick: i32) -> nat
    decreases s.len(),
{
    if s.len() == 0 {
        0
    } else {
        count_below(s.drop_last(), tick) + if s.last() < tick {
            1nat
        } else {
            0nat
        }
    }
}

proof fn lemma_count_below_sorted(s: Seq<i32>, tick: i32, p: int)
    requires
        sorted_i32(s),
        0 <= p <= s.len(),
        forall|i: int| 0 <= i < p ==> s[i] < tick,
        forall|i: int| p <= i < s.len() ==> s[i] >= tick,
    ensures
        count_below(s, tick) == p,
    decreases s.len(),
{
    if s.len() > 0 {
        if p == s.len() {
            lemma_count_below_sorted(s.drop_last(), tick, p - 1);
        } else {
            lemma_count_below_sorted(s.drop_last(), tick, p);
        }
    }
}

/// Ticks up to `tick` that the match clock counted: `tick` less the paused
/// ticks before it, never below zero.
pub open spec fn active_ticks(paused: Seq<i32>, tick: i32) -> int {
    let a = tick - count_below(paused, tick);
    if a > 0 {
        a
    } else {
        0
    }
}

/// Count non-paused ticks up to the given tick, given the sorted paused
/// ticks.
pub fn count_active_ticks(paused: &Vec<i32>, tick: i32) -> (r: i32)
    requires
        sorted_i32(paused@),
    ensures
        r == active_ticks(paused@, tick),
{
    // partition point: first index whose tick is not below `tick`
    let mut lo: usize = 0;
    let mut hi: usize = paused.len();
    while lo < hi
        invariant
            sorted_i32(paused@),
            lo <= hi <= paused@.len(),
            forall|i: int| 0 <= i < lo ==> paused@[i] < tick,
            forall|i: int| hi <= i < paused@.len() ==> paused@[i] >= tick,
        decreases hi - lo,
    {
        let mid = lo + (hi - lo) / 2;
        if paused[mid] < tick {
            lo = mid + 1;
        } else {
            hi = mid;
        }
    }
    proof {
        lemma_count_below_sorted(paused@, tick, lo as int);
    }
    if tick <= 0 || lo >= tick as usize {
        0
    } else {
        tick - lo as i32
    }
}

proof fn lemma_increasing_at_least_index(s: Seq<i32>, i: int)
    requires
        increasing_i32(s),
        s.len() > 0 ==> s[0] >= 0,
        0 <= i < s.len(),
    ensures
        s[i] >= i,
    decreases i,
{
    if i > 0 {
        lemma_increasing_at_least_index(s, i - 1);
    }
}

proof fn lemma_count_below_at_most_tick(s: Seq<i32>, t: i32)
    requires
        increasing_i32(s),
        s.len() > 0 ==> s[0] >= 0,
        t >= 0,
    ensures
        count_below(s, t) <= t,
    decreases s.len(),
{
    if s.len() > 0 {
        let d = s.drop_last();
        assert(increasing_i32(d));
        if d.len() > 0 {
            assert(d[0] == s[0]);
        }
        lemma_count_below_at_most_tick(d, t);
        if s.last() < t {
            assert(sorted_i32(s));
            lemma_count_below_sorted(s, t, s.len() as int);
            lemma_increasing_at_least_index(s, s.len() - 1);
        }
    }
}

proof fn lemma_count_below_next(s: Seq<i32>, t: i32)
    requires
        increasing_i32(s),
        t < i32::MAX,
    ensures
        count_below(s, (t + 1) as i32) == count_below(s, t) + if s.contains(t) {
            1nat
        } else {
            0nat
        },
    decreases s.len(),
{
    if s.len() > 0 {
        let d = s.drop_last();
        assert(increasing_i32(d));
        lemma_count_below_next(d, t);
        if s.last() == t {
            assert(!d.contains(t)) by {
                if d.contains(t) {
                    let k = choose|k: int| 0 <= k < d.len() && d[k] == t;
                    assert(s[k] < s[s.len() - 1]);
                }
            }
            assert(s.contains(t)) by {
                assert(s[s.len() - 1] == t);
            }
        } else {
            assert(s.contains(t) == d.contains(t)) by {
                if s.contains(t) {
                    let k = choose|k: int| 0 <= k < s.len() && s[k] == t;
                    assert(d[k] == t);
                }
                if d.contains(t) {
                    let k = choose|k: int| 0 <= k < d.len() && d[k] == t;
                    assert(s[k] == t);
                }
            }
        }
    }
}

/// With the paused ticks distinct, ascending and not negative, the match
/// clock advances by one from each tick to the next unless the tick is
/// paused, when it stands still: so it never runs backwards and gains at
/// most one per tick.
pub proof fn lemma_active_ticks_step(paused: Seq<i32>, t: i32)
    requires
        increasing_i32(paused),
        forall|i: int| 0 <= i < paused.len() ==> #[trigger] paused[i] >= 0,
        0 <= t < i32::MAX,
    ensures
        active_ticks(paused, (t + 1) as i32) - active_ticks(paused, t) == if paused.contains(t) {
            0int
        } else {
            1int
        },
{
    if paused.len() > 0 {
        assert(paused[0] >= 0);
    }
    lemma_count_below_next(paused, t);
    lemma_count_below_at_most_tick(paused, t);
    lemma_count_below_at_most_tick(paused, (t + 1) as i32);
}

/// The ticks flagged as paused, in table order; a missing flag counts as not
/// paused.
pub open spec fn paused_of(ticks: Seq<i32>, paused: Seq<bool>) -> Seq<i32>
    decreases ticks.len(),
{
    if ticks.len() == 0 {
        seq![]
    } else {
        let k = ticks.len() - 1;
        let rest = paused_of(ticks.drop_last(), paused);
        if k < paused.len() && paused[k] {
            rest.push(ticks.last())
        } else {
            rest
        }
    }
}

/// The paused ticks of the world table (its `tick` and `is_paused` columns).
pub fn paused_ticks(ticks: &Vec<i32>, paused: &Vec<bool>) -> (r: Vec<i32>)
    ensures
        r@ == paused_of(ticks@, paused@),
{
    let mut r: Vec<i32> = Vec::new();
    let n = ticks.len();
    let mut i: usize = 0;
    while i < n
        invariant
            n == ticks@.len(),
            i <= n,
            r@ == paused_of(ticks@.subrange(0, i as int), paused@),
        decreases n - i,
    {
        assert(ticks@.subrange(0, i + 1).drop_last() =~= ticks@.subrange(0, i as int));
        if i < paused.len() && paused[i] {
            r.push(ticks[i]);
        }
        i = i + 1;
    }
    assert(ticks@.subrange(0, n as int) =~= ticks@);
    r
}

/// Strictly increasing.
pub open spec fn increasing_i32(s: Seq<i32>) -> bool {
    forall|i: int, j: int| 0 <= i < j < s.len() ==> s[i] < s[j]
}

/// Insert `t` into the strictly increasing `ticks`, unless present.
fn insert_tick(ticks: &mut Vec<i32>, t: i32)
    requires
        increasing_i32(old(ticks)@),
    ensures
        increasing_i32(final(ticks)@),
        final(ticks)@.to_set() == old(ticks)@.to_set().insert(t),
{
    let n = ticks.len();
    let mut i: usize = 0;
    while i < n && ticks[i] < t
        invariant
            n == ticks@.len(),
            i <= n,
            forall|j: int| 0 <= j < i ==> ticks@[j] < t,
        decreases n - i,
    {
        i = i + 1;
    }
    if i < n && ticks[i] == t {
        assert(ticks@.to_set().insert(t) =~= ticks@.to_set()) by {
            assert(ticks@.contains(t));
        }
        return;
    }
    let ghost before = ticks@;
    ticks.insert(i, t);
    assert(ticks@ =~= before.subrange(0, i as int).push(t) + before.subrange(i as int, n as int));
    assert(ticks@.to_set() =~= before.to_set().insert(t)) by {
        assert forall|x: i32| ticks@.to_set().contains(x) implies before.to_set().insert(t).contains(x) by {
            let k = choose|k: int| 0 <= k < ticks@.len() && ticks@[k] == x;
            if k < i {
                assert(before[k] == x);
            } else if k > i {
                assert(before[k - 1] == x);
            }
        }
        assert forall|x: i32| before.to_set().insert(t).contains(x) implies ticks@.to_set().contains(x) by {
            if x == t {
                assert(ticks@[i as int] == t);
            } else {
                let k = choose|k: int| 0 <= k < before.len() && before[k] == x;
                if k < i {
                    assert(ticks@[k] == x);
                } else {
                    assert(ticks@[k + 1] == x);
                }
            }
        }
    }
}

/// The distinct ticks of a request, in increasing order (the order a normal
/// decode produces rows in).
pub fn sorted_distinct_ticks(ticks: &Vec<i32>) -> (r: Vec<i32>)
    ensures
        increasing_i32(r@),
        r@.to_set() == ticks@.to_set(),
{
    let mut r: Vec<i32> = Vec::new();
    let n = ticks.len();
    let mut i: usize = 0;
    while i < n
        invariant
            n == ticks@.len(),
            i <= n,
            increasing_i32(r@),
            r@.to_set() == ticks@.subrange(0, i as int).to_set(),
        decreases n - i,
    {
        insert_tick(&mut r, ticks[i]);
        assert(ticks@.subrange(0, i + 1).to_set() =~= ticks@.subrange(0, i as int).to_set().insert(
            ticks@[i as int],
        )) by {
            assert(ticks@.subrange(0, i + 1) =~= ticks@.subrange(0, i as int).push(ticks@[i as int]));
            ticks@.subrange(0, i as int).lemma_push_to_set_commute(ticks@[i as int]);
        }
        i = i + 1;
    }
    assert(ticks@.subrange(0, n as int) =~= ticks@);
    r
}

/// A strictly increasing sequence is fixed by its set of elements.
pub proof fn lemma_increasing_fixed_by_set(a: Seq<i32>, b: Seq<i32>)
    requires
        increasing_i32(a),
        increasing_i32(b),
        a.to_set() == b.to_set(),
    ensures
        a == b,
    decreases a.len(),
{
    if a.len() == 0 {
        if b.len() > 0 {
            assert(b.to_set().contains(b[0]));
        }
        assert(a =~= b);
    } else {
        if b.len() == 0 {
            assert(a.to_set().contains(a[0]));
        }
        let x = a.last();
        let y = b.last();
        assert(a.to_set().contains(x));
        assert(b.to_set().contains(y));
        let i = choose|i: int| 0 <= i < b.len() && b[i] == x;
        let j = choose|j: int| 0 <= j < a.len() && a[j] == y;
        assert(x <= y);
        assert(y <= x);
        let da = a.drop_last();
        let db = b.drop_last();
        assert(da.to_set() =~= a.to_set().remove(x)) by {
            assert forall|v: i32| da.to_set().contains(v) <==> a.to_set().remove(x).contains(v) by {
                if da.to_set().contains(v) {
                    let k = choose|k: int| 0 <= k < da.len() && da[k] == v;
                    assert(a[k] == v);
                }
                if a.to_set().remove(x).contains(v) {
                    let k = choose|k: int| 0 <= k < a.len() && a[k] == v;
                    assert(da[k] == v);
                }
            }
        }
        assert(db.to_set() =~= b.to_set().remove(y)) by {
            assert forall|v: i32| db.to_set().contains(v) <==> b.to_set().remove(y).contains(v) by {
                if db.to_set().contains(v) {
                    let k = choose|k: int| 0 <= k < db.len() && db[k] == v;
                    assert(b[k] == v);
                }
                if b.to_set().remove(y).contains(v) {
                    let k = choose|k: int| 0 <= k < b.len() && b[k] == v;
                    assert(db[k] == v);
                }
            }
        }
        lemma_increasing_fixed_by_set(da, db);
        assert(a =~= da.push(x));
        assert(b =~= db.push(y));
    }
}

/// Requests holding the same ticks, in any order and with any repeats, give
/// the same distinct ticks: two results of `sorted_distinct_ticks` (strictly
/// increasing, with the elements of their requests) are equal.
pub proof fn lemma_sorted_distinct_ticks_by_set(
    ticks1: Seq<i32>,
    ticks2: Seq<i32>,
    r1: Seq<i32>,
    r2: Seq<i32>,
)
    requires
        ticks1.to_set() == ticks2.to_set(),
        increasing_i32(r1),
        r1.to_set() == ticks1.to_set(),
        increasing_i32(r2),
        r2.to_set() == ticks2.to_set(),
    ensures
        r1 == r2,
{
    lemma_increasing_fixed_by_set(r1, r2);
}

/// The ticks a stride keeps from the demo's distinct ticks, given the last
/// kept tick: the first tick, then each tick at least `step` after the last
/// kept one.
pub open spec fn stride_sample(ticks: Seq<i32>, step: i32) -> (Seq<i32>, Option<i32>)
    decreases ticks.len(),
{
    if ticks.len() == 0 {
        (seq![], None)
    } else {
        let (kept, last) = stride_sample(ticks.drop_last(), step);
        let t = ticks.last();
        match last {
            None => (kept.push(t), Some(t)),
            Some(l) => if t - l >= step {
                (kept.push(t), Some(t))
            } else {
                (kept, last)
            },
        }
    }
}

/// Keep the first tick and every tick at least `step` ticks after the last
/// kept one.
pub fn sample_every(ticks: &Vec<i32>, step: i32) -> (r: Vec<i32>)
    ensures
        r@ == stride_sample(ticks@, step).0,
{
    let mut r: Vec<i32> = Vec::new();
    let mut last: Option<i32> = None;
    let n = ticks.len();
    let mut i: usize = 0;
    while i < n
        invariant
            n == ticks@.len(),
            i <= n,
            (r@, last) == stride_sample(ticks@.subrange(0, i as int), step),
        decreases n - i,
    {
        let t = ticks[i];
        assert(ticks@.subrange(0, i + 1).drop_last() =~= ticks@.subrange(0, i as int));
        let keep = match last {
            None => true,
            Some(l) => t as i64 - l as i64 >= step as i64,
        };
        if keep {
            r.push(t);
            last = Some(t);
        }
        i = i + 1;
    }
    assert(ticks@.subrange(0, n as int) =~= ticks@);
    r
}

/// The stride given in seconds, once converted to ticks by the caller.
pub enum SecondsStride {
    /// Not a finite positive number of seconds.
    NotPositive,
    /// The stride rounded to whole ticks.
    Ticks(i32),
}

/// Why a stride is refused.
#[derive(PartialEq, Eq, Structural, Debug)]
pub enum StrideError {
    /// Both `every` and `seconds` were given.
    EveryAndSeconds,
    /// `every` is below one tick.
    EveryBelowOne,
    /// `seconds` is not a positive number.
    SecondsNotPositive,
}

/// The stride (in ticks) of a sampling request: `every` ticks, or the
/// seconds converted to ticks and raised to at least one; none without
/// either.
pub fn resolve_stride(every: Option<i32>, seconds: Option<SecondsStride>) -> (r: Result<
    Option<i32>,
    StrideError,
>)
    ensures
        match (every, seconds) {
            (Some(_), Some(_)) => r == Err::<Option<i32>, StrideError>(StrideError::EveryAndSeconds),
            (Some(step), None) => if step < 1 {
                r == Err::<Option<i32>, StrideError>(StrideError::EveryBelowOne)
            } else {
                r == Ok::<Option<i32>, StrideError>(Some(step))
            },
            (None, Some(SecondsStride::NotPositive)) => r == Err::<Option<i32>, StrideError>(
                StrideError::SecondsNotPositive,
            ),
            (None, Some(SecondsStride::Ticks(t))) => r == Ok::<Option<i32>, StrideError>(
                Some(if t < 1 { 1 } else { t }),
            ),
            (None, None) => r == Ok::<Option<i32>, StrideError>(None),
        },
{
    match (every, seconds) {
        (Some(_), Some(_)) => Err(StrideError::EveryAndSeconds),
        (Some(step), None) => if step < 1 {
            Err(StrideError::EveryBelowOne)
        } else {
            Ok(Some(step))
        },
        (None, Some(SecondsStride::NotPositive)) => Err(StrideError::SecondsNotPositive),
        (None, Some(SecondsStride::Ticks(t))) => Ok(Some(if t < 1 { 1 } else { t })),
        (None, None) => Ok(None),
    }
}

/// A `str` or `list[str]` argument (e.g. `datasets=`, `events=`).
pub enum StrOrList {
    One(String),
    Many(Vec<String>),
}

impl StrOrList {
    /// The strings, a single one as a list of one.
    pub fn into_vec(self) -> (r: Vec<String>)
        ensures
            match self {
                StrOrList::One(s) => r@ == seq![s],
                StrOrList::Many(v) => r == v,
            },
    {
        match self {
            StrOrList::One(s) => {
                let mut v: Vec<String> = Vec::new();
                v.push(s);
                v
            },
            StrOrList::Many(v) => v,
        }
    }
}

/// An `int` or `list[int]` argument (e.g. `ticks=`).
pub enum IntOrList {
    One(i32),
    Many(Vec<i32>),
}

impl IntOrList {
    /// The integers, a single one as a list of one.
    pub fn into_vec(self) -> (r: Vec<i32>)
        ensures
            match self {
                IntOrList::One(t) => r@ == seq![t],
                IntOrList::Many(v) => r == v,
            },
    {
        match self {
            IntOrList::One(t) => {
                let mut v: Vec<i32> = Vec::new();
                v.push(t);
                v
            },
            IntOrList::Many(v) => v,
        }
    }
}

/// Why the datasets of a snapshot request are refused.
pub enum SnapshotDatasetsError {
    /// No dataset was named.
    Empty,
    /// The first name that is not `player_ticks`, `world_ticks` or `troopers`.
    NotSnapshotDataset(String),
}

/// Which snapshot dataset a name selects.
pub open spec fn snapshot_name(name: Seq<char>) -> Option<int> {
    if name == "player_ticks"@ {
        Some(0)
    } else if name == "world_ticks"@ {
        Some(1)
    } else if name == "troopers"@ {
        Some(2)
    } else {
        None
    }
}

/// The snapshot datasets selected by the names of a request, which must be
/// non-empty and name only `player_ticks`, `world_ticks` and `troopers`.
pub fn snapshot_wants(names: &Vec<String>) -> (r: Result<SnapWants, SnapshotDatasetsError>)
    ensures
        match r {
            Err(SnapshotDatasetsError::Empty) => names@.len() == 0,
            Err(SnapshotDatasetsError::NotSnapshotDataset(n)) => exists|i: int|
                0 <= i < names@.len() && snapshot_name(names@[i]@) is None && n@ == names@[i]@
                    && forall|j: int| 0 <= j < i ==> snapshot_name(#[trigger] names@[j]@) is Some,
            Ok(w) => {
                &&& names@.len() > 0
                &&& forall|j: int| 0 <= j < names@.len() ==> snapshot_name(#[trigger] names@[j]@) is Some
                &&& w.player_ticks == exists|j: int| 0 <= j < names@.len() && snapshot_name(#[trigger] names@[j]@) == Some(0int)
                &&& w.world_ticks == exists|j: int| 0 <= j < names@.len() && snapshot_name(#[trigger] names@[j]@) == Some(1int)
                &&& w.troopers == exists|j: int| 0 <= j < names@.len() && snapshot_name(#[trigger] names@[j]@) == Some(2int)
            },
        },
{
    if names.len() == 0 {
        return Err(SnapshotDatasetsError::Empty);
    }
    let mut w = SnapWants::none();
    let n = names.len();
    let mut i: usize = 0;
    while i < n
        invariant
            n == names@.len(),
            i <= n,
            forall|j: int| 0 <= j < i ==> snapshot_name(#[trigger] names@[j]@) is Some,
            w.player_ticks == exists|j: int| 0 <= j < i && snapshot_name(#[trigger] names@[j]@) == Some(0int),
            w.world_ticks == exists|j: int| 0 <= j < i && snapshot_name(#[trigger] names@[j]@) == Some(1int),
            w.troopers == exists|j: int| 0 <= j < i && snapshot_name(#[trigger] names@[j]@) == Some(2int),
        decreases n - i,
    {
        let name = names[i].as_str();
        if same_text(name, "player_ticks") {
            w.player_ticks = true;
        } else if same_text(name, "world_ticks") {
            w.world_ticks = true;
        } else if same_text(name, "troopers") {
            w.troopers = true;
        } else {
            return Err(SnapshotDatasetsError::NotSnapshotDataset(names[i].clone()));
        }
        assert(snapshot_name(names@[i as int]@) is Some);
        i = i + 1;
    }
    Ok(w)
}

/// The entity classes a snapshot pass decodes for the wanted datasets.
pub open spec fn snapshot_class_names(w: SnapWants) -> Seq<Seq<char>> {
    (if w.player_ticks {
        seq!["CCitadelPlayerPawn"@, "CCitadelPlayerController"@]
    } else {
        seq![]
    }) + (if w.world_ticks {
        seq!["CCitadelGameRulesProxy"@]
    } else {
        seq![]
    }) + (if w.troopers {
        seq!["CNPC_Trooper"@, "CNPC_TrooperBoss"@]
    } else {
        seq![]
    })
}

/// The entity classes a snapshot pass decodes: player pawns and controllers
/// for `player_ticks`, the game rules for `world_ticks`, lane troopers for
/// `troopers`.
pub fn snapshot_classes(w: SnapWants) -> (r: Vec<&'static str>)
    ensures
        r@.map_values(|s: &'static str| s@) == snapshot_class_names(w),
{
    let mut r: Vec<&'static str> = Vec::new();
    if w.player_ticks {
        r.push("CCitadelPlayerPawn");
        r.push("CCitadelPlayerController");
    }
    if w.world_ticks {
        r.push("CCitadelGameRulesProxy");
    }
    if w.troopers {
        r.push("CNPC_Trooper");
        r.push("CNPC_TrooperBoss");
    }
    assert(r@.map_values(|s: &'static str| s@) =~= snapshot_class_names(w));
    r
}

/// A controller yields a player row when its pawn handle resolves to a
/// player pawn with a hero.
pub open spec fn pawn_row_kept(pawn_class: Option<Seq<char>>, hero_id: i64) -> bool {
    pawn_class == Some("CCitadelPlayerPawn"@) && hero_id != 0
}

/// Whether a controller's pawn gives a row of the per-tick player tables,
/// given the class of the entity its pawn handle resolves to (none when the
/// handle is missing or resolves to nothing) and the pawn's hero id.
pub fn keeps_pawn_row(pawn_class: Option<&str>, hero_id: i64) -> (r: bool)
    ensures
        r == pawn_row_kept(
            match pawn_class {
                Some(c) => Some(c@),
                None => None,
            },
            hero_id,
        ),
{
    match pawn_class {
        Some(c) => same_text(c, "CCitadelPlayerPawn") && hero_id != 0,
        None => false,
    }
}

/// The wanted snapshot datasets that are not cached yet.
pub fn uncached_wants(
    wants: SnapWants,
    has_player_ticks: bool,
    has_world_ticks: bool,
    has_troopers: bool,
) -> (r: SnapWants)
    ensures
        r.player_ticks == (wants.player_ticks && !has_player_ticks),
        r.world_ticks == (wants.world_ticks && !has_world_ticks),
        r.troopers == (wants.troopers && !has_troopers),
{
    let mut w = wants;
    if has_player_ticks {
        w.player_ticks = false;
    }
    if has_world_ticks {
        w.world_ticks = false;
    }
    if has_troopers {
        w.troopers = false;
    }
    w
}

/// How a snapshot request selects its ticks.
#[derive(PartialEq, Eq, Structural, Debug)]
pub enum SnapshotPath {
    /// One tick, read by seeking to it.
    SingleTick(i32),
    /// Every tick of a window.
    Window { start: i32, end: i32 },
    /// The selected ticks plus, with a stride, the stride-sampled ticks,
    /// within a window.
    Sampled { start: i32, end: i32 },
}

/// Why a snapshot request selects no ticks.
#[derive(PartialEq, Eq, Structural, Debug)]
pub enum SnapshotPathError {
    NoSelector,
}

/// Choose how a snapshot request selects ticks, from its stride, its
/// explicit and event ticks (distinct, increasing) and its tick window. A
/// request needs at least one selector; one tick with neither stride nor
/// window is read by a direct seek; a window alone selects every tick in it;
/// otherwise the explicit ticks and the stride sample are kept within the
/// window, whose missing bounds are open.
pub fn choose_snapshot_path(
    stride: Option<i32>,
    ticks: &Vec<i32>,
    start_tick: Option<i32>,
    end_tick: Option<i32>,
) -> (r: Result<SnapshotPath, SnapshotPathError>)
    ensures
        ({
            let has_window = start_tick is Some || end_tick is Some;
            let start = match start_tick {
                Some(s) => s,
                None => i32::MIN,
            };
            let end = match end_tick {
                Some(e) => e,
                None => i32::MAX,
            };
            if stride is None && ticks@.len() == 0 && !has_window {
                r == Err::<SnapshotPath, SnapshotPathError>(SnapshotPathError::NoSelector)
            } else if stride is None && !has_window && ticks@.len() == 1 {
                r == Ok::<SnapshotPath, SnapshotPathError>(SnapshotPath::SingleTick(ticks@[0]))
            } else if stride is None && ticks@.len() == 0 {
                r == Ok::<SnapshotPath, SnapshotPathError>(SnapshotPath::Window { start, end })
            } else {
                r == Ok::<SnapshotPath, SnapshotPathError>(SnapshotPath::Sampled { start, end })
            }
        }),
{
    let has_window = start_tick.is_some() || end_tick.is_some();
    if stride.is_none() && ticks.len() == 0 && !has_window {
        return Err(SnapshotPathError::NoSelector);
    }
    if stride.is_none() && !has_window && ticks.len() == 1 {
        return Ok(SnapshotPath::SingleTick(ticks[0]));
    }
    let start = match start_tick {
        Some(s) => s,
        None => i32::MIN,
    };
    let end = match end_tick {
        Some(e) => e,
        None => i32::MAX,
    };
    if stride.is_none() && ticks.len() == 0 {
        Ok(SnapshotPath::Window { start, end })
    } else {
        Ok(SnapshotPath::Sampled { start, end })
    }
}

/// The tick predicate of a sampled request: the explicit ticks together
/// with the stride sample of the demo's distinct ticks, within the window.
pub fn sampled_predicate(
    ticks: &Vec<i32>,
    stride: Option<i32>,
    demo_ticks: &Vec<i32>,
    start: i32,
    end: i32,
) -> (r: TickPredicate)
    ensures
        r matches TickPredicate::TickSet { ticks: set, start: s, end: e } && s == start && e == end
            && set@ == ticks@.to_set() + match stride {
            Some(step) => stride_sample(demo_ticks@, step).0.to_set(),
            None => Set::empty(),
        },
{
    broadcast use vstd::std_specs::hash::group_hash_axioms;

    let mut set: HashSet<i32> = HashSet::new();
    let n = ticks.len();
    let mut i: usize = 0;
    while i < n
        invariant
            n == ticks@.len(),
            i <= n,
            set@ == ticks@.subrange(0, i as int).to_set(),
        decreases n - i,
    {
        set.insert(ticks[i]);
        assert(ticks@.subrange(0, i + 1) =~= ticks@.subrange(0, i as int).push(ticks@[i as int]));
        proof {
            ticks@.subrange(0, i as int).lemma_push_to_set_commute(ticks@[i as int]);
        }
        i = i + 1;
    }
    assert(ticks@.subrange(0, n as int) =~= ticks@);
    let ghost base = set@;
    if let Some(step) = stride {
        let sampled = sample_every(demo_ticks, step);
        let m = sampled.len();
        let mut k: usize = 0;
        while k < m
            invariant
                m == sampled@.len(),
                k <= m,
                set@ == base + sampled@.subrange(0, k as int).to_set(),
            decreases m - k,
        {
            set.insert(sampled[k]);
            assert(sampled@.subrange(0, k + 1) =~= sampled@.subrange(0, k as int).push(
                sampled@[k as int],
            ));
            proof {
                sampled@.subrange(0, k as int).lemma_push_to_set_commute(sampled@[k as int]);
            }
            assert(set@ =~= base + sampled@.subrange(0, k + 1).to_set());
            k = k + 1;
        }
        assert(sampled@.subrange(0, m as int) =~= sampled@);
    } else {
        assert(set@ =~= base + Set::empty());
    }
    TickPredicate::TickSet { ticks: set, start, end }
}

/// How the ticks of event datasets are found.
pub enum EventTickSource {
    /// Every missing dataset has one row per message of one kind: read the
    /// ticks of those message kinds (each once) without building the datasets.
    Direct { messages: Vec<UserMessage> },
    /// Load the missing datasets, then read their tick columns.
    LoadAll,
}

/// Decide how to find the ticks of the named event datasets, given which of
/// them are already cached.
pub fn event_tick_source(names: &Vec<String>, cached: &Vec<bool>) -> (r: EventTickSource)
    requires
        cached@.len() == names@.len(),
    ensures
        match r {
            EventTickSource::Direct { messages } => {
                &&& forall|i: int|
                    0 <= i < names@.len() && !cached@[i] ==> direct_message(#[trigger] names@[i]@) is Some
                &&& messages@.no_duplicates()
                &&& forall|m: UserMessage|
                    #[trigger] messages@.contains(m) == exists|i: int|
                        0 <= i < names@.len() && !cached@[i] && direct_message(#[trigger] names@[i]@)
                            == Some(m)
            },
            EventTickSource::LoadAll => exists|i: int|
                0 <= i < names@.len() && !cached@[i] && direct_message(#[trigger] names@[i]@) is None,
        },
{
    let mut messages: Vec<UserMessage> = Vec::new();
    let n = names.len();
    let mut i: usize = 0;
    while i < n
        invariant
            n == names@.len(),
            cached@.len() == n,
            i <= n,
            forall|j: int|
                0 <= j < i && !cached@[j] ==> direct_message(#[trigger] names@[j]@) is Some,
            messages@.no_duplicates(),
            forall|m: UserMessage|
                #[trigger] messages@.contains(m) == exists|j: int|
                    0 <= j < i && !cached@[j] && direct_message(#[trigger] names@[j]@) == Some(m),
        decreases n - i,
    {
        if !cached[i] {
            match direct_event_message_type(names[i].as_str()) {
                None => {
                    return EventTickSource::LoadAll;
                },
                Some(m) => {
                    let ghost prev = messages@;
                    if !contains_message(&messages, m) {
                        messages.push(m);
                        proof {
                            assert forall|a: int, b: int|
                                0 <= a < messages@.len() && 0 <= b < messages@.len() && a != b implies messages@[a]
                                != messages@[b] by {
                                if b == prev.len() as int {
                                    assert(prev.contains(prev[a]));
                                } else if a == prev.len() as int {
                                    assert(prev.contains(prev[b]));
                                }
                            }
                        }
                    }
                    proof {
                        assert forall|x: UserMessage|
                            #[trigger] messages@.contains(x) == exists|j: int|
                                0 <= j < i + 1 && !cached@[j] && direct_message(#[trigger] names@[j]@)
                                    == Some(x) by {
                            if x == m {
                                assert(direct_message(names@[i as int]@) == Some(x));
                                if !prev.contains(x) {
                                    assert(messages@[prev.len() as int] == x);
                                }
                            }
                            if prev.contains(x) {
                                let k = choose|k: int| 0 <= k < prev.len() && prev[k] == x;
                                assert(messages@[k] == x);
                            }
                            if messages@.contains(x) && x != m {
                                let k = choose|k: int| 0 <= k < messages@.len() && messages@[k] == x;
                                if k < prev.len() {
                                    assert(prev[k] == x);
                                }
                            }
                        }
                    }
                },
            }
        }
        i = i + 1;
    }
    EventTickSource::Direct { messages }
}

fn contains_message(v: &Vec<UserMessage>, m: UserMessage) -> (r: bool)
    ensures
        r == v@.contains(m),
{
    let n = v.len();
    let mut i: usize = 0;
    while i < n
        invariant
            n == v@.len(),
            i <= n,
            forall|j: int| 0 <= j < i ==> v@[j] != m,
        decreases n - i,
    {
        if v[i] == m {
            return true;
        }
        i = i + 1;
    }
    false
}

/// The tick at which the player roster is read: the game-over tick when the
/// demo has one, else the last recorded tick.
pub fn roster_tick(game_over: Option<(i32, i32)>, total_ticks: i32) -> (r: i32)
    ensures
        r == match game_over {
            Some((_, tick)) => tick,
            None => total_ticks,
        },
{
    match game_over {
        Some((_, tick)) => tick,
        None => total_ticks,
    }
}

/// Whether the roster must be read again at the last recorded tick: the
/// chosen tick had no controllers and is not already the last tick.
pub fn retry_roster(rows: usize, snapshot_tick: i32, total_ticks: i32) -> (r: bool)
    ensures
        r == (rows == 0 && snapshot_tick != total_ticks),
{
    rows == 0 && snapshot_tick != total_ticks
}

/// Slots of a controller's stat viewer modifier vector that are read.
pub const STAT_VIEWER_SLOTS: usize = 20;

/// Field keys of one stat viewer slot: its value type and its value.
#[derive(Clone, Copy, PartialEq, Eq, Structural, Debug)]
pub struct StatViewerKeys {
    pub value_type: Option<u64>,
    pub value: Option<u64>,
}

/// The stat viewer vector is usable only when the serializer exposes its
/// count and the fields of its first entry.
pub fn stat_viewer_values_available(count: Option<u64>, keys: &[StatViewerKeys; STAT_VIEWER_SLOTS]) -> (r: bool)
    ensures
        r == (count is Some && keys@[0].value_type is Some && keys@[0].value is Some),
{
    count.is_some() && keys[0].value_type.is_some() && keys[0].value.is_some()
}

/// How many stat viewer slots to read: the controller's count, clamped to
/// the slots there are.
pub fn stat_modifier_slot_count(count: i64) -> (r: usize)
    ensures
        r <= STAT_VIEWER_SLOTS,
        count <= 0 ==> r == 0,
        0 < count <= STAT_VIEWER_SLOTS ==> r == count,
        count > STAT_VIEWER_SLOTS ==> r == STAT_VIEWER_SLOTS,
{
    if count <= 0 {
        0
    } else if count >= STAT_VIEWER_SLOTS as i64 {
        STAT_VIEWER_SLOTS
    } else {
        count as usize
    }
}

/// Rows collected by one snapshot pass appended below the rows already
/// collected (the first pass's rows start the output). Rows of one type
/// always stack, so this cannot fail.
pub fn append_snapshot_frame<T>(output: &mut Option<Vec<T>>, next: Option<Vec<T>>)
    ensures
        match next {
            None => *final(output) == *old(output),
            Some(n) => match *old(output) {
                Some(o) => final(output).is_some() && final(output).unwrap()@ == o@ + n@,
                None => *final(output) == Some(n),
            },
        },
{
    match next {
        None => {},
        Some(mut n) => {
            match output {
                Some(o) => {
                    o.append(&mut n);
                },
                None => {
                    *output = Some(n);
                },
            }
        },
    }
}

/// Up to this many distinct ticks of player positions are read by seeking
/// to each one.
pub const SEEK_TICKS: usize = 4;

/// How a pass decodes the demo.
#[derive(Clone, Copy, PartialEq, Eq, Structural, Debug)]
pub enum DecodePass {
    /// Seek to each requested tick.
    Seek,
    /// One decode from the signon baseline to the end.
    Serial,
    /// This many segments, decoded side by side.
    Segments(usize),
}

/// How many segments a pass decodes: the requested parallelism (at least
/// one), and no more segments than full packets (at least one).
pub fn segment_count(parallelism: usize, full_packets: usize) -> (r: usize)
    ensures
        r == (if parallelism < 1 { 1 } else { parallelism }) || r == (if full_packets < 1 {
            1
        } else {
            full_packets
        }),
        r <= (if parallelism < 1 { 1 } else { parallelism }),
        r <= (if full_packets < 1 { 1 } else { full_packets }),
        r >= 1,
{
    let p = if parallelism < 1 { 1 } else { parallelism };
    let f = if full_packets < 1 { 1 } else { full_packets };
    if p < f { p } else { f }
}

/// A snapshot pass decodes serially when only one segment would be used,
/// else in segments.
pub fn snapshot_pass(parallelism: usize, full_packets: usize) -> (r: DecodePass)
    ensures
        ({
            let p = if parallelism < 1 { 1 } else { parallelism };
            let f = if full_packets < 1 { 1 } else { full_packets };
            let n = if p < f { p } else { f };
            r == if n <= 1 { DecodePass::Serial } else { DecodePass::Segments(n) }
        }),
{
    let n = segment_count(parallelism, full_packets);
    if n <= 1 {
        DecodePass::Serial
    } else {
        DecodePass::Segments(n)
    }
}

/// Player positions at a few ticks are read by seeking; at more, by a
/// snapshot pass.
pub fn position_pass(distinct_ticks: usize, parallelism: usize, full_packets: usize) -> (r: DecodePass)
    ensures
        ({
            let p = if parallelism < 1 { 1 } else { parallelism };
            let f = if full_packets < 1 { 1 } else { full_packets };
            let n = if p < f { p } else { f };
            r == if distinct_ticks <= SEEK_TICKS {
                DecodePass::Seek
            } else if n <= 1 {
                DecodePass::Serial
            } else {
                DecodePass::Segments(n)
            }
        }),
{
    if distinct_ticks <= SEEK_TICKS {
        DecodePass::Seek
    } else {
        snapshot_pass(parallelism, full_packets)
    }
}

} // verus!
