//! Listing rows: the tick window and text filter that select rows, and the
//! summaries that count rows per key and order the counts.
use vstd::prelude::*;
use vstd::string::*;

use crate::text::{lowercase, occurs_in, contains_text, to_lowercase_text, same_text};

verus! {

/// Strict lexicographic order of character sequences, by code point (the
/// order of `str` comparison).
pub open spec fn chars_lt(a: Seq<char>, b: Seq<char>) -> bool
    decreases a.len(),
{
    if a.len() == 0 {
        b.len() > 0
    } else if b.len() == 0 {
        false
    } else if a[0] != b[0] {
        (a[0] as int) < (b[0] as int)
    } else {
        chars_lt(a.drop_first(), b.drop_first())
    }
}

pub proof fn lemma_chars_lt_irreflexive(a: Seq<char>)
    ensures
        !chars_lt(a, a),
    decreases a.len(),
{
    if a.len() > 0 {
        lemma_chars_lt_irreflexive(a.drop_first());
    }
}

pub proof fn lemma_chars_lt_transitive(a: Seq<char>, b: Seq<char>, c: Seq<char>)
    requires
        chars_lt(a, b),
        chars_lt(b, c),
    ensures
        chars_lt(a, c),
    decreases a.len(),
{
    if a.len() > 0 && b.len() > 0 && c.len() > 0 {
        if a[0] == b[0] && b[0] == c[0] {
            lemma_chars_lt_transitive(a.drop_first(), b.drop_first(), c.drop_first());
        }
    }
}

pub proof fn lemma_chars_lt_total(a: Seq<char>, b: Seq<char>)
    requires
        a != b,
    ensures
        chars_lt(a, b) || chars_lt(b, a),
    decreases a.len(),
{
    if a.len() > 0 && b.len() > 0 && a[0] == b[0] {
        if a.drop_first() == b.drop_first() {
            assert(a =~= seq![a[0]] + a.drop_first());
            assert(b =~= seq![b[0]] + b.drop_first());
        }
        lemma_chars_lt_total(a.drop_first(), b.drop_first());
    } else if a.len() > 0 && b.len() > 0 {
        assert((a[0] as int) != (b[0] as int));
    } else if a.len() == 0 && b.len() == 0 {
        assert(a =~= b);
    }
}

pub proof fn lemma_chars_lt_asymmetric(a: Seq<char>, b: Seq<char>)
    requires
        chars_lt(a, b),
    ensures
        !chars_lt(b, a),
{
    if chars_lt(b, a) {
        lemma_chars_lt_transitive(a, b, a);
        lemma_chars_lt_irreflexive(a);
    }
}

/// One part of a summary key: a number or a label.
#[derive(Clone, Debug, PartialEq, Eq)]
pub enum KeyPart {
    Number(i64),
    Text(String),
}

/// The content of a key part.
pub enum PartView {
    Number(i64),
    Text(Seq<char>),
}

impl View for KeyPart {
    type V = PartView;

    open spec fn view(&self) -> PartView {
        match self {
            KeyPart::Number(n) => PartView::Number(*n),
            KeyPart::Text(s) => PartView::Text(s@),
        }
    }
}

/// The content of a key.
pub open spec fn key_view(k: Seq<KeyPart>) -> Seq<PartView> {
    k.map_values(|p: KeyPart| p@)
}

/// Order of key parts: numbers by value, labels lexicographically, numbers
/// before labels.
pub open spec fn part_lt(a: PartView, b: PartView) -> bool {
    match (a, b) {
        (PartView::Number(x), PartView::Number(y)) => x < y,
        (PartView::Number(_), PartView::Text(_)) => true,
        (PartView::Text(_), PartView::Number(_)) => false,
        (PartView::Text(x), PartView::Text(y)) => chars_lt(x, y),
    }
}

/// Lexicographic order of keys, part by part (the order of tuples).
pub open spec fn key_lt(a: Seq<PartView>, b: Seq<PartView>) -> bool
    decreases a.len(),
{
    if a.len() == 0 {
        b.len() > 0
    } else if b.len() == 0 {
        false
    } else if a[0] != b[0] {
        part_lt(a[0], b[0])
    } else {
        key_lt(a.drop_first(), b.drop_first())
    }
}

proof fn lemma_part_lt_props(a: PartView, b: PartView, c: PartView)
    ensures
        !part_lt(a, a),
        part_lt(a, b) && part_lt(b, c) ==> part_lt(a, c),
        a != b ==> part_lt(a, b) || part_lt(b, a),
{
    match a {
        PartView::Text(x) => {
            lemma_chars_lt_irreflexive(x);
        },
        _ => {},
    }
    match (a, b, c) {
        (PartView::Text(x), PartView::Text(y), PartView::Text(z)) => {
            if chars_lt(x, y) && chars_lt(y, z) {
                lemma_chars_lt_transitive(x, y, z);
            }
        },
        _ => {},
    }
    match (a, b) {
        (PartView::Text(x), PartView::Text(y)) => {
            if a != b {
                lemma_chars_lt_total(x, y);
            }
        },
        _ => {},
    }
}

pub proof fn lemma_key_lt_irreflexive(a: Seq<PartView>)
    ensures
        !key_lt(a, a),
    decreases a.len(),
{
    if a.len() > 0 {
        lemma_key_lt_irreflexive(a.drop_first());
    }
}

pub proof fn lemma_key_lt_transitive(a: Seq<PartView>, b: Seq<PartView>, c: Seq<PartView>)
    requires
        key_lt(a, b),
        key_lt(b, c),
    ensures
        key_lt(a, c),
    decreases a.len(),
{
    if a.len() > 0 && b.len() > 0 && c.len() > 0 {
        lemma_part_lt_props(a[0], b[0], c[0]);
        lemma_part_lt_props(b[0], a[0], c[0]);
        lemma_part_lt_props(a[0], c[0], b[0]);
        if a[0] == b[0] && b[0] == c[0] {
            lemma_key_lt_transitive(a.drop_first(), b.drop_first(), c.drop_first());
        }
    }
}

pub proof fn lemma_key_lt_total(a: Seq<PartView>, b: Seq<PartView>)
    requires
        a != b,
    ensures
        key_lt(a, b) || key_lt(b, a),
    decreases a.len(),
{
    if a.len() > 0 && b.len() > 0 && a[0] == b[0] {
        if a.drop_first() == b.drop_first() {
            assert(a =~= seq![a[0]] + a.drop_first());
            assert(b =~= seq![b[0]] + b.drop_first());
        }
        lemma_key_lt_total(a.drop_first(), b.drop_first());
    } else if a.len() > 0 && b.len() > 0 {
        lemma_part_lt_props(a[0], b[0], b[0]);
    } else if a.len() == 0 && b.len() == 0 {
        assert(a =~= b);
    }
}

/// Whether label `a` sorts before label `b`.
pub fn text_less(a: &str, b: &str) -> (r: bool)
    ensures
        r == chars_lt(a@, b@),
{
    let n = a.unicode_len();
    let m = b.unicode_len();
    let mut i: usize = 0;
    proof {
        lemma_text_less_start(a@, b@);
    }
    while i < n && i < m && a.get_char(i) == b.get_char(i)
        invariant
            n == a@.len(),
            m == b@.len(),
            i <= n,
            i <= m,
            chars_lt(a@, b@) == chars_lt(a@.subrange(i as int, n as int), b@.subrange(i as int, m as int)),
        decreases n - i,
    {
        assert(a@.subrange(i as int, n as int).drop_first() =~= a@.subrange(i + 1, n as int));
        assert(b@.subrange(i as int, m as int).drop_first() =~= b@.subrange(i + 1, m as int));
        i = i + 1;
    }
    if i == n {
        i < m
    } else if i == m {
        false
    } else {
        (a.get_char(i) as u32) < (b.get_char(i) as u32)
    }
}

proof fn lemma_text_less_start(a: Seq<char>, b: Seq<char>)
    ensures
        a.subrange(0, a.len() as int) == a,
        b.subrange(0, b.len() as int) == b,
{
    assert(a.subrange(0, a.len() as int) =~= a);
    assert(b.subrange(0, b.len() as int) =~= b);
}

fn part_equal(a: &KeyPart, b: &KeyPart) -> (r: bool)
    ensures
        r == (a@ == b@),
{
    match (a, b) {
        (KeyPart::Number(x), KeyPart::Number(y)) => *x == *y,
        (KeyPart::Text(x), KeyPart::Text(y)) => same_text(x.as_str(), y.as_str()),
        _ => false,
    }
}

fn part_less(a: &KeyPart, b: &KeyPart) -> (r: bool)
    ensures
        r == part_lt(a@, b@),
{
    match (a, b) {
        (KeyPart::Number(x), KeyPart::Number(y)) => *x < *y,
        (KeyPart::Number(_), KeyPart::Text(_)) => true,
        (KeyPart::Text(_), KeyPart::Number(_)) => false,
        (KeyPart::Text(x), KeyPart::Text(y)) => text_less(x.as_str(), y.as_str()),
    }
}

/// Whether two keys have the same content.
pub fn key_equal(a: &Vec<KeyPart>, b: &Vec<KeyPart>) -> (r: bool)
    ensures
        r == (key_view(a@) == key_view(b@)),
{
    if a.len() != b.len() {
        return false;
    }
    let n = a.len();
    let mut i: usize = 0;
    while i < n
        invariant
            n == a@.len(),
            n == b@.len(),
            i <= n,
            forall|j: int| 0 <= j < i ==> a@[j]@ == b@[j]@,
        decreases n - i,
    {
        if !part_equal(&a[i], &b[i]) {
            assert(key_view(a@)[i as int] != key_view(b@)[i as int]);
            return false;
        }
        i = i + 1;
    }
    assert(key_view(a@) =~= key_view(b@));
    true
}

/// Whether key `a` sorts before key `b`.
pub fn key_less(a: &Vec<KeyPart>, b: &Vec<KeyPart>) -> (r: bool)
    ensures
        r == key_lt(key_view(a@), key_view(b@)),
{
    let n = a.len();
    let m = b.len();
    let ghost ka = key_view(a@);
    let ghost kb = key_view(b@);
    assert(ka.subrange(0, n as int) =~= ka);
    assert(kb.subrange(0, m as int) =~= kb);
    let mut i: usize = 0;
    while i < n && i < m && part_equal(&a[i], &b[i])
        invariant
            n == a@.len(),
            m == b@.len(),
            ka == key_view(a@),
            kb == key_view(b@),
            i <= n,
            i <= m,
            key_lt(ka, kb) == key_lt(ka.subrange(i as int, n as int), kb.subrange(i as int, m as int)),
        decreases n - i,
    {
        assert(ka.subrange(i as int, n as int).drop_first() =~= ka.subrange(i + 1, n as int));
        assert(kb.subrange(i as int, m as int).drop_first() =~= kb.subrange(i + 1, m as int));
        i = i + 1;
    }
    if i == n {
        i < m
    } else if i == m {
        false
    } else {
        part_less(&a[i], &b[i])
    }
}

/// How many keys have content `k`.
pub open spec fn key_count(keys: Seq<Seq<PartView>>, k: Seq<PartView>) -> nat
    decreases keys.len(),
{
    if keys.len() == 0 {
        0
    } else {
        key_count(keys.drop_last(), k) + if keys.last() == k {
            1nat
        } else {
            0nat
        }
    }
}

proof fn lemma_key_count_bound(keys: Seq<Seq<PartView>>, k: Seq<PartView>)
    ensures
        key_count(keys, k) <= keys.len(),
    decreases keys.len(),
{
    if keys.len() > 0 {
        lemma_key_count_bound(keys.drop_last(), k);
    }
}

proof fn lemma_key_count_positive(keys: Seq<Seq<PartView>>, k: Seq<PartView>, i: int)
    requires
        0 <= i < keys.len(),
        keys[i] == k,
    ensures
        key_count(keys, k) >= 1,
    decreases keys.len(),
{
    if i < keys.len() - 1 {
        lemma_key_count_positive(keys.drop_last(), k, i);
    }
}

/// The number of rows that share a key.
pub struct KeyCount {
    pub key: Vec<KeyPart>,
    pub count: usize,
}

/// The contents of the keys of a list of rows.
pub open spec fn keys_view(keys: Seq<Vec<KeyPart>>) -> Seq<Seq<PartView>> {
    keys.map_values(|k: Vec<KeyPart>| key_view(k@))
}

/// The groups have distinct keys.
pub open spec fn distinct_groups(g: Seq<KeyCount>) -> bool {
    forall|i: int, j: int|
        0 <= i < g.len() && 0 <= j < g.len() && i != j ==> key_view(g[i].key@) != key_view(
            g[j].key@,
        )
}

/// Every group counts the rows of its key.
pub open spec fn counts_match(g: Seq<KeyCount>, keys: Seq<Seq<PartView>>) -> bool {
    forall|i: int| 0 <= i < g.len() ==> #[trigger] g[i].count == key_count(keys, key_view(g[i].key@))
}

/// Every group counts at least one row.
pub open spec fn positive_counts(g: Seq<KeyCount>) -> bool {
    forall|i: int| 0 <= i < g.len() ==> #[trigger] g[i].count >= 1
}

/// Every row's key has a group.
pub open spec fn covers(g: Seq<KeyCount>, keys: Seq<Seq<PartView>>) -> bool {
    forall|r: int| 0 <= r < keys.len() ==> has_group(g, #[trigger] keys[r])
}

/// Some group has key content `k`.
pub open spec fn has_group(g: Seq<KeyCount>, k: Seq<PartView>) -> bool {
    exists|i: int| 0 <= i < g.len() && key_view(#[trigger] g[i].key@) == k
}

/// Whether a key has content `k` among groups.
fn find_group(groups: &Vec<KeyCount>, key: &Vec<KeyPart>) -> (r: Option<usize>)
    ensures
        match r {
            Some(i) => i < groups@.len() && key_view(groups@[i as int].key@) == key_view(key@),
            None => forall|i: int| 0 <= i < groups@.len() ==> key_view(#[trigger] groups@[i].key@) != key_view(key@),
        },
{
    let n = groups.len();
    let mut i: usize = 0;
    while i < n
        invariant
            n == groups@.len(),
            i <= n,
            forall|j: int| 0 <= j < i ==> key_view(#[trigger] groups@[j].key@) != key_view(key@),
        decreases n - i,
    {
        if key_equal(&groups[i].key, key) {
            return Some(i);
        }
        i = i + 1;
    }
    None
}

/// Count the rows per key: one group per distinct key, in order of first
/// appearance.
pub fn count_keys(keys: Vec<Vec<KeyPart>>) -> (groups: Vec<KeyCount>)
    ensures
        distinct_groups(groups@),
        positive_counts(groups@),
        counts_match(groups@, keys_view(keys@)),
        covers(groups@, keys_view(keys@)),
{
    let ghost kv = keys_view(keys@);
    let mut groups: Vec<KeyCount> = Vec::new();
    let mut keys = keys;
    let n = keys.len();
    let mut rest: Vec<Vec<KeyPart>> = Vec::new();
    // Take the keys out in order.
    let mut i: usize = 0;
    while i < n
        invariant
            n == kv.len(),
            keys@.len() == n - i,
            i <= n,
            forall|j: int| 0 <= j < keys@.len() ==> key_view(#[trigger] keys@[j]@) == kv[i + j],
            distinct_groups(groups@),
            counts_match(groups@, kv.subrange(0, i as int)),
            covers(groups@, kv.subrange(0, i as int)),
            forall|g: int| 0 <= g < groups@.len() ==> #[trigger] groups@[g].count >= 1,
        decreases n - i,
    {
        let key = keys.remove(0);
        let ghost k = key_view(key@);
        assert(k == kv[i as int]);
        let ghost prefix = kv.subrange(0, i as int);
        let ghost next = kv.subrange(0, i + 1);
        assert(next.drop_last() =~= prefix);
        proof {
            lemma_key_count_bound(prefix, k);
        }
        match find_group(&groups, &key) {
            Some(g) => {
                let ghost before = groups@;
                let mut entry = groups.remove(g);
                entry.count = entry.count + 1;
                groups.insert(g, entry);
                proof {
                    assert forall|a: int| 0 <= a < groups@.len() implies #[trigger] groups@[a].count
                        == key_count(next, key_view(groups@[a].key@)) by {
                        if a == g {
                        } else {
                            assert(groups@[a] == before[a]);
                            assert(key_view(before[a].key@) != key_view(before[g as int].key@));
                        }
                    }
                    assert forall|a: int, b: int|
                        0 <= a < groups@.len() && 0 <= b < groups@.len() && a != b implies key_view(
                            groups@[a].key@,
                        ) != key_view(groups@[b].key@) by {
                        assert(key_view(groups@[a].key@) == key_view(before[a].key@));
                        assert(key_view(groups@[b].key@) == key_view(before[b].key@));
                    }
                    assert forall|r: int| 0 <= r < next.len() implies has_group(groups@, #[trigger] next[r]) by {
                        if r < i {
                            assert(prefix[r] == next[r]);
                            assert(has_group(before, prefix[r]));
                            let a = choose|a: int| 0 <= a < before.len() && key_view(#[trigger] before[a].key@) == prefix[r];
                            assert(key_view(groups@[a].key@) == next[r]);
                        } else {
                            assert(key_view(groups@[g as int].key@) == next[r]);
                        }
                    }
                    assert forall|a: int| 0 <= a < groups@.len() implies #[trigger] groups@[a].count >= 1 by {
                        if a != g {
                            assert(groups@[a] == before[a]);
                        }
                    }
                }
            },
            None => {
                let ghost before = groups@;
                groups.push(KeyCount { key, count: 1 });
                proof {
                    assert(key_count(prefix, k) == 0) by {
                        if key_count(prefix, k) > 0 {
                            lemma_key_count_witness(prefix, k);
                            let r = choose|r: int| 0 <= r < prefix.len() && prefix[r] == k;
                            assert(has_group(before, prefix[r]));
                            let a = choose|a: int| 0 <= a < before.len() && key_view(#[trigger] before[a].key@) == prefix[r];
                        }
                    }
                    assert forall|a: int| 0 <= a < groups@.len() implies #[trigger] groups@[a].count
                        == key_count(next, key_view(groups@[a].key@)) by {
                        if a < before.len() {
                            assert(groups@[a] == before[a]);
                        }
                    }
                    assert forall|r: int| 0 <= r < next.len() implies has_group(groups@, #[trigger] next[r]) by {
                        if r < i {
                            assert(prefix[r] == next[r]);
                            assert(has_group(before, prefix[r]));
                            let a = choose|a: int| 0 <= a < before.len() && key_view(#[trigger] before[a].key@) == prefix[r];
                            assert(key_view(groups@[a].key@) == next[r]);
                        } else {
                            assert(key_view(groups@[before.len() as int].key@) == next[r]);
                        }
                    }
                    assert forall|a: int| 0 <= a < groups@.len() implies #[trigger] groups@[a].count >= 1 by {
                        if a < before.len() {
                            assert(groups@[a] == before[a]);
                        }
                    }
                }
            },
        }
        i = i + 1;
    }
    assert(kv.subrange(0, n as int) =~= kv);
    groups
}

proof fn lemma_key_count_witness(keys: Seq<Seq<PartView>>, k: Seq<PartView>)
    requires
        key_count(keys, k) > 0,
    ensures
        exists|r: int| 0 <= r < keys.len() && keys[r] == k,
    decreases keys.len(),
{
    if keys.last() != k {
        lemma_key_count_witness(keys.drop_last(), k);
        let r = choose|r: int| 0 <= r < keys.drop_last().len() && keys.drop_last()[r] == k;
        assert(keys[r] == k);
    }
}

/// How a summary orders its groups.
#[derive(Clone, Copy, PartialEq, Eq, Structural, Debug)]
pub enum SummaryOrder {
    /// Largest count first, ties by key.
    CountDescending,
    /// By key.
    KeyAscending,
}

/// Group `a` comes before group `b`.
pub open spec fn group_before(order: SummaryOrder, a: KeyCount, b: KeyCount) -> bool {
    match order {
        SummaryOrder::CountDescending => a.count > b.count || (a.count == b.count && key_lt(
            key_view(a.key@),
            key_view(b.key@),
        )),
        SummaryOrder::KeyAscending => key_lt(key_view(a.key@), key_view(b.key@)),
    }
}

/// Groups in order.
pub open spec fn ordered_groups(order: SummaryOrder, g: Seq<KeyCount>) -> bool {
    forall|i: int, j: int| 0 <= i < j < g.len() ==> group_before(order, g[i], g[j])
}

proof fn lemma_before_total(order: SummaryOrder, a: KeyCount, b: KeyCount)
    requires
        key_view(a.key@) != key_view(b.key@),
    ensures
        group_before(order, a, b) || group_before(order, b, a),
{
    lemma_key_lt_total(key_view(a.key@), key_view(b.key@));
}

proof fn lemma_before_transitive(order: SummaryOrder, a: KeyCount, b: KeyCount, c: KeyCount)
    requires
        group_before(order, a, b),
        group_before(order, b, c),
    ensures
        group_before(order, a, c),
{
    if key_lt(key_view(a.key@), key_view(b.key@)) && key_lt(key_view(b.key@), key_view(c.key@)) {
        lemma_key_lt_transitive(key_view(a.key@), key_view(b.key@), key_view(c.key@));
    }
}

fn before_exec(order: SummaryOrder, a: &KeyCount, b: &KeyCount) -> (r: bool)
    ensures
        r == group_before(order, *a, *b),
{
    match order {
        SummaryOrder::CountDescending => a.count > b.count || (a.count == b.count && key_less(
            &a.key,
            &b.key,
        )),
        SummaryOrder::KeyAscending => key_less(&a.key, &b.key),
    }
}

/// Index of the group that comes first.
fn first_group(order: SummaryOrder, rest: &Vec<KeyCount>) -> (m: usize)
    requires
        rest@.len() > 0,
        distinct_groups(rest@),
    ensures
        m < rest@.len(),
        forall|j: int| 0 <= j < rest@.len() && j != m ==> group_before(order, rest@[m as int], #[trigger] rest@[j]),
{
    let n = rest.len();
    let mut best: usize = 0;
    let mut j: usize = 1;
    while j < n
        invariant
            n == rest@.len(),
            distinct_groups(rest@),
            best < j <= n,
            forall|i: int| 0 <= i < j && i != best ==> group_before(order, rest@[best as int], #[trigger] rest@[i]),
        decreases n - j,
    {
        if before_exec(order, &rest[j], &rest[best]) {
            proof {
                assert forall|i: int| 0 <= i < j + 1 && i != j implies group_before(order, rest@[j as int], #[trigger] rest@[i]) by {
                    if i != best {
                        lemma_before_transitive(order, rest@[j as int], rest@[best as int], rest@[i]);
                    }
                }
            }
            best = j;
        } else {
            proof {
                lemma_before_total(order, rest@[j as int], rest@[best as int]);
            }
        }
        j = j + 1;
    }
    best
}

/// Put groups with distinct keys in order.
fn order_groups(order: SummaryOrder, groups: Vec<KeyCount>, keys: Ghost<Seq<Seq<PartView>>>) -> (out: Vec<KeyCount>)
    requires
        distinct_groups(groups@),
        positive_counts(groups@),
        counts_match(groups@, keys@),
        covers(groups@, keys@),
    ensures
        distinct_groups(out@),
        positive_counts(out@),
        counts_match(out@, keys@),
        covers(out@, keys@),
        ordered_groups(order, out@),
{
    let mut rest = groups;
    let mut out: Vec<KeyCount> = Vec::new();
    while rest.len() > 0
        invariant
            distinct_groups(out@),
            distinct_groups(rest@),
            forall|a: int, b: int| 0 <= a < out@.len() && 0 <= b < rest@.len() ==> key_view(#[trigger] out@[a].key@) != key_view(#[trigger] rest@[b].key@),
            counts_match(out@, keys@),
            counts_match(rest@, keys@),
            positive_counts(out@),
            positive_counts(rest@),
            forall|r: int| 0 <= r < keys@.len() ==> has_group(out@, #[trigger] keys@[r]) || has_group(rest@, keys@[r]),
            ordered_groups(order, out@),
            forall|a: int, b: int| 0 <= a < out@.len() && 0 <= b < rest@.len() ==> group_before(order, #[trigger] out@[a], #[trigger] rest@[b]),
        decreases rest@.len(),
    {
        let m = first_group(order, &rest);
        let ghost old_out = out@;
        let ghost old_rest = rest@;
        let x = rest.remove(m);
        out.push(x);
        proof {
            assert(old_rest[m as int] == x);
            assert forall|j: int| 0 <= j < rest@.len() implies #[trigger] rest@[j] == old_rest[if j < m { j } else { j + 1 }] by {}
            assert forall|i: int, j: int| 0 <= i < out@.len() && 0 <= j < out@.len() && i != j implies key_view(out@[i].key@) != key_view(out@[j].key@) by {
                if i < old_out.len() && j < old_out.len() {
                    assert(out@[i] == old_out[i]);
                    assert(out@[j] == old_out[j]);
                } else if i < old_out.len() {
                    assert(out@[i] == old_out[i]);
                } else if j < old_out.len() {
                    assert(out@[j] == old_out[j]);
                }
            }
            assert forall|i: int, j: int| 0 <= i < rest@.len() && 0 <= j < rest@.len() && i != j implies key_view(rest@[i].key@) != key_view(rest@[j].key@) by {
                let ii = if i < m { i } else { i + 1 };
                let jj = if j < m { j } else { j + 1 };
                assert(rest@[i] == old_rest[ii]);
                assert(rest@[j] == old_rest[jj]);
            }
            assert forall|a: int, b: int| 0 <= a < out@.len() && 0 <= b < rest@.len() implies key_view(#[trigger] out@[a].key@) != key_view(#[trigger] rest@[b].key@) by {
                let bb = if b < m { b } else { b + 1 };
                assert(rest@[b] == old_rest[bb]);
                if a < old_out.len() {
                    assert(out@[a] == old_out[a]);
                }
            }
            assert forall|a: int| 0 <= a < out@.len() implies #[trigger] out@[a].count == key_count(keys@, key_view(out@[a].key@)) by {
                if a < old_out.len() {
                    assert(out@[a] == old_out[a]);
                }
            }
            assert forall|a: int| 0 <= a < out@.len() implies #[trigger] out@[a].count >= 1 by {
                if a < old_out.len() {
                    assert(out@[a] == old_out[a]);
                }
            }
            assert forall|b: int| 0 <= b < rest@.len() implies #[trigger] rest@[b].count >= 1 by {
                let bb = if b < m { b } else { b + 1 };
                assert(rest@[b] == old_rest[bb]);
            }
            assert forall|b: int| 0 <= b < rest@.len() implies #[trigger] rest@[b].count == key_count(keys@, key_view(rest@[b].key@)) by {
                let bb = if b < m { b } else { b + 1 };
                assert(rest@[b] == old_rest[bb]);
            }
            assert forall|r: int| 0 <= r < keys@.len() implies has_group(out@, #[trigger] keys@[r]) || has_group(rest@, keys@[r]) by {
                if has_group(old_out, keys@[r]) {
                    let a = choose|a: int| 0 <= a < old_out.len() && key_view(#[trigger] old_out[a].key@) == keys@[r];
                    assert(out@[a] == old_out[a]);
                } else {
                    assert(has_group(old_rest, keys@[r]));
                    let b = choose|b: int| 0 <= b < old_rest.len() && key_view(#[trigger] old_rest[b].key@) == keys@[r];
                    if b == m {
                        assert(key_view(out@[old_out.len() as int].key@) == keys@[r]);
                    } else if b < m {
                        assert(key_view(rest@[b].key@) == keys@[r]);
                    } else {
                        assert(key_view(rest@[b - 1].key@) == keys@[r]);
                    }
                }
            }
            assert forall|i: int, j: int| 0 <= i < j < out@.len() implies group_before(order, out@[i], out@[j]) by {
                assert(out@[i] == old_out[i]);
                if j < old_out.len() {
                    assert(out@[j] == old_out[j]);
                }
            }
            assert forall|a: int, b: int| 0 <= a < out@.len() && 0 <= b < rest@.len() implies group_before(order, #[trigger] out@[a], #[trigger] rest@[b]) by {
                let bb = if b < m { b } else { b + 1 };
                assert(rest@[b] == old_rest[bb]);
                if a < old_out.len() {
                    assert(out@[a] == old_out[a]);
                }
            }
        }
    }
    out
}

/// Count the rows per key and order the counts: one group per distinct
/// key, each with the number of rows that have it.
pub fn summarize(keys: Vec<Vec<KeyPart>>, order: SummaryOrder) -> (groups: Vec<KeyCount>)
    ensures
        distinct_groups(groups@),
        positive_counts(groups@),
        counts_match(groups@, keys_view(keys@)),
        covers(groups@, keys_view(keys@)),
        ordered_groups(order, groups@),
{
    let ghost kv = keys_view(keys@);
    let groups = count_keys(keys);
    order_groups(order, groups, Ghost(kv))
}

/// The tick bounds of a listing: an exact `tick` stands for both bounds.
pub fn tick_window(tick: Option<i32>, min_tick: Option<i32>, max_tick: Option<i32>) -> (r: (
    Option<i32>,
    Option<i32>,
))
    ensures
        r.0 == (if tick is Some { tick } else { min_tick }),
        r.1 == (if tick is Some { tick } else { max_tick }),
{
    let lo = match tick {
        Some(t) => Some(t),
        None => min_tick,
    };
    let hi = match tick {
        Some(t) => Some(t),
        None => max_tick,
    };
    (lo, hi)
}

/// What a listing filter matches a row against: its tick and its labels.
pub struct RowKey {
    pub tick: i32,
    pub labels: Vec<String>,
}

/// Some label of a row holds the filter text; with `fold_case` both are
/// lowercased first.
pub open spec fn label_matches(labels: Seq<String>, filter: Seq<char>, fold_case: bool) -> bool {
    exists|l: int|
        0 <= l < labels.len() && if fold_case {
            occurs_in(lowercase(#[trigger] labels[l]@), lowercase(filter))
        } else {
            occurs_in(labels[l]@, filter)
        }
}

/// A row is kept: its labels match the filter (if any) and its tick lies
/// within the bounds (where given).
pub open spec fn row_kept(
    row: RowKey,
    filter: Option<Seq<char>>,
    fold_case: bool,
    min_tick: Option<i32>,
    max_tick: Option<i32>,
) -> bool {
    &&& match filter {
        Some(f) => label_matches(row.labels@, f, fold_case),
        None => true,
    }
    &&& match min_tick {
        Some(m) => row.tick >= m,
        None => true,
    }
    &&& match max_tick {
        Some(m) => row.tick <= m,
        None => true,
    }
}

/// Indices of the kept rows among the first `k`, in order.
pub open spec fn kept_rows(
    rows: Seq<RowKey>,
    filter: Option<Seq<char>>,
    fold_case: bool,
    min_tick: Option<i32>,
    max_tick: Option<i32>,
    k: int,
) -> Seq<usize>
    decreases k,
{
    if k <= 0 {
        seq![]
    } else {
        let rest = kept_rows(rows, filter, fold_case, min_tick, max_tick, k - 1);
        if row_kept(rows[k - 1], filter, fold_case, min_tick, max_tick) {
            rest.push((k - 1) as usize)
        } else {
            rest
        }
    }
}

/// Label `l` of a row holds the filter text (both lowercased first when
/// folding case).
pub open spec fn label_holds(labels: Seq<String>, l: int, filter: Seq<char>, fold_case: bool) -> bool {
    if fold_case {
        occurs_in(lowercase(labels[l]@), lowercase(filter))
    } else {
        occurs_in(labels[l]@, filter)
    }
}

/// The selection of a listing lists row indices in increasing order, each
/// of a row of the listing.
pub proof fn lemma_selected_rows_ordered(
    rows: Seq<RowKey>,
    filter: Option<Seq<char>>,
    fold_case: bool,
    min_tick: Option<i32>,
    max_tick: Option<i32>,
)
    requires
        rows.len() <= usize::MAX,
    ensures
        ({
            let kept = kept_rows(rows, filter, fold_case, min_tick, max_tick, rows.len() as int);
            &&& forall|a: int, b: int| 0 <= a < b < kept.len() ==> kept[a] < kept[b]
            &&& forall|a: int| 0 <= a < kept.len() ==> kept[a] < rows.len()
        }),
{
    lemma_kept_rows_prefix(rows, filter, fold_case, min_tick, max_tick, rows.len() as int);
}

/// Row `i` of a listing is selected exactly when its tick lies within the
/// given bounds and, under a filter, some label of it (any of them, not
/// only one in particular) holds the filter text.
pub proof fn lemma_row_selected(
    rows: Seq<RowKey>,
    filter: Option<Seq<char>>,
    fold_case: bool,
    min_tick: Option<i32>,
    max_tick: Option<i32>,
    i: int,
)
    requires
        rows.len() <= usize::MAX,
        0 <= i < rows.len(),
    ensures
        kept_rows(rows, filter, fold_case, min_tick, max_tick, rows.len() as int).contains(i as usize)
            <==> ((match filter {
            Some(f) => exists|l: int|
                0 <= l < rows[i].labels@.len() && #[trigger] label_holds(rows[i].labels@, l, f, fold_case),
            None => true,
        }) && (match min_tick {
            Some(m) => rows[i].tick >= m,
            None => true,
        }) && (match max_tick {
            Some(m) => rows[i].tick <= m,
            None => true,
        })),
{
    lemma_kept_rows_prefix(rows, filter, fold_case, min_tick, max_tick, rows.len() as int);
    lemma_row_kept_by_label(rows[i], filter, fold_case, min_tick, max_tick);
}

proof fn lemma_row_kept_by_label(
    row: RowKey,
    filter: Option<Seq<char>>,
    fold_case: bool,
    min_tick: Option<i32>,
    max_tick: Option<i32>,
)
    ensures
        row_kept(row, filter, fold_case, min_tick, max_tick) <==> ((match filter {
            Some(f) => exists|l: int|
                0 <= l < row.labels@.len() && #[trigger] label_holds(row.labels@, l, f, fold_case),
            None => true,
        }) && (match min_tick {
            Some(m) => row.tick >= m,
            None => true,
        }) && (match max_tick {
            Some(m) => row.tick <= m,
            None => true,
        })),
{
    match filter {
        Some(f) => {
            if label_matches(row.labels@, f, fold_case) {
                let l = choose|l: int|
                    0 <= l < row.labels@.len() && if fold_case {
                        occurs_in(lowercase(#[trigger] row.labels@[l]@), lowercase(f))
                    } else {
                        occurs_in(row.labels@[l]@, f)
                    };
                assert(label_holds(row.labels@, l, f, fold_case));
            }
            if exists|l: int| 0 <= l < row.labels@.len() && #[trigger] label_holds(row.labels@, l, f, fold_case) {
                let l = choose|l: int|
                    0 <= l < row.labels@.len() && #[trigger] label_holds(row.labels@, l, f, fold_case);
                assert(occurs_in(lowercase(row.labels@[l]@), lowercase(f)) || !fold_case);
            }
        },
        None => {},
    }
}

proof fn lemma_kept_rows_prefix(
    rows: Seq<RowKey>,
    filter: Option<Seq<char>>,
    fold_case: bool,
    min_tick: Option<i32>,
    max_tick: Option<i32>,
    k: int,
)
    requires
        0 <= k <= rows.len(),
        k <= usize::MAX,
    ensures
        ({
            let kept = kept_rows(rows, filter, fold_case, min_tick, max_tick, k);
            &&& forall|a: int, b: int| 0 <= a < b < kept.len() ==> kept[a] < kept[b]
            &&& forall|a: int| 0 <= a < kept.len() ==> kept[a] < k
            &&& forall|i: int|
                #![trigger rows[i]]
                0 <= i < k ==> (kept.contains(i as usize) <==> row_kept(
                    rows[i],
                    filter,
                    fold_case,
                    min_tick,
                    max_tick,
                ))
        }),
    decreases k,
{
    if k > 0 {
        lemma_kept_rows_prefix(rows, filter, fold_case, min_tick, max_tick, k - 1);
        let rest = kept_rows(rows, filter, fold_case, min_tick, max_tick, k - 1);
        let kept = kept_rows(rows, filter, fold_case, min_tick, max_tick, k);
        assert forall|i: int| 0 <= i < k implies (kept.contains(i as usize) <==> row_kept(
            rows[i],
            filter,
            fold_case,
            min_tick,
            max_tick,
        )) by {
            if kept.contains(i as usize) {
                let a = choose|a: int| 0 <= a < kept.len() && kept[a] == i as usize;
                if a < rest.len() {
                    assert(rest.contains(i as usize));
                }
            }
            if i < k - 1 && rest.contains(i as usize) {
                let a = choose|a: int| 0 <= a < rest.len() && rest[a] == i as usize;
                assert(kept[a] == i as usize);
            }
            if i == k - 1 && row_kept(rows[i], filter, fold_case, min_tick, max_tick) {
                assert(kept[rest.len() as int] == i as usize);
            }
            if i == k - 1 && rest.contains(i as usize) {
                let a = choose|a: int| 0 <= a < rest.len() && rest[a] == i as usize;
                assert(rest[a] < k - 1);
            }
        }
    }
}

fn labels_match(labels: &Vec<String>, filter: &str, folded_filter: &str, fold_case: bool) -> (r: bool)
    requires
        folded_filter@ == lowercase(filter@),
    ensures
        r == label_matches(labels@, filter@, fold_case),
{
    let n = labels.len();
    let mut l: usize = 0;
    while l < n
        invariant
            n == labels@.len(),
            l <= n,
            folded_filter@ == lowercase(filter@),
            forall|j: int| 0 <= j < l ==> !(if fold_case {
                occurs_in(lowercase(#[trigger] labels@[j]@), lowercase(filter@))
            } else {
                occurs_in(labels@[j]@, filter@)
            }),
        decreases n - l,
    {
        let hit = if fold_case {
            let folded = to_lowercase_text(labels[l].as_str());
            contains_text(folded.as_str(), folded_filter)
        } else {
            contains_text(labels[l].as_str(), filter)
        };
        if hit {
            return true;
        }
        l = l + 1;
    }
    false
}

/// Select the rows of a listing: those whose labels hold the filter text
/// (case-insensitively with `fold_case`) and whose tick lies within the
/// bounds. Returns the indices of the kept rows, in order.
pub fn select_rows(
    rows: &Vec<RowKey>,
    filter: Option<&str>,
    fold_case: bool,
    min_tick: Option<i32>,
    max_tick: Option<i32>,
) -> (kept: Vec<usize>)
    ensures
        kept@ == kept_rows(
            rows@,
            match filter {
                Some(f) => Some(f@),
                None => None,
            },
            fold_case,
            min_tick,
            max_tick,
            rows@.len() as int,
        ),
{
    let ghost fv = match filter {
        Some(f) => Some(f@),
        None => None::<Seq<char>>,
    };
    let folded: String = match filter {
        Some(f) => to_lowercase_text(f),
        None => String::new(),
    };
    let mut kept: Vec<usize> = Vec::new();
    let n = rows.len();
    let mut i: usize = 0;
    while i < n
        invariant
            n == rows@.len(),
            i <= n,
            fv == match filter {
                Some(f) => Some(f@),
                None => None,
            },
            filter matches Some(f) ==> folded@ == lowercase(f@),
            kept@ == kept_rows(rows@, fv, fold_case, min_tick, max_tick, i as int),
        decreases n - i,
    {
        let row = &rows[i];
        let text_ok = match filter {
            Some(f) => labels_match(&row.labels, f, folded.as_str(), fold_case),
            None => true,
        };
        let lo_ok = match min_tick {
            Some(m) => row.tick >= m,
            None => true,
        };
        let hi_ok = match max_tick {
            Some(m) => row.tick <= m,
            None => true,
        };
        if text_ok && lo_ok && hi_ok {
            kept.push(i);
        }
        i = i + 1;
    }
    kept
}

/// How many rows a listing shows under an optional limit (all by default),
/// and whether that leaves some out.
pub fn display_limit(limit: Option<usize>, total: usize) -> (r: (usize, bool))
    ensures
        r.0 == match limit {
            Some(l) => if l < total { l } else { total },
            None => total,
        },
        r.1 == match limit {
            Some(l) => l < total,
            None => false,
        },
{
    match limit {
        Some(l) => if l < total {
            (l, true)
        } else {
            (total, false)
        },
        None => (total, false),
    }
}

/// A value lies within the optional bounds.
pub fn within_bounds(v: u32, min: Option<u32>, max: Option<u32>) -> (r: bool)
    ensures
        r == ((match min {
            Some(m) => v >= m,
            None => true,
        }) && (match max {
            Some(m) => v <= m,
            None => true,
        })),
{
    let lo = match min {
        Some(m) => v >= m,
        None => true,
    };
    let hi = match max {
        Some(m) => v <= m,
        None => true,
    };
    lo && hi
}

/// Row `a` comes before row `b` when ordered by tick, rows of one tick
/// keeping their order.
pub open spec fn tick_order_before(ticks: Seq<i32>, a: usize, b: usize) -> bool {
    ticks[a as int] < ticks[b as int] || (ticks[a as int] == ticks[b as int] && a < b)
}

pub open spec fn ordered_by_tick(ticks: Seq<i32>, order: Seq<usize>) -> bool {
    forall|i: int, j: int|
        0 <= i < j < order.len() ==> tick_order_before(ticks, #[trigger] order[i], #[trigger] order[j])
}

fn insert_by_tick(order: &mut Vec<usize>, ticks: &Vec<i32>, x: usize)
    requires
        x < ticks@.len(),
        forall|j: int| 0 <= j < old(order)@.len() ==> #[trigger] old(order)@[j] < x,
        ordered_by_tick(ticks@, old(order)@),
    ensures
        ordered_by_tick(ticks@, final(order)@),
        final(order)@.to_set() == old(order)@.to_set().insert(x),
        final(order)@.len() == old(order)@.len() + 1,
        forall|j: int| 0 <= j < final(order)@.len() ==> #[trigger] final(order)@[j] <= x,
{
    let n = order.len();
    let mut i: usize = 0;
    while i < n && ticks[order[i]] <= ticks[x]
        invariant
            n == order@.len(),
            i <= n,
            x < ticks@.len(),
            forall|j: int| 0 <= j < n ==> #[trigger] order@[j] < x,
            forall|j: int| 0 <= j < i ==> tick_order_before(ticks@, #[trigger] order@[j], x),
        decreases n - i,
    {
        i = i + 1;
    }
    let ghost before = order@;
    proof {
        assert forall|j: int| i <= j < n implies tick_order_before(ticks@, x, #[trigger] before[j]) by {
            assert(ticks@[before[i as int] as int] > ticks@[x as int]);
            if j > i {
                assert(tick_order_before(ticks@, before[i as int], before[j]));
            }
        }
    }
    order.insert(i, x);
    proof {
        let after = order@;
        assert forall|j: int| 0 <= j < after.len() implies #[trigger] after[j] == if j < i {
            before[j]
        } else if j == i {
            x
        } else {
            before[j - 1]
        } by {}
        assert(ordered_by_tick(ticks@, after)) by {
            assert forall|a: int, b: int| 0 <= a < b < after.len() implies tick_order_before(
                ticks@,
                #[trigger] after[a],
                #[trigger] after[b],
            ) by {
                if a < i && b < i {
                    assert(tick_order_before(ticks@, before[a], before[b]));
                } else if a < i && b > i {
                    assert(tick_order_before(ticks@, before[a], before[b - 1]));
                } else if a > i {
                    assert(tick_order_before(ticks@, before[a - 1], before[b - 1]));
                }
            }
        }
        assert(after.to_set() =~= before.to_set().insert(x)) by {
            assert forall|y: usize| after.to_set().contains(y) implies before.to_set().insert(x).contains(y) by {
                let k = choose|k: int| 0 <= k < after.len() && after[k] == y;
                if k < i {
                    assert(before[k] == y);
                } else if k > i {
                    assert(before[k - 1] == y);
                }
            }
            assert forall|y: usize| before.to_set().insert(x).contains(y) implies after.to_set().contains(y) by {
                if y == x {
                    assert(after[i as int] == x);
                } else {
                    let k = choose|k: int| 0 <= k < before.len() && before[k] == y;
                    if k < i {
                        assert(after[k] == y);
                    } else {
                        assert(after[k + 1] == y);
                    }
                }
            }
        }
    }
}

/// The row indices ordered by tick, rows of one tick keeping their order
/// (a stable sort by tick): every index once.
pub fn order_by_tick(ticks: &Vec<i32>) -> (order: Vec<usize>)
    ensures
        ordered_by_tick(ticks@, order@),
        order@.to_set() == Set::new(|i: usize| i < ticks@.len()),
        order@.len() == ticks@.len(),
{
    let mut order: Vec<usize> = Vec::new();
    let n = ticks.len();
    let mut k: usize = 0;
    while k < n
        invariant
            n == ticks@.len(),
            k <= n,
            ordered_by_tick(ticks@, order@),
            order@.to_set() == Set::new(|i: usize| i < k),
            order@.len() == k,
            forall|j: int| 0 <= j < order@.len() ==> #[trigger] order@[j] < k,
        decreases n - k,
    {
        insert_by_tick(&mut order, ticks, k);
        proof {
            assert(Set::new(|i: usize| i < k).insert(k) =~= Set::new(|i: usize| i < k + 1));
        }
        k = k + 1;
    }
    order
}

} // verus!
