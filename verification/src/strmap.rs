//! A small map from string keys to values, each key at most once, kept in
//! ascending key order. It stands for the `BTreeMap<String, _>` fields of
//! articles and Markdown documents.
use vstd::prelude::*;
use crate::strs::str_eq;

verus! {

/// Index of the last entry with key `k`, or `-1`.
pub open spec fn key_index<W>(e: Seq<(Seq<char>, W)>, k: Seq<char>) -> int
    decreases e.len(),
{
    if e.len() == 0 {
        -1
    } else if e.last().0 == k {
        e.len() - 1
    } else {
        key_index(e.drop_last(), k)
    }
}

/// The value stored under `k`.
pub open spec fn map_get<W>(e: Seq<(Seq<char>, W)>, k: Seq<char>) -> Option<W> {
    let i = key_index(e, k);
    if 0 <= i < e.len() {
        Some(e[i].1)
    } else {
        None
    }
}

/// The order of `String` keys (`Ord for String`): lexicographic by code
/// point, which is the byte order of their UTF-8 encodings; a proper prefix
/// comes first.
pub open spec fn key_lt(a: Seq<char>, b: Seq<char>) -> bool
    decreases a.len(),
{
    if b.len() == 0 {
        false
    } else if a.len() == 0 {
        true
    } else if a[0] != b[0] {
        a[0] < b[0]
    } else {
        key_lt(a.drop_first(), b.drop_first())
    }
}

/// Index of the first entry at or after `j` whose key is not below `k`, or
/// `e.len()`: where `k` goes in ascending order.
pub open spec fn insert_pos_from<W>(e: Seq<(Seq<char>, W)>, k: Seq<char>, j: int) -> int
    decreases e.len() - j,
{
    if j < 0 || j >= e.len() {
        e.len() as int
    } else if key_lt(e[j].0, k) {
        insert_pos_from(e, k, j + 1)
    } else {
        j
    }
}

/// `e` with `k` mapped to `v`: the entry replaced in place when `k` is
/// present, else inserted where ascending key order puts it.
pub open spec fn map_insert<W>(e: Seq<(Seq<char>, W)>, k: Seq<char>, v: W) -> Seq<(Seq<char>, W)> {
    let i = key_index(e, k);
    if 0 <= i < e.len() {
        e.update(i, (k, v))
    } else {
        e.insert(insert_pos_from(e, k, 0), (k, v))
    }
}

/// Keys strictly ascend.
pub open spec fn keys_sorted<W>(e: Seq<(Seq<char>, W)>) -> bool {
    forall|i: int, j: int| 0 <= i < j < e.len() ==> key_lt((#[trigger] e[i]).0, (#[trigger] e[j]).0)
}

pub proof fn lemma_key_lt_irreflexive(a: Seq<char>)
    ensures
        !key_lt(a, a),
    decreases a.len(),
{
    if a.len() > 0 {
        lemma_key_lt_irreflexive(a.drop_first());
    }
}

pub proof fn lemma_key_lt_transitive(a: Seq<char>, b: Seq<char>, c: Seq<char>)
    requires
        key_lt(a, b),
        key_lt(b, c),
    ensures
        key_lt(a, c),
    decreases a.len(),
{
    if a.len() > 0 && b.len() > 0 && c.len() > 0 && a[0] == b[0] && b[0] == c[0] {
        lemma_key_lt_transitive(a.drop_first(), b.drop_first(), c.drop_first());
    }
}

pub proof fn lemma_key_lt_total(a: Seq<char>, b: Seq<char>)
    requires
        a != b,
    ensures
        key_lt(a, b) || key_lt(b, a),
    decreases a.len(),
{
    if a.len() > 0 && b.len() > 0 && a[0] == b[0] {
        if a.drop_first() == b.drop_first() {
            assert(a =~= seq![a[0]] + a.drop_first());
            assert(b =~= seq![b[0]] + b.drop_first());
        }
        lemma_key_lt_total(a.drop_first(), b.drop_first());
    } else if a.len() == 0 && b.len() == 0 {
        assert(a =~= b);
    } else if a.len() > 0 && b.len() > 0 {
        assert(a[0] != b[0]);
    }
}

pub proof fn lemma_insert_pos<W>(e: Seq<(Seq<char>, W)>, k: Seq<char>, j: int)
    requires
        0 <= j <= e.len(),
    ensures
        j <= insert_pos_from(e, k, j) <= e.len(),
        forall|i: int| j <= i < insert_pos_from(e, k, j) ==> key_lt((#[trigger] e[i]).0, k),
        insert_pos_from(e, k, j) < e.len() ==> !key_lt(e[insert_pos_from(e, k, j)].0, k),
    decreases e.len() - j,
{
    if j < e.len() && key_lt(e[j].0, k) {
        lemma_insert_pos(e, k, j + 1);
    }
}

/// Sorted keys are distinct.
pub proof fn lemma_sorted_distinct<W>(e: Seq<(Seq<char>, W)>)
    requires
        keys_sorted(e),
    ensures
        keys_distinct(e),
{
    assert forall|i: int, j: int| 0 <= i < j < e.len() implies (#[trigger] e[i]).0 != (
    #[trigger] e[j]).0 by {
        if e[i].0 == e[j].0 {
            lemma_key_lt_irreflexive(e[i].0);
        }
    }
}

/// No key occurs twice.
pub open spec fn keys_distinct<W>(e: Seq<(Seq<char>, W)>) -> bool {
    forall|i: int, j: int| 0 <= i < j < e.len() ==> (#[trigger] e[i]).0 != (#[trigger] e[j]).0
}

pub proof fn lemma_key_index<W>(e: Seq<(Seq<char>, W)>, k: Seq<char>)
    ensures
        -1 <= key_index(e, k) < e.len(),
        0 <= key_index(e, k) ==> e[key_index(e, k)].0 == k,
        forall|j: int| key_index(e, k) < j < e.len() ==> (#[trigger] e[j]).0 != k,
        key_index(e, k) == -1 ==> forall|j: int| 0 <= j < e.len() ==> (#[trigger] e[j]).0 != k,
    decreases e.len(),
{
    if e.len() > 0 && e.last().0 != k {
        lemma_key_index(e.drop_last(), k);
        assert forall|j: int| key_index(e, k) < j < e.len() implies (#[trigger] e[j]).0 != k by {
            if j < e.len() - 1 {
                assert(e[j] == e.drop_last()[j]);
            }
        }
    }
}

pub proof fn lemma_key_index_is<W>(e: Seq<(Seq<char>, W)>, k: Seq<char>, i: int)
    requires
        -1 <= i < e.len(),
        0 <= i ==> e[i].0 == k,
        forall|j: int| i < j < e.len() ==> (#[trigger] e[j]).0 != k,
    ensures
        key_index(e, k) == i,
    decreases e.len(),
{
    if e.len() > 0 && i < e.len() - 1 {
        let d = e.drop_last();
        assert forall|j: int| i < j < d.len() implies (#[trigger] d[j]).0 != k by {
            assert(d[j] == e[j]);
        }
        lemma_key_index_is(d, k, i);
    }
}

/// After `insert(k, v)`, looking up `k` gives `v`.
pub proof fn law_get_after_insert<W>(e: Seq<(Seq<char>, W)>, k: Seq<char>, v: W)
    ensures
        map_get(map_insert(e, k, v), k) == Some(v),
{
    lemma_key_index(e, k);
    let m = map_insert(e, k, v);
    let i = key_index(e, k);
    if 0 <= i {
        assert forall|j: int| i < j < m.len() implies (#[trigger] m[j]).0 != k by {
            assert(m[j] == e[j]);
        }
        lemma_key_index_is(m, k, i);
    } else {
        let p = insert_pos_from(e, k, 0);
        lemma_insert_pos(e, k, 0);
        assert(m[p] == (k, v));
        assert forall|j: int| p < j < m.len() implies (#[trigger] m[j]).0 != k by {
            assert(m[j] == e[j - 1]);
        }
        lemma_key_index_is(m, k, p);
    }
}

/// After `insert(k, v)`, every other key keeps its value.
pub proof fn law_insert_keeps_other_keys<W>(e: Seq<(Seq<char>, W)>, k: Seq<char>, v: W, k2: Seq<char>)
    requires
        k2 != k,
    ensures
        map_get(map_insert(e, k, v), k2) == map_get(e, k2),
{
    lemma_key_index(e, k);
    lemma_key_index(e, k2);
    let m = map_insert(e, k, v);
    let i = key_index(e, k);
    let i2 = key_index(e, k2);
    if 0 <= i {
        assert forall|j: int| i2 < j < m.len() implies (#[trigger] m[j]).0 != k2 by {
            if j != i {
                assert(m[j] == e[j]);
            }
        }
        if 0 <= i2 {
            assert(m[i2] == e[i2]);
        }
        lemma_key_index_is(m, k2, i2);
    } else {
        let p = insert_pos_from(e, k, 0);
        lemma_insert_pos(e, k, 0);
        let i3 = if i2 < 0 {
            -1
        } else if i2 < p {
            i2
        } else {
            i2 + 1
        };
        assert forall|j: int| i3 < j < m.len() implies (#[trigger] m[j]).0 != k2 by {
            if j < p {
                assert(m[j] == e[j]);
            } else if j > p {
                assert(m[j] == e[j - 1]);
            }
        }
        if 0 <= i2 {
            if i2 < p {
                assert(m[i3] == e[i2]);
            } else {
                assert(m[i3] == e[i2]);
            }
        }
        lemma_key_index_is(m, k2, i3);
    }
}

/// Insertion keeps keys in strictly ascending order.
pub proof fn law_insert_keeps_keys_sorted<W>(e: Seq<(Seq<char>, W)>, k: Seq<char>, v: W)
    requires
        keys_sorted(e),
    ensures
        keys_sorted(map_insert(e, k, v)),
{
    lemma_key_index(e, k);
    let m = map_insert(e, k, v);
    let i = key_index(e, k);
    if 0 <= i {
        assert forall|a: int, b: int| 0 <= a < b < m.len() implies key_lt(
            (#[trigger] m[a]).0,
            (#[trigger] m[b]).0,
        ) by {
            assert(m[a].0 == e[a].0);
            assert(m[b].0 == e[b].0);
        }
    } else {
        let p = insert_pos_from(e, k, 0);
        lemma_insert_pos(e, k, 0);
        if p < e.len() {
            lemma_key_lt_total(e[p].0, k);
        }
        assert forall|a: int, b: int| 0 <= a < b < m.len() implies key_lt(
            (#[trigger] m[a]).0,
            (#[trigger] m[b]).0,
        ) by {
            if b < p {
                assert(m[a] == e[a]);
                assert(m[b] == e[b]);
            } else if b == p {
                assert(m[a] == e[a]);
                assert(m[b].0 == k);
            } else if a < p {
                assert(m[a] == e[a]);
                assert(m[b] == e[b - 1]);
            } else if a == p {
                assert(m[b] == e[b - 1]);
                if b - 1 > p {
                    lemma_key_lt_transitive(k, e[p].0, e[b - 1].0);
                }
            } else {
                assert(m[a] == e[a - 1]);
                assert(m[b] == e[b - 1]);
            }
        }
    }
}

/// Whether `a` comes before `b` in key order.
pub fn key_less(a: &[char], b: &[char]) -> (r: bool)
    ensures
        r == key_lt(a@, b@),
{
    let n = a.len();
    let m = b.len();
    let mut i: usize = 0;
    assert(a@.subrange(0, n as int) =~= a@);
    assert(b@.subrange(0, m as int) =~= b@);
    while i < n && i < m && a[i] == b[i]
        invariant
            i <= n == a@.len(),
            i <= m == b@.len(),
            key_lt(a@.subrange(i as int, n as int), b@.subrange(i as int, m as int)) == key_lt(a@, b@),
        decreases n - i,
    {
        let ghost x = a@.subrange(i as int, n as int);
        let ghost y = b@.subrange(i as int, m as int);
        assert(x.drop_first() =~= a@.subrange(i + 1, n as int));
        assert(y.drop_first() =~= b@.subrange(i + 1, m as int));
        assert(x[0] == y[0]);
        i = i + 1;
    }
    let ghost x = a@.subrange(i as int, n as int);
    let ghost y = b@.subrange(i as int, m as int);
    if i == m {
        false
    } else if i == n {
        true
    } else {
        assert(x[0] == a@[i as int] && y[0] == b@[i as int]);
        a[i] < b[i]
    }
}

/// A map from string keys to values; no key occurs twice.
#[derive(Debug)]
pub struct StrMap<V: DeepView> {
    entries: Vec<(String, V)>,
}

impl<V: DeepView> View for StrMap<V> {
    type V = Seq<(Seq<char>, V::V)>;

    closed spec fn view(&self) -> Seq<(Seq<char>, V::V)> {
        self.entries.deep_view()
    }
}

impl<V: DeepView> StrMap<V> {
    #[verifier::type_invariant]
    closed spec fn inv(self) -> bool {
        keys_sorted(self.entries.deep_view())
    }

    /// An empty map.
    pub fn new() -> (m: Self)
        ensures
            m@ == Seq::<(Seq<char>, V::V)>::empty(),
    {
        let m = StrMap { entries: Vec::new() };
        assert(m.entries.deep_view() =~= Seq::<(Seq<char>, V::V)>::empty());
        m
    }

    /// Number of entries.
    pub fn len(&self) -> (n: usize)
        ensures
            n == self@.len(),
    {
        self.entries.len()
    }

    /// Whether the map is empty.
    pub fn is_empty(&self) -> (b: bool)
        ensures
            b == (self@.len() == 0),
    {
        self.entries.len() == 0
    }

    /// The entries in ascending key order; no key occurs twice.
    pub fn entries(&self) -> (r: &Vec<(String, V)>)
        ensures
            r.deep_view() == self@,
            keys_sorted(self@),
            keys_distinct(self@),
    {
        proof {
            use_type_invariant(self);
            lemma_sorted_distinct(self@);
        }
        &self.entries
    }

    fn find(&self, key: &str) -> (r: Option<usize>)
        ensures
            match r {
                Some(i) => i as int == key_index(self@, key@) && 0 <= i < self@.len(),
                None => key_index(self@, key@) == -1,
            },
    {
        let n = self.entries.len();
        let mut i = n;
        while i > 0
            invariant
                i <= n == self@.len(),
                self@ == self.entries.deep_view(),
                forall|j: int| i <= j < n ==> (#[trigger] self@[j]).0 != key@,
            decreases i,
        {
            assert(self@[i - 1] == (self.entries@[i - 1].0@, self.entries@[i - 1].1.deep_view()));
            if str_eq(self.entries[i - 1].0.as_str(), key) {
                proof {
                    lemma_key_index_is(self@, key@, i - 1);
                }
                return Some(i - 1);
            }
            i = i - 1;
        }
        proof {
            lemma_key_index_is(self@, key@, -1);
        }
        None
    }

    /// The value stored under `key`.
    pub fn get(&self, key: &str) -> (r: Option<&V>)
        ensures
            match r {
                Some(v) => map_get(self@, key@) == Some(v.deep_view()),
                None => map_get(self@, key@) is None,
            },
    {
        match self.find(key) {
            Some(i) => {
                assert(self@[i as int] == (self.entries@[i as int].0@, self.entries@[i as int].1.deep_view()));
                Some(&self.entries[i].1)
            },
            None => None,
        }
    }

    /// Whether `key` is present.
    pub fn contains_key(&self, key: &str) -> (b: bool)
        ensures
            b == (map_get(self@, key@) is Some),
    {
        self.find(key).is_some()
    }

    /// Maps `key` to `value`, replacing the value already stored under `key`.
    pub fn insert(&mut self, key: String, value: V)
        ensures
            final(self)@ == map_insert(old(self)@, key@, value.deep_view()),
    {
        proof {
            use_type_invariant(&*self);
            law_insert_keeps_keys_sorted(self@, key@, value.deep_view());
        }
        let ghost k = key@;
        let ghost v = value.deep_view();
        match self.find(key.as_str()) {
            Some(i) => {
                let mut entries: Vec<(String, V)> = Vec::new();
                std::mem::swap(&mut entries, &mut self.entries);
                let ghost before = entries.deep_view();
                entries.set(i, (key, value));
                assert(entries.deep_view() =~= before.update(i as int, (k, v)));
                self.entries = entries;
            },
            None => {
                let n = self.entries.len();
                let kc = crate::strs::chars_of(key.as_str());
                let mut p: usize = 0;
                while p < n && key_less(&crate::strs::chars_of(self.entries[p].0.as_str()), &kc)
                    invariant
                        p <= n == self@.len(),
                        self@ == self.entries.deep_view(),
                        kc@ == k,
                        insert_pos_from(self@, k, p as int) == insert_pos_from(self@, k, 0),
                    decreases n - p,
                {
                    assert(self@[p as int].0 == self.entries@[p as int].0@);
                    p = p + 1;
                }
                proof {
                    if p < n {
                        assert(self@[p as int].0 == self.entries@[p as int].0@);
                    }
                }
                let mut entries: Vec<(String, V)> = Vec::new();
                std::mem::swap(&mut entries, &mut self.entries);
                let ghost before = entries.deep_view();
                entries.insert(p, (key, value));
                assert(entries.deep_view() =~= before.insert(p as int, (k, v)));
                self.entries = entries;
            },
        }
    }
}

} // verus!
