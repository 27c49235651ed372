//! Maps keyed by text and sets of addresses, kept in ascending order.
//!
//! Each holds its elements in a vector in strictly ascending order, so nothing
//! occurs twice and the elements always come out in the same order.

use vstd::prelude::*;

use crate::net;
use crate::net::IpAddr;
use crate::text::same;

verus! {

/// Whether `less` is a strict total order.
pub open spec fn strict_order<T>(less: spec_fn(T, T) -> bool) -> bool {
    &&& forall|a: T| !#[trigger] less(a, a)
    &&& forall|a: T, b: T, c: T| #[trigger] less(a, b) && #[trigger] less(b, c) ==> less(a, c)
    &&& forall|a: T, b: T| a != b ==> #[trigger] less(a, b) || less(b, a)
}

/// Whether each element of `s` is less than every later one.
pub open spec fn increasing<T>(s: Seq<T>, less: spec_fn(T, T) -> bool) -> bool {
    forall|i: int, j: int| 0 <= i < j < s.len() ==> less(#[trigger] s[i], #[trigger] s[j])
}

/// The elements of a finite set in ascending order.
pub open spec fn ascending<T>(set: Set<T>, less: spec_fn(T, T) -> bool) -> Seq<T> {
    choose|s: Seq<T>| increasing(s, less) && #[trigger] s.to_set() == set
}

/// There is only one way to put the elements of a set in ascending order.
pub proof fn lemma_increasing_unique<T>(a: Seq<T>, b: Seq<T>, less: spec_fn(T, T) -> bool)
    requires
        strict_order(less),
        increasing(a, less),
        increasing(b, less),
        a.to_set() == b.to_set(),
    ensures
        a == b,
    decreases a.len(),
{
    if a.len() == 0 {
        if b.len() > 0 {
            assert(b.to_set().contains(b[0]));
        }
    } else {
        assert(a.to_set().contains(a[0]));
        let k = choose|k: int| 0 <= k < b.len() && b[k] == a[0];
        assert(b.to_set().contains(b[0]));
        let m = choose|m: int| 0 <= m < a.len() && a[m] == b[0];
        if k > 0 {
            assert(less(b[0], b[k]));
            assert(m > 0 ==> less(a[0], a[m]));
            assert(false);
        }
        let a1 = a.skip(1);
        let b1 = b.skip(1);
        assert forall|x: T| a1.to_set().contains(x) <==> b1.to_set().contains(x) by {
            if a1.contains(x) {
                let i = choose|i: int| 0 <= i < a1.len() && a1[i] == x;
                assert(less(a[0], a[i + 1]));
                assert(a.to_set().contains(a[i + 1]));
                let j = choose|j: int| 0 <= j < b.len() && b[j] == x;
                assert(j > 0);
                assert(b1[j - 1] == x);
            }
            if b1.contains(x) {
                let i = choose|i: int| 0 <= i < b1.len() && b1[i] == x;
                assert(less(b[0], b[i + 1]));
                assert(b.to_set().contains(b[i + 1]));
                let j = choose|j: int| 0 <= j < a.len() && a[j] == x;
                assert(j > 0);
                assert(a1[j - 1] == x);
            }
        }
        assert(a1.to_set() =~= b1.to_set());
        lemma_increasing_unique(a1, b1, less);
        assert(a =~= seq![a[0]] + a1);
        assert(b =~= seq![b[0]] + b1);
    }
}

/// A sequence in ascending order is the ascending order of its elements, and
/// has as many elements as their set.
pub proof fn lemma_ascending<T>(s: Seq<T>, less: spec_fn(T, T) -> bool)
    requires
        strict_order(less),
        increasing(s, less),
    ensures
        ascending(s.to_set(), less) == s,
        s.no_duplicates(),
        s.to_set().len() == s.len(),
{
    let set = s.to_set();
    let c = ascending(set, less);
    assert(increasing(s, less) && s.to_set() == set);
    lemma_increasing_unique(s, c, less);
    assert(s.no_duplicates()) by {
        assert forall|i: int, j: int| 0 <= i < s.len() && 0 <= j < s.len() && i != j implies s[i]
            != s[j] by {
            if i < j {
                assert(less(s[i], s[j]));
            } else {
                assert(less(s[j], s[i]));
            }
        }
    }
    s.unique_seq_to_set();
}

/// An element has its place in a sequence in ascending order.
proof fn lemma_place<T>(t: Seq<T>, a: T, less: spec_fn(T, T) -> bool) -> (s: Seq<T>)
    requires
        strict_order(less),
        increasing(t, less),
        !t.contains(a),
    ensures
        increasing(s, less),
        s.to_set() == t.to_set().insert(a),
    decreases t.len(),
{
    if t.len() == 0 {
        let s = seq![a];
        assert(s[0] == a);
        assert(s.to_set() =~= t.to_set().insert(a));
        s
    } else {
        let last = t.last();
        assert(t[t.len() - 1] == last);
        assert(last != a);
        let front = t.drop_last();
        assert forall|x: T| front.contains(x) implies t.contains(x) && less(x, last) by {
            let i = choose|i: int| 0 <= i < front.len() && front[i] == x;
            assert(t[i] == x);
            assert(less(t[i], t[t.len() - 1]));
        }
        if less(last, a) {
            let s = t.push(a);
            assert forall|i: int, j: int| 0 <= i < j < s.len() implies less(
                #[trigger] s[i],
                #[trigger] s[j],
            ) by {
                if j == t.len() && i < t.len() - 1 {
                    assert(less(t[i], t[t.len() - 1]));
                }
            }
            lemma_pushed(t, a);
            s
        } else {
            let s1 = lemma_place(front, a, less);
            let s = s1.push(last);
            assert forall|i: int, j: int| 0 <= i < j < s.len() implies less(
                #[trigger] s[i],
                #[trigger] s[j],
            ) by {
                if j == s1.len() {
                    assert(s1.to_set().contains(s1[i]));
                }
            }
            lemma_pushed(s1, last);
            lemma_pushed(front, last);
            assert(front.push(last) =~= t);
            assert(s.to_set() =~= t.to_set().insert(a));
            s
        }
    }
}

/// Appending an element to a sequence adds it to the sequence's set.
pub proof fn lemma_pushed<T>(s: Seq<T>, x: T)
    ensures
        s.push(x).to_set() == s.to_set().insert(x),
{
    assert forall|y: T| s.push(x).to_set().contains(y) <==> s.to_set().insert(x).contains(y) by {
        if s.contains(y) {
            let i = choose|i: int| 0 <= i < s.len() && s[i] == y;
            assert(s.push(x)[i] == y);
        }
        assert(s.push(x)[s.len() as int] == x);
        if s.push(x).contains(y) {
            let i = choose|i: int| 0 <= i < s.push(x).len() && s.push(x)[i] == y;
            if i < s.len() {
                assert(s[i] == y);
            }
        }
    }
    assert(s.push(x).to_set() =~= s.to_set().insert(x));
}

/// The elements of every finite set can be put in ascending order.
pub proof fn finite_sets_sort<T>(set: Set<T>, less: spec_fn(T, T) -> bool)
    requires
        strict_order(less),
        set.finite(),
    ensures
        increasing(ascending(set, less), less),
        ascending(set, less).to_set() == set,
    decreases set.len(),
{
    if set.len() == 0 {
        let s = Seq::<T>::empty();
        assert(s.to_set() =~= set);
        assert(increasing(s, less) && s.to_set() == set);
    } else {
        let a = set.choose();
        let rest = set.remove(a);
        finite_sets_sort(rest, less);
        let t = ascending(rest, less);
        assert(!t.contains(a)) by {
            if t.contains(a) {
                assert(t.to_set().contains(a));
            }
        }
        let s = lemma_place(t, a, less);
        assert(rest.insert(a) =~= set);
        assert(increasing(s, less) && s.to_set() == set);
    }
}

// ---------------------------------------------------------------------------
// The order of texts

/// Whether `a` comes before `b` in the order by code points.
pub open spec fn text_less(a: Seq<char>, b: Seq<char>) -> bool
    decreases a.len(),
{
    if b.len() == 0 {
        false
    } else if a.len() == 0 {
        true
    } else {
        a[0] < b[0] || (a[0] == b[0] && text_less(a.skip(1), b.skip(1)))
    }
}

/// The order of texts as a function.
pub open spec fn by_text() -> spec_fn(Seq<char>, Seq<char>) -> bool {
    |a: Seq<char>, b: Seq<char>| text_less(a, b)
}

proof fn lemma_text_irreflexive(a: Seq<char>)
    ensures
        !text_less(a, a),
    decreases a.len(),
{
    if a.len() > 0 {
        lemma_text_irreflexive(a.skip(1));
    }
}

proof fn lemma_text_transitive(a: Seq<char>, b: Seq<char>, c: Seq<char>)
    requires
        text_less(a, b),
        text_less(b, c),
    ensures
        text_less(a, c),
    decreases a.len(),
{
    if a.len() > 0 && a[0] == b[0] && b[0] == c[0] {
        lemma_text_transitive(a.skip(1), b.skip(1), c.skip(1));
    }
}

proof fn lemma_text_total(a: Seq<char>, b: Seq<char>)
    requires
        a != b,
    ensures
        text_less(a, b) || text_less(b, a),
    decreases a.len(),
{
    if a.len() > 0 && b.len() > 0 && a[0] == b[0] {
        if a.skip(1) == b.skip(1) {
            assert(a =~= seq![a[0]] + a.skip(1));
            assert(b =~= seq![b[0]] + b.skip(1));
        }
        lemma_text_total(a.skip(1), b.skip(1));
    } else if a.len() == 0 && b.len() == 0 {
        assert(a =~= b);
    }
}

/// Texts are in a strict total order.
pub proof fn lemma_text_order()
    ensures
        strict_order(by_text()),
{
    let less = by_text();
    assert forall|a: Seq<char>| !#[trigger] less(a, a) by {
        lemma_text_irreflexive(a);
    }
    assert forall|a: Seq<char>, b: Seq<char>, c: Seq<char>| #[trigger]
        less(a, b) && #[trigger] less(b, c) implies less(a, c) by {
        lemma_text_transitive(a, b, c);
    }
    assert forall|a: Seq<char>, b: Seq<char>| a != b implies #[trigger] less(a, b) || less(b, a) by {
        lemma_text_total(a, b);
    }
}

/// Whether `a` comes before `b` in the order by code points.
pub fn before(a: &str, b: &str) -> (r: bool)
    ensures
        r == text_less(a@, b@),
{
    let v = crate::text::chars_of(a);
    let w = crate::text::chars_of(b);
    let mut i: usize = 0;
    assert(v@.skip(0) == v@ && w@.skip(0) == w@);
    while i < v.len() && i < w.len() && v[i] == w[i]
        invariant
            i <= v@.len(),
            i <= w@.len(),
            text_less(v@, w@) == text_less(v@.skip(i as int), w@.skip(i as int)),
        decreases v@.len() - i,
    {
        assert(v@.skip(i as int).skip(1) == v@.skip(i + 1));
        assert(w@.skip(i as int).skip(1) == w@.skip(i + 1));
        i = i + 1;
    }
    if i < w.len() {
        i == v.len() || v[i] < w[i]
    } else {
        false
    }
}

// ---------------------------------------------------------------------------
// Maps keyed by text

/// A map from texts to values, in ascending order of the keys.
#[derive(Debug, PartialEq, Eq)]
pub struct TextMap<V> {
    entries: Vec<(String, V)>,
}

/// The keys of a list of entries.
pub open spec fn entry_keys<V>(entries: Seq<(String, V)>) -> Seq<Seq<char>> {
    entries.map_values(|e: (String, V)| e.0@)
}

/// The map that a list of entries stands for.
pub open spec fn entry_map<V>(entries: Seq<(String, V)>) -> Map<Seq<char>, V> {
    Map::new(
        |k: Seq<char>| entry_keys(entries).contains(k),
        |k: Seq<char>| entries[entry_keys(entries).index_of(k)].1,
    )
}

impl<V> View for TextMap<V> {
    type V = Map<Seq<char>, V>;

    closed spec fn view(&self) -> Map<Seq<char>, V> {
        entry_map(self.entries@)
    }
}

/// The keys of a map in ascending order.
pub open spec fn sorted_keys<V>(m: Map<Seq<char>, V>) -> Seq<Seq<char>> {
    ascending(m.dom(), by_text())
}

proof fn lemma_entries<V>(entries: Seq<(String, V)>)
    requires
        increasing(entry_keys(entries), by_text()),
    ensures
        entry_map(entries).dom() == entry_keys(entries).to_set(),
        sorted_keys(entry_map(entries)) == entry_keys(entries),
        forall|i: int|
            0 <= i < entries.len() ==> {
                &&& entry_map(entries).dom().contains(#[trigger] entry_keys(entries)[i])
                &&& entry_map(entries)[entry_keys(entries)[i]] == entries[i].1
            },
{
    let keys = entry_keys(entries);
    lemma_text_order();
    lemma_ascending(keys, by_text());
    assert(entry_map(entries).dom() =~= keys.to_set());
    assert forall|i: int| 0 <= i < entries.len() implies {
        &&& entry_map(entries).dom().contains(#[trigger] keys[i])
        &&& entry_map(entries)[keys[i]] == entries[i].1
    } by {
        let j = keys.index_of(keys[i]);
        assert(0 <= j < keys.len() && keys[j] == keys[i]);
    }
}

impl<V> TextMap<V> {
    #[verifier::type_invariant]
    spec fn in_order(self) -> bool {
        increasing(entry_keys(self.entries@), by_text())
    }

    /// An empty map.
    pub fn new() -> (r: Self)
        ensures
            r@ == Map::<Seq<char>, V>::empty(),
    {
        let r = TextMap { entries: Vec::new() };
        assert(r@ =~= Map::<Seq<char>, V>::empty());
        r
    }

    /// The number of entries.
    pub fn len(&self) -> (r: usize)
        ensures
            r == sorted_keys(self@).len(),
            r == self@.dom().len(),
            sorted_keys(self@).to_set() == self@.dom(),
            increasing(sorted_keys(self@), by_text()),
    {
        proof {
            use_type_invariant(self);
            lemma_entries(self.entries@);
            lemma_text_order();
            lemma_ascending(entry_keys(self.entries@), by_text());
        }
        self.entries.len()
    }

    /// Whether there is no entry.
    pub fn is_empty(&self) -> (r: bool)
        ensures
            r == (self@ == Map::<Seq<char>, V>::empty()),
            r == (sorted_keys(self@).len() == 0),
    {
        proof {
            use_type_invariant(self);
            lemma_entries(self.entries@);
            if self.entries@.len() == 0 {
                assert(self@ =~= Map::<Seq<char>, V>::empty());
            } else {
                assert(self@.dom().contains(entry_keys(self.entries@)[0]));
            }
        }
        self.entries.len() == 0
    }

    /// The value under `key`.
    pub fn get(&self, key: &str) -> (r: Option<&V>)
        ensures
            match r {
                Some(v) => self@.dom().contains(key@) && *v == self@[key@],
                None => !self@.dom().contains(key@),
            },
    {
        proof {
            use_type_invariant(self);
            lemma_entries(self.entries@);
        }
        for i in 0..self.entries.len()
            invariant
                increasing(entry_keys(self.entries@), by_text()),
                self@ == entry_map(self.entries@),
                forall|k: int| 0 <= k < i ==> #[trigger] entry_keys(self.entries@)[k] != key@,
        {
            if same(self.entries[i].0.as_str(), key) {
                proof {
                    lemma_entries(self.entries@);
                    assert(entry_keys(self.entries@)[i as int] == key@);
                }
                return Some(&self.entries[i].1);
            }
        }
        None
    }

    /// Whether there is an entry under `key`.
    pub fn contains(&self, key: &str) -> (r: bool)
        ensures
            r == self@.dom().contains(key@),
    {
        self.get(key).is_some()
    }

    /// The `i`th key in ascending order.
    pub fn key_at(&self, i: usize) -> (r: &str)
        requires
            i < sorted_keys(self@).len(),
        ensures
            r@ == sorted_keys(self@)[i as int],
            self@.dom().contains(r@),
    {
        proof {
            use_type_invariant(self);
            lemma_entries(self.entries@);
            assert(self@.dom().contains(entry_keys(self.entries@)[i as int]));
        }
        self.entries[i].0.as_str()
    }

    /// The value under the `i`th key in ascending order.
    pub fn value_at(&self, i: usize) -> (r: &V)
        requires
            i < sorted_keys(self@).len(),
        ensures
            *r == self@[sorted_keys(self@)[i as int]],
    {
        proof {
            use_type_invariant(self);
            lemma_entries(self.entries@);
            assert(self@.dom().contains(entry_keys(self.entries@)[i as int]));
        }
        &self.entries[i].1
    }

    /// Puts `value` under `key`, in place of what was there.
    pub fn insert(&mut self, key: String, value: V)
        ensures
            final(self)@ == old(self)@.insert(key@, value),
    {
        proof {
            use_type_invariant(&*self);
        }
        let mut entries: Vec<(String, V)> = Vec::new();
        std::mem::swap(&mut entries, &mut self.entries);
        let ghost old_entries = entries@;
        let ghost old_keys = entry_keys(entries@);
        let mut i: usize = 0;
        while i < entries.len() && before(entries[i].0.as_str(), key.as_str())
            invariant
                i <= entries@.len(),
                entries@ == old_entries,
                old_keys == entry_keys(entries@),
                forall|k: int| 0 <= k < i ==> text_less(#[trigger] old_keys[k], key@),
            decreases entries@.len() - i,
        {
            assert(old_keys[i as int] == entries@[i as int].0@);
            i = i + 1;
        }
        proof {
            lemma_text_order();
            lemma_entries(old_entries);
        }
        let ghost k = key@;
        if i < entries.len() && same(entries[i].0.as_str(), key.as_str()) {
            entries.set(i, (key, value));
            assert(entry_keys(entries@) =~= old_keys);
            proof {
                lemma_entries(entries@);
                lemma_replaced(old_entries, entries@, i as int, k, value);
            }
        } else {
            entries.insert(i, (key, value));
            proof {
                let keys = entry_keys(entries@);
                assert(keys =~= old_keys.insert(i as int, k));
                if i < old_keys.len() {
                    assert(old_keys[i as int] == old_entries[i as int].0@);
                    lemma_text_total(k, old_keys[i as int]);
                }
                assert forall|a: int, b: int| 0 <= a < b < keys.len() implies by_text()(
                    #[trigger] keys[a],
                    #[trigger] keys[b],
                ) by {
                    if a == i && b > i + 1 {
                        assert(by_text()(old_keys[i as int], old_keys[b - 1]));
                        lemma_text_transitive(k, old_keys[i as int], old_keys[b - 1]);
                    } else if a < i && b > i {
                        assert(by_text()(old_keys[a], old_keys[b - 1]));
                    } else if a > i {
                        assert(by_text()(old_keys[a - 1], old_keys[b - 1]));
                    } else if b < i {
                        assert(by_text()(old_keys[a], old_keys[b]));
                    }
                }
                lemma_entries(entries@);
                lemma_inserted(old_entries, entries@, i as int, k, value);
            }
        }
        self.entries = entries;
    }
}

/// The texts of a map of strings.
pub open spec fn text_map(m: Map<Seq<char>, String>) -> Map<Seq<char>, Seq<char>> {
    Map::new(|k: Seq<char>| m.dom().contains(k), |k: Seq<char>| m[k]@)
}

impl Clone for TextMap<String> {
    fn clone(&self) -> (r: Self)
        ensures
            r@ == self@,
    {
        proof {
            use_type_invariant(self);
        }
        let mut entries: Vec<(String, String)> = Vec::new();
        for i in 0..self.entries.len()
            invariant
                entries@ == self.entries@.take(i as int),
        {
            entries.push((self.entries[i].0.clone(), self.entries[i].1.clone()));
        }
        assert(entries@ == self.entries@);
        TextMap { entries }
    }
}

proof fn lemma_replaced<V>(
    old: Seq<(String, V)>,
    new: Seq<(String, V)>,
    i: int,
    key: Seq<char>,
    value: V,
)
    requires
        0 <= i < old.len(),
        new.len() == old.len(),
        increasing(entry_keys(old), by_text()),
        entry_keys(new) == entry_keys(old),
        entry_keys(old)[i] == key,
        new[i].1 == value,
        forall|k: int| 0 <= k < old.len() && k != i ==> new[k] == old[k],
    ensures
        entry_map(new) == entry_map(old).insert(key, value),
{
    lemma_entries(old);
    lemma_entries(new);
    let keys = entry_keys(old);
    assert forall|k: Seq<char>| #[trigger] entry_map(new).dom().contains(k) implies entry_map(new)[k]
        == entry_map(old).insert(key, value)[k] by {
        let j = keys.index_of(k);
        assert(keys[j] == k);
    }
    assert(keys.contains(key));
    assert(entry_map(new) =~= entry_map(old).insert(key, value));
}

proof fn lemma_inserted<V>(
    old: Seq<(String, V)>,
    new: Seq<(String, V)>,
    i: int,
    key: Seq<char>,
    value: V,
)
    requires
        0 <= i <= old.len(),
        increasing(entry_keys(old), by_text()),
        increasing(entry_keys(new), by_text()),
        entry_keys(new) == entry_keys(old).insert(i, key),
        new.len() == old.len() + 1,
        new[i].1 == value,
        forall|k: int| 0 <= k < i ==> new[k] == old[k],
        forall|k: int| i <= k < old.len() ==> new[k + 1] == #[trigger] old[k],
    ensures
        entry_map(new) == entry_map(old).insert(key, value),
{
    lemma_entries(old);
    lemma_entries(new);
    let ok = entry_keys(old);
    let nk = entry_keys(new);
    assert forall|k: Seq<char>| nk.contains(k) <==> ok.contains(k) || k == key by {
        if nk.contains(k) {
            let j = choose|j: int| 0 <= j < nk.len() && nk[j] == k;
            if j < i {
                assert(ok[j] == k);
            } else if j > i {
                assert(ok[j - 1] == k);
            }
        }
        if ok.contains(k) {
            let j = choose|j: int| 0 <= j < ok.len() && ok[j] == k;
            if j < i {
                assert(nk[j] == k);
            } else {
                assert(nk[j + 1] == k);
            }
        }
        assert(nk[i] == key);
    }
    assert forall|k: Seq<char>| #[trigger] entry_map(new).dom().contains(k) implies entry_map(new)[k]
        == entry_map(old).insert(key, value)[k] by {
        let j = choose|j: int| 0 <= j < nk.len() && nk[j] == k;
        assert(entry_map(new)[nk[j]] == new[j].1);
        if j < i {
            assert(ok[j] == k);
            lemma_text_order();
            assert(by_text()(nk[j], nk[i]));
        } else if j > i {
            assert(ok[j - 1] == k);
            lemma_text_order();
            assert(by_text()(nk[i], nk[j]));
            assert(new[j - 1 + 1] == old[j - 1]);
        }
    }
    assert(entry_map(new) =~= entry_map(old).insert(key, value));
}

// ---------------------------------------------------------------------------
// Sets of addresses

/// The order of addresses as a function.
pub open spec fn by_ip() -> spec_fn(IpAddr, IpAddr) -> bool {
    |a: IpAddr, b: IpAddr| net::ip_less(a, b)
}

/// The addresses of a set in ascending order.
pub open spec fn sorted_ips(s: Set<IpAddr>) -> Seq<IpAddr> {
    ascending(s, by_ip())
}

/// A set of addresses, in ascending order.
#[derive(Debug, PartialEq, Eq)]
pub struct IpSet {
    elems: Vec<IpAddr>,
}

impl View for IpSet {
    type V = Set<IpAddr>;

    closed spec fn view(&self) -> Set<IpAddr> {
        self.elems@.to_set()
    }
}

impl IpSet {
    #[verifier::type_invariant]
    spec fn in_order(self) -> bool {
        increasing(self.elems@, by_ip())
    }

    /// An empty set.
    pub fn new() -> (r: Self)
        ensures
            r@ == Set::<IpAddr>::empty(),
    {
        let r = IpSet { elems: Vec::new() };
        assert(r@ =~= Set::<IpAddr>::empty());
        r
    }

    /// The number of addresses.
    pub fn len(&self) -> (r: usize)
        ensures
            r == self@.len(),
    {
        proof {
            use_type_invariant(self);
            assert(strict_order(by_ip()));
            lemma_ascending(self.elems@, by_ip());
        }
        self.elems.len()
    }

    /// Whether there is no address.
    pub fn is_empty(&self) -> (r: bool)
        ensures
            r == (self@ == Set::<IpAddr>::empty()),
    {
        proof {
            if self.elems@.len() == 0 {
                assert(self@ =~= Set::<IpAddr>::empty());
            } else {
                assert(self@.contains(self.elems@[0]));
            }
        }
        self.elems.len() == 0
    }

    /// The addresses in ascending order.
    pub fn elements(&self) -> (r: &Vec<IpAddr>)
        ensures
            r@ == sorted_ips(self@),
            r@.to_set() == self@,
            increasing(r@, by_ip()),
    {
        proof {
            use_type_invariant(self);
            assert(strict_order(by_ip()));
            lemma_ascending(self.elems@, by_ip());
        }
        &self.elems
    }

    /// Adds an address.
    pub fn insert(&mut self, ip: IpAddr)
        ensures
            final(self)@ == old(self)@.insert(ip),
    {
        proof {
            use_type_invariant(&*self);
        }
        let mut elems: Vec<IpAddr> = Vec::new();
        std::mem::swap(&mut elems, &mut self.elems);
        let ghost before = elems@;
        let mut i: usize = 0;
        while i < elems.len() && elems[i].less(ip)
            invariant
                i <= elems@.len(),
                elems@ == before,
                forall|k: int| 0 <= k < i ==> net::ip_less(#[trigger] before[k], ip),
            decreases elems@.len() - i,
        {
            i = i + 1;
        }
        if i < elems.len() && elems[i] == ip {
            assert(before.to_set().insert(ip) =~= before.to_set());
        } else {
            elems.insert(i, ip);
            assert forall|x: IpAddr| elems@.to_set().contains(x) <==> before.to_set().insert(
                ip,
            ).contains(x) by {
                if elems@.contains(x) {
                    let j = choose|j: int| 0 <= j < elems@.len() && elems@[j] == x;
                    if j < i {
                        assert(before[j] == x);
                    } else if j > i {
                        assert(before[j - 1] == x);
                    }
                }
                if before.contains(x) {
                    let j = choose|j: int| 0 <= j < before.len() && before[j] == x;
                    if j < i {
                        assert(elems@[j] == x);
                    } else {
                        assert(elems@[j + 1] == x);
                    }
                }
                assert(elems@[i as int] == ip);
            }
            assert(elems@.to_set() =~= before.to_set().insert(ip));
            assert forall|a: int, b: int| 0 <= a < b < elems@.len() implies by_ip()(
                #[trigger] elems@[a],
                #[trigger] elems@[b],
            ) by {
                if b < i {
                    assert(by_ip()(before[a], before[b]));
                } else if a < i && b > i {
                    assert(by_ip()(before[a], before[b - 1]));
                } else if a > i {
                    assert(by_ip()(before[a - 1], before[b - 1]));
                } else if a == i && b > i + 1 {
                    assert(by_ip()(before[i as int], before[b - 1]));
                }
            }
        }
        self.elems = elems;
    }
}

// ---------------------------------------------------------------------------
// What can be relied on

/// Texts are ordered as in a dictionary: what they start with alike does not
/// matter, then the first character decides, and a text that ends there comes
/// first.
pub proof fn dictionary_order(p: Seq<char>, a: Seq<char>, b: Seq<char>)
    ensures
        text_less(p + a, p + b) == text_less(a, b),
        a.len() == 0 ==> (text_less(a, b) <==> b.len() > 0),
        b.len() == 0 ==> !text_less(a, b),
        a.len() > 0 && b.len() > 0 && a[0] < b[0] ==> text_less(a, b),
        a.len() > 0 && b.len() > 0 && a[0] > b[0] ==> !text_less(a, b),
    decreases p.len(),
{
    if p.len() == 0 {
        assert(p + a =~= a);
        assert(p + b =~= b);
    } else {
        dictionary_order(p.skip(1), a, b);
        assert((p + a).skip(1) =~= p.skip(1) + a);
        assert((p + b).skip(1) =~= p.skip(1) + b);
    }
}

/// The keys of a map are all listed, each once, in the order of a dictionary.
pub proof fn keys_in_order<V>(m: Map<Seq<char>, V>, i: int, j: int)
    requires
        m.dom().finite(),
        0 <= i < j < sorted_keys(m).len(),
    ensures
        text_less(sorted_keys(m)[i], sorted_keys(m)[j]),
        forall|k: Seq<char>| #[trigger] m.dom().contains(k) <==> sorted_keys(m).contains(k),
{
    lemma_text_order();
    finite_sets_sort(m.dom(), by_text());
    let less = by_text();
    let keys = sorted_keys(m);
    assert(less(keys[i], keys[j]));
    assert forall|k: Seq<char>| #[trigger] m.dom().contains(k) <==> keys.contains(k) by {
        assert(keys.to_set().contains(k) <==> keys.contains(k));
    }
}

/// The addresses of a set are all listed, each once: IPv4 before IPv6, and each
/// family by value.
pub proof fn addresses_in_order(s: Set<IpAddr>, i: int, j: int)
    requires
        s.finite(),
        0 <= i < j < sorted_ips(s).len(),
    ensures
        ({
            let a = sorted_ips(s)[i];
            let b = sorted_ips(s)[j];
            &&& a is V6 ==> b is V6
            &&& a is V4 && b is V4 ==> a->V4_0 < b->V4_0
            &&& a is V6 && b is V6 ==> a->V6_0 < b->V6_0
        }),
        forall|ip: IpAddr| #[trigger] s.contains(ip) <==> sorted_ips(s).contains(ip),
{
    assert(strict_order(by_ip()));
    finite_sets_sort(s, by_ip());
    let less = by_ip();
    let ips = sorted_ips(s);
    assert(less(ips[i], ips[j]));
    assert forall|ip: IpAddr| #[trigger] s.contains(ip) <==> ips.contains(ip) by {
        assert(ips.to_set().contains(ip) <==> ips.contains(ip));
    }
}

} // verus!
