//! String-keyed maps kept as vectors of entries in ascending key order.
//!
//! Keys are ordered as `String` orders them: lexicographically by the bytes
//! of their UTF-8 encoding.
use vstd::prelude::*;
use vstd::utf8::{encode_utf8, encode_utf8_decode_utf8};

verus! {

/// Strict lexicographic order on byte sequences: `a` and `b` agree on a prefix
/// after which `a` ends first or holds the smaller byte.
pub open spec fn bytes_lt(a: Seq<u8>, b: Seq<u8>) -> bool {
    exists|k: int| #[trigger] diverge_at(a, b, k)
}

/// `a` and `b` agree before position `k`, and at `k` the sequence `a` ends
/// while `b` goes on, or holds a smaller byte than `b`.
pub open spec fn diverge_at(a: Seq<u8>, b: Seq<u8>, k: int) -> bool {
    &&& 0 <= k <= a.len()
    &&& k < b.len()
    &&& forall|j: int| 0 <= j < k ==> a[j] == b[j]
    &&& (k < a.len() ==> a[k] < b[k])
}

/// The order of keys: that of their UTF-8 encodings.
pub open spec fn key_lt(a: Seq<char>, b: Seq<char>) -> bool {
    bytes_lt(encode_utf8(a), encode_utf8(b))
}

/// No byte sequence comes before itself.
pub proof fn lemma_bytes_lt_irreflexive(a: Seq<u8>)
    ensures
        !bytes_lt(a, a),
{
    assert forall|k: int| !#[trigger] diverge_at(a, a, k) by {}
}

/// The byte order is transitive.
pub proof fn lemma_bytes_lt_transitive(a: Seq<u8>, b: Seq<u8>, c: Seq<u8>)
    requires
        bytes_lt(a, b),
        bytes_lt(b, c),
    ensures
        bytes_lt(a, c),
{
    let k1 = choose|k: int| #[trigger] diverge_at(a, b, k);
    let k2 = choose|k: int| #[trigger] diverge_at(b, c, k);
    let k = if k1 <= k2 { k1 } else { k2 };
    assert(diverge_at(a, c, k));
}

/// Two byte sequences are equal or one comes before the other.
pub proof fn lemma_bytes_lt_total(a: Seq<u8>, b: Seq<u8>)
    ensures
        a == b || bytes_lt(a, b) || bytes_lt(b, a),
    decreases a.len(),
{
    if a.len() == 0 {
        if b.len() == 0 {
            assert(a =~= b);
        } else {
            assert(diverge_at(a, b, 0));
        }
    } else if b.len() == 0 {
        assert(diverge_at(b, a, 0));
    } else if a[0] < b[0] {
        assert(diverge_at(a, b, 0));
    } else if b[0] < a[0] {
        assert(diverge_at(b, a, 0));
    } else {
        let a1 = a.subrange(1, a.len() as int);
        let b1 = b.subrange(1, b.len() as int);
        lemma_bytes_lt_total(a1, b1);
        if a1 == b1 {
            assert(a =~= seq![a[0]] + a1);
            assert(b =~= seq![b[0]] + b1);
        } else if bytes_lt(a1, b1) {
            let k = choose|k: int| #[trigger] diverge_at(a1, b1, k);
            assert forall|j: int| 0 <= j < k + 1 implies a[j] == b[j] by {
                if j > 0 {
                    assert(a1[j - 1] == b1[j - 1]);
                }
            }
            assert(k < a1.len() ==> a1[k] == a[k + 1] && b1[k] == b[k + 1]);
            assert(diverge_at(a, b, k + 1));
        } else {
            let k = choose|k: int| #[trigger] diverge_at(b1, a1, k);
            assert forall|j: int| 0 <= j < k + 1 implies b[j] == a[j] by {
                if j > 0 {
                    assert(a1[j - 1] == b1[j - 1]);
                }
            }
            assert(k < b1.len() ==> a1[k] == a[k + 1] && b1[k] == b[k + 1]);
            assert(diverge_at(b, a, k + 1));
        }
    }
}

/// No key comes before itself.
pub proof fn lemma_key_lt_irreflexive(a: Seq<char>)
    ensures
        !key_lt(a, a),
{
    lemma_bytes_lt_irreflexive(encode_utf8(a));
}

/// The key order is transitive.
pub proof fn lemma_key_lt_transitive(a: Seq<char>, b: Seq<char>, c: Seq<char>)
    requires
        key_lt(a, b),
        key_lt(b, c),
    ensures
        key_lt(a, c),
{
    lemma_bytes_lt_transitive(encode_utf8(a), encode_utf8(b), encode_utf8(c));
}

/// Two keys are equal or one comes before the other.
pub proof fn lemma_key_lt_total(a: Seq<char>, b: Seq<char>)
    ensures
        a == b || key_lt(a, b) || key_lt(b, a),
{
    lemma_bytes_lt_total(encode_utf8(a), encode_utf8(b));
    encode_utf8_decode_utf8(a);
    encode_utf8_decode_utf8(b);
}

/// How one key stands to another in the key order.
#[derive(Clone, Copy, Debug, PartialEq, Eq, Structural)]
pub enum Rank {
    Before,
    Same,
    After,
}

/// Compares two keys in the key order.
pub fn key_rank(a: &str, b: &str) -> (r: Rank)
    ensures
        r == Rank::Before <==> key_lt(a@, b@),
        r == Rank::Same <==> a@ == b@,
        r == Rank::After <==> key_lt(b@, a@),
{
    let x = a.as_bytes();
    let y = b.as_bytes();
    proof {
        lemma_key_lt_irreflexive(a@);
        lemma_key_lt_total(a@, b@);
        if key_lt(a@, b@) && key_lt(b@, a@) {
            lemma_key_lt_transitive(a@, b@, a@);
        }
    }
    let mut i: usize = 0;
    while i < x.len() && i < y.len()
        invariant
            0 <= i <= x@.len(),
            i <= y@.len(),
            x@ == encode_utf8(a@),
            y@ == encode_utf8(b@),
            forall|j: int| 0 <= j < i ==> x@[j] == y@[j],
        decreases x@.len() - i,
    {
        if x[i] < y[i] {
            assert(diverge_at(x@, y@, i as int));
            return Rank::Before;
        }
        if y[i] < x[i] {
            assert(diverge_at(y@, x@, i as int));
            return Rank::After;
        }
        i = i + 1;
    }
    if x.len() < y.len() {
        assert(diverge_at(x@, y@, i as int));
        Rank::Before
    } else if y.len() < x.len() {
        assert(diverge_at(y@, x@, i as int));
        Rank::After
    } else {
        assert(x@ =~= y@);
        proof {
            encode_utf8_decode_utf8(a@);
            encode_utf8_decode_utf8(b@);
        }
        Rank::Same
    }
}

/// Whether two texts are the same.
pub fn same_text(a: &str, b: &str) -> (r: bool)
    ensures
        r == (a@ == b@),
{
    match key_rank(a, b) {
        Rank::Same => true,
        _ => false,
    }
}

/// Whether the keys of `s` strictly ascend.
pub open spec fn ascending<V>(s: Seq<(String, V)>) -> bool {
    forall|i: int, j: int| 0 <= i < j < s.len() ==> key_lt((#[trigger] s[i]).0@, (#[trigger] s[j]).0@)
}

/// Whether some entry of `s` has the key `k`.
pub open spec fn holds_key<V>(s: Seq<(String, V)>, k: Seq<char>) -> bool {
    exists|i: int| 0 <= i < s.len() && (#[trigger] s[i]).0@ == k
}

/// The position of an entry of `s` with the key `k`.
pub open spec fn place_of<V>(s: Seq<(String, V)>, k: Seq<char>) -> int {
    choose|i: int| 0 <= i < s.len() && (#[trigger] s[i]).0@ == k
}

/// The map that the entries `s` stand for.
pub open spec fn entries_map<V>(s: Seq<(String, V)>) -> Map<Seq<char>, V> {
    Map::new(|k: Seq<char>| holds_key(s, k), |k: Seq<char>| s[place_of(s, k)].1)
}

/// In ascending entries each key occurs once, so the entry at `i` is the one
/// that the map holds for its key.
pub proof fn lemma_entry_in_map<V>(s: Seq<(String, V)>, i: int)
    requires
        ascending(s),
        0 <= i < s.len(),
    ensures
        holds_key(s, s[i].0@),
        place_of(s, s[i].0@) == i,
        entries_map(s).contains_key(s[i].0@),
        entries_map(s)[s[i].0@] == s[i].1,
{
    let k = s[i].0@;
    let p = place_of(s, k);
    lemma_key_lt_irreflexive(k);
    if p < i {
        assert(key_lt(s[p].0@, s[i].0@));
    } else if i < p {
        assert(key_lt(s[i].0@, s[p].0@));
    }
}

/// Two ascending sequences of entries with the same keys, position by
/// position, hold the same keys at the same places.
pub proof fn lemma_same_keys<A, B>(x: Seq<(String, A)>, y: Seq<(String, B)>)
    requires
        ascending(x),
        ascending(y),
        x.len() == y.len(),
        forall|i: int| 0 <= i < x.len() ==> (#[trigger] x[i]).0@ == y[i].0@,
    ensures
        forall|k: Seq<char>| holds_key(x, k) == holds_key(y, k),
        forall|k: Seq<char>| holds_key(x, k) ==> 0 <= place_of(x, k) < x.len() && place_of(x, k) == place_of(y, k),
{
    assert forall|k: Seq<char>| holds_key(x, k) == holds_key(y, k) by {
        if holds_key(x, k) {
            let p = place_of(x, k);
            assert(y[p].0@ == k);
        }
        if holds_key(y, k) {
            let p = place_of(y, k);
            assert(x[p].0@ == k);
        }
    }
    assert forall|k: Seq<char>| holds_key(x, k) implies 0 <= place_of(x, k) < x.len() && place_of(
        x,
        k,
    ) == place_of(y, k) by {
        let p = place_of(x, k);
        lemma_entry_in_map(x, p);
        assert(x[p].0@ == y[p].0@);
        lemma_entry_in_map(y, p);
    }
}

/// A map from strings to values of type `V`.
///
/// The entries are kept in ascending key order, so that two maps with the
/// same contents hold the same entries in the same order.
#[derive(Debug, PartialEq)]
pub struct StrMap<V> {
    pub(crate) entries: Vec<(String, V)>,
}

impl<V> View for StrMap<V> {
    type V = Map<Seq<char>, V>;

    open(crate) spec fn view(&self) -> Map<Seq<char>, V> {
        entries_map(self.entries@)
    }
}

impl<V> StrMap<V> {
    /// The keys ascend strictly.
    #[verifier::type_invariant]
    pub open(crate) spec fn wf(self) -> bool {
        ascending(self.entries@)
    }

    /// The keys in ascending order.
    pub open(crate) spec fn keys(self) -> Seq<Seq<char>> {
        Seq::new(self.entries@.len(), |i: int| self.entries@[i].0@)
    }

    /// The sequence of keys holds each key of the map once and no other, and
    /// ascends strictly. So the map is finite and has as many entries as the
    /// sequence has keys.
    pub proof fn lemma_keys(self)
        requires
            self.wf(),
        ensures
            forall|i: int| 0 <= i < self.keys().len() ==> self@.contains_key(#[trigger] self.keys()[i]),
            forall|k: Seq<char>| self@.contains_key(k) ==> self.keys().contains(k),
            forall|i: int, j: int|
                0 <= i < j < self.keys().len() ==> key_lt(#[trigger] self.keys()[i], #[trigger] self.keys()[j]),
            self.keys().no_duplicates(),
            self@.dom() == self.keys().to_set(),
            self@.dom().finite(),
            self@.len() == self.keys().len(),
    {
        let s = self.entries@;
        let keys = self.keys();
        assert forall|i: int| 0 <= i < keys.len() implies self@.contains_key(#[trigger] keys[i]) by {
            lemma_entry_in_map(s, i);
        }
        assert forall|k: Seq<char>| self@.contains_key(k) implies keys.contains(k) by {
            let p = place_of(s, k);
            assert(keys[p] == k);
        }
        assert forall|i: int, j: int| 0 <= i < keys.len() && 0 <= j < keys.len() && i != j implies keys[i]
            != keys[j] by {
            lemma_key_lt_irreflexive(keys[i]);
            if i < j {
                assert(key_lt(s[i].0@, s[j].0@));
            } else {
                assert(key_lt(s[j].0@, s[i].0@));
            }
        }
        assert(self@.dom() =~= keys.to_set());
        vstd::seq_lib::seq_to_set_is_finite(keys);
        keys.unique_seq_to_set();
    }

    /// An empty map.
    pub fn new() -> (m: Self)
        ensures
            m@ == Map::<Seq<char>, V>::empty(),
            m.keys().len() == 0,
    {
        let m = StrMap { entries: Vec::new() };
        assert(m@ =~= Map::<Seq<char>, V>::empty());
        m
    }

    /// The number of entries.
    pub fn len(&self) -> (n: usize)
        ensures
            n == self.keys().len(),
            n == self@.len(),
    {
        proof {
            use_type_invariant(self);
            self.lemma_keys();
        }
        self.entries.len()
    }

    /// Whether the map holds no entry.
    pub fn is_empty(&self) -> (b: bool)
        ensures
            b == (self.keys().len() == 0),
            b == (self@ == Map::<Seq<char>, V>::empty()),
    {
        proof {
            if self.entries@.len() == 0 {
                assert(self@ =~= Map::<Seq<char>, V>::empty());
            } else {
                use_type_invariant(self);
                lemma_entry_in_map(self.entries@, 0);
            }
        }
        self.entries.len() == 0
    }

    /// Finds `key` by bisection: the position of its entry, or the position
    /// at which an entry for it would have to stand.
    fn locate(&self, key: &str) -> (r: (usize, bool))
        ensures
            r.0 <= self.entries@.len(),
            r.1 ==> r.0 < self.entries@.len() && self.entries@[r.0 as int].0@ == key@,
            r.1 == holds_key(self.entries@, key@),
            forall|j: int| 0 <= j < r.0 ==> key_lt((#[trigger] self.entries@[j]).0@, key@),
            forall|j: int|
                r.0 <= j < self.entries@.len() && !(r.1 && j == r.0) ==> key_lt(
                    key@,
                    (#[trigger] self.entries@[j]).0@,
                ),
    {
        proof {
            use_type_invariant(self);
        }
        let ghost s = self.entries@;
        let mut lo: usize = 0;
        let mut hi: usize = self.entries.len();
        while lo < hi
            invariant
                s == self.entries@,
                ascending(s),
                0 <= lo <= hi <= s.len(),
                forall|j: int| 0 <= j < lo ==> key_lt((#[trigger] s[j]).0@, key@),
                forall|j: int| hi <= j < s.len() ==> key_lt(key@, (#[trigger] s[j]).0@),
            decreases hi - lo,
        {
            let mid = lo + (hi - lo) / 2;
            match key_rank(self.entries[mid].0.as_str(), key) {
                Rank::Before => {
                    assert forall|j: int| 0 <= j < mid + 1 implies key_lt((#[trigger] s[j]).0@, key@) by {
                        if j < mid {
                            assert(key_lt(s[j].0@, s[mid as int].0@));
                            lemma_key_lt_transitive(s[j].0@, s[mid as int].0@, key@);
                        }
                    }
                    lo = mid + 1;
                },
                Rank::After => {
                    assert forall|j: int| mid <= j < s.len() implies key_lt(key@, (#[trigger] s[j]).0@) by {
                        if mid < j {
                            assert(key_lt(s[mid as int].0@, s[j].0@));
                            lemma_key_lt_transitive(key@, s[mid as int].0@, s[j].0@);
                        }
                    }
                    hi = mid;
                },
                Rank::Same => {
                    assert forall|j: int| mid < j < s.len() implies key_lt(key@, (#[trigger] s[j]).0@) by {
                        assert(key_lt(s[mid as int].0@, s[j].0@));
                    }
                    assert forall|j: int| 0 <= j < mid implies key_lt((#[trigger] s[j]).0@, key@) by {
                        assert(key_lt(s[j].0@, s[mid as int].0@));
                    }
                    return (mid, true);
                },
            }
        }
        proof {
            lemma_key_lt_irreflexive(key@);
            assert forall|i: int| 0 <= i < s.len() implies (#[trigger] s[i]).0@ != key@ by {}
        }
        (lo, false)
    }

    /// Moves the entries out and leaves the map empty.
    fn take_entries(&mut self) -> (entries: Vec<(String, V)>)
        ensures
            entries == old(self).entries,
            final(self).entries@.len() == 0,
    {
        let mut taken = StrMap { entries: Vec::new() };
        core::mem::swap(self, &mut taken);
        taken.entries
    }

    /// Whether the map holds an entry for `key`.
    pub fn contains_key(&self, key: &str) -> (b: bool)
        ensures
            b == self@.contains_key(key@),
    {
        self.locate(key).1
    }

    /// The value that the map holds for `key`.
    pub fn get(&self, key: &str) -> (r: Option<&V>)
        ensures
            r is Some == self@.contains_key(key@),
            r matches Some(v) ==> *v == self@[key@],
    {
        let (i, found) = self.locate(key);
        if found {
            proof {
                use_type_invariant(self);
                lemma_entry_in_map(self.entries@, i as int);
            }
            Some(&self.entries[i].1)
        } else {
            None
        }
    }

    /// The key of the entry at position `i` of the ascending order.
    pub fn key_at(&self, i: usize) -> (k: &String)
        requires
            i < self.keys().len(),
        ensures
            k@ == self.keys()[i as int],
            self@.contains_key(k@),
    {
        proof {
            use_type_invariant(self);
            lemma_entry_in_map(self.entries@, i as int);
        }
        &self.entries[i].0
    }

    /// The value of the entry at position `i` of the ascending order.
    pub fn value_at(&self, i: usize) -> (v: &V)
        requires
            i < self.keys().len(),
        ensures
            self@.contains_key(self.keys()[i as int]),
            *v == self@[self.keys()[i as int]],
    {
        proof {
            use_type_invariant(self);
            lemma_entry_in_map(self.entries@, i as int);
        }
        &self.entries[i].1
    }

    /// Sets the value for `key`, and returns the value that was there.
    pub fn insert(&mut self, key: String, value: V) -> (previous: Option<V>)
        ensures
            final(self)@ == old(self)@.insert(key@, value),
            previous is Some == old(self)@.contains_key(key@),
            previous matches Some(v) ==> v == old(self)@[key@],
    {
        proof {
            use_type_invariant(&*self);
        }
        let ghost s0 = self.entries@;
        let (i, found) = self.locate(key.as_str());
        if found {
            let ghost k = key@;
            let mut entry = (key, value);
            proof {
                lemma_entry_in_map(s0, i as int);
            }
            let mut entries = self.take_entries();
            core::mem::swap(&mut entries[i], &mut entry);
            *self = StrMap { entries };
            proof {
                let s1 = self.entries@;
                assert(ascending(s1)) by {
                    assert forall|a: int, b: int| 0 <= a < b < s1.len() implies key_lt(
                        (#[trigger] s1[a]).0@,
                        (#[trigger] s1[b]).0@,
                    ) by {
                        assert(key_lt(s0[a].0@, s0[b].0@));
                    }
                }
                assert forall|q: Seq<char>| holds_key(s1, q) == (q == k || holds_key(s0, q)) by {
                    if holds_key(s1, q) {
                        let p = place_of(s1, q);
                        assert(s0[p].0@ == q);
                    }
                    if holds_key(s0, q) {
                        let p = place_of(s0, q);
                        assert(s1[p].0@ == q);
                    }
                    assert(s1[i as int].0@ == k);
                }
                assert forall|q: Seq<char>| holds_key(s1, q) implies #[trigger] entries_map(s1)[q]
                    == old(self)@.insert(k, value)[q] by {
                    let p = place_of(s1, q);
                    lemma_entry_in_map(s1, p);
                    if p != i {
                        assert(s0[p] == s1[p]);
                        lemma_entry_in_map(s0, p);
                        lemma_entry_in_map(s1, i as int);
                    }
                }
                assert(self@ =~= old(self)@.insert(k, value));
            }
            Some(entry.1)
        } else {
            let ghost k = key@;
            let mut entries = self.take_entries();
            entries.insert(i, (key, value));
            proof {
                let s1 = entries@;
                assert(ascending(s1)) by {
                    assert forall|a: int, b: int| 0 <= a < b < s1.len() implies key_lt(
                        (#[trigger] s1[a]).0@,
                        (#[trigger] s1[b]).0@,
                    ) by {
                        if b < i {
                            assert(key_lt(s0[a].0@, s0[b].0@));
                        } else if b == i {
                            assert(key_lt(s0[a].0@, k));
                        } else if a < i {
                            assert(key_lt(s0[a].0@, s0[b - 1].0@));
                        } else if a == i {
                            assert(key_lt(k, s0[b - 1].0@));
                        } else {
                            assert(key_lt(s0[a - 1].0@, s0[b - 1].0@));
                        }
                    }
                }
                assert forall|q: Seq<char>| holds_key(s1, q) == (q == k || holds_key(s0, q)) by {
                    if holds_key(s1, q) {
                        let p = place_of(s1, q);
                        if p < i {
                            assert(s0[p].0@ == q);
                        } else if p > i {
                            assert(s0[p - 1].0@ == q);
                        }
                    }
                    if holds_key(s0, q) {
                        let p = place_of(s0, q);
                        if p < i {
                            assert(s1[p].0@ == q);
                        } else {
                            assert(s1[p + 1].0@ == q);
                        }
                    }
                    assert(s1[i as int].0@ == k);
                }
                assert forall|q: Seq<char>| holds_key(s1, q) implies #[trigger] entries_map(s1)[q]
                    == old(self)@.insert(k, value)[q] by {
                    let p = place_of(s1, q);
                    lemma_entry_in_map(s1, p);
                    if p < i {
                        assert(s0[p] == s1[p]);
                        lemma_entry_in_map(s0, p);
                        lemma_entry_in_map(s1, i as int);
                    } else if p > i {
                        assert(s0[p - 1] == s1[p]);
                        lemma_entry_in_map(s0, p - 1);
                        lemma_entry_in_map(s1, i as int);
                    }
                }
                assert(entries_map(s1) =~= old(self)@.insert(k, value));
            }
            *self = StrMap { entries };
            None
        }
    }

    /// Takes the entry for `key` out of the map, and returns its value.
    pub fn remove(&mut self, key: &str) -> (previous: Option<V>)
        ensures
            final(self)@ == old(self)@.remove(key@),
            previous is Some == old(self)@.contains_key(key@),
            previous matches Some(v) ==> v == old(self)@[key@],
    {
        proof {
            use_type_invariant(&*self);
        }
        let ghost s0 = self.entries@;
        let (i, found) = self.locate(key);
        if found {
            proof {
                lemma_entry_in_map(s0, i as int);
            }
            let mut entries = self.take_entries();
            let entry = entries.remove(i);
            proof {
                let s1 = entries@;
                let k = key@;
                assert(ascending(s1)) by {
                    assert forall|a: int, b: int| 0 <= a < b < s1.len() implies key_lt(
                        (#[trigger] s1[a]).0@,
                        (#[trigger] s1[b]).0@,
                    ) by {
                        let a0 = if a < i { a } else { a + 1 };
                        let b0 = if b < i { b } else { b + 1 };
                        assert(key_lt(s0[a0].0@, s0[b0].0@));
                    }
                }
                assert forall|q: Seq<char>| holds_key(s1, q) == (q != k && holds_key(s0, q)) by {
                    if holds_key(s1, q) {
                        let p = place_of(s1, q);
                        let p0 = if p < i { p } else { p + 1 };
                        assert(s0[p0].0@ == q);
                        lemma_entry_in_map(s0, p0);
                    }
                    if q != k && holds_key(s0, q) {
                        let p = place_of(s0, q);
                        if p < i {
                            assert(s1[p].0@ == q);
                        } else {
                            assert(s1[p - 1].0@ == q);
                        }
                    }
                }
                assert forall|q: Seq<char>| holds_key(s1, q) implies #[trigger] entries_map(s1)[q]
                    == old(self)@.remove(k)[q] by {
                    let p = place_of(s1, q);
                    lemma_entry_in_map(s1, p);
                    let p0 = if p < i { p } else { p + 1 };
                    assert(s0[p0] == s1[p]);
                    lemma_entry_in_map(s0, p0);
                }
                assert(entries_map(s1) =~= old(self)@.remove(k));
            }
            *self = StrMap { entries };
            Some(entry.1)
        } else {
            assert(self@ =~= old(self)@.remove(key@));
            None
        }
    }
}

} // verus!
