//! Byte-string keys in lexicographic order, and the sorted key list that a
//! document keeps as a mirror of the keys in its store.

use vstd::prelude::*;
use vstd::slice::slice_to_vec;

verus! {

/// `a` comes strictly before `b` in lexicographic byte order.
pub open spec fn precedes(a: Seq<u8>, b: Seq<u8>) -> bool
    decreases a.len(),
{
    if b.len() == 0 {
        false
    } else if a.len() == 0 {
        true
    } else if a[0] != b[0] {
        a[0] < b[0]
    } else {
        precedes(a.drop_first(), b.drop_first())
    }
}

/// Strictly ascending: every key comes before all keys after it.
pub open spec fn ascending(s: Seq<Seq<u8>>) -> bool {
    forall|i: int, j: int| 0 <= i < j < s.len() ==> precedes(#[trigger] s[i], #[trigger] s[j])
}

/// The byte strings that a vector of keys holds, in order.
pub open spec fn key_views(v: Seq<Vec<u8>>) -> Seq<Seq<u8>> {
    Seq::new(v.len(), |i: int| v[i]@)
}

pub proof fn lemma_precedes_irreflexive(a: Seq<u8>)
    ensures
        !precedes(a, a),
    decreases a.len(),
{
    if a.len() > 0 {
        lemma_precedes_irreflexive(a.drop_first());
    }
}

pub proof fn lemma_precedes_transitive(a: Seq<u8>, b: Seq<u8>, c: Seq<u8>)
    requires
        precedes(a, b),
        precedes(b, c),
    ensures
        precedes(a, c),
    decreases a.len(),
{
    if a.len() > 0 && a[0] == b[0] && b[0] == c[0] {
        lemma_precedes_transitive(a.drop_first(), b.drop_first(), c.drop_first());
    }
}

/// No two keys come before each other, and none before itself.
pub proof fn lemma_precedes_asymmetric(a: Seq<u8>, b: Seq<u8>)
    requires
        precedes(a, b),
    ensures
        !precedes(b, a),
        a != b,
{
    lemma_precedes_irreflexive(a);
    if precedes(b, a) {
        lemma_precedes_transitive(a, b, a);
    }
}

/// Of two distinct keys one comes before the other.
pub proof fn lemma_precedes_total(a: Seq<u8>, b: Seq<u8>)
    ensures
        precedes(a, b) || a == b || precedes(b, a),
    decreases a.len(),
{
    if a.len() == 0 || b.len() == 0 {
        if a.len() == 0 && b.len() == 0 {
            assert(a =~= b);
        }
    } else if a[0] == b[0] {
        lemma_precedes_total(a.drop_first(), b.drop_first());
        if a.drop_first() == b.drop_first() {
            assert(a =~= seq![a[0]] + a.drop_first());
            assert(b =~= seq![b[0]] + b.drop_first());
        }
    }
}

/// Two keys that agree on their first `i` bytes are ordered by what follows.
proof fn lemma_precedes_after_prefix(a: Seq<u8>, b: Seq<u8>, i: int)
    requires
        0 <= i <= a.len(),
        i <= b.len(),
        forall|k: int| 0 <= k < i ==> a[k] == b[k],
        (i == a.len() && i < b.len()) || (i < a.len() && i < b.len() && a[i] < b[i]),
    ensures
        precedes(a, b),
    decreases i,
{
    if i > 0 {
        let a1 = a.drop_first();
        let b1 = b.drop_first();
        assert forall|k: int| 0 <= k < i - 1 implies a1[k] == b1[k] by {
            assert(a1[k] == a[k + 1]);
            assert(b1[k] == b[k + 1]);
        }
        lemma_precedes_after_prefix(a1, b1, i - 1);
    }
}

/// How one key stands to another.
#[derive(Debug, Clone, Copy, PartialEq, Eq, Structural)]
pub enum KeyOrder {
    Before,
    Same,
    After,
}

/// Compares two keys byte by byte.
pub fn key_order(a: &[u8], b: &[u8]) -> (r: KeyOrder)
    ensures
        r == KeyOrder::Before <==> precedes(a@, b@),
        r == KeyOrder::Same <==> a@ == b@,
        r == KeyOrder::After <==> precedes(b@, a@),
{
    let mut i: usize = 0;
    while i < a.len() && i < b.len()
        invariant
            i <= a.len(),
            i <= b.len(),
            forall|k: int| 0 <= k < i ==> a@[k] == b@[k],
        decreases a.len() - i,
    {
        if a[i] < b[i] {
            proof {
                lemma_precedes_after_prefix(a@, b@, i as int);
                lemma_precedes_asymmetric(a@, b@);
            }
            return KeyOrder::Before;
        }
        if a[i] > b[i] {
            proof {
                lemma_precedes_after_prefix(b@, a@, i as int);
                lemma_precedes_asymmetric(b@, a@);
            }
            return KeyOrder::After;
        }
        i = i + 1;
    }
    if a.len() < b.len() {
        proof {
            lemma_precedes_after_prefix(a@, b@, i as int);
            lemma_precedes_asymmetric(a@, b@);
        }
        KeyOrder::Before
    } else if a.len() > b.len() {
        proof {
            lemma_precedes_after_prefix(b@, a@, i as int);
            lemma_precedes_asymmetric(b@, a@);
        }
        KeyOrder::After
    } else {
        assert(a@ =~= b@);
        proof {
            lemma_precedes_irreflexive(a@);
        }
        KeyOrder::Same
    }
}

/// In an ascending list no key occurs twice.
pub proof fn lemma_ascending_distinct(s: Seq<Seq<u8>>)
    requires
        ascending(s),
    ensures
        s.no_duplicates(),
{
    assert forall|i: int, j: int| 0 <= i < s.len() && 0 <= j < s.len() && i != j implies s[i]
        != s[j] by {
        lemma_precedes_irreflexive(s[i]);
        if i < j {
            assert(precedes(s[i], s[j]));
        } else {
            assert(precedes(s[j], s[i]));
        }
    }
}

/// Two ascending lists of the same keys are the same list.
pub proof fn lemma_ascending_unique(s: Seq<Seq<u8>>, t: Seq<Seq<u8>>)
    requires
        ascending(s),
        ascending(t),
        s.to_set() == t.to_set(),
    ensures
        s == t,
    decreases s.len(),
{
    if s.len() == 0 {
        if t.len() > 0 {
            assert(t.contains(t[0]));
            assert(t.to_set().contains(t[0]));
            assert(s.contains(t[0]));
        }
        assert(s =~= t);
    } else if t.len() == 0 {
        assert(s.contains(s[0]));
        assert(s.to_set().contains(s[0]));
        assert(t.contains(s[0]));
    } else {
        // The last key of each list is the greatest key of the common set.
        let a = s.last();
        let b = t.last();
        assert(s.contains(a));
        assert(s.to_set().contains(a));
        assert(t.contains(a));
        assert(t.contains(b));
        assert(t.to_set().contains(b));
        assert(s.contains(b));
        let ia = choose|i: int| 0 <= i < t.len() && t[i] == a;
        let ib = choose|i: int| 0 <= i < s.len() && s[i] == b;
        lemma_precedes_irreflexive(a);
        if ia < t.len() - 1 {
            assert(precedes(t[ia], t[t.len() - 1]));
            if ib < s.len() - 1 {
                assert(precedes(s[ib], s[s.len() - 1]));
                lemma_precedes_transitive(a, b, a);
            }
        }
        assert(a == b);
        let s1 = s.drop_last();
        let t1 = t.drop_last();
        lemma_ascending_distinct(s);
        lemma_ascending_distinct(t);
        assert forall|k: Seq<u8>| s1.to_set().contains(k) <==> t1.to_set().contains(k) by {
            if s1.contains(k) {
                let i = choose|i: int| 0 <= i < s1.len() && s1[i] == k;
                assert(s[i] == k);
                assert(s.contains(k));
                assert(s.to_set().contains(k));
                assert(t.contains(k));
                let j = choose|j: int| 0 <= j < t.len() && t[j] == k;
                assert(k != a);
                assert(t1[j] == k);
            }
            if t1.contains(k) {
                let i = choose|i: int| 0 <= i < t1.len() && t1[i] == k;
                assert(t[i] == k);
                assert(t.contains(k));
                assert(t.to_set().contains(k));
                assert(s.contains(k));
                let j = choose|j: int| 0 <= j < s.len() && s[j] == k;
                assert(k != b);
                assert(s1[j] == k);
            }
        }
        assert(s1.to_set() =~= t1.to_set());
        lemma_ascending_unique(s1, t1);
        assert(s =~= s1.push(a));
        assert(t =~= t1.push(b));
    }
}

/// A list of keys kept in strictly ascending order, so that membership is a
/// binary search.
#[derive(Debug)]
pub struct KeyList {
    keys: Vec<Vec<u8>>,
}

impl View for KeyList {
    type V = Seq<Seq<u8>>;

    closed spec fn view(&self) -> Seq<Seq<u8>> {
        key_views(self.keys@)
    }
}

impl KeyList {
    /// The list is strictly ascending.
    pub open spec fn wf(&self) -> bool {
        ascending(self@)
    }

    /// The keys as a set.
    pub open spec fn set(&self) -> Set<Seq<u8>> {
        self@.to_set()
    }

    pub fn new() -> (r: KeyList)
        ensures
            r.wf(),
            r@ == Seq::<Seq<u8>>::empty(),
            r.set() == Set::<Seq<u8>>::empty(),
    {
        let r = KeyList { keys: Vec::new() };
        assert(r@ =~= Seq::<Seq<u8>>::empty());
        assert(r@.to_set() =~= Set::<Seq<u8>>::empty());
        r
    }

    /// The list of the keys that `found` holds, in whatever order and
    /// however often it holds them: each once, in ascending order.
    pub fn from_keys(found: &Vec<Vec<u8>>) -> (list: KeyList)
        ensures
            list.wf(),
            list.set() == key_views(found@).to_set(),
    {
        let mut list = KeyList::new();
        let mut i: usize = 0;
        assert(key_views(found@).subrange(0, 0).to_set() =~= Set::<Seq<u8>>::empty());
        while i < found.len()
            invariant
                i <= found.len(),
                list.wf(),
                list.set() == key_views(found@).subrange(0, i as int).to_set(),
            decreases found.len() - i,
        {
            let ghost so_far = key_views(found@).subrange(0, i as int);
            let ghost next = key_views(found@).subrange(0, i + 1);
            list.insert(found[i].as_slice());
            proof {
                assert(next =~= so_far.push(found@[i as int]@));
                assert forall|k: Seq<u8>| next.to_set().contains(k) <==> so_far.to_set().insert(
                    found@[i as int]@,
                ).contains(k) by {
                    if next.contains(k) {
                        let j = choose|j: int| 0 <= j < next.len() && next[j] == k;
                        if j < i {
                            assert(so_far[j] == k);
                        }
                    }
                    if so_far.contains(k) {
                        let j = choose|j: int| 0 <= j < so_far.len() && so_far[j] == k;
                        assert(next[j] == k);
                    }
                    assert(next[i as int] == found@[i as int]@);
                }
                assert(next.to_set() =~= so_far.to_set().insert(found@[i as int]@));
            }
            i = i + 1;
        }
        assert(key_views(found@).subrange(0, i as int) =~= key_views(found@));
        list
    }

    pub fn len(&self) -> (n: usize)
        ensures
            n == self@.len(),
    {
        self.keys.len()
    }

    pub fn is_empty(&self) -> (r: bool)
        ensures
            r == (self@.len() == 0),
    {
        self.keys.len() == 0
    }

    /// Binary search: the place of `key` in the list, or the place at which
    /// it would have to be inserted.
    pub fn search(&self, key: &[u8]) -> (r: Result<usize, usize>)
        requires
            self.wf(),
        ensures
            match r {
                Ok(i) => i < self@.len() && self@[i as int] == key@,
                Err(i) => {
                    &&& i <= self@.len()
                    &&& !self@.contains(key@)
                    &&& forall|k: int| 0 <= k < i ==> precedes(#[trigger] self@[k], key@)
                    &&& forall|k: int| i <= k < self@.len() ==> precedes(key@, #[trigger] self@[k])
                },
            },
    {
        let mut lo: usize = 0;
        let mut hi: usize = self.keys.len();
        while lo < hi
            invariant
                lo <= hi <= self.keys.len(),
                self.wf(),
                forall|k: int| 0 <= k < lo ==> precedes(#[trigger] self@[k], key@),
                forall|k: int| hi <= k < self@.len() ==> precedes(key@, #[trigger] self@[k]),
            decreases hi - lo,
        {
            let mid: usize = lo + (hi - lo) / 2;
            assert(self@[mid as int] == self.keys@[mid as int]@);
            match key_order(self.keys[mid].as_slice(), key) {
                KeyOrder::Before => {
                    assert forall|k: int| 0 <= k < mid + 1 implies precedes(
                        #[trigger] self@[k],
                        key@,
                    ) by {
                        if k < mid {
                            assert(precedes(self@[k], self@[mid as int]));
                            lemma_precedes_transitive(self@[k], self@[mid as int], key@);
                        }
                    }
                    lo = mid + 1;
                },
                KeyOrder::Same => {
                    return Ok(mid);
                },
                KeyOrder::After => {
                    assert forall|k: int| mid <= k < self@.len() implies precedes(
                        key@,
                        #[trigger] self@[k],
                    ) by {
                        if k > mid {
                            assert(precedes(self@[mid as int], self@[k]));
                            lemma_precedes_transitive(key@, self@[mid as int], self@[k]);
                        }
                    }
                    hi = mid;
                },
            }
        }
        proof {
            lemma_precedes_irreflexive(key@);
            if self@.contains(key@) {
                let k = choose|k: int| 0 <= k < self@.len() && self@[k] == key@;
                if k < lo {
                    assert(precedes(self@[k], key@));
                } else {
                    assert(precedes(key@, self@[k]));
                }
            }
        }
        Err(lo)
    }

    /// Whether the list holds `key`.
    pub fn contains(&self, key: &[u8]) -> (r: bool)
        requires
            self.wf(),
        ensures
            r == self.set().contains(key@),
    {
        match self.search(key) {
            Ok(i) => {
                assert(self@.contains(key@));
                true
            },
            Err(_) => false,
        }
    }

    /// Adds `key` at its place. Returns whether the list changed, that is
    /// whether the key was new.
    pub fn insert(&mut self, key: &[u8]) -> (added: bool)
        requires
            old(self).wf(),
        ensures
            final(self).wf(),
            added == !old(self).set().contains(key@),
            final(self).set() == old(self).set().insert(key@),
            !added ==> final(self)@ == old(self)@,
    {
        match self.search(key) {
            Ok(i) => {
                assert(self@.contains(key@));
                assert(self.set().insert(key@) =~= self.set());
                false
            },
            Err(i) => {
                let ghost before = self@;
                self.keys.insert(i, slice_to_vec(key));
                assert(self@ =~= before.insert(i as int, key@));
                assert forall|a: int, b: int| 0 <= a < b < self@.len() implies precedes(
                    #[trigger] self@[a],
                    #[trigger] self@[b],
                ) by {
                    if b < i {
                        assert(precedes(before[a], before[b]));
                    } else if b == i {
                        assert(precedes(before[a], key@));
                    } else if a < i {
                        assert(precedes(before[a], before[b - 1]));
                    } else if a == i {
                        assert(precedes(key@, before[b - 1]));
                    } else {
                        assert(precedes(before[a - 1], before[b - 1]));
                    }
                }
                assert forall|k: Seq<u8>| self@.to_set().contains(k) <==> before.to_set().insert(
                    key@,
                ).contains(k) by {
                    if self@.contains(k) {
                        let j = choose|j: int| 0 <= j < self@.len() && self@[j] == k;
                        if j < i {
                            assert(before[j] == k);
                        } else if j > i {
                            assert(before[j - 1] == k);
                        }
                    }
                    if before.contains(k) {
                        let j = choose|j: int| 0 <= j < before.len() && before[j] == k;
                        if j < i {
                            assert(self@[j] == k);
                        } else {
                            assert(self@[j + 1] == k);
                        }
                    }
                    if k == key@ {
                        assert(self@[i as int] == k);
                    }
                }
                assert(self@.to_set() =~= before.to_set().insert(key@));
                true
            },
        }
    }

    /// Takes `key` out. Returns whether the list changed, that is whether
    /// it held the key.
    pub fn remove(&mut self, key: &[u8]) -> (removed: bool)
        requires
            old(self).wf(),
        ensures
            final(self).wf(),
            removed == old(self).set().contains(key@),
            final(self).set() == old(self).set().remove(key@),
            !removed ==> final(self)@ == old(self)@,
    {
        match self.search(key) {
            Ok(i) => {
                let ghost before = self@;
                proof {
                    lemma_ascending_distinct(before);
                }
                let _ = self.keys.remove(i);
                assert(self@ =~= before.remove(i as int));
                assert forall|a: int, b: int| 0 <= a < b < self@.len() implies precedes(
                    #[trigger] self@[a],
                    #[trigger] self@[b],
                ) by {
                    let a0 = if a < i { a } else { a + 1 };
                    let b0 = if b < i { b } else { b + 1 };
                    assert(precedes(before[a0], before[b0]));
                }
                assert forall|k: Seq<u8>| self@.to_set().contains(k) <==> before.to_set().remove(
                    key@,
                ).contains(k) by {
                    if self@.contains(k) {
                        let j = choose|j: int| 0 <= j < self@.len() && self@[j] == k;
                        let j0 = if j < i { j } else { j + 1 };
                        assert(before[j0] == k);
                        assert(before.contains(k));
                    }
                    if before.contains(k) && k != key@ {
                        let j = choose|j: int| 0 <= j < before.len() && before[j] == k;
                        if j < i {
                            assert(self@[j] == k);
                        } else {
                            assert(self@[j - 1] == k);
                        }
                    }
                }
                assert(self@.to_set() =~= before.to_set().remove(key@));
                assert(before.contains(key@));
                true
            },
            Err(_) => {
                assert(self.set().remove(key@) =~= self.set());
                false
            },
        }
    }

    /// A copy of the keys, in ascending order.
    pub fn to_vec(&self) -> (out: Vec<Vec<u8>>)
        ensures
            key_views(out@) == self@,
    {
        let mut out: Vec<Vec<u8>> = Vec::new();
        let mut i: usize = 0;
        while i < self.keys.len()
            invariant
                i <= self.keys.len(),
                out@.len() == i,
                forall|k: int| 0 <= k < i ==> out@[k]@ == self.keys@[k]@,
            decreases self.keys.len() - i,
        {
            out.push(slice_to_vec(self.keys[i].as_slice()));
            i = i + 1;
        }
        assert(key_views(out@) =~= self@);
        out
    }
}

} // verus!
