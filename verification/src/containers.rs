//! The in-memory container model: insertion-ordered sequence, ordered set,
//! ordered map, shared reference, and the key-value pair that gives map
//! entries a wire shape.

use vstd::prelude::*;
use crate::order::TotalOrd;
use std::rc::Rc;

verus! {

/// An insertion-ordered sequence that owns its elements; duplicates allowed.
pub struct Vector<T> {
    v: Vec<T>,
}

impl<T: View> View for Vector<T> {
    type V = Seq<T::V>;

    closed spec fn view(&self) -> Seq<T::V> {
        self.v@.map_values(|t: T| t@)
    }
}

impl<T: View> Vector<T> {
    pub fn new() -> (r: Self)
        ensures
            r@ == Seq::<T::V>::empty(),
    {
        let r = Vector { v: Vec::new() };
        proof {
            assert(r@ =~= Seq::<T::V>::empty());
        }
        r
    }

    pub fn with_capacity(n: usize) -> (r: Self)
        ensures
            r@ == Seq::<T::V>::empty(),
    {
        let r = Vector { v: Vec::with_capacity(n) };
        proof {
            assert(r@ =~= Seq::<T::V>::empty());
        }
        r
    }

    pub fn push(&mut self, t: T)
        ensures
            final(self)@ == old(self)@.push(t@),
    {
        self.v.push(t);
        proof {
            assert(self@ =~= old(self)@.push(t@));
        }
    }

    pub fn len(&self) -> (n: usize)
        ensures
            n == self@.len(),
    {
        self.v.len()
    }

    pub fn get(&self, i: usize) -> (r: &T)
        requires
            i < self@.len(),
        ensures
            r@ == self@[i as int],
    {
        &self.v[i]
    }
}

/// A shared, reference-counted handle to one value.  On the wire it is
/// invisible: it encodes and decodes exactly as the inner value.
pub struct Ref<T> {
    x: Rc<T>,
}

impl<T: View> View for Ref<T> {
    type V = T::V;

    closed spec fn view(&self) -> T::V {
        self.x@
    }
}

impl<T: View> Ref<T> {
    pub fn from(t: T) -> (r: Self)
        ensures
            r@ == t@,
    {
        Ref { x: Rc::new(t) }
    }

    pub fn get(&self) -> (r: &T)
        ensures
            r@ == self@,
    {
        &*self.x
    }
}

impl<T: View> Clone for Ref<T> {
    fn clone(&self) -> (r: Self)
        ensures
            r@ == self@,
    {
        Ref { x: Rc::clone(&self.x) }
    }
}

/// A key-value pair; it only gives map entries a concrete element shape on
/// the wire.
pub struct Pair<K, U> {
    pub key: K,
    pub val: U,
}

impl<K: View, U: View> View for Pair<K, U> {
    type V = (K::V, U::V);

    open spec fn view(&self) -> (K::V, U::V) {
        (self.key@, self.val@)
    }
}

/// Elements strictly ascending in the element order: sort order with no
/// duplicates.
pub open spec fn sorted_strict<T: TotalOrd>(s: Seq<T::V>) -> bool {
    forall|i: int, j: int|
        0 <= i < j < s.len() ==> T::le_spec(#[trigger] s[i], #[trigger] s[j]) && s[i] != s[j]
}

/// Where an element lands when inserted into a sorted, duplicate-free
/// sequence: before the first element it does not strictly exceed; an equal
/// element is collapsed, keeping the stored one.
pub open spec fn set_insert<T: TotalOrd>(s: Seq<T::V>, x: T::V) -> Seq<T::V>
    decreases s.len(),
{
    if s.len() == 0 {
        seq![x]
    } else if !T::le_spec(x, s[0]) {
        seq![s[0]] + set_insert::<T>(s.drop_first(), x)
    } else if T::le_spec(s[0], x) {
        s
    } else {
        seq![x] + s
    }
}

pub proof fn lemma_set_insert_skip<T: TotalOrd>(s: Seq<T::V>, x: T::V, i: int)
    requires
        0 <= i <= s.len(),
        forall|k: int| 0 <= k < i ==> !T::le_spec(x, #[trigger] s[k]),
    ensures
        set_insert::<T>(s, x) == s.take(i) + set_insert::<T>(s.skip(i), x),
    decreases i,
{
    if i == 0 {
        assert(s.skip(0) =~= s);
        assert(s.take(0) + set_insert::<T>(s.skip(0), x) =~= set_insert::<T>(s, x));
    } else {
        assert(!T::le_spec(x, s[0]));
        lemma_set_insert_skip::<T>(s.drop_first(), x, i - 1);
        assert(s.drop_first().take(i - 1) =~= s.take(i).drop_first());
        assert(s.drop_first().skip(i - 1) =~= s.skip(i));
        assert(seq![s[0]] + (s.take(i).drop_first() + set_insert::<T>(s.skip(i), x)) =~= s.take(i)
            + set_insert::<T>(s.skip(i), x));
    }
}

pub proof fn lemma_set_insert_sorted<T: TotalOrd>(s: Seq<T::V>, x: T::V)
    requires
        sorted_strict::<T>(s),
    ensures
        sorted_strict::<T>(set_insert::<T>(s, x)),
        forall|y: T::V| #[trigger] set_insert::<T>(s, x).contains(y) <==> s.contains(y) || y == x,
    decreases s.len(),
{
    let r = set_insert::<T>(s, x);
    if s.len() == 0 {
        assert(forall|y: T::V| r.contains(y) ==> y == x);
        assert(r[0] == x);
        assert(r.contains(x));
    } else if !T::le_spec(x, s[0]) {
        let tail = s.drop_first();
        assert(sorted_strict::<T>(tail)) by {
            assert(forall|i: int, j: int|
                0 <= i < j < tail.len() ==> #[trigger] tail[i] == s[i + 1] && #[trigger] tail[j]
                    == s[j + 1]);
        }
        lemma_set_insert_sorted::<T>(tail, x);
        let rt = set_insert::<T>(tail, x);
        assert(r =~= seq![s[0]] + rt);
        T::lemma_total(x, s[0]);
        assert(T::le_spec(s[0], x));
        assert(forall|y: T::V| rt.contains(y) ==> T::le_spec(s[0], y) && s[0] != y) by {
            assert(forall|y: T::V| #[trigger] rt.contains(y) ==> tail.contains(y) || y == x);
            assert(forall|j: int|
                0 <= j < tail.len() ==> T::le_spec(s[0], #[trigger] tail[j]) && s[0] != tail[j]);
            assert forall|y: T::V| rt.contains(y) implies T::le_spec(s[0], y) && s[0] != y by {
                if tail.contains(y) {
                    let j = choose|j: int| 0 <= j < tail.len() && tail[j] == y;
                } else {
                    assert(y == x);
                    assert(s[0] != x) by {
                        T::lemma_antisym(x, s[0]);
                    }
                }
            }
        }
        assert(sorted_strict::<T>(r)) by {
            assert(forall|i: int, j: int|
                1 <= i < j < r.len() ==> #[trigger] r[i] == rt[i - 1] && #[trigger] r[j] == rt[j
                    - 1]);
            assert(forall|j: int| 1 <= j < r.len() ==> rt.contains(#[trigger] r[j]));
        }
        assert forall|y: T::V| r.contains(y) implies s.contains(y) || y == x by {
            let j = choose|j: int| 0 <= j < r.len() && r[j] == y;
            if j == 0 {
                assert(s[0] == y);
                assert(s.contains(y));
            } else {
                assert(rt[j - 1] == y);
                assert(rt.contains(y));
                if tail.contains(y) {
                    let m = choose|m: int| 0 <= m < tail.len() && tail[m] == y;
                    assert(s[m + 1] == y);
                    assert(s.contains(y));
                }
            }
        }
        assert forall|y: T::V| s.contains(y) || y == x implies r.contains(y) by {
            if y == x {
                assert(set_insert::<T>(tail, x).contains(x) <==> tail.contains(x) || x == x);
                assert(rt.contains(x));
                let m = choose|m: int| 0 <= m < rt.len() && rt[m] == x;
                assert(r[m + 1] == x);
                assert(r.contains(y));
            } else {
                let j = choose|j: int| 0 <= j < s.len() && s[j] == y;
                if j == 0 {
                    assert(r[0] == y);
                    assert(r.contains(y));
                } else {
                    assert(tail[j - 1] == y);
                    assert(tail.contains(y));
                    assert(rt.contains(y));
                    let m = choose|m: int| 0 <= m < rt.len() && rt[m] == y;
                    assert(r[m + 1] == y);
                    assert(r.contains(y));
                }
            }
        }
    } else if T::le_spec(s[0], x) {
        T::lemma_antisym(x, s[0]);
        assert(x == s[0]);
        assert(r == s);
        assert(s.contains(s[0]));
    } else {
        assert(r =~= seq![x] + s);
        assert(forall|i: int, j: int|
            1 <= i < j < r.len() ==> #[trigger] r[i] == s[i - 1] && #[trigger] r[j] == s[j - 1]);
        assert(sorted_strict::<T>(r)) by {
            assert forall|j: int| 1 <= j < r.len() implies T::le_spec(x, r[j]) && x != r[j] by {
                assert(r[j] == s[j - 1]);
                if j == 1 {
                    assert(T::le_spec(x, s[0]));
                } else {
                    assert(T::le_spec(s[0], s[j - 1]) && s[0] != s[j - 1]);
                    T::lemma_trans(x, s[0], s[j - 1]);
                }
                assert(x != s[j - 1]) by {
                    T::lemma_antisym(s[0], x);
                    if j > 1 {
                        if x == s[j - 1] {
                            T::lemma_antisym(x, s[0]);
                        }
                    }
                }
            }
        }
        assert(forall|y: T::V| r.contains(y) <==> s.contains(y) || y == x) by {
            assert(forall|y: T::V| #[trigger] s.contains(y) ==> r.contains(y)) by {
                assert forall|y: T::V| s.contains(y) implies r.contains(y) by {
                    let j = choose|j: int| 0 <= j < s.len() && s[j] == y;
                    assert(r[j + 1] == y);
                }
            }
            assert(forall|y: T::V| #[trigger] r.contains(y) ==> y == x || s.contains(y)) by {
                assert forall|y: T::V| r.contains(y) && y != x implies s.contains(y) by {
                    let j = choose|j: int| 0 <= j < r.len() && r[j] == y;
                    assert(s[j - 1] == y);
                }
            }
            assert(r.contains(r[0]));
        }
    }
}

/// An ordered set: unique elements, iteration order equals sort order.
pub struct OrdSet<T> {
    v: Vec<T>,
}

impl<T: TotalOrd> View for OrdSet<T> {
    type V = Seq<T::V>;

    closed spec fn view(&self) -> Seq<T::V> {
        self.v@.map_values(|t: T| t@)
    }
}

impl<T: TotalOrd> OrdSet<T> {
    pub open spec fn wf(&self) -> bool {
        sorted_strict::<T>(self@)
    }

    pub fn new() -> (r: Self)
        ensures
            r@ == Seq::<T::V>::empty(),
            r.wf(),
    {
        let r = OrdSet { v: Vec::new() };
        proof {
            assert(r@ =~= Seq::<T::V>::empty());
        }
        r
    }

    pub fn len(&self) -> (n: usize)
        ensures
            n == self@.len(),
    {
        self.v.len()
    }

    pub fn get(&self, i: usize) -> (r: &T)
        requires
            i < self@.len(),
        ensures
            r@ == self@[i as int],
    {
        &self.v[i]
    }

    /// The first position whose element the new one does not strictly exceed.
    fn find_slot(&self, x: &T) -> (i: usize)
        ensures
            i <= self@.len(),
            forall|k: int| 0 <= k < i ==> !T::le_spec(x@, #[trigger] self@[k]),
            i < self@.len() ==> T::le_spec(x@, self@[i as int]),
    {
        let mut i: usize = 0;
        while i < self.v.len()
            invariant
                i <= self.v.len(),
                forall|k: int| 0 <= k < i ==> !T::le_spec(x@, #[trigger] self@[k]),
            decreases self.v.len() - i,
        {
            proof {
                assert(self@[i as int] == self.v@.map_values(|t: T| t@)[i as int]);
            }
            if x.le(&self.v[i]) {
                return i;
            }
            i += 1;
        }
        i
    }

    /// Inserts an element; an element equal in the order collapses into the
    /// one already stored.
    pub fn insert(&mut self, x: T)
        requires
            old(self).wf(),
        ensures
            final(self).wf(),
            final(self)@ == set_insert::<T>(old(self)@, x@),
    {
        let ghost s = self@;
        let ghost xv = x@;
        let i = self.find_slot(&x);
        proof {
            lemma_set_insert_skip::<T>(s, xv, i as int);
        }
        if i < self.v.len() && self.v[i].le(&x) {
            proof {
                assert(s.skip(i as int)[0] == s[i as int]);
                assert(s[i as int] == self.v@.map_values(|t: T| t@)[i as int]);
                assert(set_insert::<T>(s.skip(i as int), xv) == s.skip(i as int));
                assert(s.take(i as int) + s.skip(i as int) =~= s);
            }
        } else {
            proof {
                if i < self.v.len() {
                    assert(s.skip(i as int)[0] == s[i as int]);
                    assert(s[i as int] == self.v@.map_values(|t: T| t@)[i as int]);
                    assert(set_insert::<T>(s.skip(i as int), xv) =~= seq![xv] + s.skip(i as int));
                } else {
                    assert(s.skip(i as int).len() == 0);
                    assert(set_insert::<T>(s.skip(i as int), xv) =~= seq![xv] + s.skip(i as int));
                }
            }
            self.v.insert(i, x);
            proof {
                assert(self@ =~= s.take(i as int) + (seq![xv] + s.skip(i as int)));
            }
        }
        proof {
            lemma_set_insert_sorted::<T>(s, xv);
        }
    }
}

/// Strictly ascending keys: key sort order with no duplicate keys.
pub open spec fn sorted_keys<K: TotalOrd, W>(s: Seq<(K::V, W)>) -> bool {
    forall|i: int, j: int|
        0 <= i < j < s.len() ==> K::le_spec(#[trigger] s[i].0, #[trigger] s[j].0) && s[i].0
            != s[j].0
}

/// Where a pair lands when inserted by key into a key-sorted sequence; a pair
/// with an equal key is replaced — the inserted pair wins.
pub open spec fn map_insert<K: TotalOrd, W>(s: Seq<(K::V, W)>, k: K::V, w: W) -> Seq<(K::V, W)>
    decreases s.len(),
{
    if s.len() == 0 {
        seq![(k, w)]
    } else if !K::le_spec(k, s[0].0) {
        seq![s[0]] + map_insert::<K, W>(s.drop_first(), k, w)
    } else if K::le_spec(s[0].0, k) {
        seq![(k, w)] + s.drop_first()
    } else {
        seq![(k, w)] + s
    }
}

pub proof fn lemma_map_insert_skip<K: TotalOrd, W>(s: Seq<(K::V, W)>, k: K::V, w: W, i: int)
    requires
        0 <= i <= s.len(),
        forall|j: int| 0 <= j < i ==> !K::le_spec(k, #[trigger] s[j].0),
    ensures
        map_insert::<K, W>(s, k, w) == s.take(i) + map_insert::<K, W>(s.skip(i), k, w),
    decreases i,
{
    if i == 0 {
        assert(s.skip(0) =~= s);
        assert(s.take(0) + map_insert::<K, W>(s.skip(0), k, w) =~= map_insert::<K, W>(s, k, w));
    } else {
        assert(!K::le_spec(k, s[0].0));
        lemma_map_insert_skip::<K, W>(s.drop_first(), k, w, i - 1);
        assert(s.drop_first().take(i - 1) =~= s.take(i).drop_first());
        assert(s.drop_first().skip(i - 1) =~= s.skip(i));
        assert(seq![s[0]] + (s.take(i).drop_first() + map_insert::<K, W>(s.skip(i), k, w))
            =~= s.take(i) + map_insert::<K, W>(s.skip(i), k, w));
    }
}

pub proof fn lemma_map_insert_sorted<K: TotalOrd, W>(s: Seq<(K::V, W)>, k: K::V, w: W)
    requires
        sorted_keys::<K, W>(s),
    ensures
        sorted_keys::<K, W>(map_insert::<K, W>(s, k, w)),
    decreases s.len(),
{
    let r = map_insert::<K, W>(s, k, w);
    if s.len() == 0 {
    } else if !K::le_spec(k, s[0].0) {
        let tail = s.drop_first();
        assert(sorted_keys::<K, W>(tail)) by {
            assert(forall|i: int, j: int|
                0 <= i < j < tail.len() ==> #[trigger] tail[i] == s[i + 1] && #[trigger] tail[j]
                    == s[j + 1]);
        }
        lemma_map_insert_sorted::<K, W>(tail, k, w);
        let rt = map_insert::<K, W>(tail, k, w);
        assert(r =~= seq![s[0]] + rt);
        K::lemma_total(k, s[0].0);
        assert(forall|j: int|
            0 <= j < rt.len() ==> K::le_spec(s[0].0, #[trigger] rt[j].0) && s[0].0 != rt[j].0)
            by {
            lemma_map_insert_membership::<K, W>(tail, k, w);
            assert forall|j: int| 0 <= j < rt.len() implies K::le_spec(s[0].0, rt[j].0) && s[0].0
                != rt[j].0 by {
                if rt[j].0 == k {
                    assert(K::le_spec(s[0].0, k));
                    assert(s[0].0 != k) by {
                        K::lemma_antisym(k, s[0].0);
                    }
                } else {
                    let m = choose|m: int| 0 <= m < tail.len() && tail[m].0 == rt[j].0;
                    assert(s[m + 1].0 == rt[j].0);
                }
            }
        }
        assert(sorted_keys::<K, W>(r)) by {
            assert(forall|i: int, j: int|
                1 <= i < j < r.len() ==> #[trigger] r[i] == rt[i - 1] && #[trigger] r[j] == rt[j
                    - 1]);
        }
    } else if K::le_spec(s[0].0, k) {
        K::lemma_antisym(k, s[0].0);
        assert(k == s[0].0);
        let tail = s.drop_first();
        assert(r =~= seq![(k, w)] + tail);
        assert(forall|i: int, j: int|
            1 <= i < j < r.len() ==> #[trigger] r[i] == tail[i - 1] && #[trigger] r[j] == tail[j
                - 1]);
        assert(forall|i: int, j: int|
            1 <= i < j < r.len() ==> #[trigger] r[i] == s[i] && #[trigger] r[j] == s[j]);
        assert(sorted_keys::<K, W>(r)) by {
            assert(forall|j: int| 1 <= j < r.len() ==> r[j] == s[j]);
        }
    } else {
        K::lemma_total(k, s[0].0);
        assert(r =~= seq![(k, w)] + s);
        assert(forall|i: int, j: int|
            1 <= i < j < r.len() ==> #[trigger] r[i] == s[i - 1] && #[trigger] r[j] == s[j - 1]);
        assert(sorted_keys::<K, W>(r)) by {
            assert forall|j: int| 1 <= j < r.len() implies K::le_spec(k, r[j].0) && k != r[j].0 by {
                assert(r[j] == s[j - 1]);
                if j == 1 {
                } else {
                    assert(K::le_spec(s[0].0, s[j - 1].0) && s[0].0 != s[j - 1].0);
                    K::lemma_trans(k, s[0].0, s[j - 1].0);
                }
                if k == s[j - 1].0 {
                    if j == 1 {
                        assert(K::le_spec(s[0].0, k));
                        K::lemma_antisym(k, s[0].0);
                    } else {
                        K::lemma_antisym(k, s[0].0);
                    }
                }
            }
        }
    }
}

/// Every key of the inserted sequence is an old key or the new one.
pub proof fn lemma_map_insert_membership<K: TotalOrd, W>(s: Seq<(K::V, W)>, k: K::V, w: W)
    ensures
        forall|j: int|
            0 <= j < map_insert::<K, W>(s, k, w).len() ==> (#[trigger] map_insert::<K, W>(
                s,
                k,
                w,
            )[j].0 == k || exists|m: int| 0 <= m < s.len() && s[m].0 == map_insert::<K, W>(s, k, w)[j].0),
    decreases s.len(),
{
    let r = map_insert::<K, W>(s, k, w);
    if s.len() == 0 {
    } else if !K::le_spec(k, s[0].0) {
        let tail = s.drop_first();
        lemma_map_insert_membership::<K, W>(tail, k, w);
        let rt = map_insert::<K, W>(tail, k, w);
        assert forall|j: int| 0 <= j < r.len() implies (r[j].0 == k || exists|m: int|
            0 <= m < s.len() && s[m].0 == r[j].0) by {
            if j == 0 {
                assert(r[0] == s[0]);
            } else {
                assert(r[j] == rt[j - 1]);
                if rt[j - 1].0 != k {
                    let m = choose|m: int| 0 <= m < tail.len() && tail[m].0 == rt[j - 1].0;
                    assert(s[m + 1].0 == r[j].0);
                }
            }
        }
    } else if K::le_spec(s[0].0, k) {
        let tail = s.drop_first();
        assert forall|j: int| 0 <= j < r.len() implies (r[j].0 == k || exists|m: int|
            0 <= m < s.len() && s[m].0 == r[j].0) by {
            if j > 0 {
                assert(r[j] == tail[j - 1]);
                assert(s[j].0 == r[j].0);
            }
        }
    } else {
        assert forall|j: int| 0 <= j < r.len() implies (r[j].0 == k || exists|m: int|
            0 <= m < s.len() && s[m].0 == r[j].0) by {
            if j > 0 {
                assert(r[j] == s[j - 1]);
                assert(s[j - 1].0 == r[j].0);
            }
        }
    }
}

/// An ordered map: unique keys, iteration order equals key sort order, last
/// insert for a key wins.
pub struct OrdMap<K, U> {
    v: Vec<Pair<K, U>>,
}

impl<K: TotalOrd, U: View> View for OrdMap<K, U> {
    type V = Seq<(K::V, U::V)>;

    closed spec fn view(&self) -> Seq<(K::V, U::V)> {
        self.v@.map_values(|p: Pair<K, U>| p@)
    }
}

impl<K: TotalOrd, U: View> OrdMap<K, U> {
    pub open spec fn wf(&self) -> bool {
        sorted_keys::<K, U::V>(self@)
    }

    pub fn new() -> (r: Self)
        ensures
            r@ == Seq::<(K::V, U::V)>::empty(),
            r.wf(),
    {
        let r = OrdMap { v: Vec::new() };
        proof {
            assert(r@ =~= Seq::<(K::V, U::V)>::empty());
        }
        r
    }

    pub fn len(&self) -> (n: usize)
        ensures
            n == self@.len(),
    {
        self.v.len()
    }

    pub fn get(&self, i: usize) -> (r: &Pair<K, U>)
        requires
            i < self@.len(),
        ensures
            r@ == self@[i as int],
    {
        &self.v[i]
    }

    /// The first position whose key the new one does not strictly exceed.
    fn find_slot(&self, k: &K) -> (i: usize)
        ensures
            i <= self@.len(),
            forall|m: int| 0 <= m < i ==> !K::le_spec(k@, #[trigger] self@[m].0),
            i < self@.len() ==> K::le_spec(k@, self@[i as int].0),
    {
        let mut i: usize = 0;
        while i < self.v.len()
            invariant
                i <= self.v.len(),
                forall|m: int| 0 <= m < i ==> !K::le_spec(k@, #[trigger] self@[m].0),
            decreases self.v.len() - i,
        {
            proof {
                assert(self@[i as int] == self.v@.map_values(|p: Pair<K, U>| p@)[i as int]);
            }
            if k.le(&self.v[i].key) {
                return i;
            }
            i += 1;
        }
        i
    }

    /// Inserts a pair by key; for an equal key the inserted value wins.
    pub fn insert(&mut self, k: K, u: U)
        requires
            old(self).wf(),
        ensures
            final(self).wf(),
            final(self)@ == map_insert::<K, U::V>(old(self)@, k@, u@),
    {
        let ghost s = self@;
        let ghost kv = k@;
        let ghost uv = u@;
        let i = self.find_slot(&k);
        proof {
            lemma_map_insert_skip::<K, U::V>(s, kv, uv, i as int);
        }
        if i < self.v.len() && self.v[i].key.le(&k) {
            proof {
                assert(s[i as int] == self.v@.map_values(|p: Pair<K, U>| p@)[i as int]);
            }
            self.v[i] = Pair { key: k, val: u };
            proof {
                assert(s.skip(i as int)[0] == s[i as int]);
                assert(map_insert::<K, U::V>(s.skip(i as int), kv, uv) =~= seq![(kv, uv)]
                    + s.skip(i as int).drop_first());
                assert(s.skip(i as int).drop_first() =~= s.skip(i as int + 1));
                assert(self@ =~= s.take(i as int) + (seq![(kv, uv)] + s.skip(i as int + 1)));
            }
        } else {
            proof {
                if i < self.v.len() {
                    assert(s.skip(i as int)[0] == s[i as int]);
                    assert(s[i as int] == self.v@.map_values(|p: Pair<K, U>| p@)[i as int]);
                    assert(map_insert::<K, U::V>(s.skip(i as int), kv, uv) =~= seq![(kv, uv)]
                        + s.skip(i as int));
                } else {
                    assert(s.skip(i as int).len() == 0);
                    assert(map_insert::<K, U::V>(s.skip(i as int), kv, uv) =~= seq![(kv, uv)]
                        + s.skip(i as int));
                }
            }
            self.v.insert(i, Pair { key: k, val: u });
            proof {
                assert(self@ =~= s.take(i as int) + (seq![(kv, uv)] + s.skip(i as int)));
            }
        }
        proof {
            lemma_map_insert_sorted::<K, U::V>(s, kv, uv);
        }
    }
}

} // verus!
