//! The laws the adapters obey, proved once and for all: round trips for
//! sequence, set and map; sort-order wire form; last-insert-wins for
//! duplicate keys; whole-container failure on one malformed element; and
//! the error-free scalar bulk path.

use vstd::prelude::*;
use crate::adapters::{
    decode_elems, decode_map, decode_set, lemma_decode_elems_prefix_err, models_of, scalars_of,
    set_fold, texts_of,
};
use crate::containers::{
    map_insert, set_insert, sorted_keys, sorted_strict, OrdSet, Pair, Vector,
};
use crate::convert::{esc, esc_char, split_pair, FromFlatBuffer};
use crate::order::TotalOrd;

verus! {

/// Appending an element strictly above everything in a sorted sequence is
/// a plain push.
pub proof fn lemma_set_insert_at_end<T: TotalOrd>(t: Seq<T::V>, x: T::V)
    requires
        forall|j: int| 0 <= j < t.len() ==> T::le_spec(#[trigger] t[j], x) && t[j] != x,
    ensures
        set_insert::<T>(t, x) == t.push(x),
    decreases t.len(),
{
    if t.len() == 0 {
        assert(set_insert::<T>(t, x) =~= t.push(x));
    } else {
        assert(!T::le_spec(x, t[0])) by {
            T::lemma_antisym(x, t[0]);
        }
        assert(forall|j: int|
            0 <= j < t.drop_first().len() ==> #[trigger] t.drop_first()[j] == t[j + 1]);
        lemma_set_insert_at_end::<T>(t.drop_first(), x);
        assert(set_insert::<T>(t, x) =~= seq![t[0]] + t.drop_first().push(x));
        assert(seq![t[0]] + t.drop_first().push(x) =~= t.push(x));
    }
}

/// The pair analogue: a key strictly above all stored keys lands at the end.
pub proof fn lemma_map_insert_at_end<K: TotalOrd, W>(t: Seq<(K::V, W)>, k: K::V, w: W)
    requires
        forall|j: int| 0 <= j < t.len() ==> K::le_spec(#[trigger] t[j].0, k) && t[j].0 != k,
    ensures
        map_insert::<K, W>(t, k, w) == t.push((k, w)),
    decreases t.len(),
{
    if t.len() == 0 {
        assert(map_insert::<K, W>(t, k, w) =~= t.push((k, w)));
    } else {
        assert(!K::le_spec(k, t[0].0)) by {
            K::lemma_antisym(k, t[0].0);
        }
        assert(forall|j: int|
            0 <= j < t.drop_first().len() ==> #[trigger] t.drop_first()[j] == t[j + 1]);
        lemma_map_insert_at_end::<K, W>(t.drop_first(), k, w);
        assert(map_insert::<K, W>(t, k, w) =~= seq![t[0]] + t.drop_first().push((k, w)));
        assert(seq![t[0]] + t.drop_first().push((k, w)) =~= t.push((k, w)));
    }
}

/// A sequence of scalars goes onto the wire unchanged.
pub proof fn lemma_scalar_wire_identity(s: Seq<u64>)
    ensures
        scalars_of(models_of::<u64>(s)) == s,
{
    assert(scalars_of(models_of::<u64>(s)) =~= s);
}

/// A sequence of strings goes onto the wire unchanged.
pub proof fn lemma_string_wire_identity(s: Seq<Seq<char>>)
    ensures
        texts_of(models_of::<String>(s)) == s,
{
    assert(texts_of(models_of::<String>(s)) =~= s);
}

/// Round trip for an ordered sequence of scalars: what a written buffer
/// holds is the sequence's own view, and reading that row back yields it
/// unchanged — same length, same order, same values.  The scalar bulk read
/// never fails.
pub proof fn lemma_sequence_round_trip(s: Seq<u64>)
    ensures
        scalars_of(models_of::<u64>(s)) == s,
        <Vector<u64> as FromFlatBuffer<&'static [u64]>>::from_wire(s) == Ok::<
            Seq<u64>,
            Seq<char>,
        >(s),
{
    lemma_scalar_wire_identity(s);
}

/// The scalar bulk path never raises a per-element error: reading any
/// scalar row into a sequence or a set succeeds.
pub proof fn lemma_scalar_bulk_no_error(s: Seq<u64>)
    ensures
        <Vector<u64> as FromFlatBuffer<&'static [u64]>>::from_wire(s) is Ok,
        <OrdSet<u64> as FromFlatBuffer<&'static [u64]>>::from_wire(s) is Ok,
{
}

/// Rebuilding a set from its own sorted row gives back the same row.
pub proof fn lemma_set_fold_sorted(s: Seq<u64>)
    requires
        sorted_strict::<u64>(s),
    ensures
        set_fold(s) == s,
    decreases s.len(),
{
    if s.len() == 0 {
        assert(set_fold(s) =~= s);
    } else {
        let t = s.drop_last();
        assert(forall|i: int, j: int|
            0 <= i < j < t.len() ==> #[trigger] t[i] == s[i] && #[trigger] t[j] == s[j]);
        lemma_set_fold_sorted(t);
        assert(forall|j: int| 0 <= j < t.len() ==> #[trigger] t[j] == s[j]);
        lemma_set_insert_at_end::<u64>(t, s.last());
        assert(t.push(s.last()) =~= s);
    }
}

/// Round trip for an ordered set of scalars: the wire row is the set's
/// sorted view — sort order whatever the build order was — and reading it
/// back rebuilds exactly that view: identical membership.
pub proof fn lemma_set_round_trip(s: Seq<u64>)
    requires
        sorted_strict::<u64>(s),
    ensures
        scalars_of(models_of::<u64>(s)) == s,
        <OrdSet<u64> as FromFlatBuffer<&'static [u64]>>::from_wire(s) == Ok::<
            Seq<u64>,
            Seq<char>,
        >(s),
{
    lemma_scalar_wire_identity(s);
    lemma_set_fold_sorted(s);
}

/// Rebuilding a string set from its own sorted row gives back the row.
pub proof fn lemma_decode_set_sorted(ss: Seq<Seq<char>>)
    requires
        sorted_strict::<String>(ss),
    ensures
        decode_set::<String>(ss) == Ok::<Seq<Seq<char>>, Seq<char>>(ss),
    decreases ss.len(),
{
    if ss.len() == 0 {
        assert(decode_set::<String>(ss) == Ok::<Seq<Seq<char>>, Seq<char>>(Seq::empty()));
        assert(Seq::<Seq<char>>::empty() =~= ss);
    } else {
        let t = ss.drop_last();
        assert(forall|i: int, j: int|
            0 <= i < j < t.len() ==> #[trigger] t[i] == ss[i] && #[trigger] t[j] == ss[j]);
        lemma_decode_set_sorted(t);
        assert(forall|j: int| 0 <= j < t.len() ==> #[trigger] t[j] == ss[j]);
        lemma_set_insert_at_end::<String>(t, ss.last());
        assert(t.push(ss.last()) =~= ss);
    }
}

/// Round trip for an ordered set of strings, as the scalar version.
pub proof fn lemma_string_set_round_trip(ss: Seq<Seq<char>>)
    requires
        sorted_strict::<String>(ss),
    ensures
        texts_of(models_of::<String>(ss)) == ss,
        decode_set::<String>(ss) == Ok::<Seq<Seq<char>>, Seq<char>>(ss),
{
    lemma_string_wire_identity(ss);
    lemma_decode_set_sorted(ss);
}

/// The wire text of one key-value pair splits back into exactly that pair,
/// for every key and value: the escaped encoding is injective.
pub proof fn lemma_pair_round_trip(k: Seq<char>, v: Seq<char>)
    ensures
        Pair::<String, String>::from_wire(esc(k) + seq!['='] + v) == Ok::<
            (Seq<char>, Seq<char>),
            Seq<char>,
        >((k, v)),
    decreases k.len(),
{
    let m = esc(k) + seq!['='] + v;
    if k.len() == 0 {
        assert(esc(k).len() == 0);
        assert(m[0] == '=');
        assert(m.drop_first() =~= v);
        assert(split_pair(m) == Ok::<(Seq<char>, Seq<char>), Seq<char>>((Seq::empty(), v)));
        assert(Seq::<char>::empty() =~= k);
    } else {
        let c = k[0];
        let kt = k.drop_first();
        lemma_pair_round_trip(kt, v);
        let mt = esc(kt) + seq!['='] + v;
        assert(esc(k) == esc_char(c) + esc(kt));
        if c == '=' || c == '\\' {
            assert(m[0] == '\\');
            assert(m[1] == c);
            assert(m.len() >= 2);
            assert(m.skip(2) =~= mt);
            assert(split_pair(m) == Ok::<(Seq<char>, Seq<char>), Seq<char>>((
                seq![c] + kt,
                v,
            )));
            assert(seq![c] + kt =~= k);
        } else {
            assert(m[0] == c);
            assert(m.drop_first() =~= mt);
            assert(split_pair(m) == Ok::<(Seq<char>, Seq<char>), Seq<char>>((
                seq![c] + kt,
                v,
            )));
            assert(seq![c] + kt =~= k);
        }
    }
}

/// The wire rows a map's pairs become.
pub open spec fn pair_texts(s: Seq<(Seq<char>, Seq<char>)>) -> Seq<Seq<char>> {
    s.map_values(|p: (Seq<char>, Seq<char>)| esc(p.0) + seq!['='] + p.1)
}

/// A map's pairs go onto the wire as key, separator, value.
pub proof fn lemma_map_wire_identity(s: Seq<(Seq<char>, Seq<char>)>)
    ensures
        texts_of(models_of::<Pair<String, String>>(s)) == pair_texts(s),
{
    assert(texts_of(models_of::<Pair<String, String>>(s)) =~= pair_texts(s));
}

/// Round trip for any ordered map: the wire rows are the pairs in key
/// order, and reading them back reproduces exactly the same key-value
/// associations.
pub proof fn lemma_map_round_trip(s: Seq<(Seq<char>, Seq<char>)>)
    requires
        sorted_keys::<String, Seq<char>>(s),
    ensures
        texts_of(models_of::<Pair<String, String>>(s)) == pair_texts(s),
        decode_map::<String, String>(pair_texts(s)) == Ok::<
            Seq<(Seq<char>, Seq<char>)>,
            Seq<char>,
        >(s),
    decreases s.len(),
{
    lemma_map_wire_identity(s);
    if s.len() == 0 {
        assert(pair_texts(s).len() == 0);
        assert(decode_map::<String, String>(pair_texts(s)) == Ok::<
            Seq<(Seq<char>, Seq<char>)>,
            Seq<char>,
        >(Seq::empty()));
        assert(Seq::<(Seq<char>, Seq<char>)>::empty() =~= s);
    } else {
        let t = s.drop_last();
        let ts = pair_texts(s);
        assert(forall|i: int, j: int|
            0 <= i < j < t.len() ==> #[trigger] t[i] == s[i] && #[trigger] t[j] == s[j]);
        lemma_map_round_trip(t);
        assert(ts.drop_last() =~= pair_texts(t));
        assert(ts.last() == esc(s.last().0) + seq!['='] + s.last().1);
        lemma_pair_round_trip(s.last().0, s.last().1);
        assert(forall|j: int| 0 <= j < t.len() ==> #[trigger] t[j] == s[j]);
        lemma_map_insert_at_end::<String, Seq<char>>(t, s.last().0, s.last().1);
        assert(t.push((s.last().0, s.last().1)) =~= s);
    }
}

/// An inserted pair is present in the result.
pub proof fn lemma_map_insert_has<K: TotalOrd, W>(s: Seq<(K::V, W)>, k: K::V, w: W)
    ensures
        exists|j: int|
            0 <= j < map_insert::<K, W>(s, k, w).len() && map_insert::<K, W>(s, k, w)[j] == (k, w),
    decreases s.len(),
{
    let r = map_insert::<K, W>(s, k, w);
    if s.len() == 0 {
        assert(r[0] == (k, w));
    } else if !K::le_spec(k, s[0].0) {
        lemma_map_insert_has::<K, W>(s.drop_first(), k, w);
        let rt = map_insert::<K, W>(s.drop_first(), k, w);
        let j = choose|j: int| 0 <= j < rt.len() && rt[j] == (k, w);
        assert(r[j + 1] == (k, w));
    } else {
        assert(r[0] == (k, w));
    }
}

/// Inserting twice under one key before writing leaves only the later
/// value in the written form: the result is still sorted by key, holds the
/// later pair, and any entry with that key is that pair.
pub proof fn lemma_duplicate_key_last_wins<K: TotalOrd, W>(s: Seq<(K::V, W)>, k: K::V, w1: W, w2: W)
    requires
        sorted_keys::<K, W>(s),
    ensures
        ({
            let r = map_insert::<K, W>(map_insert::<K, W>(s, k, w1), k, w2);
            &&& sorted_keys::<K, W>(r)
            &&& exists|j: int| 0 <= j < r.len() && r[j] == (k, w2)
            &&& forall|j: int| 0 <= j < r.len() && r[j].0 == k ==> r[j] == (k, w2)
        }),
{
    let r1 = map_insert::<K, W>(s, k, w1);
    crate::containers::lemma_map_insert_sorted::<K, W>(s, k, w1);
    let r = map_insert::<K, W>(r1, k, w2);
    crate::containers::lemma_map_insert_sorted::<K, W>(r1, k, w2);
    lemma_map_insert_has::<K, W>(r1, k, w2);
    let j0 = choose|j: int| 0 <= j < r.len() && r[j] == (k, w2);
    assert forall|j: int| 0 <= j < r.len() && r[j].0 == k implies r[j] == (k, w2) by {
        if j != j0 {
            if j < j0 {
                assert(K::le_spec(r[j].0, r[j0].0) && r[j].0 != r[j0].0);
            } else {
                assert(K::le_spec(r[j0].0, r[j].0) && r[j0].0 != r[j].0);
            }
        }
    }
}

/// One malformed element inside an otherwise well-formed wire row makes
/// the whole sequence read fail, with exactly that element's error.
pub proof fn lemma_malformed_element_fails<T: FromFlatBuffer<String>>(ss: Seq<Seq<char>>, i: int)
    requires
        0 <= i < ss.len(),
        decode_elems::<T>(ss.take(i)) is Ok,
        T::from_wire(ss[i]) is Err,
    ensures
        decode_elems::<T>(ss) == Err::<Seq<T::V>, Seq<char>>(T::from_wire(ss[i])->Err_0),
{
    assert(ss.take(i + 1).drop_last() =~= ss.take(i));
    assert(ss.take(i + 1).last() == ss[i]);
    lemma_decode_elems_prefix_err::<T>(ss, i + 1);
}

/// The set analogue: one malformed element fails the whole set read with
/// that element's error.
pub proof fn lemma_malformed_set_element_fails<T: FromFlatBuffer<String> + TotalOrd>(
    ss: Seq<Seq<char>>,
    i: int,
)
    requires
        0 <= i < ss.len(),
        decode_set::<T>(ss.take(i)) is Ok,
        T::from_wire(ss[i]) is Err,
    ensures
        decode_set::<T>(ss) == Err::<Seq<T::V>, Seq<char>>(T::from_wire(ss[i])->Err_0),
{
    assert(ss.take(i + 1).drop_last() =~= ss.take(i));
    assert(ss.take(i + 1).last() == ss[i]);
    crate::adapters::lemma_decode_set_prefix_err::<T>(ss, i + 1);
}

/// The map analogue: one malformed pair fails the whole map read with that
/// pair's error.
pub proof fn lemma_malformed_pair_fails<K: TotalOrd, U: View>(ss: Seq<Seq<char>>, i: int) where
    Pair<K, U>: FromFlatBuffer<String> + View<V = (K::V, U::V)>

    requires
        0 <= i < ss.len(),
        decode_map::<K, U>(ss.take(i)) is Ok,
        Pair::<K, U>::from_wire(ss[i]) is Err,
    ensures
        decode_map::<K, U>(ss) == Err::<Seq<(K::V, U::V)>, Seq<char>>(
            Pair::<K, U>::from_wire(ss[i])->Err_0,
        ),
{
    assert(ss.take(i + 1).drop_last() =~= ss.take(i));
    assert(ss.take(i + 1).last() == ss[i]);
    crate::adapters::lemma_decode_map_prefix_err::<K, U>(ss, i + 1);
}

} // verus!
