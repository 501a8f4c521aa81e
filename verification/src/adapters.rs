//! The container adapters: reading each container from a wire vector and
//! writing it as one, plus the forward-only cursor over wire vectors of
//! complex elements.

use vstd::prelude::*;
use crate::containers::{
    map_insert, set_insert, OrdMap, OrdSet, Pair, Vector,
};
use crate::convert::{
    elem_cost, elem_scalar, elem_text, placement_is, lemma_placement_preserved, FromFlatBuffer,
    Placement, ToFlatBuffer, ToFlatBufferVectorElement, WireElem,
};
use crate::order::TotalOrd;
use crate::wire::{
    builder_extends, builder_ready, builder_str_vecs, builder_strs, builder_u64_vecs,
    builder_used, create_str_vector, create_u64_vector, finish_str_vector, finish_u64_vector,
    lemma_extends_refl, lemma_extends_trans, lemma_submap_insert, new_builder, read_u64_vector,
    str_vector_get, str_vector_len, texts_cost, wire_size_cap, wire_str_vec, wire_u64_vec, Fbb,
};

verus! {

broadcast use vstd::string::to_string_from_display_ensures_for_str;

/// The scalars of a row of wire elements.
pub open spec fn scalars_of(ms: Seq<WireElem>) -> Seq<u64> {
    ms.map_values(|m: WireElem| elem_scalar(m))
}

/// The texts of a row of wire elements.
pub open spec fn texts_of(ms: Seq<WireElem>) -> Seq<Seq<char>> {
    ms.map_values(|m: WireElem| elem_text(m))
}

/// The wire elements a sequence of values becomes.
pub open spec fn models_of<T: ToFlatBufferVectorElement>(v: Seq<T::V>) -> Seq<WireElem> {
    v.map_values(|x: T::V| T::wire_elem(x))
}

/// A conservative byte cost of a whole row of wire elements.
pub open spec fn elems_cost(ms: Seq<WireElem>) -> nat
    decreases ms.len(),
{
    if ms.len() == 0 {
        0
    } else {
        elem_cost(ms[0]) + elems_cost(ms.drop_first())
    }
}

/// A conservative byte cost of writing a row as one wire vector and
/// finishing the buffer.
pub open spec fn wire_cost(ms: Seq<WireElem>) -> nat {
    elems_cost(ms) + 8 * ms.len() + 128
}

pub proof fn lemma_elems_cost_skip(ms: Seq<WireElem>, i: int)
    requires
        0 <= i < ms.len(),
    ensures
        elems_cost(ms.skip(i)) == elem_cost(ms[i]) + elems_cost(ms.skip(i + 1)),
{
    assert(ms.skip(i)[0] == ms[i]);
    assert(ms.skip(i).drop_first() =~= ms.skip(i + 1));
}

/// For a row of text elements, the per-reference cost of the referenced
/// strings is the row's element cost.
pub proof fn lemma_texts_cost_elems(ms: Seq<WireElem>)
    requires
        forall|j: int| 0 <= j < ms.len() ==> !(#[trigger] ms[j] is Scalar),
    ensures
        texts_cost(texts_of(ms)) == elems_cost(ms),
    decreases ms.len(),
{
    if ms.len() > 0 {
        assert(forall|j: int|
            0 <= j < ms.drop_first().len() ==> #[trigger] ms.drop_first()[j] == ms[j + 1]);
        lemma_texts_cost_elems(ms.drop_first());
        assert(texts_of(ms).drop_first() =~= texts_of(ms.drop_first()));
        assert(texts_of(ms)[0] == elem_text(ms[0]));
    }
}

/// A vector of the given element views stands finished on the builder at
/// offset `o`.
pub open spec fn vec_written<T: ToFlatBufferVectorElement>(ms: Seq<WireElem>, b: Fbb, o: u32) -> bool {
    if T::scalar_kind() {
        builder_u64_vecs(b).contains_pair(o, scalars_of(ms))
    } else {
        builder_str_vecs(b).contains_pair(o, texts_of(ms))
    }
}

/// The error text of a container read whose wire view is not a vector of
/// the expected shape.
pub open spec fn vec_shape_err() -> Seq<char> {
    "invalid wire vector"@
}

/// Hands collected placements to the engine's vector-creation primitive:
/// the one write entry point, with an explicit placement-kind tag.
fn create_elem_vector(
    fbb: &mut Fbb,
    ps: &Vec<Placement>,
    scalar: bool,
    Ghost(ms): Ghost<Seq<WireElem>>,
) -> (r: u32)
    requires
        builder_ready(*old(fbb)),
        builder_used(*old(fbb)) + 8 * ms.len() + 64 <= wire_size_cap(),
        ps@.len() == ms.len(),
        forall|i: int| 0 <= i < ms.len() ==> placement_is(#[trigger] ps@[i], ms[i], *old(fbb)),
        forall|i: int| 0 <= i < ms.len() ==> (scalar <==> #[trigger] ms[i] is Scalar),
    ensures
        builder_ready(*final(fbb)),
        builder_used(*final(fbb)) <= builder_used(*old(fbb)) + 8 * ms.len() + 64,
        builder_extends(*old(fbb), *final(fbb)),
        scalar ==> builder_u64_vecs(*final(fbb)).contains_pair(r, scalars_of(ms)),
        !scalar ==> builder_str_vecs(*final(fbb)).contains_pair(r, texts_of(ms)),
{
    if scalar {
        let mut xs: Vec<u64> = Vec::new();
        let mut i: usize = 0;
        while i < ps.len()
            invariant
                i <= ps@.len(),
                ps@.len() == ms.len(),
                forall|j: int|
                    0 <= j < ms.len() ==> placement_is(#[trigger] ps@[j], ms[j], *fbb),
                forall|j: int| 0 <= j < ms.len() ==> #[trigger] ms[j] is Scalar,
                xs@.len() == i,
                forall|j: int| 0 <= j < i ==> #[trigger] xs@[j] == elem_scalar(ms[j]),
                *fbb == *old(fbb),
            decreases ps@.len() - i,
        {
            let p = ps[i];
            match p {
                Placement::Scalar(x) => {
                    xs.push(x);
                },
                Placement::Offset(_) => {
                    proof {
                        assert(placement_is(ps@[i as int], ms[i as int], *fbb));
                        assert(false);
                    }
                    xs.push(0);
                },
            }
            i += 1;
        }
        proof {
            assert(xs@ =~= scalars_of(ms));
        }
        let r = create_u64_vector(fbb, &xs);
        proof {
            lemma_submap_insert(builder_u64_vecs(*old(fbb)), r, xs@);
        }
        r
    } else {
        let mut offs: Vec<u32> = Vec::new();
        let mut i: usize = 0;
        while i < ps.len()
            invariant
                i <= ps@.len(),
                ps@.len() == ms.len(),
                forall|j: int|
                    0 <= j < ms.len() ==> placement_is(#[trigger] ps@[j], ms[j], *fbb),
                forall|j: int| 0 <= j < ms.len() ==> !(#[trigger] ms[j] is Scalar),
                offs@.len() == i,
                forall|j: int|
                    0 <= j < i ==> builder_strs(*fbb).contains_pair(
                        #[trigger] offs@[j],
                        elem_text(ms[j]),
                    ),
                *fbb == *old(fbb),
            decreases ps@.len() - i,
        {
            let p = ps[i];
            match p {
                Placement::Offset(o) => {
                    proof {
                        assert(placement_is(ps@[i as int], ms[i as int], *fbb));
                    }
                    offs.push(o);
                },
                Placement::Scalar(_) => {
                    proof {
                        assert(placement_is(ps@[i as int], ms[i as int], *fbb));
                        assert(false);
                    }
                    offs.push(0);
                },
            }
            i += 1;
        }
        proof {
            assert(forall|j: int|
                0 <= j < offs@.len() ==> builder_strs(*fbb).contains_key(#[trigger] offs@[j]));
        }
        let r = create_str_vector(fbb, &offs);
        proof {
            lemma_submap_insert(
                builder_str_vecs(*old(fbb)),
                r,
                offs@.map_values(|o: u32| builder_strs(*old(fbb))[o]),
            );
            assert(offs@.map_values(|o: u32| builder_strs(*old(fbb))[o]) =~= texts_of(ms));
        }
        r
    }
}

/// A one-shot forward cursor over a wire vector of complex elements.  It
/// starts at the first element and never restarts; when the elements are
/// exhausted it signals the end rather than an error.
pub struct FBIter {
    pub pos: usize,
    pub len: usize,
}

impl FBIter {
    /// The cursor fits the given buffer: the buffer is a wire string
    /// vector and the cursor is somewhere inside it.
    pub open spec fn wf(&self, m: Seq<u8>) -> bool {
        &&& wire_str_vec(m) is Some
        &&& self.len == wire_str_vec(m)->Some_0.len()
        &&& self.pos <= self.len
    }

    /// A cursor over the wire vector in the buffer, or nothing when the
    /// buffer does not hold one.
    pub fn from_vector(bytes: &Vec<u8>) -> (r: Option<FBIter>)
        ensures
            r is Some <==> wire_str_vec(bytes@) is Some,
            r is Some ==> r->Some_0.wf(bytes@) && r->Some_0.pos == 0,
    {
        match str_vector_len(bytes) {
            Option::Some(n) => Option::Some(FBIter { pos: 0, len: n }),
            Option::None => Option::None,
        }
    }

    /// The next element's wire view, in order; the end yields nothing.
    pub fn next(&mut self, bytes: &Vec<u8>) -> (r: Option<String>)
        requires
            old(self).wf(bytes@),
        ensures
            final(self).wf(bytes@),
            final(self).len == old(self).len,
            old(self).pos < old(self).len ==> r is Some && r->Some_0@ == wire_str_vec(
                bytes@,
            )->Some_0[old(self).pos as int] && final(self).pos == old(self).pos + 1,
            old(self).pos >= old(self).len ==> r is None && final(self).pos == old(self).pos,
    {
        if self.pos < self.len {
            let s = str_vector_get(bytes, self.pos);
            self.pos = self.pos + 1;
            Option::Some(s)
        } else {
            Option::None
        }
    }
}

/// What a wire row of complex element views decodes to, element by element
/// in order: the decoded views, or the first failing element's error.
pub open spec fn decode_elems<T: FromFlatBuffer<String>>(ss: Seq<Seq<char>>) -> Result<
    Seq<T::V>,
    Seq<char>,
>
    decreases ss.len(),
{
    if ss.len() == 0 {
        Ok(Seq::empty())
    } else {
        match decode_elems::<T>(ss.drop_last()) {
            Ok(t) => match T::from_wire(ss.last()) {
                Ok(v) => Ok(t.push(v)),
                Err(e) => Err(e),
            },
            Err(e) => Err(e),
        }
    }
}

/// Once a prefix fails to decode, the whole row fails with that error.
pub proof fn lemma_decode_elems_prefix_err<T: FromFlatBuffer<String>>(ss: Seq<Seq<char>>, i: int)
    requires
        0 <= i <= ss.len(),
        decode_elems::<T>(ss.take(i)) is Err,
    ensures
        decode_elems::<T>(ss) == decode_elems::<T>(ss.take(i)),
    decreases ss.len() - i,
{
    if i == ss.len() {
        assert(ss.take(i) =~= ss);
    } else {
        assert(ss.take(i + 1).drop_last() =~= ss.take(i));
        lemma_decode_elems_prefix_err::<T>(ss, i + 1);
    }
}

/// As `decode_elems`, but the decoded elements collapse into an ordered set.
pub open spec fn decode_set<T: FromFlatBuffer<String> + TotalOrd>(ss: Seq<Seq<char>>) -> Result<
    Seq<T::V>,
    Seq<char>,
>
    decreases ss.len(),
{
    if ss.len() == 0 {
        Ok(Seq::empty())
    } else {
        match decode_set::<T>(ss.drop_last()) {
            Ok(t) => match T::from_wire(ss.last()) {
                Ok(v) => Ok(set_insert::<T>(t, v)),
                Err(e) => Err(e),
            },
            Err(e) => Err(e),
        }
    }
}

pub proof fn lemma_decode_set_prefix_err<T: FromFlatBuffer<String> + TotalOrd>(
    ss: Seq<Seq<char>>,
    i: int,
)
    requires
        0 <= i <= ss.len(),
        decode_set::<T>(ss.take(i)) is Err,
    ensures
        decode_set::<T>(ss) == decode_set::<T>(ss.take(i)),
    decreases ss.len() - i,
{
    if i == ss.len() {
        assert(ss.take(i) =~= ss);
    } else {
        assert(ss.take(i + 1).drop_last() =~= ss.take(i));
        lemma_decode_set_prefix_err::<T>(ss, i + 1);
    }
}

/// As `decode_elems`, but each decoded pair is inserted into an ordered
/// map: a later pair with an equal key overwrites the earlier value.
pub open spec fn decode_map<K: TotalOrd, U: View>(ss: Seq<Seq<char>>) -> Result<
    Seq<(K::V, U::V)>,
    Seq<char>,
> where Pair<K, U>: FromFlatBuffer<String> + View<V = (K::V, U::V)>
    decreases ss.len(),
{
    if ss.len() == 0 {
        Ok(Seq::empty())
    } else {
        match decode_map::<K, U>(ss.drop_last()) {
            Ok(t) => match Pair::<K, U>::from_wire(ss.last()) {
                Ok(p) => Ok(map_insert::<K, U::V>(t, p.0, p.1)),
                Err(e) => Err(e),
            },
            Err(e) => Err(e),
        }
    }
}

pub proof fn lemma_decode_map_prefix_err<K: TotalOrd, U: View>(ss: Seq<Seq<char>>, i: int) where
    Pair<K, U>: FromFlatBuffer<String> + View<V = (K::V, U::V)>

    requires
        0 <= i <= ss.len(),
        decode_map::<K, U>(ss.take(i)) is Err,
    ensures
        decode_map::<K, U>(ss) == decode_map::<K, U>(ss.take(i)),
    decreases ss.len() - i,
{
    if i == ss.len() {
        assert(ss.take(i) =~= ss);
    } else {
        assert(ss.take(i + 1).drop_last() =~= ss.take(i));
        lemma_decode_map_prefix_err::<K, U>(ss, i + 1);
    }
}

impl<'a, T: FromFlatBuffer<String>> FromFlatBuffer<&'a Vec<u8>> for Vector<T> {
    open spec fn from_wire(m: Seq<u8>) -> Result<Self::V, Seq<char>> {
        match wire_str_vec(m) {
            Option::Some(ss) => decode_elems::<T>(ss),
            Option::None => Err(vec_shape_err()),
        }
    }

    fn from_flatbuf(fb: &'a Vec<u8>) -> (r: Result<Self, String>) {
        let it_opt = FBIter::from_vector(fb);
        match it_opt {
            Option::None => Err("invalid wire vector".to_string()),
            Option::Some(mut it) => {
                let ghost ss = wire_str_vec(fb@)->Some_0;
                let n = it.len;
                let mut out: Vector<T> = Vector::with_capacity(n);
                let mut i: usize = 0;
                proof {
                    assert(ss.take(0) =~= Seq::<Seq<char>>::empty());
                }
                while i < n
                    invariant
                        wire_str_vec(fb@) is Some,
                        ss == wire_str_vec(fb@)->Some_0,
                        n == ss.len(),
                        i <= n,
                        it.wf(fb@),
                        it.pos == i,
                        it.len == n,
                        decode_elems::<T>(ss.take(i as int)) == Ok::<Seq<T::V>, Seq<char>>(out@),
                    decreases n - i,
                {
                    let sv = it.next(fb);
                    match sv {
                        Option::Some(s) => {
                            proof {
                                assert(ss.take(i + 1).drop_last() =~= ss.take(i as int));
                                assert(ss.take(i + 1).last() == ss[i as int]);
                            }
                            match T::from_flatbuf(s) {
                                Ok(t) => {
                                    out.push(t);
                                },
                                Err(e) => {
                                    proof {
                                        lemma_decode_elems_prefix_err::<T>(ss, i + 1);
                                    }
                                    return Err(e);
                                },
                            }
                        },
                        Option::None => {
                            proof {
                                assert(false);
                            }
                            return Err(String::new());
                        },
                    }
                    i += 1;
                }
                proof {
                    assert(ss.take(n as int) =~= ss);
                }
                Ok(out)
            },
        }
    }
}

impl<'a> FromFlatBuffer<&'a [u64]> for Vector<u64> {
    open spec fn from_wire(m: Seq<u64>) -> Result<Self::V, Seq<char>> {
        Ok(m)
    }

    fn from_flatbuf(fb: &'a [u64]) -> (r: Result<Self, String>) {
        let n = fb.len();
        let mut out: Vector<u64> = Vector::with_capacity(n);
        let mut i: usize = 0;
        while i < n
            invariant
                n == fb@.len(),
                i <= n,
                out@ == fb@.take(i as int),
            decreases n - i,
        {
            out.push(fb[i]);
            proof {
                assert(fb@.take(i + 1) =~= fb@.take(i as int).push(fb@[i as int]));
            }
            i += 1;
        }
        proof {
            assert(fb@.take(n as int) =~= fb@);
        }
        Ok(out)
    }
}

/// The ordered set that collapses a row of scalars, left to right.
pub open spec fn set_fold(ss: Seq<u64>) -> Seq<u64>
    decreases ss.len(),
{
    if ss.len() == 0 {
        Seq::empty()
    } else {
        set_insert::<u64>(set_fold(ss.drop_last()), ss.last())
    }
}

impl<'a> FromFlatBuffer<&'a [u64]> for OrdSet<u64> {
    open spec fn from_wire(m: Seq<u64>) -> Result<Self::V, Seq<char>> {
        Ok(set_fold(m))
    }

    fn from_flatbuf(fb: &'a [u64]) -> (r: Result<Self, String>) {
        let n = fb.len();
        let mut out: OrdSet<u64> = OrdSet::new();
        let mut i: usize = 0;
        proof {
            assert(fb@.take(0) =~= Seq::<u64>::empty());
        }
        while i < n
            invariant
                n == fb@.len(),
                i <= n,
                out.wf(),
                out@ == set_fold(fb@.take(i as int)),
            decreases n - i,
        {
            out.insert(fb[i]);
            proof {
                assert(fb@.take(i + 1).drop_last() =~= fb@.take(i as int));
                assert(fb@.take(i + 1).last() == fb@[i as int]);
            }
            i += 1;
        }
        proof {
            assert(fb@.take(n as int) =~= fb@);
        }
        Ok(out)
    }
}

impl<'a, T: FromFlatBuffer<String> + TotalOrd> FromFlatBuffer<&'a Vec<u8>> for OrdSet<T> {
    open spec fn from_wire(m: Seq<u8>) -> Result<Self::V, Seq<char>> {
        match wire_str_vec(m) {
            Option::Some(ss) => decode_set::<T>(ss),
            Option::None => Err(vec_shape_err()),
        }
    }

    fn from_flatbuf(fb: &'a Vec<u8>) -> (r: Result<Self, String>) {
        let it_opt = FBIter::from_vector(fb);
        match it_opt {
            Option::None => Err("invalid wire vector".to_string()),
            Option::Some(mut it) => {
                let ghost ss = wire_str_vec(fb@)->Some_0;
                let n = it.len;
                let mut out: OrdSet<T> = OrdSet::new();
                let mut i: usize = 0;
                proof {
                    assert(ss.take(0) =~= Seq::<Seq<char>>::empty());
                }
                while i < n
                    invariant
                        wire_str_vec(fb@) is Some,
                        ss == wire_str_vec(fb@)->Some_0,
                        n == ss.len(),
                        i <= n,
                        it.wf(fb@),
                        it.pos == i,
                        it.len == n,
                        out.wf(),
                        decode_set::<T>(ss.take(i as int)) == Ok::<Seq<T::V>, Seq<char>>(out@),
                    decreases n - i,
                {
                    let sv = it.next(fb);
                    match sv {
                        Option::Some(s) => {
                            proof {
                                assert(ss.take(i + 1).drop_last() =~= ss.take(i as int));
                                assert(ss.take(i + 1).last() == ss[i as int]);
                            }
                            match T::from_flatbuf(s) {
                                Ok(t) => {
                                    out.insert(t);
                                },
                                Err(e) => {
                                    proof {
                                        lemma_decode_set_prefix_err::<T>(ss, i + 1);
                                    }
                                    return Err(e);
                                },
                            }
                        },
                        Option::None => {
                            proof {
                                assert(false);
                            }
                            return Err(String::new());
                        },
                    }
                    i += 1;
                }
                proof {
                    assert(ss.take(n as int) =~= ss);
                }
                Ok(out)
            },
        }
    }
}

impl<'a, K: TotalOrd, U: View> FromFlatBuffer<&'a Vec<u8>> for OrdMap<K, U> where
    Pair<K, U>: FromFlatBuffer<String> + View<V = (K::V, U::V)>
 {
    open spec fn from_wire(m: Seq<u8>) -> Result<Self::V, Seq<char>> {
        match wire_str_vec(m) {
            Option::Some(ss) => decode_map::<K, U>(ss),
            Option::None => Err(vec_shape_err()),
        }
    }

    fn from_flatbuf(fb: &'a Vec<u8>) -> (r: Result<Self, String>) {
        let it_opt = FBIter::from_vector(fb);
        match it_opt {
            Option::None => Err("invalid wire vector".to_string()),
            Option::Some(mut it) => {
                let ghost ss = wire_str_vec(fb@)->Some_0;
                let n = it.len;
                let mut out: OrdMap<K, U> = OrdMap::new();
                let mut i: usize = 0;
                proof {
                    assert(ss.take(0) =~= Seq::<Seq<char>>::empty());
                }
                while i < n
                    invariant
                        wire_str_vec(fb@) is Some,
                        ss == wire_str_vec(fb@)->Some_0,
                        n == ss.len(),
                        i <= n,
                        it.wf(fb@),
                        it.pos == i,
                        it.len == n,
                        out.wf(),
                        decode_map::<K, U>(ss.take(i as int)) == Ok::<
                            Seq<(K::V, U::V)>,
                            Seq<char>,
                        >(out@),
                    decreases n - i,
                {
                    let sv = it.next(fb);
                    match sv {
                        Option::Some(s) => {
                            proof {
                                assert(ss.take(i + 1).drop_last() =~= ss.take(i as int));
                                assert(ss.take(i + 1).last() == ss[i as int]);
                            }
                            match Pair::<K, U>::from_flatbuf(s) {
                                Ok(p) => {
                                    out.insert(p.key, p.val);
                                },
                                Err(e) => {
                                    proof {
                                        lemma_decode_map_prefix_err::<K, U>(ss, i + 1);
                                    }
                                    return Err(e);
                                },
                            }
                        },
                        Option::None => {
                            proof {
                                assert(false);
                            }
                            return Err(String::new());
                        },
                    }
                    i += 1;
                }
                proof {
                    assert(ss.take(n as int) =~= ss);
                }
                Ok(out)
            },
        }
    }
}

impl<T: ToFlatBufferVectorElement> ToFlatBuffer for Vector<T> {
    open spec fn field_written(v: Self::V, b: Fbb, r: Placement) -> bool {
        r is Offset && vec_written::<T>(models_of::<T>(v), b, crate::convert::placement_offset(r))
    }

    open spec fn write_cost(v: Self::V) -> nat {
        wire_cost(models_of::<T>(v))
    }

    fn to_flatbuf(&self, fbb: &mut Fbb) -> (r: Placement) {
        let o = write_elems::<T, Vector<T>>(self, fbb);
        Placement::Offset(o)
    }
}

impl<T: TotalOrd + ToFlatBufferVectorElement> ToFlatBuffer for OrdSet<T> {
    open spec fn field_written(v: Self::V, b: Fbb, r: Placement) -> bool {
        r is Offset && vec_written::<T>(models_of::<T>(v), b, crate::convert::placement_offset(r))
    }

    open spec fn write_cost(v: Self::V) -> nat {
        wire_cost(models_of::<T>(v))
    }

    fn to_flatbuf(&self, fbb: &mut Fbb) -> (r: Placement) {
        let o = write_elems::<T, OrdSet<T>>(self, fbb);
        Placement::Offset(o)
    }
}

impl<K: TotalOrd, U: View> ToFlatBuffer for OrdMap<K, U> where
    Pair<K, U>: ToFlatBufferVectorElement + View<V = (K::V, U::V)>
 {
    open spec fn field_written(v: Self::V, b: Fbb, r: Placement) -> bool {
        r is Offset && vec_written::<Pair<K, U>>(
            models_of::<Pair<K, U>>(v),
            b,
            crate::convert::placement_offset(r),
        )
    }

    open spec fn write_cost(v: Self::V) -> nat {
        wire_cost(models_of::<Pair<K, U>>(v))
    }

    fn to_flatbuf(&self, fbb: &mut Fbb) -> (r: Placement) {
        let o = write_elems::<Pair<K, U>, OrdMap<K, U>>(self, fbb);
        Placement::Offset(o)
    }
}

/// A view of a container as an ordered row of writable elements.
pub trait ElemRow<T: ToFlatBufferVectorElement>: View<V = Seq<T::V>> {
    fn len(&self) -> (n: usize)
        ensures
            n == self@.len(),
    ;

    fn get(&self, i: usize) -> (r: &T)
        requires
            i < self@.len(),
        ensures
            r@ == self@[i as int],
    ;
}

impl<T: ToFlatBufferVectorElement> ElemRow<T> for Vector<T> {
    fn len(&self) -> (n: usize) {
        Vector::<T>::len(self)
    }

    fn get(&self, i: usize) -> (r: &T) {
        Vector::<T>::get(self, i)
    }
}

impl<T: TotalOrd + ToFlatBufferVectorElement> ElemRow<T> for OrdSet<T> {
    fn len(&self) -> (n: usize) {
        OrdSet::<T>::len(self)
    }

    fn get(&self, i: usize) -> (r: &T) {
        OrdSet::<T>::get(self, i)
    }
}

impl<K: TotalOrd, U: View> ElemRow<Pair<K, U>> for OrdMap<K, U> where
    Pair<K, U>: ToFlatBufferVectorElement + View<V = (K::V, U::V)>
 {
    fn len(&self) -> (n: usize) {
        OrdMap::<K, U>::len(self)
    }

    fn get(&self, i: usize) -> (r: &Pair<K, U>) {
        OrdMap::<K, U>::get(self, i)
    }
}

/// Writes every element of the row, in the row's order, and builds one
/// wire vector from the collected placements.
fn write_elems<T: ToFlatBufferVectorElement, R: ElemRow<T>>(row: &R, fbb: &mut Fbb) -> (o: u32)
    requires
        builder_ready(*old(fbb)),
        builder_used(*old(fbb)) + wire_cost(models_of::<T>(row@)) <= wire_size_cap(),
    ensures
        builder_ready(*final(fbb)),
        builder_used(*final(fbb)) + 64 <= builder_used(*old(fbb)) + wire_cost(
            models_of::<T>(row@),
        ),
        builder_extends(*old(fbb), *final(fbb)),
        vec_written::<T>(models_of::<T>(row@), *final(fbb), o),
{
    let ghost ms = models_of::<T>(row@);
    let mut ps: Vec<Placement> = Vec::new();
    let n = row.len();
    let mut i: usize = 0;
    proof {
        lemma_extends_refl(*fbb);
    }
    proof {
        assert(ms.skip(0) =~= ms);
    }
    while i < n
        invariant
            n == row@.len(),
            i <= n,
            ms == models_of::<T>(row@),
            ps@.len() == i,
            builder_ready(*fbb),
            builder_used(*fbb) + elems_cost(ms.skip(i as int)) <= builder_used(*old(fbb))
                + elems_cost(ms),
            builder_used(*old(fbb)) + wire_cost(ms) <= wire_size_cap(),
            builder_extends(*old(fbb), *fbb),
            forall|j: int| 0 <= j < i ==> placement_is(#[trigger] ps@[j], ms[j], *fbb),
        decreases n - i,
    {
        let ghost b_pre = *fbb;
        proof {
            lemma_elems_cost_skip(ms, i as int);
            assert(ms[i as int] == T::wire_elem(row@[i as int]));
        }
        let p = row.get(i).to_flatbuf_vector_element(fbb);
        proof {
            lemma_extends_trans(*old(fbb), b_pre, *fbb);
            assert forall|j: int| 0 <= j < i implies placement_is(
                #[trigger] ps@[j],
                ms[j],
                *fbb,
            ) by {
                lemma_placement_preserved(ps@[j], ms[j], b_pre, *fbb);
            }
        }
        ps.push(p);
        i += 1;
    }
    proof {
        assert(ms.skip(n as int).len() == 0);
    }
    proof {
        assert forall|j: int| 0 <= j < ms.len() implies (T::scalar_kind() <==> #[trigger] ms[j]
            is Scalar) by {
            T::lemma_kind(row@[j]);
        }
    }
    let ghost b_mid = *fbb;
    let o = create_elem_vector(fbb, &ps, T::is_scalar(), Ghost(ms));
    proof {
        lemma_extends_trans(*old(fbb), b_mid, *fbb);
    }
    o
}

/// After a row is written within budget, the finish step's side conditions
/// hold: headroom for the root, and a bounded per-reference string cost.
proof fn finish_cost_facts<T: ToFlatBufferVectorElement>(ms: Seq<WireElem>, b: Fbb, o: u32)
    requires
        wire_cost(ms) <= wire_size_cap(),
        builder_used(b) + 64 <= wire_cost(ms),
        vec_written::<T>(ms, b, o),
        forall|j: int| 0 <= j < ms.len() ==> (T::scalar_kind() <==> #[trigger] ms[j] is Scalar),
    ensures
        builder_used(b) + 64 <= wire_size_cap(),
        !T::scalar_kind() ==> builder_str_vecs(b).contains_key(o) && texts_cost(
            builder_str_vecs(b)[o],
        ) <= wire_size_cap(),
        T::scalar_kind() ==> builder_u64_vecs(b).contains_key(o),
{
    if !T::scalar_kind() {
        lemma_texts_cost_elems(ms);
        assert(builder_str_vecs(b)[o] == texts_of(ms));
    }
}

impl<T: ToFlatBufferVectorElement> Vector<T> {
    /// Writes this sequence as one finished wire buffer.
    pub fn to_flatbuf_buffer(&self) -> (r: Vec<u8>)
        requires
            wire_cost(models_of::<T>(self@)) <= wire_size_cap(),
        ensures
            T::scalar_kind() ==> wire_u64_vec(r@) == Some(scalars_of(models_of::<T>(self@))),
            !T::scalar_kind() ==> wire_str_vec(r@) == Some(texts_of(models_of::<T>(self@))),
    {
        let mut b = new_builder();
        let o = write_elems::<T, Vector<T>>(self, &mut b);
        proof {
            let ghost ms = models_of::<T>(self@);
            assert forall|j: int| 0 <= j < ms.len() implies (T::scalar_kind()
                <==> #[trigger] ms[j] is Scalar) by {
                T::lemma_kind(self@[j]);
            }
            finish_cost_facts::<T>(ms, b, o);
        }
        if T::is_scalar() {
            finish_u64_vector(b, o)
        } else {
            finish_str_vector(b, o)
        }
    }
}

impl<T: TotalOrd + ToFlatBufferVectorElement> OrdSet<T> {
    /// Writes this set as one finished wire buffer, in sort order.
    pub fn to_flatbuf_buffer(&self) -> (r: Vec<u8>)
        requires
            wire_cost(models_of::<T>(self@)) <= wire_size_cap(),
        ensures
            T::scalar_kind() ==> wire_u64_vec(r@) == Some(scalars_of(models_of::<T>(self@))),
            !T::scalar_kind() ==> wire_str_vec(r@) == Some(texts_of(models_of::<T>(self@))),
    {
        let mut b = new_builder();
        let o = write_elems::<T, OrdSet<T>>(self, &mut b);
        proof {
            let ghost ms = models_of::<T>(self@);
            assert forall|j: int| 0 <= j < ms.len() implies (T::scalar_kind()
                <==> #[trigger] ms[j] is Scalar) by {
                T::lemma_kind(self@[j]);
            }
            finish_cost_facts::<T>(ms, b, o);
        }
        if T::is_scalar() {
            finish_u64_vector(b, o)
        } else {
            finish_str_vector(b, o)
        }
    }
}

impl<K: TotalOrd, U: View> OrdMap<K, U> where
    Pair<K, U>: ToFlatBufferVectorElement + View<V = (K::V, U::V)>
 {
    /// Writes this map as one finished wire buffer: a vector of pairs, in
    /// key order.
    pub fn to_flatbuf_buffer(&self) -> (r: Vec<u8>)
        requires
            wire_cost(models_of::<Pair<K, U>>(self@)) <= wire_size_cap(),
        ensures
            Pair::<K, U>::scalar_kind() ==> wire_u64_vec(r@) == Some(
                scalars_of(models_of::<Pair<K, U>>(self@)),
            ),
            !Pair::<K, U>::scalar_kind() ==> wire_str_vec(r@) == Some(
                texts_of(models_of::<Pair<K, U>>(self@)),
            ),
    {
        let mut b = new_builder();
        let o = write_elems::<Pair<K, U>, OrdMap<K, U>>(self, &mut b);
        proof {
            let ghost ms = models_of::<Pair<K, U>>(self@);
            assert forall|j: int| 0 <= j < ms.len() implies (Pair::<K, U>::scalar_kind()
                <==> #[trigger] ms[j] is Scalar) by {
                Pair::<K, U>::lemma_kind(self@[j]);
            }
            finish_cost_facts::<Pair<K, U>>(ms, b, o);
        }
        if Pair::<K, U>::is_scalar() {
            finish_u64_vector(b, o)
        } else {
            finish_str_vector(b, o)
        }
    }
}

/// Reads a finished scalar wire buffer back as a sequence, copying the
/// scalar row in bulk.
pub fn vector_from_u64_buffer(bytes: &Vec<u8>) -> (r: Result<Vector<u64>, String>)
    ensures
        r is Ok <==> wire_u64_vec(bytes@) is Some,
        r is Ok ==> r->Ok_0@ == wire_u64_vec(bytes@)->Some_0,
        r is Err ==> r->Err_0@ == vec_shape_err(),
{
    match read_u64_vector(bytes) {
        Option::Some(xs) => Vector::<u64>::from_flatbuf(xs.as_slice()),
        Option::None => Err("invalid wire vector".to_string()),
    }
}

/// Reads a finished scalar wire buffer back as an ordered set.
pub fn set_from_u64_buffer(bytes: &Vec<u8>) -> (r: Result<OrdSet<u64>, String>)
    ensures
        r is Ok <==> wire_u64_vec(bytes@) is Some,
        r is Ok ==> r->Ok_0@ == set_fold(wire_u64_vec(bytes@)->Some_0),
        r is Err ==> r->Err_0@ == vec_shape_err(),
{
    match read_u64_vector(bytes) {
        Option::Some(xs) => OrdSet::<u64>::from_flatbuf(xs.as_slice()),
        Option::None => Err("invalid wire vector".to_string()),
    }
}

} // verus!
