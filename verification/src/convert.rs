//! The conversion contract: one way to read a value from a wire view, and
//! three ways to place it while writing — inline field, standalone table, or
//! vector element — together with the element instances for scalars,
//! strings, and key-value pairs.

use vstd::prelude::*;
use crate::containers::{Pair, Ref};
use crate::wire::{
    builder_extends, builder_ready, builder_strs, builder_used, create_string,
    lemma_extends_refl, wire_size_cap, Fbb,
};
use crate::text::{str_chars, string_from_chars};

verus! {

broadcast use vstd::string::to_string_from_display_ensures_for_str;

/// What one wire vector element is: a 64-bit scalar slot, or a string
/// object reached through an offset.
pub enum WireElem {
    Scalar(u64),
    Text(Seq<char>),
}

/// The scalar a wire element holds (zero where it is not a scalar).
pub open spec fn elem_scalar(m: WireElem) -> u64 {
    match m {
        WireElem::Scalar(x) => x,
        WireElem::Text(_) => 0u64,
    }
}

/// The text a wire element holds (empty where it is not text).
pub open spec fn elem_text(m: WireElem) -> Seq<char> {
    match m {
        WireElem::Scalar(_) => Seq::empty(),
        WireElem::Text(s) => s,
    }
}

/// A conservative byte cost of placing one wire element on the builder:
/// scalars occupy no builder object, a string object stays within four
/// bytes per character plus bookkeeping.
pub open spec fn elem_cost(m: WireElem) -> nat {
    match m {
        WireElem::Scalar(_) => 0,
        WireElem::Text(s) => 4 * s.len() + 32,
    }
}

/// The physical representation a value takes in a wire slot: a bare scalar,
/// or an offset to an object already placed on the builder.
#[derive(Clone, Copy)]
pub enum Placement {
    Scalar(u64),
    Offset(u32),
}

/// Whether a placement stands, on the given builder, for the given wire
/// element.
pub open spec fn placement_is(p: Placement, m: WireElem, b: Fbb) -> bool {
    match p {
        Placement::Scalar(x) => m == WireElem::Scalar(x),
        Placement::Offset(o) => m is Text && builder_strs(b).contains_pair(o, elem_text(m)),
    }
}

/// A placement keeps its meaning as the builder grows.
pub proof fn lemma_placement_preserved(p: Placement, m: WireElem, b0: Fbb, b1: Fbb)
    requires
        placement_is(p, m, b0),
        builder_extends(b0, b1),
    ensures
        placement_is(p, m, b1),
{
    match p {
        Placement::Scalar(_) => {
        },
        Placement::Offset(o) => {
            assert(builder_strs(b0).dom().contains(o));
            assert(builder_strs(b1).dom().contains(o));
            assert(builder_strs(b1)[o] == builder_strs(b0)[o]);
        },
    }
}

/// Parses one value from a wire view whose shape matches the schema.
/// `from_wire` pins down, for every view, either the value's view or the
/// exact error text.
pub trait FromFlatBuffer<FB: View>: View + Sized {
    spec fn from_wire(m: FB::V) -> Result<Self::V, Seq<char>>;

    fn from_flatbuf(fb: FB) -> (r: Result<Self, String>)
        ensures
            r is Ok <==> Self::from_wire(fb@) is Ok,
            r is Ok ==> r->Ok_0@ == Self::from_wire(fb@)->Ok_0,
            r is Err ==> r->Err_0@ == Self::from_wire(fb@)->Err_0,
    ;
}

/// Produces the representation required inside a vector slot.
pub trait ToFlatBufferVectorElement: View + Sized {
    /// What this value is as a wire vector element, as a function of its
    /// view alone.
    spec fn wire_elem(v: Self::V) -> WireElem;

    /// The placement kind of every value of this type: scalar slot or
    /// offset object.
    spec fn scalar_kind() -> bool;

    proof fn lemma_kind(v: Self::V)
        ensures
            Self::scalar_kind() <==> Self::wire_elem(v) is Scalar,
    ;

    fn is_scalar() -> (r: bool)
        ensures
            r == Self::scalar_kind(),
    ;

    fn to_flatbuf_vector_element(&self, fbb: &mut Fbb) -> (r: Placement)
        requires
            builder_ready(*old(fbb)),
            builder_used(*old(fbb)) + elem_cost(Self::wire_elem(self@)) <= wire_size_cap(),
        ensures
            builder_ready(*final(fbb)),
            builder_used(*final(fbb)) <= builder_used(*old(fbb)) + elem_cost(
                Self::wire_elem(self@),
            ),
            builder_extends(*old(fbb), *final(fbb)),
            placement_is(r, Self::wire_elem(self@), *final(fbb)),
    ;
}

/// Produces the representation usable when this value occupies an inline
/// field slot of a containing structure.
pub trait ToFlatBuffer: View + Sized {
    /// What holds of the builder and the returned placement after the
    /// write, as a function of the value's view.
    spec fn field_written(v: Self::V, b: Fbb, r: Placement) -> bool;

    /// A conservative byte cost of the write, as a function of the view.
    spec fn write_cost(v: Self::V) -> nat;

    fn to_flatbuf(&self, fbb: &mut Fbb) -> (r: Placement)
        requires
            builder_ready(*old(fbb)),
            builder_used(*old(fbb)) + Self::write_cost(self@) <= wire_size_cap(),
        ensures
            builder_ready(*final(fbb)),
            builder_used(*final(fbb)) <= builder_used(*old(fbb)) + Self::write_cost(self@),
            builder_extends(*old(fbb), *final(fbb)),
            Self::field_written(self@, *final(fbb), r),
    ;
}

/// Produces a finished, independently addressable table offset.  Record
/// types implement this; the containers here only pass it through.
pub trait ToFlatBufferTable: View + Sized {
    /// What holds of the builder and the returned offset after the write.
    spec fn table_written(v: Self::V, b: Fbb, r: u32) -> bool;

    /// A conservative byte cost of the write, as a function of the view.
    spec fn table_cost(v: Self::V) -> nat;

    fn to_flatbuf_table(&self, fbb: &mut Fbb) -> (r: u32)
        requires
            builder_ready(*old(fbb)),
            builder_used(*old(fbb)) + Self::table_cost(self@) <= wire_size_cap(),
        ensures
            builder_ready(*final(fbb)),
            builder_used(*final(fbb)) <= builder_used(*old(fbb)) + Self::table_cost(self@),
            builder_extends(*old(fbb), *final(fbb)),
            Self::table_written(self@, *final(fbb), r),
    ;
}

impl FromFlatBuffer<u64> for u64 {
    open spec fn from_wire(m: u64) -> Result<u64, Seq<char>> {
        Ok(m)
    }

    fn from_flatbuf(fb: u64) -> (r: Result<Self, String>) {
        Ok(fb)
    }
}

impl ToFlatBufferVectorElement for u64 {
    open spec fn wire_elem(v: u64) -> WireElem {
        WireElem::Scalar(v)
    }

    open spec fn scalar_kind() -> bool {
        true
    }

    proof fn lemma_kind(v: u64) {
    }

    fn is_scalar() -> (r: bool) {
        true
    }

    fn to_flatbuf_vector_element(&self, fbb: &mut Fbb) -> (r: Placement) {
        proof {
            lemma_extends_refl(*fbb);
        }
        Placement::Scalar(*self)
    }
}

impl ToFlatBuffer for u64 {
    open spec fn field_written(v: u64, b: Fbb, r: Placement) -> bool {
        r == Placement::Scalar(v)
    }

    open spec fn write_cost(v: u64) -> nat {
        0
    }

    fn to_flatbuf(&self, fbb: &mut Fbb) -> (r: Placement) {
        proof {
            lemma_extends_refl(*fbb);
        }
        Placement::Scalar(*self)
    }
}

impl FromFlatBuffer<String> for String {
    open spec fn from_wire(m: Seq<char>) -> Result<Seq<char>, Seq<char>> {
        Ok(m)
    }

    fn from_flatbuf(fb: String) -> (r: Result<Self, String>) {
        Ok(fb)
    }
}

impl ToFlatBufferVectorElement for String {
    open spec fn wire_elem(v: Seq<char>) -> WireElem {
        WireElem::Text(v)
    }

    open spec fn scalar_kind() -> bool {
        false
    }

    proof fn lemma_kind(v: Seq<char>) {
    }

    fn is_scalar() -> (r: bool) {
        false
    }

    fn to_flatbuf_vector_element(&self, fbb: &mut Fbb) -> (r: Placement) {
        let o = create_string(fbb, self.as_str());
        Placement::Offset(o)
    }
}

impl ToFlatBuffer for String {
    open spec fn field_written(v: Seq<char>, b: Fbb, r: Placement) -> bool {
        r is Offset && builder_strs(b).contains_pair(placement_offset(r), v)
    }

    open spec fn write_cost(v: Seq<char>) -> nat {
        4 * v.len() + 32
    }

    fn to_flatbuf(&self, fbb: &mut Fbb) -> (r: Placement) {
        let o = create_string(fbb, self.as_str());
        Placement::Offset(o)
    }
}

/// The offset a placement carries (zero where it is a scalar).
pub open spec fn placement_offset(p: Placement) -> u32 {
    match p {
        Placement::Scalar(_) => 0u32,
        Placement::Offset(o) => o,
    }
}

impl<FB: View, T: FromFlatBuffer<FB>> FromFlatBuffer<FB> for Ref<T> {
    open spec fn from_wire(m: FB::V) -> Result<Self::V, Seq<char>> {
        T::from_wire(m)
    }

    fn from_flatbuf(fb: FB) -> (r: Result<Self, String>) {
        match T::from_flatbuf(fb) {
            Ok(t) => Ok(Ref::from(t)),
            Err(e) => Err(e),
        }
    }
}

impl<T: ToFlatBufferVectorElement> ToFlatBufferVectorElement for Ref<T> {
    open spec fn wire_elem(v: Self::V) -> WireElem {
        T::wire_elem(v)
    }

    open spec fn scalar_kind() -> bool {
        T::scalar_kind()
    }

    proof fn lemma_kind(v: Self::V) {
        T::lemma_kind(v);
    }

    fn is_scalar() -> (r: bool) {
        T::is_scalar()
    }

    fn to_flatbuf_vector_element(&self, fbb: &mut Fbb) -> (r: Placement) {
        self.get().to_flatbuf_vector_element(fbb)
    }
}

impl<T: ToFlatBuffer> ToFlatBuffer for Ref<T> {
    open spec fn field_written(v: Self::V, b: Fbb, r: Placement) -> bool {
        T::field_written(v, b, r)
    }

    open spec fn write_cost(v: Self::V) -> nat {
        T::write_cost(v)
    }

    fn to_flatbuf(&self, fbb: &mut Fbb) -> (r: Placement) {
        self.get().to_flatbuf(fbb)
    }
}

impl<T: ToFlatBufferTable> ToFlatBufferTable for Ref<T> {
    open spec fn table_written(v: Self::V, b: Fbb, r: u32) -> bool {
        T::table_written(v, b, r)
    }

    open spec fn table_cost(v: Self::V) -> nat {
        T::table_cost(v)
    }

    fn to_flatbuf_table(&self, fbb: &mut Fbb) -> (r: u32) {
        self.get().to_flatbuf_table(fbb)
    }
}

/// One escaped character of a pair's key: the escape character doubles
/// itself and guards the separator, so the encoding of a pair is injective.
pub open spec fn esc_char(c: char) -> Seq<char> {
    if c == '=' || c == '\\' {
        seq!['\\', c]
    } else {
        seq![c]
    }
}

/// A pair's key as it stands on the wire: every separator and escape
/// character escaped, so the first bare separator ends the key.
pub open spec fn esc(k: Seq<char>) -> Seq<char>
    decreases k.len(),
{
    if k.len() == 0 {
        Seq::empty()
    } else {
        esc_char(k[0]) + esc(k.drop_first())
    }
}

pub proof fn lemma_esc_push(k: Seq<char>, c: char)
    ensures
        esc(k.push(c)) == esc(k) + esc_char(c),
    decreases k.len(),
{
    if k.len() == 0 {
        assert(k.push(c)[0] == c);
        assert(k.push(c).drop_first() =~= Seq::<char>::empty());
        assert(esc(Seq::<char>::empty()) =~= Seq::<char>::empty());
        assert(esc(k.push(c)) == esc_char(c) + esc(Seq::<char>::empty()));
        assert(esc(k.push(c)) =~= esc(k) + esc_char(c));
    } else {
        assert(k.push(c)[0] == k[0]);
        assert(k.push(c).drop_first() =~= k.drop_first().push(c));
        lemma_esc_push(k.drop_first(), c);
        assert(esc(k.push(c)) == esc_char(k[0]) + esc(k.drop_first().push(c)));
        assert(esc(k) == esc_char(k[0]) + esc(k.drop_first()));
        assert(esc(k.push(c)) =~= esc(k) + esc_char(c));
    }
}

/// The text of a pair's error: its wire view ends inside an escape, or
/// holds no bare separator.
pub open spec fn pair_err() -> Seq<char> {
    "malformed wire pair"@
}

/// What a pair's wire text splits into: the unescaped key before the first
/// bare separator, and everything after that separator as the value.
pub open spec fn split_pair(m: Seq<char>) -> Result<(Seq<char>, Seq<char>), Seq<char>>
    decreases m.len(),
{
    if m.len() == 0 {
        Err(pair_err())
    } else if m[0] == '\\' {
        if m.len() == 1 {
            Err(pair_err())
        } else {
            match split_pair(m.skip(2)) {
                Ok(p) => Ok((seq![m[1]] + p.0, p.1)),
                Err(e) => Err(e),
            }
        }
    } else if m[0] == '=' {
        Ok((Seq::empty(), m.drop_first()))
    } else {
        match split_pair(m.drop_first()) {
            Ok(p) => Ok((seq![m[0]] + p.0, p.1)),
            Err(e) => Err(e),
        }
    }
}

/// `split_pair` of a suffix, with the already-unescaped key put in front.
pub open spec fn with_key_prefix(p: Seq<char>, r: Result<(Seq<char>, Seq<char>), Seq<char>>) -> Result<
    (Seq<char>, Seq<char>),
    Seq<char>,
> {
    match r {
        Ok(q) => Ok((p + q.0, q.1)),
        Err(e) => Err(e),
    }
}

impl FromFlatBuffer<String> for Pair<String, String> {
    open spec fn from_wire(m: Seq<char>) -> Result<Self::V, Seq<char>> {
        split_pair(m)
    }

    fn from_flatbuf(fb: String) -> (r: Result<Self, String>) {
        let cs = str_chars(fb.as_str());
        let mut key: Vec<char> = Vec::new();
        let mut i: usize = 0;
        proof {
            assert(cs@.skip(0) =~= cs@);
            if split_pair(cs@) is Ok {
                let q = split_pair(cs@)->Ok_0;
                assert(Seq::<char>::empty() + q.0 =~= q.0);
            }
            assert(split_pair(cs@) == with_key_prefix(key@, split_pair(cs@.skip(0))));
        }
        while i < cs.len()
            invariant
                i <= cs@.len(),
                cs@ == fb@,
                split_pair(cs@) == with_key_prefix(key@, split_pair(cs@.skip(i as int))),
            decreases cs@.len() - i,
        {
            let ghost tail = cs@.skip(i as int);
            proof {
                assert(tail[0] == cs@[i as int]);
            }
            let c = cs[i];
            if c == '\\' {
                if i + 1 >= cs.len() {
                    proof {
                        assert(tail.len() == 1);
                        assert(split_pair(tail) == Err::<(Seq<char>, Seq<char>), Seq<char>>(
                            pair_err(),
                        ));
                    }
                    return Err("malformed wire pair".to_string());
                }
                let d = cs[i + 1];
                let ghost key0 = key@;
                key.push(d);
                proof {
                    assert(tail.len() >= 2);
                    assert(tail[1] == cs@[i + 1]);
                    assert(tail.skip(2) =~= cs@.skip(i + 2));
                    let rest = split_pair(cs@.skip(i + 2));
                    if rest is Ok {
                        let q = rest->Ok_0;
                        assert(split_pair(tail) == Ok::<(Seq<char>, Seq<char>), Seq<char>>((
                            seq![tail[1]] + q.0,
                            q.1,
                        )));
                        assert(key0 + (seq![tail[1]] + q.0) =~= key@ + q.0);
                        assert(with_key_prefix(key0, split_pair(tail)) == with_key_prefix(
                            key@,
                            rest,
                        ));
                    } else {
                        assert(split_pair(tail) == rest);
                    }
                }
                i = i + 2;
            } else if c == '=' {
                proof {
                    assert(tail.drop_first() =~= cs@.skip(i + 1));
                    assert(split_pair(tail) == Ok::<(Seq<char>, Seq<char>), Seq<char>>((
                        Seq::empty(),
                        cs@.skip(i + 1),
                    )));
                    assert(key@ + Seq::<char>::empty() =~= key@);
                    assert(split_pair(cs@) == Ok::<(Seq<char>, Seq<char>), Seq<char>>((
                        key@,
                        cs@.skip(i + 1),
                    )));
                }
                let val_cs = take_range(&cs, i + 1, cs.len());
                let k = string_from_chars(&key);
                let v = string_from_chars(&val_cs);
                proof {
                    assert(val_cs@ =~= cs@.skip(i + 1));
                }
                return Ok(Pair { key: k, val: v });
            } else {
                let ghost key0 = key@;
                key.push(c);
                proof {
                    assert(tail.drop_first() =~= cs@.skip(i + 1));
                    let rest = split_pair(cs@.skip(i + 1));
                    if rest is Ok {
                        let q = rest->Ok_0;
                        assert(split_pair(tail) == Ok::<(Seq<char>, Seq<char>), Seq<char>>((
                            seq![tail[0]] + q.0,
                            q.1,
                        )));
                        assert(key0 + (seq![tail[0]] + q.0) =~= key@ + q.0);
                        assert(with_key_prefix(key0, split_pair(tail)) == with_key_prefix(
                            key@,
                            rest,
                        ));
                    } else {
                        assert(split_pair(tail) == rest);
                    }
                }
                i = i + 1;
            }
        }
        proof {
            assert(cs@.skip(i as int).len() == 0);
            assert(split_pair(cs@.skip(i as int)) == Err::<(Seq<char>, Seq<char>), Seq<char>>(
                pair_err(),
            ));
        }
        Err("malformed wire pair".to_string())
    }
}

impl ToFlatBufferVectorElement for Pair<String, String> {
    open spec fn wire_elem(v: Self::V) -> WireElem {
        WireElem::Text(esc(v.0) + seq!['='] + v.1)
    }

    open spec fn scalar_kind() -> bool {
        false
    }

    proof fn lemma_kind(v: Self::V) {
    }

    fn is_scalar() -> (r: bool) {
        false
    }

    fn to_flatbuf_vector_element(&self, fbb: &mut Fbb) -> (r: Placement) {
        let kc = str_chars(self.key.as_str());
        let mut cs: Vec<char> = Vec::new();
        let mut i: usize = 0;
        proof {
            assert(kc@.take(0) =~= Seq::<char>::empty());
            assert(cs@ =~= esc(kc@.take(0)));
        }
        while i < kc.len()
            invariant
                i <= kc@.len(),
                kc@ == self.key@,
                cs@ == esc(kc@.take(i as int)),
            decreases kc@.len() - i,
        {
            let c = kc[i];
            if c == '=' || c == '\\' {
                cs.push('\\');
                cs.push(c);
            } else {
                cs.push(c);
            }
            proof {
                lemma_esc_push(kc@.take(i as int), kc@[i as int]);
                assert(kc@.take(i + 1) =~= kc@.take(i as int).push(kc@[i as int]));
                assert(cs@ =~= esc(kc@.take(i as int)) + esc_char(kc@[i as int]));
            }
            i += 1;
        }
        proof {
            assert(kc@.take(kc@.len() as int) =~= kc@);
        }
        cs.push('=');
        let vs = str_chars(self.val.as_str());
        push_range(&mut cs, &vs, 0, vs.len());
        let s = string_from_chars(&cs);
        proof {
            assert(vs@.subrange(0, vs@.len() as int) =~= vs@);
            assert(s@ =~= esc(self.key@) + seq!['='] + self.val@);
        }
        let o = create_string(fbb, s.as_str());
        Placement::Offset(o)
    }
}

/// Copies `cs[from..to]` onto the end of `out`.
pub fn push_range(out: &mut Vec<char>, cs: &Vec<char>, from: usize, to: usize)
    requires
        from <= to <= cs@.len(),
    ensures
        final(out)@ == old(out)@ + cs@.subrange(from as int, to as int),
{
    let ghost base = out@;
    let mut i: usize = from;
    proof {
        assert(base + cs@.subrange(from as int, from as int) =~= base);
    }
    while i < to
        invariant
            from <= i <= to <= cs@.len(),
            out@ == base + cs@.subrange(from as int, i as int),
        decreases to - i,
    {
        out.push(cs[i]);
        proof {
            assert(base + cs@.subrange(from as int, i + 1) =~= (base + cs@.subrange(
                from as int,
                i as int,
            )).push(cs@[i as int]));
        }
        i += 1;
    }
}

/// The characters `cs[from..to]`, as a fresh vector.
pub fn take_range(cs: &Vec<char>, from: usize, to: usize) -> (r: Vec<char>)
    requires
        from <= to <= cs@.len(),
    ensures
        r@ == cs@.subrange(from as int, to as int),
{
    let mut out: Vec<char> = Vec::new();
    proof {
        assert(out@ + cs@.subrange(from as int, to as int) =~= cs@.subrange(
            from as int,
            to as int,
        ));
    }
    push_range(&mut out, cs, from, to);
    out
}

} // verus!
