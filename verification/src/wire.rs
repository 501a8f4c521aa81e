//! Trusted boundary to the external binary-format engine (the `flatbuffers`
//! crate).  The builder accumulates strings and vectors; a finished buffer is
//! a plain byte vector whose decoding the two `wire_*` names stand for.
//! Everything else in this crate is verified against the contracts here.
//!
//! Two side conditions of the engine are modelled explicitly.  A builder is
//! `builder_ready` when no table or vector is under construction on it:
//! `new_builder` establishes it and every writer here preserves it, since
//! each completes whatever it starts.  `builder_used` bounds the bytes the
//! builder occupies; each writer requires enough headroom below
//! `wire_size_cap`, which keeps every allocation and the finished buffer's
//! expanded size far under the engine's own hard limits.

use vstd::prelude::*;

verus! {

#[verifier::external_type_specification]
#[verifier::external_body]
pub struct ExFlatBufferBuilder<'fbb>(flatbuffers::FlatBufferBuilder<'fbb>);

/// The in-progress builder used while writing values into a wire buffer.
pub type Fbb = flatbuffers::FlatBufferBuilder<'static>;

/// The strings so far created on a builder, by their placement offset.
pub uninterp spec fn builder_strs(b: Fbb) -> Map<u32, Seq<char>>;

/// The scalar vectors so far created on a builder, by their offset.
pub uninterp spec fn builder_u64_vecs(b: Fbb) -> Map<u32, Seq<u64>>;

/// The string vectors so far created on a builder, by their offset; each
/// holds the values of its elements, in wire order.
pub uninterp spec fn builder_str_vecs(b: Fbb) -> Map<u32, Seq<Seq<char>>>;

/// No table or vector is under construction on the builder: the state in
/// which the engine accepts a new object.
pub uninterp spec fn builder_ready(b: Fbb) -> bool;

/// An upper bound, in bytes, of what the builder occupies.
pub uninterp spec fn builder_used(b: Fbb) -> nat;

/// The crate's cap on wire content.  It stays far under the engine's limits
/// on a single allocation and on a finished buffer's expanded size.
pub open spec fn wire_size_cap() -> nat {
    0x2000_0000
}

/// A conservative byte cost of a row of strings, counting each string once
/// per reference.
pub open spec fn texts_cost(ss: Seq<Seq<char>>) -> nat
    decreases ss.len(),
{
    if ss.len() == 0 {
        0
    } else {
        4 * ss[0].len() + 32 + texts_cost(ss.drop_first())
    }
}

/// What a finished buffer decodes to when read as a vector of 64-bit
/// scalars, or nothing if the buffer does not verify as one.
pub uninterp spec fn wire_u64_vec(bytes: Seq<u8>) -> Option<Seq<u64>>;

/// What a finished buffer decodes to when read as a vector of strings, or
/// nothing if the buffer does not verify as one.
pub uninterp spec fn wire_str_vec(bytes: Seq<u8>) -> Option<Seq<Seq<char>>>;

/// Everything placed on the builder so far keeps its offset and meaning as
/// more is written: the engine's buffer is append-only.
pub open spec fn builder_extends(b0: Fbb, b1: Fbb) -> bool {
    &&& builder_strs(b0).submap_of(builder_strs(b1))
    &&& builder_u64_vecs(b0).submap_of(builder_u64_vecs(b1))
    &&& builder_str_vecs(b0).submap_of(builder_str_vecs(b1))
}

pub proof fn lemma_extends_refl(b: Fbb)
    ensures
        builder_extends(b, b),
{
}

proof fn lemma_submap_trans<X>(a: Map<u32, X>, b: Map<u32, X>, c: Map<u32, X>)
    requires
        a.submap_of(b),
        b.submap_of(c),
    ensures
        a.submap_of(c),
{
    assert forall|k: u32| #[trigger] a.dom().contains(k) implies c.dom().contains(k) && a[k]
        == c[k] by {
        assert(b.dom().contains(k));
        assert(a[k] == b[k]);
        assert(c.dom().contains(k));
        assert(b[k] == c[k]);
    }
}

pub proof fn lemma_extends_trans(b0: Fbb, b1: Fbb, b2: Fbb)
    requires
        builder_extends(b0, b1),
        builder_extends(b1, b2),
    ensures
        builder_extends(b0, b2),
{
    lemma_submap_trans(builder_strs(b0), builder_strs(b1), builder_strs(b2));
    lemma_submap_trans(builder_u64_vecs(b0), builder_u64_vecs(b1), builder_u64_vecs(b2));
    lemma_submap_trans(builder_str_vecs(b0), builder_str_vecs(b1), builder_str_vecs(b2));
}

/// Inserting under a fresh key loses nothing that a builder already holds.
pub proof fn lemma_submap_insert<X>(m: Map<u32, X>, k: u32, x: X)
    requires
        !m.contains_key(k),
    ensures
        m.submap_of(m.insert(k, x)),
{
}

/// A builder on which nothing has been placed yet.
pub open spec fn builder_empty(b: Fbb) -> bool {
    &&& builder_strs(b) == Map::<u32, Seq<char>>::empty()
    &&& builder_u64_vecs(b) == Map::<u32, Seq<u64>>::empty()
    &&& builder_str_vecs(b) == Map::<u32, Seq<Seq<char>>>::empty()
}

/// Relies on `FlatBufferBuilder::new`: a fresh builder holds nothing.
#[verifier::external_body]
pub(crate) fn new_builder() -> (r: Fbb)
    ensures
        builder_empty(r),
        builder_ready(r),
        builder_used(r) == 0,
{
    flatbuffers::FlatBufferBuilder::new()
}

/// Relies on `FlatBufferBuilder::create_string`, which copies the string
/// into the buffer and returns a fresh offset to it, and on
/// `WIPOffset::value`, which is that offset as a number.
#[verifier::external_body]
pub(crate) fn create_string(b: &mut Fbb, s: &str) -> (r: u32)
    requires
        builder_ready(*old(b)),
        builder_used(*old(b)) + 4 * s@.len() + 32 <= wire_size_cap(),
    ensures
        builder_ready(*final(b)),
        builder_used(*final(b)) <= builder_used(*old(b)) + 4 * s@.len() + 32,
        !builder_strs(*old(b)).contains_key(r),
        builder_strs(*final(b)) == builder_strs(*old(b)).insert(r, s@),
        builder_u64_vecs(*final(b)) == builder_u64_vecs(*old(b)),
        builder_str_vecs(*final(b)) == builder_str_vecs(*old(b)),
{
    b.create_string(s).value()
}

/// Relies on `FlatBufferBuilder::create_vector` over `u64` items, which
/// stores the given scalars in order and returns a fresh offset to the
/// vector.
#[verifier::external_body]
pub(crate) fn create_u64_vector(b: &mut Fbb, items: &Vec<u64>) -> (r: u32)
    requires
        builder_ready(*old(b)),
        builder_used(*old(b)) + 8 * items@.len() + 64 <= wire_size_cap(),
    ensures
        builder_ready(*final(b)),
        builder_used(*final(b)) <= builder_used(*old(b)) + 8 * items@.len() + 64,
        !builder_u64_vecs(*old(b)).contains_key(r),
        builder_u64_vecs(*final(b)) == builder_u64_vecs(*old(b)).insert(r, items@),
        builder_strs(*final(b)) == builder_strs(*old(b)),
        builder_str_vecs(*final(b)) == builder_str_vecs(*old(b)),
{
    b.create_vector(items.as_slice()).value()
}

/// Relies on `FlatBufferBuilder::create_vector` over string offsets, which
/// stores the given offsets in order and returns a fresh offset to the
/// vector, and on `WIPOffset::new` to rebuild each typed offset.
#[verifier::external_body]
pub(crate) fn create_str_vector(b: &mut Fbb, offs: &Vec<u32>) -> (r: u32)
    requires
        builder_ready(*old(b)),
        builder_used(*old(b)) + 8 * offs@.len() + 64 <= wire_size_cap(),
        forall|i: int|
            0 <= i < offs@.len() ==> builder_strs(*old(b)).contains_key(#[trigger] offs@[i]),
    ensures
        builder_ready(*final(b)),
        builder_used(*final(b)) <= builder_used(*old(b)) + 8 * offs@.len() + 64,
        !builder_str_vecs(*old(b)).contains_key(r),
        builder_str_vecs(*final(b)) == builder_str_vecs(*old(b)).insert(
            r,
            offs@.map_values(|o: u32| builder_strs(*old(b))[o]),
        ),
        builder_strs(*final(b)) == builder_strs(*old(b)),
        builder_u64_vecs(*final(b)) == builder_u64_vecs(*old(b)),
{
    let wip: Vec<flatbuffers::WIPOffset<&'static str>> = offs
        .iter()
        .map(|o| flatbuffers::WIPOffset::new(*o))
        .collect();
    b.create_vector(wip.as_slice()).value()
}

/// Relies on `FlatBufferBuilder::finish_minimal` and `finished_data`: the
/// finished buffer reads back, at its root, exactly the vector the offset
/// points to.
#[verifier::external_body]
pub(crate) fn finish_u64_vector(b: Fbb, root: u32) -> (r: Vec<u8>)
    requires
        builder_ready(b),
        builder_used(b) + 64 <= wire_size_cap(),
        builder_u64_vecs(b).contains_key(root),
    ensures
        wire_u64_vec(r@) == Some(builder_u64_vecs(b)[root]),
{
    let mut b = b;
    b.finish_minimal(flatbuffers::WIPOffset::<flatbuffers::Vector<'static, u64>>::new(root));
    b.finished_data().to_vec()
}

/// Relies on `FlatBufferBuilder::finish_minimal` and `finished_data`, as the
/// scalar variant does.
#[verifier::external_body]
pub(crate) fn finish_str_vector(b: Fbb, root: u32) -> (r: Vec<u8>)
    requires
        builder_ready(b),
        builder_used(b) + 64 <= wire_size_cap(),
        builder_str_vecs(b).contains_key(root),
        texts_cost(builder_str_vecs(b)[root]) <= wire_size_cap(),
    ensures
        wire_str_vec(r@) == Some(builder_str_vecs(b)[root]),
{
    let mut b = b;
    b.finish_minimal(
        flatbuffers::WIPOffset::<
            flatbuffers::Vector<'static, flatbuffers::ForwardsUOffset<&'static str>>,
        >::new(root),
    );
    b.finished_data().to_vec()
}

/// Relies on `flatbuffers::root` over a scalar vector: it verifies the
/// buffer and yields the stored scalars in order.
#[verifier::external_body]
pub(crate) fn read_u64_vector(bytes: &Vec<u8>) -> (r: Option<Vec<u64>>)
    ensures
        r is Some <==> wire_u64_vec(bytes@) is Some,
        r is Some ==> r->Some_0@ == wire_u64_vec(bytes@)->Some_0,
{
    match flatbuffers::root::<flatbuffers::Vector<u64>>(bytes.as_slice()) {
        Ok(v) => Some(v.iter().collect()),
        Err(_) => None,
    }
}

/// Relies on `flatbuffers::root` over a string vector: the buffer verifies
/// as one exactly when the root read succeeds, and `Vector::len` is the
/// element count.
#[verifier::external_body]
pub(crate) fn str_vector_len(bytes: &Vec<u8>) -> (r: Option<usize>)
    ensures
        r is Some <==> wire_str_vec(bytes@) is Some,
        r is Some ==> r->Some_0 == wire_str_vec(bytes@)->Some_0.len(),
{
    match flatbuffers::root::<flatbuffers::Vector<flatbuffers::ForwardsUOffset<&str>>>(
        bytes.as_slice(),
    ) {
        Ok(v) => Some(v.len()),
        Err(_) => None,
    }
}

/// Relies on `flatbuffers::root` and `Vector::get` over a string vector:
/// element `i` of the stored vector.
#[verifier::external_body]
pub(crate) fn str_vector_get(bytes: &Vec<u8>, i: usize) -> (r: String)
    requires
        wire_str_vec(bytes@) is Some,
        i < wire_str_vec(bytes@)->Some_0.len(),
    ensures
        r@ == wire_str_vec(bytes@)->Some_0[i as int],
{
    let v = flatbuffers::root::<flatbuffers::Vector<flatbuffers::ForwardsUOffset<&str>>>(
        bytes.as_slice(),
    ).unwrap();
    v.get(i).to_string()
}

} // verus!
