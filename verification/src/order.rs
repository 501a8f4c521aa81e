//! The total order that set elements and map keys must carry.  The order is
//! stated over views, so that two values with the same view compare equal.

use vstd::prelude::*;
use crate::text::{chars_le, lex_le, lemma_lex_antisym, lemma_lex_total, lemma_lex_trans, str_chars};

verus! {

/// A total order over the view of a type.  `le` decides the order at run
/// time; the three lemmas oblige every implementor to a genuine total order.
pub trait TotalOrd: View + Sized {
    spec fn le_spec(a: Self::V, b: Self::V) -> bool;

    fn le(&self, other: &Self) -> (r: bool)
        ensures
            r == Self::le_spec(self@, other@),
    ;

    proof fn lemma_total(a: Self::V, b: Self::V)
        ensures
            Self::le_spec(a, b) || Self::le_spec(b, a),
    ;

    proof fn lemma_antisym(a: Self::V, b: Self::V)
        ensures
            Self::le_spec(a, b) && Self::le_spec(b, a) ==> a == b,
    ;

    proof fn lemma_trans(a: Self::V, b: Self::V, c: Self::V)
        ensures
            Self::le_spec(a, b) && Self::le_spec(b, c) ==> Self::le_spec(a, c),
    ;
}

impl TotalOrd for u64 {
    open spec fn le_spec(a: u64, b: u64) -> bool {
        a <= b
    }

    fn le(&self, other: &Self) -> (r: bool) {
        *self <= *other
    }

    proof fn lemma_total(a: u64, b: u64) {
    }

    proof fn lemma_antisym(a: u64, b: u64) {
    }

    proof fn lemma_trans(a: u64, b: u64, c: u64) {
    }
}

impl TotalOrd for String {
    open spec fn le_spec(a: Seq<char>, b: Seq<char>) -> bool {
        lex_le(a, b)
    }

    fn le(&self, other: &Self) -> (r: bool) {
        let ac = str_chars(self.as_str());
        let bc = str_chars(other.as_str());
        chars_le(&ac, &bc)
    }

    proof fn lemma_total(a: Seq<char>, b: Seq<char>) {
        lemma_lex_total(a, b);
    }

    proof fn lemma_antisym(a: Seq<char>, b: Seq<char>) {
        lemma_lex_antisym(a, b);
    }

    proof fn lemma_trans(a: Seq<char>, b: Seq<char>, c: Seq<char>) {
        lemma_lex_trans(a, b, c);
    }
}

} // verus!
