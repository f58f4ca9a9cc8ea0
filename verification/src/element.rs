//! What a type must offer to be stored in the table: a hash and an equality test.
//!
//! Two elements count as equal exactly if they have the same view, and the hash of an
//! element is a function of its view, so that equal elements have equal hashes.

use core::hash::Hasher;
use std::collections::hash_map::DefaultHasher;
use vstd::bytes::spec_u16_to_le_bytes;
use vstd::bytes::spec_u32_to_le_bytes;
use vstd::bytes::spec_u64_to_le_bytes;
use vstd::bytes::u16_to_le_bytes;
use vstd::bytes::u32_to_le_bytes;
use vstd::bytes::u64_to_le_bytes;
use vstd::prelude::*;
use vstd::std_specs::hash::DefaultHasherAdditionalSpecFns;
use vstd::string::StringSliceAdditionalSpecFns;
use vstd::utf8::encode_utf8;
use vstd::utf8::encode_utf8_decode_utf8;

verus! {

/// A type whose values a table can hold.
pub trait Element: View + Sized {
    /// The hash of every element that has the view `v`.
    spec fn spec_digest(v: Self::V) -> u64;

    /// Computes the hash of this element.
    fn digest(&self) -> (h: u64)
        ensures
            h == Self::spec_digest(self@),
    ;

    /// Tells whether two elements are equal, that is, have the same view.
    fn equals(&self, other: &Self) -> (b: bool)
        ensures
            b == (self@ == other@),
    ;
}

/// A value by which an element of type `T` can be looked up. It has the view of the
/// element that it stands for, hashes as that element does, and can be compared with
/// the elements of a table.
pub trait Probe<T: Element>: View<V = T::V> {
    /// Computes the hash of the element that this value stands for.
    fn probe_digest(&self) -> (h: u64)
        ensures
            h == T::spec_digest(self@),
    ;

    /// Tells whether `stored` is the element that this value stands for.
    fn matches(&self, stored: &T) -> (b: bool)
        ensures
            b == (self@ == stored@),
    ;
}

/// Every element can be looked up by an element equal to it.
impl<T: Element> Probe<T> for T {
    fn probe_digest(&self) -> (h: u64) {
        self.digest()
    }

    fn matches(&self, stored: &T) -> (b: bool) {
        self.equals(stored)
    }
}

/// An element whose clone has the view of what was cloned, so that a table can be copied
/// slot by slot.
pub trait ExactClone: Element + Clone {
    /// Whatever `clone` returns has the view of what it was called on.
    proof fn clone_keeps_view(source: Self, copy: Self)
        requires
            cloned(source, copy),
        ensures
            source@ == copy@,
    ;
}

/// The hash that the default hasher makes of `bytes`, written to it at once.
pub open spec fn digest_of_bytes(bytes: Seq<u8>) -> u64 {
    DefaultHasher::spec_finish(seq![bytes])
}

/// The hash that the default hasher makes of a text: of its UTF-8 bytes, and behind
/// them one byte 255 that ends the text.
pub open spec fn digest_of_text(text: Seq<char>) -> u64 {
    DefaultHasher::spec_finish(seq![encode_utf8(text), seq![255u8]])
}

/// Writes `bytes` to a new default hasher and returns its hash.
pub fn hash_bytes(bytes: &[u8]) -> (h: u64)
    ensures
        h == digest_of_bytes(bytes@),
{
    let mut hasher = DefaultHasher::new();
    hasher.write(bytes);
    hasher.finish()
}

/// Writes the one byte `byte` to a new default hasher and returns its hash.
pub fn hash_byte(byte: u8) -> (h: u64)
    ensures
        h == digest_of_bytes(seq![byte]),
{
    let mut bytes: Vec<u8> = Vec::new();
    bytes.push(byte);
    proof {
        assert(bytes@ =~= seq![byte]);
    }
    hash_bytes(bytes.as_slice())
}

/// Writes `text` and the byte that ends it to a new default hasher and returns its
/// hash.
pub fn hash_text(text: &str) -> (h: u64)
    ensures
        h == digest_of_text(text@),
{
    let mut end: Vec<u8> = Vec::new();
    end.push(255u8);
    let mut hasher = DefaultHasher::new();
    hasher.write(text.as_bytes());
    hasher.write(end.as_slice());
    proof {
        assert(end@ =~= seq![255u8]);
        assert(hasher@ =~= seq![encode_utf8(text@), seq![255u8]]);
    }
    hasher.finish()
}

/// Tells whether two texts are the same, character by character.
pub fn same_text(a: &str, b: &str) -> (same: bool)
    ensures
        same == (a@ == b@),
{
    let x = a.as_bytes();
    let y = b.as_bytes();
    proof {
        encode_utf8_decode_utf8(a@);
        encode_utf8_decode_utf8(b@);
    }
    if x.len() != y.len() {
        return false;
    }
    let mut i: usize = 0;
    while i < x.len()
        invariant
            x@ == encode_utf8(a@),
            y@ == encode_utf8(b@),
            x@.len() == y@.len(),
            i <= x@.len(),
            forall|k: int| 0 <= k < i ==> x@[k] == y@[k],
        decreases x@.len() - i,
    {
        if x[i] != y[i] {
            return false;
        }
        i = i + 1;
    }
    proof {
        assert(x@ =~= y@);
    }
    true
}

/// A `u8` is hashed by its one byte.
impl Element for u8 {
    open spec fn spec_digest(v: u8) -> u64 {
        digest_of_bytes(seq![v])
    }

    fn digest(&self) -> (h: u64) {
        hash_byte(*self)
    }

    fn equals(&self, other: &Self) -> (b: bool) {
        *self == *other
    }
}

impl ExactClone for u8 {
    proof fn clone_keeps_view(source: Self, copy: Self) {
    }
}

/// A `u16` is hashed by its two bytes, the lowest first.
impl Element for u16 {
    open spec fn spec_digest(v: u16) -> u64 {
        digest_of_bytes(spec_u16_to_le_bytes(v))
    }

    fn digest(&self) -> (h: u64) {
        let bytes = u16_to_le_bytes(*self);
        hash_bytes(bytes.as_slice())
    }

    fn equals(&self, other: &Self) -> (b: bool) {
        *self == *other
    }
}

impl ExactClone for u16 {
    proof fn clone_keeps_view(source: Self, copy: Self) {
    }
}

/// A `u32` is hashed by its four bytes, the lowest first.
impl Element for u32 {
    open spec fn spec_digest(v: u32) -> u64 {
        digest_of_bytes(spec_u32_to_le_bytes(v))
    }

    fn digest(&self) -> (h: u64) {
        let bytes = u32_to_le_bytes(*self);
        hash_bytes(bytes.as_slice())
    }

    fn equals(&self, other: &Self) -> (b: bool) {
        *self == *other
    }
}

impl ExactClone for u32 {
    proof fn clone_keeps_view(source: Self, copy: Self) {
    }
}

/// A `u64` is hashed by its eight bytes, the lowest first.
impl Element for u64 {
    open spec fn spec_digest(v: u64) -> u64 {
        digest_of_bytes(spec_u64_to_le_bytes(v))
    }

    fn digest(&self) -> (h: u64) {
        let bytes = u64_to_le_bytes(*self);
        hash_bytes(bytes.as_slice())
    }

    fn equals(&self, other: &Self) -> (b: bool) {
        *self == *other
    }
}

impl ExactClone for u64 {
    proof fn clone_keeps_view(source: Self, copy: Self) {
    }
}

/// A `usize` is hashed by its eight bytes, the lowest first.
impl Element for usize {
    open spec fn spec_digest(v: usize) -> u64 {
        digest_of_bytes(spec_u64_to_le_bytes(v as u64))
    }

    fn digest(&self) -> (h: u64) {
        let bytes = u64_to_le_bytes(*self as u64);
        hash_bytes(bytes.as_slice())
    }

    fn equals(&self, other: &Self) -> (b: bool) {
        *self == *other
    }
}

impl ExactClone for usize {
    proof fn clone_keeps_view(source: Self, copy: Self) {
    }
}

/// A `i8` is hashed by its one byte.
impl Element for i8 {
    open spec fn spec_digest(v: i8) -> u64 {
        digest_of_bytes(seq![v as u8])
    }

    fn digest(&self) -> (h: u64) {
        hash_byte(#[verifier::truncate] (*self as u8))
    }

    fn equals(&self, other: &Self) -> (b: bool) {
        *self == *other
    }
}

impl ExactClone for i8 {
    proof fn clone_keeps_view(source: Self, copy: Self) {
    }
}

/// A `i16` is hashed by its two bytes, the lowest first.
impl Element for i16 {
    open spec fn spec_digest(v: i16) -> u64 {
        digest_of_bytes(spec_u16_to_le_bytes(v as u16))
    }

    fn digest(&self) -> (h: u64) {
        let bytes = u16_to_le_bytes(#[verifier::truncate] (*self as u16));
        hash_bytes(bytes.as_slice())
    }

    fn equals(&self, other: &Self) -> (b: bool) {
        *self == *other
    }
}

impl ExactClone for i16 {
    proof fn clone_keeps_view(source: Self, copy: Self) {
    }
}

/// A `i32` is hashed by its four bytes, the lowest first.
impl Element for i32 {
    open spec fn spec_digest(v: i32) -> u64 {
        digest_of_bytes(spec_u32_to_le_bytes(v as u32))
    }

    fn digest(&self) -> (h: u64) {
        let bytes = u32_to_le_bytes(#[verifier::truncate] (*self as u32));
        hash_bytes(bytes.as_slice())
    }

    fn equals(&self, other: &Self) -> (b: bool) {
        *self == *other
    }
}

impl ExactClone for i32 {
    proof fn clone_keeps_view(source: Self, copy: Self) {
    }
}

/// A `i64` is hashed by its eight bytes, the lowest first.
impl Element for i64 {
    open spec fn spec_digest(v: i64) -> u64 {
        digest_of_bytes(spec_u64_to_le_bytes(v as u64))
    }

    fn digest(&self) -> (h: u64) {
        let bytes = u64_to_le_bytes(#[verifier::truncate] (*self as u64));
        hash_bytes(bytes.as_slice())
    }

    fn equals(&self, other: &Self) -> (b: bool) {
        *self == *other
    }
}

impl ExactClone for i64 {
    proof fn clone_keeps_view(source: Self, copy: Self) {
    }
}

/// A `isize` is hashed by its eight bytes, the lowest first.
impl Element for isize {
    open spec fn spec_digest(v: isize) -> u64 {
        digest_of_bytes(spec_u64_to_le_bytes(v as u64))
    }

    fn digest(&self) -> (h: u64) {
        let bytes = u64_to_le_bytes(#[verifier::truncate] (*self as u64));
        hash_bytes(bytes.as_slice())
    }

    fn equals(&self, other: &Self) -> (b: bool) {
        *self == *other
    }
}

impl ExactClone for isize {
    proof fn clone_keeps_view(source: Self, copy: Self) {
    }
}

/// A borrowed text is hashed as the default hasher hashes a text.
impl<'a> Element for &'a str {
    open spec fn spec_digest(v: Seq<char>) -> u64 {
        digest_of_text(v)
    }

    fn digest(&self) -> (h: u64) {
        hash_text(*self)
    }

    fn equals(&self, other: &Self) -> (b: bool) {
        same_text(*self, *other)
    }
}

impl<'a> ExactClone for &'a str {
    proof fn clone_keeps_view(source: Self, copy: Self) {
    }
}

/// An owned text is hashed as the text that it holds.
impl Element for String {
    open spec fn spec_digest(v: Seq<char>) -> u64 {
        digest_of_text(v)
    }

    fn digest(&self) -> (h: u64) {
        hash_text(self.as_str())
    }

    fn equals(&self, other: &Self) -> (b: bool) {
        same_text(self.as_str(), other.as_str())
    }
}

impl ExactClone for String {
    proof fn clone_keeps_view(source: Self, copy: Self) {
    }
}

/// An owned text can be looked up by a borrowed one.
impl Probe<String> for str {
    fn probe_digest(&self) -> (h: u64) {
        hash_text(self)
    }

    fn matches(&self, stored: &String) -> (b: bool) {
        same_text(self, stored.as_str())
    }
}

} // verus!
