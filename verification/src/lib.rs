//! A string value type optimized for short text.
//!
//! Text up to [`inner::SMALL_CAPACITY`] bytes is stored directly inside the
//! value, with no heap allocation.  Longer text lives in a heap buffer shared
//! by an atomic reference count across clones; a clone is promoted to a
//! private copy only when it is mutated (copy-on-write).
//!
//! The observable content of a value is its UTF-8 text.  Every public
//! operation carries a contract over that content, stated as a sequence of
//! bytes ([`FastString::bytes`]) and as the sequence of characters those
//! bytes encode (the view `@`).

use vstd::prelude::*;

pub mod inner;
pub mod text;

verus! {

use crate::inner::{SMALL_CAPACITY, StringInner, spec_align_capacity, spec_grow_capacity};
use crate::text::{char_at, splice_out};
use vstd::string::StringSliceAdditionalSpecFns;
use vstd::utf8::{decode_utf8, encode_scalar, is_char_boundary, valid_utf8};

/// The failure [`FastString::try_remove`] reports when the byte offset is at
/// or past the end of the content, or does not fall on a character boundary.
/// The value is left completely unchanged.
#[derive(Clone, Copy, Debug, PartialEq, Eq, Structural)]
pub struct InvalidIndex;

/// A UTF-8 string with inline storage for short text and a reference-counted,
/// copy-on-write heap buffer for long text.
pub struct FastString(StringInner);

impl View for FastString {
    type V = Seq<char>;

    /// The characters of the text the value holds.
    closed spec fn view(&self) -> Seq<char> {
        self.0@
    }
}

impl FastString {
    /// The UTF-8 bytes of the text the value holds.
    pub closed spec fn bytes(self) -> Seq<u8> {
        self.0.bytes()
    }

    /// True when the value stores its text in the shared heap buffer rather
    /// than inline.
    pub closed spec fn is_large_spec(self) -> bool {
        self.0.is_large_spec()
    }

    /// How many bytes of text the current storage can hold without growing.
    pub closed spec fn spec_capacity(self) -> int {
        self.0.spec_capacity()
    }

    /// True when `remove(idx)` is defined: `idx` is inside the content and
    /// on a character boundary.
    pub open spec fn removable(self, idx: int) -> bool {
        idx < self.bytes().len() && is_char_boundary(self.bytes(), idx)
    }

    /// The empty string; stored inline.
    pub fn new() -> (r: Self)
        ensures
            r.bytes() == Seq::<u8>::empty(),
            r@ == Seq::<char>::empty(),
            valid_utf8(r.bytes()),
            !r.is_large_spec(),
    {
        FastString(StringInner::new())
    }

    /// Builds a value holding the given text: stored inline when it fits in
    /// [`SMALL_CAPACITY`] bytes, else in one freshly allocated shared buffer.
    pub fn from(text: &str) -> (r: Self)
        ensures
            r.bytes() == text.spec_bytes(),
            r@ == text@,
            valid_utf8(r.bytes()),
            r.is_large_spec() <==> text.spec_bytes().len() > SMALL_CAPACITY,
    {
        FastString(StringInner::from(text))
    }

    /// A read-only text view over exactly the stored bytes; nothing is
    /// copied or allocated, and the result is determined by the content
    /// alone.
    pub fn as_str(&self) -> (r: &str)
        ensures
            r.spec_bytes() == self.bytes(),
            r@ == self@,
    {
        self.0.as_str()
    }

    /// How many bytes of text the value holds.
    pub fn len(&self) -> (r: usize)
        ensures
            r == self.bytes().len(),
    {
        self.0.len()
    }

    /// True when the value holds no text.
    pub fn is_empty(&self) -> (r: bool)
        ensures
            r == (self.bytes().len() == 0),
    {
        self.0.is_empty()
    }

    /// True when the text lives in the shared heap buffer; construction
    /// chooses inline storage for text of up to [`SMALL_CAPACITY`] bytes,
    /// and only a mutation that overflows the inline array moves a value to
    /// the buffer, never back.
    pub fn is_large(&self) -> (r: bool)
        ensures
            r == self.is_large_spec(),
    {
        self.0.is_large()
    }

    /// Appends the text of `string`: the content afterwards is the old
    /// content followed by `string`, byte for byte and character for
    /// character.  A value stays inline exactly as long as the new content
    /// fits the inline array; once large it stays large.
    pub fn push_str(&mut self, string: &str)
        requires
            old(self).bytes().len() + string.spec_bytes().len() <= usize::MAX,
        ensures
            final(self).bytes() == old(self).bytes() + string.spec_bytes(),
            final(self)@ == old(self)@ + string@,
            valid_utf8(final(self).bytes()),
            !old(self).is_large_spec() ==> (final(self).is_large_spec() <==> old(
                self,
            ).bytes().len() + string.spec_bytes().len() > SMALL_CAPACITY),
            old(self).is_large_spec() ==> final(self).is_large_spec(),
            !old(self).is_large_spec() && old(self).bytes().len() + string.spec_bytes().len()
                > SMALL_CAPACITY ==> final(self).spec_capacity() == spec_align_capacity(
                old(self).bytes().len() + string.spec_bytes().len() as int,
            ),
            old(self).is_large_spec() ==> (final(self).spec_capacity() == old(
                self,
            ).spec_capacity() || final(self).spec_capacity() == spec_grow_capacity(
                old(self).spec_capacity(),
                old(self).bytes().len() + string.spec_bytes().len() as int,
            ) || final(self).spec_capacity() == spec_align_capacity(
                old(self).bytes().len() + string.spec_bytes().len() as int,
            )),
            old(self).is_large_spec() && old(self).bytes().len() + string.spec_bytes().len()
                <= old(self).spec_capacity() ==> (final(self).spec_capacity() == old(
                self,
            ).spec_capacity() || final(self).spec_capacity() == spec_align_capacity(
                old(self).bytes().len() + string.spec_bytes().len() as int,
            )),
    {
        self.0.push_str(string)
    }

    /// Appends one character: its UTF-8 encoding, one to four bytes, goes
    /// through the same append path as a run of text.
    pub fn push(&mut self, ch: char)
        requires
            old(self).bytes().len() + 4 <= usize::MAX,
        ensures
            final(self).bytes() == old(self).bytes() + encode_scalar(ch as u32),
            final(self)@ == old(self)@ + seq![ch],
            valid_utf8(final(self).bytes()),
            old(self).is_large_spec() ==> final(self).is_large_spec(),
            !old(self).is_large_spec() ==> (final(self).is_large_spec() <==> old(
                self,
            ).bytes().len() + encode_scalar(ch as u32).len() > SMALL_CAPACITY),
    {
        self.0.push(ch)
    }

    /// Removes the character whose encoding starts at byte `idx` and returns
    /// it; the content afterwards is the old content with that character's
    /// bytes excised, and the storage class is kept.
    pub fn remove(&mut self, idx: usize) -> (r: char)
        requires
            old(self).removable(idx as int),
        ensures
            final(self).bytes() == splice_out(old(self).bytes(), idx as int),
            r == char_at(old(self).bytes(), idx as int),
            ({
                let obytes = old(self).bytes();
                let tail = obytes.subrange(idx as int, obytes.len() as int);
                &&& old(self)@ == decode_utf8(obytes.subrange(0, idx as int)) + decode_utf8(tail)
                &&& decode_utf8(tail).len() > 0 && r == decode_utf8(tail)[0]
                &&& final(self)@ == decode_utf8(obytes.subrange(0, idx as int)) + decode_utf8(
                    tail,
                ).drop_first()
            }),
            final(self).is_large_spec() == old(self).is_large_spec(),
            (final(self).spec_capacity() == old(self).spec_capacity()
                || final(self).spec_capacity() == spec_align_capacity(
                splice_out(old(self).bytes(), idx as int).len() as int,
            )),
    {
        self.0.remove(idx)
    }

    /// Removes the character at byte `idx` after checking the offset, and
    /// reports [`InvalidIndex`] — leaving the value untouched — exactly when
    /// the offset is at or past the end or not on a character boundary.
    pub fn try_remove(&mut self, idx: usize) -> (r: Result<char, InvalidIndex>)
        ensures
            r is Ok <==> old(self).removable(idx as int),
            r is Err ==> *final(self) == *old(self),
            r is Ok ==> final(self).bytes() == splice_out(old(self).bytes(), idx as int)
                && r->Ok_0 == char_at(old(self).bytes(), idx as int) && final(self).is_large_spec()
                == old(self).is_large_spec(),
    {
        self.0.try_remove(idx)
    }
}

impl Clone for FastString {
    /// O(1): copies the inline array, or acquires one more reference to the
    /// shared buffer; the text bytes are never copied.  Afterwards the clone
    /// and the original hold equal content, and mutating either one never
    /// changes the other.
    fn clone(&self) -> (r: Self)
        ensures
            r.bytes() == self.bytes(),
            r@ == self@,
            valid_utf8(r.bytes()),
            r.is_large_spec() == self.is_large_spec(),
            r.spec_capacity() == self.spec_capacity(),
    {
        FastString(self.0.clone())
    }
}

impl Default for FastString {
    /// The empty string, as [`FastString::new`] builds it.
    fn default() -> (r: Self)
        ensures
            r.bytes() == Seq::<u8>::empty(),
            r@ == Seq::<char>::empty(),
            valid_utf8(r.bytes()),
            !r.is_large_spec(),
    {
        FastString::new()
    }
}

/// Byte-for-byte comparison of two slices.
fn slice_eq(a: &[u8], b: &[u8]) -> (r: bool)
    ensures
        r == (a@ == b@),
{
    if a.len() != b.len() {
        return false;
    }
    let n = a.len();
    let mut i: usize = 0;
    while i < n
        invariant
            i <= n,
            n == a@.len(),
            n == b@.len(),
            forall|j: int| 0 <= j < i ==> a@[j] == b@[j],
        decreases n - i,
    {
        if a[i] != b[i] {
            return false;
        }
        i += 1;
    }
    proof {
        assert(a@ =~= b@);
    }
    true
}

impl PartialEq for FastString {
    /// Two values are equal exactly when they hold the same byte content,
    /// whatever their storage class.
    fn eq(&self, other: &FastString) -> (r: bool) {
        slice_eq(self.as_str().as_bytes(), other.as_str().as_bytes())
    }
}

impl Eq for FastString {

}

impl vstd::std_specs::cmp::PartialEqSpecImpl for FastString {
    open spec fn obeys_eq_spec() -> bool {
        true
    }

    open spec fn eq_spec(&self, other: &FastString) -> bool {
        self.bytes() == other.bytes()
    }
}

} // verus!
