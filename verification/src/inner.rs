//! The tagged representation behind [`crate::FastString`]: an inline byte
//! array for short text, or a reference-counted shared heap buffer for long
//! text, together with the copy-on-write mutation algorithms.

use vstd::prelude::*;

verus! {

use crate::InvalidIndex;
use crate::text::{char_at, char_width_at, encode_char, lemma_decode_utf8_concat,
    lemma_decode_utf8_remove, lemma_first_scalar_is_scalar, scalar_to_char, splice_out,
    str_from_bytes};
use vstd::string::StringSliceAdditionalSpecFns;
use vstd::utf8::*;

/// How many bytes of text fit inline, without a heap allocation.
pub const SMALL_CAPACITY: usize = 23;

/// The representation of one string value.
///
/// `Small` holds up to [`SMALL_CAPACITY`] bytes of UTF-8 text directly in the
/// value.  `Large` holds a handle to a shared heap buffer of `capacity` bytes,
/// of which the first `len` are the text.  Construction chooses `Small`
/// whenever the text fits; a mutation that overflows the inline capacity
/// promotes the value to `Large`, and that transition is never reversed.
pub struct StringInner {
    repr: Repr,
}

#[allow(inconsistent_fields)]
enum Repr {
    Small { data: [u8; 23], len: u8 },
    Large { data: ArcVecU8, capacity: usize, len: usize },
}

/// A heap byte buffer shared by an atomic reference count.
///
/// Cloning the handle is O(1): it only increments the count.  The bytes can be
/// mutated only after [`ArcVecU8::try_into_unique`] has certified that this
/// handle is the buffer's sole owner.
pub struct ArcVecU8 {
    data: std::sync::Arc<Vec<u8>>,
}

impl View for ArcVecU8 {
    type V = Seq<u8>;

    /// The bytes of the whole buffer.
    closed spec fn view(&self) -> Seq<u8> {
        self.data@
    }
}

impl Clone for ArcVecU8 {
    /// Relies on `Arc::clone`: a new handle to the same buffer; only the
    /// reference count changes, no bytes are copied.
    #[verifier::external_body]
    fn clone(&self) -> (r: Self)
        ensures
            r@ == self@,
    {
        ArcVecU8 { data: std::sync::Arc::clone(&self.data) }
    }
}

impl ArcVecU8 {
    /// A fresh buffer of `capacity` zero bytes with a single owner.
    pub fn with_capacity(capacity: usize) -> (r: Self)
        ensures
            r@ == Seq::new(capacity as nat, |i: int| 0u8),
    {
        let v: Vec<u8> = vec![0u8; capacity];
        ArcVecU8 { data: std::sync::Arc::new(v) }
    }

    /// Wraps an owned buffer into a freshly counted handle.
    pub(crate) fn from_vec(v: Vec<u8>) -> (r: Self)
        ensures
            r@ == v@,
    {
        ArcVecU8 { data: std::sync::Arc::new(v) }
    }

    /// Read access to the whole buffer.
    pub fn as_slice(&self) -> (r: &[u8])
        ensures
            r@ == self@,
    {
        self.data.as_slice()
    }

    /// Relies on `Arc::try_unwrap`: yields the byte buffer itself when this
    /// handle is its only owner — the copy-on-write gate — and otherwise
    /// returns the handle back unchanged.
    #[verifier::external_body]
    pub(crate) fn try_into_unique(self) -> (r: Result<Vec<u8>, ArcVecU8>)
        ensures
            match r {
                Ok(v) => v@ == self@,
                Err(a) => a@ == self@,
            },
    {
        match std::sync::Arc::try_unwrap(self.data) {
            Ok(v) => Ok(v),
            Err(data) => Err(ArcVecU8 { data }),
        }
    }

    /// Rounds a capacity up to the allocation granularity of
    /// [`CACHE_LINE_SIZE`] bytes, saturating at the machine maximum.
    pub fn align_capacity(capacity: usize) -> (r: usize)
        ensures
            r == spec_align_capacity(capacity as int),
            capacity <= r,
    {
        if capacity > usize::MAX - (CACHE_LINE_SIZE - 1) {
            usize::MAX
        } else {
            proof {
                lemma_align_bounds(capacity as int);
            }
            ((capacity + (CACHE_LINE_SIZE - 1)) / CACHE_LINE_SIZE) * CACHE_LINE_SIZE
        }
    }
}

/// The allocation granularity of the shared buffer.
pub const CACHE_LINE_SIZE: usize = 64;

/// A capacity rounded up to the allocation granularity, saturating at the
/// machine maximum.
pub open spec fn spec_align_capacity(c: int) -> int {
    if c > usize::MAX - 63 {
        usize::MAX as int
    } else {
        ((c + 63) / 64) * 64
    }
}

/// The capacity the growth policy picks when `need` bytes must fit in a
/// buffer of `cap` bytes: half again the old capacity, or the needed length
/// if that is more, rounded up to the allocation granularity.
pub open spec fn spec_grow_capacity(cap: int, need: int) -> int {
    let target = if cap + cap / 2 > usize::MAX { usize::MAX as int } else { cap + cap / 2 };
    spec_align_capacity(if need >= target { need } else { target })
}

proof fn lemma_align_bounds(c: int)
    requires
        0 <= c <= usize::MAX - 63,
    ensures
        c <= ((c + 63) / 64) * 64 <= c + 63,
{
    vstd::arithmetic::div_mod::lemma_fundamental_div_mod(c + 63, 64);
    vstd::arithmetic::div_mod::lemma_mod_bound(c + 63, 64);
}

fn max(a: usize, b: usize) -> (r: usize)
    ensures
        r == if a >= b { a as int } else { b as int },
{
    if a >= b {
        a
    } else {
        b
    }
}

/// The growth policy of the shared buffer, as [`spec_grow_capacity`] states
/// it: the result always holds `need` bytes and never shrinks the buffer.
fn grow_capacity(capacity: usize, need: usize) -> (r: usize)
    ensures
        r == spec_grow_capacity(capacity as int, need as int),
        need <= r,
        capacity <= r,
{
    let half = capacity / 2;
    let target = if capacity > usize::MAX - half {
        usize::MAX
    } else {
        capacity + half
    };
    ArcVecU8::align_capacity(max(need, target))
}

/// Writes `src` into `v` at offset `at`, leaving every other byte unchanged.
fn write_bytes(v: Vec<u8>, at: usize, src: &[u8]) -> (r: Vec<u8>)
    requires
        at + src@.len() <= v@.len(),
    ensures
        r@ == v@.subrange(0, at as int) + src@ + v@.subrange(
            at + src@.len(),
            v@.len() as int,
        ),
        r@.len() == v@.len(),
{
    let mut v = v;
    let ghost orig = v@;
    let total = v.len();
    let n = src.len();
    let mut i: usize = 0;
    while i < n
        invariant
            i <= n,
            n == src@.len(),
            at + n <= orig.len(),
            total == orig.len(),
            v@.len() == orig.len(),
            forall|j: int| 0 <= j < at ==> v@[j] == orig[j],
            forall|j: int| 0 <= j < i ==> v@[at + j] == src@[j],
            forall|j: int| at + n <= j < orig.len() ==> v@[j] == orig[j],
        decreases n - i,
    {
        v.set(at + i, src[i]);
        i += 1;
    }
    proof {
        assert(v@ =~= orig.subrange(0, at as int) + src@ + orig.subrange(
            at + n,
            orig.len() as int,
        ));
    }
    v
}

/// Extends `v` with zero bytes up to length `new_len`.
fn grow_vec(v: Vec<u8>, new_len: usize) -> (r: Vec<u8>)
    requires
        v@.len() <= new_len,
    ensures
        r@.len() == new_len,
        r@.subrange(0, v@.len() as int) == v@,
{
    let mut v = v;
    v.resize(new_len, 0u8);
    v
}

/// Moves the bytes `v[from .. end]` left to start at `at`; bytes before `at`
/// and from position `at + (end - from)` on are unchanged.
fn shift_left(v: Vec<u8>, at: usize, from: usize, end: usize) -> (r: Vec<u8>)
    requires
        at <= from <= end <= v@.len(),
    ensures
        r@.len() == v@.len(),
        r@ == v@.subrange(0, at as int) + v@.subrange(from as int, end as int) + v@.subrange(
            at + (end - from),
            v@.len() as int,
        ),
{
    let mut v = v;
    let ghost orig = v@;
    let total = v.len();
    let n = end - from;
    let mut i: usize = 0;
    while i < n
        invariant
            i <= n,
            n == end - from,
            at <= from <= end <= orig.len(),
            total == orig.len(),
            v@.len() == orig.len(),
            forall|j: int| 0 <= j < at ==> v@[j] == orig[j],
            forall|j: int| 0 <= j < i ==> #[trigger] v@[at + j] == orig[from + j],
            forall|j: int| at + i <= j < orig.len() ==> v@[j] == orig[j],
        decreases n - i,
    {
        let b = v[from + i];
        v.set(at + i, b);
        i += 1;
    }
    proof {
        assert forall|k: int| at <= k < at + n implies v@[k] == orig[from + (k - at)] by {
            assert(v@[at + (k - at)] == orig[from + (k - at)]);
        }
        assert(v@ =~= orig.subrange(0, at as int) + orig.subrange(from as int, end as int)
            + orig.subrange(at + n, orig.len() as int));
    }
    v
}

impl StringInner {
    /// The UTF-8 bytes of the text: the first `len` bytes of the storage.
    pub closed spec fn bytes(self) -> Seq<u8> {
        match self.repr {
            Repr::Small { data, len } => data@.subrange(0, len as int),
            Repr::Large { data, capacity, len } => data@.subrange(0, len as int),
        }
    }

    /// True for the shared-buffer representation.
    pub closed spec fn is_large_spec(self) -> bool {
        match self.repr {
            Repr::Small { .. } => false,
            Repr::Large { .. } => true,
        }
    }

    /// How many bytes of text the current storage can hold without growing.
    pub closed spec fn spec_capacity(self) -> int {
        match self.repr {
            Repr::Small { .. } => SMALL_CAPACITY as int,
            Repr::Large { data, capacity, len } => capacity as int,
        }
    }

    /// The length field never exceeds the storage, and the stored text is
    /// valid UTF-8.
    #[verifier::type_invariant]
    spec fn wf(self) -> bool {
        &&& valid_utf8(self.bytes())
        &&& match self.repr {
            Repr::Small { data, len } => len as int <= SMALL_CAPACITY as int,
            Repr::Large { data, capacity, len } => data@.len() == capacity as int && len
                as int <= capacity as int,
        }
    }

    /// The empty string, stored inline.
    pub fn new() -> (r: Self)
        ensures
            r.bytes() == Seq::<u8>::empty(),
            r@ == Seq::<char>::empty(),
            valid_utf8(r.bytes()),
            !r.is_large_spec(),
    {
        let r = StringInner { repr: Repr::Small { data: [0u8; 23], len: 0 } };
        proof {
            assert(r.bytes() =~= Seq::<u8>::empty());
            reveal_with_fuel(decode_utf8, 1);
        }
        r
    }

    /// True when the text lives in the shared heap buffer.
    pub fn is_large(&self) -> (r: bool)
        ensures
            r == self.is_large_spec(),
    {
        match self.repr {
            Repr::Small { .. } => false,
            Repr::Large { .. } => true,
        }
    }

    /// Builds a value holding the given text: stored inline when it fits in
    /// [`SMALL_CAPACITY`] bytes, else in one freshly allocated shared buffer.
    pub fn from(text: &str) -> (r: Self)
        ensures
            r.bytes() == text.spec_bytes(),
            r@ == text@,
            valid_utf8(r.bytes()),
            r.is_large_spec() <==> text.spec_bytes().len() > SMALL_CAPACITY,
    {
        proof {
            encode_utf8_valid_utf8(text@);
            encode_utf8_decode_utf8(text@);
        }
        let b: &[u8] = text.as_bytes();
        let n = b.len();
        if n <= SMALL_CAPACITY {
            let data = small_from_slice(b);
            let r = StringInner { repr: Repr::Small { data, len: n as u8 } };
            proof {
                assert(r.bytes() =~= b@);
            }
            r
        } else {
            let cap = ArcVecU8::align_capacity(n);
            let v = grow_vec(Vec::new(), cap);
            let v = write_bytes(v, 0, b);
            proof {
                assert(v@.subrange(0, n as int) =~= b@);
            }
            let r = StringInner {
                repr: Repr::Large { data: ArcVecU8::from_vec(v), capacity: cap, len: n },
            };
            r
        }
    }

    /// Appends one run of valid UTF-8 bytes, dispatching on the
    /// representation: in place while the inline array or an exclusively
    /// owned buffer with enough capacity suffices, promoting to a shared
    /// buffer when the inline array overflows, growing by the
    /// [`spec_grow_capacity`] policy when an exclusively owned buffer is too
    /// small, and copying into a fresh buffer when the buffer is shared with
    /// another owner (copy-on-write).
    fn append_bytes(&mut self, b: &[u8])
        requires
            valid_utf8(b@),
            old(self).bytes().len() + b@.len() <= usize::MAX,
        ensures
            final(self).bytes() == old(self).bytes() + b@,
            !old(self).is_large_spec() ==> (final(self).is_large_spec() <==> old(
                self,
            ).bytes().len() + b@.len() > SMALL_CAPACITY),
            old(self).is_large_spec() ==> final(self).is_large_spec(),
            !old(self).is_large_spec() && old(self).bytes().len() + b@.len() > SMALL_CAPACITY
                ==> final(self).spec_capacity() == spec_align_capacity(
                old(self).bytes().len() + b@.len() as int,
            ),
            old(self).is_large_spec() ==> final(self).spec_capacity() == old(
                self,
            ).spec_capacity() || final(self).spec_capacity() == spec_grow_capacity(
                old(self).spec_capacity(),
                old(self).bytes().len() + b@.len() as int,
            ) || final(self).spec_capacity() == spec_align_capacity(
                old(self).bytes().len() + b@.len() as int,
            ),
            old(self).is_large_spec() && old(self).bytes().len() + b@.len() <= old(
                self,
            ).spec_capacity() ==> final(self).spec_capacity() == old(self).spec_capacity()
                || final(self).spec_capacity() == spec_align_capacity(
                old(self).bytes().len() + b@.len() as int,
            ),
    {
        proof {
            use_type_invariant(&*self);
        }
        let ghost obytes = self.bytes();
        let mut cur = StringInner::new();
        core::mem::swap(self, &mut cur);
        let n = b.len();
        let next = match cur.repr {
            Repr::Small { data, len } => {
                let old_len = len as usize;
                let new_len = old_len + n;
                proof {
                    valid_utf8_concat(obytes, b@);
                }
                if new_len <= SMALL_CAPACITY {
                    let data2 = write_small(data, old_len, b);
                    proof {
                        assert(data2@.subrange(0, new_len as int) =~= obytes + b@);
                    }
                    StringInner { repr: Repr::Small { data: data2, len: new_len as u8 } }
                } else {
                    let cap = ArcVecU8::align_capacity(new_len);
                    let v = grow_vec(Vec::new(), cap);
                    let s = data.as_slice();
                    let v = write_bytes(v, 0, &s[0..old_len]);
                    let v = write_bytes(v, old_len, b);
                    proof {
                        assert(v@.subrange(0, new_len as int) =~= obytes + b@);
                    }
                    StringInner {
                        repr: Repr::Large {
                            data: ArcVecU8::from_vec(v),
                            capacity: cap,
                            len: new_len,
                        },
                    }
                }
            },
            Repr::Large { data, capacity, len } => {
                let old_len = len;
                let new_len = old_len + n;
                proof {
                    valid_utf8_concat(obytes, b@);
                }
                match data.try_into_unique() {
                    Ok(v) => {
                        let ghost shared_view = v@;
                        let mut cap = capacity;
                        let mut v = v;
                        if cap < new_len {
                            let new_cap = grow_capacity(cap, new_len);
                            v = grow_vec(v, new_cap);
                            proof {
                                assert(v@.subrange(0, old_len as int) =~= shared_view.subrange(
                                    0,
                                    old_len as int,
                                ));
                            }
                            cap = new_cap;
                        }
                        let v = write_bytes(v, old_len, b);
                        proof {
                            assert(v@.subrange(0, new_len as int) =~= obytes + b@);
                        }
                        StringInner {
                            repr: Repr::Large {
                                data: ArcVecU8::from_vec(v),
                                capacity: cap,
                                len: new_len,
                            },
                        }
                    },
                    Err(shared) => {
                        let cap = ArcVecU8::align_capacity(new_len);
                        let v = grow_vec(Vec::new(), cap);
                        let s = shared.as_slice();
                        let v = write_bytes(v, 0, &s[0..old_len]);
                        let v = write_bytes(v, old_len, b);
                        proof {
                            assert(v@.subrange(0, new_len as int) =~= obytes + b@);
                        }
                        StringInner {
                            repr: Repr::Large {
                                data: ArcVecU8::from_vec(v),
                                capacity: cap,
                                len: new_len,
                            },
                        }
                    },
                }
            },
        };
        *self = next;
    }

    /// Appends the text of `string`; the content afterwards is the old
    /// content followed by `string`, byte for byte and character for
    /// character.
    pub fn push_str(&mut self, string: &str)
        requires
            old(self).bytes().len() + string.spec_bytes().len() <= usize::MAX,
        ensures
            final(self).bytes() == old(self).bytes() + string.spec_bytes(),
            final(self)@ == old(self)@ + string@,
            valid_utf8(final(self).bytes()),
            !old(self).is_large_spec() ==> (final(self).is_large_spec() <==> old(
                self,
            ).bytes().len() + string.spec_bytes().len() > SMALL_CAPACITY),
            old(self).is_large_spec() ==> final(self).is_large_spec(),
            !old(self).is_large_spec() && old(self).bytes().len() + string.spec_bytes().len()
                > SMALL_CAPACITY ==> final(self).spec_capacity() == spec_align_capacity(
                old(self).bytes().len() + string.spec_bytes().len() as int,
            ),
            old(self).is_large_spec() ==> (final(self).spec_capacity() == old(
                self,
            ).spec_capacity() || final(self).spec_capacity() == spec_grow_capacity(
                old(self).spec_capacity(),
                old(self).bytes().len() + string.spec_bytes().len() as int,
            ) || final(self).spec_capacity() == spec_align_capacity(
                old(self).bytes().len() + string.spec_bytes().len() as int,
            )),
            old(self).is_large_spec() && old(self).bytes().len() + string.spec_bytes().len()
                <= old(self).spec_capacity() ==> (final(self).spec_capacity() == old(
                self,
            ).spec_capacity() || final(self).spec_capacity() == spec_align_capacity(
                old(self).bytes().len() + string.spec_bytes().len() as int,
            )),
    {
        proof {
            use_type_invariant(&*self);
            encode_utf8_valid_utf8(string@);
            encode_utf8_decode_utf8(string@);
            lemma_decode_utf8_concat(self.bytes(), string.spec_bytes());
        }
        let b: &[u8] = string.as_bytes();
        self.append_bytes(b);
    }

    /// Appends one character: its UTF-8 encoding, one to four bytes, goes
    /// through the same append path as a run of text.
    pub fn push(&mut self, ch: char)
        requires
            old(self).bytes().len() + 4 <= usize::MAX,
        ensures
            final(self).bytes() == old(self).bytes() + encode_scalar(ch as u32),
            final(self)@ == old(self)@ + seq![ch],
            valid_utf8(final(self).bytes()),
            old(self).is_large_spec() ==> final(self).is_large_spec(),
            !old(self).is_large_spec() ==> (final(self).is_large_spec() <==> old(
                self,
            ).bytes().len() + encode_scalar(ch as u32).len() > SMALL_CAPACITY),
            old(self).is_large_spec() ==> (final(self).spec_capacity() == old(
                self,
            ).spec_capacity() || final(self).spec_capacity() == spec_grow_capacity(
                old(self).spec_capacity(),
                old(self).bytes().len() + encode_scalar(ch as u32).len() as int,
            ) || final(self).spec_capacity() == spec_align_capacity(
                old(self).bytes().len() + encode_scalar(ch as u32).len() as int,
            )),
    {
        proof {
            use_type_invariant(&*self);
        }
        let (buf, k) = encode_char(ch);
        let s = buf.as_slice();
        let sub: &[u8] = &s[0..k];
        proof {
            char_is_scalar(ch);
            assert(sub@ == encode_scalar(ch as u32));
            assert(encode_scalar(ch as u32) + encode_utf8(Seq::<char>::empty()) == encode_scalar(
                ch as u32,
            )) by {
                assert(encode_scalar(ch as u32) + Seq::<u8>::empty() =~= encode_scalar(
                    ch as u32,
                ));
            }
            assert(sub@ == encode_utf8(seq![ch])) by {
                assert(seq![ch].drop_first() =~= Seq::<char>::empty());
            }
            encode_utf8_valid_utf8(seq![ch]);
            encode_utf8_decode_utf8(seq![ch]);
            lemma_decode_utf8_concat(self.bytes(), sub@);
        }
        self.append_bytes(sub);
    }

    /// How many bytes of text the value holds.
    pub fn len(&self) -> (r: usize)
        ensures
            r == self.bytes().len(),
    {
        proof {
            use_type_invariant(self);
        }
        match &self.repr {
            Repr::Small { data, len } => *len as usize,
            Repr::Large { data, capacity, len } => *len,
        }
    }

    /// True when the value holds no text.
    pub fn is_empty(&self) -> (r: bool)
        ensures
            r == (self.bytes().len() == 0),
    {
        self.len() == 0
    }

    /// The stored byte at offset `i`.
    fn byte_at(&self, i: usize) -> (r: u8)
        requires
            i < self.bytes().len(),
        ensures
            r == self.bytes()[i as int],
    {
        proof {
            use_type_invariant(self);
        }
        match &self.repr {
            Repr::Small { data, len } => data[i],
            Repr::Large { data, capacity, len } => {
                let s = data.as_slice();
                s[i]
            },
        }
    }

    /// Reads the character whose encoding starts at byte `idx`, and the width
    /// of that encoding, without changing the value.
    fn decode_at(&self, idx: usize) -> (r: (char, usize))
        requires
            idx < self.bytes().len(),
            is_char_boundary(self.bytes(), idx as int),
        ensures
            ({
                let tail = self.bytes().subrange(idx as int, self.bytes().len() as int);
                &&& valid_first_scalar(tail)
                &&& r.1 == length_of_first_scalar(tail)
                &&& r.0 as u32 == decode_first_scalar(tail)
                &&& 1 <= r.1 <= 4
                &&& idx + r.1 <= self.bytes().len()
            }),
    {
        proof {
            use_type_invariant(self);
        }
        let ghost bytes = self.bytes();
        let ghost tail = bytes.subrange(idx as int, bytes.len() as int);
        proof {
            valid_utf8_split(bytes, idx as int);
            assert(valid_first_scalar(tail));
            lemma_first_scalar_is_scalar(tail);
            is_char_boundary_iff_not_is_continuation_byte(bytes, idx as int);
            assert(tail[0] == bytes[idx as int]);
        }
        let b0 = self.byte_at(idx);
        if b0 < 0x80 {
            proof {
                assert((b0 & 0x7F) as u32 == b0 as u32) by (bit_vector)
                    requires
                        b0 < 0x80,
                ;
            }
            let c = scalar_to_char(b0 as u32);
            (c, 1)
        } else if b0 < 0xE0 {
            proof {
                assert(tail.len() >= 2 && is_continuation_byte(tail[1]));
                assert(tail[1] == bytes[idx + 1]);
            }
            let b1 = self.byte_at(idx + 1);
            let v: u32 = (((b0 & 0x1F) as u32) << 6u32) | ((b1 & 0x3F) as u32);
            let c = scalar_to_char(v);
            (c, 2)
        } else if b0 < 0xF0 {
            proof {
                assert(tail.len() >= 3 && is_continuation_byte(tail[1]) && is_continuation_byte(
                    tail[2],
                ));
                assert(tail[1] == bytes[idx + 1] && tail[2] == bytes[idx + 2]);
            }
            let b1 = self.byte_at(idx + 1);
            let b2 = self.byte_at(idx + 2);
            let v: u32 = (((b0 & 0x0F) as u32) << 12u32) | (((b1 & 0x3F) as u32) << 6u32) | ((b2
                & 0x3F) as u32);
            let c = scalar_to_char(v);
            (c, 3)
        } else {
            proof {
                assert(tail.len() >= 4 && is_continuation_byte(tail[1]) && is_continuation_byte(
                    tail[2],
                ) && is_continuation_byte(tail[3]));
                assert(tail[1] == bytes[idx + 1] && tail[2] == bytes[idx + 2] && tail[3]
                    == bytes[idx + 3]);
            }
            let b1 = self.byte_at(idx + 1);
            let b2 = self.byte_at(idx + 2);
            let b3 = self.byte_at(idx + 3);
            let v: u32 = (((b0 & 0x07) as u32) << 18u32) | (((b1 & 0x3F) as u32) << 12u32) | (((b2
                & 0x3F) as u32) << 6u32) | ((b3 & 0x3F) as u32);
            let c = scalar_to_char(v);
            (c, 4)
        }
    }

    /// Removes the character whose encoding starts at byte `idx` and returns
    /// it; the following bytes move left to close the gap.  In place on the
    /// inline array or an exclusively owned buffer; a buffer shared with
    /// another owner is replaced by a fresh copy that skips the removed bytes.
    pub fn remove(&mut self, idx: usize) -> (r: char)
        requires
            idx < old(self).bytes().len(),
            is_char_boundary(old(self).bytes(), idx as int),
        ensures
            ({
                let obytes = old(self).bytes();
                let tail = obytes.subrange(idx as int, obytes.len() as int);
                &&& final(self).bytes() == splice_out(obytes, idx as int)
                &&& r == char_at(obytes, idx as int)
                &&& encode_scalar(r as u32) == obytes.subrange(
                    idx as int,
                    idx + char_width_at(obytes, idx as int),
                )
                &&& old(self)@ == decode_utf8(obytes.subrange(0, idx as int)) + decode_utf8(tail)
                &&& decode_utf8(tail).len() > 0 && r == decode_utf8(tail)[0]
                &&& final(self)@ == decode_utf8(obytes.subrange(0, idx as int)) + decode_utf8(
                    tail,
                ).drop_first()
                &&& final(self).is_large_spec() == old(self).is_large_spec()
                &&& (final(self).spec_capacity() == old(self).spec_capacity()
                    || final(self).spec_capacity() == spec_align_capacity(
                    splice_out(obytes, idx as int).len() as int,
                ))
            }),
    {
        proof {
            use_type_invariant(&*self);
        }
        let ghost obytes = self.bytes();
        let (c, k) = self.decode_at(idx);
        let next = idx + k;
        proof {
            lemma_decode_utf8_remove(obytes, idx as int);
            let tail = obytes.subrange(idx as int, obytes.len() as int);
            char_u32_cast(c, decode_first_scalar(tail));
            char_u32_cast(decode_utf8(tail)[0], decode_first_scalar(tail));
        }
        let mut cur = StringInner::new();
        core::mem::swap(self, &mut cur);
        let next_inner = match cur.repr {
            Repr::Small { data, len } => {
                let old_len = len as usize;
                let new_len = old_len - k;
                let data2 = shift_small(data, idx, next, old_len);
                proof {
                    assert(data2@.subrange(0, new_len as int) =~= splice_out(obytes, idx as int));
                }
                StringInner { repr: Repr::Small { data: data2, len: new_len as u8 } }
            },
            Repr::Large { data, capacity, len } => {
                let old_len = len;
                let new_len = old_len - k;
                match data.try_into_unique() {
                    Ok(v) => {
                        let v2 = shift_left(v, idx, next, old_len);
                        proof {
                            assert(v2@.subrange(0, new_len as int) =~= splice_out(
                                obytes,
                                idx as int,
                            ));
                        }
                        StringInner {
                            repr: Repr::Large {
                                data: ArcVecU8::from_vec(v2),
                                capacity,
                                len: new_len,
                            },
                        }
                    },
                    Err(shared) => {
                        let cap = ArcVecU8::align_capacity(new_len);
                        let v = grow_vec(Vec::new(), cap);
                        let s = shared.as_slice();
                        let v = write_bytes(v, 0, &s[0..idx]);
                        let v = write_bytes(v, idx, &s[next..old_len]);
                        proof {
                            assert(v@.subrange(0, new_len as int) =~= splice_out(
                                obytes,
                                idx as int,
                            ));
                        }
                        StringInner {
                            repr: Repr::Large {
                                data: ArcVecU8::from_vec(v),
                                capacity: cap,
                                len: new_len,
                            },
                        }
                    },
                }
            },
        };
        *self = next_inner;
        c
    }

    /// True when `remove(idx)` is defined: `idx` is inside the content and on
    /// a character boundary.
    pub open spec fn removable(self, idx: int) -> bool {
        idx < self.bytes().len() && is_char_boundary(self.bytes(), idx)
    }

    /// Removes the character at byte `idx` after checking the offset, and
    /// reports [`InvalidIndex`] — leaving the value untouched — exactly when
    /// the offset is at or past the end or not on a character boundary.
    pub fn try_remove(&mut self, idx: usize) -> (r: Result<char, InvalidIndex>)
        ensures
            r is Ok <==> old(self).removable(idx as int),
            r is Err ==> *final(self) == *old(self),
            r is Ok ==> final(self).bytes() == splice_out(old(self).bytes(), idx as int)
                && r->Ok_0 == char_at(old(self).bytes(), idx as int) && final(self).is_large_spec()
                == old(self).is_large_spec(),
    {
        proof {
            use_type_invariant(&*self);
        }
        let n = self.len();
        if idx >= n {
            proof {
                assert(!old(self).removable(idx as int));
            }
            Err(InvalidIndex)
        } else {
            let b0 = self.byte_at(idx);
            proof {
                is_char_boundary_iff_not_is_continuation_byte(self.bytes(), idx as int);
            }
            if 0x80 <= b0 && b0 < 0xC0 {
                Err(InvalidIndex)
            } else {
                Ok(self.remove(idx))
            }
        }
    }

    /// A read-only text view over exactly the stored bytes; nothing is
    /// copied or allocated.
    pub fn as_str(&self) -> (r: &str)
        ensures
            r.spec_bytes() == self.bytes(),
            r@ == self@,
    {
        proof {
            use_type_invariant(self);
        }
        let r = match &self.repr {
            Repr::Small { data, len } => {
                let s: &[u8] = data.as_slice();
                let sub: &[u8] = &s[0..(*len as usize)];
                proof {
                    assert(sub@ =~= self.bytes());
                }
                str_from_bytes(sub)
            },
            Repr::Large { data, capacity, len } => {
                let s: &[u8] = data.as_slice();
                let sub: &[u8] = &s[0..*len];
                proof {
                    assert(sub@ =~= self.bytes());
                }
                str_from_bytes(sub)
            },
        };
        proof {
            encode_utf8_decode_utf8(r@);
        }
        r
    }
}

/// Copies up to [`SMALL_CAPACITY`] bytes into a fresh inline array.
fn small_from_slice(src: &[u8]) -> (r: [u8; 23])
    requires
        src@.len() <= 23,
    ensures
        r@.subrange(0, src@.len() as int) == src@,
{
    let mut a = [0u8; 23];
    let n = src.len();
    let mut i: usize = 0;
    while i < n
        invariant
            i <= n,
            n == src@.len(),
            n <= 23,
            forall|j: int| 0 <= j < i ==> a@[j] == src@[j],
        decreases n - i,
    {
        a[i] = src[i];
        i += 1;
    }
    proof {
        assert(a@.subrange(0, n as int) =~= src@);
    }
    a
}

/// Writes `src` into the inline array at offset `at`, leaving every other
/// byte unchanged.
fn write_small(a: [u8; 23], at: usize, src: &[u8]) -> (r: [u8; 23])
    requires
        at + src@.len() <= 23,
    ensures
        r@ == a@.subrange(0, at as int) + src@ + a@.subrange(at + src@.len(), 23),
{
    let mut a = a;
    let ghost orig = a@;
    let n = src.len();
    let mut i: usize = 0;
    while i < n
        invariant
            i <= n,
            n == src@.len(),
            at + n <= 23,
            a@.len() == 23,
            forall|j: int| 0 <= j < at ==> a@[j] == orig[j],
            forall|j: int| 0 <= j < i ==> a@[at + j] == src@[j],
            forall|j: int| at + n <= j < 23 ==> a@[j] == orig[j],
        decreases n - i,
    {
        a[at + i] = src[i];
        i += 1;
    }
    proof {
        assert(a@ =~= orig.subrange(0, at as int) + src@ + orig.subrange(at + n, 23));
    }
    a
}

/// Moves the inline bytes `a[from .. end]` left to start at `at`; bytes
/// before `at` and from position `at + (end - from)` on are unchanged.
fn shift_small(a: [u8; 23], at: usize, from: usize, end: usize) -> (r: [u8; 23])
    requires
        at <= from <= end <= 23,
    ensures
        r@ == a@.subrange(0, at as int) + a@.subrange(from as int, end as int) + a@.subrange(
            at + (end - from),
            23,
        ),
{
    let mut a = a;
    let ghost orig = a@;
    let n = end - from;
    let mut i: usize = 0;
    while i < n
        invariant
            i <= n,
            n == end - from,
            at <= from <= end <= 23,
            a@.len() == 23,
            forall|j: int| 0 <= j < at ==> a@[j] == orig[j],
            forall|j: int| 0 <= j < i ==> #[trigger] a@[at + j] == orig[from + j],
            forall|j: int| at + i <= j < 23 ==> a@[j] == orig[j],
        decreases n - i,
    {
        let b = a[from + i];
        a[at + i] = b;
        i += 1;
    }
    proof {
        assert forall|k: int| at <= k < at + n implies a@[k] == orig[from + (k - at)] by {
            assert(a@[at + (k - at)] == orig[from + (k - at)]);
        }
        assert(a@ =~= orig.subrange(0, at as int) + orig.subrange(from as int, end as int)
            + orig.subrange(at + n, 23));
    }
    a
}

impl View for StringInner {
    type V = Seq<char>;

    /// The characters encoded by the stored bytes.
    closed spec fn view(&self) -> Seq<char> {
        decode_utf8(self.bytes())
    }
}

impl Clone for StringInner {
    /// O(1): copies the inline array, or acquires one more reference to the
    /// shared buffer; the text bytes are never copied.
    fn clone(&self) -> (r: Self)
        ensures
            r.bytes() == self.bytes(),
            r@ == self@,
            valid_utf8(r.bytes()),
            r.is_large_spec() == self.is_large_spec(),
            r.spec_capacity() == self.spec_capacity(),
    {
        proof {
            use_type_invariant(self);
        }
        match &self.repr {
            Repr::Small { data, len } => StringInner {
                repr: Repr::Small { data: *data, len: *len },
            },
            Repr::Large { data, capacity, len } => StringInner {
                repr: Repr::Large { data: data.clone(), capacity: *capacity, len: *len },
            },
        }
    }
}

} // verus!
