//! A growable byte buffer whose storage is obtained exclusively through the
//! tagged allocation scheme of [`crate::heap`].
//!
//! The buffer tracks a length (the bytes in use) and a capacity (the size of
//! the tagged body holding them); its view is the sequence of bytes in use.
//! Out-of-range starts, ends and offsets are clamped or zero-filled rather
//! than reported as errors, and every grow or shrink requests exactly the
//! needed capacity, rounded only to the system alignment.

use crate::align::{lemma_round_up_properties, round_up, SYS_ALIGN_SIZE};
use crate::heap::{lemma_zptr_capacity_bounds, zmalloc, zrealloc, ZPtr, ZMEM_HEADER_SIZE};
use crate::mem::{lemma_lex_cmp_skip, lex_cmp_bytes};
use core::cmp::Ordering;
use vstd::prelude::*;
use vstd::slice::{slice_subrange, slice_to_vec};
use vstd::string::StringSliceAdditionalSpecFns;

verus! {

/// A length- and capacity-tracked byte sequence backed by one tagged block.
#[derive(Clone, Debug)]
pub struct RString {
    len: usize,
    cap: usize,
    data: ZPtr,
}

impl View for RString {
    type V = Seq<u8>;

    closed spec fn view(&self) -> Seq<u8> {
        let body = match self.data@ {
            None => Seq::<u8>::empty(),
            Some(b) => b,
        };
        if self.len <= body.len() {
            body.take(self.len as int)
        } else {
            body
        }
    }
}

/// `end` clamped to the length of `s`.
pub open spec fn spec_clamped_end(s: Seq<u8>, end: int) -> int {
    if end <= s.len() {
        end
    } else {
        s.len() as int
    }
}

/// The bytes `[start, end)` of `s`, with `end` clamped to the length of `s`;
/// empty when the clamped range is empty.
pub open spec fn spec_sub(s: Seq<u8>, start: int, end: int) -> Seq<u8> {
    let e = spec_clamped_end(s, end);
    if start < e {
        s.subrange(start, e)
    } else {
        Seq::<u8>::empty()
    }
}

/// `s` with `x` written at `offset`: the bytes before `offset` are kept, a
/// gap between the end of `s` and `offset` is zero-filled, and whatever of
/// `s` lies beyond the written range is kept as well.
pub open spec fn spec_replace(s: Seq<u8>, offset: int, x: Seq<u8>) -> Seq<u8>
    recommends
        0 <= offset,
{
    if offset > s.len() {
        s + Seq::new((offset - s.len()) as nat, |i: int| 0u8) + x
    } else if offset + x.len() >= s.len() {
        s.take(offset) + x
    } else {
        s.take(offset) + x + s.skip(offset + x.len())
    }
}

/// The capacity left by a reservation of `extra` more bytes: unchanged when
/// the spare room sufficed, and otherwise exactly the needed length rounded
/// to the system alignment.
pub open spec fn spec_reserved_capacity(cap: int, len: int, extra: int) -> int {
    if cap - len >= extra {
        cap
    } else {
        round_up(len + extra, SYS_ALIGN_SIZE as int)
    }
}

impl RString {
    /// The buffer always owns a well-formed non-null tagged block whose body
    /// size is the tracked capacity, and never uses more than it owns.
    pub closed spec fn wf(&self) -> bool {
        &&& self.data.wf()
        &&& self.data@ matches Some(b) && b.len() == self.cap
        &&& self.len <= self.cap
    }

    /// The tracked capacity, in bytes.
    pub closed spec fn spec_capacity(&self) -> int {
        self.cap as int
    }

    /// A well-formed buffer's capacity is a multiple of the system alignment
    /// and leaves room for one more header and alignment step, so any
    /// in-range resize target fits in a machine word.
    pub proof fn lemma_capacity_bounds(&self)
        requires
            self.wf(),
        ensures
            self@.len() <= self.spec_capacity(),
            self.spec_capacity() as int % SYS_ALIGN_SIZE as int == 0,
            self.spec_capacity() + ZMEM_HEADER_SIZE + SYS_ALIGN_SIZE - 1 <= usize::MAX,
    {
        lemma_zptr_capacity_bounds(self.data);
    }

    /// An empty buffer with a capacity of at least `capacity` bytes.
    pub fn with_capacity(capacity: usize) -> (r: RString)
        requires
            capacity + ZMEM_HEADER_SIZE + SYS_ALIGN_SIZE - 1 <= usize::MAX,
        ensures
            r.wf(),
            r@ == Seq::<u8>::empty(),
            r.spec_capacity() == round_up(capacity as int, SYS_ALIGN_SIZE as int),
    {
        let (zp, cap) = zmalloc(capacity);
        let r = RString { len: 0, cap, data: zp };
        proof {
            assert(r@ =~= Seq::<u8>::empty());
        }
        r
    }

    /// An empty buffer with no capacity beyond its header block.
    pub fn new() -> (r: RString)
        ensures
            r.wf(),
            r@ == Seq::<u8>::empty(),
            r.spec_capacity() == 0,
    {
        Self::with_capacity(0)
    }

    /// Count of bytes in use.
    pub fn len(&self) -> (r: usize)
        requires
            self.wf(),
        ensures
            r == self@.len(),
    {
        self.len
    }

    /// Size of the owned storage, in bytes.
    pub fn capacity(&self) -> (r: usize)
        requires
            self.wf(),
        ensures
            r == self.spec_capacity(),
    {
        self.cap
    }

    /// Bytes of storage not yet in use.
    pub fn avail(&self) -> (r: usize)
        requires
            self.wf(),
        ensures
            r == self.spec_capacity() - self@.len(),
    {
        self.cap - self.len
    }

    /// Whether no bytes are in use.
    pub fn is_empty(&self) -> (r: bool)
        requires
            self.wf(),
        ensures
            r == (self@.len() == 0),
    {
        self.len == 0
    }

    /// Whether the bytes in use fill the whole storage.
    pub fn is_full(&self) -> (r: bool)
        requires
            self.wf(),
        ensures
            r == (self@.len() == self.spec_capacity()),
    {
        self.cap - self.len == 0
    }

    /// Forgets all bytes in use; the storage is untouched.
    pub fn clear(&mut self)
        requires
            old(self).wf(),
        ensures
            final(self).wf(),
            final(self)@ == Seq::<u8>::empty(),
            final(self).spec_capacity() == old(self).spec_capacity(),
    {
        self.len = 0;
        proof {
            assert(self@ =~= Seq::<u8>::empty());
        }
    }

    /// Shrinks the length to `new_len` if that is shorter; never grows and
    /// never reallocates.
    pub fn truncate(&mut self, new_len: usize)
        requires
            old(self).wf(),
        ensures
            final(self).wf(),
            final(self)@ == if new_len < old(self)@.len() {
                old(self)@.take(new_len as int)
            } else {
                old(self)@
            },
            final(self).spec_capacity() == old(self).spec_capacity(),
    {
        if new_len < self.len {
            self.len = new_len;
            proof {
                assert(self@ =~= old(self)@.take(new_len as int));
            }
        }
    }

    /// Reallocates the storage to hold exactly `max(len, min_capacity)`
    /// bytes, rounded to the system alignment; the bytes in use are kept.
    fn resize(&mut self, min_capacity: usize)
        requires
            old(self).wf(),
            min_capacity + ZMEM_HEADER_SIZE + SYS_ALIGN_SIZE - 1 <= usize::MAX,
        ensures
            final(self).wf(),
            final(self)@ == old(self)@,
            final(self).spec_capacity() == round_up(
                if old(self)@.len() >= min_capacity {
                    old(self)@.len() as int
                } else {
                    min_capacity as int
                },
                SYS_ALIGN_SIZE as int,
            ),
    {
        proof {
            lemma_zptr_capacity_bounds(self.data);
        }
        let target: usize = if self.len >= min_capacity {
            self.len
        } else {
            min_capacity
        };
        let mut zp = ZPtr::null();
        core::mem::swap(&mut self.data, &mut zp);
        let (nzp, ncap) = zrealloc(zp, target);
        self.data = nzp;
        self.cap = ncap;
        proof {
            lemma_round_up_properties(target as int, SYS_ALIGN_SIZE as int);
            assert(self@ =~= old(self)@);
        }
    }

    /// Ensures at least `extra` spare bytes, reallocating to exactly
    /// `len + extra` (rounded to the system alignment) when the spare room
    /// does not suffice.
    pub fn reserve(&mut self, extra: usize)
        requires
            old(self).wf(),
            old(self)@.len() + extra + ZMEM_HEADER_SIZE + SYS_ALIGN_SIZE - 1 <= usize::MAX,
        ensures
            final(self).wf(),
            final(self)@ == old(self)@,
            final(self).spec_capacity() == spec_reserved_capacity(
                old(self).spec_capacity(),
                old(self)@.len() as int,
                extra as int,
            ),
            final(self).spec_capacity() - final(self)@.len() >= extra,
    {
        if self.avail() < extra {
            self.resize(self.len + extra);
            proof {
                lemma_round_up_properties(old(self)@.len() + extra, SYS_ALIGN_SIZE as int);
            }
        }
    }

    /// Reallocates down to `max(len, min_capacity)` bytes when that shrinks
    /// the storage; the bytes in use are kept.
    pub fn shrink_to(&mut self, min_capacity: usize)
        requires
            old(self).wf(),
        ensures
            final(self).wf(),
            final(self)@ == old(self)@,
            final(self).spec_capacity() == if min_capacity < old(self).spec_capacity() {
                round_up(
                    if old(self)@.len() >= min_capacity {
                        old(self)@.len() as int
                    } else {
                        min_capacity as int
                    },
                    SYS_ALIGN_SIZE as int,
                )
            } else {
                old(self).spec_capacity()
            },
    {
        proof {
            self.lemma_capacity_bounds();
        }
        if min_capacity < self.capacity() {
            self.resize(min_capacity);
        }
    }

    /// Reads the byte at `i` among the bytes in use.
    fn byte_at(&self, i: usize) -> (r: u8)
        requires
            i < self@.len(),
        ensures
            r == self@[i as int],
    {
        self.data.body_byte(i)
    }

    /// Count of bytes in use, computed without assuming well-formedness.
    fn eff_len(&self) -> (r: usize)
        ensures
            r == self@.len(),
    {
        let bc = self.data.body_capacity();
        if self.len <= bc {
            self.len
        } else {
            bc
        }
    }

    /// Borrows the bytes in use.
    pub fn as_bytes(&self) -> (r: &[u8])
        requires
            self.wf(),
        ensures
            r@ == self@,
    {
        self.data.body_prefix(self.len)
    }

    /// An owned copy of the bytes in use.
    pub fn to_bytes(&self) -> (r: Vec<u8>)
        requires
            self.wf(),
        ensures
            r@ == self@,
    {
        slice_to_vec(self.as_bytes())
    }

    /// A fresh buffer holding the given bytes, with exactly the needed
    /// capacity.
    fn from_raw_data(s: &[u8]) -> (r: RString)
        requires
            s@.len() + ZMEM_HEADER_SIZE + SYS_ALIGN_SIZE - 1 <= usize::MAX,
        ensures
            r.wf(),
            r@ == s@,
            r.spec_capacity() == round_up(s@.len() as int, SYS_ALIGN_SIZE as int),
    {
        let n: usize = s.len();
        let (mut zp, cap) = zmalloc(n);
        zptr_copy_into(&mut zp, 0, s);
        let r = RString { len: n, cap, data: zp };
        proof {
            assert(r@ =~= s@);
        }
        r
    }

    /// A fresh buffer holding a copy of the given bytes.
    pub fn from_bytes(s: &[u8]) -> (r: RString)
        requires
            s@.len() + ZMEM_HEADER_SIZE + SYS_ALIGN_SIZE - 1 <= usize::MAX,
        ensures
            r.wf(),
            r@ == s@,
            r.spec_capacity() == round_up(s@.len() as int, SYS_ALIGN_SIZE as int),
    {
        Self::from_raw_data(s)
    }

    /// A fresh buffer holding a copy of the given string's bytes.
    pub fn from_str(s: &str) -> (r: RString)
        requires
            s.spec_bytes().len() + ZMEM_HEADER_SIZE + SYS_ALIGN_SIZE - 1 <= usize::MAX,
        ensures
            r.wf(),
            r@ == s.spec_bytes(),
            r.spec_capacity() == round_up(s.spec_bytes().len() as int, SYS_ALIGN_SIZE as int),
    {
        Self::from_raw_data(s.as_bytes())
    }

    /// A fresh buffer holding a copy of another buffer's bytes in use, with
    /// exactly the needed capacity.
    pub fn from_rstr(other: &RString) -> (r: RString)
        requires
            other.wf(),
        ensures
            r.wf(),
            r@ == other@,
            r.spec_capacity() == round_up(other@.len() as int, SYS_ALIGN_SIZE as int),
    {
        proof {
            other.lemma_capacity_bounds();
        }
        Self::from_raw_data(other.as_bytes())
    }

    /// Appends the given bytes after the bytes in use.
    fn append_raw_data(&mut self, s: &[u8])
        requires
            old(self).wf(),
            old(self)@.len() + s@.len() + ZMEM_HEADER_SIZE + SYS_ALIGN_SIZE - 1 <= usize::MAX,
        ensures
            final(self).wf(),
            final(self)@ == old(self)@ + s@,
            final(self).spec_capacity() == spec_reserved_capacity(
                old(self).spec_capacity(),
                old(self)@.len() as int,
                s@.len() as int,
            ),
    {
        let n: usize = s.len();
        self.reserve(n);
        zptr_copy_into(&mut self.data, self.len, s);
        self.len = self.len + n;
        proof {
            assert(self@ =~= old(self)@ + s@);
        }
    }

    /// Appends a copy of the given bytes.
    pub fn append_bytes(&mut self, s: &[u8])
        requires
            old(self).wf(),
            old(self)@.len() + s@.len() + ZMEM_HEADER_SIZE + SYS_ALIGN_SIZE - 1 <= usize::MAX,
        ensures
            final(self).wf(),
            final(self)@ == old(self)@ + s@,
            final(self).spec_capacity() == spec_reserved_capacity(
                old(self).spec_capacity(),
                old(self)@.len() as int,
                s@.len() as int,
            ),
    {
        self.append_raw_data(s);
    }

    /// Appends a copy of the given string's bytes.
    pub fn append_str(&mut self, s: &str)
        requires
            old(self).wf(),
            old(self)@.len() + s.spec_bytes().len() + ZMEM_HEADER_SIZE + SYS_ALIGN_SIZE - 1
                <= usize::MAX,
        ensures
            final(self).wf(),
            final(self)@ == old(self)@ + s.spec_bytes(),
            final(self).spec_capacity() == spec_reserved_capacity(
                old(self).spec_capacity(),
                old(self)@.len() as int,
                s.spec_bytes().len() as int,
            ),
    {
        self.append_raw_data(s.as_bytes());
    }

    /// Appends a copy of another buffer's bytes in use.
    pub fn append_rstr(&mut self, other: &RString)
        requires
            old(self).wf(),
            other.wf(),
            old(self)@.len() + other@.len() + ZMEM_HEADER_SIZE + SYS_ALIGN_SIZE - 1 <= usize::MAX,
        ensures
            final(self).wf(),
            final(self)@ == old(self)@ + other@,
            final(self).spec_capacity() == spec_reserved_capacity(
                old(self).spec_capacity(),
                old(self)@.len() as int,
                other@.len() as int,
            ),
    {
        self.append_raw_data(other.as_bytes());
    }

    /// Replaces the whole content with a copy of the given bytes.
    pub fn copy_bytes(&mut self, s: &[u8])
        requires
            old(self).wf(),
            s@.len() + ZMEM_HEADER_SIZE + SYS_ALIGN_SIZE - 1 <= usize::MAX,
        ensures
            final(self).wf(),
            final(self)@ == s@,
            final(self).spec_capacity() == spec_reserved_capacity(
                old(self).spec_capacity(),
                0,
                s@.len() as int,
            ),
    {
        self.clear();
        self.append_raw_data(s);
    }

    /// Replaces the whole content with a copy of the given string's bytes.
    pub fn copy_str(&mut self, s: &str)
        requires
            old(self).wf(),
            s.spec_bytes().len() + ZMEM_HEADER_SIZE + SYS_ALIGN_SIZE - 1 <= usize::MAX,
        ensures
            final(self).wf(),
            final(self)@ == s.spec_bytes(),
            final(self).spec_capacity() == spec_reserved_capacity(
                old(self).spec_capacity(),
                0,
                s.spec_bytes().len() as int,
            ),
    {
        self.clear();
        self.append_raw_data(s.as_bytes());
    }

    /// Replaces the whole content with a copy of another buffer's bytes in
    /// use.
    pub fn copy_rstr(&mut self, other: &RString)
        requires
            old(self).wf(),
            other.wf(),
        ensures
            final(self).wf(),
            final(self)@ == other@,
            final(self).spec_capacity() == spec_reserved_capacity(
                old(self).spec_capacity(),
                0,
                other@.len() as int,
            ),
    {
        proof {
            other.lemma_capacity_bounds();
        }
        self.clear();
        self.append_raw_data(other.as_bytes());
    }

    /// Writes the given bytes at `offset`, growing the buffer as needed: a
    /// gap between the old end and `offset` is zero-filled, and the final
    /// length is the larger of the old length and `offset` plus the written
    /// count.
    fn replace_raw_data(&mut self, offset: usize, s: &[u8])
        requires
            old(self).wf(),
            offset + s@.len() + ZMEM_HEADER_SIZE + SYS_ALIGN_SIZE - 1 <= usize::MAX,
        ensures
            final(self).wf(),
            final(self)@ == spec_replace(old(self)@, offset as int, s@),
            final(self).spec_capacity() == round_up(
                if old(self)@.len() >= offset + s@.len() {
                    old(self)@.len() as int
                } else {
                    offset + s@.len()
                },
                SYS_ALIGN_SIZE as int,
            ),
    {
        let n: usize = s.len();
        self.resize(offset + n);
        proof {
            lemma_round_up_properties(
                if old(self)@.len() >= offset + n {
                    old(self)@.len() as int
                } else {
                    offset + n as int
                },
                SYS_ALIGN_SIZE as int,
            );
        }
        if self.len < offset {
            zptr_fill(&mut self.data, self.len, 0, offset - self.len);
        }
        zptr_copy_into(&mut self.data, offset, s);
        self.len = if self.len >= offset + n {
            self.len
        } else {
            offset + n
        };
        proof {
            assert(self@ =~= spec_replace(old(self)@, offset as int, s@));
        }
    }

    /// Writes a copy of the given bytes at `offset`; see
    /// [`spec_replace`] for the exact result.
    pub fn replace_bytes(&mut self, offset: usize, s: &[u8])
        requires
            old(self).wf(),
            offset + s@.len() + ZMEM_HEADER_SIZE + SYS_ALIGN_SIZE - 1 <= usize::MAX,
        ensures
            final(self).wf(),
            final(self)@ == spec_replace(old(self)@, offset as int, s@),
    {
        self.replace_raw_data(offset, s);
    }

    /// Writes a copy of the given string's bytes at `offset`.
    pub fn replace_str(&mut self, offset: usize, s: &str)
        requires
            old(self).wf(),
            offset + s.spec_bytes().len() + ZMEM_HEADER_SIZE + SYS_ALIGN_SIZE - 1 <= usize::MAX,
        ensures
            final(self).wf(),
            final(self)@ == spec_replace(old(self)@, offset as int, s.spec_bytes()),
    {
        self.replace_raw_data(offset, s.as_bytes());
    }

    /// Writes a copy of another buffer's bytes in use at `offset`.
    pub fn replace_rstr(&mut self, offset: usize, other: &RString)
        requires
            old(self).wf(),
            other.wf(),
            offset + other@.len() + ZMEM_HEADER_SIZE + SYS_ALIGN_SIZE - 1 <= usize::MAX,
        ensures
            final(self).wf(),
            final(self)@ == spec_replace(old(self)@, offset as int, other@),
    {
        self.replace_raw_data(offset, other.as_bytes());
    }

    /// Appends `count` copies of `value`.
    pub fn append_padding(&mut self, value: u8, count: usize)
        requires
            old(self).wf(),
            old(self)@.len() + count + ZMEM_HEADER_SIZE + SYS_ALIGN_SIZE - 1 <= usize::MAX,
        ensures
            final(self).wf(),
            final(self)@ == old(self)@ + Seq::new(count as nat, |i: int| value),
            final(self).spec_capacity() == spec_reserved_capacity(
                old(self).spec_capacity(),
                old(self)@.len() as int,
                count as int,
            ),
    {
        self.reserve(count);
        zptr_fill(&mut self.data, self.len, value, count);
        self.len = self.len + count;
        proof {
            assert(self@ =~= old(self)@ + Seq::new(count as nat, |i: int| value));
        }
    }

    /// An independent copy of the bytes `[start, end)`, with `end` clamped
    /// to the length; empty when the clamped range is empty.
    pub fn sub_rstr(&self, start: usize, end: usize) -> (r: RString)
        requires
            self.wf(),
        ensures
            r.wf(),
            r@ == spec_sub(self@, start as int, end as int),
            r.spec_capacity() == round_up(
                spec_sub(self@, start as int, end as int).len() as int,
                SYS_ALIGN_SIZE as int,
            ),
    {
        proof {
            self.lemma_capacity_bounds();
        }
        let e: usize = if self.len <= end {
            self.len
        } else {
            end
        };
        if start < e {
            let part = slice_subrange(self.as_bytes(), start, e);
            Self::from_raw_data(part)
        } else {
            Self::new()
        }
    }

    /// An independent copy of the first `end` bytes (clamped).
    pub fn lsub_rstr(&self, end: usize) -> (r: RString)
        requires
            self.wf(),
        ensures
            r.wf(),
            r@ == spec_sub(self@, 0, end as int),
    {
        self.sub_rstr(0, end)
    }

    /// An independent copy of the bytes from `start` on.
    pub fn rsub_rstr(&self, start: usize) -> (r: RString)
        requires
            self.wf(),
        ensures
            r.wf(),
            r@ == spec_sub(self@, start as int, self@.len() as int),
    {
        self.sub_rstr(start, self.len)
    }

    /// Keeps only the bytes `[start, end)`, with `end` clamped to the
    /// length, shifting them to the front in place; when the clamped range
    /// is empty nothing changes. The storage is untouched.
    pub fn trim(&mut self, start: usize, end: usize)
        requires
            old(self).wf(),
        ensures
            final(self).wf(),
            final(self)@ == if start < spec_clamped_end(old(self)@, end as int) {
                old(self)@.subrange(start as int, spec_clamped_end(old(self)@, end as int))
            } else {
                old(self)@
            },
            final(self).spec_capacity() == old(self).spec_capacity(),
    {
        let e: usize = if self.len <= end {
            self.len
        } else {
            end
        };
        if start < e {
            zptr_move_prefix(&mut self.data, start, e - start);
            self.len = e - start;
            proof {
                assert(self@ =~= old(self)@.subrange(start as int, e as int));
            }
        }
    }

    /// Keeps only the bytes from `start` on, shifting them to the front.
    pub fn ltrim(&mut self, start: usize)
        requires
            old(self).wf(),
        ensures
            final(self).wf(),
            final(self)@ == if start < old(self)@.len() {
                old(self)@.skip(start as int)
            } else {
                old(self)@
            },
            final(self).spec_capacity() == old(self).spec_capacity(),
    {
        let n: usize = self.len;
        self.trim(start, n);
        proof {
            if start < old(self)@.len() {
                assert(old(self)@.subrange(start as int, old(self)@.len() as int) =~= old(
                    self,
                )@.skip(start as int));
            }
        }
    }

    /// Shrinks the length to `end` if that is shorter; the bytes and the
    /// storage are untouched.
    pub fn rtrim(&mut self, end: usize)
        requires
            old(self).wf(),
        ensures
            final(self).wf(),
            final(self)@ == if end < old(self)@.len() {
                old(self)@.take(end as int)
            } else {
                old(self)@
            },
            final(self).spec_capacity() == old(self).spec_capacity(),
    {
        if end < self.len {
            self.len = end;
            proof {
                assert(self@ =~= old(self)@.take(end as int));
            }
        }
    }

    /// This buffer, viewed as a borrowed buffer.
    pub fn as_rstr(&self) -> (r: &RString)
        ensures
            r == self,
    {
        self
    }

    /// Borrows the tagged storage handle behind this buffer: its body holds
    /// the bytes in use as a prefix, and its recorded size is the capacity.
    pub fn as_ptr(&self) -> (r: &ZPtr)
        requires
            self.wf(),
        ensures
            r.wf(),
            r@ matches Some(b) && b.len() == self.spec_capacity() && b.take(self@.len() as int)
                == self@,
    {
        &self.data
    }

    /// An independent copy of this buffer, freshly allocated with exactly
    /// the needed capacity.
    pub fn to_rstr(&self) -> (r: RString)
        requires
            self.wf(),
        ensures
            r.wf(),
            r@ == self@,
            r.spec_capacity() == round_up(self@.len() as int, SYS_ALIGN_SIZE as int),
    {
        Self::from_rstr(self)
    }

    /// Reallocates down to exactly the bytes in use (rounded to the system
    /// alignment) when spare room exists.
    pub fn shrink_to_fit(&mut self)
        requires
            old(self).wf(),
        ensures
            final(self).wf(),
            final(self)@ == old(self)@,
            final(self).spec_capacity() == if old(self)@.len() == old(self).spec_capacity() {
                old(self).spec_capacity()
            } else {
                round_up(old(self)@.len() as int, SYS_ALIGN_SIZE as int)
            },
    {
        proof {
            self.lemma_capacity_bounds();
        }
        if !self.is_full() {
            self.resize(self.len);
        }
    }
}

impl RString {
    /// Compares two buffers' bytes in use lexicographically.
    fn cmp_bytes(&self, other: &RString) -> (r: Ordering)
        ensures
            r == lex_cmp_bytes(self@, other@),
    {
        let na = self.eff_len();
        let nb = other.eff_len();
        let c: usize = if na <= nb {
            na
        } else {
            nb
        };
        let mut i: usize = 0;
        while i < c
            invariant
                i <= c,
                c <= na,
                c <= nb,
                na == self@.len(),
                nb == other@.len(),
                forall|j: int| 0 <= j < i ==> self@[j] == other@[j],
            decreases c - i,
        {
            let x = self.byte_at(i);
            let y = other.byte_at(i);
            if x < y {
                proof {
                    lemma_lex_cmp_skip(self@, other@, i as int);
                }
                return Ordering::Less;
            }
            if x > y {
                proof {
                    lemma_lex_cmp_skip(self@, other@, i as int);
                }
                return Ordering::Greater;
            }
            i += 1;
        }
        proof {
            lemma_lex_cmp_skip(self@, other@, c as int);
            if na <= nb {
                assert(self@.skip(c as int) =~= Seq::<u8>::empty());
            }
            if nb <= na {
                assert(other@.skip(c as int) =~= Seq::<u8>::empty());
            }
        }
        if na < nb {
            Ordering::Less
        } else if na > nb {
            Ordering::Greater
        } else {
            Ordering::Equal
        }
    }

    /// Decodes the bytes in use as UTF-8; malformed input yields the empty
    /// string rather than an error.
    pub fn to_string(&self) -> (r: String)
        requires
            self.wf(),
        ensures
            vstd::utf8::valid_utf8(self@) ==> r@ == vstd::utf8::decode_utf8(self@),
            !vstd::utf8::valid_utf8(self@) ==> r@ == Seq::<char>::empty(),
    {
        match bytes_to_str(self.as_bytes()) {
            Some(s) => s.to_owned(),
            None => String::new(),
        }
    }
}

/// Relies on core::str::from_utf8: it succeeds exactly on well-formed UTF-8
/// input, and the returned string slice holds the characters those bytes
/// decode to.
#[verifier::external_body]
fn bytes_to_str(v: &[u8]) -> (r: Option<&str>)
    ensures
        match r {
            Some(s) => vstd::utf8::valid_utf8(v@) && s@ == vstd::utf8::decode_utf8(v@),
            None => !vstd::utf8::valid_utf8(v@),
        },
{
    match core::str::from_utf8(v) {
        Ok(s) => Some(s),
        Err(_) => None,
    }
}

impl PartialEq for RString {
    /// Two buffers are equal when they hold the same bytes in use; spare
    /// capacity does not matter.
    fn eq(&self, other: &Self) -> (r: bool) {
        let n = self.eff_len();
        if n != other.eff_len() {
            return false;
        }
        let mut i: usize = 0;
        while i < n
            invariant
                i <= n,
                n == self@.len(),
                n == other@.len(),
                forall|j: int| 0 <= j < i ==> self@[j] == other@[j],
            decreases n - i,
        {
            if self.byte_at(i) != other.byte_at(i) {
                return false;
            }
            i += 1;
        }
        proof {
            assert(self@ =~= other@);
        }
        true
    }
}

impl Eq for RString {

}

impl vstd::std_specs::cmp::PartialEqSpecImpl for RString {
    open spec fn obeys_eq_spec() -> bool {
        true
    }

    open spec fn eq_spec(&self, other: &RString) -> bool {
        self@ == other@
    }
}

impl PartialOrd for RString {
    /// Buffers order lexicographically over their bytes in use; when one is
    /// a strict prefix of the other, the shorter orders first.
    fn partial_cmp(&self, other: &Self) -> (r: Option<Ordering>) {
        Some(self.cmp_bytes(other))
    }
}

impl vstd::std_specs::cmp::PartialOrdSpecImpl for RString {
    open spec fn obeys_partial_cmp_spec() -> bool {
        true
    }

    open spec fn partial_cmp_spec(&self, other: &RString) -> Option<Ordering> {
        Some(lex_cmp_bytes(self@, other@))
    }
}

impl Default for RString {
    /// An empty buffer, as [`RString::new`] builds it.
    fn default() -> (r: RString)
        ensures
            r.wf(),
            r@ == Seq::<u8>::empty(),
            r.spec_capacity() == 0,
    {
        RString::new()
    }
}

/// Appending `a` and then `b` to a buffer holding `s` yields the same bytes
/// as appending the concatenation of `a` and `b` in one step.
pub proof fn lemma_append_composes(s: Seq<u8>, a: Seq<u8>, b: Seq<u8>)
    ensures
        (s + a) + b == s + (a + b),
{
    assert((s + a) + b =~= s + (a + b));
}

/// A sub-range is the requested slice of the bytes, with the end clamped to
/// the length, and is empty whenever the start does not lie before the end.
pub proof fn lemma_sub_range(s: Seq<u8>, start: int, end: int)
    requires
        0 <= start,
    ensures
        start < spec_clamped_end(s, end) ==> spec_sub(s, start, end) == s.subrange(
            start,
            spec_clamped_end(s, end),
        ),
        start >= end ==> spec_sub(s, start, end) == Seq::<u8>::empty(),
{
}

/// Writing at an offset beyond the end zero-fills the gap between the old
/// end and the offset, and the final length is the offset plus the written
/// count.
pub proof fn lemma_replace_beyond_end(s: Seq<u8>, offset: int, x: Seq<u8>)
    requires
        offset > s.len(),
    ensures
        spec_replace(s, offset, x) == s + Seq::new((offset - s.len()) as nat, |i: int| 0u8) + x,
        spec_replace(s, offset, x).len() == offset + x.len(),
{
}

/// Writes the bytes of `s` into the body of `zp` starting at `at`.
fn zptr_copy_into(zp: &mut ZPtr, at: usize, s: &[u8])
    requires
        old(zp)@ matches Some(b) && at + s@.len() <= b.len(),
    ensures
        old(zp).wf() ==> final(zp).wf(),
        match old(zp)@ {
            Some(b) => final(zp)@ matches Some(nb) && nb.len() == b.len() && (forall|j: int|
                at <= j < at + s@.len() ==> nb[j] == s@[j - at]) && (forall|j: int|
                0 <= j < b.len() && !(at <= j < at + s@.len()) ==> nb[j] == b[j]),
            None => false,
        },
{
    let ghost ob = match old(zp)@ {
        Some(b) => b,
        None => Seq::<u8>::empty(),
    };
    let bc: usize = zp.body_capacity();
    let n: usize = s.len();
    let mut i: usize = 0;
    while i < n
        invariant
            i <= n,
            n == s@.len(),
            at + n <= ob.len(),
            ob.len() == bc,
            old(zp).wf() ==> zp.wf(),
            zp@ matches Some(nb) && nb.len() == ob.len() && (forall|j: int|
                at <= j < at + i ==> nb[j] == s@[j - at]) && (forall|j: int|
                0 <= j < ob.len() && !(at <= j < at + i) ==> nb[j] == ob[j]),
        decreases n - i,
    {
        zp.body_set(at + i, s[i]);
        i += 1;
    }
}

/// Fills `count` bytes of the body of `zp`, starting at `at`, with `value`.
fn zptr_fill(zp: &mut ZPtr, at: usize, value: u8, count: usize)
    requires
        old(zp)@ matches Some(b) && at + count <= b.len(),
    ensures
        old(zp).wf() ==> final(zp).wf(),
        match old(zp)@ {
            Some(b) => final(zp)@ matches Some(nb) && nb.len() == b.len() && (forall|j: int|
                at <= j < at + count ==> nb[j] == value) && (forall|j: int|
                0 <= j < b.len() && !(at <= j < at + count) ==> nb[j] == b[j]),
            None => false,
        },
{
    let ghost ob = match old(zp)@ {
        Some(b) => b,
        None => Seq::<u8>::empty(),
    };
    let bc: usize = zp.body_capacity();
    let mut i: usize = 0;
    while i < count
        invariant
            i <= count,
            at + count <= ob.len(),
            ob.len() == bc,
            old(zp).wf() ==> zp.wf(),
            zp@ matches Some(nb) && nb.len() == ob.len() && (forall|j: int|
                at <= j < at + i ==> nb[j] == value) && (forall|j: int|
                0 <= j < ob.len() && !(at <= j < at + i) ==> nb[j] == ob[j]),
        decreases count - i,
    {
        zp.body_set(at + i, value);
        i += 1;
    }
}

/// Shifts the `count` body bytes starting at `start` to the front of the
/// body; the ranges may overlap.
fn zptr_move_prefix(zp: &mut ZPtr, start: usize, count: usize)
    requires
        old(zp)@ matches Some(b) && start + count <= b.len(),
    ensures
        old(zp).wf() ==> final(zp).wf(),
        match old(zp)@ {
            Some(b) => final(zp)@ matches Some(nb) && nb.len() == b.len() && (forall|j: int|
                0 <= j < count ==> nb[j] == b[start + j]) && (forall|j: int|
                count <= j < b.len() ==> nb[j] == b[j]),
            None => false,
        },
{
    let ghost ob = match old(zp)@ {
        Some(b) => b,
        None => Seq::<u8>::empty(),
    };
    let bc: usize = zp.body_capacity();
    let mut tmp: Vec<u8> = Vec::new();
    let mut i: usize = 0;
    while i < count
        invariant
            i <= count,
            start + count <= ob.len(),
            ob.len() == bc,
            *zp == *old(zp),
            zp@ == Some(ob),
            tmp@.len() == i,
            forall|j: int| 0 <= j < i ==> tmp@[j] == ob[start + j],
        decreases count - i,
    {
        tmp.push(zp.body_byte(start + i));
        i += 1;
    }
    zptr_copy_into(zp, 0, tmp.as_slice());
    proof {
        let nb = match zp@ {
            Some(b) => b,
            None => Seq::<u8>::empty(),
        };
        assert forall|j: int| 0 <= j < count implies #[trigger] nb[j] == ob[start + j] by {
            assert(tmp@[j] == ob[start + j]);
        }
    }
}

} // verus!
