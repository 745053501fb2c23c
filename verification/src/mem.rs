//! Block operations on runs of bytes or elements: copy, overlap-tolerant
//! move, fill, lexicographic compare and first-occurrence scan.
//!
//! Offsets are explicit arguments here: where a caller of the classic
//! byte-pointer primitives would offset the pointer itself, a caller of these
//! functions passes the index at which the operation starts.

use core::cmp::Ordering;
use vstd::pervasive::VecAdditionalExecFns;
use vstd::prelude::*;

verus! {

/// Copies the first `count` elements of `src` into `dst` at `dst_at`.
/// Source and destination are distinct borrows, so they cannot overlap.
pub fn mem_copy_for<T: Copy>(src: &[T], dst: &mut Vec<T>, dst_at: usize, count: usize)
    requires
        count <= src@.len(),
        dst_at + count <= old(dst)@.len(),
    ensures
        final(dst)@.len() == old(dst)@.len(),
        forall|j: int| 0 <= j < count ==> final(dst)@[dst_at + j] == src@[j],
        forall|j: int|
            0 <= j < old(dst)@.len() && !(dst_at <= j < dst_at + count) ==> final(dst)@[j] == old(
                dst,
            )@[j],
{
    let dst_len: usize = dst.len();
    let mut i: usize = 0;
    while i < count
        invariant
            i <= count,
            count <= src@.len(),
            dst_at + count <= dst@.len(),
            dst@.len() == dst_len,
            dst@.len() == old(dst)@.len(),
            forall|j: int| 0 <= j < i ==> dst@[dst_at + j] == src@[j],
            forall|j: int|
                0 <= j < old(dst)@.len() && !(dst_at <= j < dst_at + i) ==> dst@[j] == old(
                    dst,
                )@[j],
        decreases count - i,
    {
        dst.set(dst_at + i, src[i]);
        i += 1;
    }
}

/// Copies `count` elements within `buf` from `src_at` to `dst_at`; the two
/// ranges may overlap, and the destination ends up holding what the source
/// range held before the call.
pub fn mem_move_for<T: Copy>(buf: &mut Vec<T>, src_at: usize, dst_at: usize, count: usize)
    requires
        src_at + count <= old(buf)@.len(),
        dst_at + count <= old(buf)@.len(),
    ensures
        final(buf)@.len() == old(buf)@.len(),
        forall|j: int|
            0 <= j < count ==> #[trigger] final(buf)@[dst_at + j] == old(buf)@[src_at + j],
        forall|j: int|
            0 <= j < old(buf)@.len() && !(dst_at <= j < dst_at + count) ==> final(buf)@[j] == old(
                buf,
            )@[j],
{
    let buf_len: usize = buf.len();
    let mut tmp: Vec<T> = Vec::new();
    let mut i: usize = 0;
    while i < count
        invariant
            i <= count,
            src_at + count <= buf@.len(),
            buf@.len() == buf_len,
            tmp@.len() == i,
            buf@ == old(buf)@,
            forall|j: int| 0 <= j < i ==> tmp@[j] == buf@[src_at + j],
        decreases count - i,
    {
        tmp.push(buf[src_at + i]);
        i += 1;
    }
    mem_copy_for(tmp.as_slice(), buf, dst_at, count);
    proof {
        assert forall|j: int| 0 <= j < count implies #[trigger] buf@[dst_at + j] == old(
            buf,
        )@[src_at + j] by {
            assert(tmp@[j] == old(buf)@[src_at + j]);
        }
    }
}

/// Copies `count` bytes from `src` into `buf` at `dst_at`.
pub fn mem_copy(src: &[u8], dst: &mut Vec<u8>, dst_at: usize, count: usize)
    requires
        count <= src@.len(),
        dst_at + count <= old(dst)@.len(),
    ensures
        final(dst)@.len() == old(dst)@.len(),
        forall|j: int| 0 <= j < count ==> final(dst)@[dst_at + j] == src@[j],
        forall|j: int|
            0 <= j < old(dst)@.len() && !(dst_at <= j < dst_at + count) ==> final(dst)@[j] == old(
                dst,
            )@[j],
{
    mem_copy_for(src, dst, dst_at, count);
}

/// Moves `count` bytes within `buf` from `src_at` to `dst_at`, tolerating
/// overlap between the two ranges.
pub fn mem_move(buf: &mut Vec<u8>, src_at: usize, dst_at: usize, count: usize)
    requires
        src_at + count <= old(buf)@.len(),
        dst_at + count <= old(buf)@.len(),
    ensures
        final(buf)@.len() == old(buf)@.len(),
        forall|j: int|
            0 <= j < count ==> #[trigger] final(buf)@[dst_at + j] == old(buf)@[src_at + j],
        forall|j: int|
            0 <= j < old(buf)@.len() && !(dst_at <= j < dst_at + count) ==> final(buf)@[j] == old(
                buf,
            )@[j],
{
    mem_move_for(buf, src_at, dst_at, count);
}

/// Fills `count` bytes of `buf`, starting at `at`, with `value`.
pub fn mem_set(buf: &mut Vec<u8>, at: usize, value: u8, count: usize)
    requires
        at + count <= old(buf)@.len(),
    ensures
        final(buf)@.len() == old(buf)@.len(),
        forall|j: int| 0 <= j < count ==> #[trigger] final(buf)@[at + j] == value,
        forall|j: int|
            0 <= j < old(buf)@.len() && !(at <= j < at + count) ==> final(buf)@[j] == old(
                buf,
            )@[j],
{
    let buf_len: usize = buf.len();
    let mut i: usize = 0;
    while i < count
        invariant
            i <= count,
            at + count <= buf@.len(),
            buf@.len() == buf_len,
            buf@.len() == old(buf)@.len(),
            forall|j: int| 0 <= j < i ==> #[trigger] buf@[at + j] == value,
            forall|j: int|
                0 <= j < old(buf)@.len() && !(at <= j < at + i) ==> buf@[j] == old(buf)@[j],
        decreases count - i,
    {
        buf.set(at + i, value);
        i += 1;
    }
}

/// Lexicographic order of two byte sequences: the first differing byte
/// decides, and when one sequence is a prefix of the other the shorter
/// orders first.
pub open spec fn lex_cmp_bytes(a: Seq<u8>, b: Seq<u8>) -> Ordering
    decreases a.len(), b.len(),
{
    if a.len() == 0 && b.len() == 0 {
        Ordering::Equal
    } else if a.len() == 0 {
        Ordering::Less
    } else if b.len() == 0 {
        Ordering::Greater
    } else if a[0] < b[0] {
        Ordering::Less
    } else if a[0] > b[0] {
        Ordering::Greater
    } else {
        lex_cmp_bytes(a.drop_first(), b.drop_first())
    }
}

/// Dropping an equal prefix from both sequences does not change their
/// lexicographic order.
pub proof fn lemma_lex_cmp_skip(a: Seq<u8>, b: Seq<u8>, i: int)
    requires
        0 <= i <= a.len(),
        i <= b.len(),
        forall|j: int| 0 <= j < i ==> a[j] == b[j],
    ensures
        lex_cmp_bytes(a, b) == lex_cmp_bytes(a.skip(i), b.skip(i)),
    decreases i,
{
    if i == 0 {
        assert(a.skip(0) =~= a);
        assert(b.skip(0) =~= b);
    } else {
        lemma_lex_cmp_skip(a.drop_first(), b.drop_first(), i - 1);
        assert(a.drop_first().skip(i - 1) =~= a.skip(i));
        assert(b.drop_first().skip(i - 1) =~= b.skip(i));
    }
}

/// Every byte sequence compares equal to itself.
pub proof fn lemma_lex_cmp_reflexive(a: Seq<u8>)
    ensures
        lex_cmp_bytes(a, a) == Ordering::Equal,
    decreases a.len(),
{
    if a.len() > 0 {
        lemma_lex_cmp_reflexive(a.drop_first());
    }
}

/// A strict prefix orders before the sequence it is a prefix of.
pub proof fn lemma_lex_cmp_strict_prefix(a: Seq<u8>, b: Seq<u8>)
    requires
        a.len() < b.len(),
        a == b.take(a.len() as int),
    ensures
        lex_cmp_bytes(a, b) == Ordering::Less,
    decreases a.len(),
{
    if a.len() == 0 {
    } else {
        assert(a[0] == b[0]);
        assert(a.drop_first() =~= b.drop_first().take(a.drop_first().len() as int));
        lemma_lex_cmp_strict_prefix(a.drop_first(), b.drop_first());
    }
}

/// Compares the first `count` bytes of `a` and `b` lexicographically.
pub fn mem_cmp(a: &[u8], b: &[u8], count: usize) -> (r: Ordering)
    requires
        count <= a@.len(),
        count <= b@.len(),
    ensures
        r == lex_cmp_bytes(a@.take(count as int), b@.take(count as int)),
{
    let ghost pa = a@.take(count as int);
    let ghost pb = b@.take(count as int);
    let mut i: usize = 0;
    while i < count
        invariant
            i <= count,
            count <= a@.len(),
            count <= b@.len(),
            pa == a@.take(count as int),
            pb == b@.take(count as int),
            forall|j: int| 0 <= j < i ==> a@[j] == b@[j],
        decreases count - i,
    {
        if a[i] < b[i] {
            proof {
                lemma_lex_cmp_skip(pa, pb, i as int);
            }
            return Ordering::Less;
        }
        if a[i] > b[i] {
            proof {
                lemma_lex_cmp_skip(pa, pb, i as int);
            }
            return Ordering::Greater;
        }
        i += 1;
    }
    proof {
        lemma_lex_cmp_skip(pa, pb, count as int);
    }
    Ordering::Equal
}

/// Finds the offset of the first occurrence of `value` among the first
/// `len` bytes of `buf`, if there is one.
pub fn mem_find(buf: &[u8], len: usize, value: u8) -> (r: Option<usize>)
    requires
        len <= buf@.len(),
    ensures
        match r {
            Some(i) => i < len && buf@[i as int] == value && forall|j: int|
                0 <= j < i ==> buf@[j] != value,
            None => forall|j: int| 0 <= j < len ==> buf@[j] != value,
        },
{
    let mut i: usize = 0;
    while i < len
        invariant
            i <= len,
            len <= buf@.len(),
            forall|j: int| 0 <= j < i ==> buf@[j] != value,
        decreases len - i,
    {
        if buf[i] == value {
            return Some(i);
        }
        i += 1;
    }
    None
}

} // verus!
