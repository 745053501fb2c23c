//! Raw and size-tagged allocation.
//!
//! The raw layer mirrors the classic allocate / reallocate / deallocate
//! family. A block of host memory is modelled by an owned run of bytes, and a
//! pointer by a [`Ptr`] handle that owns its block: pairing every allocation
//! with exactly one release is then enforced by ownership instead of being
//! left to the caller.
//!
//! The tagged layer ([`ZPtr`] and the `z*` functions) reserves one extra
//! 8-byte header in front of every block and stores the body size in it, so
//! the size can later be recovered from the handle alone.

use crate::align::{
    is_alignment, lemma_aligned_size_fits, lemma_alignment_bits_equiv,
    lemma_round_up_properties, round_up, size_of_sys_aligned, BYTE_ALIGN_SIZE, SYS_ALIGN_SIZE,
};
use vstd::bytes::{
    lemma_auto_spec_u64_to_from_le_bytes, spec_u64_from_le_bytes, spec_u64_to_le_bytes,
    u64_from_le_bytes, u64_to_le_bytes,
};
use vstd::pervasive::VecAdditionalExecFns;
use vstd::prelude::*;
use vstd::slice::slice_subrange;

verus! {

/// A (size, alignment) pair describing an allocation request.
#[derive(Clone, Copy, Debug, PartialEq, Eq, Structural)]
pub struct Layout {
    pub size: usize,
    pub align: usize,
}

/// Error returned when a layout would be invalid: an alignment that is not a
/// power of two, or a size that cannot be rounded up to the alignment without
/// overflowing a machine word.
#[derive(Clone, Copy, Debug, PartialEq, Eq, Structural)]
pub struct LayoutError;

impl Layout {
    /// A layout is well formed when its alignment is a power of two and its
    /// size can be rounded up to that alignment without overflow.
    pub open spec fn wf(self) -> bool {
        &&& is_alignment(self.align)
        &&& self.size + self.align - 1 <= usize::MAX
    }

    /// Builds a layout, rejecting invalid combinations of size and alignment.
    pub fn from_size_align(size: usize, align: usize) -> (r: Result<Layout, LayoutError>)
        ensures
            match r {
                Ok(l) => l == (Layout { size, align }) && l.wf(),
                Err(_) => !(Layout { size, align }).wf(),
            },
    {
        proof {
            lemma_alignment_bits_equiv(align);
        }
        if align != 0 && (align & (align - 1)) == 0 && size <= usize::MAX - (align - 1) {
            Ok(Layout { size, align })
        } else {
            Err(LayoutError)
        }
    }
}

/// Layout for a single value of type `T`.
pub fn layout_of<T>() -> (r: Layout)
    ensures
        r.size == vstd::layout::size_of::<T>(),
        r.align == vstd::layout::align_of::<T>(),
        r.wf(),
{
    let size = core::mem::size_of::<T>();
    let align = core::mem::align_of::<T>();
    proof {
        broadcast use vstd::layout::align_properties;

        vstd::arithmetic::power2::is_pow2_equiv(align as int);
        lemma_pow_alignment(align as int);
        lemma_aligned_size_fits(size, align);
    }
    Layout { size, align }
}

/// An integer that some power of two equals is a valid alignment.
proof fn lemma_pow_alignment(n: int)
    requires
        vstd::arithmetic::power2::is_pow2_exists(n),
        n <= usize::MAX,
    ensures
        is_alignment(n as usize),
{
    let i = choose|i: nat| vstd::arithmetic::power::pow(2, i) == n;
    vstd::arithmetic::power::lemma_pow_positive(2, i);
    assert(n as usize == vstd::arithmetic::power2::pow2(i));
}

/// Layout for a run of `size` bytes, using byte alignment.
pub fn layout_of_bytes(size: usize) -> (r: Layout)
    ensures
        r == (Layout { size, align: BYTE_ALIGN_SIZE }),
        r.wf(),
{
    proof {
        vstd::arithmetic::power2::lemma2_to64();
        assert(BYTE_ALIGN_SIZE == vstd::arithmetic::power2::pow2(0));
    }
    Layout { size, align: BYTE_ALIGN_SIZE }
}

/// Layout for a size already aligned to the given power-of-two alignment.
pub fn layout_of_aligned(size: usize, align: usize) -> (r: Layout)
    requires
        is_alignment(align),
        size as int % align as int == 0,
    ensures
        r == (Layout { size, align }),
        r.wf(),
{
    proof {
        lemma_aligned_size_fits(size, align);
    }
    Layout { size, align }
}

/// A handle for one raw allocation. The null handle owns no block; every
/// other handle owns the bytes of its block, and releasing the block means
/// giving the handle up.
#[derive(Clone, Debug)]
pub struct Ptr {
    null: bool,
    data: Vec<u8>,
}

impl View for Ptr {
    type V = Option<Seq<u8>>;

    closed spec fn view(&self) -> Option<Seq<u8>> {
        if self.null {
            None
        } else {
            Some(self.data@)
        }
    }
}

impl Ptr {
    /// The null handle.
    pub fn null() -> (r: Ptr)
        ensures
            r@ is None,
    {
        Ptr { null: true, data: Vec::new() }
    }

    /// Whether this is the null handle.
    pub fn is_null(&self) -> (r: bool)
        ensures
            r == (self@ is None),
    {
        self.null
    }

    /// The bytes of the block this handle owns.
    pub fn as_bytes(&self) -> (r: &[u8])
        requires
            self@ is Some,
        ensures
            self@ == Some(r@),
    {
        self.data.as_slice()
    }
}

/// A fresh zero-filled block, standing in for memory handed out by the host
/// allocator.
fn zero_block(n: usize) -> (v: Vec<u8>)
    ensures
        v@ == Seq::new(n as nat, |i: int| 0u8),
{
    let mut v: Vec<u8> = Vec::new();
    while v.len() < n
        invariant
            v@.len() <= n,
            forall|i: int| 0 <= i < v@.len() ==> v@[i] == 0u8,
        decreases n - v@.len(),
    {
        v.push(0u8);
    }
    proof {
        assert(v@ =~= Seq::new(n as nat, |i: int| 0u8));
    }
    v
}

/// Allocates a block for `layout`. A zero-sized layout is not permitted.
///
/// Nothing is promised of the new block's contents.
pub fn malloc_with_layout(layout: Layout) -> (r: (Ptr, usize))
    requires
        layout.wf(),
        layout.size > 0,
    ensures
        r.0@ matches Some(b) && b.len() == layout.size,
        r.1 == layout.size,
{
    (Ptr { null: false, data: zero_block(layout.size) }, layout.size)
}

/// Releases a block previously allocated with the same layout. The null
/// handle is a no-op.
pub fn free_with_layout(ptr: Ptr, layout: Layout)
    requires
        layout.wf(),
        ptr@ matches Some(b) ==> b.len() == layout.size,
{
    // The handle owns its block, so dropping it releases the block.
}

/// Allocates a zero-initialized block for `layout`.
pub fn calloc_with_layout(layout: Layout) -> (r: (Ptr, usize))
    requires
        layout.wf(),
        layout.size > 0,
    ensures
        r.0@ == Some(Seq::new(layout.size as nat, |i: int| 0u8)),
        r.1 == layout.size,
{
    (Ptr { null: false, data: zero_block(layout.size) }, layout.size)
}

/// Reallocates a block to a new layout of the same alignment.
///
/// With equal sizes the block is returned unchanged. Otherwise a null handle
/// behaves as a fresh allocation, and a real block keeps the bytes that fit
/// in both the old and the new size; the handle that comes back may or may
/// not be the one that went in.
pub fn realloc_with_layout(ptr: Ptr, old_layout: Layout, new_layout: Layout) -> (r: (Ptr, usize))
    requires
        old_layout.wf(),
        new_layout.wf(),
        old_layout.align == new_layout.align,
        ptr@ matches Some(b) ==> b.len() == old_layout.size,
        new_layout.size != old_layout.size ==> new_layout.size > 0,
    ensures
        r.1 == new_layout.size,
        new_layout.size == old_layout.size ==> r.0@ == ptr@,
        new_layout.size != old_layout.size ==> (r.0@ matches Some(nb) && nb.len()
            == new_layout.size && (ptr@ matches Some(ob) ==> forall|i: int|
            0 <= i < ob.len() && i < nb.len() ==> nb[i] == ob[i])),
{
    if new_layout.size == old_layout.size {
        return (ptr, new_layout.size);
    }
    let n = new_layout.size;
    let mut data = zero_block(n);
    if !ptr.is_null() {
        let src = ptr.as_bytes();
        let c = if src.len() < n {
            src.len()
        } else {
            n
        };
        let mut i: usize = 0;
        while i < c
            invariant
                i <= c,
                c <= n,
                c <= src@.len(),
                data@.len() == n,
                forall|j: int| 0 <= j < i ==> data@[j] == src@[j],
            decreases c - i,
        {
            data.set(i, src[i]);
            i += 1;
        }
    }
    (Ptr { null: false, data }, n)
}

/// Allocates a block of `size` bytes. Zero is not permitted.
pub fn malloc(size: usize) -> (r: (Ptr, usize))
    requires
        size > 0,
    ensures
        r.0@ matches Some(b) && b.len() == size,
        r.1 == size,
{
    malloc_with_layout(layout_of_bytes(size))
}

/// Releases a block previously allocated with the same size. The null handle
/// is a no-op.
pub fn free(ptr: Ptr, size: usize)
    requires
        ptr@ matches Some(b) ==> b.len() == size,
{
    free_with_layout(ptr, layout_of_bytes(size));
}

/// Allocates a zero-initialized block of `size` bytes. Zero is not permitted.
pub fn calloc(size: usize) -> (r: (Ptr, usize))
    requires
        size > 0,
    ensures
        r.0@ == Some(Seq::new(size as nat, |i: int| 0u8)),
        r.1 == size,
{
    calloc_with_layout(layout_of_bytes(size))
}

/// Reallocates a block from `old_size` to `new_size` bytes; see
/// [`realloc_with_layout`].
pub fn realloc(ptr: Ptr, old_size: usize, new_size: usize) -> (r: (Ptr, usize))
    requires
        ptr@ matches Some(b) ==> b.len() == old_size,
        new_size != old_size ==> new_size > 0,
    ensures
        r.1 == new_size,
        new_size == old_size ==> r.0@ == ptr@,
        new_size != old_size ==> (r.0@ matches Some(nb) && nb.len() == new_size
            && (ptr@ matches Some(ob) ==> forall|i: int|
            0 <= i < ob.len() && i < nb.len() ==> nb[i] == ob[i])),
{
    realloc_with_layout(ptr, layout_of_bytes(old_size), layout_of_bytes(new_size))
}

/// Allocates a block sized for one value of type `T`; zero-sized types are
/// not permitted.
pub fn malloc_for<T>() -> (r: (Ptr, usize))
    requires
        vstd::layout::size_of::<T>() > 0,
    ensures
        r.0@ matches Some(b) && b.len() == vstd::layout::size_of::<T>(),
        r.1 == vstd::layout::size_of::<T>(),
{
    malloc_with_layout(layout_of::<T>())
}

/// Releases a block previously allocated for a value of type `T`. The null
/// handle is a no-op.
pub fn free_for<T>(ptr: Ptr)
    requires
        ptr@ matches Some(b) ==> b.len() == vstd::layout::size_of::<T>(),
{
    free_with_layout(ptr, layout_of::<T>());
}

/// Allocates a zero-initialized block sized for one value of type `T`;
/// zero-sized types are not permitted.
pub fn calloc_for<T>() -> (r: (Ptr, usize))
    requires
        vstd::layout::size_of::<T>() > 0,
    ensures
        r.0@ == Some(Seq::new(vstd::layout::size_of::<T>() as nat, |i: int| 0u8)),
        r.1 == vstd::layout::size_of::<T>(),
{
    calloc_with_layout(layout_of::<T>())
}

/// Width of the hidden header of a tagged block, in bytes.
pub const ZMEM_HEADER_SIZE: usize = 8;

/// A raw tagged block: an 8-byte header holding the body size, followed by
/// the body itself, whose size is a multiple of the system alignment.
pub closed spec fn zmem_wf_raw(raw: Seq<u8>) -> bool {
    &&& raw.len() >= ZMEM_HEADER_SIZE
    &&& spec_u64_from_le_bytes(raw.subrange(0, ZMEM_HEADER_SIZE as int)) == (raw.len()
        - ZMEM_HEADER_SIZE) as u64
    &&& (raw.len() - ZMEM_HEADER_SIZE) as int % SYS_ALIGN_SIZE as int == 0
}

/// A handle for one tagged allocation. Its view is the body alone: the
/// header stays hidden inside this module, but is always recoverable, so the
/// body size can be read back from the handle by [`zmem_size_of`].
#[derive(Clone, Debug)]
pub struct ZPtr {
    raw: Ptr,
}

impl View for ZPtr {
    type V = Option<Seq<u8>>;

    closed spec fn view(&self) -> Option<Seq<u8>> {
        match self.raw@ {
            None => None,
            Some(raw) => Some(
                if raw.len() >= ZMEM_HEADER_SIZE {
                    raw.skip(ZMEM_HEADER_SIZE as int)
                } else {
                    Seq::empty()
                },
            ),
        }
    }
}

impl ZPtr {
    /// The header of a non-null tagged block always holds the body's size.
    pub closed spec fn wf(self) -> bool {
        match self.raw@ {
            None => true,
            Some(raw) => zmem_wf_raw(raw),
        }
    }

    /// The null handle.
    pub fn null() -> (r: ZPtr)
        ensures
            r@ is None,
            r.wf(),
    {
        ZPtr { raw: Ptr::null() }
    }

    /// Whether this is the null handle.
    pub fn is_null(&self) -> (r: bool)
        ensures
            r == (self@ is None),
    {
        self.raw.is_null()
    }

    /// Size of the body this handle gives access to; zero for the null
    /// handle. Unlike [`zmem_size_of`] this does not consult the header.
    pub fn body_capacity(&self) -> (r: usize)
        ensures
            match self@ {
                Some(b) => r == b.len(),
                None => r == 0,
            },
    {
        if self.raw.is_null() {
            0
        } else {
            let n: usize = self.raw.data.len();
            if n <= ZMEM_HEADER_SIZE {
                0
            } else {
                n - ZMEM_HEADER_SIZE
            }
        }
    }

    /// Reads one byte of the body.
    pub fn body_byte(&self, i: usize) -> (r: u8)
        requires
            self@ matches Some(b) && i < b.len(),
        ensures
            match self@ {
                Some(b) => r == b[i as int],
                None => false,
            },
    {
        let n: usize = self.raw.data.len();
        self.raw.data[ZMEM_HEADER_SIZE + i]
    }

    /// Borrows the first `n` bytes of the body.
    pub fn body_prefix(&self, n: usize) -> (r: &[u8])
        requires
            self@ matches Some(b) && n <= b.len(),
        ensures
            match self@ {
                Some(b) => r@ == b.take(n as int),
                None => false,
            },
    {
        if n == 0 {
            let s = slice_subrange(self.raw.data.as_slice(), 0, 0);
            proof {
                assert(self.raw.data@.subrange(0, 0) =~= match self@ {
                    Some(b) => b.take(0),
                    None => Seq::empty(),
                });
            }
            s
        } else {
            let len: usize = self.raw.data.len();
            let s = slice_subrange(
                self.raw.data.as_slice(),
                ZMEM_HEADER_SIZE,
                ZMEM_HEADER_SIZE + n,
            );
            proof {
                assert(self.raw.data@.subrange(
                    ZMEM_HEADER_SIZE as int,
                    ZMEM_HEADER_SIZE as int + n as int,
                ) =~= self.raw.data@.skip(ZMEM_HEADER_SIZE as int).take(n as int));
            }
            s
        }
    }

    /// Writes one byte of the body; the header is untouched.
    pub fn body_set(&mut self, i: usize, v: u8)
        requires
            old(self)@ matches Some(b) && i < b.len(),
        ensures
            old(self).wf() ==> final(self).wf(),
            match old(self)@ {
                Some(b) => final(self)@ == Some(b.update(i as int, v)),
                None => false,
            },
    {
        let n: usize = self.raw.data.len();
        self.raw.data.set(ZMEM_HEADER_SIZE + i, v);
        proof {
            let h = ZMEM_HEADER_SIZE as int;
            assert(self.raw.data@.subrange(0, h) =~= old(self).raw.data@.subrange(0, h));
            assert(self.raw.data@.skip(h) =~= old(self).raw.data@.skip(h).update(i as int, v));
        }
    }
}

/// A well-formed non-null tagged body has a size that is a multiple of the
/// system alignment and leaves room for the header and one more alignment
/// step below the word limit.
pub proof fn lemma_zptr_capacity_bounds(p: ZPtr)
    requires
        p.wf(),
    ensures
        match p@ {
            Some(b) => b.len() as int % SYS_ALIGN_SIZE as int == 0 && b.len() + ZMEM_HEADER_SIZE
                + SYS_ALIGN_SIZE - 1 <= usize::MAX,
            None => true,
        },
{
    broadcast use vstd::std_specs::vec::axiom_spec_len;

    if p@ is Some {
        assert(vstd::std_specs::vec::spec_vec_len(&p.raw.data) == p.raw.data@.len());
        let blen = p.raw.data@.len() - ZMEM_HEADER_SIZE;
        assert((usize::MAX - 15) as int % 8 == 0);
        if blen + 15 > usize::MAX {
            crate::align::lemma_round_unique(
                usize::MAX - 15,
                SYS_ALIGN_SIZE as int,
                blen,
                usize::MAX - 15,
            );
        }
    }
}

/// Writes `bsize` into the first header word of the freshly (re)allocated
/// raw block, turning it into a well-formed tagged block.
fn write_header(ptr: Ptr, bsize: usize) -> (r: ZPtr)
    requires
        ptr@ matches Some(b) && b.len() == ZMEM_HEADER_SIZE + bsize,
        bsize as int % SYS_ALIGN_SIZE as int == 0,
    ensures
        r.wf(),
        match ptr@ {
            Some(b) => r@ == Some(b.skip(ZMEM_HEADER_SIZE as int)),
            None => false,
        },
{
    let mut raw = ptr;
    let ghost orig = raw.data@;
    let hdr = u64_to_le_bytes(bsize as u64);
    let mut i: usize = 0;
    while i < ZMEM_HEADER_SIZE
        invariant
            i <= ZMEM_HEADER_SIZE,
            hdr@ == spec_u64_to_le_bytes(bsize as u64),
            hdr@.len() == ZMEM_HEADER_SIZE,
            !raw.null,
            raw.data@.len() == orig.len(),
            orig.len() == ZMEM_HEADER_SIZE + bsize,
            forall|j: int| 0 <= j < i ==> raw.data@[j] == hdr@[j],
            forall|j: int| i <= j < orig.len() ==> raw.data@[j] == orig[j],
        decreases ZMEM_HEADER_SIZE - i,
    {
        let b = hdr[i];
        raw.data.set(i, b);
        i += 1;
    }
    proof {
        let h = ZMEM_HEADER_SIZE as int;
        lemma_auto_spec_u64_to_from_le_bytes();
        assert(raw.data@.subrange(0, h) =~= spec_u64_to_le_bytes(bsize as u64));
        assert(raw.data@.skip(h) =~= orig.skip(h));
    }
    ZPtr { raw }
}

/// The body size recorded in a tagged block's header: what [`zmem_size_of`]
/// reads back. The null handle reports size zero.
pub open spec fn zmem_size_spec(ptr: ZPtr) -> nat {
    match ptr@ {
        None => 0,
        Some(b) => b.len(),
    }
}

/// Recovers the body size of a tagged block from the handle alone, by
/// reading the hidden header. The null handle maps to size zero.
pub fn zmem_size_of(ptr: &ZPtr) -> (r: usize)
    requires
        ptr.wf(),
    ensures
        r == zmem_size_spec(*ptr),
{
    if ptr.is_null() {
        0
    } else {
        let n: usize = ptr.raw.data.len();
        let hdr = slice_subrange(ptr.raw.data.as_slice(), 0, ZMEM_HEADER_SIZE);
        let v = u64_from_le_bytes(hdr);
        proof {
            assert(v == (n - ZMEM_HEADER_SIZE) as u64);
        }
        v as usize
    }
}

/// The size recorded in a tagged block's header is exactly the size that
/// the allocation reported, so recovering it from the handle alone gives
/// back the reported size.
pub proof fn lemma_tagged_size_recovered(p: ZPtr, size: usize)
    requires
        p.wf(),
        p@ matches Some(b) && b.len() == size,
    ensures
        zmem_size_spec(p) == size,
{
}

/// Allocates a tagged block with a body of at least `size` bytes.
///
/// The reported size is `size` rounded up to the system alignment, and is
/// exactly what the header records; even a zero-byte request yields a valid
/// non-null handle, because the header itself always occupies space.
pub fn zmalloc(size: usize) -> (r: (ZPtr, usize))
    requires
        size + ZMEM_HEADER_SIZE + SYS_ALIGN_SIZE - 1 <= usize::MAX,
    ensures
        r.0.wf(),
        r.0@ matches Some(b) && b.len() == r.1,
        r.1 == round_up(size as int, SYS_ALIGN_SIZE as int),
        r.1 >= size,
        r.1 as int % SYS_ALIGN_SIZE as int == 0,
{
    let bsize = size_of_sys_aligned(size);
    proof {
        lemma_round_up_properties(size as int, SYS_ALIGN_SIZE as int);
    }
    let (ptr, _msize) = malloc(ZMEM_HEADER_SIZE + bsize);
    let zp = write_header(ptr, bsize);
    (zp, bsize)
}

/// Allocates a tagged block like [`zmalloc`], with the body additionally
/// zero-initialized.
pub fn zcalloc(size: usize) -> (r: (ZPtr, usize))
    requires
        size + ZMEM_HEADER_SIZE + SYS_ALIGN_SIZE - 1 <= usize::MAX,
    ensures
        r.0.wf(),
        r.0@ matches Some(b) && b =~= Seq::new(r.1 as nat, |i: int| 0u8),
        r.1 == round_up(size as int, SYS_ALIGN_SIZE as int),
        r.1 >= size,
        r.1 as int % SYS_ALIGN_SIZE as int == 0,
{
    let bsize = size_of_sys_aligned(size);
    proof {
        lemma_round_up_properties(size as int, SYS_ALIGN_SIZE as int);
    }
    let (ptr, _msize) = calloc(ZMEM_HEADER_SIZE + bsize);
    let zp = write_header(ptr, bsize);
    proof {
        let h = ZMEM_HEADER_SIZE as int;
        assert(Seq::new((ZMEM_HEADER_SIZE + bsize) as nat, |i: int| 0u8).skip(h) =~= Seq::new(
            bsize as nat,
            |i: int| 0u8,
        ));
    }
    (zp, bsize)
}

/// Releases a tagged block, recovering its full extent from the header. The
/// null handle is a no-op.
pub fn zfree(ptr: ZPtr)
    requires
        ptr.wf(),
{
    let ZPtr { raw } = ptr;
    if !raw.is_null() {
        let n: usize = raw.data.len();
        let hdr = slice_subrange(raw.data.as_slice(), 0, ZMEM_HEADER_SIZE);
        let bsize = u64_from_le_bytes(hdr) as usize;
        proof {
            assert(bsize == n - ZMEM_HEADER_SIZE);
        }
        free(raw, ZMEM_HEADER_SIZE + bsize);
    }
}

/// Resizes a tagged block. A null handle behaves as a fresh [`zmalloc`];
/// otherwise the old total extent is recovered from the header, the raw
/// block is reallocated over header and body together, and the header is
/// rewritten with the new body size. The bytes that fit in both the old and
/// the new body are kept.
pub fn zrealloc(ptr: ZPtr, new_size: usize) -> (r: (ZPtr, usize))
    requires
        ptr.wf(),
        new_size + ZMEM_HEADER_SIZE + SYS_ALIGN_SIZE - 1 <= usize::MAX,
    ensures
        r.0.wf(),
        r.0@ matches Some(nb) && nb.len() == r.1,
        r.1 == round_up(new_size as int, SYS_ALIGN_SIZE as int),
        r.1 >= new_size,
        r.1 as int % SYS_ALIGN_SIZE as int == 0,
        match (ptr@, r.0@) {
            (Some(ob), Some(nb)) => forall|i: int|
                0 <= i < ob.len() && i < nb.len() ==> nb[i] == ob[i],
            _ => true,
        },
{
    let ZPtr { raw } = ptr;
    let old_msize: usize = if raw.is_null() {
        0
    } else {
        raw.data.len()
    };
    let new_bsize = size_of_sys_aligned(new_size);
    proof {
        lemma_round_up_properties(new_size as int, SYS_ALIGN_SIZE as int);
    }
    let (nraw, _msize) = realloc(raw, old_msize, ZMEM_HEADER_SIZE + new_bsize);
    let zp = write_header(nraw, new_bsize);
    (zp, new_bsize)
}

} // verus!
