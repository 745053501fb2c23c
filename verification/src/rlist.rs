//! A sequence container with front, back and positional operations.
//!
//! Elements live in one growable contiguous store and positions are plain
//! indices, so every operation is specified directly over the sequence of
//! elements it holds.

use core::ops::Range;
use vstd::pervasive::VecAdditionalExecFns;
use vstd::prelude::*;

verus! {

/// `end` clamped to the length of `s`.
pub open spec fn spec_list_end<T>(s: Seq<T>, end: int) -> int {
    if end <= s.len() {
        end
    } else {
        s.len() as int
    }
}

/// What is left of `s` after trimming to the range `[start, end)`: both
/// bounds are clamped to the length, and a start beyond the end leaves
/// nothing.
pub open spec fn spec_list_trim<T>(s: Seq<T>, start: int, end: int) -> Seq<T> {
    let e = spec_list_end(s, end);
    let b = spec_list_end(s, start);
    if b <= e {
        s.subrange(b, e)
    } else {
        Seq::<T>::empty()
    }
}

/// A list of copyable elements.
pub struct RList<T: Copy> {
    elems: Vec<T>,
}

impl<T: Copy> View for RList<T> {
    type V = Seq<T>;

    closed spec fn view(&self) -> Seq<T> {
        self.elems@
    }
}

impl<T: Copy> RList<T> {
    /// An empty list.
    pub fn new() -> (r: RList<T>)
        ensures
            r@ == Seq::<T>::empty(),
    {
        RList { elems: Vec::new() }
    }

    /// Inserts `data` at position `idx`, clamped to the end of the list.
    fn insert(&mut self, idx: usize, data: T)
        ensures
            final(self)@ == if idx <= old(self)@.len() {
                old(self)@.insert(idx as int, data)
            } else {
                old(self)@.push(data)
            },
    {
        let len: usize = self.elems.len();
        if idx <= len {
            self.elems.insert(idx, data);
        } else {
            self.elems.push(data);
        }
    }

    /// Prepends an element.
    pub fn push_front(&mut self, data: T)
        ensures
            final(self)@ == seq![data] + old(self)@,
    {
        self.insert(0, data);
        proof {
            assert(old(self)@.insert(0, data) =~= seq![data] + old(self)@);
        }
    }

    /// Removes and returns the first element, if any.
    pub fn pop_front(&mut self) -> (r: Option<T>)
        ensures
            old(self)@.len() == 0 ==> r is None && final(self)@ == old(self)@,
            old(self)@.len() > 0 ==> r == Some(old(self)@[0]) && final(self)@ == old(
                self,
            )@.drop_first(),
    {
        if self.elems.is_empty() {
            None
        } else {
            let v = self.elems.remove(0);
            proof {
                assert(old(self)@.remove(0) =~= old(self)@.drop_first());
            }
            Some(v)
        }
    }

    /// Appends an element.
    pub fn push_back(&mut self, data: T)
        ensures
            final(self)@ == old(self)@.push(data),
    {
        self.elems.push(data);
    }

    /// Removes and returns the last element, if any.
    pub fn pop_back(&mut self) -> (r: Option<T>)
        ensures
            old(self)@.len() == 0 ==> r is None && final(self)@ == old(self)@,
            old(self)@.len() > 0 ==> r == Some(old(self)@.last()) && final(self)@ == old(
                self,
            )@.drop_last(),
    {
        self.elems.pop()
    }

    /// The first element, if any.
    pub fn front(&self) -> (r: Option<T>)
        ensures
            self@.len() == 0 ==> r is None,
            self@.len() > 0 ==> r == Some(self@[0]),
    {
        if self.elems.is_empty() {
            None
        } else {
            Some(self.elems[0])
        }
    }

    /// The last element, if any.
    pub fn back(&self) -> (r: Option<T>)
        ensures
            self@.len() == 0 ==> r is None,
            self@.len() > 0 ==> r == Some(self@.last()),
    {
        let len: usize = self.elems.len();
        if len == 0 {
            None
        } else {
            Some(self.elems[len - 1])
        }
    }

    /// Inserts an element before position `idx`, clamped to the end.
    pub fn insert_before(&mut self, idx: usize, data: T)
        ensures
            final(self)@ == if idx <= old(self)@.len() {
                old(self)@.insert(idx as int, data)
            } else {
                old(self)@.push(data)
            },
    {
        self.insert(idx, data);
    }

    /// Inserts an element after position `idx`, clamped to the end.
    pub fn insert_after(&mut self, idx: usize, data: T)
        requires
            idx < usize::MAX,
        ensures
            final(self)@ == if idx + 1 <= old(self)@.len() {
                old(self)@.insert(idx + 1, data)
            } else {
                old(self)@.push(data)
            },
    {
        self.insert(idx + 1, data);
    }

    /// The elements of `[r.start, r.end)`, with the end clamped to the
    /// length, as an independent vector; an empty list yields an empty
    /// vector whatever the range.
    pub fn range(&self, r: Range<usize>) -> (out: Vec<T>)
        requires
            self@.len() == 0 || r.start <= spec_list_end(self@, r.end as int),
        ensures
            out@ == if self@.len() == 0 {
                Seq::<T>::empty()
            } else {
                self@.subrange(r.start as int, spec_list_end(self@, r.end as int))
            },
    {
        let len: usize = self.elems.len();
        let mut out: Vec<T> = Vec::new();
        if len == 0 {
            proof {
                assert(out@ =~= Seq::<T>::empty());
            }
            return out;
        }
        let e: usize = if r.end <= len {
            r.end
        } else {
            len
        };
        let mut i: usize = r.start;
        while i < e
            invariant
                r.start <= i <= e,
                e <= self@.len(),
                out@ == self@.subrange(r.start as int, i as int),
            decreases e - i,
        {
            out.push(self.elems[i]);
            proof {
                assert(self@.subrange(r.start as int, i + 1) =~= self@.subrange(
                    r.start as int,
                    i as int,
                ).push(self@[i as int]));
            }
            i += 1;
        }
        proof {
            assert(out@ =~= self@.subrange(r.start as int, e as int));
        }
        out
    }

    /// All elements, in order, as an independent vector.
    pub fn to_vec(&self) -> (out: Vec<T>)
        ensures
            out@ == self@,
    {
        let len: usize = self.elems.len();
        let mut out: Vec<T> = Vec::new();
        let mut i: usize = 0;
        while i < len
            invariant
                i <= len,
                len == self@.len(),
                out@ == self@.take(i as int),
            decreases len - i,
        {
            out.push(self.elems[i]);
            proof {
                assert(self@.take(i + 1) =~= self@.take(i as int).push(self@[i as int]));
            }
            i += 1;
        }
        proof {
            assert(out@ =~= self@);
        }
        out
    }

    /// The element at `idx`, if the position exists.
    pub fn get(&self, idx: usize) -> (r: Option<T>)
        ensures
            idx < self@.len() ==> r == Some(self@[idx as int]),
            idx >= self@.len() ==> r is None,
    {
        if idx >= self.elems.len() {
            None
        } else {
            Some(self.elems[idx])
        }
    }

    /// Replaces the element at `idx`, returning the old element; nothing
    /// changes when the position does not exist.
    pub fn set(&mut self, idx: usize, val: T) -> (r: Option<T>)
        ensures
            idx < old(self)@.len() ==> r == Some(old(self)@[idx as int]) && final(self)@ == old(
                self,
            )@.update(idx as int, val),
            idx >= old(self)@.len() ==> r is None && final(self)@ == old(self)@,
    {
        if idx >= self.elems.len() {
            None
        } else {
            let prev = self.elems[idx];
            self.elems.set(idx, val);
            Some(prev)
        }
    }

    /// Removes and returns the element at `idx`; nothing changes when the
    /// position does not exist. The list must not be empty.
    pub fn remove(&mut self, idx: usize) -> (r: Option<T>)
        requires
            old(self)@.len() > 0,
        ensures
            idx < old(self)@.len() ==> r == Some(old(self)@[idx as int]) && final(self)@ == old(
                self,
            )@.remove(idx as int),
            idx >= old(self)@.len() ==> r is None && final(self)@ == old(self)@,
    {
        if idx >= self.elems.len() {
            None
        } else {
            Some(self.elems.remove(idx))
        }
    }

    /// Keeps only the elements of `[r.start, r.end)`, both bounds clamped
    /// to the length; a start beyond the end leaves the list empty.
    pub fn trim(&mut self, r: Range<usize>)
        ensures
            final(self)@ == spec_list_trim(old(self)@, r.start as int, r.end as int),
    {
        let len: usize = self.elems.len();
        let e: usize = if r.end <= len {
            r.end
        } else {
            len
        };
        let b: usize = if r.start <= len {
            r.start
        } else {
            len
        };
        if b > e {
            self.elems.clear();
        } else {
            self.elems.truncate(e);
            let mut i: usize = 0;
            while i < b
                invariant
                    i <= b,
                    b <= e <= old(self)@.len(),
                    self@ == old(self)@.subrange(i as int, e as int),
                decreases b - i,
            {
                self.elems.remove(0);
                proof {
                    assert(old(self)@.subrange(i as int, e as int).remove(0) =~= old(
                        self,
                    )@.subrange(i + 1, e as int));
                }
                i += 1;
            }
        }
    }

    /// Whether the list holds no elements.
    pub fn is_empty(&self) -> (r: bool)
        ensures
            r == (self@.len() == 0),
    {
        self.elems.is_empty()
    }

    /// Count of elements held.
    pub fn len(&self) -> (r: usize)
        ensures
            r == self@.len(),
    {
        self.elems.len()
    }
}

impl<T: Copy> Default for RList<T> {
    /// An empty list, as [`RList::new`] builds it.
    fn default() -> (r: RList<T>)
        ensures
            r@ == Seq::<T>::empty(),
    {
        RList::new()
    }
}

} // verus!
