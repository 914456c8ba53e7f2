//! The cursor iterator: walks the flat buffer in storage order while
//! tracking the matching multi-index with odometer-style carry
//! propagation across dimensions.

use crate::array::Array;
use crate::layout::coord_of;
use crate::layout::is_valid_index;
use crate::layout::lemma_offset_coord_roundtrip;
use crate::layout::lemma_offset_in_range;
use crate::layout::lemma_offset_prefix_saturated;
use crate::layout::lemma_offset_prefix_zero;
use crate::layout::lemma_offset_suffix_agree;
use crate::layout::lemma_total_pos_extents_pos;
use crate::layout::offset_of;
use crate::layout::total_len;
use vstd::arithmetic::div_mod::lemma_mod_self_0;
use vstd::arithmetic::div_mod::lemma_small_mod;
use vstd::prelude::*;

verus! {

/// A vector of `n` zeros: the starting coordinate of a cursor.
fn zero_coords(n: usize) -> (r: Vec<usize>)
    ensures
        r@.len() == n,
        forall|i: int| 0 <= i < n ==> r@[i] == 0,
{
    let mut r: Vec<usize> = Vec::new();
    for k in 0..n
        invariant
            r@.len() == k,
            forall|i: int| 0 <= i < k ==> r@[i] == 0,
    {
        r.push(0);
    }
    r
}

/// An owned copy of a coordinate vector.
fn copy_coords(v: &Vec<usize>) -> (r: Vec<usize>)
    ensures
        r@ == v@,
{
    let r = v.clone();
    proof {
        assert(r@ =~= v@);
    }
    r
}

/// Advances a coordinate one step in flat storage order: increment
/// dimension 0 and, whenever a dimension reaches its extent, reset it to
/// zero and carry into the next one. After the last multi-index the
/// coordinate wraps around to all zeros, so the offset advances modulo
/// the total size.
fn increment_ptr(ptr: &mut Vec<usize>, size: &Vec<usize>)
    requires
        size@.len() > 0,
        old(ptr)@.len() == size@.len(),
        is_valid_index(size@, old(ptr)@),
    ensures
        is_valid_index(size@, final (ptr)@),
        offset_of(size@, final (ptr)@) == (offset_of(size@, old(ptr)@) + 1) % total_len(size@),
{
    let d = size.len();
    proof {
        lemma_offset_in_range(size@, old(ptr)@);
    }
    let mut n: usize = 0;
    let mut done: bool = false;
    while !done && n < d
        invariant
            d == size@.len(),
            ptr@.len() == d,
            n <= d,
            is_valid_index(size@, old(ptr)@),
            1 <= total_len(size@),
            !done ==> forall|i: int| 0 <= i < n ==> old(ptr)@[i] == size@[i] - 1,
            !done ==> forall|i: int| 0 <= i < n ==> ptr@[i] == 0,
            !done ==> forall|i: int| n <= i < d ==> ptr@[i] == old(ptr)@[i],
            done ==> is_valid_index(size@, ptr@) && offset_of(size@, ptr@) == offset_of(
                size@,
                old(ptr)@,
            ) + 1,
        decreases (if done {
            0int
        } else {
            1int
        }) + d - n,
    {
        let v = ptr[n] + 1;
        if v == size[n] {
            ptr.set(n, 0);
            n = n + 1;
        } else {
            ptr.set(n, v);
            proof {
                let oldp = old(ptr)@;
                let newp = ptr@;
                let s = crate::layout::stride_of(size@, n as int);
                lemma_offset_prefix_zero(size@, newp, n as int);
                lemma_offset_prefix_saturated(size@, oldp, n as int);
                assert((oldp[n as int] + 1) * s == oldp[n as int] * s + s) by (nonlinear_arith);
                lemma_offset_suffix_agree(size@, newp, oldp, n + 1, d as int);
            }
            done = true;
        }
    }
    proof {
        if done {
            lemma_offset_in_range(size@, ptr@);
            lemma_small_mod(
                (offset_of(size@, old(ptr)@) + 1) as nat,
                total_len(size@) as nat,
            );
        } else {
            lemma_total_pos_extents_pos(size@);
            lemma_offset_prefix_saturated(size@, old(ptr)@, d as int);
            lemma_offset_prefix_zero(size@, ptr@, d as int);
            lemma_mod_self_0(total_len(size@));
        }
    }
}

/// A one-shot forward cursor over shared references: yields every element
/// of the container paired with its multi-index, in flat storage order.
pub struct Iter<'a, T> {
    pub(crate) array: &'a Array<T>,
    pub(crate) ptr: Vec<usize>,
    pub(crate) pos: usize,
}

impl<'a, T> Iter<'a, T> {
    /// The container being walked.
    pub open(crate) spec fn array(&self) -> Array<T> {
        *self.array
    }

    /// How many elements have been yielded so far.
    pub open(crate) spec fn pos(&self) -> int {
        self.pos as int
    }

    /// The coordinate that will be paired with the next element.
    pub open(crate) spec fn coords(&self) -> Seq<usize> {
        self.ptr@
    }

    /// Well-formed: the coordinate tracks the position in lock-step, so
    /// before exhaustion its strided offset equals the position.
    pub open(crate) spec fn wf(&self) -> bool {
        &&& self.array.wf()
        &&& self.array.extents().len() > 0
        &&& self.ptr@.len() == self.array.extents().len()
        &&& self.pos <= self.array.flat().len()
        &&& self.pos < self.array.flat().len() ==> {
            &&& is_valid_index(self.array.extents(), self.ptr@)
            &&& offset_of(self.array.extents(), self.ptr@) == self.pos
        }
    }

    /// A cursor at the start of the container, its coordinate all zeros.
    pub(crate) fn new(array: &'a Array<T>) -> (it: Self)
        requires
            array.wf(),
            array.extents().len() > 0,
        ensures
            it.wf(),
            it.array() == *array,
            it.pos() == 0,
    {
        let ptr = zero_coords(array.size.len());
        proof {
            array.lemma_wf_facts();
            if array.flat().len() > 0 {
                lemma_total_pos_extents_pos(array.extents());
            }
            lemma_offset_prefix_zero(array.extents(), ptr@, array.extents().len() as int);
        }
        Iter { array, ptr, pos: 0 }
    }

    /// Yields the next element with its multi-index, or nothing once the
    /// buffer is exhausted — a terminal state. The k-th yielded coordinate
    /// is exactly the multi-index whose strided offset is k.
    pub fn next(&mut self) -> (r: Option<(Vec<usize>, &'a T)>)
        requires
            old(self).wf(),
        ensures
            final (self).wf(),
            final (self).array() == old(self).array(),
            old(self).pos() >= old(self).array().flat().len() ==> r is None && final (self).pos()
                == old(self).pos(),
            old(self).pos() < old(self).array().flat().len() ==> {
                &&& r is Some
                &&& r.unwrap().0@ == coord_of(old(self).array().extents(), old(self).pos())
                &&& is_valid_index(old(self).array().extents(), r.unwrap().0@)
                &&& offset_of(old(self).array().extents(), r.unwrap().0@) == old(self).pos()
                &&& *r.unwrap().1 == old(self).array().flat()[old(self).pos()]
                &&& final (self).pos() == old(self).pos() + 1
            },
    {
        let a = self.array;
        if self.pos >= a.data.len() {
            return None;
        }
        let coords = copy_coords(&self.ptr);
        let item = &a.data[self.pos];
        proof {
            a.lemma_wf_facts();
            lemma_offset_coord_roundtrip(a.extents(), self.ptr@);
        }
        self.pos = self.pos + 1;
        increment_ptr(&mut self.ptr, &a.size);
        proof {
            if self.pos < a.data.len() {
                lemma_small_mod(self.pos as nat, total_len(a.extents()) as nat);
            }
        }
        Some((coords, item))
    }
}

/// A one-shot forward cursor over exclusive references: yields every
/// element of the container paired with its multi-index, in flat storage
/// order, for mutation in place.
pub struct IterMut<'a, T> {
    /// The exclusively borrowed flat buffer; what the cursor's borrow
    /// leaves here is what the container holds afterwards.
    pub data: &'a mut Vec<T>,
    /// A copy of the container's extents.
    pub size: Vec<usize>,
    /// The coordinate that will be paired with the next element.
    pub ptr: Vec<usize>,
    /// How many elements have been yielded so far.
    pub pos: usize,
}

impl<'a, T> IterMut<'a, T> {
    /// The extents of the container being walked.
    pub open(crate) spec fn extents(&self) -> Seq<usize> {
        self.size@
    }

    /// The buffer contents as they stand now.
    pub open(crate) spec fn elems(&self) -> Seq<T> {
        (*self.data)@
    }

    /// How many elements have been yielded so far.
    pub open(crate) spec fn pos(&self) -> int {
        self.pos as int
    }

    /// Well-formed: the coordinate tracks the position in lock-step, so
    /// before exhaustion its strided offset equals the position.
    pub open(crate) spec fn wf(&self) -> bool {
        &&& self.size@.len() > 0
        &&& self.ptr@.len() == self.size@.len()
        &&& self.elems().len() == total_len(self.size@)
        &&& self.elems().len() <= usize::MAX
        &&& self.pos <= self.elems().len()
        &&& self.pos < self.elems().len() ==> {
            &&& is_valid_index(self.size@, self.ptr@)
            &&& offset_of(self.size@, self.ptr@) == self.pos
        }
    }

    /// A cursor at the start of the container, borrowing its buffer
    /// exclusively; the container's eventual contents are whatever the
    /// cursor's borrow leaves behind.
    pub(crate) fn new_mut(array: &'a mut Array<T>) -> (it: Self)
        requires
            old(array).wf(),
            old(array).extents().len() > 0,
        ensures
            it.wf(),
            it.extents() == old(array).extents(),
            it.elems() == old(array).flat(),
            it.pos() == 0,
            final (array).extents() == old(array).extents(),
            final (array).flat() == (*final (it.data))@,
            (*final (it.data))@.len() == old(array).flat().len() ==> final (array).wf(),
    {
        let d = array.size.len();
        let size = copy_coords(&array.size);
        let ptr = zero_coords(d);
        proof {
            array.lemma_wf_facts();
            if array.flat().len() > 0 {
                lemma_total_pos_extents_pos(array.extents());
            }
            lemma_offset_prefix_zero(array.extents(), ptr@, array.extents().len() as int);
        }
        IterMut { data: &mut array.data, size, ptr, pos: 0 }
    }

    /// Yields exclusive access to the next element with its multi-index,
    /// or nothing once the buffer is exhausted — a terminal state. The
    /// k-th yielded coordinate is exactly the multi-index whose strided
    /// offset is k.
    pub fn next(&mut self) -> (r: Option<(Vec<usize>, &mut T)>)
        requires
            old(self).wf(),
        ensures
            final (self).wf(),
            final (self).extents() == old(self).extents(),
            old(self).pos() >= old(self).elems().len() ==> r is None && final (self).pos() == old(
                self,
            ).pos() && final (self).elems() == old(self).elems(),
            old(self).pos() < old(self).elems().len() ==> {
                &&& r is Some
                &&& r.unwrap().0@ == coord_of(old(self).extents(), old(self).pos())
                &&& is_valid_index(old(self).extents(), r.unwrap().0@)
                &&& offset_of(old(self).extents(), r.unwrap().0@) == old(self).pos()
                &&& *r.unwrap().1 == old(self).elems()[old(self).pos()]
                &&& final (self).elems() == old(self).elems().update(
                    old(self).pos(),
                    *final (r.unwrap().1),
                )
                &&& final (self).pos() == old(self).pos() + 1
            },
    {
        if self.pos >= self.data.len() {
            return None;
        }
        let coords = copy_coords(&self.ptr);
        proof {
            lemma_offset_coord_roundtrip(self.size@, self.ptr@);
        }
        let p = self.pos;
        self.pos = p + 1;
        increment_ptr(&mut self.ptr, &self.size);
        proof {
            if self.pos < (*self.data)@.len() {
                lemma_small_mod(self.pos as nat, total_len(self.size@) as nat);
            }
        }
        let item = &mut self.data[p];
        Some((coords, item))
    }
}

} // verus!
