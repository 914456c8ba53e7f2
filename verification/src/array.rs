//! The storage component: the flat buffer together with its extents and
//! strides, the constructors, and the checked and precondition-checked
//! accessors.

use crate::iterator::Iter;
use crate::iterator::IterMut;
use crate::layout::is_valid_index;
use crate::layout::lemma_offset_in_range;
use crate::layout::lemma_offset_prefix_bound;
use crate::layout::offset_of;
use crate::layout::offset_prefix;
use crate::layout::stride_of;
use crate::layout::total_len;
use vstd::prelude::*;

verus! {

/// Marks a memory-allocation strategy. The container itself always uses
/// the global allocator; the marker keeps the construction surface open
/// for pluggable strategies.
pub trait Allocator {}

/// The default allocation strategy: the process-wide global allocator.
pub struct Global;

impl Allocator for Global {

}

/// Every prefix product of the extents fits a machine word, so stride and
/// total-size arithmetic cannot overflow. This is the documented limitation
/// of computing sizes in fixed-width arithmetic.
pub open spec fn extents_fit(size: Seq<usize>) -> bool {
    forall|k: int| 0 <= k <= size.len() ==> stride_of(size, k) <= usize::MAX
}

/// A dense multi-dimensional array in a single contiguous buffer, laid out
/// row-major with dimension 0 varying fastest.
#[derive(Clone)]
pub struct Array<T> {
    pub(crate) size: Vec<usize>,
    pub(crate) stride: Vec<usize>,
    pub(crate) data: Vec<T>,
}

impl<T> Array<T> {
    /// The extents: the number of valid index values per dimension.
    pub open(crate) spec fn extents(&self) -> Seq<usize> {
        self.size@
    }

    /// The buffer contents in flat storage order.
    pub open(crate) spec fn flat(&self) -> Seq<T> {
        self.data@
    }

    /// Well-formed: one stride per dimension following the row-major rule,
    /// and exactly one cell in the buffer per valid multi-index.
    pub open(crate) spec fn wf(&self) -> bool {
        &&& self.stride@.len() == self.size@.len()
        &&& forall|i: int|
            0 <= i < self.size@.len() ==> self.stride@[i] == stride_of(self.size@, i)
        &&& self.data@.len() == total_len(self.size@)
        &&& self.data@.len() <= usize::MAX
    }

    /// The element stored at multi-index `loc`.
    pub open spec fn cell(&self, loc: Seq<usize>) -> T {
        self.flat()[offset_of(self.extents(), loc)]
    }

    /// A well-formed container holds exactly `total_len` cells, and all its
    /// stride and size products fit a machine word.
    pub proof fn lemma_wf_facts(&self)
        requires
            self.wf(),
        ensures
            self.flat().len() == total_len(self.extents()),
            extents_fit(self.extents()),
    {
        assert forall|k: int| 0 <= k <= self.size@.len() implies stride_of(self.size@, k)
            <= usize::MAX by {
            if k < self.size@.len() {
                assert(self.stride@[k] == stride_of(self.size@, k));
            } else {
                assert(self.data@.len() == stride_of(self.size@, k));
            }
        }
    }
}

/// Computes the strides for the given extents and returns them with the
/// total number of cells.
fn compute_strides(size: &Vec<usize>) -> (r: (Vec<usize>, usize))
    requires
        extents_fit(size@),
    ensures
        r.0@.len() == size@.len(),
        forall|i: int| 0 <= i < size@.len() ==> r.0@[i] == stride_of(size@, i),
        r.1 == total_len(size@),
{
    let n = size.len();
    let mut stride: Vec<usize> = Vec::new();
    let mut l: usize = 1;
    for i in 0..n
        invariant
            n == size@.len(),
            extents_fit(size@),
            stride@.len() == i,
            forall|j: int| 0 <= j < i ==> stride@[j] == stride_of(size@, j),
            l == stride_of(size@, i as int),
    {
        stride.push(l);
        assert(stride_of(size@, i + 1) == stride_of(size@, i as int) * size@[i as int]);
        assert(stride_of(size@, i + 1) <= usize::MAX);
        l = l * size[i];
    }
    (stride, l)
}

impl<T: Default + Clone> Array<T> {
    /// A container of the given extents with every cell default-valued.
    pub fn new(size: Vec<usize>) -> (r: Self)
        requires
            extents_fit(size@),
        ensures
            r.wf(),
            r.extents() == size@,
            exists|d: T|
                #[trigger] call_ensures(T::default, (), d) && forall|i: int|
                    0 <= i < r.flat().len() ==> cloned(d, #[trigger] r.flat()[i]),
    {
        let d = T::default();
        let r = Self::new_with(size, d);
        r
    }
}

impl<T: Clone> Array<T> {
    /// A container of the given extents with every cell a clone of `item`.
    pub fn new_with(size: Vec<usize>, item: T) -> (r: Self)
        requires
            extents_fit(size@),
        ensures
            r.wf(),
            r.extents() == size@,
            forall|i: int| 0 <= i < r.flat().len() ==> cloned(item, #[trigger] r.flat()[i]),
    {
        let (stride, l) = compute_strides(&size);
        let data = vec![item; l];
        Array { size, stride, data }
    }
}

impl<T> Array<T> {
    /// A container of the given extents with every cell produced by one
    /// call of the zero-argument supplier, in flat-index order.
    pub fn new_by<F: Fn() -> T>(size: Vec<usize>, supplier: F) -> (r: Self)
        requires
            extents_fit(size@),
            call_requires(supplier, ()),
        ensures
            r.wf(),
            r.extents() == size@,
            forall|i: int|
                0 <= i < r.flat().len() ==> call_ensures(supplier, (), #[trigger] r.flat()[i]),
    {
        let (stride, l) = compute_strides(&size);
        let mut data: Vec<T> = Vec::with_capacity(l);
        for k in 0..l
            invariant
                call_requires(supplier, ()),
                data@.len() == k,
                forall|j: int| 0 <= j < k ==> call_ensures(supplier, (), #[trigger] data@[j]),
        {
            data.push(supplier());
        }
        Array { size, stride, data }
    }

    /// A container of the given extents with the cell at flat index `i`
    /// produced by `supplier(i)`, called in increasing order of `i`.
    pub fn new_by_enumeration<F: Fn(usize) -> T>(size: Vec<usize>, supplier: F) -> (r: Self)
        requires
            extents_fit(size@),
            forall|i: usize| i < total_len(size@) ==> call_requires(supplier, (i,)),
        ensures
            r.wf(),
            r.extents() == size@,
            forall|i: int|
                0 <= i < r.flat().len() ==> call_ensures(
                    supplier,
                    (i as usize,),
                    #[trigger] r.flat()[i],
                ),
    {
        let (stride, l) = compute_strides(&size);
        let mut data: Vec<T> = Vec::with_capacity(l);
        for k in 0..l
            invariant
                l == total_len(size@),
                forall|i: usize| i < total_len(size@) ==> call_requires(supplier, (i,)),
                data@.len() == k,
                forall|j: int|
                    0 <= j < k ==> call_ensures(supplier, (j as usize,), #[trigger] data@[j]),
        {
            data.push(supplier(k));
        }
        Array { size, stride, data }
    }

    /// Consumes the container and returns the flat buffer unchanged: the
    /// inverse of `from_flat`, with indexing
    /// `x + y * size_x + z * size_x * size_y` and so on.
    pub fn into_flattened(self) -> (r: Vec<T>)
        ensures
            r@ == self.flat(),
    {
        self.data
    }

    /// Reinterprets a flat buffer as a container of the given extents, with
    /// indexing `x + y * size_x + z * size_x * size_y` and so on. Returns
    /// nothing when the buffer length does not match the extents.
    pub fn from_flat(array: Vec<T>, size: Vec<usize>) -> (r: Option<Self>)
        requires
            extents_fit(size@),
        ensures
            r is Some <==> array@.len() == total_len(size@),
            r is Some ==> {
                &&& r.unwrap().wf()
                &&& r.unwrap().extents() == size@
                &&& r.unwrap().flat() == array@
            },
    {
        let (stride, l) = compute_strides(&size);
        if l != array.len() {
            return None;
        }
        Some(Array { size, stride, data: array })
    }

    /// The extents, one per dimension.
    pub fn size(&self) -> (r: Vec<usize>)
        ensures
            r@ == self.extents(),
    {
        let r = self.size.clone();
        proof {
            assert(r@ =~= self.size@);
        }
        r
    }

    /// The strided flat offset of a valid multi-index: the sum over all
    /// dimensions of index times stride.
    pub fn convert_index(&self, index: &Vec<usize>) -> (r: usize)
        requires
            self.wf(),
            is_valid_index(self.extents(), index@),
        ensures
            r == offset_of(self.extents(), index@),
            r < self.flat().len(),
    {
        let d = self.size.len();
        let mut real_loc: usize = 0;
        proof {
            self.lemma_wf_facts();
        }
        for i in 0..d
            invariant
                self.wf(),
                is_valid_index(self.extents(), index@),
                d == self.size@.len(),
                real_loc == offset_prefix(self.size@, index@, i as int),
        {
            proof {
                self.lemma_wf_facts();
                lemma_offset_prefix_bound(self.size@, index@, i as int);
                lemma_offset_prefix_bound(self.size@, index@, i + 1);
            }
            real_loc = real_loc + index[i] * self.stride[i];
        }
        proof {
            lemma_offset_in_range(self.extents(), index@);
        }
        real_loc
    }

    /// The element at `loc`, or nothing when any entry of `loc` reaches or
    /// passes the extent of its dimension or the rank does not match.
    pub fn get(&self, loc: Vec<usize>) -> (r: Option<&T>)
        requires
            self.wf(),
        ensures
            is_valid_index(self.extents(), loc@) ==> r is Some && *r.unwrap() == self.cell(loc@),
            !is_valid_index(self.extents(), loc@) ==> r is None,
    {
        let d = self.size.len();
        if loc.len() != d {
            return None;
        }
        let mut real_loc: usize = 0;
        proof {
            self.lemma_wf_facts();
        }
        for i in 0..d
            invariant
                self.wf(),
                loc@.len() == d,
                d == self.size@.len(),
                forall|j: int| 0 <= j < i ==> loc@[j] < self.size@[j],
                real_loc == offset_prefix(self.size@, loc@, i as int),
        {
            if loc[i] >= self.size[i] {
                return None;
            }
            proof {
                self.lemma_wf_facts();
                lemma_offset_prefix_bound(self.size@, loc@, i as int);
                lemma_offset_prefix_bound(self.size@, loc@, i + 1);
            }
            real_loc = real_loc + loc[i] * self.stride[i];
        }
        proof {
            lemma_offset_in_range(self.extents(), loc@);
        }
        Some(&self.data[real_loc])
    }

    /// The element at `loc` without any run-time bounds check: the caller
    /// must have established that `loc` is a valid multi-index, and the
    /// precondition enforces exactly that.
    pub fn get_unchecked(&self, loc: Vec<usize>) -> (r: &T)
        requires
            self.wf(),
            is_valid_index(self.extents(), loc@),
        ensures
            *r == self.cell(loc@),
    {
        let real_loc = self.convert_index(&loc);
        &self.data[real_loc]
    }

    /// Exclusive access to the element at `loc`, or nothing (and no change)
    /// when `loc` is not a valid multi-index.
    pub fn get_mut(&mut self, loc: Vec<usize>) -> (r: Option<&mut T>)
        requires
            old(self).wf(),
        ensures
            !is_valid_index(old(self).extents(), loc@) ==> r is None && *final (self) == *old(
                self,
            ),
            is_valid_index(old(self).extents(), loc@) ==> {
                &&& r is Some
                &&& *r.unwrap() == old(self).cell(loc@)
                &&& final (self).wf()
                &&& final (self).extents() == old(self).extents()
                &&& final (self).flat() == old(self).flat().update(
                    offset_of(old(self).extents(), loc@),
                    *final (r.unwrap()),
                )
            },
    {
        let d = self.size.len();
        if loc.len() != d {
            return None;
        }
        let mut real_loc: usize = 0;
        proof {
            self.lemma_wf_facts();
        }
        for i in 0..d
            invariant
                self.wf(),
                loc@.len() == d,
                d == self.size@.len(),
                forall|j: int| 0 <= j < i ==> loc@[j] < self.size@[j],
                real_loc == offset_prefix(self.size@, loc@, i as int),
        {
            if loc[i] >= self.size[i] {
                return None;
            }
            proof {
                self.lemma_wf_facts();
                lemma_offset_prefix_bound(self.size@, loc@, i as int);
                lemma_offset_prefix_bound(self.size@, loc@, i + 1);
            }
            real_loc = real_loc + loc[i] * self.stride[i];
        }
        proof {
            lemma_offset_in_range(self.extents(), loc@);
        }
        Some(&mut self.data[real_loc])
    }

    /// Exclusive access to the element at `loc` without any run-time bounds
    /// check: the precondition demands a valid multi-index.
    pub fn get_unchecked_mut(&mut self, loc: Vec<usize>) -> (r: &mut T)
        requires
            old(self).wf(),
            is_valid_index(old(self).extents(), loc@),
        ensures
            *r == old(self).cell(loc@),
            final (self).wf(),
            final (self).extents() == old(self).extents(),
            final (self).flat() == old(self).flat().update(
                offset_of(old(self).extents(), loc@),
                *final (r),
            ),
    {
        let real_loc = self.convert_index(&loc);
        &mut self.data[real_loc]
    }

    /// A cursor iterator over shared references, pairing every element with
    /// its multi-index in flat storage order.
    pub fn iter(&self) -> (it: Iter<T>)
        requires
            self.wf(),
            self.extents().len() > 0,
        ensures
            it.wf(),
            it.array() == *self,
            it.pos() == 0,
    {
        Iter::new(self)
    }

    /// A cursor iterator over exclusive references, pairing every element
    /// with its multi-index in flat storage order; the container's eventual
    /// contents are whatever the cursor's borrow leaves behind.
    pub fn iter_mut(&mut self) -> (it: IterMut<T>)
        requires
            old(self).wf(),
            old(self).extents().len() > 0,
        ensures
            it.wf(),
            it.extents() == old(self).extents(),
            it.elems() == old(self).flat(),
            it.pos() == 0,
            final (self).extents() == old(self).extents(),
            final (self).flat() == (*final (it.data))@,
            (*final (it.data))@.len() == old(self).flat().len() ==> final (self).wf(),
    {
        IterMut::new_mut(self)
    }

    /// The flat buffer as a contiguous shared view, zero-copy, with indexing
    /// `x + y * size_x + z * size_x * size_y` and so on.
    pub fn as_flattened(&self) -> (r: &[T])
        ensures
            r@ == self.flat(),
    {
        self.data.as_slice()
    }

    /// The flat buffer as a contiguous exclusive view, zero-copy, with
    /// indexing `x + y * size_x + z * size_x * size_y` and so on.
    pub fn as_flattened_mut(&mut self) -> (r: &mut [T])
        ensures
            r@ == old(self).flat(),
            final (self).flat() == final (r)@,
            final (self).extents() == old(self).extents(),
            final (r)@.len() == old(self).flat().len() && old(self).wf() ==> final (self).wf(),
    {
        self.data.as_mut_slice()
    }
}

} // verus!
