//! The strided row-major layout: the mathematical model of how a
//! multi-index is mapped to a position in the flat buffer.

use vstd::arithmetic::div_mod::lemma_breakdown;
use vstd::arithmetic::div_mod::lemma_fundamental_div_mod_converse_div;
use vstd::arithmetic::div_mod::lemma_fundamental_div_mod_converse_mod;
use vstd::arithmetic::div_mod::lemma_mod_division_less_than_divisor;
use vstd::arithmetic::div_mod::lemma_small_mod;
use vstd::prelude::*;

verus! {

/// The stride of dimension `k`: the product of the extents of all earlier
/// dimensions. Dimension 0 has stride 1; the value for `k == size.len()` is
/// the total number of cells.
pub open spec fn stride_of(size: Seq<usize>, k: int) -> int
    decreases k,
{
    if k <= 0 {
        1
    } else {
        stride_of(size, k - 1) * size[k - 1]
    }
}

/// The total number of cells: the product of all extents.
pub open spec fn total_len(size: Seq<usize>) -> int {
    stride_of(size, size.len() as int)
}

/// A multi-index is valid when it has one entry per dimension and every
/// entry lies below the extent of its dimension.
pub open spec fn is_valid_index(size: Seq<usize>, loc: Seq<usize>) -> bool {
    &&& loc.len() == size.len()
    &&& forall|i: int| 0 <= i < size.len() ==> loc[i] < size[i]
}

/// The strided offset restricted to the first `k` dimensions.
pub open spec fn offset_prefix(size: Seq<usize>, loc: Seq<usize>, k: int) -> int
    decreases k,
{
    if k <= 0 {
        0
    } else {
        offset_prefix(size, loc, k - 1) + loc[k - 1] * stride_of(size, k - 1)
    }
}

/// The strided offset of a multi-index: the sum over all dimensions of
/// index times stride.
pub open spec fn offset_of(size: Seq<usize>, loc: Seq<usize>) -> int {
    offset_prefix(size, loc, size.len() as int)
}

/// The multi-index whose strided offset is the flat position `n`:
/// dimension `i` holds `(n / stride_of(i)) % size[i]`.
pub open spec fn coord_of(size: Seq<usize>, n: int) -> Seq<usize> {
    Seq::new(size.len(), |i: int| ((n / stride_of(size, i)) % (size[i] as int)) as usize)
}

/// Strides are at least 1 while every earlier extent is at least 1,
/// and in any case never negative.
pub proof fn lemma_stride_pos(size: Seq<usize>, k: int)
    ensures
        (forall|i: int| 0 <= i < k ==> 1 <= size[i]) ==> 1 <= stride_of(size, k),
        0 <= stride_of(size, k),
    decreases k,
{
    if k <= 0 {
    } else {
        lemma_stride_pos(size, k - 1);
        assert(stride_of(size, k) == stride_of(size, k - 1) * size[k - 1]);
        assert(0 <= stride_of(size, k - 1) ==> 0 <= stride_of(size, k - 1) * size[k - 1])
            by (nonlinear_arith);
        assert((1 <= stride_of(size, k - 1) && 1 <= size[k - 1]) ==> 1 <= stride_of(size, k - 1)
            * size[k - 1]) by (nonlinear_arith);
    }
}

/// When the container holds at least one cell, every extent is positive.
pub proof fn lemma_total_pos_extents_pos(size: Seq<usize>)
    requires
        1 <= total_len(size),
    ensures
        forall|i: int| 0 <= i < size.len() ==> 1 <= size[i],
{
    assert forall|i: int| 0 <= i < size.len() implies 1 <= size[i] by {
        if size[i] == 0 {
            lemma_zero_extent(size, i, size.len() as int);
        }
    }
}

/// A zero extent forces every later stride, and so the total, to zero.
proof fn lemma_zero_extent(size: Seq<usize>, i: int, k: int)
    requires
        0 <= i < k,
        size[i] == 0,
    ensures
        stride_of(size, k) == 0,
    decreases k,
{
    if k - 1 == i {
        assert(stride_of(size, k) == stride_of(size, k - 1) * 0);
        assert(stride_of(size, k - 1) * 0 == 0) by (nonlinear_arith);
    } else {
        lemma_zero_extent(size, i, k - 1);
        assert(stride_of(size, k) == 0 * size[k - 1]);
        assert(0 * size[k - 1] == 0) by (nonlinear_arith);
    }
}

/// The offset over the first `k` dimensions of a valid multi-index stays
/// below the stride of dimension `k`.
pub proof fn lemma_offset_prefix_bound(size: Seq<usize>, loc: Seq<usize>, k: int)
    requires
        forall|i: int| 0 <= i < k ==> loc[i] < size[i],
    ensures
        0 <= offset_prefix(size, loc, k) <= stride_of(size, k) - 1,
    decreases k,
{
    if k <= 0 {
    } else {
        lemma_offset_prefix_bound(size, loc, k - 1);
        lemma_stride_pos(size, k);
        lemma_stride_pos(size, k - 1);
        let s = stride_of(size, k - 1);
        assert(loc[k - 1] * s <= (size[k - 1] - 1) * s) by (nonlinear_arith)
            requires
                loc[k - 1] <= size[k - 1] - 1,
                0 <= s,
        ;
        assert(0 <= loc[k - 1] * s) by (nonlinear_arith)
            requires
                0 <= loc[k - 1],
                0 <= s,
        ;
        assert((size[k - 1] - 1) * s == size[k - 1] * s - s) by (nonlinear_arith);
        assert(size[k - 1] * s == stride_of(size, k)) by (nonlinear_arith)
            requires
                stride_of(size, k) == s * size[k - 1],
        ;
    }
}

/// The strided offset of a valid multi-index lies in `0 .. total_len`.
pub proof fn lemma_offset_in_range(size: Seq<usize>, loc: Seq<usize>)
    requires
        is_valid_index(size, loc),
    ensures
        0 <= offset_of(size, loc) < total_len(size),
{
    lemma_offset_prefix_bound(size, loc, size.len() as int);
}

/// Dimensions indexed at zero contribute nothing to the offset.
pub proof fn lemma_offset_prefix_zero(size: Seq<usize>, loc: Seq<usize>, k: int)
    requires
        forall|i: int| 0 <= i < k ==> loc[i] == 0,
    ensures
        offset_prefix(size, loc, k) == 0,
    decreases k,
{
    if k <= 0 {
    } else {
        lemma_offset_prefix_zero(size, loc, k - 1);
        assert(0 * stride_of(size, k - 1) == 0) by (nonlinear_arith);
    }
}

/// A multi-index whose first `k` entries all sit at their extent's last
/// value has, over those dimensions, the largest offset possible: one
/// less than the stride of dimension `k`.
pub proof fn lemma_offset_prefix_saturated(size: Seq<usize>, loc: Seq<usize>, k: int)
    requires
        forall|i: int| 0 <= i < k ==> loc[i] == size[i] - 1,
    ensures
        offset_prefix(size, loc, k) == stride_of(size, k) - 1,
    decreases k,
{
    if k <= 0 {
    } else {
        lemma_offset_prefix_saturated(size, loc, k - 1);
        let s = stride_of(size, k - 1);
        assert((size[k - 1] - 1) * s == size[k - 1] * s - s) by (nonlinear_arith);
        assert(size[k - 1] * s == s * size[k - 1]) by (nonlinear_arith);
    }
}

/// Two multi-indices that agree on dimensions `k` and above differ in
/// offset exactly as their offsets over the first `k` dimensions differ.
pub proof fn lemma_offset_suffix_agree(size: Seq<usize>, a: Seq<usize>, b: Seq<usize>, k: int, m: int)
    requires
        0 <= k <= m,
        forall|i: int| k <= i < m ==> a[i] == b[i],
    ensures
        offset_prefix(size, a, m) - offset_prefix(size, a, k) == offset_prefix(size, b, m)
            - offset_prefix(size, b, k),
    decreases m - k,
{
    if m <= k {
    } else {
        lemma_offset_suffix_agree(size, a, b, k, m - 1);
    }
}

/// Two valid multi-indices with equal offsets over their first `k`
/// dimensions agree on those dimensions.
pub proof fn lemma_offset_prefix_injective(size: Seq<usize>, a: Seq<usize>, b: Seq<usize>, k: int)
    requires
        forall|i: int| 0 <= i < k ==> a[i] < size[i],
        forall|i: int| 0 <= i < k ==> b[i] < size[i],
        offset_prefix(size, a, k) == offset_prefix(size, b, k),
    ensures
        forall|i: int| 0 <= i < k ==> a[i] == b[i],
    decreases k,
{
    if k <= 0 {
    } else {
        let s = stride_of(size, k - 1);
        lemma_stride_pos(size, k - 1);
        assert(1 <= s) by {
            assert forall|i: int| 0 <= i < k - 1 implies 1 <= size[i] by {
                assert(a[i] < size[i]);
            }
        }
        lemma_offset_prefix_bound(size, a, k - 1);
        lemma_offset_prefix_bound(size, b, k - 1);
        let x = offset_prefix(size, a, k);
        lemma_fundamental_div_mod_converse_div(x, s, a[k - 1] as int, offset_prefix(size, a, k - 1));
        lemma_fundamental_div_mod_converse_mod(x, s, a[k - 1] as int, offset_prefix(size, a, k - 1));
        lemma_fundamental_div_mod_converse_div(x, s, b[k - 1] as int, offset_prefix(size, b, k - 1));
        lemma_fundamental_div_mod_converse_mod(x, s, b[k - 1] as int, offset_prefix(size, b, k - 1));
        assert(a[k - 1] == b[k - 1]);
        assert(offset_prefix(size, a, k - 1) == offset_prefix(size, b, k - 1));
        lemma_offset_prefix_injective(size, a, b, k - 1);
    }
}

/// Distinct valid multi-indices have distinct offsets.
pub proof fn lemma_offset_injective(size: Seq<usize>, a: Seq<usize>, b: Seq<usize>)
    requires
        is_valid_index(size, a),
        is_valid_index(size, b),
        offset_of(size, a) == offset_of(size, b),
    ensures
        a == b,
{
    lemma_offset_prefix_injective(size, a, b, size.len() as int);
    assert(a =~= b);
}

/// Over the first `k` dimensions, the multi-index of flat position `n`
/// accounts for `n` modulo the stride of dimension `k`.
proof fn lemma_coord_prefix(size: Seq<usize>, n: int, k: int)
    requires
        0 <= n,
        0 <= k <= size.len(),
        forall|i: int| 0 <= i < size.len() ==> 1 <= size[i],
    ensures
        offset_prefix(size, coord_of(size, n), k) == n % stride_of(size, k),
    decreases k,
{
    lemma_stride_pos(size, k);
    if k <= 0 {
        lemma_small_mod(0, 1);
        assert(n % 1 == 0) by {
            assert(n == 1 * n + 0) by (nonlinear_arith);
            lemma_fundamental_div_mod_converse_mod(n, 1, n, 0);
        }
    } else {
        lemma_coord_prefix(size, n, k - 1);
        let s = stride_of(size, k - 1);
        let e = size[k - 1] as int;
        lemma_stride_pos(size, k - 1);
        lemma_breakdown(n, s, e);
        assert(stride_of(size, k) == s * e);
        assert(coord_of(size, n)[k - 1] == ((n / s) % e) as usize);
        assert(0 <= (n / s) % e < e) by {
            lemma_mod_division_less_than_divisor(n / s, e);
            vstd::arithmetic::div_mod::lemma_div_pos_is_pos(n, s);
        }
        assert(coord_of(size, n)[k - 1] as int == (n / s) % e);
        assert(offset_prefix(size, coord_of(size, n), k) == n % s + ((n / s) % e) * s);
        assert(((n / s) % e) * s == s * ((n / s) % e)) by (nonlinear_arith);
    }
}

/// Every flat position below the total is reached by its multi-index:
/// `coord_of` is valid and `offset_of` carries it back to `n`.
pub proof fn lemma_coord_of_offset(size: Seq<usize>, n: int)
    requires
        0 <= n < total_len(size),
    ensures
        is_valid_index(size, coord_of(size, n)),
        offset_of(size, coord_of(size, n)) == n,
{
    lemma_total_pos_extents_pos(size);
    assert forall|i: int| 0 <= i < size.len() implies coord_of(size, n)[i] < size[i] by {
        lemma_stride_pos(size, i);
        lemma_mod_division_less_than_divisor(n / stride_of(size, i), size[i] as int);
        vstd::arithmetic::div_mod::lemma_div_pos_is_pos(n, stride_of(size, i));
    }
    lemma_coord_prefix(size, n, size.len() as int);
    lemma_small_mod(n as nat, total_len(size) as nat);
}

/// The multi-index of the offset of a valid multi-index is that
/// multi-index itself.
pub proof fn lemma_offset_coord_roundtrip(size: Seq<usize>, loc: Seq<usize>)
    requires
        is_valid_index(size, loc),
    ensures
        coord_of(size, offset_of(size, loc)) == loc,
{
    lemma_offset_in_range(size, loc);
    lemma_coord_of_offset(size, offset_of(size, loc));
    lemma_offset_injective(size, coord_of(size, offset_of(size, loc)), loc);
}

} // verus!
