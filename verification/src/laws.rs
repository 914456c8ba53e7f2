//! Laws that tie the public operations together: the round trip through
//! the flat buffer, the offset bijection, and construction equivalence.

use crate::array::extents_fit;
use crate::array::Array;
use crate::layout::coord_of;
use crate::layout::is_valid_index;
use crate::layout::lemma_coord_of_offset;
use crate::layout::lemma_offset_in_range;
use crate::layout::lemma_offset_injective;
use crate::layout::offset_of;
use crate::layout::total_len;
use vstd::prelude::*;

verus! {

/// Round trip, feasibility half: flattening a well-formed container always
/// hands `from_flat` a buffer of exactly the length its extents demand, so
/// rebuilding is owed success.
pub proof fn lemma_round_trip_feasible<T>(a: Array<T>)
    requires
        a.wf(),
    ensures
        extents_fit(a.extents()),
        a.flat().len() == total_len(a.extents()),
{
    a.lemma_wf_facts();
}

/// Round trip, identity half: a container rebuilt from the flattened
/// buffer and the size of another holds the same element at every valid
/// multi-index — extents and flat contents pin the container down.
pub proof fn lemma_round_trip<T>(a: Array<T>, b: Array<T>)
    requires
        a.wf(),
        b.wf(),
        b.extents() == a.extents(),
        b.flat() == a.flat(),
    ensures
        forall|loc: Seq<usize>|
            #[trigger] is_valid_index(a.extents(), loc) ==> b.cell(loc) == a.cell(loc),
{
}

/// Offset bijection: for fixed extents, the strided offset maps the valid
/// multi-indices one-to-one onto the flat positions `0 .. total_len`.
/// Every valid multi-index lands in range, distinct multi-indices land on
/// distinct positions, and every position is reached by a valid
/// multi-index.
pub proof fn lemma_offset_bijection(size: Seq<usize>)
    ensures
        forall|loc: Seq<usize>|
            #[trigger] is_valid_index(size, loc) ==> 0 <= offset_of(size, loc) < total_len(size),
        forall|a: Seq<usize>, b: Seq<usize>|
            is_valid_index(size, a) && is_valid_index(size, b) && a != b ==> offset_of(size, a)
                != offset_of(size, b),
        forall|n: int|
            0 <= n < total_len(size) ==> is_valid_index(size, #[trigger] coord_of(size, n))
                && offset_of(size, coord_of(size, n)) == n,
{
    assert forall|loc: Seq<usize>| #[trigger] is_valid_index(size, loc) implies 0 <= offset_of(
        size,
        loc,
    ) < total_len(size) by {
        lemma_offset_in_range(size, loc);
    }
    assert forall|a: Seq<usize>, b: Seq<usize>|
        is_valid_index(size, a) && is_valid_index(size, b) && a != b implies offset_of(size, a)
        != offset_of(size, b) by {
        if offset_of(size, a) == offset_of(size, b) {
            lemma_offset_injective(size, a, b);
        }
    }
    assert forall|n: int| 0 <= n < total_len(size) implies is_valid_index(
        size,
        #[trigger] coord_of(size, n),
    ) && offset_of(size, coord_of(size, n)) == n by {
        lemma_coord_of_offset(size, n);
    }
}

/// Construction equivalence: over an integer element type, a container
/// with every cell default-valued equals one with every cell a clone of
/// zero, element for element.
pub proof fn lemma_new_equals_new_with(a: Array<usize>, b: Array<usize>)
    requires
        a.wf(),
        b.wf(),
        a.extents() == b.extents(),
        exists|d: usize|
            #[trigger] call_ensures(<usize as Default>::default, (), d) && forall|i: int|
                0 <= i < a.flat().len() ==> cloned(d, #[trigger] a.flat()[i]),
        forall|i: int| 0 <= i < b.flat().len() ==> cloned(0usize, #[trigger] b.flat()[i]),
    ensures
        a.flat() == b.flat(),
{
    let d = choose|d: usize|
        #[trigger] call_ensures(<usize as Default>::default, (), d) && forall|i: int|
            0 <= i < a.flat().len() ==> cloned(d, #[trigger] a.flat()[i]);
    assert(d == 0);
    assert forall|i: int| 0 <= i < a.flat().len() implies a.flat()[i] == b.flat()[i] by {
        assert(cloned(d, a.flat()[i]));
        assert(cloned(0usize, b.flat()[i]));
    }
    assert(a.flat() =~= b.flat());
}

} // verus!
