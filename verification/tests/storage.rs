use micro_ndarray::Array;

#[test]
fn two_by_two_scenario() {
    let mut array = Array::new_with(vec![2, 2], 0);
    *array.get_mut(vec![0, 0]).unwrap() = 1;
    *array.get_mut(vec![1, 0]).unwrap() = 2;
    *array.get_mut(vec![0, 1]).unwrap() = 3;
    *array.get_mut(vec![1, 1]).unwrap() = 4;
    let mut lines = Vec::new();
    for y in 0..2 {
        let mut line = String::new();
        for x in 0..2 {
            line.push_str(&format!("{}", array.get(vec![x, y]).unwrap()));
        }
        lines.push(line);
    }
    assert_eq!(lines, vec!["12".to_string(), "34".to_string()]);
}

#[test]
fn round_trip_preserves_every_element() {
    let size = vec![4, 3, 2];
    let source = Array::new_by_enumeration(size.clone(), |i| 100 + i);
    let reference: Vec<usize> = source.as_flattened().to_vec();
    let flat = source.into_flattened();
    assert_eq!(flat, reference);
    let rebuilt = Array::from_flat(flat, size.clone()).unwrap();
    assert_eq!(rebuilt.size(), size);
    assert_eq!(rebuilt.as_flattened(), &reference[..]);
    for z in 0..2 {
        for y in 0..3 {
            for x in 0..4 {
                let expected = 100 + x + 4 * y + 12 * z;
                assert_eq!(*rebuilt.get(vec![x, y, z]).unwrap(), expected);
            }
        }
    }
}

#[test]
fn offsets_enumerate_every_flat_position_once() {
    let array = Array::new_with(vec![3, 2, 2], 0u8);
    let mut offsets = Vec::new();
    for z in 0..2 {
        for y in 0..2 {
            for x in 0..3 {
                offsets.push(array.convert_index(&vec![x, y, z]));
            }
        }
    }
    offsets.sort();
    assert_eq!(offsets, (0..12).collect::<Vec<usize>>());
}

#[test]
fn offset_formula_is_exact() {
    let array = Array::new_with(vec![5, 4, 3], 0u8);
    // offset = x + 5 * y + 20 * z
    assert_eq!(array.convert_index(&vec![0, 0, 0]), 0);
    assert_eq!(array.convert_index(&vec![1, 0, 0]), 1);
    assert_eq!(array.convert_index(&vec![0, 1, 0]), 5);
    assert_eq!(array.convert_index(&vec![0, 0, 1]), 20);
    assert_eq!(array.convert_index(&vec![3, 2, 1]), 3 + 10 + 20);
}

#[test]
fn get_rejects_each_dimension_out_of_range() {
    let mut array = Array::new_with(vec![2, 3], 0);
    for dim in 0..2 {
        let mut loc = vec![0, 0];
        loc[dim] = array.size()[dim];
        assert!(array.get(loc.clone()).is_none());
        assert!(array.get_mut(loc).is_none());
    }
    assert!(array.get(vec![2, 0]).is_none());
    assert!(array.get(vec![0, 3]).is_none());
    assert!(array.get(vec![usize::MAX, 0]).is_none());
    assert!(array.get(vec![1, 2]).is_some());
}

#[test]
fn get_rejects_rank_mismatch() {
    let array = Array::new_with(vec![2, 3], 0);
    assert!(array.get(vec![0]).is_none());
    assert!(array.get(vec![0, 0, 0]).is_none());
    assert!(array.get(vec![]).is_none());
}

#[test]
fn new_equals_new_with_zero() {
    let a: Array<usize> = Array::new(vec![3, 4]);
    let b: Array<usize> = Array::new_with(vec![3, 4], 0);
    assert_eq!(a.size(), b.size());
    assert_eq!(a.as_flattened(), b.as_flattened());
}

#[test]
fn new_by_fills_every_cell() {
    let array = Array::new_by(vec![2, 2], || 7);
    assert_eq!(array.as_flattened(), &[7, 7, 7, 7]);
}

#[test]
fn new_by_enumeration_fills_in_increasing_flat_order() {
    let array = Array::new_by_enumeration(vec![3, 2], |i| 2 * i);
    assert_eq!(array.as_flattened(), &[0, 2, 4, 6, 8, 10]);
}

#[test]
fn from_flat_rejects_mismatched_length() {
    assert!(Array::from_flat(vec![1, 2, 3], vec![2, 2]).is_none());
    assert!(Array::from_flat(vec![1, 2, 3, 4, 5], vec![2, 2]).is_none());
    assert!(Array::from_flat(vec![1, 2, 3, 4], vec![2, 2]).is_some());
    assert!(Array::from_flat(Vec::<u8>::new(), vec![2, 0]).is_some());
}

#[test]
fn get_unchecked_agrees_with_get() {
    let mut array = Array::new_by_enumeration(vec![3, 3], |i| i as u32);
    for y in 0..3 {
        for x in 0..3 {
            let expected = *array.get(vec![x, y]).unwrap();
            assert_eq!(*array.get_unchecked(vec![x, y]), expected);
        }
    }
    *array.get_unchecked_mut(vec![1, 2]) = 99;
    assert_eq!(*array.get(vec![1, 2]).unwrap(), 99);
}

#[test]
fn flattened_views_expose_the_buffer() {
    let mut array = Array::new_by_enumeration(vec![2, 2], |i| i);
    assert_eq!(array.as_flattened(), &[0, 1, 2, 3]);
    array.as_flattened_mut()[2] = 42;
    assert_eq!(*array.get(vec![0, 1]).unwrap(), 42);
}

#[test]
fn size_reports_the_extents() {
    let array = Array::new_with(vec![6, 1, 2], 0u8);
    assert_eq!(array.size(), vec![6, 1, 2]);
}

#[test]
fn rank_zero_container_holds_one_cell() {
    let mut array = Array::new_with(Vec::new(), 5);
    assert_eq!(array.as_flattened(), &[5]);
    assert_eq!(*array.get(vec![]).unwrap(), 5);
    *array.get_mut(vec![]).unwrap() = 8;
    assert_eq!(*array.get(vec![]).unwrap(), 8);
}

#[test]
fn zero_extent_means_no_cells() {
    let array = Array::new_with(vec![0, 4], 1u8);
    assert_eq!(array.as_flattened().len(), 0);
    assert!(array.get(vec![0, 0]).is_none());
}

#[test]
fn cloning_preserves_contents() {
    let array = Array::new_by_enumeration(vec![2, 3], |i| i);
    let copy = array.clone();
    assert_eq!(copy.size(), array.size());
    assert_eq!(copy.as_flattened(), array.as_flattened());
}
