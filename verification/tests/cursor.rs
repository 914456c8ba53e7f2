use micro_ndarray::Array;

#[test]
fn iterator() {
    let mut array = Array::new_with(vec![5, 4], 0);
    {
        let mut it = array.iter_mut();
        while let Some((loc, v)) = it.next() {
            if loc[0] == 0 {
                let x = (&loc, &*v);
                println!("{x:?}");
                *v += loc[1];
            }
        }
    }
    let mut lines = Vec::new();
    for y in 0..4 {
        let mut line = String::new();
        for x in 0..5 {
            line.push_str(&format!("{}", array.get(vec![x, y]).unwrap()));
        }
        lines.push(line);
    }
    println!("{}", lines.join("\n"));
    let mut collected = Vec::new();
    let mut it = array.iter();
    while let Some(x) = it.next() {
        collected.push(*x.1);
    }
    assert_eq!(
        collected,
        vec![0, 0, 0, 0, 0, 1, 0, 0, 0, 0, 2, 0, 0, 0, 0, 3, 0, 0, 0, 0]
    )
}

#[test]
fn iteration_yields_each_cell_once_in_flat_order() {
    let size = vec![3, 2, 2];
    let array = Array::new_by_enumeration(size.clone(), |i| i);
    let mut count = 0;
    let mut it = array.iter();
    while let Some((loc, v)) = it.next() {
        // The k-th yielded element is the k-th buffer entry.
        assert_eq!(*v, count);
        // The k-th yielded coordinate is the multi-index whose offset is k.
        assert_eq!(array.convert_index(&loc), count);
        count += 1;
    }
    assert_eq!(count, 12);
}

#[test]
fn iterator_is_terminal_after_exhaustion() {
    let array = Array::new_with(vec![2], 1);
    let mut it = array.iter();
    assert!(it.next().is_some());
    assert!(it.next().is_some());
    assert!(it.next().is_none());
    assert!(it.next().is_none());
}

#[test]
fn iterator_on_empty_container_yields_nothing() {
    let array: Array<u8> = Array::new_with(vec![0, 3], 7);
    let mut it = array.iter();
    assert!(it.next().is_none());
}

#[test]
fn coordinates_advance_like_an_odometer() {
    let array = Array::new_with(vec![2, 3], 0u8);
    let mut seen = Vec::new();
    let mut it = array.iter();
    while let Some((loc, _)) = it.next() {
        seen.push(loc);
    }
    assert_eq!(
        seen,
        vec![
            vec![0, 0],
            vec![1, 0],
            vec![0, 1],
            vec![1, 1],
            vec![0, 2],
            vec![1, 2],
        ]
    );
}

#[test]
fn mutable_iteration_writes_every_cell() {
    let mut array = Array::new_with(vec![2, 2], 0);
    {
        let mut it = array.iter_mut();
        while let Some((loc, v)) = it.next() {
            *v = 10 * loc[1] + loc[0];
        }
    }
    assert_eq!(array.as_flattened(), &[0, 1, 10, 11]);
}

#[test]
fn mutable_iterator_coordinates_match_shared_ones() {
    let mut array = Array::new_with(vec![4, 3], 0u16);
    let mut mut_coords = Vec::new();
    {
        let mut it = array.iter_mut();
        while let Some((loc, _)) = it.next() {
            mut_coords.push(loc);
        }
    }
    let mut shared_coords = Vec::new();
    let mut it = array.iter();
    while let Some((loc, _)) = it.next() {
        shared_coords.push(loc);
    }
    assert_eq!(mut_coords, shared_coords);
}
