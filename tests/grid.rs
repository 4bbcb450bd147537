use rpeg::array2::Array2;

#[test]
fn grid_set_get_and_out_of_range() {
    let mut g = Array2::new(3, 2, 0u32);
    g.set(2, 1, 9);
    assert_eq!(g.get(2, 1), Some(&9));
    assert_eq!(g.get(3, 1), None);
    assert_eq!(g.get(0, 2), None);
    assert_eq!(g.get(0, 0), Some(&0));
    assert_eq!(g.width(), 3);
    assert_eq!(g.height(), 2);
}

#[test]
fn grid_get_mut_writes_through() {
    let mut g = Array2::new(2, 2, 1i32);
    *g.get_mut(1, 0).unwrap() = 5;
    assert!(g.get_mut(2, 0).is_none());
    assert_eq!(g.get(1, 0), Some(&5));
    assert_eq!(g.get(0, 1), Some(&1));
}

#[test]
fn grid_from_row_major_keeps_order() {
    let g = Array2::from_row_major(3, 2, &vec![1, 2, 3, 4, 5, 6]);
    assert_eq!(g.get(0, 0), Some(&1));
    assert_eq!(g.get(2, 0), Some(&3));
    assert_eq!(g.get(0, 1), Some(&4));
    assert_eq!(g.get(2, 1), Some(&6));
}

#[test]
fn grid_from_col_major_reorders() {
    // columns of height 2: (1, 2), (3, 4), (5, 6)
    let g = Array2::from_col_major(3, 2, &vec![1, 2, 3, 4, 5, 6]);
    assert_eq!(g.get(0, 0), Some(&1));
    assert_eq!(g.get(0, 1), Some(&2));
    assert_eq!(g.get(1, 0), Some(&3));
    assert_eq!(g.get(2, 1), Some(&6));
    let rows: Vec<i32> = g.iter_row_major().into_iter().map(|(_, _, v)| *v).collect();
    assert_eq!(rows, vec![1, 3, 5, 2, 4, 6]);
}

#[test]
fn grid_row_major_traversal() {
    let g = Array2::from_row_major(2, 2, &vec!['a', 'b', 'c', 'd']);
    let seen: Vec<(usize, usize, char)> = g.iter_row_major().into_iter().map(|(x, y, v)| (x, y, *v)).collect();
    assert_eq!(seen, vec![(0, 0, 'a'), (1, 0, 'b'), (0, 1, 'c'), (1, 1, 'd')]);
}

#[test]
fn grid_col_major_traversal() {
    let g = Array2::from_row_major(2, 2, &vec!['a', 'b', 'c', 'd']);
    let seen: Vec<(usize, usize, char)> = g.iter_col_major().into_iter().map(|(x, y, v)| (x, y, *v)).collect();
    assert_eq!(seen, vec![(0, 0, 'a'), (0, 1, 'c'), (1, 0, 'b'), (1, 1, 'd')]);
}

#[test]
fn grid_empty() {
    let g = Array2::new(0, 0, 0u8);
    assert_eq!(g.get(0, 0), None);
    assert!(g.iter_row_major().is_empty());
}
