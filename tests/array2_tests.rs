use rpeg::array2::Array2;

#[test]
fn check() {
    let x = vec![1, 3, 2, 4];
    let y = Array2::from_col_major(2, 2, vec![1, 2, 3, 4]);
    assert_eq!(x, y.data);
}

#[test]
fn test_trim() {
    let data = vec![1, 2, 3, 4, 5, 6, 7, 8, 9, 10, 11, 12, 13, 14, 15];
    let array = Array2::from_even_dimension(5, 3, data);
    assert_eq!(array.data, vec![1, 2, 3, 4, 6, 7, 8, 9]);
    let odd_width = vec![1, 2, 3, 4, 5, 6];
    let array1 = Array2::from_even_dimension(3, 2, odd_width);
    assert_eq!(array1.data, vec![1, 2, 4, 5]);
    let odd_height = vec![1, 2, 3, 4, 5, 6];
    let array2 = Array2::from_even_dimension(2, 3, odd_height);
    assert_eq!(array2.data, vec![1, 2, 3, 4]);
    let even_data = vec![1, 2, 3, 4];
    let array3 = Array2::from_even_dimension(2, 2, even_data.clone());
    assert_eq!(array3.data, even_data);
}

#[test]
fn trim_both_dimensions_of_three_by_three() {
    let array = Array2::from_even_dimension(3, 3, vec![1, 2, 3, 4, 5, 6, 7, 8, 9]);
    assert_eq!(array.get_width(), 2);
    assert_eq!(array.get_height(), 2);
    assert_eq!(array.data, vec![1, 2, 4, 5]);
}

#[test]
fn trim_five_by_three_dimensions() {
    let data: Vec<i32> = (1..=15).collect();
    let array = Array2::from_even_dimension(5, 3, data);
    assert_eq!(array.get_width(), 4);
    assert_eq!(array.get_height(), 2);
    assert_eq!(array.size(), 8);
}

#[test]
fn trim_one_by_one_is_empty() {
    let array = Array2::from_even_dimension(1, 1, vec![7]);
    assert_eq!(array.get_width(), 0);
    assert_eq!(array.get_height(), 0);
    assert!(array.data.is_empty());
}

#[test]
fn col_major_non_square() {
    let array = Array2::from_col_major(3, 2, vec![1, 2, 3, 4, 5, 6]);
    assert_eq!(array.data, vec![1, 4, 2, 5, 3, 6]);
    assert_eq!(array.get_width(), 3);
    assert_eq!(array.get_height(), 2);
}

#[test]
fn new_grid_is_empty() {
    let array: Array2<u8> = Array2::new();
    assert_eq!(array.size(), 0);
    assert_eq!(array.get_width(), 0);
    assert_eq!(array.get_height(), 0);
    assert!(array.data.is_empty());
    assert_eq!(array.get(0, 0), None);
}

#[test]
fn get_reads_row_major_cells() {
    let array = Array2::from_row_major(3, 2, vec![10, 11, 12, 20, 21, 22]);
    assert_eq!(array.get(0, 0), Some(&10));
    assert_eq!(array.get(2, 0), Some(&12));
    assert_eq!(array.get(1, 1), Some(&21));
    assert_eq!(array.get(3, 0), None);
    assert_eq!(array.get(0, 2), None);
}

#[test]
fn get_mut_writes_one_cell() {
    let mut array = Array2::from_row_major(2, 2, vec![1, 2, 3, 4]);
    if let Some(cell) = array.get_mut(0, 1) {
        *cell = 30;
    }
    assert_eq!(array.data, vec![1, 2, 30, 4]);
    assert!(array.get_mut(2, 0).is_none());
    assert_eq!(array.data, vec![1, 2, 30, 4]);
}

#[test]
fn set_dimensions_keeps_data() {
    let mut array = Array2::from_row_major(2, 3, vec![1, 2, 3, 4, 5, 6]);
    array.set_dimensions(3, 2);
    assert_eq!(array.get_width(), 3);
    assert_eq!(array.get_height(), 2);
    assert_eq!(array.data, vec![1, 2, 3, 4, 5, 6]);
    assert_eq!(array.get(2, 0), Some(&3));
}

#[test]
fn row_major_listing() {
    let array = Array2::from_row_major(2, 2, vec!['a', 'b', 'c', 'd']);
    assert_eq!(
        array.iter_row_major(),
        vec![(0, 0, 'a'), (1, 0, 'b'), (0, 1, 'c'), (1, 1, 'd')]
    );
}

#[test]
fn col_major_listing() {
    let array = Array2::from_row_major(3, 2, vec![1, 2, 3, 4, 5, 6]);
    assert_eq!(
        array.iter_col_major(),
        vec![(0, 0, 1), (0, 1, 4), (1, 0, 2), (1, 1, 5), (2, 0, 3), (2, 1, 6)]
    );
}
