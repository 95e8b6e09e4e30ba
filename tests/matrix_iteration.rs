use labyrinth::matrix_iteration::{ColIter, Matrix, RowIter};

fn rows<'a>(mut it: RowIter<'a, i32>) -> Vec<&'a i32> {
    let mut out = Vec::new();
    while let Some(x) = it.next() {
        out.push(x);
    }
    out
}

fn cols<'a>(mut it: ColIter<'a, i32>) -> Vec<&'a i32> {
    let mut out = Vec::new();
    while let Some(x) = it.next() {
        out.push(x);
    }
    out
}

#[test]
fn test_iter() {
    let mat = Matrix::new(2, 3, &[1, 2, 3, 4, 5, 6]);

    assert_eq!(rows(mat.by_row()), vec![&1, &2, &3, &4, &5, &6]);
    assert_eq!(cols(mat.by_col()), vec![&1, &4, &2, &5, &3, &6]);

    assert_eq!(rows(mat.by_row()).into_iter().map(|x| x * 2).collect::<Vec<_>>(), vec![2, 4, 6, 8, 10, 12]);
}

#[test]
fn test_next() {
    let mat = Matrix::new(2, 3, &[1, 2, 3, 4, 5, 6]);

    let mut it = mat.by_row();
    assert_eq!(it.next(), Some(&1));
    assert_eq!(it.next(), Some(&2));
    assert_eq!(it.next(), Some(&3));
    assert_eq!(it.next(), Some(&4));
    assert_eq!(it.next(), Some(&5));
    assert_eq!(it.next(), Some(&6));
    assert_eq!(it.next(), None);
    assert_eq!(it.next(), None);

    let mut it = mat.by_col();
    assert_eq!(it.next(), Some(&1));
    assert_eq!(it.next(), Some(&4));
    assert_eq!(it.next(), Some(&2));
    assert_eq!(it.next(), Some(&5));
    assert_eq!(it.next(), Some(&3));
    assert_eq!(it.next(), Some(&6));
    assert_eq!(it.next(), None);
    assert_eq!(it.next(), None);
}

#[test]
fn test_iteration_0() {
    let data = [1, 2, 3, 4];
    let matrix = Matrix::new(2, 2, &data);

    assert_eq!(rows(matrix.by_row()), vec![&1, &2, &3, &4]);
    assert_eq!(cols(matrix.by_col()), vec![&1, &3, &2, &4]);
}

#[test]
fn single_column_and_empty_matrix() {
    let matrix = Matrix::new(3, 1, &[7, 8, 9]);
    assert_eq!(rows(matrix.by_row()), vec![&7, &8, &9]);
    assert_eq!(cols(matrix.by_col()), vec![&7, &8, &9]);

    let empty: Matrix<i32> = Matrix::new(0, 4, &[]);
    assert!(empty.by_row().next().is_none());
    assert!(empty.by_col().next().is_none());
}

#[test]
fn column_order_of_a_tall_matrix() {
    let matrix = Matrix::new(3, 2, &[1, 2, 3, 4, 5, 6]);
    assert_eq!(cols(matrix.by_col()), vec![&1, &3, &5, &2, &4, &6]);
}
