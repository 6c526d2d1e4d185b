use raytracer::grid::{submatrix3, submatrix4, transpose4};

#[test]
fn transpose() {
    let a = [
        [0., 9., 3., 0.],
        [9., 8., 0., 8.],
        [1., 8., 5., 3.],
        [0., 0., 5., 8.],
    ];

    let expected = [
        [0., 9., 1., 0.],
        [9., 8., 8., 0.],
        [3., 0., 5., 5.],
        [0., 8., 3., 8.],
    ];

    assert_eq!(transpose4(&a), expected);
}

#[test]
fn transpose_identity() {
    let identity = [
        [1., 0., 0., 0.],
        [0., 1., 0., 0.],
        [0., 0., 1., 0.],
        [0., 0., 0., 1.],
    ];
    assert_eq!(transpose4(&identity), identity);
}

#[test]
fn submatrix_3_2() {
    let a = [[1., 5., 0.], [-3., 2., 7.], [0., 6., -3.]];

    let expected = [[-3., 2.], [0., 6.]];

    assert_eq!(submatrix3(&a, 0, 2), expected);
}

#[test]
fn submatrix_4_3() {
    let a = [
        [-6., 1., 1., 6.],
        [-8., 5., 8., 6.],
        [-1., 0., 8., 2.],
        [-7., 1., -1., 1.],
    ];

    let expected = [[-6., 1., 6.], [-8., 8., 6.], [-7., -1., 1.]];

    assert_eq!(submatrix4(&a, 2, 1), expected);
}

#[test]
fn submatrix_of_the_last_row_and_column() {
    let a = [[1, 2, 3, 4], [5, 6, 7, 8], [9, 10, 11, 12], [13, 14, 15, 16]];
    assert_eq!(submatrix4(&a, 3, 3), [[1, 2, 3], [5, 6, 7], [9, 10, 11]]);
    assert_eq!(submatrix4(&a, 0, 0), [[6, 7, 8], [10, 11, 12], [14, 15, 16]]);
}
