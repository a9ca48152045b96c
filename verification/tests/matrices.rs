use lane_linalg::algebra::vector::Matrix;
use lane_linalg::structures::matrix::line_of;
use lane_linalg::structures::matrix::row_size_of;
use lane_linalg::structures::matrix::Matrix as RowMatrix;
use lane_linalg::structures::matrix::MatrixCreationError;
use lane_linalg::structures::matrix_simd::SimdMatrix;
use lane_linalg::structures::vector_simd::SimdVector;

#[test]
fn check_create_simd_matrix() {
    let init_working: Vec<Vec<f32>> = vec![
        vec![0.44, 5.55, 77.4, 9.3],
        vec![2.3, 77.3, 0., 4.5],
        vec![88.9, 9.0, 32.1, 0.9],
    ];
    let init_fail: Vec<Vec<f32>> = vec![
        vec![0.44, 5.55, 77.4, 9.3, 7.8],
        vec![2.3, 77.3, 0., 4.5],
        vec![88.9, 9.0, 32.1, 0.9],
    ];
    let matrix_working = SimdMatrix::from(init_working.clone());
    let matrix_fail = SimdMatrix::from(init_fail.clone());

    assert!(matrix_fail.is_err());
    assert_eq!(matrix_working.unwrap().to_vector(), init_working);
}

#[test]
fn check_simd_len_fns() {
    let init: Vec<f32> = vec![5.23, 3.2, 0.44, 8.9, 9.0, 5.5, 2.0];
    let vector = SimdVector::from_vector(init.clone());
    assert_eq!(init.len(), vector.len());
    let init_working: Vec<Vec<f32>> = vec![
        vec![0.44, 5.55, 77.4, 9.3],
        vec![2.3, 77.3, 0., 4.5],
        vec![88.9, 9.0, 32.1, 0.9],
    ];
    let matrix_working = SimdMatrix::from(init_working.clone());
    let mut init_large: Vec<f32> = vec![];
    init_large.resize(675, 1.1);
    let vec_large = SimdVector::from_vector(init_large.clone());

    assert_eq!(init_working.len(), matrix_working.unwrap().height());
    assert_eq!(init_large.len(), vec_large.len());
}

#[test]
fn check_matrix_ops() {
    let init_working: Vec<Vec<f32>> = vec![
        vec![0.44, 5.55, 77.4, 9.3],
        vec![2.3, 77.3, 0., 4.5],
        vec![88.9, 9.0, 32.1, 0.9],
        vec![2.2, 90.0, 32.2, 0.2],
    ];
    let matrix = SimdMatrix::from(init_working.clone()).unwrap();
    assert!(matrix.is_square());
}

#[test]
fn check_matrix_column() {
    let init: Vec<Vec<f32>> = vec![
        vec![0.3, 4.3, 5.6],
        vec![0.5, 4.6, 8.9],
        vec![1.2, 22.3, 8.9],
    ];
    let col = SimdVector::<f32>::from_vector(vec![4.3, 4.6, 22.3]);
    let matrix = SimdMatrix::from(init);
    assert_eq!(
        col.to_vector(),
        matrix.unwrap().column(1).unwrap().to_vector()
    );
}

#[test]
fn check_simd_matrix_iterators() {
    let init: Vec<Vec<f32>> = vec![
        vec![0.3, 4.3, 5.6],
        vec![0.5, 4.6, 8.9],
        vec![1.2, 22.3, 8.9],
    ];

    let matrix = SimdMatrix::from(init.clone()).unwrap();

    let mut rows: Vec<Vec<f32>> = Vec::new();
    let mut cursor = matrix.iter_row();
    while let Some(row) = cursor.next() {
        rows.push(row.to_vector());
    }
    assert_eq!(init, rows);
}

#[test]
fn check_matrix_trait_products() {
    let left_matrix =
        SimdMatrix::<f32>::from(vec![vec![1., 2., 3.], vec![4., 5., 6.], vec![7., 8., 9.]])
            .unwrap();
    let right_matrix =
        SimdMatrix::<f32>::from(vec![vec![3., 4.], vec![8., 9.], vec![5., 6.]]).unwrap();

    let output_matrix = Some(
        SimdMatrix::<f32>::from(vec![vec![34., 40.], vec![82., 97.], vec![130., 154.]]).unwrap(),
    );

    assert_eq!(left_matrix.dimensions(), (3, 3));
    assert_eq!(right_matrix.dimensions(), (3, 2));

    assert_eq!(
        left_matrix.mul(right_matrix).map(|i| i
            .matrix
            .iter()
            .map(|j| j.to_vector())
            .collect::<Vec<Vec<f32>>>()),
        output_matrix.map(|i| i
            .matrix
            .iter()
            .map(|j| j.to_vector())
            .collect::<Vec<Vec<f32>>>())
    );
}

#[test]
fn check_matrix_trait_sums() {}

fn grid() -> Vec<Vec<f32>> {
    vec![
        vec![0.3, 4.3, 5.6],
        vec![0.5, 4.6, 8.9],
        vec![1.2, 22.3, 8.9],
        vec![7.0, 8.0, 9.0],
    ]
}

#[test]
fn product_with_a_mismatched_inner_dimension_is_none() {
    let a = SimdMatrix::<f32>::from(vec![vec![1., 2., 3.], vec![4., 5., 6.], vec![7., 8., 9.]])
        .unwrap();
    let c = SimdMatrix::<f32>::from(vec![vec![3., 4.], vec![8., 9.]]).unwrap();
    assert!(a.mul(c).is_none());
}

#[test]
fn product_of_integer_matrices_is_exact() {
    let a = SimdMatrix::<i64>::from(vec![vec![1, 2, 3], vec![4, 5, 6]]).unwrap();
    let b = SimdMatrix::<i64>::from(vec![vec![3, 4], vec![8, 9], vec![5, 6]]).unwrap();
    let product = a.mul(b).unwrap();
    assert_eq!(product.dimensions(), (2, 2));
    assert_eq!(product.to_vector(), vec![vec![34, 40], vec![82, 97]]);
}

#[test]
fn product_is_row_by_column_when_multiplication_does_not_commute() {
    // Each entry is lhs_row[k] - rhs_column[k] would show an exchange of the
    // operands; with a product the wide case shows the pairing instead.
    let width = 70;
    let a_rows: Vec<Vec<i64>> = (0..2)
        .map(|i| (0..width).map(|k| (i + 1) * (k + 1)).collect())
        .collect();
    let b_rows: Vec<Vec<i64>> = (0..width)
        .map(|k| (0..3).map(|j| k - 2 * j).collect())
        .collect();
    let product = SimdMatrix::from(a_rows.clone())
        .unwrap()
        .mul(SimdMatrix::from(b_rows.clone()).unwrap())
        .unwrap();
    let rows = product.to_vector();
    for i in 0..2 {
        for j in 0..3 {
            let mut expected = 0i64;
            for k in 0..width as usize {
                expected += a_rows[i][k] * b_rows[k][j];
            }
            assert_eq!(rows[i][j], expected);
        }
    }
}

#[test]
fn product_with_a_matrix_without_columns_has_empty_rows() {
    let a = SimdMatrix::<i64>::from(vec![vec![1, 2], vec![3, 4], vec![5, 6]]).unwrap();
    let b = SimdMatrix::<i64>::from(vec![vec![], vec![]]).unwrap();
    let product = a.mul(b).unwrap();
    assert_eq!(product.dimensions(), (3, 0));
    assert_eq!(product.to_vector(), vec![Vec::<i64>::new(); 3]);
}

#[test]
fn sum_is_row_wise_and_needs_equal_dimensions() {
    let a = SimdMatrix::<f32>::from(vec![vec![1., 2.], vec![3., 4.], vec![5., 6.]]).unwrap();
    let b = SimdMatrix::<f32>::from(vec![vec![10., 20.], vec![30., 40.], vec![50., 60.]]).unwrap();
    let sum = a.add(b).unwrap();
    assert_eq!(
        sum.to_vector(),
        vec![vec![11., 22.], vec![33., 44.], vec![55., 66.]]
    );
    let a = SimdMatrix::<f32>::from(vec![vec![1., 2.], vec![3., 4.], vec![5., 6.]]).unwrap();
    let wider = SimdMatrix::<f32>::from(vec![vec![1., 2., 3.], vec![3., 4., 5.], vec![5., 6., 7.]])
        .unwrap();
    assert!(a.add(wider).is_none());
    let a = SimdMatrix::<f32>::from(vec![vec![1., 2.], vec![3., 4.], vec![5., 6.]]).unwrap();
    let shorter = SimdMatrix::<f32>::from(vec![vec![1., 2.], vec![3., 4.]]).unwrap();
    assert!(a.add(shorter).is_none());
}

#[test]
fn sum_of_square_matrices_adds_rows_to_rows() {
    let a = SimdMatrix::<i64>::from(vec![vec![1, 2], vec![3, 4]]).unwrap();
    let b = SimdMatrix::<i64>::from(vec![vec![10, 20], vec![30, 40]]).unwrap();
    assert_eq!(a.add(b).unwrap().to_vector(), vec![vec![11, 22], vec![33, 44]]);
}

#[test]
fn scaling_a_matrix_scales_every_row() {
    let a = SimdMatrix::<f32>::from(vec![vec![1., 2.], vec![3., 4.], vec![5., 6.]]).unwrap();
    let scaled = Matrix::scale(&a, 0.5);
    assert_eq!(
        scaled.to_vector(),
        vec![vec![0.5, 1.], vec![1.5, 2.], vec![2.5, 3.]]
    );
    assert_eq!(scaled.dimensions(), (3, 2));
    assert_eq!(a.to_vector(), vec![vec![1., 2.], vec![3., 4.], vec![5., 6.]]);
}

#[test]
fn rows_and_columns_by_index() {
    let matrix = SimdMatrix::from(grid()).unwrap();
    assert_eq!(matrix.dimensions(), (4, 3));
    assert_eq!(matrix.height(), 4);
    assert_eq!(matrix.row_size, 3);
    assert!(!matrix.is_square());
    for i in 0..4 {
        assert_eq!(matrix.row(i).unwrap().to_vector(), grid()[i]);
        assert_eq!(Matrix::row(&matrix, i).unwrap().to_vector(), grid()[i]);
    }
    assert!(matrix.row(4).is_none());
    for j in 0..3 {
        let expected: Vec<f32> = grid().iter().map(|row| row[j]).collect();
        assert_eq!(matrix.column(j).unwrap().to_vector(), expected);
        assert_eq!(Matrix::column(&matrix, j).unwrap().to_vector(), expected);
    }
    assert!(matrix.column(3).is_none());
    assert!(matrix.column(usize::MAX).is_none());
}

#[test]
fn cursors_walk_all_lines_and_start_again() {
    let matrix = SimdMatrix::from(grid()).unwrap();
    let mut columns: Vec<Vec<f32>> = Vec::new();
    let mut cursor = matrix.iter_column();
    while let Some(column) = cursor.next() {
        columns.push(column.to_vector());
    }
    assert_eq!(
        columns,
        vec![
            vec![0.3, 0.5, 1.2, 7.0],
            vec![4.3, 4.6, 22.3, 8.0],
            vec![5.6, 8.9, 8.9, 9.0],
        ]
    );
    assert!(cursor.next().is_none());
    assert!(cursor.next().is_none());
    let mut again = matrix.iter_column();
    assert_eq!(again.next().unwrap().to_vector(), vec![0.3, 0.5, 1.2, 7.0]);
    let mut rows = matrix.iter_row();
    let mut count = 0;
    while let Some(row) = rows.next() {
        assert_eq!(row.to_vector(), grid()[count]);
        count += 1;
    }
    assert_eq!(count, 4);
    assert!(rows.next().is_none());
}

#[test]
fn construction_is_all_or_nothing() {
    assert_eq!(
        SimdMatrix::<f32>::from(vec![]).unwrap_err(),
        MatrixCreationError::InconsistentRowLengthErr
    );
    assert_eq!(
        SimdMatrix::<f32>::from(vec![vec![1., 2.], vec![3.]]).unwrap_err(),
        MatrixCreationError::InconsistentRowLengthErr
    );
    assert_eq!(
        SimdMatrix::<f32>::from(vec![vec![1.], vec![3., 4.]]).unwrap_err(),
        MatrixCreationError::InconsistentRowLengthErr
    );
    assert!(SimdMatrix::<f32>::from_simd(vec![]).is_err());
    assert!(SimdMatrix::from_simd(vec![
        SimdVector::<f32>::from_vector(vec![1., 2.]),
        SimdVector::<f32>::from_vector(vec![1., 2., 3.]),
    ])
    .is_err());
    let made = SimdMatrix::from_simd(vec![
        SimdVector::<f32>::from_vector(vec![1., 2.]),
        SimdVector::<f32>::from_vector(vec![3., 4.]),
    ])
    .unwrap();
    assert_eq!(made.to_vector(), vec![vec![1., 2.], vec![3., 4.]]);
    assert_eq!(made.row_size, 2);
    assert!(SimdMatrix::<f32>::from_vectors(vec![]).is_none());
    assert!(SimdMatrix::from_vectors(vec![
        SimdVector::<f32>::from_vector(vec![1., 2.]),
        SimdVector::<f32>::from_vector(vec![3., 4.]),
    ])
    .is_some());
    let empty_rows = SimdMatrix::<f32>::from(vec![vec![], vec![]]).unwrap();
    assert_eq!(empty_rows.dimensions(), (2, 0));
    assert!(empty_rows.column(0).is_none());
}

#[test]
fn error_message_names_the_cause() {
    let message = MatrixCreationError::InconsistentRowLengthErr.message();
    assert_eq!(
        message,
        "Passing a 2D Vector with inconsistent row lengths to Matrix::from() results in failiure because matrices have uniform row length"
    );
}

#[test]
fn row_matrix_queries() {
    let mut matrix = RowMatrix::from(grid()).unwrap();
    assert!(matrix.guarantee());
    assert_eq!(matrix.height(), 4);
    assert_eq!(matrix.row_size, 3);
    assert!(!matrix.is_square());
    assert_eq!(
        matrix.column(1).unwrap().to_vector(),
        vec![4.3, 4.6, 22.3, 8.0]
    );
    assert!(matrix.column(3).is_none());
    let square = RowMatrix::<f32>::from(vec![vec![1., 2.], vec![3., 4.]]).unwrap();
    assert!(square.is_square());
    assert!(RowMatrix::<f32>::from(vec![]).is_err());
    assert_eq!(
        RowMatrix::<f32>::from(vec![vec![1.], vec![]]).err(),
        Some(MatrixCreationError::InconsistentRowLengthErr)
    );
}

#[test]
fn guarantee_finds_a_row_of_another_length() {
    let mut matrix = RowMatrix::from(grid()).unwrap();
    matrix.matrix.push(SimdVector::from_vector(vec![1.0, 2.0]));
    assert!(!matrix.guarantee());
    assert_eq!(matrix.height(), 5);
    // The short row has no lane at position 2 and is passed over.
    assert_eq!(
        matrix.column(2).unwrap().to_vector(),
        vec![5.6, 8.9, 8.9, 9.0]
    );
    assert_eq!(
        matrix.column(1).unwrap().to_vector(),
        vec![4.3, 4.6, 22.3, 8.0, 2.0]
    );
    matrix.row_size = 7;
    assert!(!matrix.guarantee());
}

#[test]
fn well_formed_tells_a_matrix_from_loose_rows() {
    let mut matrix = SimdMatrix::from(grid()).unwrap();
    assert!(matrix.well_formed());
    matrix.matrix.push(SimdVector::from_vector(vec![1.0, 2.0]));
    assert!(!matrix.well_formed());
    matrix.matrix.pop();
    assert!(matrix.well_formed());
    matrix.row_size = 4;
    assert!(!matrix.well_formed());
    let none: SimdMatrix<f32> = SimdMatrix {
        matrix: vec![],
        row_size: 0,
    };
    assert!(!none.well_formed());
}

#[test]
fn sum_with_equal_height_and_other_width_is_none() {
    let a = SimdMatrix::<f32>::from(vec![vec![1., 2., 3.], vec![4., 5., 6.], vec![7., 8., 9.]])
        .unwrap();
    let b = SimdMatrix::<f32>::from(vec![vec![3., 4.], vec![8., 9.], vec![5., 6.]]).unwrap();
    assert!(a.add(b).is_none());
}

#[test]
fn gathered_lanes_make_a_column_unless_there_are_none() {
    assert!(line_of(Vec::<f32>::new()).is_none());
    assert_eq!(
        line_of(vec![4.3f32, 4.6, 22.3]).unwrap().to_vector(),
        vec![4.3, 4.6, 22.3]
    );
}

#[test]
fn row_size_is_that_of_the_first_row_or_an_error() {
    assert_eq!(row_size_of(&grid()), Ok(3));
    assert_eq!(row_size_of(&vec![Vec::<f32>::new(), vec![]]), Ok(0));
    assert_eq!(
        row_size_of(&Vec::<Vec<f32>>::new()),
        Err(MatrixCreationError::InconsistentRowLengthErr)
    );
    assert_eq!(
        row_size_of(&vec![vec![1.0f32, 2.0], vec![3.0]]),
        Err(MatrixCreationError::InconsistentRowLengthErr)
    );
}
