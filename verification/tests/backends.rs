use lane_linalg::structures::argument::fills_group;
use lane_linalg::structures::argument::Argument;
use lane_linalg::structures::argument::MatrixTypes;
use lane_linalg::structures::argument::LARGE;
use lane_linalg::structures::matrix::Matrix;

fn matrix(height: usize, width: usize) -> Matrix<f32> {
    let rows: Vec<Vec<f32>> = (0..height)
        .map(|i| (0..width).map(|j| (i * width + j) as f32).collect())
        .collect();
    Matrix::from(rows).unwrap()
}

#[test]
fn powers_of_two_up_to_64_fill_a_group() {
    for row_size in 0..=200usize {
        let expected = [1usize, 2, 4, 8, 16, 32, 64].contains(&row_size);
        assert_eq!(fills_group(row_size), expected, "row size {}", row_size);
    }
    assert!(!fills_group(128));
    assert!(!fills_group(usize::MAX));
}

#[test]
fn backend_follows_the_shape() {
    assert_eq!(LARGE, 200);
    assert_eq!(MatrixTypes::suited_to(64, 1_000_000), MatrixTypes::SIMD);
    assert_eq!(MatrixTypes::suited_to(8, 8), MatrixTypes::SIMD);
    assert_eq!(MatrixTypes::suited_to(3, 199), MatrixTypes::Naive);
    assert_eq!(MatrixTypes::suited_to(3, 200), MatrixTypes::OpenCL);
    assert_eq!(MatrixTypes::suited_to(128, 128), MatrixTypes::Naive);
    assert_eq!(MatrixTypes::suited_to(128, 256), MatrixTypes::OpenCL);
    assert_eq!(MatrixTypes::suited_to(0, 0), MatrixTypes::Naive);
}

#[test]
fn ranks_order_the_backends() {
    assert_eq!(MatrixTypes::SIMD.rank(), 1);
    assert_eq!(MatrixTypes::Naive.rank(), 2);
    assert_eq!(MatrixTypes::OpenCL.rank(), 3);
    assert_eq!(MatrixTypes::SIMD.max(MatrixTypes::Naive), MatrixTypes::Naive);
    assert_eq!(MatrixTypes::OpenCL.max(MatrixTypes::Naive), MatrixTypes::OpenCL);
    assert_eq!(MatrixTypes::SIMD.max(MatrixTypes::SIMD), MatrixTypes::SIMD);
    assert_eq!(MatrixTypes::Naive.max(MatrixTypes::OpenCL), MatrixTypes::OpenCL);
}

#[test]
fn the_more_demanding_choice_wins() {
    let lanes = matrix(4, 4);
    let plain = matrix(5, 3);
    let large = matrix(100, 3);
    assert_eq!(MatrixTypes::chosen_for(&lanes, &lanes), MatrixTypes::SIMD);
    assert_eq!(MatrixTypes::chosen_for(&lanes, &plain), MatrixTypes::Naive);
    assert_eq!(MatrixTypes::chosen_for(&plain, &lanes), MatrixTypes::Naive);
    assert_eq!(MatrixTypes::chosen_for(&plain, &large), MatrixTypes::OpenCL);
    assert_eq!(MatrixTypes::chosen_for(&large, &lanes), MatrixTypes::OpenCL);
    // 66 rows of 3 lanes are 198 lanes, 67 rows are 201.
    assert_eq!(
        MatrixTypes::chosen_for(&matrix(66, 3), &plain),
        MatrixTypes::Naive
    );
    assert_eq!(
        MatrixTypes::chosen_for(&matrix(67, 3), &plain),
        MatrixTypes::OpenCL
    );
}

fn rows_of(matrix: &Matrix<f32>) -> Vec<Vec<f32>> {
    matrix.matrix.iter().map(|row| row.to_vector()).collect()
}

#[test]
fn operands_keep_the_rows() {
    let a = matrix(4, 4);
    let b = matrix(4, 8);
    match Argument::from(&a, &b) {
        Argument::SIMD(first, second) => {
            let first: Vec<Vec<f32>> = first.iter().map(|row| row.to_vector()).collect();
            let second: Vec<Vec<f32>> = second.iter().map(|row| row.to_vector()).collect();
            assert_eq!(first, rows_of(&a));
            assert_eq!(second, rows_of(&b));
        }
        _ => panic!("rows of 4 and 8 lanes fill lane groups"),
    }
    let c = matrix(3, 5);
    match Argument::from(&a, &c) {
        Argument::Naive(first, second) => {
            assert_eq!(first, rows_of(&a));
            assert_eq!(second, rows_of(&c));
        }
        _ => panic!("a small matrix with rows of 5 lanes is for the plain backend"),
    }
    let d = matrix(50, 5);
    match Argument::from(&d, &a) {
        Argument::OpenCL(first, second) => {
            assert_eq!(first, rows_of(&d));
            assert_eq!(second, rows_of(&a));
        }
        _ => panic!("250 lanes in rows of 5 are for the accelerator"),
    }
}

#[test]
fn operands_can_be_made_for_a_given_backend() {
    let first: Vec<Vec<f32>> = vec![vec![1., 2., 3.], vec![4., 5., 6.]];
    let second: Vec<Vec<f32>> = vec![vec![7., 8.], vec![9., 10.], vec![11., 12.]];
    match Argument::new_simd(&first, &second) {
        Argument::SIMD(a, b) => {
            assert_eq!(a.len(), 2);
            assert_eq!(a[1].to_vector(), first[1]);
            assert_eq!(b.len(), 3);
            assert_eq!(b[2].to_vector(), second[2]);
        }
        _ => panic!("made for the lane groups"),
    }
    match Argument::new_opencl(&first, &second) {
        Argument::OpenCL(a, b) => {
            assert_eq!(a, first);
            assert_eq!(b, second);
        }
        _ => panic!("made for the accelerator"),
    }
    match Argument::new_naive(&first, &second) {
        Argument::Naive(a, b) => {
            assert_eq!(a, first);
            assert_eq!(b, second);
        }
        _ => panic!("made for the plain backend"),
    }
}
