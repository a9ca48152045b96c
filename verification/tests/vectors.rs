use lane_linalg::algebra::scalar::Operator;
use lane_linalg::algebra::vector::Vector;
use lane_linalg::structures::vector_simd::first_width;
use lane_linalg::structures::vector_simd::SimdVector;

#[test]
fn check_create_simd_vector() {
    let init: Vec<f32> = vec![5.23, 3.2, 0.44, 8.9, 9.0, 5.5, 2.0];
    let mut init_large: Vec<f32> = vec![];
    init_large.resize(335, 1.1);
    let vector = SimdVector::from_vector(init.clone());
    let vector_large = SimdVector::from_vector(init_large.clone());
    println!("{:?}", vector);
    assert_eq!(init, vector.to_vector());
    assert_eq!(init_large, vector_large.to_vector());
}

#[test]
fn check_simd_get_fns() {
    let init: Vec<f32> = vec![5.23, 3.2, 0.44, 8.9, 9.0, 5.5, 2.0, 5.0];
    let vector = SimdVector::from_vector(init.clone());
    assert_eq!(init.get(0).as_deref(), vector.get(0).as_ref());
    println!("0 passed");
    assert_eq!(init.get(1).as_deref(), vector.get(1).as_ref());
    println!("1 passed");
    assert_eq!(init.get(2).as_deref(), vector.get(2).as_ref());
    println!("2 passed");
    assert_eq!(init.get(3).as_deref(), vector.get(3).as_ref());
    println!("3 passed");
    assert_eq!(init.get(4).as_deref(), vector.get(4).as_ref());
    println!("4 passed");
    assert_eq!(init.get(5).as_deref(), vector.get(5).as_ref());
    println!("5 passed");
    assert_eq!(init.get(6).as_deref(), vector.get(6).as_ref());
    println!("6 passed");
    assert_eq!(init.get(7).as_deref(), vector.get(7).as_ref());
    println!("7 passed");

    let mut init_large: Vec<f32> = vec![];
    init_large.resize(556, 1.1);
    init_large.fill_with(|| rand::random());
    let vector_large = SimdVector::from_vector(init_large.clone());

    assert_eq!(init_large.get(0).as_deref(), vector_large.get(0).as_ref());
    assert_eq!(init_large.get(45).as_deref(), vector_large.get(45).as_ref());
    assert_eq!(
        init_large.get(337).as_deref(),
        vector_large.get(337).as_ref()
    );
    assert_eq!(
        init_large.get(500).as_deref(),
        vector_large.get(500).as_ref()
    );
    assert_eq!(
        init_large.get(555).as_deref(),
        vector_large.get(555).as_ref()
    );
}

#[test]
fn check_simd_get_thourogh() {
    for i in 0..=62 {
        let mut init: Vec<f32> = vec![];
        init.resize_with(i, || rand::random());
        let vector = SimdVector::from_vector(init.clone());
        for j in 0..=i {
            println!("operating on {:?}, element {}", vector, j);
            assert_eq!(init.get(j).as_deref(), vector.get(j).as_ref());
            println!("vector size {}, element {} passed", i, j);
        }
    }
}

#[test]
fn check_simd_ops() {
    let sum_lhs = SimdVector::<f32>::from_vector(vec![2.33, 5.66, 9.8]);
    let sum_rhs = SimdVector::<f32>::from_vector(vec![4.556, 2.3445, 9.67]);
    let prod_lhs = SimdVector::<f32>::from_vector(vec![2.33, 5.66, 9.8]);
    let prod_rhs = SimdVector::<f32>::from_vector(vec![4.56, 2.3445, 9.67]);
    let quot_lhs = SimdVector::<f32>::from_vector(vec![2.33, 5.66, 9.8]);
    let quot_rhs = SimdVector::<f32>::from_vector(vec![4.556, 2.3445, 9.67]);
    let diff_lhs = SimdVector::<f32>::from_vector(vec![2.33, 5.66, 9.8]);
    let diff_rhs = SimdVector::<f32>::from_vector(vec![4.556, 2.3445, 9.67]);

    let sum = sum_rhs + sum_lhs;
    let prod = prod_rhs * prod_lhs;
    let quot = quot_lhs / quot_rhs;
    let diff = diff_lhs - diff_rhs;

    assert_eq!(
        sum.to_vector(),
        vec![2.33 + 4.556, 5.66 + 2.3445, 9.8 + 9.67]
    );
    assert_eq!(
        prod.to_vector(),
        vec![2.33 * 4.56, 5.66 * 2.3445, 9.8 * 9.67]
    );
    assert_eq!(
        quot.to_vector(),
        vec![2.33 / 4.556, 5.66 / 2.3445, 9.8 / 9.67]
    );
    assert_eq!(
        diff.to_vector(),
        vec![2.33 - 4.556, 5.66 - 2.3445, 9.8 - 9.67]
    );
}

#[test]
fn check_vector_trait_functions() {
    let left_vector = SimdVector::<f32>::from_vector(vec![12., 5., 8.]);
    let right_vector = SimdVector::<f32>::from_vector(vec![67., 8., 0.]);

    let vector_scaled = SimdVector::<f32>::from_vector(vec![48., 20., 32.]);
    let dotprod = 844.;

    assert_eq!(left_vector.clone().scale(4.), vector_scaled);
    assert_eq!(left_vector.dot(right_vector), dotprod);
}

#[test]
fn check_vector_trait_magnitude() {
    for i in 0..63 {
        let vector = SimdVector::<f32>::from_vector(
            std::iter::repeat_with(|| rand::random()).take(i).collect(),
        );
        println!(
            "input vector is {:?}, magnitude is {}",
            vector.to_vector(),
            vector.magnitude(f32::sqrt)
        );
    }
}

fn ramp(n: usize) -> Vec<f32> {
    (0..n).map(|i| i as f32 * 0.5 - 3.0).collect()
}

#[test]
fn round_trip_at_the_group_boundaries() {
    for n in [0usize, 1, 2, 3, 31, 32, 33, 45, 63, 64, 65, 127, 128, 129, 191, 192, 335] {
        let lanes = ramp(n);
        let vector = SimdVector::from_vector(lanes.clone());
        assert_eq!(vector.to_vector(), lanes);
        assert_eq!(vector.len(), n);
    }
}

#[test]
fn borrowed_lanes_encode_like_owned_ones() {
    let lanes = ramp(77);
    let vector = SimdVector::from_lanes(&lanes);
    assert_eq!(vector, SimdVector::from_vector(lanes.clone()));
    assert_eq!(vector.to_vector(), lanes);
}

#[test]
fn get_agrees_with_the_lanes_and_ends_with_none() {
    for n in [0usize, 1, 45, 63, 64, 65, 129] {
        let lanes = ramp(n);
        let vector = SimdVector::from_vector(lanes.clone());
        for i in 0..n {
            assert_eq!(vector.get(i), Some(lanes[i]));
        }
        assert_eq!(vector.get(n), None);
        assert_eq!(vector.get(n + 64), None);
        assert_eq!(vector.get(usize::MAX), None);
    }
}

#[test]
fn empty_vector_sums_to_zero_and_has_no_lane() {
    let empty = SimdVector::<f32>::from_vector(vec![]);
    assert_eq!(empty.len(), 0);
    assert_eq!(empty.get(0), None);
    assert_eq!(empty.sum(), 0.0);
    assert_eq!(empty.partial_sum(), 0.0);
    assert_eq!(empty.magnitude(f32::sqrt), 0.0);
    assert_eq!(empty.clone().dot(empty), 0.0);
}

#[test]
fn first_width_is_greedy() {
    assert_eq!(first_width(0), 0);
    assert_eq!(first_width(1), 1);
    assert_eq!(first_width(2), 2);
    assert_eq!(first_width(3), 2);
    assert_eq!(first_width(4), 4);
    assert_eq!(first_width(7), 4);
    assert_eq!(first_width(8), 8);
    assert_eq!(first_width(15), 8);
    assert_eq!(first_width(16), 16);
    assert_eq!(first_width(31), 16);
    assert_eq!(first_width(32), 32);
    assert_eq!(first_width(63), 32);
    assert_eq!(first_width(64), 64);
    assert_eq!(first_width(1000), 64);
}

#[test]
fn sum_adds_group_by_group() {
    // 3 lanes are a group of two and a group of one: (1 + 2) + 4.
    let vector = SimdVector::<i64>::from_vector(vec![1, 2, 4]);
    assert_eq!(vector.sum(), 7);
    // 70 lanes: a group of 64, one of 4 and one of 2.
    let lanes: Vec<i64> = (1..=70).collect();
    let vector = SimdVector::from_vector(lanes);
    assert_eq!(vector.sum(), 70 * 71 / 2);
}

#[test]
fn sum_order_is_fixed_for_floats() {
    // Six lanes are a group of four and a group of two. Each group is summed
    // on its own, so the last two lanes are added to each other before they
    // meet the rest; in single precision that shows.
    let lanes: Vec<f32> = vec![0.5, 0.0, 0.0, 0.0, 0.1, 0.1];
    let vector = SimdVector::from_vector(lanes.clone());
    let first = ((lanes[0] + lanes[1]) + lanes[2]) + lanes[3];
    let second = lanes[4] + lanes[5];
    assert_eq!(vector.sum(), first + second);
    let mut naive = lanes[0];
    for lane in &lanes[1..] {
        naive += *lane;
    }
    assert_ne!(vector.sum(), naive);
    // Within a group the lanes are added from left to right.
    let lanes: Vec<f32> = vec![0.1, 0.1, 0.5, 0.25];
    let vector = SimdVector::from_vector(lanes.clone());
    assert_eq!(vector.sum(), ((lanes[0] + lanes[1]) + lanes[2]) + lanes[3]);
    assert_ne!(vector.sum(), lanes[0] + (lanes[1] + (lanes[2] + lanes[3])));
}

#[test]
fn combine_applies_each_operator() {
    let a = || SimdVector::<i32>::from_vector(vec![12, -5, 8, 9, 100]);
    let b = || SimdVector::<i32>::from_vector(vec![3, 2, -4, 9, 7]);
    assert_eq!(a().combine(b(), Operator::Add).to_vector(), vec![15, -3, 4, 18, 107]);
    assert_eq!(a().combine(b(), Operator::Sub).to_vector(), vec![9, -7, 12, 0, 93]);
    assert_eq!(a().combine(b(), Operator::Mul).to_vector(), vec![36, -10, -32, 81, 700]);
    assert_eq!(a().combine(b(), Operator::Div).to_vector(), vec![4, -2, -2, 1, 14]);
    assert_eq!(Operator::Add.apply(2.5f32, 4.0), 6.5);
    assert_eq!(Operator::Sub.apply(2.5f32, 4.0), -1.5);
    assert_eq!(Operator::Mul.apply(2.5f32, 4.0), 10.0);
    assert_eq!(Operator::Div.apply(2.5f32, 4.0), 0.625);
}

#[test]
fn operators_work_across_several_groups() {
    let n = 129;
    let a: Vec<f32> = ramp(n);
    let b: Vec<f32> = (0..n).map(|i| 1.0 + i as f32).collect();
    let sum = SimdVector::from_vector(a.clone()) + SimdVector::from_vector(b.clone());
    let diff = SimdVector::from_vector(a.clone()) - SimdVector::from_vector(b.clone());
    let prod = SimdVector::from_vector(a.clone()) * SimdVector::from_vector(b.clone());
    let quot = SimdVector::from_vector(a.clone()) / SimdVector::from_vector(b.clone());
    for i in 0..n {
        assert_eq!(sum.get(i), Some(a[i] + b[i]));
        assert_eq!(diff.get(i), Some(a[i] - b[i]));
        assert_eq!(prod.get(i), Some(a[i] * b[i]));
        assert_eq!(quot.get(i), Some(a[i] / b[i]));
    }
    assert_eq!(sum.len(), n);
}

#[test]
fn division_by_a_zero_lane_follows_the_lane_type() {
    let a = SimdVector::<f32>::from_vector(vec![1.0, -1.0, 0.0]);
    let b = SimdVector::<f32>::from_vector(vec![0.0, 0.0, 0.0]);
    let quot = (a / b).to_vector();
    assert_eq!(quot[0], f32::INFINITY);
    assert_eq!(quot[1], f32::NEG_INFINITY);
    assert!(quot[2].is_nan());
}

#[test]
fn trait_methods_agree_with_the_vector_itself() {
    let a = SimdVector::<f32>::from_vec(vec![1.0, 2.0, 3.0, 4.0, 5.0]);
    let b = SimdVector::<f32>::from_vec(vec![5.0, 4.0, 3.0, 2.0, 1.0]);
    assert_eq!(a.to_vec(), vec![1.0, 2.0, 3.0, 4.0, 5.0]);
    assert_eq!(Vector::add(a.clone(), b.clone()).to_vec(), vec![6.0; 5]);
    assert_eq!(
        a.clone().elem_mul(b.clone()).to_vec(),
        vec![5.0, 8.0, 9.0, 8.0, 5.0]
    );
    assert_eq!(Vector::scale(a.clone(), 2.0).to_vec(), vec![2.0, 4.0, 6.0, 8.0, 10.0]);
    assert_eq!(a.partial_sum(), 15.0);
    assert_eq!(a.clone().dot(b), 35.0);
    assert_eq!(SimdVector::<f32>::from_vec(vec![3.0, 4.0]).magnitude(f32::sqrt), 5.0);
}

fn naive_dot(a: &[f32], b: &[f32]) -> f32 {
    let mut total = 0.0f32;
    for i in 0..a.len() {
        total += a[i] * b[i];
    }
    total
}

#[test]
fn dot_matches_the_naive_sum_within_tolerance() {
    for n in [0usize, 1, 63, 64, 65, 127, 128, 129] {
        let a: Vec<f32> = (0..n).map(|i| 0.25 * i as f32 - 7.0).collect();
        let b: Vec<f32> = (0..n).map(|i| 1.5 - 0.125 * i as f32).collect();
        let dot = SimdVector::from_vector(a.clone()).dot(SimdVector::from_vector(b.clone()));
        let naive = naive_dot(&a, &b);
        let scale = naive.abs().max(1.0);
        assert!((dot - naive).abs() <= 1.0e-4 * scale, "n = {}", n);
    }
}

#[test]
fn dot_is_exact_on_integers() {
    for n in [0usize, 1, 63, 64, 65, 127, 128, 129] {
        let a: Vec<i64> = (0..n).map(|i| i as i64 - 7).collect();
        let b: Vec<i64> = (0..n).map(|i| 3 - 2 * i as i64).collect();
        let mut naive = 0i64;
        for i in 0..n {
            naive += a[i] * b[i];
        }
        let dot = SimdVector::from_vector(a).dot(SimdVector::from_vector(b));
        assert_eq!(dot, naive);
    }
}

#[test]
fn scaling_distributes_over_the_sum() {
    let n = 77;
    let v: Vec<f32> = (0..n).map(|i| 0.5 * i as f32 - 11.0).collect();
    let w: Vec<f32> = (0..n).map(|i| 3.0 - 0.25 * i as f32).collect();
    let s = 1.75f32;
    let left = (SimdVector::from_vector(v.clone()) + SimdVector::from_vector(w.clone())).scale(s);
    let right = SimdVector::from_vector(v).scale(s) + SimdVector::from_vector(w).scale(s);
    for i in 0..n {
        let l = left.get(i).unwrap();
        let r = right.get(i).unwrap();
        assert!((l - r).abs() <= 1.0e-4 * l.abs().max(1.0));
    }
    let vi: Vec<i64> = (0..n as i64).map(|i| 5 * i - 11).collect();
    let wi: Vec<i64> = (0..n as i64).map(|i| 3 - 2 * i).collect();
    let left = (SimdVector::from_vector(vi.clone()) + SimdVector::from_vector(wi.clone())).scale(7);
    let right = SimdVector::from_vector(vi).scale(7) + SimdVector::from_vector(wi).scale(7);
    assert_eq!(left, right);
}

#[test]
fn clone_is_equal_and_independent() {
    let vector = SimdVector::<f32>::from_vector(ramp(70));
    let copy = vector.clone();
    assert_eq!(copy, vector);
    let scaled = copy.scale(2.0);
    assert_eq!(vector.to_vector(), ramp(70));
    assert_eq!(scaled.get(69), Some(ramp(70)[69] * 2.0));
}
