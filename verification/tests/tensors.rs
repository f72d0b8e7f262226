use put_lang::tensor::{element_count, fold_pairs, Tensor};

#[test]
fn test_tensor_creation() {
    let t = Tensor::new(vec![1.0, 2.0, 3.0, 4.0], vec![2, 2]);
    assert_eq!(t.dimensions(), &vec![2, 2]);
    assert_eq!(t.elements(), &vec![1.0, 2.0, 3.0, 4.0]);
}

#[test]
fn test_tensor_zeros() {
    let t = Tensor::filled(vec![2, 3], 0.0).unwrap();
    assert_eq!(t.dimensions(), &vec![2, 3]);
    assert_eq!(t.elements(), &vec![0.0; 6]);
}

#[test]
fn test_tensor_get() {
    let t = Tensor::new(vec![1.0, 2.0, 3.0, 4.0], vec![2, 2]);
    assert_eq!(t.get(&[0, 0]), Some(1.0));
    assert_eq!(t.get(&[1, 1]), Some(4.0));
    assert_eq!(t.get(&[2, 0]), None);
}

#[test]
fn test_tensor_set() {
    let mut t = Tensor::new(vec![1.0, 2.0, 3.0, 4.0], vec![2, 2]);
    assert!(t.set(&[0, 1], 5.0).is_ok());
    assert_eq!(t.get(&[0, 1]), Some(5.0));
    assert!(t.set(&[2, 0], 6.0).is_err());
}

#[test]
fn test_tensor_transpose() {
    let t = Tensor::new(vec![1.0, 2.0, 3.0, 4.0, 5.0, 6.0], vec![2, 3]);
    let transposed = t.transpose();
    assert_eq!(transposed.dimensions(), &vec![3, 2]);
    assert_eq!(transposed.elements(), &vec![1.0, 4.0, 2.0, 5.0, 3.0, 6.0]);
}

#[test]
fn set_names_the_failure_and_changes_nothing() {
    let mut t = Tensor::new(vec![1, 2, 3, 4], vec![2, 2]);
    assert_eq!(t.set(&[0, 2], 9), Err("Invalid indices".to_string()));
    assert_eq!(t.set(&[0], 9), Err("Invalid indices".to_string()));
    assert_eq!(t.elements(), &vec![1, 2, 3, 4]);
}

#[test]
fn index_is_row_major() {
    let t = Tensor::new((0..24).collect::<Vec<u32>>(), vec![2, 3, 4]);
    assert_eq!(t.compute_index(&[0, 0, 0]), Some(0));
    assert_eq!(t.compute_index(&[0, 0, 3]), Some(3));
    assert_eq!(t.compute_index(&[0, 1, 0]), Some(4));
    assert_eq!(t.compute_index(&[1, 0, 0]), Some(12));
    assert_eq!(t.compute_index(&[1, 2, 3]), Some(23));
    assert_eq!(t.get(&[1, 1, 2]), Some(18));
}

#[test]
fn index_needs_one_number_below_each_dimension() {
    let t = Tensor::new((0..6).collect::<Vec<u32>>(), vec![2, 3]);
    assert_eq!(t.compute_index(&[2, 0]), None);
    assert_eq!(t.compute_index(&[0, 3]), None);
    assert_eq!(t.compute_index(&[0]), None);
    assert_eq!(t.compute_index(&[0, 0, 0]), None);
    assert_eq!(t.compute_index(&[]), None);
}

#[test]
fn a_tensor_without_dimensions_holds_one_element() {
    let t = Tensor::new(vec![7], vec![]);
    assert_eq!(t.compute_index(&[]), Some(0));
    assert_eq!(t.get(&[]), Some(7));
    assert_eq!(t.get(&[0]), None);
}

#[test]
fn a_zero_dimension_leaves_no_element() {
    let t = Tensor::new(Vec::<u8>::new(), vec![usize::MAX, usize::MAX, 0]);
    assert_eq!(t.get(&[1, 1, 0]), None);
    assert_eq!(t.get(&[0, 0, 0]), None);
}

#[test]
fn element_count_is_the_product_if_it_fits() {
    assert_eq!(element_count(&vec![]), Some(1));
    assert_eq!(element_count(&vec![5]), Some(5));
    assert_eq!(element_count(&vec![2, 3, 4]), Some(24));
    assert_eq!(element_count(&vec![usize::MAX, 2, 0]), Some(0));
    assert_eq!(element_count(&vec![usize::MAX, 1, 1]), Some(usize::MAX));
    assert_eq!(element_count(&vec![usize::MAX, 2]), None);
    assert_eq!(element_count(&vec![1 << 32, 1 << 32]), None);
}

#[test]
fn filled_fails_only_on_a_count_that_does_not_fit() {
    assert!(Tensor::filled(vec![usize::MAX, 2], 0u8).is_none());
    let t = Tensor::filled(vec![2, 2], 'x').unwrap();
    assert_eq!(t.elements(), &vec!['x'; 4]);
    assert_eq!(Tensor::filled(vec![3, 0], 1).unwrap().elements(), &Vec::<i32>::new());
}

#[test]
fn transpose_of_a_row_is_a_column() {
    let t = Tensor::new(vec![1, 2, 3], vec![1, 3]);
    let transposed = t.transpose();
    assert_eq!(transposed.dimensions(), &vec![3, 1]);
    assert_eq!(transposed.elements(), &vec![1, 2, 3]);
    assert_eq!(transposed.transpose().dimensions(), &vec![1, 3]);
}

#[test]
fn transpose_moves_each_cell_across_the_diagonal() {
    let t = Tensor::new((0..12).collect::<Vec<u32>>(), vec![3, 4]);
    let transposed = t.transpose();
    for i in 0..3 {
        for j in 0..4 {
            assert_eq!(transposed.get(&[j, i]), t.get(&[i, j]));
        }
    }
}

#[test]
fn matmul_dims_checks_both_shapes() {
    let a = Tensor::new(vec![0; 6], vec![2, 3]);
    let b = Tensor::new(vec![0; 12], vec![3, 4]);
    let c = Tensor::new(vec![0; 6], vec![6]);
    assert_eq!(a.matmul_dims(&b), Ok((2, 4, 3)));
    assert_eq!(
        b.matmul_dims(&a),
        Err("Inner dimensions must match for matrix multiplication".to_string())
    );
    assert_eq!(
        a.matmul_dims(&c),
        Err("Both tensors must be 2-dimensional for matrix multiplication".to_string())
    );
    assert_eq!(
        c.matmul_dims(&a),
        Err("Both tensors must be 2-dimensional for matrix multiplication".to_string())
    );
}

#[test]
fn rows_and_columns_of_a_matrix() {
    let t = Tensor::new(vec![1, 2, 3, 4, 5, 6], vec![2, 3]);
    assert_eq!(t.row(0), vec![1, 2, 3]);
    assert_eq!(t.row(1), vec![4, 5, 6]);
    assert_eq!(t.column(0), vec![1, 4]);
    assert_eq!(t.column(1), vec![2, 5]);
    assert_eq!(t.column(2), vec![3, 6]);
}

#[test]
fn test_tensor_matrix_multiplication() {
    let t1 = Tensor::new(vec![1.0, 2.0, 3.0, 4.0], vec![2, 2]);
    let t2 = Tensor::new(vec![5.0, 6.0, 7.0, 8.0], vec![2, 2]);
    let result = t1.matmul(&t2, 0.0, |sum, a, b| sum + a * b).unwrap();
    assert_eq!(result.elements(), &vec![19.0, 22.0, 43.0, 50.0]);
    assert_eq!(result.dimensions(), &vec![2, 2]);
}

#[test]
fn test_tensor_add() {
    let t1 = Tensor::new(vec![1.0, 2.0, 3.0, 4.0], vec![2, 2]);
    let t2 = Tensor::new(vec![5.0, 6.0, 7.0, 8.0], vec![2, 2]);
    let result = t1.zip_with(&t2, |a, b| a + b);
    assert_eq!(result.elements(), &vec![6.0, 8.0, 10.0, 12.0]);
}

#[test]
fn test_tensor_subtraction() {
    let t1 = Tensor::new(vec![1.0, 2.0, 3.0, 4.0], vec![2, 2]);
    let t2 = Tensor::new(vec![5.0, 6.0, 7.0, 8.0], vec![2, 2]);
    let result = t1.zip_with(&t2, |a, b| a - b);
    assert_eq!(result.elements(), &vec![-4.0, -4.0, -4.0, -4.0]);
}

#[test]
fn test_tensor_element_wise_multiplication() {
    let t1 = Tensor::new(vec![1.0, 2.0, 3.0, 4.0], vec![2, 2]);
    let t2 = Tensor::new(vec![5.0, 6.0, 7.0, 8.0], vec![2, 2]);
    let result = t1.zip_with(&t2, |a, b| a * b);
    assert_eq!(result.elements(), &vec![5.0, 12.0, 21.0, 32.0]);
}

#[test]
fn test_tensor_exp() {
    let t = Tensor::new(vec![0.0, 1.0, 2.0], vec![3]);
    let exp_t = t.apply(|x: f64| x.exp());
    assert!((exp_t.elements()[0] - 1.0).abs() < 1e-6);
    assert!((exp_t.elements()[1] - std::f64::consts::E).abs() < 1e-6);
    assert!((exp_t.elements()[2] - std::f64::consts::E.powi(2)).abs() < 1e-6);
}

#[test]
fn test_tensor_log() {
    let t = Tensor::new(
        vec![1.0, std::f64::consts::E, std::f64::consts::E.powi(2)],
        vec![3],
    );
    let log_t = t.apply(|x: f64| x.ln());
    assert!((log_t.elements()[0]).abs() < 1e-6);
    assert!((log_t.elements()[1] - 1.0).abs() < 1e-6);
    assert!((log_t.elements()[2] - 2.0).abs() < 1e-6);
}

#[test]
fn test_tensor_mean() {
    let t = Tensor::new(vec![1.0, 2.0, 3.0, 4.0], vec![2, 2]);
    let mean = t.fold(0.0, |sum, x| sum + x) / t.elements().len() as f64;
    assert_eq!(mean, 2.5);
}

#[test]
fn test_tensor_variance_and_std_dev() {
    let t = Tensor::new(vec![1.0, 2.0, 3.0, 4.0], vec![2, 2]);
    let n = t.elements().len() as f64;
    let mean = t.fold(0.0, |sum, x| sum + x) / n;
    let variance = t.fold(0.0, |sum, x: f64| sum + (x - mean).powi(2)) / n;
    assert!((variance - 1.25).abs() < 1e-6);
    assert!((variance.sqrt() - 1.118033988749895).abs() < 1e-6);
}

#[test]
fn test_tensor_operations() {
    let t1 = Tensor::new(vec![1.0, 2.0, 3.0, 4.0], vec![2, 2]);
    let t2 = Tensor::new(vec![5.0, 6.0, 7.0, 8.0], vec![2, 2]);

    let t_add = t1.zip_with(&t2, |a, b| a + b);
    assert_eq!(t_add.get(&[0, 0]), Some(6.0));

    let t_sub = t1.zip_with(&t2, |a, b| a - b);
    assert_eq!(t_sub.get(&[0, 0]), Some(-4.0));

    let t_mul = t1.zip_with(&t2, |a, b| a * b);
    assert_eq!(t_mul.get(&[0, 0]), Some(5.0));

    let t_matmul = t1.matmul(&t2, 0.0, |sum, a, b| sum + a * b).unwrap();
    assert_eq!(t_matmul.get(&[0, 0]), Some(19.0));

    let t_transpose = t1.transpose();
    assert_eq!(t_transpose.get(&[0, 1]), Some(3.0));

    let n = t1.elements().len() as f64;
    let mean = t1.fold(0.0, |sum, x| sum + x) / n;
    let variance = t1.fold(0.0, |sum, x: f64| sum + (x - mean).powi(2)) / n;
    assert!((mean - 2.5).abs() < 1e-6);
    assert!((variance - 1.25).abs() < 1e-6);
    assert!((variance.sqrt() - 1.118033988749895).abs() < 1e-6);
}

#[test]
fn fold_takes_the_elements_in_row_major_order() {
    let t = Tensor::new(vec![1, 2, 3, 4], vec![2, 2]);
    assert_eq!(t.fold(0, |acc, x| acc * 10 + x), 1234);
    assert_eq!(Tensor::new(Vec::<i32>::new(), vec![0]).fold(9, |acc, x| acc + x), 9);
}

#[test]
fn matmul_of_unequal_sizes() {
    let a = Tensor::new(vec![1, 2, 3, 4, 5, 6], vec![2, 3]);
    let b = Tensor::new(vec![1, 0, 0, 1, 1, 1], vec![3, 2]);
    let product = a.matmul(&b, 0, |sum, x, y| sum + x * y).unwrap();
    assert_eq!(product.dimensions(), &vec![2, 2]);
    assert_eq!(product.elements(), &vec![4, 5, 10, 11]);
    let wide = b.matmul(&a, 0, |sum, x, y| sum + x * y).unwrap();
    assert_eq!(wide.dimensions(), &vec![3, 3]);
    assert_eq!(wide.elements(), &vec![1, 2, 3, 4, 5, 6, 5, 7, 9]);
}

#[test]
fn matmul_names_its_failures() {
    let a = Tensor::new(vec![0; 6], vec![2, 3]);
    let c = Tensor::new(vec![0; 6], vec![6]);
    assert_eq!(
        a.matmul(&a, 0, |s, x, y| s + x * y).err(),
        Some("Inner dimensions must match for matrix multiplication".to_string())
    );
    assert_eq!(
        a.matmul(&c, 0, |s, x, y| s + x * y).err(),
        Some("Both tensors must be 2-dimensional for matrix multiplication".to_string())
    );
}

#[test]
fn matmul_takes_the_pairs_from_first_to_last() {
    let a = Tensor::new(vec!["a", "b"], vec![1, 2]);
    let b = Tensor::new(vec!["x", "y"], vec![2, 1]);
    let seen = std::cell::RefCell::new(Vec::new());
    a.matmul(&b, "", |_, x, y| {
        seen.borrow_mut().push((x, y));
        x
    })
    .unwrap();
    assert_eq!(seen.into_inner(), vec![("a", "x"), ("b", "y")]);
}

#[test]
fn apply_and_zip_with_keep_the_shape() {
    let t = Tensor::new(vec![1, 2, 3, 4, 5, 6], vec![3, 2]);
    let doubled = t.apply(|x| 2 * x);
    assert_eq!(doubled.dimensions(), &vec![3, 2]);
    assert_eq!(doubled.elements(), &vec![2, 4, 6, 8, 10, 12]);
    let sums = t.zip_with(&doubled, |a, b| a + b);
    assert_eq!(sums.dimensions(), &vec![3, 2]);
    assert_eq!(sums.elements(), &vec![3, 6, 9, 12, 15, 18]);
}

#[test]
fn fold_pairs_runs_from_zero() {
    assert_eq!(fold_pairs(&vec![1, 2, 3], &vec![4, 5, 6], 0, &|s, x, y| s + x * y), 32);
    assert_eq!(fold_pairs(&Vec::<i32>::new(), &Vec::new(), 7, &|s, x, y| s + x * y), 7);
    assert_eq!(fold_pairs(&vec![1, 2], &vec![1, 1], 10, &|s, x, _| s * 10 + x), 1012);
}

#[test]
fn try_new_asks_for_the_count_of_the_shape() {
    assert!(Tensor::try_new(vec![1, 2, 3], vec![2, 2]).is_none());
    assert!(Tensor::try_new(vec![1, 2, 3, 4], vec![usize::MAX, 2]).is_none());
    assert!(Tensor::try_new(Vec::<u8>::new(), vec![]).is_none());
    let t = Tensor::try_new(vec![1, 2, 3, 4], vec![2, 2]).unwrap();
    assert_eq!(t.get(&[1, 0]), Some(3));
}
