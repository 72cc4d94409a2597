use qldpc_sim::bits::BitVector;
use qldpc_sim::errors::QldpcError;
use qldpc_sim::math::bit_linear_algebra::{
    inner_product, is_linearly_independent, rank, BinaryDenseMatrix,
};
use qldpc_sim::math::sparse_matrix::BinarySparseMatrix;

fn bv(bits: &[u8]) -> BitVector {
    let mut v = BitVector::repeat(false, bits.len());
    for (i, &b) in bits.iter().enumerate() {
        if b != 0 {
            v.set(i, true);
        }
    }
    v
}

#[test]
fn test_new() {
    let n_rows = 3;
    let n_cols = 4;
    let row_adj = vec![vec![0, 1], vec![1, 2], vec![2, 3]];
    let col_adj = vec![vec![0], vec![0, 1], vec![1, 2], vec![2]];
    let _matrix = BinarySparseMatrix::new(n_rows, n_cols, row_adj, col_adj).unwrap();
}

#[test]
fn test_new_panic() {
    let n_rows = 3;
    let n_cols = 4;
    let row_adj = vec![vec![0, 1], vec![1, 2], vec![2, 3]];
    let col_adj = vec![vec![0], vec![0, 1], vec![1, 2], vec![3]];
    let result = BinarySparseMatrix::new(n_rows, n_cols, row_adj, col_adj);
    assert_eq!(result.unwrap_err(), QldpcError::IndexOutOfRange);
}

#[test]
fn test_new_shape_mismatch() {
    let row_adj = vec![vec![0, 1], vec![1, 2]];
    let col_adj = vec![vec![0], vec![0, 1], vec![1]];
    let result = BinarySparseMatrix::new(3, 3, row_adj, col_adj);
    assert_eq!(result.unwrap_err(), QldpcError::ShapeMismatch);
}

#[test]
fn test_new_index_out_of_range() {
    let row_adj = vec![vec![0, 5]];
    let result = BinarySparseMatrix::from_row_adj(1, 4, row_adj);
    assert_eq!(result.unwrap_err(), QldpcError::IndexOutOfRange);
}

#[test]
fn test_from_row_adj_unsorted() {
    let row_adj = vec![vec![1, 0]];
    let result = BinarySparseMatrix::from_row_adj(1, 4, row_adj);
    assert_eq!(result.unwrap_err(), QldpcError::InconsistentAdjacency);
}

#[test]
fn test_from_row_adj() {
    let row_adj = vec![vec![0, 1], vec![1, 2], vec![2, 3]];
    let col_adj = vec![vec![0], vec![0, 1], vec![1, 2], vec![2]];
    let matrix = BinarySparseMatrix::new(3, 4, row_adj, col_adj).unwrap();
    let row_adj = vec![vec![0, 1], vec![1, 2], vec![2, 3]];
    let matrix_from_row_adj = BinarySparseMatrix::from_row_adj(3, 4, row_adj).unwrap();
    assert_eq!(matrix_from_row_adj, matrix);
}

#[test]
fn test_from_col_adj() {
    let row_adj = vec![vec![0, 1], vec![1, 2], vec![2, 3]];
    let col_adj = vec![vec![0], vec![0, 1], vec![1, 2], vec![2]];
    let matrix = BinarySparseMatrix::new(3, 4, row_adj, col_adj).unwrap();
    let col_adj = vec![vec![0], vec![0, 1], vec![1, 2], vec![2]];
    let matrix_from_col_adj = BinarySparseMatrix::from_col_adj(3, 4, col_adj).unwrap();
    assert_eq!(matrix_from_col_adj, matrix);
}

#[test]
fn test_transpose() {
    let row_adj = vec![vec![0, 1], vec![1, 2], vec![2, 3]];
    let matrix = BinarySparseMatrix::from_row_adj(3, 4, row_adj).unwrap();
    let transposed = matrix.transpose();
    let expected_row_adj = vec![vec![0], vec![0, 1], vec![1, 2], vec![2]];
    let expected = BinarySparseMatrix::from_row_adj(4, 3, expected_row_adj).unwrap();
    assert_eq!(transposed, expected);
}

#[test]
fn test_transpose_involution() {
    let row_adj = vec![vec![0, 2], vec![1], vec![0, 1, 3]];
    let matrix = BinarySparseMatrix::from_row_adj(3, 4, row_adj).unwrap();
    assert_eq!(matrix.transpose().transpose(), matrix);
}

#[test]
fn test_mul_binary_vec() {
    let row_adj = vec![vec![0, 1], vec![1, 2], vec![2, 3]];
    let matrix = BinarySparseMatrix::from_row_adj(3, 4, row_adj).unwrap();
    let vec = bv(&[1, 0, 1, 0]);
    let result = matrix.mul_vec(&vec);
    let expected = bv(&[1, 1, 1]);
    assert_eq!(result, expected);
}

#[test]
fn test_mul_binary_sparse_matrix() {
    let row_adj_a = vec![vec![0, 1], vec![1, 2], vec![2, 3]];
    let matrix_a = BinarySparseMatrix::from_row_adj(3, 4, row_adj_a).unwrap();
    let row_adj_b = vec![vec![0, 2], vec![1], vec![2], vec![0, 1]];
    let matrix_b = BinarySparseMatrix::from_row_adj(4, 4, row_adj_b).unwrap();
    let result = matrix_a.mul_mat(&matrix_b);
    let expected_row_adj = vec![vec![0, 1, 2], vec![1, 2], vec![0, 1, 2]];
    let expected = BinarySparseMatrix::from_row_adj(3, 4, expected_row_adj).unwrap();
    assert_eq!(result, expected);
}

#[test]
fn test_mul_zero_matrix() {
    let row_adj = vec![vec![0, 1], vec![1, 2], vec![2, 3]];
    let matrix = BinarySparseMatrix::from_row_adj(3, 4, row_adj).unwrap();
    let zero_matrix = BinarySparseMatrix::zeros(4, 5);
    let result = matrix.mul_mat(&zero_matrix);
    let expected = BinarySparseMatrix::zeros(3, 5);
    assert_eq!(result, expected);
}

#[test]
fn sparse_matrix_test_rank() {
    let row_adj = vec![vec![0, 1], vec![1, 2], vec![2, 3], vec![2, 3]];
    let matrix = BinarySparseMatrix::from_row_adj(4, 4, row_adj).unwrap();
    let rank = matrix.rank();
    assert_eq!(rank, 3);
}

#[test]
fn test_rank_equals_transpose_rank() {
    let row_adj = vec![vec![0, 1], vec![1, 2], vec![2, 3], vec![2, 3]];
    let matrix = BinarySparseMatrix::from_row_adj(4, 4, row_adj).unwrap();
    assert_eq!(matrix.rank(), matrix.transpose().rank());
    let wide = BinarySparseMatrix::from_row_adj(2, 9, vec![vec![0, 1, 2, 3, 4, 5], vec![3, 4, 5, 6, 7, 8]]).unwrap();
    assert_eq!(wide.rank(), wide.transpose().rank());
}

#[test]
fn test_sparse_is_linearly_independent() {
    let row_adj = vec![vec![0, 1], vec![1, 2], vec![2, 3]];
    let matrix = BinarySparseMatrix::from_row_adj(3, 4, row_adj).unwrap();
    assert!(matrix.is_linearly_independent());
    let dep = BinarySparseMatrix::from_row_adj(4, 4, vec![vec![0, 1], vec![1, 2], vec![2, 3], vec![2, 3]]).unwrap();
    assert!(!dep.is_linearly_independent());
}

#[test]
fn test_mul_bytes() {
    let row_adj = vec![vec![0, 1], vec![1, 2]];
    let matrix = BinarySparseMatrix::from_row_adj(2, 3, row_adj).unwrap();
    assert_eq!(matrix.mul_bytes(&vec![1, 0, 0]), vec![1, 0]);
    assert_eq!(matrix.mul_bytes(&vec![0, 1, 0]), vec![1, 1]);
    assert_eq!(matrix.mul_bytes(&vec![1, 1, 1]), vec![0, 0]);
    assert_eq!(matrix.mul_bytes(&vec![0, 0, 0]), vec![0, 0]);
}

#[test]
fn test_inner_product() {
    let a = bv(&[1, 0, 1, 1]);
    let b = bv(&[1, 1, 0, 1]);
    assert!(!inner_product(&a, &b));

    let c = bv(&[1, 1, 0, 0]);
    assert!(inner_product(&a, &c));
}

#[test]
fn bit_linear_algebra_test_rank() {
    let vectors = vec![bv(&[1, 0, 0, 1]), bv(&[0, 1, 1, 0]), bv(&[1, 1, 1, 1])];
    assert_eq!(rank(&vectors), 2);
    let dependent_vectors = vec![
        bv(&[1, 0, 0, 1]),
        bv(&[0, 1, 1, 0]),
        bv(&[1, 1, 1, 1]),
        bv(&[1, 1, 1, 1]),
    ];
    assert_eq!(rank(&dependent_vectors), 2);
}

#[test]
fn test_is_linearly_independent() {
    let independent_vectors = vec![bv(&[1, 0, 0, 1]), bv(&[0, 1, 1, 0]), bv(&[1, 1, 0, 1])];
    assert!(is_linearly_independent(&independent_vectors));
    let dependent_vectors = vec![
        bv(&[1, 0, 0, 1]),
        bv(&[0, 1, 1, 0]),
        bv(&[1, 1, 1, 1]),
        bv(&[1, 1, 1, 1]),
    ];
    assert!(!is_linearly_independent(&dependent_vectors));
}

#[test]
fn test_rank_empty() {
    let vectors: Vec<BitVector> = Vec::new();
    assert_eq!(rank(&vectors), 0);
}

#[test]
fn test_binary_dense_matrix_mul_bitvec() {
    let data = vec![bv(&[1, 0, 1]), bv(&[0, 1, 1]), bv(&[1, 1, 0])];
    let matrix = BinaryDenseMatrix::new(data).unwrap();
    let vec = bv(&[1, 0, 1]);
    let result = matrix.mul_vec(&vec);
    assert_eq!(result, bv(&[0, 1, 1]));
}

#[test]
fn test_binary_dense_matrix_mul_matrix() {
    let data_a = vec![bv(&[1, 0, 1]), bv(&[0, 1, 1])];
    let matrix_a = BinaryDenseMatrix::new(data_a).unwrap();

    let data_b = vec![bv(&[1, 1]), bv(&[0, 1]), bv(&[1, 0])];
    let matrix_b = BinaryDenseMatrix::new(data_b).unwrap();

    let result_matrix = matrix_a.mul_mat(&matrix_b);

    let expected_data = vec![bv(&[0, 1]), bv(&[1, 1])];
    let expected_matrix = BinaryDenseMatrix::new(expected_data).unwrap();

    assert_eq!(result_matrix, expected_matrix);
}

#[test]
fn test_binary_dense_matrix_mul_zero_matrix() {
    let data = vec![bv(&[1, 0, 1]), bv(&[0, 1, 1])];
    let matrix = BinaryDenseMatrix::new(data).unwrap();
    let zero_matrix = BinaryDenseMatrix::zeros(3, 4);
    let result = matrix.mul_mat(&zero_matrix);
    let expected = BinaryDenseMatrix::zeros(2, 4);
    assert_eq!(result, expected);
}

#[test]
fn test_binary_dense_matrix_mul_identity_matrix() {
    let data = vec![bv(&[1, 0, 1]), bv(&[0, 1, 1])];
    let matrix = BinaryDenseMatrix::new(data).unwrap();
    let identity_matrix = BinaryDenseMatrix::identity(3);
    let result = matrix.mul_mat(&identity_matrix);
    let expected = matrix.clone();
    assert_eq!(result, expected);
}

#[test]
fn test_binary_dense_matrix_shape_and_rank() {
    let data = vec![bv(&[1, 0, 0, 1]), bv(&[0, 1, 1, 0]), bv(&[1, 1, 1, 1])];
    let matrix = BinaryDenseMatrix::new(data).unwrap();
    assert_eq!(matrix.shape(), (3, 4));
    assert_eq!(matrix.rank(), 2);
    let transposed = matrix.transpose();
    assert_eq!(transposed.shape(), (4, 3));
    assert_eq!(transposed.rank(), 2);
    let bad = BinaryDenseMatrix::new(vec![bv(&[1, 0]), bv(&[1, 0, 1])]);
    assert_eq!(bad.unwrap_err(), QldpcError::ShapeMismatch);
}

#[test]
fn test_bitvector_xor() {
    let mut a = bv(&[1, 0, 1, 1]);
    let b = bv(&[0, 1, 1, 0]);
    a.xor_assign(&b);
    assert_eq!(a, bv(&[1, 1, 0, 1]));
}
