use qldpc_sim::bits::BitVector;
use qldpc_sim::code::binary_symplectic::BinarySymplecticVector;
use qldpc_sim::code::css_code::CssCode;
use qldpc_sim::code::error_vector::ErrorVector;
use qldpc_sim::code::paulis::{Paulis, Phase};
use qldpc_sim::code::quantum_code::QuantumCode as OldQuantumCode;
use qldpc_sim::code::stabilizer::StabilizerGroup;
use qldpc_sim::code::stabilizer_code::StabilizerCode;
use qldpc_sim::code::traits::QuantumCode;
use qldpc_sim::errors::QldpcError;
use qldpc_sim::math::sparse_matrix::BinarySparseMatrix;

fn bv(bits: &[u8]) -> BitVector {
    let mut v = BitVector::repeat(false, bits.len());
    for (i, &b) in bits.iter().enumerate() {
        if b != 0 {
            v.set(i, true);
        }
    }
    v
}

#[test]
fn test_symplectic_product() {
    let v1 = BinarySymplecticVector::new(bv(&[1, 0, 1]), bv(&[0, 1, 1])).unwrap();
    let v2 = BinarySymplecticVector::new(bv(&[0, 1, 1]), bv(&[1, 0, 1])).unwrap();
    assert!(!v1.symplectic_product(&v2));

    let v3 = BinarySymplecticVector::new(bv(&[0, 1, 1]), bv(&[1, 1, 0])).unwrap();
    assert!(v1.symplectic_product(&v3));
}

#[test]
fn test_symplectic_new_shape_mismatch() {
    let result = BinarySymplecticVector::new(bv(&[1, 0]), bv(&[0, 1, 1]));
    assert_eq!(result.unwrap_err(), QldpcError::ShapeMismatch);
}

#[test]
fn test_paulis_from_string() {
    let pauli_str = Paulis::from_stirng("+XZIY").unwrap();
    assert_eq!(pauli_str.num_qubits, 4);
    assert_eq!(pauli_str.phase, Phase::One);
    assert_eq!(
        pauli_str.binary_symplectic_vector.z_part().clone(),
        bv(&[0, 1, 0, 1])
    );
    assert_eq!(
        pauli_str.binary_symplectic_vector.x_part().clone(),
        bv(&[1, 0, 0, 1])
    );

    let pauli_str = Paulis::from_stirng("-iYZXI").unwrap();
    assert_eq!(pauli_str.num_qubits, 4);
    assert_eq!(pauli_str.phase, Phase::MinusI);
    assert_eq!(
        pauli_str.binary_symplectic_vector.z_part().clone(),
        bv(&[1, 1, 0, 0])
    );
    assert_eq!(
        pauli_str.binary_symplectic_vector.x_part().clone(),
        bv(&[1, 0, 1, 0])
    );

    let pauli_str = Paulis::from_stirng("IIXI").unwrap();
    assert_eq!(pauli_str.num_qubits, 4);
    assert_eq!(pauli_str.phase, Phase::One);
    assert_eq!(
        pauli_str.binary_symplectic_vector.z_part().clone(),
        bv(&[0, 0, 0, 0])
    );
    assert_eq!(
        pauli_str.binary_symplectic_vector.x_part().clone(),
        bv(&[0, 0, 1, 0])
    );
}

#[test]
fn test_paulis_from_string_invalid() {
    assert_eq!(
        Paulis::from_stirng("").unwrap_err(),
        QldpcError::InvalidPauliString
    );
    assert_eq!(
        Paulis::from_stirng("+").unwrap_err(),
        QldpcError::InvalidPauliString
    );
    assert_eq!(
        Paulis::from_stirng("XQZ").unwrap_err(),
        QldpcError::InvalidPauliString
    );
    assert_eq!(
        Paulis::from_stirng("-iXiZ").unwrap_err(),
        QldpcError::InvalidPauliString
    );
}

#[test]
fn test_paulis_from_string_prefix_only() {
    let bare_i = Paulis::from_stirng("i").unwrap();
    assert_eq!(bare_i.num_qubits, 0);
    assert_eq!(bare_i.phase, Phase::I);
    let plus_i = Paulis::from_stirng("+i").unwrap();
    assert_eq!(plus_i.num_qubits, 0);
    assert_eq!(plus_i.phase, Phase::I);
    let minus = Paulis::from_stirng("-Z").unwrap();
    assert_eq!(minus.num_qubits, 1);
    assert_eq!(minus.phase, Phase::MinusOne);
}

#[test]
fn test_paulis_new_shape_mismatch() {
    let result = Paulis::new(3, Phase::One, bv(&[0, 1]), bv(&[0, 1, 0]));
    assert_eq!(result.unwrap_err(), QldpcError::ShapeMismatch);
}

#[test]
fn test_phase_mul() {
    assert_eq!(Phase::I.mul(Phase::MinusI), Phase::One);
    assert_eq!(Phase::I.mul(Phase::I), Phase::MinusOne);
    assert_eq!(Phase::MinusOne.mul(Phase::MinusOne), Phase::One);
    assert_eq!(Phase::One.mul(Phase::MinusI), Phase::MinusI);
    assert_eq!(Phase::MinusOne.mul(Phase::I), Phase::MinusI);
}

#[test]
fn test_pauli_s_multiplication() {
    let pauli_str1 = Paulis::from_stirng("+XZIY").unwrap();
    let pauli_str2 = Paulis::from_stirng("-iYZXI").unwrap();
    let result = pauli_str1.mul(&pauli_str2);
    let answer = Paulis::from_stirng("+ZIXY").unwrap();
    assert_eq!(result, answer);

    let pauli_str3 = Paulis::from_stirng("IIXI").unwrap();
    let result2 = pauli_str1.mul(&pauli_str3);
    let answer2 = Paulis::from_stirng("+XZXY").unwrap();
    assert_eq!(result2, answer2);
}

#[test]
fn test_pauli_commutes() {
    let pauli_str1 = Paulis::from_stirng("+XZIY").unwrap();
    let pauli_str2 = Paulis::from_stirng("-iYZXI").unwrap();
    assert!(!pauli_str1.commutes(&pauli_str2));

    let pauli_str3 = Paulis::from_stirng("+IZII").unwrap();
    assert!(pauli_str1.commutes(&pauli_str3));
}

#[test]
fn test_pauli_identity() {
    let id = Paulis::identity(4);
    let p = Paulis::from_stirng("+XZIY").unwrap();
    assert_eq!(id.mul(&p), p);
    assert_eq!(p.mul(&id), p);
}

#[test]
fn test_error_vector_basics() {
    let ev = ErrorVector::new(bv(&[1, 0, 1]), bv(&[0, 1, 1])).unwrap();
    assert_eq!(ev.num_qubits(), 3);
    assert_eq!(ev.num_errors(), 3);
    let quiet = ErrorVector::new(bv(&[0, 0, 0]), bv(&[0, 0, 0])).unwrap();
    assert_eq!(quiet.num_errors(), 0);
    let mismatch = ErrorVector::new(bv(&[1]), bv(&[1, 0]));
    assert_eq!(mismatch.unwrap_err(), QldpcError::ShapeMismatch);
}

#[test]
fn test_error_vector_from_string() {
    let ev = ErrorVector::from_string("XIYZ").unwrap();
    assert_eq!(ev.x_part(), &bv(&[1, 0, 1, 0]));
    assert_eq!(ev.z_part(), &bv(&[0, 0, 1, 1]));
    assert_eq!(ev.num_errors(), 3);
    assert_eq!(
        ErrorVector::from_string("XB").unwrap_err(),
        QldpcError::InvalidPauliString
    );
}

#[test]
fn test_error_vector_from_u8vec() {
    let ev = ErrorVector::from_u8vec(vec![1, 0, 0], vec![0, 0, 1]).unwrap();
    assert_eq!(ev.x_part(), &bv(&[1, 0, 0]));
    assert_eq!(ev.z_part(), &bv(&[0, 0, 1]));
    assert_eq!(
        ErrorVector::from_u8vec(vec![1], vec![0, 1]).unwrap_err(),
        QldpcError::ShapeMismatch
    );
}

#[test]
fn test_error_vector_to_paulis() {
    let ev = ErrorVector::new(bv(&[1, 0, 1]), bv(&[0, 1, 1])).unwrap();
    let p = ev.to_paulis();
    assert_eq!(p.get_phase(), Phase::One);
    assert_eq!(p.get_x_part(), &bv(&[1, 0, 1]));
    assert_eq!(p.get_z_part(), &bv(&[0, 1, 1]));
    let back = ErrorVector::from_paulis(&p);
    assert_eq!(back, ev);
}

#[test]
fn test_stabilizer_code_new() {
    let generators = vec![
        Paulis::from_stirng("XZZXI").unwrap(),
        Paulis::from_stirng("IXZZX").unwrap(),
        Paulis::from_stirng("XIXZZ").unwrap(),
        Paulis::from_stirng("ZXIXZ").unwrap(),
    ];
    let stabilizer_code = StabilizerCode::from_generators("TestCode", generators).unwrap();
    assert_eq!(stabilizer_code.get_n(), 5);
    assert_eq!(stabilizer_code.get_k(), 1);
    assert_eq!(stabilizer_code.get_num_stabilizers(), 4);
}

#[test]
fn test_stabilizer_group_rejects_anticommuting() {
    let generators = vec![
        Paulis::from_stirng("XI").unwrap(),
        Paulis::from_stirng("ZI").unwrap(),
    ];
    assert_eq!(
        StabilizerGroup::new(generators).unwrap_err(),
        QldpcError::NonCommutingGenerators
    );
}

#[test]
fn test_stabilizer_group_rejects_dependent() {
    let generators = vec![
        Paulis::from_stirng("XX").unwrap(),
        Paulis::from_stirng("XX").unwrap(),
    ];
    assert_eq!(
        StabilizerGroup::new(generators).unwrap_err(),
        QldpcError::DependentGenerators
    );
}

#[test]
fn test_stabilizer_group_rejects_mixed_lengths() {
    let generators = vec![
        Paulis::from_stirng("XX").unwrap(),
        Paulis::from_stirng("XZX").unwrap(),
    ];
    assert_eq!(
        StabilizerGroup::new(generators).unwrap_err(),
        QldpcError::ShapeMismatch
    );
}

#[test]
fn test_five_qubit_code_group() {
    let generators = vec![
        Paulis::from_stirng("XZZXI").unwrap(),
        Paulis::from_stirng("IXZZX").unwrap(),
        Paulis::from_stirng("XIXZZ").unwrap(),
        Paulis::from_stirng("ZXIXZ").unwrap(),
    ];
    let group = StabilizerGroup::new(generators).unwrap();
    assert_eq!(group.get_num_generators(), 4);
    assert_eq!(group.get_num_qubits(), 5);

    // The group has 2^4 = 16 elements; YXXYI lies in it, XXXXX does not.
    let yxxyi = Paulis::from_stirng("YXXYI").unwrap();
    let xxxxx = Paulis::from_stirng("XXXXX").unwrap();
    let mut found_yxxyi = false;
    let mut found_xxxxx = false;
    for k in 0..16usize {
        let element = group.element(k);
        if element.get_x_part() == yxxyi.get_x_part()
            && element.get_z_part() == yxxyi.get_z_part()
        {
            found_yxxyi = true;
        }
        if element.get_x_part() == xxxxx.get_x_part()
            && element.get_z_part() == xxxxx.get_z_part()
        {
            found_xxxxx = true;
        }
    }
    assert!(found_yxxyi);
    assert!(!found_xxxxx);
}

#[test]
fn test_element_is_generator_product() {
    let generators = vec![
        Paulis::from_stirng("XZZXI").unwrap(),
        Paulis::from_stirng("IXZZX").unwrap(),
        Paulis::from_stirng("XIXZZ").unwrap(),
        Paulis::from_stirng("ZXIXZ").unwrap(),
    ];
    let group = StabilizerGroup::new(generators).unwrap();
    let gens = group.get_generators();
    assert_eq!(group.element(0), Paulis::identity(5));
    assert_eq!(group.element(1), Paulis::identity(5).mul(&gens[0]));
    assert_eq!(
        group.element(3),
        Paulis::identity(5).mul(&gens[0]).mul(&gens[1])
    );
    assert_eq!(
        group.element(5),
        Paulis::identity(5).mul(&gens[0]).mul(&gens[2])
    );
}

#[test]
fn test_group_elements_distinct() {
    let generators = vec![
        Paulis::from_stirng("XZZXI").unwrap(),
        Paulis::from_stirng("IXZZX").unwrap(),
        Paulis::from_stirng("XIXZZ").unwrap(),
        Paulis::from_stirng("ZXIXZ").unwrap(),
    ];
    let group = StabilizerGroup::new(generators).unwrap();
    // The group has 2^4 = 16 elements: no two indices give the same
    // symplectic form.
    for k1 in 0..16usize {
        for k2 in (k1 + 1)..16usize {
            let e1 = group.element(k1);
            let e2 = group.element(k2);
            assert!(
                e1.get_x_part() != e2.get_x_part() || e1.get_z_part() != e2.get_z_part()
            );
        }
    }
}

#[test]
fn test_stabilizer_closure() {
    let generators = vec![
        Paulis::from_stirng("XZZXI").unwrap(),
        Paulis::from_stirng("IXZZX").unwrap(),
        Paulis::from_stirng("XIXZZ").unwrap(),
        Paulis::from_stirng("ZXIXZ").unwrap(),
    ];
    let group = StabilizerGroup::new(generators).unwrap();
    for k in 0..16usize {
        let element = group.element(k);
        for g in group.get_generators() {
            assert!(element.commutes(g));
        }
    }
}

#[test]
fn test_css_code_new() {
    let hz_row_adj = vec![
        vec![0, 1],
        vec![1, 2],
        vec![3, 4],
        vec![4, 5],
        vec![6, 7],
        vec![7, 8],
    ];
    let hx_row_adj = vec![vec![0, 1, 2, 3, 4, 5], vec![3, 4, 5, 6, 7, 8]];
    let hz = BinarySparseMatrix::from_row_adj(6, 9, hz_row_adj).unwrap();
    let hx = BinarySparseMatrix::from_row_adj(2, 9, hx_row_adj).unwrap();
    let css_code = CssCode::from_parity_check_matrices("TestCSS", hz, hx).unwrap();
    assert_eq!(css_code.num_qubits(), 9);
    assert_eq!(css_code.k(), 1);
    assert_eq!(css_code.num_stabilizers(), 8);
}

#[test]
fn test_css_code_non_orthogonal() {
    let hz_row_adj = vec![vec![0, 1], vec![1, 2]];
    let hx_row_adj = vec![vec![1, 2], vec![2, 3]];
    let hz = BinarySparseMatrix::from_row_adj(2, 4, hz_row_adj).unwrap();
    let hx = BinarySparseMatrix::from_row_adj(2, 4, hx_row_adj).unwrap();
    let result = CssCode::from_parity_check_matrices("NonOrthogonalCSS", hz, hx);
    assert_eq!(result.unwrap_err(), QldpcError::NonOrthogonal);
}

#[test]
fn test_css_code_no_logical_qubits() {
    let hz_row_adj = vec![vec![0, 1], vec![1, 2], vec![2, 3]];
    let hx_row_adj = vec![vec![0, 1, 2, 3]];
    let hz = BinarySparseMatrix::from_row_adj(3, 4, hz_row_adj).unwrap();
    let hx = BinarySparseMatrix::from_row_adj(1, 4, hx_row_adj).unwrap();
    let result = CssCode::from_parity_check_matrices("NoLogicalQubitsCSS", hz, hx);
    assert_eq!(result.unwrap_err(), QldpcError::NoLogicalQubits);
}

#[test]
fn test_css_code_syndrome() {
    let hz_row_adj = vec![
        vec![0, 1],
        vec![1, 2],
        vec![3, 4],
        vec![4, 5],
        vec![6, 7],
        vec![7, 8],
    ];
    let hx_row_adj = vec![vec![0, 1, 2, 3, 4, 5], vec![3, 4, 5, 6, 7, 8]];
    let hz = BinarySparseMatrix::from_row_adj(6, 9, hz_row_adj).unwrap();
    let hx = BinarySparseMatrix::from_row_adj(2, 9, hx_row_adj).unwrap();
    let css_code = CssCode::from_parity_check_matrices("TestCSS", hz, hx).unwrap();
    let error_z = bv(&[1, 0, 0, 0, 0, 0, 0, 0, 0]);
    let error_x = bv(&[0, 1, 0, 0, 0, 0, 0, 0, 0]);
    let error_vector = ErrorVector::new(error_x, error_z).unwrap();
    let syndrome = css_code.syndrome(&error_vector);
    let expected_z_syndrome = bv(&[1, 1, 0, 0, 0, 0]);
    let expected_x_syndrome = bv(&[1, 0]);
    assert_eq!(syndrome.z_syndrome(), &expected_z_syndrome);
    assert_eq!(syndrome.x_syndrome(), &expected_x_syndrome);
}

#[test]
fn test_syndrome_linearity() {
    let hz_row_adj = vec![
        vec![0, 1],
        vec![1, 2],
        vec![3, 4],
        vec![4, 5],
        vec![6, 7],
        vec![7, 8],
    ];
    let hx_row_adj = vec![vec![0, 1, 2, 3, 4, 5], vec![3, 4, 5, 6, 7, 8]];
    let hz = BinarySparseMatrix::from_row_adj(6, 9, hz_row_adj).unwrap();
    let hx = BinarySparseMatrix::from_row_adj(2, 9, hx_row_adj).unwrap();
    let css_code = CssCode::from_parity_check_matrices("TestCSS", hz, hx).unwrap();

    let e = ErrorVector::new(bv(&[1, 0, 0, 0, 1, 0, 0, 0, 0]), bv(&[0, 1, 0, 0, 0, 0, 0, 1, 0]))
        .unwrap();
    let f = ErrorVector::new(bv(&[0, 1, 0, 0, 1, 0, 0, 0, 1]), bv(&[0, 0, 0, 1, 0, 0, 0, 1, 0]))
        .unwrap();
    let mut sum_x = e.x_part().clone();
    sum_x.xor_assign(f.x_part());
    let mut sum_z = e.z_part().clone();
    sum_z.xor_assign(f.z_part());
    let sum = ErrorVector::new(sum_x, sum_z).unwrap();

    let se = css_code.syndrome(&e);
    let sf = css_code.syndrome(&f);
    let ssum = css_code.syndrome(&sum);

    let mut expect_z = se.z_syndrome().clone();
    expect_z.xor_assign(sf.z_syndrome());
    let mut expect_x = se.x_syndrome().clone();
    expect_x.xor_assign(sf.x_syndrome());

    assert_eq!(ssum.z_syndrome(), &expect_z);
    assert_eq!(ssum.x_syndrome(), &expect_x);
}

#[test]
fn test_syndrome_accessors() {
    let s = qldpc_sim::code::error_vector::Syndrome::new(bv(&[1, 0]), bv(&[0, 1, 1]));
    assert_eq!(s.len(), 5);
    assert_eq!(s.num_stabilizers(), 5);
    assert_eq!(s.z_syndrome(), &bv(&[1, 0]));
    assert_eq!(s.x_syndrome(), &bv(&[0, 1, 1]));
}

#[test]
fn test_quantum_code_names() {
    let hz = BinarySparseMatrix::from_row_adj(2, 3, vec![vec![0, 1], vec![1, 2]]).unwrap();
    let hx = BinarySparseMatrix::zeros(0, 3);
    let css = CssCode::from_parity_check_matrices("Repetition", hz, hx).unwrap();
    assert_eq!(css.code_name(), "Repetition");
    assert_eq!(css.n(), 3);

    let generators = vec![
        Paulis::from_stirng("XZZXI").unwrap(),
        Paulis::from_stirng("IXZZX").unwrap(),
    ];
    let code = StabilizerCode::from_generators("Partial", generators).unwrap();
    assert_eq!(code.get_code_name(), "Partial");
    assert_eq!(code.get_n(), 5);
    assert_eq!(code.get_k(), 3);
}
