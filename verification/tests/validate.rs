use clf::clf::{
    Array, BitDepth, Lut1d, Lut3d, Operator, OperatorBitDepth, OperatorError, OperatorKind,
    ProcessList, Range, ValidationError,
};

fn bd(input: BitDepth, output: BitDepth) -> OperatorBitDepth {
    OperatorBitDepth { in_bit_depth: input, out_bit_depth: output }
}

fn samples(n: usize) -> Vec<u32> {
    vec![0.5f32.to_bits(); n]
}

fn valid_range() -> Range {
    Range {
        bit_depth: bd(BitDepth::F16, BitDepth::F32),
        min_in_value: 0.0f32.to_bits(),
        max_in_value: 1.0f32.to_bits(),
        min_out_value: 0.0f32.to_bits(),
        max_out_value: 2.0f32.to_bits(),
    }
}

fn valid_lut1d() -> Lut1d {
    Lut1d {
        bit_depth: bd(BitDepth::I10, BitDepth::F32),
        array: Array { dim: vec![2, 3], data: samples(6) },
    }
}

fn valid_lut3d() -> Lut3d {
    Lut3d {
        bit_depth: bd(BitDepth::I12, BitDepth::F32),
        array: Array { dim: vec![2, 2, 2, 3], data: samples(24) },
    }
}

#[test]
fn bit_depth_rejects_only_float_to_float() {
    assert_eq!(
        bd(BitDepth::F32, BitDepth::F32).validate(),
        Err(OperatorError::UnsupportedBitDepthCombination)
    );
    assert_eq!(bd(BitDepth::F32, BitDepth::F16).validate(), Ok(()));
    assert_eq!(bd(BitDepth::F16, BitDepth::F32).validate(), Ok(()));
    // The rule is literal: equal non-float depths pass, as do mismatched ones.
    assert_eq!(bd(BitDepth::I8, BitDepth::I8).validate(), Ok(()));
    assert_eq!(bd(BitDepth::I8, BitDepth::I16).validate(), Ok(()));
}

#[test]
fn lut1d_valid_shape_passes() {
    assert_eq!(valid_lut1d().validate(), Ok(()));
}

#[test]
fn lut1d_wrong_dim_arity_is_malformed_array() {
    let mut lut = valid_lut1d();
    lut.array.dim = vec![6];
    assert_eq!(lut.validate(), Err(OperatorError::MalformedArray));
    lut.array.dim = vec![2, 3, 1];
    assert_eq!(lut.validate(), Err(OperatorError::MalformedArray));
}

#[test]
fn lut1d_sample_count_mismatch_is_malformed_array() {
    let mut lut = valid_lut1d();
    lut.array.data = samples(5);
    assert_eq!(lut.validate(), Err(OperatorError::MalformedArray));
    lut.array.data = samples(7);
    assert_eq!(lut.validate(), Err(OperatorError::MalformedArray));
}

#[test]
fn lut1d_bit_depth_checked_first() {
    let mut lut = valid_lut1d();
    lut.bit_depth = bd(BitDepth::F32, BitDepth::F32);
    lut.array.dim = vec![6];
    assert_eq!(lut.validate(), Err(OperatorError::UnsupportedBitDepthCombination));
}

#[test]
fn lut3d_valid_shape_passes() {
    assert_eq!(valid_lut3d().validate(), Ok(()));
}

#[test]
fn lut3d_wrong_dim_arity_is_malformed_array() {
    let mut lut = valid_lut3d();
    lut.array.dim = vec![2, 2, 2];
    assert_eq!(lut.validate(), Err(OperatorError::MalformedArray));
}

#[test]
fn lut3d_non_cubic_is_malformed_shape() {
    let mut lut = valid_lut3d();
    lut.array.dim = vec![2, 3, 2, 3];
    assert_eq!(lut.validate(), Err(OperatorError::MalformedLut3dShape));
    lut.array.dim = vec![2, 2, 4, 3];
    assert_eq!(lut.validate(), Err(OperatorError::MalformedLut3dShape));
}

#[test]
fn lut3d_wrong_channel_count_is_malformed_shape() {
    let mut lut = valid_lut3d();
    lut.array.dim = vec![2, 2, 2, 4];
    assert_eq!(lut.validate(), Err(OperatorError::MalformedLut3dShape));
}

#[test]
fn lut3d_sample_count_mismatch_is_malformed_array() {
    let mut lut = valid_lut3d();
    lut.array.data = samples(23);
    assert_eq!(lut.validate(), Err(OperatorError::MalformedArray));
}

#[test]
fn operator_failure_carries_its_kind() {
    let mut range = valid_range();
    range.bit_depth = bd(BitDepth::F32, BitDepth::F32);
    assert_eq!(
        Operator::Range(range).validate(),
        Err(ValidationError::InvalidOperator {
            kind: OperatorKind::Range,
            cause: OperatorError::UnsupportedBitDepthCombination,
        })
    );

    let mut lut = valid_lut1d();
    lut.array.dim = vec![6];
    assert_eq!(
        Operator::Lut1D(lut).validate(),
        Err(ValidationError::InvalidOperator {
            kind: OperatorKind::Lut1d,
            cause: OperatorError::MalformedArray,
        })
    );
}

#[test]
fn valid_documents_pass_for_versions_up_to_three() {
    for version in [1, 2, 3] {
        let list = ProcessList {
            comp_clf_version: version,
            id: "pipeline".to_string(),
            operators: vec![
                Operator::Range(valid_range()),
                Operator::Lut1D(valid_lut1d()),
                Operator::Lut3D(valid_lut3d()),
            ],
        };
        assert_eq!(list.validate(), Ok(()));
        // The pipeline is left exactly as it was, in source order.
        assert!(matches!(list.operators[0], Operator::Range(_)));
        assert!(matches!(list.operators[1], Operator::Lut1D(_)));
        assert!(matches!(list.operators[2], Operator::Lut3D(_)));
        assert_eq!(list.operators.len(), 3);
    }
}

#[test]
fn version_above_three_is_rejected_first() {
    // Even with every operator valid, version 4 fails as unsupported.
    let list = ProcessList {
        comp_clf_version: 4,
        id: "pipeline".to_string(),
        operators: vec![Operator::Range(valid_range())],
    };
    assert_eq!(
        list.validate(),
        Err(ValidationError::UnsupportedVersion { version: 4 })
    );

    // And the version check comes before any operator check.
    let mut bad = valid_lut1d();
    bad.array.dim = vec![6];
    let list = ProcessList {
        comp_clf_version: 7,
        id: "pipeline".to_string(),
        operators: vec![Operator::Lut1D(bad)],
    };
    assert_eq!(
        list.validate(),
        Err(ValidationError::UnsupportedVersion { version: 7 })
    );
}

#[test]
fn first_failing_operator_decides_the_error() {
    let mut bad_lut1d = valid_lut1d();
    bad_lut1d.array.dim = vec![6];
    let mut bad_lut3d = valid_lut3d();
    bad_lut3d.array.dim = vec![2, 3, 2, 3];
    let list = ProcessList {
        comp_clf_version: 2,
        id: "pipeline".to_string(),
        operators: vec![
            Operator::Range(valid_range()),
            Operator::Lut1D(bad_lut1d),
            Operator::Lut3D(bad_lut3d),
        ],
    };
    assert_eq!(
        list.validate(),
        Err(ValidationError::InvalidOperator {
            kind: OperatorKind::Lut1d,
            cause: OperatorError::MalformedArray,
        })
    );
}

#[test]
fn empty_pipeline_passes() {
    let list = ProcessList {
        comp_clf_version: 1,
        id: "empty".to_string(),
        operators: vec![],
    };
    assert_eq!(list.validate(), Ok(()));
}
