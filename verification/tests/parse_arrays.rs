use clf::clf::{operator_kind_for_tag, OperatorKind};
use clf::parse::{parse_u32_array, split_tokens};

#[test]
fn parses_space_separated_unsigned_integers_in_order() {
    assert_eq!(parse_u32_array("1 2 3"), Ok(vec![1, 2, 3]));
}

#[test]
fn empty_and_whitespace_only_input_yield_empty_sequences() {
    assert_eq!(parse_u32_array(""), Ok(vec![]));
    assert_eq!(parse_u32_array(" \t\r\n "), Ok(vec![]));
}

#[test]
fn first_unparsable_token_aborts_and_is_named() {
    let err = parse_u32_array("1 a 3").unwrap_err();
    assert_eq!(err.token, b"a".to_vec());
    assert_eq!(err.index, 1);

    let err = parse_u32_array("1 x 2 y").unwrap_err();
    assert_eq!(err.token, b"x".to_vec());
    assert_eq!(err.index, 1);
}

#[test]
fn runs_of_mixed_whitespace_separate_tokens() {
    assert_eq!(parse_u32_array("10 \t 20\n30"), Ok(vec![10, 20, 30]));
    assert_eq!(parse_u32_array("  7  "), Ok(vec![7]));
}

#[test]
fn leading_plus_is_accepted_as_rust_unsigned_parsing_does() {
    assert_eq!(parse_u32_array("+7 8"), Ok(vec![7, 8]));
    // A bare sign has no digits behind it.
    let err = parse_u32_array("+").unwrap_err();
    assert_eq!(err.token, b"+".to_vec());
}

#[test]
fn values_outside_u32_range_fail() {
    assert_eq!(parse_u32_array("4294967295"), Ok(vec![u32::MAX]));
    let err = parse_u32_array("4294967296").unwrap_err();
    assert_eq!(err.token, b"4294967296".to_vec());
    assert_eq!(err.index, 0);
}

#[test]
fn decimals_and_signs_are_not_unsigned_integers() {
    assert!(parse_u32_array("1.5").is_err());
    assert!(parse_u32_array("-3").is_err());
    assert_eq!(parse_u32_array("007"), Ok(vec![7]));
}

#[test]
fn split_tokens_keeps_source_order_and_bytes() {
    let toks = split_tokens("ab  cd\n e");
    assert_eq!(toks, vec![b"ab".to_vec(), b"cd".to_vec(), b"e".to_vec()]);
    assert_eq!(split_tokens(""), Vec::<Vec<u8>>::new());
    assert_eq!(split_tokens("1.5 2.5"), vec![b"1.5".to_vec(), b"2.5".to_vec()]);
}

#[test]
fn known_operator_tags_map_to_their_kinds() {
    assert_eq!(operator_kind_for_tag("Range"), Ok(OperatorKind::Range));
    assert_eq!(operator_kind_for_tag("LUT1D"), Ok(OperatorKind::Lut1d));
    assert_eq!(operator_kind_for_tag("LUT3D"), Ok(OperatorKind::Lut3d));
}

#[test]
fn unrecognized_operator_tags_are_rejected_not_skipped() {
    let err = operator_kind_for_tag("Matrix").unwrap_err();
    assert_eq!(err.tag, "Matrix");
    assert!(operator_kind_for_tag("LUT2D").is_err());
    assert!(operator_kind_for_tag("range").is_err());
    assert!(operator_kind_for_tag("").is_err());
}
