//! The CLF document model and its structural validation rules.
//!
//! A document is a `ProcessList`: a format version, an identifier, and an
//! ordered pipeline of operators. Each operator carries an input/output
//! bit-depth pair; LUT operators additionally carry a numeric array whose
//! `dim` attribute describes its shape. Validation checks each operator in
//! pipeline order and reports the first rule violated.

use vstd::prelude::*;
use vstd::string::StringSliceAdditionalSpecFns;

verus! {

/// A sample representation at one pipeline stage: fixed-point integer widths
/// or 16/32-bit floating point.
#[derive(Debug, Clone, Copy, PartialEq, Eq, Structural)]
pub enum BitDepth {
    I8,
    I10,
    I12,
    I16,
    F16,
    F32,
}

/// The input/output sample representations attached to every operator.
#[derive(Debug, Clone, Copy, PartialEq, Eq, Structural)]
pub struct OperatorBitDepth {
    pub in_bit_depth: BitDepth,
    pub out_bit_depth: BitDepth,
}

/// The kind of operator inside which a validation rule failed.
#[derive(Debug, Clone, Copy, PartialEq, Eq, Structural)]
pub enum OperatorKind {
    Range,
    Lut1d,
    Lut3d,
}

/// A structural rule violated by a single operator.
#[derive(Debug, Clone, Copy, PartialEq, Eq, Structural)]
pub enum OperatorError {
    /// The input/output bit-depth pair is not accepted.
    UnsupportedBitDepthCombination,
    /// The `dim` attribute has the wrong arity, or the product of its
    /// entries differs from the number of data samples.
    MalformedArray,
    /// A 3D LUT is not cubic, or its channel count is not 3.
    MalformedLut3dShape,
}

/// A rule violated by a document as a whole.
#[derive(Debug, Clone, Copy, PartialEq, Eq, Structural)]
pub enum ValidationError {
    /// The document declares a CLF version this model does not cover.
    UnsupportedVersion { version: u32 },
    /// An operator failed one of its structural rules; `kind` says which
    /// operator kind it was.
    InvalidOperator { kind: OperatorKind, cause: OperatorError },
}

/// The bit-depth pair rule: the one rejected combination is a 32-bit float
/// input together with a 32-bit float output; every other pair passes.
pub open spec fn bit_depth_ok(d: OperatorBitDepth) -> bool {
    !(d.in_bit_depth == BitDepth::F32 && d.out_bit_depth == BitDepth::F32)
}

pub open spec fn spec_validate_bit_depth(d: OperatorBitDepth) -> Result<(), OperatorError> {
    if bit_depth_ok(d) {
        Ok(())
    } else {
        Err(OperatorError::UnsupportedBitDepthCombination)
    }
}

impl OperatorBitDepth {
    /// Checks the bit-depth pair rule stated by [`bit_depth_ok`].
    pub fn validate(&self) -> (r: Result<(), OperatorError>)
        ensures
            r == spec_validate_bit_depth(*self),
            r is Ok <==> bit_depth_ok(*self),
    {
        if self.in_bit_depth != self.out_bit_depth || self.out_bit_depth != BitDepth::F32 {
            Ok(())
        } else {
            Err(OperatorError::UnsupportedBitDepthCombination)
        }
    }
}

/// A LUT's numeric payload: `dim` is the shape, `data` the samples. Each
/// sample is a 32-bit float carried as its IEEE-754 bit pattern, so the
/// model stays plain data; shape checks only ever look at how many samples
/// there are.
#[derive(Debug, Clone, PartialEq)]
pub struct Array {
    pub dim: Vec<u32>,
    pub data: Vec<u32>,
}

/// The mathematical product of all shape entries: the number of samples a
/// well-formed array must hold.
pub open spec fn dim_product(dim: Seq<u32>) -> nat
    decreases dim.len(),
{
    if dim.len() == 0 {
        1
    } else {
        (dim[0] as nat) * dim_product(dim.skip(1))
    }
}

/// A range remap: a bit-depth pair plus the four bounds of its input and
/// output domains. The bounds are 32-bit floats carried as their IEEE-754
/// bit patterns; no structural rule looks inside them.
#[derive(Debug, Clone, Copy, PartialEq, Eq, Structural)]
pub struct Range {
    pub bit_depth: OperatorBitDepth,
    pub min_in_value: u32,
    pub max_in_value: u32,
    pub min_out_value: u32,
    pub max_out_value: u32,
}

/// A one-dimensional LUT: `dim` must be `[size, channels]` and the array
/// must hold `size * channels` samples.
#[derive(Debug, Clone, PartialEq)]
pub struct Lut1d {
    pub bit_depth: OperatorBitDepth,
    pub array: Array,
}

/// A three-dimensional LUT: `dim` must be `[a, a, a, 3]` (cubic, RGB) and
/// the array must hold `a * a * a * 3` samples.
#[derive(Debug, Clone, PartialEq)]
pub struct Lut3d {
    pub bit_depth: OperatorBitDepth,
    pub array: Array,
}

/// A range remap passes exactly when its bit-depth pair does; the four
/// bounds are not independently validated.
pub open spec fn range_ok(r: Range) -> bool {
    bit_depth_ok(r.bit_depth)
}

pub open spec fn lut1d_ok(l: Lut1d) -> bool {
    &&& bit_depth_ok(l.bit_depth)
    &&& l.array.dim@.len() == 2
    &&& dim_product(l.array.dim@) == l.array.data@.len()
}

pub open spec fn lut3d_ok(l: Lut3d) -> bool {
    &&& bit_depth_ok(l.bit_depth)
    &&& l.array.dim@.len() == 4
    &&& l.array.dim@[0] == l.array.dim@[1]
    &&& l.array.dim@[0] == l.array.dim@[2]
    &&& l.array.dim@[3] == 3
    &&& dim_product(l.array.dim@) == l.array.data@.len()
}

/// The result of checking a 1D LUT, with its checks in fixed order: the
/// bit-depth pair, then the shape arity, then the sample count; the first
/// failure decides the error.
pub open spec fn spec_validate_lut1d(l: Lut1d) -> Result<(), OperatorError> {
    if !bit_depth_ok(l.bit_depth) {
        Err(OperatorError::UnsupportedBitDepthCombination)
    } else if l.array.dim@.len() != 2 {
        Err(OperatorError::MalformedArray)
    } else if dim_product(l.array.dim@) != l.array.data@.len() {
        Err(OperatorError::MalformedArray)
    } else {
        Ok(())
    }
}

/// The result of checking a 3D LUT, with its checks in fixed order: the
/// bit-depth pair, the shape arity, the cubic rule, the channel count,
/// then the sample count; the first failure decides the error.
pub open spec fn spec_validate_lut3d(l: Lut3d) -> Result<(), OperatorError> {
    if !bit_depth_ok(l.bit_depth) {
        Err(OperatorError::UnsupportedBitDepthCombination)
    } else if l.array.dim@.len() != 4 {
        Err(OperatorError::MalformedArray)
    } else if l.array.dim@[0] != l.array.dim@[1] || l.array.dim@[0] != l.array.dim@[2] {
        Err(OperatorError::MalformedLut3dShape)
    } else if l.array.dim@[3] != 3 {
        Err(OperatorError::MalformedLut3dShape)
    } else if dim_product(l.array.dim@) != l.array.data@.len() {
        Err(OperatorError::MalformedArray)
    } else {
        Ok(())
    }
}

proof fn lemma_dim_product2(dim: Seq<u32>)
    requires
        dim.len() == 2,
    ensures
        dim_product(dim) == dim[0] * dim[1],
{
    let s1 = dim.skip(1);
    assert(s1.skip(1).len() == 0);
    assert(dim_product(s1.skip(1)) == 1);
    assert(dim_product(s1) == (s1[0] as nat) * dim_product(s1.skip(1)));
    assert(dim_product(dim) == (dim[0] as nat) * dim_product(s1));
    assert(s1[0] == dim[1]);
}

proof fn lemma_dim_product4(dim: Seq<u32>)
    requires
        dim.len() == 4,
    ensures
        dim_product(dim) == dim[0] * (dim[1] * (dim[2] * dim[3])),
{
    let s1 = dim.skip(1);
    let s2 = s1.skip(1);
    let s3 = s2.skip(1);
    assert(s3.skip(1).len() == 0);
    assert(dim_product(s3.skip(1)) == 1);
    assert(dim_product(s3) == (s3[0] as nat) * dim_product(s3.skip(1)));
    assert(dim_product(s2) == (s2[0] as nat) * dim_product(s3));
    assert(dim_product(s1) == (s1[0] as nat) * dim_product(s2));
    assert(dim_product(dim) == (dim[0] as nat) * dim_product(s1));
    assert(s1[0] == dim[1] && s2[0] == dim[2] && s3[0] == dim[3]);
}

impl Lut1d {
    /// Checks a 1D LUT as [`spec_validate_lut1d`] states, accepting it
    /// exactly when [`lut1d_ok`] holds.
    pub fn validate(&self) -> (r: Result<(), OperatorError>)
        ensures
            r == spec_validate_lut1d(*self),
            r is Ok <==> lut1d_ok(*self),
    {
        self.bit_depth.validate()?;

        if self.array.dim.len() != 2 {
            return Err(OperatorError::MalformedArray);
        }

        let d0: u64 = self.array.dim[0] as u64;
        let d1: u64 = self.array.dim[1] as u64;
        proof {
            assert(d0 * d1 <= 0xffff_ffff * 0xffff_ffff) by (nonlinear_arith)
                requires
                    d0 <= 0xffff_ffff,
                    d1 <= 0xffff_ffff,
            ;
            lemma_dim_product2(self.array.dim@);
        }
        let product: u64 = d0 * d1;
        if product != self.array.data.len() as u64 {
            return Err(OperatorError::MalformedArray);
        }
        Ok(())
    }
}

impl Lut3d {
    /// Checks a 3D LUT as [`spec_validate_lut3d`] states, accepting it
    /// exactly when [`lut3d_ok`] holds.
    pub fn validate(&self) -> (r: Result<(), OperatorError>)
        ensures
            r == spec_validate_lut3d(*self),
            r is Ok <==> lut3d_ok(*self),
    {
        self.bit_depth.validate()?;

        if self.array.dim.len() != 4 {
            return Err(OperatorError::MalformedArray);
        }
        if self.array.dim[0] != self.array.dim[1] || self.array.dim[0] != self.array.dim[2] {
            return Err(OperatorError::MalformedLut3dShape);
        }
        if self.array.dim[3] != 3 {
            return Err(OperatorError::MalformedLut3dShape);
        }

        let d0: u64 = self.array.dim[0] as u64;
        let d1: u64 = self.array.dim[1] as u64;
        let d2: u64 = self.array.dim[2] as u64;
        let d3: u64 = self.array.dim[3] as u64;
        proof {
            assert(d2 * d3 <= 0xffff_ffff * 0xffff_ffff) by (nonlinear_arith)
                requires
                    d2 <= 0xffff_ffff,
                    d3 <= 0xffff_ffff,
            ;
        }
        let inner: u64 = d2 * d3;
        proof {
            assert((d1 as u128) * (inner as u128) <= 0xffff_ffff * (0xffff_ffff * 0xffff_ffff))
                by (nonlinear_arith)
                requires
                    d1 <= 0xffff_ffff,
                    inner <= 0xffff_ffff * 0xffff_ffff,
            ;
        }
        let mid: u128 = (d1 as u128) * (inner as u128);
        proof {
            assert((d0 as u128) * mid <= 0xffff_ffff * (0xffff_ffff * (0xffff_ffff
                * 0xffff_ffff))) by (nonlinear_arith)
                requires
                    d0 <= 0xffff_ffff,
                    mid <= 0xffff_ffff * (0xffff_ffff * 0xffff_ffff),
            ;
            lemma_dim_product4(self.array.dim@);
        }
        let product: u128 = (d0 as u128) * mid;
        if product != self.array.data.len() as u128 {
            return Err(OperatorError::MalformedArray);
        }
        Ok(())
    }
}

/// An element tag that names no operator kind this model covers.
#[derive(Debug, Clone, PartialEq)]
pub struct UnknownOperator {
    pub tag: String,
}

/// The UTF-8 bytes of the element tag that introduces a range remap.
pub open spec fn range_tag() -> Seq<u8> {
    seq![82u8, 97, 110, 103, 101]  // the ASCII bytes of "Range"
}

/// The UTF-8 bytes of the element tag that introduces a 1D LUT.
pub open spec fn lut1d_tag() -> Seq<u8> {
    seq![76u8, 85, 84, 49, 68]  // the ASCII bytes of "LUT1D"
}

/// The UTF-8 bytes of the element tag that introduces a 3D LUT.
pub open spec fn lut3d_tag() -> Seq<u8> {
    seq![76u8, 85, 84, 51, 68]  // the ASCII bytes of "LUT3D"
}

/// The dispatch rule for the children of a `ProcessList` element: the tags
/// `Range`, `LUT1D` and `LUT3D` name their operator kinds, and any other
/// tag is rejected outright, carrying the tag back in the error.
pub fn operator_kind_for_tag(tag: &str) -> (r: Result<OperatorKind, UnknownOperator>)
    ensures
        match r {
            Ok(k) => {
                ||| (tag.spec_bytes() == range_tag() && k == OperatorKind::Range)
                ||| (tag.spec_bytes() == lut1d_tag() && k == OperatorKind::Lut1d)
                ||| (tag.spec_bytes() == lut3d_tag() && k == OperatorKind::Lut3d)
            },
            Err(e) => {
                &&& tag.spec_bytes() != range_tag()
                &&& tag.spec_bytes() != lut1d_tag()
                &&& tag.spec_bytes() != lut3d_tag()
                &&& e.tag@ == tag@
            },
        },
{
    let b: &[u8] = tag.as_bytes();
    if b.len() == 5 {
        if b[0] == 82u8 && b[1] == 97 && b[2] == 110 && b[3] == 103 && b[4] == 101 {
            proof {
                assert(b@ =~= range_tag());
            }
            return Ok(OperatorKind::Range);
        }
        if b[0] == 76u8 && b[1] == 85 && b[2] == 84 && b[4] == 68 {
            if b[3] == 49 {
                proof {
                    assert(b@ =~= lut1d_tag());
                }
                return Ok(OperatorKind::Lut1d);
            }
            if b[3] == 51 {
                proof {
                    assert(b@ =~= lut3d_tag());
                }
                return Ok(OperatorKind::Lut3d);
            }
        }
    }
    proof {
        assert(b@ != range_tag() && b@ != lut1d_tag() && b@ != lut3d_tag()) by {
            if b@ == range_tag() {
                assert(b@.len() == 5 && b@[0] == 82u8 && b@[1] == 97 && b@[2] == 110
                    && b@[3] == 103 && b@[4] == 101);
            }
            if b@ == lut1d_tag() {
                assert(b@.len() == 5 && b@[0] == 76u8 && b@[1] == 85 && b@[2] == 84
                    && b@[3] == 49 && b@[4] == 68);
            }
            if b@ == lut3d_tag() {
                assert(b@.len() == 5 && b@[0] == 76u8 && b@[1] == 85 && b@[2] == 84
                    && b@[3] == 51 && b@[4] == 68);
            }
        }
    }
    Err(UnknownOperator { tag: tag.to_owned() })
}

/// One stage of the pipeline: the closed set of operator kinds this model
/// covers. Element tags outside this set are rejected by
/// [`operator_kind_for_tag`], never silently skipped.
#[derive(Debug, Clone, PartialEq)]
pub enum Operator {
    Range(Range),
    Lut1D(Lut1d),
    Lut3D(Lut3d),
}

/// The document root: the declared CLF version, an identifier, and the
/// operator pipeline in source order.
#[derive(Debug, Clone, PartialEq)]
pub struct ProcessList {
    pub comp_clf_version: u32,
    pub id: String,
    pub operators: Vec<Operator>,
}

/// Attaches the operator kind to a per-operator failure, as the
/// pipeline-level check reports it.
pub open spec fn with_kind(
    kind: OperatorKind,
    r: Result<(), OperatorError>,
) -> Result<(), ValidationError> {
    match r {
        Ok(()) => Ok(()),
        Err(e) => Err(ValidationError::InvalidOperator { kind, cause: e }),
    }
}

pub open spec fn operator_ok(op: Operator) -> bool {
    match op {
        Operator::Range(r) => range_ok(r),
        Operator::Lut1D(l) => lut1d_ok(l),
        Operator::Lut3D(l) => lut3d_ok(l),
    }
}

/// The result of checking one operator: its kind's own check, with the
/// kind attached to any failure.
pub open spec fn spec_validate_operator(op: Operator) -> Result<(), ValidationError> {
    match op {
        Operator::Range(r) => with_kind(
            OperatorKind::Range,
            spec_validate_bit_depth(r.bit_depth),
        ),
        Operator::Lut1D(l) => with_kind(OperatorKind::Lut1d, spec_validate_lut1d(l)),
        Operator::Lut3D(l) => with_kind(OperatorKind::Lut3d, spec_validate_lut3d(l)),
    }
}

/// The result of checking a pipeline in order: the first operator that
/// fails decides the error; an empty pipeline passes.
pub open spec fn spec_validate_operators(ops: Seq<Operator>) -> Result<(), ValidationError>
    decreases ops.len(),
{
    if ops.len() == 0 {
        Ok(())
    } else {
        match spec_validate_operator(ops[0]) {
            Err(e) => Err(e),
            Ok(()) => spec_validate_operators(ops.skip(1)),
        }
    }
}

pub open spec fn process_list_ok(p: ProcessList) -> bool {
    &&& p.comp_clf_version <= 3
    &&& forall|i: int| 0 <= i < p.operators@.len() ==> operator_ok(#[trigger] p.operators@[i])
}

/// The result of checking a whole document: the version bound first,
/// independent of the operators, then the pipeline in order.
pub open spec fn spec_validate_process_list(p: ProcessList) -> Result<(), ValidationError> {
    if p.comp_clf_version > 3 {
        Err(ValidationError::UnsupportedVersion { version: p.comp_clf_version })
    } else {
        spec_validate_operators(p.operators@)
    }
}

/// The pipeline check passes exactly when every operator individually
/// passes; which operator fails first only picks the reported error.
pub proof fn lemma_validate_operators_ok(ops: Seq<Operator>)
    ensures
        spec_validate_operators(ops) is Ok <==> (forall|i: int|
            0 <= i < ops.len() ==> operator_ok(#[trigger] ops[i])),
    decreases ops.len(),
{
    if ops.len() > 0 {
        let tail = ops.skip(1);
        lemma_validate_operators_ok(tail);
        assert(forall|i: int| 0 <= i < tail.len() ==> tail[i] == ops[i + 1]);
        if spec_validate_operators(ops) is Ok {
            assert(spec_validate_operator(ops[0]) is Ok);
            assert(spec_validate_operators(tail) is Ok);
            assert forall|i: int| 0 <= i < ops.len() implies operator_ok(#[trigger] ops[i]) by {
                if i == 0 {
                    assert(operator_ok(ops[0]));
                } else {
                    assert(tail[i - 1] == ops[i]);
                    assert(operator_ok(tail[i - 1]));
                }
            }
        } else {
            assert(!(forall|i: int| 0 <= i < ops.len() ==> operator_ok(#[trigger] ops[i]))) by {
                if (forall|i: int| 0 <= i < ops.len() ==> operator_ok(#[trigger] ops[i])) {
                    assert(operator_ok(ops[0]));
                    assert forall|j: int| 0 <= j < tail.len() implies operator_ok(
                        #[trigger] tail[j],
                    ) by {
                        assert(tail[j] == ops[j + 1]);
                        assert(operator_ok(ops[j + 1]));
                    }
                    assert(spec_validate_operators(tail) is Ok);
                    assert(false);
                }
            }
        }
    }
}

/// A document that declares a version above 3 is rejected as an
/// unsupported version carrying that version, whatever its operators hold.
pub proof fn lemma_version_rejected(p: ProcessList)
    requires
        p.comp_clf_version > 3,
    ensures
        spec_validate_process_list(p) == Err::<(), ValidationError>(
            ValidationError::UnsupportedVersion { version: p.comp_clf_version },
        ),
{
}

/// A structurally valid document — version at most 3 and every operator
/// individually valid — passes validation, and only such a document does.
pub proof fn lemma_valid_document_passes(p: ProcessList)
    ensures
        spec_validate_process_list(p) is Ok <==> process_list_ok(p),
{
    lemma_validate_operators_ok(p.operators@);
}

/// A 1D LUT whose `dim` does not have exactly 2 entries is rejected as a
/// malformed array, provided its bit-depth pair passes (a failing pair is
/// reported first).
pub proof fn lemma_lut1d_wrong_arity(l: Lut1d)
    requires
        bit_depth_ok(l.bit_depth),
        l.array.dim@.len() != 2,
    ensures
        spec_validate_lut1d(l) == Err::<(), OperatorError>(OperatorError::MalformedArray),
{
}

/// A 1D LUT with `dim = [n, 3]` whose data length is not `3 * n` is
/// rejected as a malformed array, provided its bit-depth pair passes.
pub proof fn lemma_lut1d_wrong_sample_count(l: Lut1d)
    requires
        bit_depth_ok(l.bit_depth),
        l.array.dim@.len() == 2,
        l.array.dim@[1] == 3,
        l.array.data@.len() != 3 * l.array.dim@[0],
    ensures
        spec_validate_lut1d(l) == Err::<(), OperatorError>(OperatorError::MalformedArray),
{
    lemma_dim_product2(l.array.dim@);
}

/// A 3D LUT whose four-entry shape is not cubic in its first three
/// entries is rejected as a malformed 3D LUT shape, provided its
/// bit-depth pair passes.
pub proof fn lemma_lut3d_not_cubic(l: Lut3d)
    requires
        bit_depth_ok(l.bit_depth),
        l.array.dim@.len() == 4,
        l.array.dim@[0] != l.array.dim@[1] || l.array.dim@[0] != l.array.dim@[2],
    ensures
        spec_validate_lut3d(l) == Err::<(), OperatorError>(OperatorError::MalformedLut3dShape),
{
}

/// A 3D LUT whose fourth shape entry is not 3 is rejected as a malformed
/// 3D LUT shape, provided its bit-depth pair passes; whether or not the
/// shape is also non-cubic, the reported error is the same.
pub proof fn lemma_lut3d_wrong_channel_count(l: Lut3d)
    requires
        bit_depth_ok(l.bit_depth),
        l.array.dim@.len() == 4,
        l.array.dim@[3] != 3,
    ensures
        spec_validate_lut3d(l) == Err::<(), OperatorError>(OperatorError::MalformedLut3dShape),
{
}

impl Operator {
    /// Checks one operator as [`spec_validate_operator`] states: the check
    /// of its own kind, with the kind attached to any failure.
    pub fn validate(&self) -> (r: Result<(), ValidationError>)
        ensures
            r == spec_validate_operator(*self),
            r is Ok <==> operator_ok(*self),
    {
        match self {
            Operator::Range(range) => match range.bit_depth.validate() {
                Ok(()) => Ok(()),
                Err(e) => Err(ValidationError::InvalidOperator {
                    kind: OperatorKind::Range,
                    cause: e,
                }),
            },
            Operator::Lut1D(lut1d) => match lut1d.validate() {
                Ok(()) => Ok(()),
                Err(e) => Err(ValidationError::InvalidOperator {
                    kind: OperatorKind::Lut1d,
                    cause: e,
                }),
            },
            Operator::Lut3D(lut3d) => match lut3d.validate() {
                Ok(()) => Ok(()),
                Err(e) => Err(ValidationError::InvalidOperator {
                    kind: OperatorKind::Lut3d,
                    cause: e,
                }),
            },
        }
    }
}

impl ProcessList {
    /// Checks a document as [`spec_validate_process_list`] states: the
    /// version bound first, then each operator in pipeline order, stopping
    /// at the first failure. Accepts exactly when [`process_list_ok`]
    /// holds.
    pub fn validate(&self) -> (r: Result<(), ValidationError>)
        ensures
            r == spec_validate_process_list(*self),
            r is Ok <==> process_list_ok(*self),
    {
        proof {
            lemma_validate_operators_ok(self.operators@);
        }
        if self.comp_clf_version > 3 {
            return Err(ValidationError::UnsupportedVersion { version: self.comp_clf_version });
        }

        let ops = &self.operators;
        let n: usize = ops.len();
        let mut i: usize = 0;
        proof {
            assert(ops@.skip(0) =~= ops@);
        }
        while i < n
            invariant
                n == ops@.len(),
                0 <= i <= n,
                ops == self.operators,
                self.comp_clf_version <= 3,
                spec_validate_operators(ops@.skip(i as int)) == spec_validate_operators(ops@),
            decreases n - i,
        {
            let r = ops[i].validate();
            proof {
                let rest = ops@.skip(i as int);
                assert(rest.len() > 0);
                assert(rest[0] == ops@[i as int]);
                assert(rest.skip(1) =~= ops@.skip(i as int + 1));
            }
            if let Err(e) = r {
                return Err(e);
            }
            i = i + 1;
        }
        assert(ops@.skip(n as int).len() == 0);
        Ok(())
    }
}

} // verus!
