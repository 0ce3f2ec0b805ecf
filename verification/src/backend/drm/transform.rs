//! Matching color transforms against color pipelines.
//!
//! A transform is resolved against a pipeline in two steps. First a plan is made: which property
//! of which operation gets which value, and which matrices have to be uploaded. Once the
//! matrices are uploaded, their blob ids complete the plan.

use vstd::prelude::*;

use crate::backend::drm::colorop::{
    ColorOp, ColorOpKind, ColorPipeline, Curve1DType, KindModel, OpModel,
};
use crate::backend::drm::fixed_point::{to_s31_32, CTM_3X4_IDENTITY, ONE};
use crate::backend::drm::fixed_point;

verus! {

/// A parametric color transform to apply to a plane's pixels during scanout.
///
/// Semantically the transform is `encode(ctm × (multiplier × decode(pixel)))`: the pixel is
/// decoded to linear light, scaled, multiplied by a 3x4 matrix and re-encoded. Each stage is
/// optional.
///
/// Linear-light values use the scale of the kernel's `PQ 125` curves: 1.0 corresponds to 80
/// cd/m² and 125.0 to 10,000 cd/m² for the PQ curves, while the SDR curves map \[0, 1\]
/// electrical to \[0, 1\] linear.
///
/// Numbers are given by the bits of their double-precision form.
#[derive(Debug, Clone, Copy)]
pub struct ScanoutColorTransform {
    /// The curve decoding the pixel values to linear light, or `None` if the content is already
    /// linear.
    pub decode: Option<Curve1DType>,
    /// A gain applied to the linear pixel values; 1.0 is the identity.
    pub multiplier: u64,
    /// A 3x4 matrix applied to the linear pixel values, in row-major order with the fourth
    /// column an offset, or `None` for the identity.
    pub ctm: Option<[u64; 12]>,
    /// The curve re-encoding the linear pixel values, or `None` to keep them linear.
    pub encode: Option<Curve1DType>,
}

impl Default for ScanoutColorTransform {
    fn default() -> (transform: Self)
        ensures
            transform.leaves_pixels_alone(),
    {
        ScanoutColorTransform::identity()
    }
}

/// The stages of a transform that have no operation yet, in application order.
#[derive(Clone, Copy)]
pub struct Stages {
    pub decode: Option<Curve1DType>,
    pub multiplier: Option<u64>,
    pub ctm: Option<[u64; 12]>,
    pub encode: Option<Curve1DType>,
}

/// What an operation is used for.
pub enum Placement {
    /// A curve, and the value that selects it.
    Curve(Curve1DType, u64),
    /// A gain.
    Gain(u64),
    /// A gain followed by a matrix.
    Matrix(u64, [u64; 12]),
    /// Nothing.
    Idle,
}

/// Something that is done to the pixels.
pub enum Atom {
    Curve(Curve1DType),
    Gain(u64),
    Matrix([u64; 12]),
}

/// The value that selects a curve: that of the first entry for it.
pub open spec fn curve_value(supported: Seq<(Curve1DType, u64)>, curve: Curve1DType) -> Option<u64>
    decreases supported.len(),
{
    if supported.len() == 0 {
        None
    } else if supported.first().0 == curve {
        Some(supported.first().1)
    } else {
        curve_value(supported.drop_first(), curve)
    }
}

impl Stages {
    /// Whether every stage has found an operation.
    pub open spec fn is_empty(self) -> bool {
        self.decode is None && self.multiplier is None && self.ctm is None && self.encode is None
    }

    /// What an operation of this kind is used for: the first of the remaining stages that it
    /// can express, if nothing has to come before that.
    pub open spec fn placement(self, kind: KindModel) -> Placement {
        match kind {
            KindModel::Curve1D(supported) => {
                let stage = if self.decode is Some {
                    self.decode
                } else if self.multiplier is None && self.ctm is None {
                    self.encode
                } else {
                    None
                };
                match stage {
                    Some(curve) => match curve_value(supported, curve) {
                        Some(value) => Placement::Curve(curve, value),
                        None => Placement::Idle,
                    },
                    None => Placement::Idle,
                }
            },
            KindModel::Multiplier => match self.multiplier {
                Some(gain) if self.decode is None => Placement::Gain(gain),
                _ => Placement::Idle,
            },
            KindModel::Ctm3x4 => if self.decode is None && (self.multiplier is Some
                || self.ctm is Some) {
                Placement::Matrix(
                    match self.multiplier {
                        Some(gain) => gain,
                        None => ONE,
                    },
                    match self.ctm {
                        Some(ctm) => ctm,
                        None => CTM_3X4_IDENTITY,
                    },
                )
            } else {
                Placement::Idle
            },
            _ => Placement::Idle,
        }
    }

    /// The stages that remain after an operation of this kind.
    pub open spec fn rest(self, kind: KindModel) -> Stages {
        match self.placement(kind) {
            Placement::Curve(..) => if self.decode is Some {
                Stages { decode: None, ..self }
            } else {
                Stages { encode: None, ..self }
            },
            Placement::Gain(_) => Stages { multiplier: None, ..self },
            Placement::Matrix(..) => Stages { multiplier: None, ctm: None, ..self },
            Placement::Idle => self,
        }
    }

    /// What the stages do to the pixels, in order. What changes nothing is left out.
    pub open spec fn atoms(self) -> Seq<Atom> {
        curve_atoms(self.decode) + (match self.multiplier {
            Some(gain) => gain_atoms(gain),
            None => Seq::empty(),
        }) + (match self.ctm {
            Some(ctm) => matrix_atoms(ctm),
            None => Seq::empty(),
        }) + curve_atoms(self.encode)
    }
}

pub open spec fn curve_atoms(curve: Option<Curve1DType>) -> Seq<Atom> {
    match curve {
        Some(curve) => seq![Atom::Curve(curve)],
        None => Seq::empty(),
    }
}

pub open spec fn gain_atoms(gain: u64) -> Seq<Atom> {
    if gain == ONE {
        Seq::empty()
    } else {
        seq![Atom::Gain(gain)]
    }
}

pub open spec fn matrix_atoms(matrix: [u64; 12]) -> Seq<Atom> {
    if matrix == CTM_3X4_IDENTITY {
        Seq::empty()
    } else {
        seq![Atom::Matrix(matrix)]
    }
}

impl Placement {
    /// What an operation that is used like this does to the pixels.
    pub open spec fn atoms(self) -> Seq<Atom> {
        match self {
            Placement::Curve(curve, _) => seq![Atom::Curve(curve)],
            Placement::Gain(gain) => gain_atoms(gain),
            Placement::Matrix(gain, matrix) => gain_atoms(gain) + matrix_atoms(matrix),
            Placement::Idle => Seq::empty(),
        }
    }
}

/// The value of a property in a plan.
#[derive(Debug, Clone, Copy, PartialEq, Eq, Structural)]
pub enum PlannedValue {
    /// A plain value.
    Raw(u64),
    /// The blob with the matrix of this index.
    Blob(usize),
}

/// A property that is to be set.
#[derive(Debug, Clone, Copy, PartialEq, Eq, Structural)]
pub struct Setting {
    /// The operation.
    pub op: u32,
    /// The handle of the property.
    pub property: u32,
    /// The value of the property.
    pub value: PlannedValue,
}

/// A matrix that is to be uploaded: the first three columns of `matrix` times `gain`. The fourth
/// column, an offset, is not scaled.
#[derive(Debug, Clone, Copy)]
pub struct MatrixUpload {
    pub gain: u64,
    pub matrix: [u64; 12],
}

/// How to program a pipeline.
#[derive(Debug)]
pub struct PipelinePlan {
    /// The value that selects the pipeline.
    pub pipeline_id: u64,
    /// The properties to be set, in order.
    pub settings: Vec<Setting>,
    /// The matrices to be uploaded, in order.
    pub uploads: Vec<MatrixUpload>,
}

/// What a [`PipelinePlan`] means.
#[verifier::ext_equal]
pub struct PlanModel {
    pub settings: Seq<Setting>,
    pub uploads: Seq<MatrixUpload>,
}

impl PipelinePlan {
    pub open spec fn view(&self) -> PlanModel {
        PlanModel { settings: self.settings@, uploads: self.uploads@ }
    }
}

impl Setting {
    /// Whether the value refers to one of `n` matrices, if it refers to any.
    pub open spec fn refers_within(self, n: nat) -> bool {
        self.value matches PlannedValue::Blob(k) ==> k < n
    }
}

impl PlanModel {
    /// Every matrix that is referred to is uploaded.
    pub open spec fn well_formed(self) -> bool {
        forall|i: int|
            0 <= i < self.settings.len() ==> (#[trigger] self.settings[i]).refers_within(
                self.uploads.len(),
            )
    }
}

/// The property of an operation.
pub open spec fn property_of(op: OpModel, name: Seq<char>) -> Option<u32> {
    if op.props.dom().contains(name) {
        Some(op.props[name])
    } else {
        None
    }
}

impl PlanModel {
    /// The plan after a property of a used operation was set and the operation was un-bypassed.
    /// Impossible if the operation has no id, or lacks a property that is needed.
    pub open spec fn with_setting(self, op: OpModel, name: Seq<char>, value: PlannedValue) -> Option<
        PlanModel,
    > {
        if op.id == 0 {
            None
        } else {
            match property_of(op, name) {
                Some(property) => {
                    let set = PlanModel {
                        settings: self.settings.push(Setting { op: op.id, property, value }),
                        ..self
                    };
                    if op.bypassable {
                        match property_of(op, "BYPASS"@) {
                            Some(bypass) => Some(
                                PlanModel {
                                    settings: set.settings.push(
                                        Setting {
                                            op: op.id,
                                            property: bypass,
                                            value: PlannedValue::Raw(0),
                                        },
                                    ),
                                    ..set
                                },
                            ),
                            None => None,
                        }
                    } else {
                        Some(set)
                    }
                },
                None => None,
            }
        }
    }

    /// The plan after a matrix was uploaded and set.
    pub open spec fn with_matrix(self, op: OpModel, gain: u64, matrix: [u64; 12]) -> Option<PlanModel> {
        let uploaded = PlanModel {
            uploads: self.uploads.push(MatrixUpload { gain, matrix }),
            ..self
        };
        uploaded.with_setting(op, "DATA"@, PlannedValue::Blob(self.uploads.len() as usize))
    }

    /// The plan after an unused operation was bypassed, or programmed to an identity if it
    /// cannot be bypassed. Curves, LUTs and unknown operations have no identity.
    pub open spec fn with_bypass(self, op: OpModel) -> Option<PlanModel> {
        if op.bypassable {
            if op.id == 0 {
                None
            } else {
                match property_of(op, "BYPASS"@) {
                    Some(property) => Some(
                        PlanModel {
                            settings: self.settings.push(
                                Setting { op: op.id, property, value: PlannedValue::Raw(1) },
                            ),
                            ..self
                        },
                    ),
                    None => None,
                }
            }
        } else {
            match op.kind {
                KindModel::Multiplier => self.with_setting(
                    op,
                    "MULTIPLIER"@,
                    PlannedValue::Raw(fixed_point::s31_32(ONE) as u64),
                ),
                KindModel::Ctm3x4 => self.with_matrix(op, ONE, CTM_3X4_IDENTITY),
                _ => None,
            }
        }
    }

    /// The plan after an operation was programmed for its use.
    pub open spec fn with_placement(self, op: OpModel, placement: Placement) -> Option<PlanModel> {
        match placement {
            Placement::Curve(_, value) => self.with_setting(
                op,
                "CURVE_1D_TYPE"@,
                PlannedValue::Raw(value),
            ),
            Placement::Gain(gain) => self.with_setting(
                op,
                "MULTIPLIER"@,
                PlannedValue::Raw(fixed_point::s31_32(gain) as u64),
            ),
            Placement::Matrix(gain, matrix) => self.with_matrix(op, gain, matrix),
            Placement::Idle => self.with_bypass(op),
        }
    }
}

/// How far a transform was matched against the operations of a pipeline.
pub struct Progress {
    pub plan: PlanModel,
    pub stages: Stages,
}

/// The operations of a pipeline, programmed one after the other. `None` as soon as one of them
/// cannot be programmed.
pub open spec fn programmed(stages: Stages, ops: Seq<OpModel>) -> Option<Progress>
    decreases ops.len(),
{
    if ops.len() == 0 {
        Some(
            Progress {
                plan: PlanModel { settings: Seq::empty(), uploads: Seq::empty() },
                stages,
            },
        )
    } else {
        match programmed(stages, ops.drop_last()) {
            Some(before) => {
                let op = ops.last();
                match before.plan.with_placement(op, before.stages.placement(op.kind)) {
                    Some(plan) => Some(Progress { plan, stages: before.stages.rest(op.kind) }),
                    None => None,
                }
            },
            None => None,
        }
    }
}

/// What the operations of a pipeline are used for.
pub open spec fn placements(stages: Stages, ops: Seq<OpModel>) -> Seq<Placement>
    decreases ops.len(),
{
    if ops.len() == 0 {
        Seq::empty()
    } else {
        placements(stages, ops.drop_last()).push(
            stages_after(stages, ops.drop_last()).placement(ops.last().kind),
        )
    }
}

/// The stages that remain after some operations.
pub open spec fn stages_after(stages: Stages, ops: Seq<OpModel>) -> Stages
    decreases ops.len(),
{
    if ops.len() == 0 {
        stages
    } else {
        stages_after(stages, ops.drop_last()).rest(ops.last().kind)
    }
}

/// What operations that are used like this do to the pixels, in order.
pub open spec fn all_atoms(used: Seq<Placement>) -> Seq<Atom>
    decreases used.len(),
{
    if used.len() == 0 {
        Seq::empty()
    } else {
        all_atoms(used.drop_last()) + used.last().atoms()
    }
}

impl ScanoutColorTransform {
    /// Whether the transform does nothing.
    pub open spec fn leaves_pixels_alone(self) -> bool {
        self.decode is None && self.multiplier == ONE && self.ctm is None && self.encode is None
    }

    /// The stages of the transform.
    pub open spec fn stages(self) -> Stages {
        Stages {
            decode: self.decode,
            multiplier: if self.multiplier != ONE {
                Some(self.multiplier)
            } else {
                None
            },
            ctm: self.ctm,
            encode: self.encode,
        }
    }

    /// How to program the operations of a pipeline to perform the transform, if they can.
    pub open spec fn plan(self, ops: Seq<OpModel>) -> Option<PlanModel> {
        match programmed(self.stages(), ops) {
            Some(progress) => if progress.stages.is_empty() {
                Some(progress.plan)
            } else {
                None
            },
            None => None,
        }
    }

    /// The identity transform: pixels pass through unmodified.
    pub fn identity() -> (transform: Self)
        ensures
            transform.leaves_pixels_alone(),
    {
        ScanoutColorTransform { decode: None, multiplier: ONE, ctm: None, encode: None }
    }

    /// Whether this is the identity transform.
    pub fn is_identity(&self) -> (identity: bool)
        ensures
            identity == self.leaves_pixels_alone(),
    {
        self.decode.is_none() && self.multiplier == ONE && self.ctm.is_none()
            && self.encode.is_none()
    }

    /// Resolves this transform against a color pipeline, producing the property values to
    /// program.
    ///
    /// Walks the pipeline's operations in order, assigning each stage of the transform to the
    /// first operation that can express it and bypassing all others. Operations without a
    /// `BYPASS` property are programmed to an identity where possible (matrix, multiplier);
    /// pipelines with other non-bypassable unused operations are rejected, as are pipelines
    /// that cannot express every stage.
    ///
    /// Returns `None` if the pipeline cannot express the transform.
    pub fn resolve(&self, pipeline: &ColorPipeline) -> (r: Option<PipelinePlan>)
        requires
            pipeline.wf(),
        ensures
            match self.plan(pipeline@) {
                Some(plan) => r matches Some(r) && r@ == plan && r.pipeline_id == pipeline.id
                    && plan.well_formed(),
                None => r is None,
            },
    {
        let mut stages = Stages {
            decode: self.decode,
            multiplier: if self.multiplier != ONE {
                Some(self.multiplier)
            } else {
                None
            },
            ctm: self.ctm,
            encode: self.encode,
        };
        let mut plan = PipelinePlan {
            pipeline_id: pipeline.id,
            settings: Vec::new(),
            uploads: Vec::new(),
        };
        let mut i: usize = 0;
        assert(pipeline@.take(0) =~= Seq::<OpModel>::empty());
        assert(plan@ =~= (PlanModel { settings: Seq::empty(), uploads: Seq::empty() }));
        while i < pipeline.ops.len()
            invariant
                i <= pipeline.ops@.len(),
                pipeline.wf(),
                plan.pipeline_id == pipeline.id,
                plan@.well_formed(),
                programmed(self.stages(), pipeline@.take(i as int)) == Some(
                    Progress { plan: plan@, stages },
                ),
                programmed(self.stages(), pipeline@.take(i as int)) is None ==> programmed(
                    self.stages(),
                    pipeline@,
                ) is None,
            decreases pipeline.ops@.len() - i,
        {
            let ghost op_model = pipeline@[i as int];
            proof {
                assert(pipeline@.take(i + 1).drop_last() =~= pipeline@.take(i as int));
                assert(pipeline@.take(i + 1).last() == op_model);
                assert(pipeline.ops@[i as int].props.wf());
                lemma_failure_stays(self.stages(), pipeline@, i + 1);
            }
            let op = &pipeline.ops[i];
            let done: bool = match &op.kind {
                ColorOpKind::Curve1D { supported } => {
                    let stage = if stages.decode.is_some() {
                        stages.decode
                    } else if stages.multiplier.is_none() && stages.ctm.is_none() {
                        stages.encode
                    } else {
                        None
                    };
                    let value = match stage {
                        Some(curve) => find_curve(supported, curve),
                        None => None,
                    };
                    match value {
                        Some(value) => {
                            if stages.decode.is_some() {
                                stages.decode = None;
                            } else {
                                stages.encode = None;
                            }
                            plan.set(op, "CURVE_1D_TYPE", PlannedValue::Raw(value))
                        },
                        None => plan.bypass(op),
                    }
                },
                ColorOpKind::Multiplier => {
                    match stages.multiplier {
                        Some(gain) if stages.decode.is_none() => {
                            stages.multiplier = None;
                            plan.set(op, "MULTIPLIER", PlannedValue::Raw(to_s31_32(gain)))
                        },
                        _ => plan.bypass(op),
                    }
                },
                ColorOpKind::Ctm3x4 => {
                    if stages.decode.is_none() && (stages.multiplier.is_some()
                        || stages.ctm.is_some()) {
                        let gain: u64 = match stages.multiplier {
                            Some(gain) => gain,
                            None => ONE,
                        };
                        let matrix: [u64; 12] = match stages.ctm {
                            Some(ctm) => ctm,
                            None => CTM_3X4_IDENTITY,
                        };
                        stages.multiplier = None;
                        stages.ctm = None;
                        plan.set_ctm(op, gain, matrix)
                    } else {
                        plan.bypass(op)
                    }
                },
                _ => plan.bypass(op),
            };
            if !done {
                return None;
            }
            i = i + 1;
        }
        assert(pipeline@.take(i as int) =~= pipeline@);
        if stages.decode.is_some() || stages.multiplier.is_some() || stages.ctm.is_some()
            || stages.encode.is_some() {
            return None;
        }
        Some(plan)
    }
}

/// A pipeline cannot be programmed if some of its first operations cannot.
proof fn lemma_failure_stays(stages: Stages, ops: Seq<OpModel>, n: int)
    requires
        0 <= n <= ops.len(),
    ensures
        programmed(stages, ops.take(n)) is None ==> programmed(stages, ops) is None,
    decreases ops.len() - n,
{
    if n == ops.len() {
        assert(ops.take(n) =~= ops);
    } else {
        lemma_failure_stays(stages, ops, n + 1);
        assert(ops.take(n + 1).drop_last() =~= ops.take(n));
    }
}

fn find_curve(supported: &Vec<(Curve1DType, u64)>, curve: Curve1DType) -> (value: Option<u64>)
    ensures
        value == curve_value(supported@, curve),
{
    let mut i: usize = 0;
    assert(supported@.skip(0) =~= supported@);
    while i < supported.len()
        invariant
            i <= supported@.len(),
            curve_value(supported@.skip(i as int), curve) == curve_value(supported@, curve),
        decreases supported@.len() - i,
    {
        assert(supported@.skip(i as int).drop_first() =~= supported@.skip(i + 1));
        if supported[i].0 == curve {
            return Some(supported[i].1);
        }
        i = i + 1;
    }
    None
}

impl PipelinePlan {
    /// Programs a property of a used operation, un-bypassing it.
    fn set(&mut self, op: &ColorOp, name: &str, value: PlannedValue) -> (done: bool)
        requires
            op.props.wf(),
            old(self)@.well_formed(),
            value matches PlannedValue::Blob(k) ==> k < old(self)@.uploads.len(),
        ensures
            final(self).pipeline_id == old(self).pipeline_id,
            match old(self)@.with_setting(op@, name@, value) {
                Some(plan) => done && final(self)@ == plan && plan.well_formed(),
                None => !done,
            },
    {
        let ghost before = self@;
        if op.id == 0 {
            return false;
        }
        let property: u32 = match op.props.get(name) {
            Some(property) => property,
            None => return false,
        };
        self.settings.push(Setting { op: op.id, property, value });
        if op.bypassable {
            let bypass: u32 = match op.props.get("BYPASS") {
                Some(bypass) => bypass,
                None => return false,
            };
            self.settings.push(
                Setting { op: op.id, property: bypass, value: PlannedValue::Raw(0) },
            );
        }
        assert(self@ =~= before.with_setting(op@, name@, value)->0);
        true
    }

    /// Programs the `DATA` blob of a 3x4 matrix.
    fn set_ctm(&mut self, op: &ColorOp, gain: u64, matrix: [u64; 12]) -> (done: bool)
        requires
            op.props.wf(),
            old(self)@.well_formed(),
        ensures
            final(self).pipeline_id == old(self).pipeline_id,
            match old(self)@.with_matrix(op@, gain, matrix) {
                Some(plan) => done && final(self)@ == plan && plan.well_formed(),
                None => !done,
            },
    {
        let ghost before = self@;
        let index: usize = self.uploads.len();
        self.uploads.push(MatrixUpload { gain, matrix });
        assert(self@ =~= (PlanModel {
            uploads: before.uploads.push(MatrixUpload { gain, matrix }),
            ..before
        }));
        self.set(op, "DATA", PlannedValue::Blob(index))
    }

    /// Bypasses an unused operation, or programs it to an identity if it cannot be bypassed.
    fn bypass(&mut self, op: &ColorOp) -> (done: bool)
        requires
            op.props.wf(),
            old(self)@.well_formed(),
        ensures
            final(self).pipeline_id == old(self).pipeline_id,
            match old(self)@.with_bypass(op@) {
                Some(plan) => done && final(self)@ == plan && plan.well_formed(),
                None => !done,
            },
    {
        let ghost before = self@;
        if op.bypassable {
            if op.id == 0 {
                return false;
            }
            let property: u32 = match op.props.get("BYPASS") {
                Some(property) => property,
                None => return false,
            };
            self.settings.push(Setting { op: op.id, property, value: PlannedValue::Raw(1) });
            assert(self@ =~= before.with_bypass(op@)->0);
            return true;
        }
        match &op.kind {
            ColorOpKind::Multiplier => self.set(
                op,
                "MULTIPLIER",
                PlannedValue::Raw(to_s31_32(ONE)),
            ),
            ColorOpKind::Ctm3x4 => self.set_ctm(op, ONE, CTM_3X4_IDENTITY),
            _ => false,
        }
    }
}

/// A property of an operation and its value.
#[derive(Debug, Clone, Copy, PartialEq, Eq, Structural)]
pub struct ResolvedProperty {
    pub op: u32,
    pub property: u32,
    pub value: u64,
}

/// A [`ScanoutColorTransform`] resolved against a specific [`ColorPipeline`]: the value that
/// selects the pipeline plus the property values of every operation in the chain.
///
/// Keeps the ids of the property blobs referenced by the values; they have to be kept alive as
/// long as the values are in use.
#[derive(Debug)]
pub struct ResolvedColorPipeline {
    pipeline_id: u64,
    props: Vec<ResolvedProperty>,
    blobs: Vec<u64>,
}

/// What a [`ResolvedColorPipeline`] means.
#[verifier::ext_equal]
pub struct ResolvedModel {
    pub pipeline_id: u64,
    pub props: Seq<ResolvedProperty>,
    pub blobs: Seq<u64>,
}

impl Setting {
    /// The property with its final value, once the blobs have these ids.
    pub open spec fn resolved(self, blobs: Seq<u64>) -> ResolvedProperty {
        ResolvedProperty {
            op: self.op,
            property: self.property,
            value: match self.value {
                PlannedValue::Raw(value) => value,
                PlannedValue::Blob(k) => blobs[k as int],
            },
        }
    }
}

impl ResolvedColorPipeline {
    pub closed spec fn view(&self) -> ResolvedModel {
        ResolvedModel {
            pipeline_id: self.pipeline_id,
            props: self.props@,
            blobs: self.blobs@,
        }
    }

    /// Completes a plan with the ids of the uploaded matrices.
    pub fn new(plan: &PipelinePlan, blobs: Vec<u64>) -> (resolved: Self)
        requires
            plan@.well_formed(),
            blobs@.len() == plan@.uploads.len(),
        ensures
            resolved@ == (ResolvedModel {
                pipeline_id: plan.pipeline_id,
                props: plan@.settings.map_values(|s: Setting| s.resolved(blobs@)),
                blobs: blobs@,
            }),
    {
        let ghost all = plan@.settings.map_values(|s: Setting| s.resolved(blobs@));
        let mut props: Vec<ResolvedProperty> = Vec::new();
        let mut i: usize = 0;
        assert(props@ =~= all.take(0));
        while i < plan.settings.len()
            invariant
                i <= plan.settings@.len(),
                plan@.well_formed(),
                blobs@.len() == plan@.uploads.len(),
                all == plan@.settings.map_values(|s: Setting| s.resolved(blobs@)),
                props@ == all.take(i as int),
            decreases plan.settings@.len() - i,
        {
            let setting = plan.settings[i];
            assert(plan@.settings[i as int].refers_within(blobs@.len()));
            let value: u64 = match setting.value {
                PlannedValue::Raw(value) => value,
                PlannedValue::Blob(k) => blobs[k],
            };
            props.push(ResolvedProperty { op: setting.op, property: setting.property, value });
            assert(props@ =~= all.take(i + 1));
            i = i + 1;
        }
        assert(all.take(i as int) =~= all);
        ResolvedColorPipeline { pipeline_id: plan.pipeline_id, props, blobs }
    }

    /// The value that selects the pipeline.
    pub fn pipeline_id(&self) -> (id: u64)
        ensures
            id == self@.pipeline_id,
    {
        self.pipeline_id
    }

    /// The property values to add to the atomic commit.
    pub fn props(&self) -> (props: &Vec<ResolvedProperty>)
        ensures
            props@ == self@.props,
    {
        &self.props
    }

    /// The blobs that have to be kept alive.
    pub fn blobs(&self) -> (blobs: &Vec<u64>)
        ensures
            blobs@ == self@.blobs,
    {
        &self.blobs
    }
}

impl PartialEq for ResolvedColorPipeline {
    fn eq(&self, other: &Self) -> (same: bool) {
        if self.pipeline_id != other.pipeline_id || self.props.len() != other.props.len() {
            return false;
        }
        let mut i: usize = 0;
        while i < self.props.len()
            invariant
                i <= self.props@.len(),
                self.props@.len() == other.props@.len(),
                self.pipeline_id == other.pipeline_id,
                forall|k: int| 0 <= k < i ==> self.props@[k] == other.props@[k],
            decreases self.props@.len() - i,
        {
            if self.props[i] != other.props[i] {
                return false;
            }
            i = i + 1;
        }
        assert(self.props@ =~= other.props@);
        true
    }
}

impl vstd::std_specs::cmp::PartialEqSpecImpl for ResolvedColorPipeline {
    open spec fn obeys_eq_spec() -> bool {
        true
    }

    open spec fn eq_spec(&self, other: &Self) -> bool {
        self@.pipeline_id == other@.pipeline_id && self@.props == other@.props
    }
}

/// What remains after some operations is what their programming left over.
proof fn lemma_progress(stages: Stages, ops: Seq<OpModel>)
    requires
        programmed(stages, ops) is Some,
    ensures
        programmed(stages, ops)->0.stages == stages_after(stages, ops),
    decreases ops.len(),
{
    if ops.len() > 0 {
        lemma_progress(stages, ops.drop_last());
    }
}

/// What an operation does, followed by what remains after it, is what the stages do.
proof fn lemma_step_atoms(stages: Stages, kind: KindModel)
    ensures
        stages.placement(kind).atoms() + stages.rest(kind).atoms() == stages.atoms(),
{
    let rest = stages.rest(kind);
    let none = Seq::<Atom>::empty();
    let d = curve_atoms(stages.decode);
    let g = match stages.multiplier {
        Some(gain) => gain_atoms(gain),
        None => none,
    };
    let m = match stages.ctm {
        Some(ctm) => matrix_atoms(ctm),
        None => none,
    };
    let e = curve_atoms(stages.encode);
    assert(stages.atoms() == d + g + m + e);
    match stages.placement(kind) {
        Placement::Curve(curve, _) => {
            if stages.decode is Some {
                assert(rest.atoms() == none + g + m + e);
                assert(d + (none + g + m + e) =~= d + g + m + e);
            } else {
                assert(rest.atoms() == none + none + none + none);
                assert(e + (none + none + none + none) =~= none + none + none + e);
            }
        },
        Placement::Gain(gain) => {
            assert(rest.atoms() == none + none + m + e);
            assert(g + (none + none + m + e) =~= none + g + m + e);
        },
        Placement::Matrix(gain, matrix) => {
            assert(gain_atoms(ONE) =~= none);
            assert(matrix_atoms(CTM_3X4_IDENTITY) =~= none);
            assert(rest.atoms() == none + none + none + e);
            assert((g + m) + (none + none + none + e) =~= none + g + m + e);
        },
        Placement::Idle => {
            assert(none + stages.atoms() =~= stages.atoms());
        },
    }
}

/// What the used operations do, followed by what remains, is what the stages do.
proof fn lemma_atoms_are_kept(stages: Stages, ops: Seq<OpModel>)
    ensures
        all_atoms(placements(stages, ops)) + stages_after(stages, ops).atoms() == stages.atoms(),
    decreases ops.len(),
{
    let used = placements(stages, ops);
    if ops.len() == 0 {
        assert(all_atoms(used) + stages.atoms() =~= stages.atoms());
    } else {
        let fewer = ops.drop_last();
        lemma_atoms_are_kept(stages, fewer);
        let before = stages_after(stages, fewer);
        let after = stages_after(stages, ops);
        let placement = before.placement(ops.last().kind);
        assert(used.drop_last() =~= placements(stages, fewer));
        lemma_step_atoms(before, ops.last().kind);
        assert(all_atoms(used) + after.atoms() =~= all_atoms(used.drop_last()) + (placement.atoms()
            + after.atoms()));
    }
}

/// If a pipeline can be programmed for a transform, its operations do to the pixels what the
/// transform says, in the order in which it says it, and nothing else: a gain that is folded
/// into a matrix comes before the matrix.
pub proof fn law_resolved_pipeline_performs_the_transform(
    transform: ScanoutColorTransform,
    ops: Seq<OpModel>,
)
    requires
        transform.plan(ops) is Some,
    ensures
        all_atoms(placements(transform.stages(), ops)) == transform.stages().atoms(),
{
    let stages = transform.stages();
    lemma_progress(stages, ops);
    lemma_atoms_are_kept(stages, ops);
    assert(stages_after(stages, ops).atoms() =~= Seq::<Atom>::empty());
    assert(all_atoms(placements(stages, ops)) + Seq::<Atom>::empty() =~= all_atoms(
        placements(stages, ops),
    ));
}

/// In a resolved pipeline no operation is left to chance: one that can be bypassed is bypassed
/// exactly if it is not used, and one that cannot is used, or programmed to an identity.
pub proof fn law_every_operation_is_programmed(
    transform: ScanoutColorTransform,
    ops: Seq<OpModel>,
    i: int,
)
    requires
        transform.plan(ops) is Some,
        0 <= i < ops.len(),
    ensures
        ({
            let used = placements(transform.stages(), ops)[i];
            let op = ops[i];
            &&& placements(transform.stages(), ops).len() == ops.len()
            &&& op.bypassable ==> op.props.dom().contains("BYPASS"@) && transform.plan(
                ops,
            )->0.settings.contains(
                Setting {
                    op: op.id,
                    property: op.props["BYPASS"@],
                    value: PlannedValue::Raw(
                        if used is Idle {
                            1
                        } else {
                            0
                        },
                    ),
                },
            )
            &&& !op.bypassable && used is Idle ==> op.kind is Multiplier || op.kind is Ctm3x4
        }),
{
    lemma_programmed_at(transform.stages(), ops, i);
}

proof fn lemma_programmed_at(stages: Stages, ops: Seq<OpModel>, i: int)
    requires
        programmed(stages, ops) is Some,
        0 <= i < ops.len(),
    ensures
        ({
            let used = placements(stages, ops)[i];
            let op = ops[i];
            &&& placements(stages, ops).len() == ops.len()
            &&& op.bypassable ==> op.props.dom().contains("BYPASS"@) && programmed(
                stages,
                ops,
            )->0.plan.settings.contains(
                Setting {
                    op: op.id,
                    property: op.props["BYPASS"@],
                    value: PlannedValue::Raw(
                        if used is Idle {
                            1
                        } else {
                            0
                        },
                    ),
                },
            )
            &&& !op.bypassable && used is Idle ==> op.kind is Multiplier || op.kind is Ctm3x4
        }),
    decreases ops.len(),
{
    let fewer = ops.drop_last();
    lemma_progress(stages, fewer);
    lemma_placements_len(stages, fewer);
    let before = programmed(stages, fewer)->0;
    let after = programmed(stages, ops)->0;
    let last = ops.last();
    let used = before.stages.placement(last.kind);
    assert(before.plan.with_placement(last, used) == Some(after.plan));
    assert(before.plan.settings.len() <= after.plan.settings.len());
    assert(forall|k: int|
        0 <= k < before.plan.settings.len() ==> after.plan.settings[k] == before.plan.settings[k]);
    if i < fewer.len() {
        lemma_programmed_at(stages, fewer, i);
        assert(placements(stages, ops)[i] == placements(stages, fewer)[i]);
        if ops[i].bypassable {
            let setting = Setting {
                op: ops[i].id,
                property: ops[i].props["BYPASS"@],
                value: PlannedValue::Raw(
                    if placements(stages, ops)[i] is Idle {
                        1
                    } else {
                        0
                    },
                ),
            };
            let k = choose|k: int|
                0 <= k < before.plan.settings.len() && before.plan.settings[k] == setting;
            assert(after.plan.settings[k] == setting);
        }
    } else {
        let n = after.plan.settings.len();
        if last.bypassable {
            assert(after.plan.settings[n - 1].property == last.props["BYPASS"@]);
        }
    }
}

proof fn lemma_placements_len(stages: Stages, ops: Seq<OpModel>)
    ensures
        placements(stages, ops).len() == ops.len(),
    decreases ops.len(),
{
    if ops.len() > 0 {
        lemma_placements_len(stages, ops.drop_last());
    }
}

/// A curve is selected by the value that stands beside that very curve in the list of what is
/// supported: by the first such value if there are several, and by none only if there is none.
pub proof fn law_selected_value_belongs_to_the_curve(
    supported: Seq<(Curve1DType, u64)>,
    curve: Curve1DType,
)
    ensures
        match curve_value(supported, curve) {
            Some(value) => {
                &&& supported.contains((curve, value))
                &&& forall|i: int|
                    0 <= i < supported.len() && (#[trigger] supported[i]).0 == curve
                        && supported[i].1 != value ==> exists|j: int|
                        0 <= j < i && #[trigger] supported[j] == (curve, value)
            },
            None => forall|i: int|
                0 <= i < supported.len() ==> (#[trigger] supported[i]).0 != curve,
        },
    decreases supported.len(),
{
    if supported.len() > 0 {
        let rest = supported.drop_first();
        assert forall|i: int| 0 <= i < rest.len() implies #[trigger] rest[i] == supported[i + 1] by {}
        assert(supported.first() == supported[0]);
        if supported[0].0 == curve {
            let value = supported[0].1;
            assert(supported[0] == (curve, value));
        } else {
            law_selected_value_belongs_to_the_curve(rest, curve);
            match curve_value(rest, curve) {
                Some(value) => {
                    let k = choose|k: int| 0 <= k < rest.len() && rest[k] == (curve, value);
                    assert(supported[k + 1] == (curve, value));
                    assert forall|i: int|
                        0 <= i < supported.len() && (#[trigger] supported[i]).0 == curve
                            && supported[i].1 != value implies exists|j: int|
                        0 <= j < i && #[trigger] supported[j] == (curve, value) by {
                        assert(rest[i - 1] == supported[i]);
                        let j = choose|j: int| 0 <= j < i - 1 && #[trigger] rest[j] == (curve, value);
                        assert(supported[j + 1] == (curve, value));
                    }
                },
                None => {
                    assert forall|i: int| 0 <= i < supported.len() implies (
                    #[trigger] supported[i]).0 != curve by {
                        if i > 0 {
                            assert(rest[i - 1] == supported[i]);
                        }
                    }
                },
            }
        }
    }
}

/// An operation is used for what comes next and for nothing else, and it is used whenever it can
/// express that: a curve for a pending decode, or for the encode once nothing else is pending; a
/// multiplier or a matrix for what is pending between the two, once the decode is done.
pub proof fn law_an_operation_takes_what_comes_next(stages: Stages, kind: KindModel)
    ensures
        ({
            let linear = stages.multiplier is Some || stages.ctm is Some;
            let used = stages.placement(kind);
            match kind {
                KindModel::Curve1D(supported) => {
                    let offers = |curve: Curve1DType|
                        exists|value: u64| supported.contains((curve, value));
                    &&& used is Curve || used is Idle
                    &&& used matches Placement::Curve(curve, value) ==> {
                        &&& supported.contains((curve, value))
                        &&& stages.decode == Some(curve) || (stages.decode is None && !linear
                            && stages.encode == Some(curve))
                    }
                    &&& stages.decode matches Some(curve) ==> (offers(curve) ==> used is Curve)
                    &&& stages.decode is None && !linear ==> (stages.encode matches Some(curve) ==> (
                    offers(curve) ==> used is Curve))
                },
                KindModel::Multiplier => {
                    &&& used is Gain || used is Idle
                    &&& used is Gain <==> stages.decode is None && stages.multiplier is Some
                    &&& used is Gain ==> stages.multiplier == Some(used->Gain_0)
                },
                KindModel::Ctm3x4 => {
                    &&& used is Matrix || used is Idle
                    &&& used is Matrix <==> stages.decode is None && linear
                    &&& used matches Placement::Matrix(gain, matrix) ==> {
                        &&& stages.multiplier is Some ==> stages.multiplier == Some(gain)
                        &&& stages.multiplier is None ==> gain == ONE
                        &&& stages.ctm is Some ==> stages.ctm == Some(matrix)
                        &&& stages.ctm is None ==> matrix == CTM_3X4_IDENTITY
                    }
                },
                _ => used is Idle,
            }
        }),
{
    if let KindModel::Curve1D(supported) = kind {
        if let Some(curve) = stages.decode {
            law_selected_value_belongs_to_the_curve(supported, curve);
        }
        if let Some(curve) = stages.encode {
            law_selected_value_belongs_to_the_curve(supported, curve);
        }
    }
}

/// An operation takes away what it is used for and leaves the other stages as they are.
pub proof fn law_an_operation_leaves_the_rest(stages: Stages, kind: KindModel)
    ensures
        ({
            let rest = stages.rest(kind);
            match stages.placement(kind) {
                Placement::Idle => rest == stages,
                Placement::Curve(..) => {
                    &&& rest.multiplier == stages.multiplier && rest.ctm == stages.ctm
                    &&& rest.decode is None
                    &&& stages.decode is Some ==> rest.encode == stages.encode
                    &&& stages.decode is None ==> rest.encode is None
                },
                Placement::Gain(_) => {
                    &&& rest.decode == stages.decode && rest.encode == stages.encode
                    &&& rest.multiplier is None && rest.ctm == stages.ctm
                },
                Placement::Matrix(..) => {
                    &&& rest.decode == stages.decode && rest.encode == stages.encode
                    &&& rest.multiplier is None && rest.ctm is None
                },
            }
        }),
{
}

/// Nothing of a transform is left out: each of its curves, its matrix and any gain but one is a
/// stage, and there is no other. Without operations only the identity can be performed.
pub proof fn law_stages_are_those_of_the_transform(transform: ScanoutColorTransform)
    ensures
        transform.stages().decode == transform.decode,
        transform.stages().encode == transform.encode,
        transform.stages().ctm == transform.ctm,
        match transform.stages().multiplier {
            Some(gain) => gain == transform.multiplier && gain != ONE,
            None => transform.multiplier == ONE,
        },
        transform.leaves_pixels_alone() <==> transform.plan(Seq::empty()) is Some,
        transform.leaves_pixels_alone() <==> transform.decode is None && transform.encode is None
            && transform.ctm is None && transform.multiplier == ONE,
{
}

/// In a resolved pipeline a used operation is told, through its own property of the right name,
/// what it is used for: a curve by the value that stands beside that very curve among the
/// supported ones, a gain by its fixed-point form, a matrix by an upload that holds it and the
/// gain before it. An idle operation that cannot be bypassed is told to do nothing.
pub proof fn law_operations_are_told_what_to_do(
    transform: ScanoutColorTransform,
    ops: Seq<OpModel>,
    i: int,
)
    requires
        transform.plan(ops) is Some,
        0 <= i < ops.len() <= usize::MAX,
    ensures
        is_told(transform.plan(ops)->0, ops[i], placements(transform.stages(), ops)[i]),
        match placements(transform.stages(), ops)[i] {
            Placement::Curve(curve, value) => ops[i].kind matches KindModel::Curve1D(supported)
                && supported.contains((curve, value)),
            Placement::Gain(_) => ops[i].kind is Multiplier,
            Placement::Matrix(..) => ops[i].kind is Ctm3x4,
            Placement::Idle => true,
        },
{
    lemma_told(transform.stages(), ops, i);
}

/// Whether a plan sets a property of an operation, found by its name, to a value.
pub open spec fn sets(plan: PlanModel, op: OpModel, name: Seq<char>, value: PlannedValue) -> bool {
    &&& op.id != 0
    &&& op.props.dom().contains(name)
    &&& plan.settings.contains(Setting { op: op.id, property: op.props[name], value })
}

/// Whether a plan tells an operation what it is used for.
pub open spec fn is_told(plan: PlanModel, op: OpModel, used: Placement) -> bool {
    match used {
        Placement::Curve(_, value) => sets(plan, op, "CURVE_1D_TYPE"@, PlannedValue::Raw(value)),
        Placement::Gain(gain) => sets(
            plan,
            op,
            "MULTIPLIER"@,
            PlannedValue::Raw(fixed_point::s31_32(gain) as u64),
        ),
        Placement::Matrix(gain, matrix) => exists|k: usize|
            k < plan.uploads.len() && #[trigger] plan.uploads[k as int] == (MatrixUpload {
                gain,
                matrix,
            }) && sets(plan, op, "DATA"@, PlannedValue::Blob(k)),
        Placement::Idle => {
            &&& op.bypassable ==> sets(plan, op, "BYPASS"@, PlannedValue::Raw(1))
            &&& !op.bypassable ==> {
                ||| op.kind is Multiplier && sets(
                    plan,
                    op,
                    "MULTIPLIER"@,
                    PlannedValue::Raw(fixed_point::s31_32(ONE) as u64),
                )
                ||| op.kind is Ctm3x4 && exists|k: usize|
                    k < plan.uploads.len() && #[trigger] plan.uploads[k as int] == (MatrixUpload {
                        gain: ONE,
                        matrix: CTM_3X4_IDENTITY,
                    }) && sets(plan, op, "DATA"@, PlannedValue::Blob(k))
            }
        },
    }
}

/// What one plan sets, a longer one sets too.
proof fn lemma_told_stays(before: PlanModel, after: PlanModel, op: OpModel, used: Placement)
    requires
        is_told(before, op, used),
        before.settings.is_prefix_of(after.settings),
        before.uploads.is_prefix_of(after.uploads),
    ensures
        is_told(after, op, used),
{
    assert forall|name: Seq<char>, value: PlannedValue| #[trigger] sets(before, op, name, value) implies sets(
        after,
        op,
        name,
        value,
    ) by {
        let setting = Setting { op: op.id, property: op.props[name], value };
        let k = choose|k: int| 0 <= k < before.settings.len() && before.settings[k] == setting;
        assert(before.settings[k] == setting);
        assert(after.settings[k] == before.settings[k]);
    }
    assert forall|k: usize| k < before.uploads.len() implies #[trigger] after.uploads[k as int]
        == before.uploads[k as int] by {}
    match used {
        Placement::Matrix(gain, matrix) => {
            let k = choose|k: usize|
                k < before.uploads.len() && #[trigger] before.uploads[k as int] == (MatrixUpload {
                    gain,
                    matrix,
                }) && sets(before, op, "DATA"@, PlannedValue::Blob(k));
            assert(after.uploads[k as int] == before.uploads[k as int]);
            assert(sets(after, op, "DATA"@, PlannedValue::Blob(k)));
        },
        Placement::Idle => {
            if !op.bypassable && op.kind is Ctm3x4 {
                let k = choose|k: usize|
                    k < before.uploads.len() && #[trigger] before.uploads[k as int] == (
                    MatrixUpload { gain: ONE, matrix: CTM_3X4_IDENTITY }) && sets(
                        before,
                        op,
                        "DATA"@,
                        PlannedValue::Blob(k),
                    );
                assert(after.uploads[k as int] == before.uploads[k as int]);
                assert(sets(after, op, "DATA"@, PlannedValue::Blob(k)));
            }
        },
        _ => {},
    }
}

/// A setting that a plan is given is among its settings, and so are those that were there before.
proof fn lemma_with_setting(
    before: PlanModel,
    after: PlanModel,
    op: OpModel,
    name: Seq<char>,
    value: PlannedValue,
)
    requires
        before.with_setting(op, name, value) == Some(after),
    ensures
        sets(after, op, name, value),
        before.settings.is_prefix_of(after.settings),
        before.uploads == after.uploads,
{
    let n = before.settings.len() as int;
    assert(after.settings[n] == (Setting { op: op.id, property: op.props[name], value }));
}

proof fn lemma_told(stages: Stages, ops: Seq<OpModel>, i: int)
    requires
        programmed(stages, ops) is Some,
        0 <= i < ops.len() <= usize::MAX,
    ensures
        programmed(stages, ops)->0.plan.uploads.len() <= ops.len(),
        is_told(programmed(stages, ops)->0.plan, ops[i], placements(stages, ops)[i]),
        match placements(stages, ops)[i] {
            Placement::Curve(curve, value) => ops[i].kind matches KindModel::Curve1D(supported)
                && supported.contains((curve, value)),
            Placement::Gain(_) => ops[i].kind is Multiplier,
            Placement::Matrix(..) => ops[i].kind is Ctm3x4,
            Placement::Idle => true,
        },
    decreases ops.len(),
{
    let fewer = ops.drop_last();
    lemma_progress(stages, fewer);
    lemma_placements_len(stages, fewer);
    let before = programmed(stages, fewer)->0;
    let after = programmed(stages, ops)->0;
    let last = ops.last();
    let used = before.stages.placement(last.kind);
    assert(before.plan.with_placement(last, used) == Some(after.plan));
    if fewer.len() > 0 {
        lemma_told(stages, fewer, 0);
    }
    assert(before.plan.uploads.len() <= fewer.len());
    lemma_one_told(before.plan, after.plan, last, used);
    law_an_operation_takes_what_comes_next(before.stages, last.kind);
    if i < fewer.len() {
        lemma_told(stages, fewer, i);
        assert(placements(stages, ops)[i] == placements(stages, fewer)[i]);
        lemma_told_stays(before.plan, after.plan, ops[i], placements(stages, ops)[i]);
    }
}

/// Programming one operation tells it what it is used for.
proof fn lemma_one_told(before: PlanModel, after: PlanModel, op: OpModel, used: Placement)
    requires
        before.with_placement(op, used) == Some(after),
        before.uploads.len() < usize::MAX,
    ensures
        is_told(after, op, used),
        before.settings.is_prefix_of(after.settings),
        before.uploads.is_prefix_of(after.uploads),
        after.uploads.len() <= before.uploads.len() + 1,
{
    match used {
        Placement::Curve(_, value) => {
            lemma_with_setting(before, after, op, "CURVE_1D_TYPE"@, PlannedValue::Raw(value));
        },
        Placement::Gain(gain) => {
            lemma_with_setting(
                before,
                after,
                op,
                "MULTIPLIER"@,
                PlannedValue::Raw(fixed_point::s31_32(gain) as u64),
            );
        },
        Placement::Matrix(gain, matrix) => {
            lemma_matrix_told(before, after, op, gain, matrix);
        },
        Placement::Idle => {
            if op.bypassable {
                let n = before.settings.len() as int;
                assert(after.settings[n] == (Setting {
                    op: op.id,
                    property: op.props["BYPASS"@],
                    value: PlannedValue::Raw(1),
                }));
            } else if op.kind is Multiplier {
                lemma_with_setting(
                    before,
                    after,
                    op,
                    "MULTIPLIER"@,
                    PlannedValue::Raw(fixed_point::s31_32(ONE) as u64),
                );
            } else {
                lemma_matrix_told(before, after, op, ONE, CTM_3X4_IDENTITY);
            }
        },
    }
}

proof fn lemma_matrix_told(
    before: PlanModel,
    after: PlanModel,
    op: OpModel,
    gain: u64,
    matrix: [u64; 12],
)
    requires
        before.with_matrix(op, gain, matrix) == Some(after),
        before.uploads.len() < usize::MAX,
    ensures
        exists|k: usize|
            k < after.uploads.len() && #[trigger] after.uploads[k as int] == (MatrixUpload {
                gain,
                matrix,
            }) && sets(after, op, "DATA"@, PlannedValue::Blob(k)),
        before.settings.is_prefix_of(after.settings),
        before.uploads.is_prefix_of(after.uploads),
        after.uploads.len() == before.uploads.len() + 1,
{
    let k = before.uploads.len() as usize;
    let uploaded = PlanModel {
        uploads: before.uploads.push(MatrixUpload { gain, matrix }),
        ..before
    };
    lemma_with_setting(uploaded, after, op, "DATA"@, PlannedValue::Blob(k));
    assert(after.uploads[k as int] == (MatrixUpload { gain, matrix }));
}

/// A pipeline can be programmed for a transform exactly if its operations take up all of the
/// stages and every one of them can be told what it is used for: it has an id, it has the
/// property in question, and one that can be bypassed has the property for that. What is neither
/// used nor bypassable must be a multiplier or a matrix.
pub proof fn law_when_a_pipeline_is_programmed(transform: ScanoutColorTransform, ops: Seq<OpModel>)
    ensures
        transform.plan(ops) is Some <==> {
            &&& stages_after(transform.stages(), ops).is_empty()
            &&& forall|i: int|
                0 <= i < ops.len() ==> can_be_told(
                    #[trigger] ops[i],
                    placements(transform.stages(), ops)[i],
                )
        },
{
    lemma_when_programmed(transform.stages(), ops);
    if programmed(transform.stages(), ops) is Some {
        lemma_progress(transform.stages(), ops);
    }
}

/// Whether an operation has the properties that it takes to tell it what it is used for.
pub open spec fn can_be_told(op: OpModel, used: Placement) -> bool {
    let has = |name: Seq<char>| op.props.dom().contains(name);
    &&& op.id != 0
    &&& op.bypassable ==> has("BYPASS"@)
    &&& match used {
        Placement::Curve(..) => has("CURVE_1D_TYPE"@),
        Placement::Gain(_) => has("MULTIPLIER"@),
        Placement::Matrix(..) => has("DATA"@),
        Placement::Idle => {
            ||| op.bypassable
            ||| op.kind is Multiplier && has("MULTIPLIER"@)
            ||| op.kind is Ctm3x4 && has("DATA"@)
        },
    }
}

proof fn lemma_when_programmed(stages: Stages, ops: Seq<OpModel>)
    ensures
        programmed(stages, ops) is Some <==> forall|i: int|
            0 <= i < ops.len() ==> can_be_told(#[trigger] ops[i], placements(stages, ops)[i]),
    decreases ops.len(),
{
    if ops.len() > 0 {
        let fewer = ops.drop_last();
        let n = ops.len() - 1;
        let used = placements(stages, ops);
        lemma_when_programmed(stages, fewer);
        lemma_placements_len(stages, fewer);
        assert forall|i: int| 0 <= i < n implies ops[i] == fewer[i] && used[i] == placements(
            stages,
            fewer,
        )[i] by {}
        assert(ops[n] == ops.last());
        if programmed(stages, fewer) is Some {
            lemma_progress(stages, fewer);
            let before = programmed(stages, fewer)->0;
            assert(used[n] == before.stages.placement(ops.last().kind));
            assert(before.plan.with_placement(ops.last(), used[n]) is Some <==> can_be_told(
                ops[n],
                used[n],
            ));
            assert forall|i: int| 0 <= i < n implies can_be_told(#[trigger] ops[i], used[i]) by {
                assert(can_be_told(fewer[i], placements(stages, fewer)[i]));
            }
        } else {
            let i = choose|i: int|
                0 <= i < fewer.len() && !can_be_told(#[trigger] fewer[i], placements(stages, fewer)[i]);
            assert(!can_be_told(ops[i], used[i]));
        }
    }
}

/// A plan sets nothing but properties of the pipeline's own operations, by their ids.
pub proof fn law_only_own_properties_are_set(
    transform: ScanoutColorTransform,
    ops: Seq<OpModel>,
    k: int,
)
    requires
        transform.plan(ops) is Some,
        0 <= k < transform.plan(ops)->0.settings.len(),
    ensures
        ({
            let setting = transform.plan(ops)->0.settings[k];
            exists|i: int, name: Seq<char>|
                0 <= i < ops.len() && (#[trigger] ops[i]).id == setting.op && setting.op != 0
                    && #[trigger] ops[i].props.dom().contains(name) && ops[i].props[name]
                    == setting.property
        }),
{
    lemma_own_properties(transform.stages(), ops, k);
}

proof fn lemma_own_properties(stages: Stages, ops: Seq<OpModel>, k: int)
    requires
        programmed(stages, ops) is Some,
        0 <= k < programmed(stages, ops)->0.plan.settings.len(),
    ensures
        ({
            let setting = programmed(stages, ops)->0.plan.settings[k];
            exists|i: int, name: Seq<char>|
                0 <= i < ops.len() && (#[trigger] ops[i]).id == setting.op && setting.op != 0
                    && #[trigger] ops[i].props.dom().contains(name) && ops[i].props[name]
                    == setting.property
        }),
    decreases ops.len(),
{
    if ops.len() > 0 {
        let fewer = ops.drop_last();
        let before = programmed(stages, fewer)->0;
        let after = programmed(stages, ops)->0;
        let op = ops.last();
        let n = before.plan.settings.len();
        let setting = after.plan.settings[k];
        let used = before.stages.placement(op.kind);
        assert(before.plan.with_placement(op, used) == Some(after.plan));
        assert(ops[ops.len() - 1] == op);
        if k < n {
            lemma_own_properties(stages, fewer, k);
            assert(before.plan.settings[k] == setting);
            let (i, name) = choose|i: int, name: Seq<char>|
                0 <= i < fewer.len() && (#[trigger] fewer[i]).id == setting.op && setting.op != 0
                    && #[trigger] fewer[i].props.dom().contains(name) && fewer[i].props[name]
                    == setting.property;
            assert(ops[i] == fewer[i]);
            assert(ops[i].props.dom().contains(name));
        } else {
            let name = if k > n {
                "BYPASS"@
            } else {
                match used {
                    Placement::Curve(..) => "CURVE_1D_TYPE"@,
                    Placement::Gain(_) => "MULTIPLIER"@,
                    Placement::Matrix(..) => "DATA"@,
                    Placement::Idle => if op.bypassable {
                        "BYPASS"@
                    } else if op.kind is Multiplier {
                        "MULTIPLIER"@
                    } else {
                        "DATA"@
                    },
                }
            };
            assert(ops[ops.len() - 1].props.dom().contains(name));
        }
    }
}

/// Completing a plan changes no target and no value: a setting that refers to a matrix gets the
/// blob of that very matrix.
pub proof fn law_blobs_complete_a_plan(setting: Setting, blobs: Seq<u64>)
    ensures
        setting.resolved(blobs).op == setting.op,
        setting.resolved(blobs).property == setting.property,
        setting.value matches PlannedValue::Raw(value) ==> setting.resolved(blobs).value == value,
        setting.value matches PlannedValue::Blob(k) ==> setting.resolved(blobs).value
            == blobs[k as int],
{
}

/// The search for a curve finds the value that stands beside that very curve, the first if there
/// are several, and nothing only if the curve is not supported.
proof fn law_found_curves_are_supported(
    supported: Vec<(Curve1DType, u64)>,
    curve: Curve1DType,
    value: Option<u64>,
)
    requires
        call_ensures(find_curve, (&supported, curve), value),
    ensures
        value matches Some(value) ==> supported@.contains((curve, value)),
        value is None ==> forall|i: int|
            0 <= i < supported@.len() ==> (#[trigger] supported@[i]).0 != curve,
{
    law_selected_value_belongs_to_the_curve(supported@, curve);
}

/// A curve that an operation is used for is one of those of the transform.
pub proof fn law_curves_are_those_of_the_stages(stages: Stages, ops: Seq<OpModel>, i: int)
    requires
        0 <= i < ops.len(),
    ensures
        placements(stages, ops).len() == ops.len(),
        placements(stages, ops)[i] matches Placement::Curve(curve, _) ==> stages.decode == Some(curve)
            || stages.encode == Some(curve),
    decreases ops.len(),
{
    let fewer = ops.drop_last();
    lemma_placements_len(stages, ops);
    lemma_placements_len(stages, fewer);
    if i < fewer.len() {
        law_curves_are_those_of_the_stages(stages, fewer, i);
    } else {
        lemma_stages_shrink(stages, fewer);
        law_an_operation_takes_what_comes_next(stages_after(stages, fewer), ops.last().kind);
    }
}

/// No stage is added or changed on the way: each is as it was, or done.
proof fn lemma_stages_shrink(stages: Stages, ops: Seq<OpModel>)
    ensures
        ({
            let after = stages_after(stages, ops);
            &&& after.decode == stages.decode || after.decode is None
            &&& after.encode == stages.encode || after.encode is None
        }),
    decreases ops.len(),
{
    if ops.len() > 0 {
        lemma_stages_shrink(stages, ops.drop_last());
        law_an_operation_leaves_the_rest(stages_after(stages, ops.drop_last()), ops.last().kind);
    }
}

} // verus!
