//! What the discovery of color pipelines and their programming promise, in terms of what goes in
//! and what comes out.

use vstd::prelude::*;
use vstd::std_specs::cmp::PartialEqSpec;

use crate::backend::drm::colorop::{
    read_colorop, ColorPipeline, Curve1DType, Findings, KindModel, PipelineError, PipelineWalk,
    PropertyInfo, PropertyRecord, ReadColorOp, WalkStep, plane_color_pipelines, usable_pipelines,
};
use crate::backend::drm::fixed_point::{encode_matrix, to_s31_32, ONE};
use crate::backend::drm::transform::{
    PipelinePlan, Placement, PlannedValue, ResolvedColorPipeline, ScanoutColorTransform,
};
use crate::backend::drm::{colorop, colorop_laws, fixed_point, transform};

verus! {

/// A transform that is resolved is performed by the pipeline: each operation that is used is told
/// what it is used for, and what the operations do, in order, is the decoding, the gain, the matrix
/// and the encoding of the transform. A curve is selected by the value beside that very curve.
pub proof fn law_resolve(
    t: &ScanoutColorTransform,
    pipeline: &ColorPipeline,
    r: Option<PipelinePlan>,
    i: int,
)
    requires
        call_ensures(ScanoutColorTransform::resolve, (t, pipeline), r),
        0 <= i < pipeline@.len() <= usize::MAX,
    ensures
        r matches Some(plan) ==> {
            let used = transform::placements(t.stages(), pipeline@);
            let op = pipeline@[i];
            &&& plan.pipeline_id == pipeline.id
            &&& used.len() == pipeline@.len()
            &&& transform::is_told(plan@, op, used[i])
            &&& used[i] matches Placement::Curve(curve, value) ==> {
                &&& op.kind matches KindModel::Curve1D(supported) && supported.contains((curve, value))
                &&& t.decode == Some(curve) || t.encode == Some(curve)
                &&& plan.settings@.contains(
                    transform::Setting {
                        op: op.id,
                        property: op.props["CURVE_1D_TYPE"@],
                        value: PlannedValue::Raw(value),
                    },
                )
            }
            &&& op.bypassable ==> plan.settings@.contains(
                transform::Setting {
                    op: op.id,
                    property: op.props["BYPASS"@],
                    value: PlannedValue::Raw(
                        if used[i] is Idle {
                            1
                        } else {
                            0
                        },
                    ),
                },
            )
            &&& transform::all_atoms(used) == transform::curve_atoms(t.decode)
                + transform::gain_atoms(t.multiplier) + (match t.ctm {
                Some(ctm) => transform::matrix_atoms(ctm),
                None => Seq::empty(),
            }) + transform::curve_atoms(t.encode)
        },
        r is Some <==> {
            &&& transform::stages_after(t.stages(), pipeline@).is_empty()
            &&& forall|k: int|
                0 <= k < pipeline@.len() ==> transform::can_be_told(
                    #[trigger] pipeline@[k],
                    transform::placements(t.stages(), pipeline@)[k],
                )
        },
{
    let ops = pipeline@;
    transform::law_when_a_pipeline_is_programmed(*t, ops);
    if r is Some {
        transform::law_operations_are_told_what_to_do(*t, ops, i);
        transform::law_every_operation_is_programmed(*t, ops, i);
        transform::law_resolved_pipeline_performs_the_transform(*t, ops);
        transform::law_stages_are_those_of_the_transform(*t);
        transform::law_curves_are_those_of_the_stages(t.stages(), ops, i);
        let none = Seq::<transform::Atom>::empty();
        if t.multiplier == ONE {
            assert(transform::gain_atoms(t.multiplier) =~= none);
        }
    }
}

/// The identity does nothing, and only what does nothing is the identity.
pub proof fn law_identity(t: &ScanoutColorTransform, identity: bool, made: ScanoutColorTransform)
    requires
        call_ensures(ScanoutColorTransform::is_identity, (t,), identity),
        call_ensures(ScanoutColorTransform::identity, (), made),
    ensures
        identity <==> t.decode is None && t.multiplier == ONE && t.ctm is None && t.encode is None,
        made.decode is None && made.multiplier == ONE && made.ctm is None && made.encode is None,
{
}

/// A resolved pipeline sets what was planned, in order, with the blob of each matrix in place of the
/// matrix. It keeps the blobs.
pub proof fn law_complete_a_plan(
    plan: &PipelinePlan,
    blobs: Vec<u64>,
    resolved: ResolvedColorPipeline,
    i: int,
)
    requires
        call_ensures(ResolvedColorPipeline::new, (plan, blobs), resolved),
        0 <= i < plan.settings@.len(),
    ensures
        resolved@.pipeline_id == plan.pipeline_id,
        resolved@.blobs == blobs@,
        resolved@.props.len() == plan.settings@.len(),
        resolved@.props[i].op == plan.settings@[i].op,
        resolved@.props[i].property == plan.settings@[i].property,
        plan.settings@[i].value matches PlannedValue::Raw(value) ==> resolved@.props[i].value == value,
        plan.settings@[i].value matches PlannedValue::Blob(k) ==> resolved@.props[i].value
            == blobs@[k as int],
{
    transform::law_blobs_complete_a_plan(plan.settings@[i], blobs@);
}

/// An operation is read under the id that was asked for, as what its properties say, and it is
/// refused exactly if its type is not known and it cannot be bypassed.
pub proof fn law_read_colorop(
    id: u32,
    records: &Vec<PropertyRecord>,
    r: Result<ReadColorOp, PipelineError>,
)
    requires
        call_ensures(read_colorop, (id, records), r),
    ensures
        ({
            let found = Findings::from_records(records@);
            &&& r is Err <==> found.model() is Unknown && !found.bypassable
            &&& r matches Err(e) ==> e == PipelineError::UnknownNonBypassable
            &&& r matches Ok(read) ==> {
                &&& read.op@.id == id
                &&& read.op@.kind == found.model()
                &&& read.op@.bypassable == found.bypassable
                &&& read.op@.props == found.props
                &&& read.next == found.next
            }
        }),
{
    colorop_laws::law_the_type_names_the_kind(Findings::from_records(records@));
}

/// A walk starts at the first operation, without having read any, and ends where there is no next
/// one. A chain that is too long, or comes back, is given up.
pub proof fn law_walk(first: u64, start: PipelineWalk, walk: &PipelineWalk, step: WalkStep)
    requires
        call_ensures(PipelineWalk::start, (first,), start),
        call_ensures(PipelineWalk::step, (walk,), step),
    ensures
        start@.ops.len() == 0,
        start@.first == first,
        start@.next == first % 0x1_0000_0000,
        step is Done <==> walk@.next == 0,
        step matches WalkStep::Read(id) ==> id == walk@.next && walk@.ops.len() != 64 && forall|i: int|
            0 <= i < walk@.ops.len() ==> (#[trigger] walk@.ops[i]).id != id,
        step matches WalkStep::Abort(e) ==> e == PipelineError::ChainTooLongOrCyclic && (
        walk@.ops.len() == 64 || exists|i: int|
            0 <= i < walk@.ops.len() && (#[trigger] walk@.ops[i]).id == walk@.next),
{
    colorop_laws::law_where_a_walk_goes(walk@, 0);
}

/// A walk that goes on has read one operation more, under the id at which it stood, and stands at
/// the one that is named as its successor.
pub proof fn law_advance(
    walk: &mut PipelineWalk,
    records: &Vec<PropertyRecord>,
    r: Result<(), PipelineError>,
)
    requires
        call_ensures(PipelineWalk::advance, (walk, records), r),
    ensures
        ({
            let found = Findings::from_records(records@);
            &&& r is Err <==> found.model() is Unknown && !found.bypassable
            &&& r is Err ==> final(walk)@ == old(walk)@
            &&& r is Ok ==> {
                &&& final(walk)@.ops.len() == old(walk)@.ops.len() + 1
                &&& old(walk)@.ops.is_prefix_of(final(walk)@.ops)
                &&& final(walk)@.ops.last().id == old(walk)@.next
                &&& final(walk)@.ops.last().kind == found.model()
                &&& final(walk)@.ops.last().bypassable == found.bypassable
                &&& final(walk)@.ops.last().props == found.props
                &&& final(walk)@.next == found.next
                &&& final(walk)@.first == old(walk)@.first
            }
        }),
{
    colorop_laws::law_the_type_names_the_kind(Findings::from_records(records@));
}

/// A finished walk is a pipeline under the value at which it was started, with the operations that
/// were read, in order.
pub proof fn law_finished_walks(walk: PipelineWalk, pipeline: ColorPipeline)
    requires
        call_ensures(PipelineWalk::finish, (walk,), pipeline),
    ensures
        pipeline.id == walk@.first,
        pipeline@ == walk@.ops,
{
}

/// The pipelines of a plane are the values of its first pipeline property, in order and without the
/// zero.
pub proof fn law_pipelines_of_a_plane(infos: &Vec<Option<PropertyInfo>>, values: Vec<u64>, i: int)
    requires
        call_ensures(plane_color_pipelines, (infos,), values),
        0 <= i < infos@.len(),
        forall|k: int|
            0 <= k < i ==> !((#[trigger] infos@[k]) matches Some(info) && info.name matches Some(name)
                && name@ == "COLOR_PIPELINE"@),
        infos@[i] matches Some(info) && info.name matches Some(name) && name@ == "COLOR_PIPELINE"@,
        infos@[i]->0.entries is Some,
    ensures
        ({
            let entries = infos@[i]->0.entries->0@;
            values@ == Seq::new(entries.len(), |k: int| entries[k].value).filter(|v: u64| v != 0)
        }),
{
    let none = Seq::<colorop::EntryModel>::empty();
    let e = colorop::EntryModel { value: 0, name: None };
    colorop_laws::law_advertised_pipelines(infos@, i, none, none, e);
    let entries = infos@[i]->0.entries->0@;
    let models = entries.map_values(|e: colorop::EnumEntry| e@);
    assert(models.map_values(|e: colorop::EntryModel| e.value) =~= Seq::new(
        entries.len(),
        |k: int| entries[k].value,
    ));
}

/// What can be used is what could be walked: nothing is left out, and nothing is added.
pub proof fn law_usable(
    walks: Vec<Option<ColorPipeline>>,
    pipelines: Vec<ColorPipeline>,
    i: int,
)
    requires
        call_ensures(usable_pipelines, (walks,), pipelines),
        0 <= i < walks@.len(),
    ensures
        walks@[i] matches Some(pipeline) ==> pipelines@.contains(pipeline),
        pipelines@ == colorop::successes(walks@.take(i)) + colorop::successes(walks@.skip(i)),
{
    colorop::law_unusable_pipelines_hide_no_others(walks@, i);
    assert(walks@ =~= walks@.take(i) + walks@.skip(i));
    let none = Seq::<Option<ColorPipeline>>::empty();
    if pipelines@.len() > 0 {
        colorop_laws::law_usable_pipelines_in_order(walks@.take(i), walks@.skip(i), pipelines@[0]);
    } else {
        colorop_laws::law_usable_pipelines_in_order(
            walks@.take(i),
            walks@.skip(i),
            arbitrary(),
        );
    }
}

/// A curve is found by its own name, and by no other.
pub proof fn law_curve_names(curve: &Curve1DType, text: &str, name: &'static str, found: Option<Curve1DType>)
    requires
        call_ensures(Curve1DType::kernel_name, (curve,), name),
        call_ensures(Curve1DType::from_kernel_name, (text,), found),
    ensures
        text@ == name@ ==> found == Some(*curve),
        found == Some(*curve) ==> text@ == name@,
{
    colorop::law_names_lead_back(*curve);
    if found == Some(*curve) {
        let c = choose|c: Curve1DType| #[trigger] c.name() == text@;
        assert(c.name() == text@);
    }
}

/// A number is encoded in sign and magnitude, to the nearest unit, and a matrix number by number.
pub proof fn law_encoding(bits: u64, fixed: u64, matrix: &[u64; 12], encoded: [u64; 12], i: int)
    requires
        call_ensures(to_s31_32, (bits,), fixed),
        call_ensures(encode_matrix, (matrix,), encoded),
        0 <= i < 12,
    ensures
        fixed % 0x8000_0000_0000_0000 == fixed_point::magnitude(bits),
        fixed >= 0x8000_0000_0000_0000 <==> bits >= 0x8000_0000_0000_0000,
        encoded@[i] % 0x8000_0000_0000_0000 == fixed_point::magnitude(matrix@[i]),
        encoded@[i] >= 0x8000_0000_0000_0000 <==> matrix@[i] >= 0x8000_0000_0000_0000,
{
    fixed_point::lemma_magnitude_range(bits);
    fixed_point::lemma_magnitude_range(matrix@[i]);
}

/// Two resolutions are the same exactly if they select the same pipeline and set the same properties
/// to the same values, whatever blobs they keep.
pub proof fn law_same_resolution(a: ResolvedColorPipeline, b: ResolvedColorPipeline)
    ensures
        a.eq_spec(&b) <==> a@.pipeline_id == b@.pipeline_id && a@.props == b@.props,
        a.eq_spec(&a),
        a.eq_spec(&b) ==> b.eq_spec(&a),
{
}

} // verus!
