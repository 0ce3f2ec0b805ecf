//! What color management promises to clients, in terms of what they ask and what they are told.

use std::collections::{HashMap, HashSet};

use vstd::prelude::*;

use crate::wayland::color::chromaticities::{point_in_triangle, Chromaticities};
use crate::wayland::color::creator::{
    CreatorReply, CreatorRequest, Decision, ImageDescriptionBuilder,
};
use crate::wayland::color::description::{
    Feature, ImageDescription, Primaries, RenderIntent, TransferFunction,
};
use crate::wayland::color::manager::{
    get_surface_description, send_image_description_info, surface_destroyed, Advertisement,
    ColorManagementState, ColorManagementSurfaceCachedState, ColorManagementSurfaceData,
    DescriptionError, FeedbackError, ImageDescriptionData, Information,
    ManagerError, ManagerReply, ManagerRequest, NewDescription, SurfaceError, SurfaceReply, SurfaceRequest,
};
use crate::wayland::color::{chromaticities, description, laws, manager};

verus! {

/// A new manager supports what it was given, and besides that only what every manager has to.
pub proof fn law_new_manager(
    tfs: Vec<TransferFunction>,
    primaries: Vec<Primaries>,
    features: Vec<Feature>,
    intents: Vec<RenderIntent>,
    state: ColorManagementState,
    f: Feature,
    i: RenderIntent,
)
    requires
        call_ensures(ColorManagementState::new, (tfs, primaries, features, intents), state),
    ensures
        state@.tfs == tfs@,
        state@.primaries == primaries@,
        state@.identities.len() == 0,
        state@.outputs.len() == 0,
        state@.features.contains(f) <==> features@.contains(f) || f == Feature::Parametric || (f
            == Feature::SetMasteringDisplayPrimaries && features@.contains(
            Feature::ExtendedTargetVolume,
        )),
        state@.intents.contains(i) <==> intents@.contains(i) || i == RenderIntent::Perceptual,
{
    manager::law_required_capabilities_are_advertised(features@, intents@);
    laws::law_only_what_is_needed_is_added(features@, intents@, f, i);
    if features@.contains(Feature::ExtendedTargetVolume) {
        assert(state@.features.contains(Feature::ExtendedTargetVolume));
    }
}

/// What is supported is what is advertised, and at last a client is told that this was all.
pub proof fn law_bind(
    state: &ColorManagementState,
    events: Vec<Advertisement>,
    f: Feature,
    tf: TransferFunction,
    p: Primaries,
    i: RenderIntent,
    supports: (bool, bool, bool),
)
    requires
        call_ensures(ColorManagementState::bind, (state,), events),
        call_ensures(ColorManagementState::supports, (state, f), supports.0),
        call_ensures(ColorManagementState::supports_tf, (state, tf), supports.1),
        call_ensures(ColorManagementState::supports_primaries, (state, p), supports.2),
    ensures
        events@.last() is Done,
        supports.0 <==> events@.contains(Advertisement::Feature(f)),
        supports.1 <==> events@.contains(Advertisement::TransferFunction(tf)),
        supports.2 <==> events@.contains(Advertisement::Primaries(p)),
        events@.contains(Advertisement::Intent(i)) <==> state@.intents.contains(i),
{
    laws::law_what_a_client_is_told(state@, i, f, tf, p);
}

/// Two descriptions get the same identity exactly if they are the same, however often and in
/// whatever order they are asked for; no identity is zero.
pub proof fn law_identity_for(
    state: &mut ColorManagementState,
    desc: ImageDescription,
    known: ImageDescription,
    identity: u32,
)
    requires
        call_ensures(ColorManagementState::identity_for, (state, desc), identity),
        old(state)@.well_formed(),
        old(state)@.identities.contains(known),
    ensures
        identity >= 1,
        identity == old(state)@.identity(known) <==> desc == known,
        final(state)@.identities[identity - 1] == desc,
        final(state)@.identity(known) == old(state)@.identity(known),
        final(state)@.features == old(state)@.features,
        final(state)@.outputs == old(state)@.outputs,
{
    manager::law_identities_are_stable(old(state)@, known, desc);
    laws::law_identities_count_up(old(state)@, desc);
    laws::law_identities_count_up(final(state)@, desc);
}

/// The feedback objects of a surface are told of another preferred description, all of those that
/// are alive, and are not told of the same one again.
pub proof fn law_preferred_changed(
    state: &mut ColorManagementState,
    data: &mut Option<ColorManagementSurfaceData>,
    desc: ImageDescription,
    alive: &HashSet<u64>,
    told: Option<(u32, Vec<u64>)>,
    feedback: u64,
)
    requires
        call_ensures(ColorManagementState::preferred_changed, (state, data, desc, alive), told),
        *old(data) is Some,
    ensures
        ({
            let before = (*old(data))->0@;
            let identity = final(state)@.identity(desc) as u32;
            &&& *final(data) is Some
            &&& (*final(data))->0@.last_preferred == Some(identity)
            &&& (*final(data))->0@.attached == before.attached
            &&& told is None <==> before.last_preferred == Some(identity)
            &&& told matches Some((id, objects)) ==> {
                &&& id == identity
                &&& objects@.contains(feedback) <==> before.feedbacks.contains(feedback)
                    && alive@.contains(feedback)
                &&& (*final(data))->0@.feedbacks == objects@
            }
        }),
{
    let before = (*old(data))->0@;
    let identity = final(state)@.identity(desc) as u32;
    laws::law_who_is_told_of_a_preference(before, identity, alive@, feedback);
}

/// When the description of an output changes, exactly the living objects of that output are told.
pub proof fn law_output_description_changed(
    state: &mut ColorManagementState,
    output: u64,
    resources: &HashMap<u64, u64>,
    alive: &HashSet<u64>,
    told: Vec<u64>,
)
    requires
        call_ensures(
            ColorManagementState::output_description_changed,
            (state, output, resources, alive),
            told,
        ),
    ensures
        forall|i: int|
            0 <= i < told@.len() ==> alive@.contains(#[trigger] told@[i]) && exists|k: int|
                0 <= k < old(state)@.outputs.len() && (#[trigger] old(state)@.outputs[k]).object
                    == told@[i] && resources@.contains_key(old(state)@.outputs[k].resource)
                    && resources@[old(state)@.outputs[k].resource] == output,
        forall|k: int|
            0 <= k < old(state)@.outputs.len() && alive@.contains(
                (#[trigger] old(state)@.outputs[k]).object,
            ) && resources@.contains_key(old(state)@.outputs[k].resource)
                && resources@[old(state)@.outputs[k].resource] == output ==> told@.contains(
                old(state)@.outputs[k].object,
            ),
        final(state)@.identities == old(state)@.identities,
{
    let outputs = old(state)@.outputs;
    let lives = |o: manager::OutputObject| alive@.contains(o.object);
    let living = outputs.filter(lives);
    let watches = |o: manager::OutputObject| o.watches(resources@, output);
    let watching = living.filter(watches);
    assert(told@ == watching.map_values(|o: manager::OutputObject| o.object));
    assert forall|i: int| 0 <= i < told@.len() implies alive@.contains(#[trigger] told@[i]) && exists|
        k: int,
    |
        0 <= k < outputs.len() && (#[trigger] outputs[k]).object == told@[i]
            && resources@.contains_key(outputs[k].resource) && resources@[outputs[k].resource]
            == output by {
        living.lemma_filter_pred(watches, i);
        assert(watching.contains(watching[i]));
        living.lemma_filter_contains_rev(watches, watching[i]);
        let j = choose|j: int| 0 <= j < living.len() && living[j] == watching[i];
        outputs.lemma_filter_pred(lives, j);
        assert(living.contains(living[j]));
        outputs.lemma_filter_contains_rev(lives, living[j]);
        let k = choose|k: int| 0 <= k < outputs.len() && outputs[k] == living[j];
        assert(outputs[k].object == told@[i]);
    }
    assert forall|k: int|
        0 <= k < outputs.len() && alive@.contains((#[trigger] outputs[k]).object)
            && resources@.contains_key(outputs[k].resource) && resources@[outputs[k].resource]
            == output implies told@.contains(outputs[k].object) by {
        outputs.lemma_filter_contains(lives, k);
        let j = choose|j: int| 0 <= j < living.len() && living[j] == outputs[k];
        living.lemma_filter_contains(watches, j);
        let i = choose|i: int| 0 <= i < watching.len() && watching[i] == outputs[k];
        assert(told@[i] == outputs[k].object);
    }
}

/// A surface's description is set exactly if the surface is alive, the intent is supported and the
/// description is ready; it is then pending as it was asked for. Otherwise nothing changes.
pub proof fn law_set_image_description(
    state: &ColorManagementState,
    data: ImageDescriptionData,
    wire: u32,
    alive: bool,
    pending: &mut ColorManagementSurfaceCachedState,
    reply: SurfaceReply,
)
    requires
        call_ensures(
            ColorManagementState::surface_request,
            (state, SurfaceRequest::SetImageDescription(data, wire), alive, pending),
            reply,
        ),
    ensures
        ({
            let supported = exists|intent: RenderIntent| #[trigger]
                state@.intents.contains(intent) && intent.wire() == wire;
            &&& !alive ==> (reply matches SurfaceReply::Error(e, _) && e == SurfaceError::Inert)
            &&& alive && !supported ==> (reply matches SurfaceReply::Error(e, _) && e
                == SurfaceError::RenderIntent)
            &&& alive && supported && data@ is None ==> (reply matches SurfaceReply::Error(e, _) && e
                == SurfaceError::ImageDescription)
            &&& reply is Error ==> *final(pending) == *old(pending)
            &&& alive && supported && data@ is Some ==> {
                &&& final(pending).description == data@
                &&& final(pending).render_intent.wire() == wire
                &&& reply is Changed <==> *final(pending) != *old(pending)
                &&& reply is Unchanged <==> *final(pending) == *old(pending)
            }
        }),
{
    let supported = exists|intent: RenderIntent| #[trigger]
        state@.intents.contains(intent) && intent.wire() == wire;
    assert(manager::supports_intent(state@, wire) <==> supported);
}

/// Unsetting takes the description and the intent back to what they are without being set, if the
/// surface is alive. A surface that goes away loses its description.
pub proof fn law_unset_image_description(
    state: &ColorManagementState,
    alive: bool,
    pending: &mut ColorManagementSurfaceCachedState,
    reply: SurfaceReply,
    data: &mut Option<ColorManagementSurfaceData>,
    left: &mut ColorManagementSurfaceCachedState,
    changed: bool,
)
    requires
        call_ensures(
            ColorManagementState::surface_request,
            (state, SurfaceRequest::UnsetImageDescription, alive, pending),
            reply,
        ),
        call_ensures(surface_destroyed, (data, left), changed),
    ensures
        alive ==> final(pending).description is None && final(pending).render_intent
            == RenderIntent::Perceptual,
        alive ==> (reply is Changed <==> *final(pending) != *old(pending)),
        !alive ==> reply is Error && *final(pending) == *old(pending),
        final(left).description is None,
        final(left).render_intent == RenderIntent::Perceptual,
        changed <==> old(left).description is Some,
        *final(data) is Some <==> *old(data) is Some,
        *old(data) is Some ==> !(*final(data))->0@.attached && (*final(data))->0@.feedbacks == (*old(
            data
        ))->0@.feedbacks,
{
}

/// Information is given of a description that is ready, unless it is the encoding of Windows.
pub proof fn law_get_information(
    data: &ImageDescriptionData,
    r: Result<ImageDescription, (DescriptionError, &'static str)>,
)
    requires
        call_ensures(ImageDescriptionData::get_information, (data,), r),
    ensures
        data@ is None ==> (r matches Err((e, _)) && e == DescriptionError::NotReady),
        data@ matches Some(desc) ==> (desc.windows_scrgb ==> (r matches Err((e, _)) && e
            == DescriptionError::NoInformation)),
        data@ matches Some(desc) ==> (!desc.windows_scrgb ==> (r matches Ok(d) && d == desc)),
{
}

/// What is told of a description is what it is, to objects that are alive.
pub proof fn law_send_information(
    alive: bool,
    desc: &ImageDescription,
    events: Vec<Information>,
    a: u32,
    b: u32,
)
    requires
        call_ensures(send_image_description_info, (alive, desc), events),
    ensures
        !alive ==> events@.len() == 0,
        alive ==> {
            let own = Chromaticities::named(desc.primaries);
            &&& events@.len() >= 5
            &&& events@[0] == Information::Primaries(own)
            &&& events@[1] == Information::PrimariesNamed(desc.primaries)
            &&& events@[2] == Information::TfNamed(desc.transfer)
            &&& events@[3] == Information::TargetPrimaries(
                if desc.mastering_primaries is Some {
                    desc.mastering_primaries->0
                } else {
                    own
                },
            )
            &&& events@.contains(Information::TargetLuminance(a, b)) <==> desc.mastering_luminance
                == Some((a, b))
            &&& events@.contains(Information::TargetMaxCll(a)) <==> desc.max_cll == Some(a)
            &&& events@.contains(Information::TargetMaxFall(a)) <==> desc.max_fall == Some(a)
            &&& events@.last() is Done
        },
{
    laws::law_what_is_told_of_a_description(*desc, a, b);
}

/// An output that is known is described as it is, and one that is not as plain sRGB.
pub proof fn law_output_request(
    state: &mut ColorManagementState,
    known: Option<ImageDescription>,
    new: NewDescription,
)
    requires
        call_ensures(ColorManagementState::output_request, (state, known), new),
    ensures
        new matches NewDescription::Ready(identity, data) && identity != 0 && (data@ matches Some(desc)
            && (match known {
            Some(known) => desc == known,
            None => desc.transfer == TransferFunction::Srgb && desc.primaries == Primaries::Srgb
                && desc.luminances is None && desc.max_cll is None && desc.max_fall is None
                && desc.mastering_primaries is None && desc.mastering_luminance is None
                && !desc.windows_scrgb,
        })),
{
}

/// A surface that is gone has no preferred description; any other has the one that is preferred.
pub proof fn law_feedback_request(
    state: &mut ColorManagementState,
    preferred: Option<ImageDescription>,
    r: Result<NewDescription, (FeedbackError, &'static str)>,
)
    requires
        call_ensures(ColorManagementState::feedback_request, (state, preferred), r),
    ensures
        preferred is None <==> r is Err,
        r matches Err((e, _)) ==> e == FeedbackError::Inert,
        r matches Ok(new) ==> (new matches NewDescription::Ready(identity, data) && data@ == preferred
            && identity != 0),
{
}

/// Each request to a creator sets its own parameter or is refused, as it is decided, and a
/// description that is created is the one that the parameters describe.
pub proof fn law_creator_requests(
    builder: &mut ImageDescriptionBuilder,
    request: CreatorRequest,
    state: &mut ColorManagementState,
    reply: CreatorReply,
)
    requires
        call_ensures(ImageDescriptionBuilder::request, (builder, request, state), reply),
    ensures
        match old(builder)@.decide(request, old(state)@) {
            Decision::Accept(after) => reply is Done && final(builder)@
                == after && final(state)@ == old(state)@,
            Decision::Error(error, _) => {
                &&& reply matches CreatorReply::Error(e, _) && e == error
                &&& final(builder)@ == old(builder)@ && final(state)@ == old(state)@
            },
            Decision::Fail => {
                &&& reply matches CreatorReply::Description(new) && new is Failed
                &&& final(state)@ == old(state)@
            },
            Decision::Ready(desc) => {
                &&& reply matches CreatorReply::Description(new) && (
                new matches NewDescription::Ready(_, data) && data@ == Some(desc))
                &&& Some(desc.transfer) == old(builder)@.transfer
                &&& Some(desc.primaries) == old(builder)@.primaries
                &&& final(state)@.identities.contains(desc)
            },
        },
{
    if request is Create {
        laws::law_when_a_description_is_created(old(builder)@, old(state)@);
    }
}

/// A point is in a triangle exactly if it is a mixture of its corners, and a gamut contains another
/// exactly if it contains its corners and its white point.
pub proof fn law_gamuts(
    p: (i32, i32),
    a: (i32, i32),
    b: (i32, i32),
    c: (i32, i32),
    inside: bool,
    outer: &Chromaticities,
    inner: &Chromaticities,
    contains: bool,
)
    requires
        call_ensures(point_in_triangle, (p, a, b, c), inside),
        call_ensures(Chromaticities::gamut_contains, (outer, inner), contains),
    ensures
        inside <==> exists|u: int, v: int, w: int| #[trigger]
            chromaticities::is_weighted_mean(p, a, b, c, u, v, w),
        contains <==> laws::is_mixture(inner.red, *outer) && laws::is_mixture(inner.green, *outer)
            && laws::is_mixture(inner.blue, *outer) && laws::is_mixture(inner.white, *outer),
{
    chromaticities::law_triangle_is_convex_hull(p, a, b, c);
    laws::law_contained_gamuts_are_mixtures(*outer, *inner);
}

/// High dynamic range is told by the transfer function, the primaries or the encoding of Windows.
/// The well-known descriptions are what they are named after.
pub proof fn law_descriptions(
    desc: &ImageDescription,
    hdr: bool,
    srgb: ImageDescription,
    windows: ImageDescription,
)
    requires
        call_ensures(ImageDescription::is_hdr, (desc,), hdr),
        call_ensures(ImageDescription::srgb, (), srgb),
        call_ensures(ImageDescription::windows_scrgb, (), windows),
    ensures
        hdr <==> desc.transfer == TransferFunction::St2084Pq || desc.transfer == TransferFunction::Hlg
            || desc.primaries == Primaries::Bt2020 || desc.windows_scrgb,
        srgb.transfer == TransferFunction::Srgb && srgb.primaries == Primaries::Srgb,
        srgb.luminances is None && srgb.mastering_primaries is None && !srgb.windows_scrgb,
        windows.transfer == TransferFunction::ExtLinear && windows.primaries == Primaries::Srgb,
        windows.windows_scrgb,
        windows.luminances == Some((0u32, 80u32, 203u32)),
        windows.mastering_primaries == Some(Chromaticities::named(Primaries::Bt2020)),
{
}

/// The state of a surface is committed and merged as it is.
pub proof fn law_surface_state(
    pending: &mut ColorManagementSurfaceCachedState,
    captured: ColorManagementSurfaceCachedState,
    into: &mut ColorManagementSurfaceCachedState,
    current: &ColorManagementSurfaceCachedState,
    r: (Option<ImageDescription>, RenderIntent),
)
    requires
        call_ensures(ColorManagementSurfaceCachedState::commit, (pending,), captured),
        call_ensures(ColorManagementSurfaceCachedState::merge_into, (captured, into), ()),
        call_ensures(get_surface_description, (current,), r),
    ensures
        captured == *old(pending),
        *final(pending) == *old(pending),
        *final(into) == *old(pending),
        r.0 == current.description,
        r.1 == current.render_intent,
{
}

/// A surface has one object at a time, and its feedback objects are those that were asked for and
/// are not gone.
pub proof fn law_surface_objects(
    attached: &mut ColorManagementSurfaceData,
    r: Result<(), ManagerError>,
    more: &mut ColorManagementSurfaceData,
    fewer: &mut ColorManagementSurfaceData,
    feedback: u64,
    other: u64,
)
    requires
        call_ensures(ColorManagementSurfaceData::attach, (attached,), r),
        call_ensures(ColorManagementSurfaceData::add_feedback, (more, feedback), ()),
        call_ensures(ColorManagementSurfaceData::remove_feedback, (fewer, feedback), ()),
    ensures
        final(attached)@.attached,
        r is Ok <==> !old(attached)@.attached,
        final(attached)@.feedbacks == old(attached)@.feedbacks,
        final(more)@.feedbacks == old(more)@.feedbacks.push(feedback),
        final(more)@.last_preferred == old(more)@.last_preferred,
        final(fewer)@.feedbacks.contains(other) <==> old(fewer)@.feedbacks.contains(other) && other
            != feedback,
        final(fewer)@.last_preferred == old(fewer)@.last_preferred,
{
    let stays = |f: u64| f != feedback;
    let before = old(fewer)@.feedbacks;
    let after = before.filter(stays);
    if after.contains(other) {
        let i = choose|i: int| 0 <= i < after.len() && after[i] == other;
        before.lemma_filter_pred(stays, i);
        before.lemma_filter_contains_rev(stays, other);
    }
    if before.contains(other) && other != feedback {
        let i = choose|i: int| 0 <= i < before.len() && before[i] == other;
        before.lemma_filter_contains(stays, i);
    }
}

/// Each request to the manager does its own thing: an output's object is remembered, a surface gets
/// one object, feedback is added, and what is not supported is refused.
pub proof fn law_manager_requests(
    state: &mut ColorManagementState,
    request: ManagerRequest,
    data: &mut Option<ColorManagementSurfaceData>,
    reply: ManagerReply,
)
    requires
        call_ensures(ColorManagementState::manager_request, (state, request, data), reply),
    ensures
        request matches ManagerRequest::GetOutput(object) ==> reply is Done && final(state)@.outputs
            == old(state)@.outputs.push(object),
        !(request is GetOutput) ==> final(state)@.outputs == old(state)@.outputs,
        request is GetSurface ==> *final(data) is Some && (*final(data))->0@.attached,
        request is GetSurface && *old(data) is Some && (*old(data))->0@.attached ==> (
        reply matches ManagerReply::Error(e, _) && e == ManagerError::SurfaceExists),
        request is GetSurface && (*old(data) is None || !(*old(data))->0@.attached) ==> reply is Done,
        request matches ManagerRequest::GetSurfaceFeedback(feedback) ==> reply is Done && *final(
            data
        ) is Some && (*final(data))->0@.feedbacks.contains(feedback),
        request is CreateIccCreator ==> (reply matches ManagerReply::Error(e, _) && e
            == ManagerError::UnsupportedFeature),
        request is CreateWindowsScrgb && !old(state)@.features.contains(Feature::WindowsScrgb) ==> (
        reply matches ManagerReply::Error(e, _) && e == ManagerError::UnsupportedFeature),
        request is CreateWindowsScrgb && old(state)@.features.contains(Feature::WindowsScrgb) ==> (
        reply matches ManagerReply::Description(new) && (new matches NewDescription::Ready(_, d) && (
        d@ matches Some(desc) && desc.windows_scrgb && desc.transfer == TransferFunction::ExtLinear))),
        final(state)@.features == old(state)@.features,
        final(state)@.tfs == old(state)@.tfs,
{
    if let ManagerRequest::GetSurfaceFeedback(feedback) = request {
        let feedbacks = (*final(data))->0@.feedbacks;
        assert(feedbacks[feedbacks.len() - 1] == feedback);
    }
    if request is CreateWindowsScrgb && old(state)@.features.contains(Feature::WindowsScrgb) {
        let new = reply->Description_0;
        let desc = choose|desc: ImageDescription|
            #![trigger desc.is_windows_encoding()]
            desc.is_windows_encoding() && new.is_ready(desc, final(state)@) && final(state)@ == old(
                state
            )@.identified(desc);
        assert(desc.is_windows_encoding());
    }
}

/// What stands on the wire leads back to what it was made of, and to nothing else.
pub proof fn law_wire(
    tf: TransferFunction,
    primaries: Primaries,
    intent: RenderIntent,
    sent: (u32, u32, u32),
    got: (Option<TransferFunction>, Option<Primaries>, Option<RenderIntent>),
)
    requires
        call_ensures(TransferFunction::to_wire, (tf,), sent.0),
        call_ensures(Primaries::to_wire, (primaries,), sent.1),
        call_ensures(RenderIntent::to_wire, (intent,), sent.2),
        call_ensures(TransferFunction::from_wire, (sent.0,), got.0),
        call_ensures(Primaries::from_wire, (sent.1,), got.1),
        call_ensures(RenderIntent::from_wire, (sent.2,), got.2),
    ensures
        got.0 == Some(tf),
        got.1 == Some(primaries),
        got.2 == Some(intent),
{
    description::law_wire_values_are_distinct(
        (tf, if got.0 is Some {
            got.0->0
        } else {
            tf
        }),
        (primaries, if got.1 is Some {
            got.1->0
        } else {
            primaries
        }),
        (intent, if got.2 is Some {
            got.2->0
        } else {
            intent
        }),
        (Feature::Parametric, Feature::Parametric),
    );
    assert(tf.wire() == sent.0);
    assert(primaries.wire() == sent.1);
    assert(intent.wire() == sent.2);
}

} // verus!
