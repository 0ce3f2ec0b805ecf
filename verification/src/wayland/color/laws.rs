//! What image descriptions promise, and who is told of them.

use vstd::prelude::*;
use vstd::std_specs::cmp::PartialEqSpec;

use crate::wayland::color::chromaticities;
use crate::wayland::color::chromaticities::Chromaticities;
use crate::wayland::color::creator::{BuilderModel, CreatorRequest, Decision};
use crate::wayland::color::description::{
    Feature, ImageDescription, Primaries, RenderIntent, TransferFunction,
};
use crate::wayland::color::manager;
use crate::wayland::color::manager::{
    Advertisement, CreatorError, Information, ManagerModel, NewDescription, OutputObject,
    SurfaceDataModel,
};

verus! {

/// The named primaries are those of the standards that they are named after, in millionths. Several
/// of them share corners: those of Adobe differ from those of sRGB only in green, where they are
/// those of PAL-M; those of PAL differ from sRGB only in green; the two of P3 only in white.
pub proof fn law_named_primaries(primaries: Primaries)
    ensures
        ({
            let c = Chromaticities::named(primaries);
            let srgb = Chromaticities::named(Primaries::Srgb);
            let pal_m = Chromaticities::named(Primaries::PalM);
            let p3 = Chromaticities::named(Primaries::DciP3);
            &&& primaries is Srgb ==> c.red == (640_000i32, 330_000i32) && c.green == (
                300_000i32,
                600_000i32,
            ) && c.blue == (150_000i32, 60_000i32) && c.white == (312_700i32, 329_000i32)
            &&& primaries is Pal ==> c.green == (290_000i32, 600_000i32) && c.red == srgb.red && c.blue
                == srgb.blue && c.white == srgb.white
            &&& primaries is AdobeRgb ==> c.green == pal_m.green && c.red == srgb.red && c.blue
                == srgb.blue && c.white == srgb.white
            &&& primaries is PalM ==> c.red == (670_000i32, 330_000i32) && c.green == (
                210_000i32,
                710_000i32,
            ) && c.blue == (140_000i32, 80_000i32) && c.white == (310_000i32, 316_000i32)
            &&& primaries is Ntsc ==> c.red == (630_000i32, 340_000i32) && c.green == (
                310_000i32,
                595_000i32,
            ) && c.blue == (155_000i32, 70_000i32) && c.white == srgb.white
            &&& primaries is GenericFilm ==> c.red == (681_000i32, 319_000i32) && c.green == (
                243_000i32,
                692_000i32,
            ) && c.blue == (145_000i32, 49_000i32) && c.white == pal_m.white
            &&& primaries is Bt2020 ==> c.red == (708_000i32, 292_000i32) && c.green == (
                170_000i32,
                797_000i32,
            ) && c.blue == (131_000i32, 46_000i32) && c.white == srgb.white
            &&& primaries is Cie1931Xyz ==> c.red == (1_000_000i32, 0i32) && c.green == (
                0i32,
                1_000_000i32,
            ) && c.blue == (0i32, 0i32) && c.white == (333_333i32, 333_333i32)
            &&& primaries is DciP3 ==> c.red == (680_000i32, 320_000i32) && c.green == (
                265_000i32,
                690_000i32,
            ) && c.blue == srgb.blue && c.white == (314_000i32, 351_000i32)
            &&& primaries is DisplayP3 ==> c.red == p3.red && c.green == p3.green && c.blue == p3.blue
                && c.white == srgb.white
        }),
{
}

/// A gamut contains another exactly if each of the three corners of the other, and its white point,
/// is a mixture of the corners of the first.
pub proof fn law_contained_gamuts_are_mixtures(outer: Chromaticities, inner: Chromaticities)
    ensures
        outer.contains_gamut(inner) <==> {
            &&& is_mixture(inner.red, outer)
            &&& is_mixture(inner.green, outer)
            &&& is_mixture(inner.blue, outer)
            &&& is_mixture(inner.white, outer)
        },
{
    let (r, g, b) = (outer.red, outer.green, outer.blue);
    chromaticities::law_triangle_is_convex_hull(inner.red, r, g, b);
    chromaticities::law_triangle_is_convex_hull(inner.green, r, g, b);
    chromaticities::law_triangle_is_convex_hull(inner.blue, r, g, b);
    chromaticities::law_triangle_is_convex_hull(inner.white, r, g, b);
}

/// Whether a point can be mixed from the corners of a gamut.
pub open spec fn is_mixture(p: (i32, i32), gamut: Chromaticities) -> bool {
    exists|u: int, v: int, w: int| #[trigger]
        chromaticities::is_weighted_mean(p, gamut.red, gamut.green, gamut.blue, u, v, w)
}

/// Content is of high dynamic range exactly if its transfer function says so, or its primaries do,
/// or it is in the encoding that Windows uses for that. Plain sRGB is not, and that encoding is.
pub proof fn law_high_dynamic_range(desc: ImageDescription)
    ensures
        desc.transfer == TransferFunction::St2084Pq || desc.transfer == TransferFunction::Hlg
            ==> desc.hdr(),
        desc.primaries == Primaries::Bt2020 ==> desc.hdr(),
        desc.windows_scrgb ==> desc.hdr(),
        desc.hdr() && desc.primaries != Primaries::Bt2020 && !desc.windows_scrgb ==> desc.transfer
            == TransferFunction::St2084Pq || desc.transfer == TransferFunction::Hlg,
        desc.is_plain_srgb() ==> !desc.hdr(),
        desc.is_windows_encoding() ==> desc.hdr(),
{
}

/// Plain sRGB says nothing beyond its transfer function and its primaries. The encoding of Windows
/// is linear, with the corners of sRGB, extends to those of BT.2020, and has its white at 80 and
/// its reference white at 203 candelas per square meter.
pub proof fn law_well_known_descriptions(desc: ImageDescription)
    ensures
        desc.is_plain_srgb() <==> desc == (ImageDescription {
            transfer: TransferFunction::Srgb,
            primaries: Primaries::Srgb,
            max_cll: None,
            max_fall: None,
            mastering_luminance: None,
            mastering_primaries: None,
            luminances: None,
            windows_scrgb: false,
        }),
        desc.is_windows_encoding() <==> desc == (ImageDescription {
            transfer: TransferFunction::ExtLinear,
            primaries: Primaries::Srgb,
            max_cll: None,
            max_fall: None,
            mastering_luminance: None,
            mastering_primaries: Some(Chromaticities::named(Primaries::Bt2020)),
            luminances: Some((0u32, 80u32, 203u32)),
            windows_scrgb: true,
        }),
{
}

/// Nothing is advertised that was not asked for, besides what has to be: what is asked for comes
/// first, in its order, and then what is missing.
pub proof fn law_only_what_is_needed_is_added(
    features: Seq<Feature>,
    intents: Seq<RenderIntent>,
    feature: Feature,
    intent: RenderIntent,
)
    ensures
        features.is_prefix_of(manager::completed_features(features)),
        intents.is_prefix_of(manager::completed_intents(intents)),
        manager::completed_features(features).contains(feature) && !features.contains(feature)
            ==> feature == Feature::Parametric || (feature == Feature::SetMasteringDisplayPrimaries
            && features.contains(Feature::ExtendedTargetVolume)),
        manager::completed_intents(intents).contains(intent) && !intents.contains(intent) ==> intent
            == RenderIntent::Perceptual,
        features.no_duplicates() ==> manager::completed_features(features).no_duplicates(),
        intents.no_duplicates() ==> manager::completed_intents(intents).no_duplicates(),
{
    let parametric = if features.contains(Feature::Parametric) {
        features
    } else {
        features.push(Feature::Parametric)
    };
    assert forall|f: Feature| parametric.contains(f) implies features.contains(f) || f
        == Feature::Parametric by {
        let i = choose|i: int| 0 <= i < parametric.len() && parametric[i] == f;
        if i < features.len() {
            assert(features[i] == f);
        }
    }
    let all = manager::completed_features(features);
    if all.contains(feature) {
        let i = choose|i: int| 0 <= i < all.len() && all[i] == feature;
        if i < parametric.len() {
            assert(parametric[i] == feature);
        }
    }
    let every = manager::completed_intents(intents);
    if every.contains(intent) {
        let i = choose|i: int| 0 <= i < every.len() && every[i] == intent;
        if i < intents.len() {
            assert(intents[i] == intent);
        }
    }
}

/// A client that binds is told of exactly the supported intents, features, transfer functions and
/// primaries, and at last that this was all.
pub proof fn law_what_a_client_is_told(
    m: ManagerModel,
    intent: RenderIntent,
    feature: Feature,
    tf: TransferFunction,
    primaries: Primaries,
)
    ensures
        ({
            let events = m.advertised();
            &&& events.len() == m.intents.len() + m.features.len() + m.tfs.len() + m.primaries.len() + 1
            &&& events.last() is Done
            &&& events.contains(Advertisement::Intent(intent)) <==> m.intents.contains(intent)
            &&& events.contains(Advertisement::Feature(feature)) <==> m.features.contains(feature)
            &&& events.contains(Advertisement::TransferFunction(tf)) <==> m.tfs.contains(tf)
            &&& events.contains(Advertisement::Primaries(primaries)) <==> m.primaries.contains(
                primaries,
            )
        }),
{
    let events = m.advertised();
    let a = m.intents.len() as int;
    let b = a + m.features.len();
    let c = b + m.tfs.len();
    assert forall|i: int| 0 <= i < m.intents.len() implies events[i] == Advertisement::Intent(
        #[trigger] m.intents[i],
    ) by {}
    assert forall|i: int| 0 <= i < m.features.len() implies events[a + i] == Advertisement::Feature(
        #[trigger] m.features[i],
    ) by {}
    assert forall|i: int| 0 <= i < m.tfs.len() implies events[b + i]
        == Advertisement::TransferFunction(#[trigger] m.tfs[i]) by {}
    assert forall|i: int| 0 <= i < m.primaries.len() implies events[c + i]
        == Advertisement::Primaries(#[trigger] m.primaries[i]) by {}
    assert forall|i: int| 0 <= i < events.len() implies match #[trigger] events[i] {
        Advertisement::Intent(x) => m.intents.contains(x),
        Advertisement::Feature(x) => m.features.contains(x),
        Advertisement::TransferFunction(x) => m.tfs.contains(x),
        Advertisement::Primaries(x) => m.primaries.contains(x),
        Advertisement::Done => true,
    } by {
        if i < a {
            assert(events[i] == Advertisement::Intent(m.intents[i]));
        } else if i < b {
            assert(events[i] == Advertisement::Feature(m.features[i - a]));
        } else if i < c {
            assert(events[i] == Advertisement::TransferFunction(m.tfs[i - b]));
        } else if i < events.len() - 1 {
            assert(events[i] == Advertisement::Primaries(m.primaries[i - c]));
        }
    }
    if m.intents.contains(intent) {
        let i = choose|i: int| 0 <= i < m.intents.len() && m.intents[i] == intent;
        assert(events[i] == Advertisement::Intent(intent));
    }
    if m.features.contains(feature) {
        let i = choose|i: int| 0 <= i < m.features.len() && m.features[i] == feature;
        assert(events[a + i] == Advertisement::Feature(feature));
    }
    if m.tfs.contains(tf) {
        let i = choose|i: int| 0 <= i < m.tfs.len() && m.tfs[i] == tf;
        assert(events[b + i] == Advertisement::TransferFunction(tf));
    }
    if m.primaries.contains(primaries) {
        let i = choose|i: int| 0 <= i < m.primaries.len() && m.primaries[i] == primaries;
        assert(events[c + i] == Advertisement::Primaries(primaries));
    }
}

/// An identity stands for one description: the number that a description has counts the
/// descriptions up to it in the order in which they were first asked for. A description that is
/// known changes nothing, and a new one gets the next number.
pub proof fn law_identities_count_up(m: ManagerModel, desc: ImageDescription)
    requires
        m.well_formed(),
    ensures
        m.identities.contains(desc) ==> m.identified(desc) == m && m.identities[m.identity(desc) - 1]
            == desc,
        !m.identities.contains(desc) ==> {
            &&& m.identified(desc).identities == m.identities.push(desc)
            &&& m.identified(desc).identity(desc) == m.identities.len() + 1
        },
        m.identified(desc).tfs == m.tfs && m.identified(desc).primaries == m.primaries,
        m.identified(desc).features == m.features && m.identified(desc).intents == m.intents,
        m.identified(desc).outputs == m.outputs,
        m.has_room() ==> m.can_identify(desc),
        m.identities.contains(desc) && m.identities.len() <= u32::MAX ==> m.can_identify(desc),
{
    let after = m.identified(desc);
    if !m.identities.contains(desc) {
        let n = m.identities.len() as int;
        assert(after.identities[n] == desc);
        let i = after.identities.index_of(desc);
        assert(0 <= i < after.identities.len() && after.identities[i] == desc);
        if i < n {
            assert(m.identities[i] == desc);
        }
    } else {
        let i = m.identities.index_of(desc);
        assert(0 <= i < m.identities.len() && m.identities[i] == desc);
    }
}

/// Of the objects that were handed out, exactly the living ones stay, in their order. Those of an
/// output are the ones whose resource stands for that very output.
pub proof fn law_living_objects_stay(
    objects: Seq<u64>,
    object: u64,
    outputs: Seq<OutputObject>,
    output: OutputObject,
    alive: Set<u64>,
    resources: Map<u64, u64>,
    id: u64,
)
    ensures
        manager::living(objects.push(object), alive) == (if alive.contains(object) {
            manager::living(objects, alive).push(object)
        } else {
            manager::living(objects, alive)
        }),
        manager::living(Seq::empty(), alive).len() == 0,
        manager::living_outputs(outputs.push(output), alive) == (if alive.contains(output.object) {
            manager::living_outputs(outputs, alive).push(output)
        } else {
            manager::living_outputs(outputs, alive)
        }),
        manager::living_outputs(Seq::empty(), alive).len() == 0,
        manager::watching(outputs.push(output), resources, id) == (if resources.dom().contains(
            output.resource,
        ) && resources[output.resource] == id {
            manager::watching(outputs, resources, id).push(output.object)
        } else {
            manager::watching(outputs, resources, id)
        }),
        manager::watching(Seq::empty(), resources, id).len() == 0,
{
    reveal(Seq::filter);
    assert(objects.push(object).drop_last() =~= objects);
    assert(outputs.push(output).drop_last() =~= outputs);
    assert(outputs.push(output).last() == output);
    let watches = |o: OutputObject| o.watches(resources, id);
    if output.watches(resources, id) {
        assert(outputs.push(output).filter(watches) =~= outputs.filter(watches).push(output));
        assert(manager::watching(outputs.push(output), resources, id) =~= manager::watching(
            outputs,
            resources,
            id,
        ).push(output.object));
    } else {
        assert(outputs.push(output).filter(watches) =~= outputs.filter(watches));
    }
}

/// A surface's feedback objects are told of a preferred description exactly if it is another than
/// the last one that they were told of. Then all living ones are told, and the dead ones forgotten.
pub proof fn law_who_is_told_of_a_preference(
    data: SurfaceDataModel,
    identity: u32,
    alive: Set<u64>,
    feedback: u64,
)
    ensures
        data.told_of(identity, alive) is None <==> data.last_preferred == Some(identity),
        data.told_of(identity, alive) matches Some(told) ==> (told.contains(feedback)
            <==> data.feedbacks.contains(feedback) && alive.contains(feedback)),
        data.told_of(identity, alive) matches Some(told) ==> data.informed(identity, alive).feedbacks
            == told,
        data.told_of(identity, alive) is None ==> data.informed(identity, alive) == data,
        data.informed(identity, alive).last_preferred == Some(identity),
        data.informed(identity, alive).attached == data.attached,
{
    let lives = |o: u64| alive.contains(o);
    let told = data.feedbacks.filter(lives);
    if told.contains(feedback) {
        let i = choose|i: int| 0 <= i < told.len() && told[i] == feedback;
        data.feedbacks.lemma_filter_pred(lives, i);
        data.feedbacks.lemma_filter_contains_rev(lives, feedback);
    }
    if data.feedbacks.contains(feedback) && alive.contains(feedback) {
        let i = choose|i: int| 0 <= i < data.feedbacks.len() && data.feedbacks[i] == feedback;
        data.feedbacks.lemma_filter_contains(lives, i);
    }
}

/// A description that is ready is the one that it stands for, under the identity by which the
/// manager knows it. One that failed stands for none.
pub proof fn law_ready_or_failed(
    new: NewDescription,
    desc: ImageDescription,
    other: ImageDescription,
    m: ManagerModel,
    reason: Seq<char>,
)
    requires
        m.well_formed(),
    ensures
        new.is_ready(desc, m) ==> (new matches NewDescription::Ready(identity, data) && data@ == Some(
            desc,
        ) && 1 <= identity <= m.identities.len() && m.identities[identity - 1] == desc),
        new.is_ready(desc, m) && new.is_ready(other, m) ==> desc == other,
        new.has_failed(reason) ==> (new matches NewDescription::Failed(msg, data) && msg@ == reason
            && data@ is None),
        !(new.is_ready(desc, m) && new.has_failed(reason)),
{
    if new.is_ready(desc, m) {
        let i = m.identities.index_of(desc);
        assert(0 <= i < m.identities.len() && m.identities[i] == desc);
    }
}

/// A client that asks what a description is, is told its primaries by their chromaticities and by
/// their name, its transfer function, and the primaries that it aims at: those that were set, or
/// its own. It is told each of the luminances exactly if it is known, and at last that this was all.
pub proof fn law_what_is_told_of_a_description(desc: ImageDescription, a: u32, b: u32)
    ensures
        ({
            let events = manager::information(desc);
            let own = Chromaticities::named(desc.primaries);
            &&& events.len() >= 5
            &&& events[0] == Information::Primaries(own)
            &&& events[1] == Information::PrimariesNamed(desc.primaries)
            &&& events[2] == Information::TfNamed(desc.transfer)
            &&& desc.mastering_primaries matches Some(target) ==> events[3]
                == Information::TargetPrimaries(target)
            &&& desc.mastering_primaries is None ==> events[3] == Information::TargetPrimaries(own)
            &&& events.contains(Information::TargetLuminance(a, b)) <==> desc.mastering_luminance
                == Some((a, b))
            &&& events.contains(Information::TargetMaxCll(a)) <==> desc.max_cll == Some(a)
            &&& events.contains(Information::TargetMaxFall(a)) <==> desc.max_fall == Some(a)
            &&& events.last() is Done
            &&& forall|i: int|
                0 <= i < events.len() && #[trigger] events[i] is Done ==> i == events.len() - 1
        }),
{
    let events = manager::information(desc);
    let l: int = if desc.mastering_luminance is Some {
        1
    } else {
        0
    };
    let c: int = if desc.max_cll is Some {
        1
    } else {
        0
    };
    if let Some((min, max)) = desc.mastering_luminance {
        assert(events[4] == Information::TargetLuminance(min, max));
    }
    if let Some(max_cll) = desc.max_cll {
        assert(events[4 + l] == Information::TargetMaxCll(max_cll));
    }
    if let Some(max_fall) = desc.max_fall {
        assert(events[4 + l + c] == Information::TargetMaxFall(max_fall));
    }
}

/// A parameter is set exactly once: a request for one that can be set once is refused if it is set,
/// after the feature has been checked, and one that is accepted changes that parameter alone.
pub proof fn law_requests_set_one_parameter(builder: BuilderModel, m: ManagerModel, wire: u32)
    ensures
        match builder.decide(CreatorRequest::SetTfNamed(wire), m) {
            Decision::Accept(after) => {
                &&& builder.transfer is None
                &&& after.transfer matches Some(tf) && m.tfs.contains(tf) && tf.wire() == wire
                &&& after == (BuilderModel { transfer: after.transfer, ..builder })
            },
            Decision::Error(error, _) => {
                &&& builder.transfer is Some <==> error == CreatorError::AlreadySet
                &&& builder.transfer is None ==> error == CreatorError::InvalidTf && forall|
                    tf: TransferFunction,
                | #[trigger] m.tfs.contains(tf) ==> tf.wire() != wire
            },
            _ => false,
        },
        match builder.decide(CreatorRequest::SetPrimariesNamed(wire), m) {
            Decision::Accept(after) => {
                &&& builder.primaries is None
                &&& after.primaries matches Some(p) && m.primaries.contains(p) && p.wire() == wire
                &&& after == (BuilderModel { primaries: after.primaries, ..builder })
            },
            Decision::Error(error, _) => {
                &&& builder.primaries is Some <==> error == CreatorError::AlreadySet
                &&& builder.primaries is None ==> error == CreatorError::InvalidPrimariesNamed && forall|
                    p: Primaries,
                | #[trigger] m.primaries.contains(p) ==> p.wire() != wire
            },
            _ => false,
        },
        builder.decide(CreatorRequest::SetMaxCll(wire), m) == Decision::Accept(
            BuilderModel { max_cll: Some(wire), ..builder },
        ),
        builder.decide(CreatorRequest::SetMaxFall(wire), m) == Decision::Accept(
            BuilderModel { max_fall: Some(wire), ..builder },
        ),
{
}

/// The luminances of the content and of the mastering display are accepted exactly if that is
/// supported and they are in order; those of the content only once. The minimum is given in ten
/// thousandths of the unit of the others.
pub proof fn law_luminances_are_checked(
    builder: BuilderModel,
    m: ManagerModel,
    min: u32,
    max: u32,
    reference: u32,
)
    ensures
        match builder.decide(CreatorRequest::SetMasteringLuminance(min, max), m) {
            Decision::Accept(after) => {
                &&& m.features.contains(Feature::SetMasteringDisplayPrimaries)
                &&& 10000 * max > min
                &&& after == (BuilderModel { mastering_luminance: Some((min, max)), ..builder })
            },
            Decision::Error(error, _) => {
                &&& !m.features.contains(Feature::SetMasteringDisplayPrimaries) <==> error
                    == CreatorError::UnsupportedFeature
                &&& m.features.contains(Feature::SetMasteringDisplayPrimaries) ==> error
                    == CreatorError::InvalidLuminance && 10000 * max <= min
            },
            _ => false,
        },
        match builder.decide(CreatorRequest::SetLuminances(min, max, reference), m) {
            Decision::Accept(after) => {
                &&& m.features.contains(Feature::SetLuminances)
                &&& builder.luminances is None
                &&& 10000 * max > min && 10000 * reference > min
                &&& after == (BuilderModel { luminances: Some((min, max, reference)), ..builder })
            },
            Decision::Error(error, _) => {
                &&& !m.features.contains(Feature::SetLuminances) <==> error
                    == CreatorError::UnsupportedFeature
                &&& m.features.contains(Feature::SetLuminances) && builder.luminances is Some <==> error
                    == CreatorError::AlreadySet
                &&& error == CreatorError::InvalidLuminance ==> 10000 * max <= min || 10000 * reference
                    <= min
                &&& error == CreatorError::UnsupportedFeature || error == CreatorError::AlreadySet
                    || error == CreatorError::InvalidLuminance
            },
            _ => false,
        },
{
}

/// The primaries of the mastering display are accepted exactly once, if that is supported. What is
/// not supported at all is refused as such.
pub proof fn law_mastering_primaries_are_set_once(
    builder: BuilderModel,
    m: ManagerModel,
    mastering: Chromaticities,
)
    ensures
        match builder.decide(CreatorRequest::SetMasteringDisplayPrimaries(mastering), m) {
            Decision::Accept(after) => {
                &&& m.features.contains(Feature::SetMasteringDisplayPrimaries)
                &&& builder.mastering_primaries is None
                &&& after == (BuilderModel { mastering_primaries: Some(mastering), ..builder })
            },
            Decision::Error(error, _) => {
                &&& !m.features.contains(Feature::SetMasteringDisplayPrimaries) ==> error
                    == CreatorError::UnsupportedFeature
                &&& m.features.contains(Feature::SetMasteringDisplayPrimaries) ==> error
                    == CreatorError::AlreadySet && builder.mastering_primaries is Some
            },
            _ => false,
        },
        builder.decide(CreatorRequest::SetTfPower, m) matches Decision::Error(error, _) && error
            == CreatorError::UnsupportedFeature,
        builder.decide(CreatorRequest::SetPrimaries, m) matches Decision::Error(error, _) && error
            == CreatorError::UnsupportedFeature,
{
}

/// A description is created exactly if its transfer function and its primaries are set, its light
/// levels do not contradict each other, and it does not aim beyond its own color volume where that
/// is not supported. It then has the parameters that were set, and no others.
pub proof fn law_when_a_description_is_created(builder: BuilderModel, m: ManagerModel)
    ensures
        ({
            let complete = builder.transfer is Some && builder.primaries is Some;
            let contradicts = builder.max_cll is Some && builder.max_fall is Some
                && builder.max_fall->0 > builder.max_cll->0;
            let own = Chromaticities::named(builder.primaries->0);
            let exceeds = (builder.mastering_primaries is Some && !own.contains_gamut(
                builder.mastering_primaries->0,
            )) || (builder.luminances matches Some((_, max, reference)) && reference > max);
            let refused = exceeds && !m.features.contains(Feature::ExtendedTargetVolume);
            match builder.decide(CreatorRequest::Create, m) {
                Decision::Ready(desc) => {
                    &&& complete && !contradicts && !refused
                    &&& Some(desc.transfer) == builder.transfer
                    &&& Some(desc.primaries) == builder.primaries
                    &&& desc.max_cll == builder.max_cll && desc.max_fall == builder.max_fall
                    &&& desc.mastering_luminance == builder.mastering_luminance
                    &&& desc.mastering_primaries == builder.mastering_primaries
                    &&& desc.luminances == builder.luminances
                    &&& !desc.windows_scrgb
                },
                Decision::Fail => complete && !contradicts && refused,
                Decision::Error(error, _) => {
                    &&& !complete ==> error == CreatorError::IncompleteSet
                    &&& complete ==> error == CreatorError::InvalidLuminance && contradicts
                },
                Decision::Accept(_) => false,
            }
        }),
        BuilderModel::fresh() == (BuilderModel {
            transfer: None,
            primaries: None,
            max_cll: None,
            max_fall: None,
            mastering_luminance: None,
            mastering_primaries: None,
            luminances: None,
        }),
{
}

/// A refusal says what is wrong: it names the parameter that is already set, not supported or not
/// in order.
pub proof fn law_refusals_are_explained(
    builder: BuilderModel,
    request: CreatorRequest,
    m: ManagerModel,
)
    ensures
        builder.decide(request, m) matches Decision::Error(error, message) ==> match request {
            CreatorRequest::SetTfNamed(_) => message == (if error == CreatorError::AlreadySet {
                "transfer function already set"@
            } else {
                "unsupported transfer function"@
            }),
            CreatorRequest::SetPrimariesNamed(_) => message == (if error
                == CreatorError::AlreadySet {
                "primaries already set"@
            } else {
                "unsupported primaries"@
            }),
            CreatorRequest::SetMasteringLuminance(..) => message == (if error
                == CreatorError::UnsupportedFeature {
                "set_mastering_luminance is not supported"@
            } else {
                "max L must be greater than min L"@
            }),
            CreatorRequest::SetLuminances(..) => message == (if error
                == CreatorError::UnsupportedFeature {
                "set_luminances is not supported"@
            } else if error == CreatorError::AlreadySet {
                "luminances already set"@
            } else {
                "max_lum and reference_lum must be greater than min_lum"@
            }),
            CreatorRequest::SetMasteringDisplayPrimaries(_) => message == (if error
                == CreatorError::UnsupportedFeature {
                "set_mastering_display_primaries is not supported"@
            } else {
                "mastering display primaries already set"@
            }),
            CreatorRequest::SetTfPower => message == "set_tf_power is not supported"@,
            CreatorRequest::SetPrimaries => message == "set_primaries is not supported"@,
            CreatorRequest::Create => message == (if error == CreatorError::IncompleteSet {
                "transfer function and primaries are both required"@
            } else {
                "max_fall must be less or equal to max_cll"@
            }),
            _ => false,
        },
{
}

/// Descriptions and chromaticities are equal exactly if all of their parts are.
pub proof fn law_equality(
    a: ImageDescription,
    b: ImageDescription,
    c: Chromaticities,
    d: Chromaticities,
)
    ensures
        a.eq_spec(&b) <==> {
            &&& a.transfer == b.transfer && a.primaries == b.primaries
            &&& a.max_cll == b.max_cll && a.max_fall == b.max_fall
            &&& a.mastering_luminance == b.mastering_luminance
            &&& a.mastering_primaries == b.mastering_primaries
            &&& a.luminances == b.luminances && a.windows_scrgb == b.windows_scrgb
        },
        c.eq_spec(&d) <==> c.red == d.red && c.green == d.green && c.blue == d.blue && c.white
            == d.white,
{
}

} // verus!
