//! Image descriptions, and the color manager that hands them out.

use std::collections::{HashMap, HashSet};

use smithay::wayland::color::chromaticities::{point_in_triangle, Chromaticities};
use smithay::wayland::color::creator::{CreatorReply, CreatorRequest, ImageDescriptionBuilder};
use smithay::wayland::color::description::{
    Feature, ImageDescription, Primaries, RenderIntent, TransferFunction,
};
use smithay::wayland::color::manager::{
    get_surface_description, send_image_description_info, surface_destroyed, Advertisement,
    ColorManagementState, ColorManagementSurfaceCachedState, ColorManagementSurfaceData,
    CreatorError, DescriptionError, FeedbackError, ImageDescriptionData, Information, ManagerError,
    ManagerReply, ManagerRequest, NewDescription, OutputObject, SurfaceError, SurfaceReply,
    SurfaceRequest,
};
use wayland_protocols::wp::color_management::v1::server::wp_color_manager_v1 as wire;

fn bare_manager() -> ColorManagementState {
    ColorManagementState::new(Vec::new(), Vec::new(), Vec::new(), Vec::new())
}

fn pq() -> ImageDescription {
    ImageDescription {
        transfer: TransferFunction::St2084Pq,
        primaries: Primaries::Bt2020,
        max_cll: Some(800),
        max_fall: Some(400),
        mastering_luminance: None,
        mastering_primaries: None,
        luminances: None,
        windows_scrgb: false,
    }
}

#[test]
fn identities_are_stable_per_description() {
    let mut state = bare_manager();

    let srgb = ImageDescription::srgb();
    let pq = pq();

    let a = state.identity_for(srgb);
    let b = state.identity_for(pq);
    assert_ne!(a, b);
    assert_ne!(a, 0, "identity 0 is reserved by the protocol");
    assert_ne!(b, 0);
    // The same description always maps to the same identity.
    assert_eq!(state.identity_for(srgb), a);
    assert_eq!(state.identity_for(pq), b);
    // A description differing only in metadata gets its own identity.
    let pq_brighter = ImageDescription { max_cll: Some(1000), ..pq };
    let c = state.identity_for(pq_brighter);
    assert_ne!(c, b);
    assert_eq!(state.identity_for(pq), b);
    // Mastering primaries are part of a description's identity.
    let pq_mastered = ImageDescription {
        mastering_primaries: Some(Chromaticities::from_named(Primaries::DciP3)),
        ..pq
    };
    let d = state.identity_for(pq_mastered);
    assert_ne!(d, b);
    assert_eq!(state.identity_for(pq_mastered), d);

    // Windows scRGB is distinct from a parametric description with identical values, so its
    // tone-mapping exemption survives identity-based deduplication.
    let scrgb = ImageDescription::windows_scrgb();
    let parametric_twin = ImageDescription { windows_scrgb: false, ..scrgb };
    let e = state.identity_for(scrgb);
    let f = state.identity_for(parametric_twin);
    assert_ne!(e, f);
    assert_eq!(state.identity_for(scrgb), e);
}

#[test]
fn windows_scrgb_description() {
    let scrgb = ImageDescription::windows_scrgb();
    assert!(scrgb.windows_scrgb);
    assert!(scrgb.is_hdr());
    assert_eq!(scrgb.transfer, TransferFunction::ExtLinear);
    assert_eq!(scrgb.primaries, Primaries::Srgb);
    // Assumed BT.2020 target volume, exceeding the sRGB primary volume.
    assert_eq!(
        scrgb.mastering_primaries,
        Some(Chromaticities::from_named(Primaries::Bt2020))
    );
    // 1.0 = 80 cd/m² with an assumed 203 cd/m² reference white.
    assert_eq!(scrgb.luminances, Some((0, 80, 203)));
    // A parametric twin without the flag is not HDR by itself...
    assert!(!ImageDescription {
        windows_scrgb: false,
        mastering_primaries: None,
        luminances: None,
        ..scrgb
    }
    .is_hdr());
}

#[test]
fn gamut_containment() {
    let srgb = Chromaticities::from_named(Primaries::Srgb);
    let bt2020 = Chromaticities::from_named(Primaries::Bt2020);
    let dci_p3 = Chromaticities::from_named(Primaries::DciP3);
    let xyz = Chromaticities::from_named(Primaries::Cie1931Xyz);

    // A gamut contains itself (all points on the triangle boundary).
    assert!(srgb.gamut_contains(&srgb));
    assert!(bt2020.gamut_contains(&bt2020));

    // Smaller gamuts are contained in wider ones, but not vice versa.
    assert!(bt2020.gamut_contains(&srgb));
    assert!(!srgb.gamut_contains(&bt2020));
    assert!(bt2020.gamut_contains(&Chromaticities::from_named(Primaries::AdobeRgb)));
    // The DCI-P3 red primary lies marginally outside the BT.2020 triangle, so P3 is not a strict
    // subset of BT.2020 (nor the other way around).
    assert!(!bt2020.gamut_contains(&dci_p3));
    assert!(!dci_p3.gamut_contains(&bt2020));

    // CIE 1931 XYZ spans the entire chromaticity diagram.
    for other in [srgb, bt2020, dci_p3, xyz] {
        assert!(xyz.gamut_contains(&other));
    }
    assert!(!srgb.gamut_contains(&xyz));
}

#[test]
fn points_on_edges_are_contained() {
    let srgb = Chromaticities::from_named(Primaries::Srgb);
    // The midpoint of the red-green edge lies exactly on the triangle boundary.
    let midpoint = (
        (srgb.red.0 + srgb.green.0) / 2,
        (srgb.red.1 + srgb.green.1) / 2,
    );
    assert!(point_in_triangle(midpoint, srgb.red, srgb.green, srgb.blue));
    // Nudged outwards (up, past the red-green edge) it is not contained.
    assert!(!point_in_triangle(
        (midpoint.0, midpoint.1 + 100_000),
        srgb.red,
        srgb.green,
        srgb.blue
    ));
    // Winding order does not matter.
    assert!(point_in_triangle(midpoint, srgb.blue, srgb.green, srgb.red));
}

const NAMED: [Primaries; 10] = [
    Primaries::Srgb,
    Primaries::PalM,
    Primaries::Pal,
    Primaries::Ntsc,
    Primaries::GenericFilm,
    Primaries::Bt2020,
    Primaries::Cie1931Xyz,
    Primaries::DciP3,
    Primaries::DisplayP3,
    Primaries::AdobeRgb,
];

#[test]
fn named_chromaticities_sanity() {
    // Every named gamut contains its own white point.
    for primaries in NAMED {
        let c = Chromaticities::from_named(primaries);
        assert!(
            point_in_triangle(c.white, c.red, c.green, c.blue),
            "white point of {primaries:?} outside its own gamut"
        );
    }

    // Display P3 shares the DCI-P3 primaries but uses the D65 white point.
    let dci_p3 = Chromaticities::from_named(Primaries::DciP3);
    let display_p3 = Chromaticities::from_named(Primaries::DisplayP3);
    assert_eq!(dci_p3.red, display_p3.red);
    assert_eq!(dci_p3.green, display_p3.green);
    assert_eq!(dci_p3.blue, display_p3.blue);
    assert_eq!(display_p3.white, Chromaticities::from_named(Primaries::Srgb).white);
}

#[test]
fn chromaticities_in_wire_units() {
    let srgb = Chromaticities::from_named(Primaries::Srgb);
    assert_eq!(srgb.red, (640_000, 330_000));
    assert_eq!(srgb.green, (300_000, 600_000));
    assert_eq!(srgb.blue, (150_000, 60_000));
    assert_eq!(srgb.white, (312_700, 329_000));
    let bt2020 = Chromaticities::from_named(Primaries::Bt2020);
    assert_eq!(bt2020.red, (708_000, 292_000));
}

#[test]
fn triangles_at_the_limits() {
    let (min, max) = (i32::MIN, i32::MAX);
    assert!(point_in_triangle((0, 0), (min, min), (max, min), (0, max)));
    assert!(!point_in_triangle((max, max), (min, min), (max, min), (min, max)));
}

#[test]
fn triangles_without_area_have_only_their_edges() {
    for corners in [[(0, 0), (1, 1), (2, 2)], [(2, 2), (0, 0), (1, 1)], [(1, 1), (2, 2), (0, 0)]] {
        let [a, b, c] = corners;
        assert!(point_in_triangle((0, 0), a, b, c));
        assert!(point_in_triangle((1, 1), a, b, c));
        assert!(point_in_triangle((2, 2), a, b, c));
        assert!(!point_in_triangle((3, 3), a, b, c));
        assert!(!point_in_triangle((5, 5), a, b, c));
        assert!(!point_in_triangle((5, 6), a, b, c));
        assert!(!point_in_triangle((-1, -1), a, b, c));
    }
    // All corners may be the same, or lie above each other.
    assert!(!point_in_triangle((5, 5), (0, 0), (0, 0), (0, 0)));
    assert!(point_in_triangle((0, 0), (0, 0), (0, 0), (0, 0)));
    assert!(point_in_triangle((3, 4), (3, 1), (3, 9), (3, 2)));
    assert!(!point_in_triangle((3, 10), (3, 1), (3, 9), (3, 2)));

    let point = Chromaticities { red: (1, 1), green: (1, 1), blue: (1, 1), white: (1, 1) };
    let srgb = Chromaticities::from_named(Primaries::Srgb);
    assert!(point.gamut_contains(&point));
    assert!(!point.gamut_contains(&srgb));
}

#[test]
fn wire_values_are_those_of_the_protocol() {
    let tfs = [
        (TransferFunction::Bt1886, wire::TransferFunction::Bt1886),
        (TransferFunction::Gamma22, wire::TransferFunction::Gamma22),
        (TransferFunction::Gamma28, wire::TransferFunction::Gamma28),
        (TransferFunction::St240, wire::TransferFunction::St240),
        (TransferFunction::ExtLinear, wire::TransferFunction::ExtLinear),
        (TransferFunction::Log100, wire::TransferFunction::Log100),
        (TransferFunction::Log316, wire::TransferFunction::Log316),
        (TransferFunction::Xvycc, wire::TransferFunction::Xvycc),
        (TransferFunction::Srgb, wire::TransferFunction::Srgb),
        (TransferFunction::ExtSrgb, wire::TransferFunction::ExtSrgb),
        (TransferFunction::St2084Pq, wire::TransferFunction::St2084Pq),
        (TransferFunction::St428, wire::TransferFunction::St428),
        (TransferFunction::Hlg, wire::TransferFunction::Hlg),
        (TransferFunction::CompoundPower24, wire::TransferFunction::CompoundPower24),
    ];
    for (tf, on_wire) in tfs {
        assert_eq!(tf.to_wire(), u32::from(on_wire));
        assert_eq!(TransferFunction::from_wire(u32::from(on_wire)), Some(tf));
    }
    assert_eq!(TransferFunction::from_wire(0), None);
    assert_eq!(TransferFunction::from_wire(15), None);

    let named = [
        wire::Primaries::Srgb,
        wire::Primaries::PalM,
        wire::Primaries::Pal,
        wire::Primaries::Ntsc,
        wire::Primaries::GenericFilm,
        wire::Primaries::Bt2020,
        wire::Primaries::Cie1931Xyz,
        wire::Primaries::DciP3,
        wire::Primaries::DisplayP3,
        wire::Primaries::AdobeRgb,
    ];
    for (primaries, on_wire) in NAMED.into_iter().zip(named) {
        assert_eq!(primaries.to_wire(), u32::from(on_wire));
        assert_eq!(Primaries::from_wire(u32::from(on_wire)), Some(primaries));
    }
    assert_eq!(Primaries::from_wire(0), None);
    assert_eq!(Primaries::from_wire(11), None);

    let intents = [
        (RenderIntent::Perceptual, wire::RenderIntent::Perceptual),
        (RenderIntent::Relative, wire::RenderIntent::Relative),
        (RenderIntent::Saturation, wire::RenderIntent::Saturation),
        (RenderIntent::Absolute, wire::RenderIntent::Absolute),
        (RenderIntent::RelativeBpc, wire::RenderIntent::RelativeBpc),
        (RenderIntent::AbsoluteNoAdaptation, wire::RenderIntent::AbsoluteNoAdaptation),
    ];
    for (intent, on_wire) in intents {
        assert_eq!(intent.to_wire(), u32::from(on_wire));
        assert_eq!(RenderIntent::from_wire(u32::from(on_wire)), Some(intent));
    }
    assert_eq!(RenderIntent::from_wire(6), None);

    let features = [
        (Feature::IccV2V4, wire::Feature::IccV2V4),
        (Feature::Parametric, wire::Feature::Parametric),
        (Feature::SetPrimaries, wire::Feature::SetPrimaries),
        (Feature::SetTfPower, wire::Feature::SetTfPower),
        (Feature::SetLuminances, wire::Feature::SetLuminances),
        (
            Feature::SetMasteringDisplayPrimaries,
            wire::Feature::SetMasteringDisplayPrimaries,
        ),
        (Feature::ExtendedTargetVolume, wire::Feature::ExtendedTargetVolume),
        (Feature::WindowsScrgb, wire::Feature::WindowsScrgb),
        (Feature::WindowsBt2100, wire::Feature::WindowsBt2100),
    ];
    for (feature, on_wire) in features {
        assert_eq!(feature.to_wire(), u32::from(on_wire));
    }
}

#[test]
fn required_capabilities_are_advertised() {
    assert_eq!(
        bare_manager().bind(),
        vec![
            Advertisement::Intent(RenderIntent::Perceptual),
            Advertisement::Feature(Feature::Parametric),
            Advertisement::Done,
        ]
    );
    let manager = ColorManagementState::new(
        vec![TransferFunction::Srgb],
        vec![Primaries::Srgb, Primaries::Bt2020],
        vec![Feature::ExtendedTargetVolume],
        vec![RenderIntent::Relative],
    );
    assert_eq!(
        manager.bind(),
        vec![
            Advertisement::Intent(RenderIntent::Relative),
            Advertisement::Intent(RenderIntent::Perceptual),
            Advertisement::Feature(Feature::ExtendedTargetVolume),
            Advertisement::Feature(Feature::Parametric),
            Advertisement::Feature(Feature::SetMasteringDisplayPrimaries),
            Advertisement::TransferFunction(TransferFunction::Srgb),
            Advertisement::Primaries(Primaries::Srgb),
            Advertisement::Primaries(Primaries::Bt2020),
            Advertisement::Done,
        ]
    );
    assert!(manager.supports(Feature::Parametric));
    assert!(!manager.supports(Feature::WindowsScrgb));
    assert!(manager.supports_tf(TransferFunction::Srgb));
    assert!(!manager.supports_tf(TransferFunction::Hlg));
    assert!(manager.supports_primaries(Primaries::Bt2020));
    assert!(!manager.supports_primaries(Primaries::Pal));
}

fn creator_manager(features: Vec<Feature>) -> ColorManagementState {
    ColorManagementState::new(
        vec![TransferFunction::Srgb, TransferFunction::St2084Pq],
        vec![Primaries::Srgb, Primaries::Bt2020],
        features,
        vec![],
    )
}

fn creator_error(reply: CreatorReply) -> (CreatorError, &'static str) {
    match reply {
        CreatorReply::Error(error, message) => (error, message),
        other => panic!("no error: {other:?}"),
    }
}

fn is_done(reply: CreatorReply) -> bool {
    matches!(reply, CreatorReply::Done)
}

#[test]
fn creators_collect_parameters() {
    let mut manager = creator_manager(vec![
        Feature::SetLuminances,
        Feature::SetMasteringDisplayPrimaries,
    ]);
    let mut creator = ImageDescriptionBuilder::new();
    let p3 = Chromaticities::from_named(Primaries::Srgb);
    let requests = [
        CreatorRequest::SetTfNamed(TransferFunction::St2084Pq.to_wire()),
        CreatorRequest::SetPrimariesNamed(Primaries::Bt2020.to_wire()),
        CreatorRequest::SetMasteringLuminance(50, 1000),
        CreatorRequest::SetMaxCll(900),
        CreatorRequest::SetMaxFall(900),
        CreatorRequest::SetLuminances(50, 10000, 203),
        CreatorRequest::SetMasteringDisplayPrimaries(p3),
    ];
    for request in requests {
        assert!(is_done(creator.request(request, &mut manager)), "{request:?}");
    }
    let reply = creator.request(CreatorRequest::Create, &mut manager);
    let expected = ImageDescription {
        transfer: TransferFunction::St2084Pq,
        primaries: Primaries::Bt2020,
        max_cll: Some(900),
        max_fall: Some(900),
        mastering_luminance: Some((50, 1000)),
        mastering_primaries: Some(p3),
        luminances: Some((50, 10000, 203)),
        windows_scrgb: false,
    };
    match reply {
        CreatorReply::Description(NewDescription::Ready(identity, data)) => {
            assert_eq!(identity, 1);
            assert_eq!(data.description(), Some(expected));
            assert_eq!(manager.identity_for(expected), 1);
        }
        other => panic!("not ready: {other:?}"),
    }
}

#[test]
fn creators_refuse_invalid_requests() {
    let mut manager = creator_manager(vec![]);
    let mut creator = ImageDescriptionBuilder::new();
    let mut ask = |request| creator.request(request, &mut manager);
    assert_eq!(
        creator_error(ask(CreatorRequest::Create)),
        (
            CreatorError::IncompleteSet,
            "transfer function and primaries are both required"
        )
    );
    assert_eq!(
        creator_error(ask(CreatorRequest::SetTfNamed(TransferFunction::Hlg.to_wire()))),
        (CreatorError::InvalidTf, "unsupported transfer function")
    );
    assert_eq!(
        creator_error(ask(CreatorRequest::SetTfNamed(999))),
        (CreatorError::InvalidTf, "unsupported transfer function")
    );
    assert!(is_done(ask(CreatorRequest::SetTfNamed(TransferFunction::Srgb.to_wire()))));
    assert_eq!(
        creator_error(ask(CreatorRequest::SetTfNamed(999))),
        (CreatorError::AlreadySet, "transfer function already set")
    );
    assert_eq!(
        creator_error(ask(CreatorRequest::SetPrimariesNamed(Primaries::Pal.to_wire()))),
        (CreatorError::InvalidPrimariesNamed, "unsupported primaries")
    );
    assert!(is_done(ask(CreatorRequest::SetPrimariesNamed(Primaries::Srgb.to_wire()))));
    assert_eq!(
        creator_error(ask(CreatorRequest::SetPrimariesNamed(1))),
        (CreatorError::AlreadySet, "primaries already set")
    );
    assert_eq!(
        creator_error(ask(CreatorRequest::SetMasteringLuminance(0, 1))),
        (
            CreatorError::UnsupportedFeature,
            "set_mastering_luminance is not supported"
        )
    );
    assert_eq!(
        creator_error(ask(CreatorRequest::SetLuminances(0, 1, 1))),
        (CreatorError::UnsupportedFeature, "set_luminances is not supported")
    );
    assert_eq!(
        creator_error(ask(CreatorRequest::SetMasteringDisplayPrimaries(
            Chromaticities::from_named(Primaries::Srgb)
        ))),
        (
            CreatorError::UnsupportedFeature,
            "set_mastering_display_primaries is not supported"
        )
    );
    assert_eq!(
        creator_error(ask(CreatorRequest::SetTfPower)),
        (CreatorError::UnsupportedFeature, "set_tf_power is not supported")
    );
    assert_eq!(
        creator_error(ask(CreatorRequest::SetPrimaries)),
        (CreatorError::UnsupportedFeature, "set_primaries is not supported")
    );
    assert!(is_done(ask(CreatorRequest::SetMaxCll(100))));
    assert!(is_done(ask(CreatorRequest::SetMaxFall(101))));
    assert_eq!(
        creator_error(ask(CreatorRequest::Create)),
        (
            CreatorError::InvalidLuminance,
            "max_fall must be less or equal to max_cll"
        )
    );
}

#[test]
fn luminances_are_compared_in_the_same_unit() {
    let mut manager = creator_manager(vec![
        Feature::SetLuminances,
        Feature::SetMasteringDisplayPrimaries,
    ]);
    let mut creator = ImageDescriptionBuilder::new();
    let mut ask = |request| creator.request(request, &mut manager);
    // 10000 units of 0.0001 cd/m² are one cd/m².
    assert_eq!(
        creator_error(ask(CreatorRequest::SetMasteringLuminance(10000, 1))),
        (CreatorError::InvalidLuminance, "max L must be greater than min L")
    );
    assert!(is_done(ask(CreatorRequest::SetMasteringLuminance(9999, 1))));
    assert_eq!(
        creator_error(ask(CreatorRequest::SetLuminances(10000, 2, 1))),
        (
            CreatorError::InvalidLuminance,
            "max_lum and reference_lum must be greater than min_lum"
        )
    );
    assert!(is_done(ask(CreatorRequest::SetLuminances(u32::MAX, u32::MAX, u32::MAX))));
    assert_eq!(
        creator_error(ask(CreatorRequest::SetLuminances(0, 1, 1))),
        (CreatorError::AlreadySet, "luminances already set")
    );
}

#[test]
fn volumes_beyond_the_primaries_fail_gracefully() {
    let wide = Chromaticities::from_named(Primaries::Bt2020);
    let mut manager = creator_manager(vec![Feature::SetMasteringDisplayPrimaries]);
    let mut creator = ImageDescriptionBuilder::new();
    assert!(is_done(creator.request(CreatorRequest::SetTfNamed(9), &mut manager)));
    assert!(is_done(creator.request(CreatorRequest::SetPrimariesNamed(1), &mut manager)));
    assert!(is_done(
        creator.request(CreatorRequest::SetMasteringDisplayPrimaries(wide), &mut manager)
    ));
    match creator.request(CreatorRequest::Create, &mut manager) {
        CreatorReply::Description(NewDescription::Failed(_, data)) => {
            assert_eq!(data.description(), None);
            assert!(matches!(
                data.get_information(),
                Err((
                    DescriptionError::NotReady,
                    "the image description failed and never became ready"
                ))
            ));
        }
        other => panic!("did not fail: {other:?}"),
    }
    // With an extended target volume it is fine.
    let mut manager = creator_manager(vec![Feature::ExtendedTargetVolume]);
    let mut creator = ImageDescriptionBuilder::new();
    assert!(is_done(creator.request(CreatorRequest::SetTfNamed(9), &mut manager)));
    assert!(is_done(creator.request(CreatorRequest::SetPrimariesNamed(1), &mut manager)));
    assert!(is_done(
        creator.request(CreatorRequest::SetMasteringDisplayPrimaries(wide), &mut manager)
    ));
    assert!(matches!(
        creator.request(CreatorRequest::Create, &mut manager),
        CreatorReply::Description(NewDescription::Ready(1, _))
    ));
}

#[test]
fn surfaces_have_one_color_management_object() {
    let mut manager = bare_manager();
    let mut data: Option<ColorManagementSurfaceData> = None;
    assert!(matches!(
        manager.manager_request(ManagerRequest::GetSurface, &mut data),
        ManagerReply::Done
    ));
    assert!(matches!(
        manager.manager_request(ManagerRequest::GetSurface, &mut data),
        ManagerReply::Error(
            ManagerError::SurfaceExists,
            "surface already has a wp_color_management_surface_v1"
        )
    ));
    let mut pending = ColorManagementSurfaceCachedState {
        description: Some(pq()),
        render_intent: RenderIntent::Relative,
    };
    assert!(surface_destroyed(&mut data, &mut pending));
    assert_eq!(
        get_surface_description(&pending),
        (None, RenderIntent::Perceptual)
    );
    assert!(!surface_destroyed(&mut data, &mut pending));
    assert!(matches!(
        manager.manager_request(ManagerRequest::GetSurface, &mut data),
        ManagerReply::Done
    ));
}

#[test]
fn unsupported_creators_are_refused() {
    let mut manager = bare_manager();
    let mut data = None;
    assert!(matches!(
        manager.manager_request(ManagerRequest::CreateIccCreator, &mut data),
        ManagerReply::Error(
            ManagerError::UnsupportedFeature,
            "ICC image descriptions are not supported"
        )
    ));
    assert!(matches!(
        manager.manager_request(ManagerRequest::CreateWindowsScrgb, &mut data),
        ManagerReply::Error(
            ManagerError::UnsupportedFeature,
            "Windows scRGB image descriptions are not supported"
        )
    ));
    assert!(matches!(
        manager.manager_request(ManagerRequest::CreateParametricCreator, &mut data),
        ManagerReply::Done
    ));
    let mut manager = ColorManagementState::new(vec![], vec![], vec![Feature::WindowsScrgb], vec![]);
    match manager.manager_request(ManagerRequest::CreateWindowsScrgb, &mut data) {
        ManagerReply::Description(NewDescription::Ready(1, data)) => {
            assert_eq!(data.description(), Some(ImageDescription::windows_scrgb()));
            assert!(matches!(
                data.get_information(),
                Err((
                    DescriptionError::NoInformation,
                    "this image description does not allow get_information"
                ))
            ));
        }
        other => panic!("not ready: {other:?}"),
    }
}

#[test]
fn feedback_is_given_once_per_description() {
    let mut manager = bare_manager();
    let mut data: Option<ColorManagementSurfaceData> = None;
    let alive: HashSet<u64> = [11, 13].into_iter().collect();
    assert!(manager.preferred_changed(&mut data, pq(), &alive).is_none());
    for feedback in [11, 12, 13] {
        manager.manager_request(ManagerRequest::GetSurfaceFeedback(feedback), &mut data);
    }
    assert_eq!(
        manager.preferred_changed(&mut data, pq(), &alive),
        Some((1, vec![11, 13]))
    );
    assert_eq!(manager.preferred_changed(&mut data, pq(), &alive), None);
    assert!(!manager.is_full());
    data.as_mut().unwrap().remove_feedback(11);
    assert_eq!(
        manager.preferred_changed(&mut data, ImageDescription::srgb(), &alive),
        Some((2, vec![13]))
    );
}

#[test]
fn watchers_of_an_output_are_told() {
    let mut manager = bare_manager();
    let mut data = None;
    for (object, resource) in [(1, 100), (2, 200), (3, 100), (4, 300)] {
        manager.manager_request(
            ManagerRequest::GetOutput(OutputObject { object, resource }),
            &mut data,
        );
    }
    let resources: HashMap<u64, u64> = [(100, 7), (200, 8), (300, 7)].into_iter().collect();
    let alive: HashSet<u64> = [1, 2, 4].into_iter().collect();
    assert_eq!(manager.output_description_changed(7, &resources, &alive), vec![1, 4]);
    // Objects that are gone are forgotten.
    let all: HashSet<u64> = [1, 2, 3, 4].into_iter().collect();
    assert_eq!(manager.output_description_changed(7, &resources, &all), vec![1, 4]);
    assert_eq!(manager.output_description_changed(8, &resources, &all), vec![2]);
}

#[test]
fn outputs_and_feedbacks_are_described() {
    let mut manager = bare_manager();
    match manager.output_request(None) {
        NewDescription::Ready(1, data) => {
            assert_eq!(data.description(), Some(ImageDescription::srgb()))
        }
        other => panic!("not ready: {other:?}"),
    }
    assert!(matches!(manager.output_request(Some(pq())), NewDescription::Ready(2, _)));
    assert!(matches!(
        manager.feedback_request(Some(pq())),
        Ok(NewDescription::Ready(2, _))
    ));
    assert!(matches!(
        manager.feedback_request(None),
        Err((FeedbackError::Inert, "the underlying wl_surface was destroyed"))
    ));
}

fn ready_data(manager: &mut ColorManagementState, desc: ImageDescription) -> ImageDescriptionData {
    match manager.output_request(Some(desc)) {
        NewDescription::Ready(_, data) => data,
        other => panic!("not ready: {other:?}"),
    }
}

#[test]
fn descriptions_are_attached_to_surfaces() {
    let mut manager = bare_manager();
    let data = ready_data(&mut manager, pq());
    let mut pending = ColorManagementSurfaceCachedState::default();
    let set = |wire| SurfaceRequest::SetImageDescription(data, wire);
    assert_eq!(
        manager.surface_request(set(0), false, &mut pending),
        SurfaceReply::Error(SurfaceError::Inert, "the underlying wl_surface was destroyed")
    );
    let unsupported =
        SurfaceReply::Error(SurfaceError::RenderIntent, "unsupported rendering intent");
    assert_eq!(manager.surface_request(set(1), true, &mut pending), unsupported);
    assert_eq!(manager.surface_request(set(77), true, &mut pending), unsupported);
    assert_eq!(
        manager.surface_request(set(0), true, &mut pending),
        SurfaceReply::Changed
    );
    assert_eq!(
        manager.surface_request(set(0), true, &mut pending),
        SurfaceReply::Unchanged
    );
    let mut current = ColorManagementSurfaceCachedState::default();
    pending.commit().merge_into(&mut current);
    assert_eq!(
        get_surface_description(&current),
        (Some(pq()), RenderIntent::Perceptual)
    );
    assert_eq!(
        manager.surface_request(SurfaceRequest::UnsetImageDescription, true, &mut pending),
        SurfaceReply::Changed
    );
    assert_eq!(
        manager.surface_request(SurfaceRequest::UnsetImageDescription, true, &mut pending),
        SurfaceReply::Unchanged
    );
    assert_eq!(
        manager.surface_request(SurfaceRequest::UnsetImageDescription, false, &mut pending),
        SurfaceReply::Error(SurfaceError::Inert, "the underlying wl_surface was destroyed")
    );
}

#[test]
fn descriptions_that_failed_cannot_be_attached() {
    let mut manager = creator_manager(vec![Feature::SetLuminances]);
    let mut creator = ImageDescriptionBuilder::new();
    creator.request(CreatorRequest::SetTfNamed(9), &mut manager);
    creator.request(CreatorRequest::SetPrimariesNamed(1), &mut manager);
    creator.request(CreatorRequest::SetLuminances(0, 80, 203), &mut manager);
    let data = match creator.request(CreatorRequest::Create, &mut manager) {
        CreatorReply::Description(NewDescription::Failed(_, data)) => data,
        other => panic!("did not fail: {other:?}"),
    };
    let mut pending = ColorManagementSurfaceCachedState::default();
    assert_eq!(
        manager.surface_request(SurfaceRequest::SetImageDescription(data, 0), true, &mut pending),
        SurfaceReply::Error(SurfaceError::ImageDescription, "image description is not ready")
    );
}

#[test]
fn information_is_sent_in_order() {
    let bt2020 = Chromaticities::from_named(Primaries::Bt2020);
    let p3 = Chromaticities::from_named(Primaries::DciP3);
    let desc = ImageDescription {
        mastering_luminance: Some((5, 1000)),
        mastering_primaries: Some(p3),
        ..pq()
    };
    assert_eq!(
        send_image_description_info(true, &desc),
        vec![
            Information::Primaries(bt2020),
            Information::PrimariesNamed(Primaries::Bt2020),
            Information::TfNamed(TransferFunction::St2084Pq),
            Information::TargetPrimaries(p3),
            Information::TargetLuminance(5, 1000),
            Information::TargetMaxCll(800),
            Information::TargetMaxFall(400),
            Information::Done,
        ]
    );
    let srgb = Chromaticities::from_named(Primaries::Srgb);
    assert_eq!(
        send_image_description_info(true, &ImageDescription::srgb()),
        vec![
            Information::Primaries(srgb),
            Information::PrimariesNamed(Primaries::Srgb),
            Information::TfNamed(TransferFunction::Srgb),
            Information::TargetPrimaries(srgb),
            Information::Done,
        ]
    );
    assert!(send_image_description_info(false, &desc).is_empty());
}
