//! Color pipelines, and the transforms that are resolved against them.

use smithay::backend::drm::colorop::{
    plane_color_pipelines, read_colorop, usable_pipelines, ColorOp, ColorOpKind, ColorPipeline,
    Curve1DType, EnumEntry, Lut1DInterpolation, Lut3DInterpolation, PipelineError, PipelineWalk,
    PropertyInfo, PropertyRecord, PropertyTable, WalkStep, MAX_PIPELINE_OPS,
};
use smithay::backend::drm::fixed_point::{encode_matrix, to_s31_32, CTM_3X4_IDENTITY, ONE};
use smithay::backend::drm::transform::{
    PlannedValue, ResolvedColorPipeline, ResolvedProperty, ScanoutColorTransform, Setting,
};

fn op(id: u32, kind: ColorOpKind, bypassable: bool) -> ColorOp {
    // Properties are looked up by name; every operation has the full set, with arbitrary
    // (nonzero) handles.
    let mut props = PropertyTable::new();
    for (i, name) in ["BYPASS", "CURVE_1D_TYPE", "MULTIPLIER", "DATA"].iter().enumerate() {
        props.insert(name, 1000 + id + i as u32);
    }
    ColorOp { id, kind, bypassable, props }
}

fn curve(id: u32, supported: &[Curve1DType], bypassable: bool) -> ColorOp {
    op(
        id,
        ColorOpKind::Curve1D {
            supported: supported.iter().map(|&c| (c, c as u64)).collect(),
        },
        bypassable,
    )
}

fn lut(id: u32) -> ColorOp {
    op(
        id,
        ColorOpKind::Lut1D { size: 1024, interpolation: Lut1DInterpolation::Linear },
        true,
    )
}

fn nvidia_full() -> ColorPipeline {
    ColorPipeline {
        id: 58,
        ops: vec![
            op(58, ColorOpKind::Ctm3x4, true),
            curve(63, &[Curve1DType::Pq125Eotf], true),
            lut(68),
            op(75, ColorOpKind::Multiplier, true),
            op(80, ColorOpKind::Ctm3x4, true),
            curve(85, &[Curve1DType::Pq125InvEotf], false),
            op(89, ColorOpKind::Ctm3x4, true),
            lut(94),
            op(101, ColorOpKind::Ctm3x4, true),
            curve(106, &[Curve1DType::Pq125Eotf], false),
            op(110, ColorOpKind::Ctm3x4, true),
        ],
    }
}

fn nvidia_lite() -> ColorPipeline {
    ColorPipeline {
        id: 115,
        ops: vec![
            op(115, ColorOpKind::Ctm3x4, true),
            curve(120, &[Curve1DType::Pq125Eotf], true),
            lut(125),
            op(132, ColorOpKind::Multiplier, true),
            op(137, ColorOpKind::Ctm3x4, true),
        ],
    }
}

fn nvidia_fp_full() -> ColorPipeline {
    ColorPipeline {
        id: 142,
        ops: vec![
            op(142, ColorOpKind::Ctm3x4, true),
            op(147, ColorOpKind::Ctm3x4, true),
            curve(152, &[Curve1DType::Pq125InvEotf], false),
            op(156, ColorOpKind::Ctm3x4, true),
            lut(161),
            op(168, ColorOpKind::Ctm3x4, true),
            curve(173, &[Curve1DType::Pq125Eotf], false),
            op(177, ColorOpKind::Ctm3x4, true),
        ],
    }
}

fn nvidia_fp_lite() -> ColorPipeline {
    ColorPipeline {
        id: 182,
        ops: vec![op(182, ColorOpKind::Ctm3x4, true), op(187, ColorOpKind::Ctm3x4, true)],
    }
}

fn nvidia_pipelines() -> Vec<ColorPipeline> {
    vec![nvidia_full(), nvidia_lite(), nvidia_fp_full(), nvidia_fp_lite()]
}

fn resolve_any(transform: &ScanoutColorTransform, pipelines: &[ColorPipeline]) -> bool {
    pipelines.iter().any(|p| transform.resolve(p).is_some())
}

#[test]
fn nvidia_pipelines_reject_pq_blend_transforms() {
    let pipelines = nvidia_pipelines();

    // SDR content on an HDR output: gamma 2.2 decode, reference-white gain, PQ encode.
    let sdr_on_hdr = ScanoutColorTransform {
        decode: Some(Curve1DType::Gamma22),
        multiplier: (203.0f64 / 80.0).to_bits(),
        ctm: None,
        encode: Some(Curve1DType::Pq125InvEotf),
    };
    assert!(!resolve_any(&sdr_on_hdr, &pipelines));

    // PQ content needing a PQ round-trip: rejected because the trailing non-bypassable PQ 125
    // EOTF cannot be bypassed or used.
    let pq_reencode = ScanoutColorTransform {
        decode: Some(Curve1DType::Pq125Eotf),
        multiplier: 1.0f64.to_bits(),
        ctm: None,
        encode: Some(Curve1DType::Pq125InvEotf),
    };
    assert!(!resolve_any(&pq_reencode, &pipelines));

    // HDR content on an SDR output: PQ decode, gain, gamma 2.2 encode.
    let hdr_on_sdr = ScanoutColorTransform {
        decode: Some(Curve1DType::Pq125Eotf),
        multiplier: (80.0f64 / 203.0).to_bits(),
        ctm: None,
        encode: Some(Curve1DType::Gamma22Inv),
    };
    assert!(!resolve_any(&hdr_on_sdr, &pipelines));
}

#[test]
fn nvidia_lite_accepts_linear_output_transforms() {
    let decode_and_gain = ScanoutColorTransform {
        decode: Some(Curve1DType::Pq125Eotf),
        multiplier: 2.0f64.to_bits(),
        ctm: None,
        encode: None,
    };
    assert!(resolve_any(&decode_and_gain, &[nvidia_lite()]));
    // The full pipeline still rejects it: its trailing non-bypassable PQ pair is not
    // recognized as an identity.
    assert!(!resolve_any(&decode_and_gain, &[nvidia_full()]));
}

#[test]
fn bypassable_pipeline_accepts_pq_blend_transforms() {
    let all_curves = [
        Curve1DType::SrgbEotf,
        Curve1DType::SrgbInvEotf,
        Curve1DType::Pq125Eotf,
        Curve1DType::Pq125InvEotf,
        Curve1DType::Gamma22,
        Curve1DType::Gamma22Inv,
    ];
    let pipeline = ColorPipeline {
        id: 300,
        ops: vec![
            curve(300, &all_curves, true),
            op(310, ColorOpKind::Multiplier, true),
            curve(320, &all_curves, true),
        ],
    };

    let sdr_on_hdr = ScanoutColorTransform {
        decode: Some(Curve1DType::Gamma22),
        multiplier: (203.0f64 / 80.0).to_bits(),
        ctm: None,
        encode: Some(Curve1DType::Pq125InvEotf),
    };
    assert!(resolve_any(&sdr_on_hdr, &[pipeline]));
}

fn fixed(value: f64) -> u64 {
    to_s31_32(value.to_bits())
}

#[test]
fn s31_32_encoding() {
    assert_eq!(fixed(0.0), 0);
    assert_eq!(fixed(1.0), 1 << 32);
    assert_eq!(fixed(2.5375), (2.5375f64 * 4294967296.0).round() as u64);
    // Sign-magnitude: -1.0 is the magnitude of 1.0 with the sign bit set.
    assert_eq!(fixed(-1.0), (1 << 63) | (1 << 32));
    assert_eq!(fixed(-0.5), (1 << 63) | (1 << 31));
}

#[test]
fn identity_transform() {
    assert!(ScanoutColorTransform::identity().is_identity());
    assert!(ScanoutColorTransform::default().is_identity());
    assert!(!ScanoutColorTransform {
        multiplier: 2.0f64.to_bits(),
        ..Default::default()
    }
    .is_identity());
}

#[test]
fn fixed_point_agrees_with_rounding() {
    let samples = [
        0.1f64,
        0.25,
        1.0 / 3.0,
        0.5 / 4294967296.0,
        0.49 / 4294967296.0,
        1.5 / 4294967296.0,
        123.456,
        1048576.75,
        2147483647.25,
        f64::MIN_POSITIVE,
        5e-324,
    ];
    for value in samples {
        let magnitude = (value * 4294967296.0).round() as u64;
        assert_eq!(fixed(value), magnitude, "{value}");
        assert_eq!(fixed(-value), magnitude | 1 << 63, "-{value}");
    }
    assert_eq!(fixed(-0.0), 1 << 63);
}

#[test]
fn fixed_point_saturates() {
    assert_eq!(fixed(f64::INFINITY), i64::MAX as u64);
    assert_eq!(fixed(f64::NEG_INFINITY), u64::MAX);
    assert_eq!(fixed(1e300), i64::MAX as u64);
    assert_eq!(fixed(2147483648.0), i64::MAX as u64);
    assert_eq!(fixed(f64::from_bits(2147483648.0f64.to_bits() - 1)), (1 << 63) - 1024);
    assert_eq!(fixed(f64::NAN), 0);
}

#[test]
fn fixed_point_keeps_the_order() {
    let ascending = [0.0, 5e-324, 1e-11, 1e-10, 0.5, 0.9999999999, 1.0, 1.5, 2.0, 80.0, 1e9, 1e300];
    for pair in ascending.windows(2) {
        assert!(fixed(pair[0]) <= fixed(pair[1]), "{} {}", pair[0], pair[1]);
        assert!(fixed(-pair[0]) <= fixed(-pair[1]), "-{} -{}", pair[0], pair[1]);
    }
}

#[test]
fn matrices_are_encoded_entry_by_entry() {
    let mut matrix = CTM_3X4_IDENTITY;
    matrix[3] = (-0.5f64).to_bits();
    let encoded = encode_matrix(&matrix);
    assert_eq!(encoded[0], 1 << 32);
    assert_eq!(encoded[1], 0);
    assert_eq!(encoded[3], (1 << 63) | (1 << 31));
    assert_eq!(encoded[5], 1 << 32);
    assert_eq!(encoded[10], 1 << 32);
    assert_eq!(ONE, 1.0f64.to_bits());
}

const CURVES: [Curve1DType; 8] = [
    Curve1DType::SrgbEotf,
    Curve1DType::SrgbInvEotf,
    Curve1DType::Pq125Eotf,
    Curve1DType::Pq125InvEotf,
    Curve1DType::Bt2020InvOetf,
    Curve1DType::Bt2020Oetf,
    Curve1DType::Gamma22,
    Curve1DType::Gamma22Inv,
];

#[test]
fn curve_names_lead_back() {
    for curve in CURVES {
        assert_eq!(Curve1DType::from_kernel_name(curve.kernel_name()), Some(curve));
    }
    assert_eq!(Curve1DType::Pq125InvEotf.kernel_name(), "PQ 125 Inverse EOTF");
    assert_eq!(Curve1DType::Gamma22Inv.kernel_name(), "Gamma 2.2 Inverse");
    assert_eq!(Curve1DType::from_kernel_name("Gamma 2.4"), None);
    assert_eq!(Curve1DType::from_kernel_name(""), None);
}

#[test]
fn curves_that_are_passed_over_are_bypassed() {
    let transform = ScanoutColorTransform {
        decode: Some(Curve1DType::Pq125Eotf),
        multiplier: 2.0f64.to_bits(),
        ctm: None,
        encode: None,
    };
    let plan = transform.resolve(&nvidia_lite()).unwrap();
    assert_eq!(plan.pipeline_id, 115);
    assert!(plan.uploads.is_empty());
    let raw = |op: u32, property: u32, value: u64| Setting {
        op,
        property,
        value: PlannedValue::Raw(value),
    };
    assert_eq!(
        plan.settings,
        vec![
            raw(115, 1115, 1),
            raw(120, 1121, Curve1DType::Pq125Eotf as u64),
            raw(120, 1120, 0),
            raw(125, 1125, 1),
            raw(132, 1134, 2 << 32),
            raw(132, 1132, 0),
            raw(137, 1137, 1),
        ]
    );
}

#[test]
fn gains_are_folded_into_matrices() {
    let mut ctm = CTM_3X4_IDENTITY;
    ctm[1] = 0.5f64.to_bits();
    let transform = ScanoutColorTransform {
        decode: None,
        multiplier: 3.0f64.to_bits(),
        ctm: Some(ctm),
        encode: None,
    };
    let plan = transform.resolve(&nvidia_fp_lite()).unwrap();
    assert_eq!(plan.uploads.len(), 1);
    assert_eq!(plan.uploads[0].gain, 3.0f64.to_bits());
    assert_eq!(plan.uploads[0].matrix, ctm);
    let resolved = ResolvedColorPipeline::new(&plan, vec![77]);
    assert_eq!(resolved.pipeline_id(), 182);
    assert_eq!(resolved.blobs(), &vec![77]);
    assert_eq!(
        resolved.props(),
        &vec![
            ResolvedProperty { op: 182, property: 1185, value: 77 },
            ResolvedProperty { op: 182, property: 1182, value: 0 },
            ResolvedProperty { op: 187, property: 1187, value: 1 },
        ]
    );
    // The blobs do not matter for whether two resolved pipelines are the same, their ids in the
    // properties do.
    assert!(resolved == ResolvedColorPipeline::new(&plan, vec![77]));
    assert!(resolved != ResolvedColorPipeline::new(&plan, vec![78]));
}

#[test]
fn unused_operations_become_identities() {
    let pipeline = ColorPipeline {
        id: 7,
        ops: vec![op(7, ColorOpKind::Multiplier, false), op(9, ColorOpKind::Ctm3x4, false)],
    };
    let plan = ScanoutColorTransform::identity().resolve(&pipeline).unwrap();
    assert_eq!(
        plan.settings,
        vec![
            Setting { op: 7, property: 1009, value: PlannedValue::Raw(1 << 32) },
            Setting { op: 9, property: 1012, value: PlannedValue::Blob(0) },
        ]
    );
    assert_eq!(plan.uploads[0].matrix, CTM_3X4_IDENTITY);
    let stuck = ColorPipeline {
        id: 7,
        ops: vec![curve(7, &CURVES, false)],
    };
    assert!(ScanoutColorTransform::identity().resolve(&stuck).is_none());
}

fn entry(value: u64, name: &str) -> EnumEntry {
    EnumEntry { value, name: Some(name.to_string()) }
}

fn record(id: u32, name: &str, value: u64, entries: Option<Vec<EnumEntry>>) -> PropertyRecord {
    PropertyRecord {
        id,
        value,
        info: Some(PropertyInfo { name: Some(name.to_string()), entries }),
    }
}

fn types() -> Option<Vec<EnumEntry>> {
    Some(vec![
        entry(0, "1D Curve"),
        entry(1, "1D LUT"),
        entry(2, "3x4 Matrix"),
        entry(3, "Multiplier"),
        entry(4, "3D LUT"),
        entry(5, "Teleporter"),
    ])
}

#[test]
fn curve_operations_are_read() {
    let records = vec![
        record(1, "TYPE", 0, types()),
        record(2, "BYPASS", 1, None),
        record(3, "NEXT", 99, None),
        record(
            4,
            "CURVE_1D_TYPE",
            0,
            Some(vec![
                entry(10, "sRGB EOTF"),
                entry(11, "Something else"),
                EnumEntry { value: 12, name: None },
                entry(13, "PQ 125 EOTF"),
            ]),
        ),
    ];
    let read = read_colorop(42, &records).unwrap();
    assert_eq!(read.next, 99);
    assert_eq!(read.op.id, 42);
    assert!(read.op.bypassable);
    assert_eq!(
        read.op.kind,
        ColorOpKind::Curve1D {
            supported: vec![(Curve1DType::SrgbEotf, 10), (Curve1DType::Pq125Eotf, 13)],
        }
    );
    assert_eq!(read.op.props.get("NEXT"), Some(3));
    assert_eq!(read.op.props.get("DATA"), None);
}

#[test]
fn lookup_tables_are_read() {
    let records = vec![
        record(1, "TYPE", 1, types()),
        record(2, "SIZE", (7 << 32) | 1024, None),
        record(3, "LUT1D_INTERPOLATION", 5, Some(vec![entry(5, "Linear")])),
    ];
    let read = read_colorop(1, &records).unwrap();
    assert_eq!(
        read.op.kind,
        ColorOpKind::Lut1D { size: 1024, interpolation: Lut1DInterpolation::Linear }
    );
    assert!(!read.op.bypassable);
    assert_eq!(read.next, 0);

    let records = vec![
        record(1, "TYPE", 4, types()),
        record(2, "SIZE", 17, None),
        record(3, "LUT3D_INTERPOLATION", 6, Some(vec![entry(5, "Tetrahedral")])),
    ];
    let read = read_colorop(1, &records).unwrap();
    assert_eq!(
        read.op.kind,
        ColorOpKind::Lut3D { size: 17, interpolation: Lut3DInterpolation::Unknown }
    );
}

#[test]
fn properties_without_handle_are_skipped() {
    // A handle of zero is none.
    let records = vec![record(0, "TYPE", 2, types()), record(5, "BYPASS", 0, None)];
    let read = read_colorop(1, &records).unwrap();
    assert_eq!(read.op.kind, ColorOpKind::Unknown { name: "<missing TYPE>".to_string() });
    assert_eq!(read.op.props.get("TYPE"), None);
    assert_eq!(read.op.props.get("BYPASS"), Some(5));
}

#[test]
fn unknown_operations_have_to_be_bypassable() {
    let with_bypass = vec![record(1, "TYPE", 5, types()), record(2, "BYPASS", 0, None)];
    let read = read_colorop(1, &with_bypass).unwrap();
    assert_eq!(read.op.kind, ColorOpKind::Unknown { name: "Teleporter".to_string() });
    let without = vec![record(1, "TYPE", 5, types())];
    let error = read_colorop(1, &without).unwrap_err();
    assert_eq!(error, PipelineError::UnknownNonBypassable);
    assert_eq!(error.message(), "pipeline contains an unknown non-bypassable colorop");
    assert_eq!(read_colorop(1, &vec![]).unwrap_err(), PipelineError::UnknownNonBypassable);
}

fn chain(next: u64) -> Vec<PropertyRecord> {
    vec![record(1, "TYPE", 3, types()), record(2, "NEXT", next, None)]
}

#[test]
fn chains_are_walked_to_their_end() {
    let mut walk = PipelineWalk::start(10);
    assert_eq!(walk.step(), WalkStep::Read(10));
    walk.advance(&chain(20)).unwrap();
    assert_eq!(walk.step(), WalkStep::Read(20));
    walk.advance(&chain(0)).unwrap();
    assert_eq!(walk.step(), WalkStep::Done);
    let pipeline = walk.finish();
    assert_eq!(pipeline.id, 10);
    assert_eq!(pipeline.ops.iter().map(|op| op.id).collect::<Vec<_>>(), vec![10, 20]);
}

#[test]
fn cyclic_and_long_chains_are_refused() {
    let abort = WalkStep::Abort(PipelineError::ChainTooLongOrCyclic);
    let mut walk = PipelineWalk::start(10);
    walk.advance(&chain(20)).unwrap();
    walk.advance(&chain(10)).unwrap();
    assert_eq!(walk.step(), abort);

    let mut walk = PipelineWalk::start(1);
    for i in 0..MAX_PIPELINE_OPS {
        assert_eq!(walk.step(), WalkStep::Read(i as u32 + 1));
        walk.advance(&chain(i as u64 + 2)).unwrap();
    }
    assert_eq!(walk.step(), abort);
    assert_eq!(
        PipelineError::ChainTooLongOrCyclic.message(),
        "colorop NEXT chain is too long or cyclic"
    );
}

#[test]
fn unusable_pipelines_hide_no_others() {
    assert!(usable_pipelines(vec![]).is_empty());
    assert!(usable_pipelines(vec![None]).is_empty());
    let pipeline = |id: u64| ColorPipeline { id, ops: vec![] };
    let walks = vec![None, Some(pipeline(7)), None, Some(pipeline(3)), Some(pipeline(9)), None];
    let ids: Vec<u64> = usable_pipelines(walks).iter().map(|pipeline| pipeline.id).collect();
    assert_eq!(ids, vec![7, 3, 9]);
}

#[test]
fn pipelines_can_be_cloned() {
    let pipeline = nvidia_full();
    let clone = pipeline.clone();
    assert_eq!(clone.id, pipeline.id);
    assert_eq!(clone.ops.len(), pipeline.ops.len());
    assert_eq!(clone.ops[0].kind, pipeline.ops[0].kind);
}

#[test]
fn planes_advertise_their_pipelines() {
    let info = |name: &str, entries| {
        Some(PropertyInfo { name: Some(name.to_string()), entries })
    };
    let entries = Some(vec![entry(0, "Bypass"), entry(58, "Full"), entry(115, "Lite")]);
    let later = Some(vec![entry(7, "Later")]);
    let infos = vec![
        None,
        info("rotation", Some(vec![entry(3, "x")])),
        info("COLOR_PIPELINE", entries),
        info("COLOR_PIPELINE", later),
    ];
    assert_eq!(plane_color_pipelines(&infos), vec![58, 115]);
    assert_eq!(plane_color_pipelines(&vec![info("COLOR_PIPELINE", None)]), Vec::<u64>::new());
    assert_eq!(plane_color_pipelines(&vec![]), Vec::<u64>::new());
}
