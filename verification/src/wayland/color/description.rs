//! Image descriptions: the transfer characteristics, primaries and luminances of contents.

use vstd::prelude::*;
use wayland_protocols::wp::color_management::v1::server::wp_color_manager_v1;
use wayland_server::WEnum;

use crate::wayland::color::chromaticities::Chromaticities;
use crate::wayland::color::chromaticities;

verus! {

/// Named transfer functions.
#[derive(Debug, Clone, Copy, PartialEq, Eq, Structural)]
pub enum TransferFunction {
    Bt1886,
    Gamma22,
    Gamma28,
    St240,
    ExtLinear,
    Log100,
    Log316,
    Xvycc,
    Srgb,
    ExtSrgb,
    St2084Pq,
    St428,
    Hlg,
    CompoundPower24,
}

/// Named sets of primaries.
#[derive(Debug, Clone, Copy, PartialEq, Eq, Structural)]
pub enum Primaries {
    Srgb,
    PalM,
    Pal,
    Ntsc,
    GenericFilm,
    Bt2020,
    Cie1931Xyz,
    DciP3,
    DisplayP3,
    AdobeRgb,
}

/// Rendering intents.
#[derive(Debug, Clone, Copy, PartialEq, Eq, Structural)]
pub enum RenderIntent {
    Perceptual,
    Relative,
    Saturation,
    Absolute,
    RelativeBpc,
    AbsoluteNoAdaptation,
}

/// Optional features of a compositor.
#[derive(Debug, Clone, Copy, PartialEq, Eq, Structural)]
pub enum Feature {
    IccV2V4,
    Parametric,
    SetPrimaries,
    SetTfPower,
    SetLuminances,
    SetMasteringDisplayPrimaries,
    ExtendedTargetVolume,
    WindowsScrgb,
    WindowsBt2100,
}

/// Parses the wire value of a transfer function: `WEnum::from`, `WEnum::into_result` and the
/// conversion of `wp_color_manager_v1::TransferFunction` back to its wire value.
///
/// The protocol names the values 1 to 14; the result is the value itself if it is one of them,
/// and `None` otherwise.
#[verifier::external_body]
fn known_transfer_function(wire: u32) -> (known: Option<u32>)
    ensures
        known == if 1 <= wire <= 14 {
            Some(wire)
        } else {
            None
        },
{
    WEnum::<wp_color_manager_v1::TransferFunction>::from(wire).into_result().ok().map(u32::from)
}

/// Parses the wire value of a set of primaries: `WEnum::from`, `WEnum::into_result` and the
/// conversion of `wp_color_manager_v1::Primaries` back to its wire value.
///
/// The protocol names the values 1 to 10; the result is the value itself if it is one of them,
/// and `None` otherwise.
#[verifier::external_body]
fn known_primaries(wire: u32) -> (known: Option<u32>)
    ensures
        known == if 1 <= wire <= 10 {
            Some(wire)
        } else {
            None
        },
{
    WEnum::<wp_color_manager_v1::Primaries>::from(wire).into_result().ok().map(u32::from)
}

/// Parses the wire value of a rendering intent: `WEnum::from`, `WEnum::into_result` and the
/// conversion of `wp_color_manager_v1::RenderIntent` back to its wire value.
///
/// The protocol names the values 0 to 5; the result is the value itself if it is one of them,
/// and `None` otherwise.
#[verifier::external_body]
fn known_render_intent(wire: u32) -> (known: Option<u32>)
    ensures
        known == if wire <= 5 {
            Some(wire)
        } else {
            None
        },
{
    WEnum::<wp_color_manager_v1::RenderIntent>::from(wire).into_result().ok().map(u32::from)
}

impl TransferFunction {
    /// The value that stands for the transfer function on the wire.
    pub open spec fn wire(self) -> u32 {
        match self {
            TransferFunction::Bt1886 => 1,
            TransferFunction::Gamma22 => 2,
            TransferFunction::Gamma28 => 3,
            TransferFunction::St240 => 4,
            TransferFunction::ExtLinear => 5,
            TransferFunction::Log100 => 6,
            TransferFunction::Log316 => 7,
            TransferFunction::Xvycc => 8,
            TransferFunction::Srgb => 9,
            TransferFunction::ExtSrgb => 10,
            TransferFunction::St2084Pq => 11,
            TransferFunction::St428 => 12,
            TransferFunction::Hlg => 13,
            TransferFunction::CompoundPower24 => 14,
        }
    }

    /// Whether a wire value names a transfer function.
    pub open spec fn is_named(wire: u32) -> bool {
        exists|tf: TransferFunction| #[trigger] tf.wire() == wire
    }

    /// The value that stands for the transfer function on the wire.
    pub fn to_wire(self) -> (wire: u32)
        ensures
            wire == self.wire(),
    {
        match self {
            TransferFunction::Bt1886 => 1,
            TransferFunction::Gamma22 => 2,
            TransferFunction::Gamma28 => 3,
            TransferFunction::St240 => 4,
            TransferFunction::ExtLinear => 5,
            TransferFunction::Log100 => 6,
            TransferFunction::Log316 => 7,
            TransferFunction::Xvycc => 8,
            TransferFunction::Srgb => 9,
            TransferFunction::ExtSrgb => 10,
            TransferFunction::St2084Pq => 11,
            TransferFunction::St428 => 12,
            TransferFunction::Hlg => 13,
            TransferFunction::CompoundPower24 => 14,
        }
    }

    /// The transfer function that a wire value names, if it names one.
    pub fn from_wire(wire: u32) -> (tf: Option<TransferFunction>)
        ensures
            tf matches Some(tf) ==> tf.wire() == wire,
            tf is None ==> !TransferFunction::is_named(wire),
    {
        let named: u32 = match known_transfer_function(wire) {
            Some(named) => named,
            None => return None,
        };
        if named == 1 {
            Some(TransferFunction::Bt1886)
        } else if named == 2 {
            Some(TransferFunction::Gamma22)
        } else if named == 3 {
            Some(TransferFunction::Gamma28)
        } else if named == 4 {
            Some(TransferFunction::St240)
        } else if named == 5 {
            Some(TransferFunction::ExtLinear)
        } else if named == 6 {
            Some(TransferFunction::Log100)
        } else if named == 7 {
            Some(TransferFunction::Log316)
        } else if named == 8 {
            Some(TransferFunction::Xvycc)
        } else if named == 9 {
            Some(TransferFunction::Srgb)
        } else if named == 10 {
            Some(TransferFunction::ExtSrgb)
        } else if named == 11 {
            Some(TransferFunction::St2084Pq)
        } else if named == 12 {
            Some(TransferFunction::St428)
        } else if named == 13 {
            Some(TransferFunction::Hlg)
        } else {
            Some(TransferFunction::CompoundPower24)
        }
    }
}

impl Primaries {
    /// The value that stands for the primaries on the wire.
    pub open spec fn wire(self) -> u32 {
        match self {
            Primaries::Srgb => 1,
            Primaries::PalM => 2,
            Primaries::Pal => 3,
            Primaries::Ntsc => 4,
            Primaries::GenericFilm => 5,
            Primaries::Bt2020 => 6,
            Primaries::Cie1931Xyz => 7,
            Primaries::DciP3 => 8,
            Primaries::DisplayP3 => 9,
            Primaries::AdobeRgb => 10,
        }
    }

    /// Whether a wire value names a set of primaries.
    pub open spec fn is_named(wire: u32) -> bool {
        exists|p: Primaries| #[trigger] p.wire() == wire
    }

    /// The value that stands for the primaries on the wire.
    pub fn to_wire(self) -> (wire: u32)
        ensures
            wire == self.wire(),
    {
        match self {
            Primaries::Srgb => 1,
            Primaries::PalM => 2,
            Primaries::Pal => 3,
            Primaries::Ntsc => 4,
            Primaries::GenericFilm => 5,
            Primaries::Bt2020 => 6,
            Primaries::Cie1931Xyz => 7,
            Primaries::DciP3 => 8,
            Primaries::DisplayP3 => 9,
            Primaries::AdobeRgb => 10,
        }
    }

    /// The primaries that a wire value names, if it names any.
    pub fn from_wire(wire: u32) -> (p: Option<Primaries>)
        ensures
            p matches Some(p) ==> p.wire() == wire,
            p is None ==> !Primaries::is_named(wire),
    {
        let named: u32 = match known_primaries(wire) {
            Some(named) => named,
            None => return None,
        };
        if named == 1 {
            Some(Primaries::Srgb)
        } else if named == 2 {
            Some(Primaries::PalM)
        } else if named == 3 {
            Some(Primaries::Pal)
        } else if named == 4 {
            Some(Primaries::Ntsc)
        } else if named == 5 {
            Some(Primaries::GenericFilm)
        } else if named == 6 {
            Some(Primaries::Bt2020)
        } else if named == 7 {
            Some(Primaries::Cie1931Xyz)
        } else if named == 8 {
            Some(Primaries::DciP3)
        } else if named == 9 {
            Some(Primaries::DisplayP3)
        } else {
            Some(Primaries::AdobeRgb)
        }
    }
}

impl RenderIntent {
    /// The value that stands for the intent on the wire.
    pub open spec fn wire(self) -> u32 {
        match self {
            RenderIntent::Perceptual => 0,
            RenderIntent::Relative => 1,
            RenderIntent::Saturation => 2,
            RenderIntent::Absolute => 3,
            RenderIntent::RelativeBpc => 4,
            RenderIntent::AbsoluteNoAdaptation => 5,
        }
    }

    /// Whether a wire value names an intent.
    pub open spec fn is_named(wire: u32) -> bool {
        exists|intent: RenderIntent| #[trigger] intent.wire() == wire
    }

    /// The value that stands for the intent on the wire.
    pub fn to_wire(self) -> (wire: u32)
        ensures
            wire == self.wire(),
    {
        match self {
            RenderIntent::Perceptual => 0,
            RenderIntent::Relative => 1,
            RenderIntent::Saturation => 2,
            RenderIntent::Absolute => 3,
            RenderIntent::RelativeBpc => 4,
            RenderIntent::AbsoluteNoAdaptation => 5,
        }
    }

    /// The intent that a wire value names, if it names one.
    pub fn from_wire(wire: u32) -> (intent: Option<RenderIntent>)
        ensures
            intent matches Some(intent) ==> intent.wire() == wire,
            intent is None ==> !RenderIntent::is_named(wire),
    {
        let named: u32 = match known_render_intent(wire) {
            Some(named) => named,
            None => return None,
        };
        if named == 0 {
            Some(RenderIntent::Perceptual)
        } else if named == 1 {
            Some(RenderIntent::Relative)
        } else if named == 2 {
            Some(RenderIntent::Saturation)
        } else if named == 3 {
            Some(RenderIntent::Absolute)
        } else if named == 4 {
            Some(RenderIntent::RelativeBpc)
        } else {
            Some(RenderIntent::AbsoluteNoAdaptation)
        }
    }
}

impl Feature {
    /// The value that stands for the feature on the wire.
    pub open spec fn wire(self) -> u32 {
        match self {
            Feature::IccV2V4 => 0,
            Feature::Parametric => 1,
            Feature::SetPrimaries => 2,
            Feature::SetTfPower => 3,
            Feature::SetLuminances => 4,
            Feature::SetMasteringDisplayPrimaries => 5,
            Feature::ExtendedTargetVolume => 6,
            Feature::WindowsScrgb => 7,
            Feature::WindowsBt2100 => 8,
        }
    }

    /// The value that stands for the feature on the wire.
    pub fn to_wire(self) -> (wire: u32)
        ensures
            wire == self.wire(),
    {
        match self {
            Feature::IccV2V4 => 0,
            Feature::Parametric => 1,
            Feature::SetPrimaries => 2,
            Feature::SetTfPower => 3,
            Feature::SetLuminances => 4,
            Feature::SetMasteringDisplayPrimaries => 5,
            Feature::ExtendedTargetVolume => 6,
            Feature::WindowsScrgb => 7,
            Feature::WindowsBt2100 => 8,
        }
    }
}

/// No two values share a number on the wire.
pub proof fn law_wire_values_are_distinct(
    tf: (TransferFunction, TransferFunction),
    primaries: (Primaries, Primaries),
    intent: (RenderIntent, RenderIntent),
    feature: (Feature, Feature),
)
    ensures
        tf.0.wire() == tf.1.wire() ==> tf.0 == tf.1,
        primaries.0.wire() == primaries.1.wire() ==> primaries.0 == primaries.1,
        intent.0.wire() == intent.1.wire() ==> intent.0 == intent.1,
        feature.0.wire() == feature.1.wire() ==> feature.0 == feature.1,
{
}

impl Chromaticities {
    /// The chromaticities of a named set of primaries.
    pub open spec fn named(primaries: Primaries) -> Chromaticities {
        let d65 = (312_700i32, 329_000i32);
        let c = (310_000i32, 316_000i32);
        match primaries {
            Primaries::Srgb => Chromaticities {
                red: (640_000, 330_000),
                green: (300_000, 600_000),
                blue: (150_000, 60_000),
                white: d65,
            },
            Primaries::PalM => Chromaticities {
                red: (670_000, 330_000),
                green: (210_000, 710_000),
                blue: (140_000, 80_000),
                white: c,
            },
            Primaries::Pal => Chromaticities {
                red: (640_000, 330_000),
                green: (290_000, 600_000),
                blue: (150_000, 60_000),
                white: d65,
            },
            Primaries::Ntsc => Chromaticities {
                red: (630_000, 340_000),
                green: (310_000, 595_000),
                blue: (155_000, 70_000),
                white: d65,
            },
            Primaries::GenericFilm => Chromaticities {
                red: (681_000, 319_000),
                green: (243_000, 692_000),
                blue: (145_000, 49_000),
                white: c,
            },
            Primaries::Bt2020 => Chromaticities {
                red: (708_000, 292_000),
                green: (170_000, 797_000),
                blue: (131_000, 46_000),
                white: d65,
            },
            Primaries::Cie1931Xyz => Chromaticities {
                red: (1_000_000, 0),
                green: (0, 1_000_000),
                blue: (0, 0),
                white: (333_333, 333_333),
            },
            Primaries::DciP3 => Chromaticities {
                red: (680_000, 320_000),
                green: (265_000, 690_000),
                blue: (150_000, 60_000),
                white: (314_000, 351_000),
            },
            Primaries::DisplayP3 => Chromaticities {
                red: (680_000, 320_000),
                green: (265_000, 690_000),
                blue: (150_000, 60_000),
                white: d65,
            },
            Primaries::AdobeRgb => Chromaticities {
                red: (640_000, 330_000),
                green: (210_000, 710_000),
                blue: (150_000, 60_000),
                white: d65,
            },
        }
    }

    /// The chromaticities of a named set of primaries, per ITU-T H.273 (and the respective
    /// defining standards referenced by the protocol).
    pub fn from_named(primaries: Primaries) -> (c: Self)
        ensures
            c == Chromaticities::named(primaries),
    {
        let d65: (i32, i32) = (312_700, 329_000);
        let c: (i32, i32) = (310_000, 316_000);
        match primaries {
            Primaries::Srgb => Chromaticities {
                red: (640_000, 330_000),
                green: (300_000, 600_000),
                blue: (150_000, 60_000),
                white: d65,
            },
            Primaries::PalM => Chromaticities {
                red: (670_000, 330_000),
                green: (210_000, 710_000),
                blue: (140_000, 80_000),
                white: c,
            },
            Primaries::Pal => Chromaticities {
                red: (640_000, 330_000),
                green: (290_000, 600_000),
                blue: (150_000, 60_000),
                white: d65,
            },
            Primaries::Ntsc => Chromaticities {
                red: (630_000, 340_000),
                green: (310_000, 595_000),
                blue: (155_000, 70_000),
                white: d65,
            },
            Primaries::GenericFilm => Chromaticities {
                red: (681_000, 319_000),
                green: (243_000, 692_000),
                blue: (145_000, 49_000),
                white: c,
            },
            Primaries::Bt2020 => Chromaticities {
                red: (708_000, 292_000),
                green: (170_000, 797_000),
                blue: (131_000, 46_000),
                white: d65,
            },
            Primaries::Cie1931Xyz => Chromaticities {
                red: (1_000_000, 0),
                green: (0, 1_000_000),
                blue: (0, 0),
                white: (333_333, 333_333),
            },
            Primaries::DciP3 => Chromaticities {
                red: (680_000, 320_000),
                green: (265_000, 690_000),
                blue: (150_000, 60_000),
                white: (314_000, 351_000),
            },
            Primaries::DisplayP3 => Chromaticities {
                red: (680_000, 320_000),
                green: (265_000, 690_000),
                blue: (150_000, 60_000),
                white: d65,
            },
            Primaries::AdobeRgb => Chromaticities {
                red: (640_000, 330_000),
                green: (210_000, 710_000),
                blue: (150_000, 60_000),
                white: d65,
            },
        }
    }
}

/// Every named gamut contains its own white point, and is not a mere line.
pub proof fn law_named_gamuts_contain_their_white_point(primaries: Primaries)
    ensures
        Chromaticities::named(primaries).is_triangle(),
        Chromaticities::named(primaries).contains_gamut(Chromaticities::named(primaries)),
{
    let c = Chromaticities::named(primaries);
    lemma_named_white_point(primaries);
    chromaticities::law_gamut_contains_itself(c);
}

proof fn lemma_named_white_point(primaries: Primaries)
    by (nonlinear_arith)
    ensures
        ({
            let c = Chromaticities::named(primaries);
            &&& chromaticities::cross(c.red, c.green, c.blue) != 0
            &&& chromaticities::in_triangle(c.white, c.red, c.green, c.blue)
        }),
{
}

/// A parsed, immutable parametric image description.
///
/// Only named transfer functions and primaries are representable, since those are the only
/// ones that are advertised.
#[derive(Debug, Clone, Copy)]
pub struct ImageDescription {
    /// The transfer characteristics of the content.
    pub transfer: TransferFunction,
    /// The color primaries of the content.
    pub primaries: Primaries,
    /// Maximum content light level in cd/m², if the client provided it.
    pub max_cll: Option<u32>,
    /// Maximum frame-average light level in cd/m², if provided.
    pub max_fall: Option<u32>,
    /// Mastering display luminance as (min in 0.0001 cd/m², max in cd/m²), if provided.
    pub mastering_luminance: Option<(u32, u32)>,
    /// Mastering display primaries and white point (SMPTE ST 2086), if provided. Together with
    /// the mastering luminance these define the target color volume.
    pub mastering_primaries: Option<Chromaticities>,
    /// Content luminances as (min in 0.0001 cd/m², max in cd/m², reference white in cd/m²), if
    /// provided.
    pub luminances: Option<(u32, u32, u32)>,
    /// Whether this is the pre-defined Windows-scRGB stimulus encoding rather than a
    /// client-authored parametric description.
    pub windows_scrgb: bool,
}

fn same_number(a: Option<u32>, b: Option<u32>) -> (same: bool)
    ensures
        same == (a == b),
{
    match (a, b) {
        (Some(a), Some(b)) => a == b,
        (None, None) => true,
        _ => false,
    }
}

impl PartialEq for ImageDescription {
    fn eq(&self, other: &Self) -> (same: bool) {
        self.transfer == other.transfer && self.primaries == other.primaries && same_number(
            self.max_cll,
            other.max_cll,
        ) && same_number(self.max_fall, other.max_fall) && (match (
            self.mastering_luminance,
            other.mastering_luminance,
        ) {
            (Some(a), Some(b)) => a.0 == b.0 && a.1 == b.1,
            (None, None) => true,
            _ => false,
        }) && (match (self.mastering_primaries, other.mastering_primaries) {
            (Some(a), Some(b)) => a == b,
            (None, None) => true,
            _ => false,
        }) && (match (self.luminances, other.luminances) {
            (Some(a), Some(b)) => a.0 == b.0 && a.1 == b.1 && a.2 == b.2,
            (None, None) => true,
            _ => false,
        }) && self.windows_scrgb == other.windows_scrgb
    }
}

impl Eq for ImageDescription {

}

impl vstd::std_specs::cmp::PartialEqSpecImpl for ImageDescription {
    open spec fn obeys_eq_spec() -> bool {
        true
    }

    open spec fn eq_spec(&self, other: &Self) -> bool {
        *self == *other
    }
}

impl ImageDescription {
    /// sRGB with sRGB primaries and no metadata.
    pub open spec fn is_plain_srgb(self) -> bool {
        &&& self.transfer == TransferFunction::Srgb
        &&& self.primaries == Primaries::Srgb
        &&& self.max_cll is None
        &&& self.max_fall is None
        &&& self.mastering_luminance is None
        &&& self.mastering_primaries is None
        &&& self.luminances is None
        &&& !self.windows_scrgb
    }

    /// The Windows-scRGB stimulus encoding.
    pub open spec fn is_windows_encoding(self) -> bool {
        &&& self.transfer == TransferFunction::ExtLinear
        &&& self.primaries == Primaries::Srgb
        &&& self.max_cll is None
        &&& self.max_fall is None
        &&& self.mastering_luminance is None
        &&& self.mastering_primaries == Some(Chromaticities::named(Primaries::Bt2020))
        &&& self.luminances == Some((0u32, 80u32, 203u32))
        &&& self.windows_scrgb
    }

    /// HDR or wide-gamut content.
    pub open spec fn hdr(self) -> bool {
        ||| self.transfer == TransferFunction::St2084Pq
        ||| self.transfer == TransferFunction::Hlg
        ||| self.primaries == Primaries::Bt2020
        ||| self.windows_scrgb
    }

    /// sRGB with sRGB primaries: the default SDR description, also used for surfaces without
    /// an attached description.
    pub fn srgb() -> (desc: Self)
        ensures
            desc.is_plain_srgb(),
    {
        ImageDescription {
            transfer: TransferFunction::Srgb,
            primaries: Primaries::Srgb,
            max_cll: None,
            max_fall: None,
            mastering_luminance: None,
            mastering_primaries: None,
            luminances: None,
            windows_scrgb: false,
        }
    }

    /// The pre-defined Windows-scRGB stimulus encoding: sRGB primaries and white point with an
    /// extended-linear transfer where R=G=B=1.0 corresponds to 80 cd/m² (up to 125.0 for 10,000
    /// cd/m²).
    ///
    /// The protocol leaves the target color volume unknown; BT.2020 is assumed so that
    /// wide-gamut content is not clipped, with a reference white of 203 cd/m².
    pub fn windows_scrgb() -> (desc: Self)
        ensures
            desc.is_windows_encoding(),
    {
        ImageDescription {
            transfer: TransferFunction::ExtLinear,
            primaries: Primaries::Srgb,
            max_cll: None,
            max_fall: None,
            mastering_luminance: None,
            mastering_primaries: Some(Chromaticities::from_named(Primaries::Bt2020)),
            luminances: Some((0, 80, 203)),
            windows_scrgb: true,
        }
    }

    /// Whether this description denotes HDR/wide-gamut content: an HDR transfer function (PQ or
    /// HLG), BT.2020 primaries, or the Windows-scRGB encoding.
    pub fn is_hdr(&self) -> (hdr: bool)
        ensures
            hdr == self.hdr(),
    {
        self.transfer == TransferFunction::St2084Pq || self.transfer == TransferFunction::Hlg
            || self.primaries == Primaries::Bt2020 || self.windows_scrgb
    }
}

} // verus!
