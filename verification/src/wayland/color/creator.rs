//! Creators of parametric image descriptions.

use vstd::prelude::*;

use crate::wayland::color::chromaticities::Chromaticities;
use crate::wayland::color::description::{Feature, ImageDescription, Primaries, TransferFunction};
use crate::wayland::color::manager::{
    ColorManagementState, CreatorError, ManagerModel, NewDescription,
};

verus! {

/// Accumulated parameters of a creator, validated when the description is created.
#[derive(Debug, Clone, Copy)]
pub struct ImageDescriptionBuilder {
    transfer: Option<TransferFunction>,
    primaries: Option<Primaries>,
    max_cll: Option<u32>,
    max_fall: Option<u32>,
    mastering_luminance: Option<(u32, u32)>,
    mastering_primaries: Option<Chromaticities>,
    luminances: Option<(u32, u32, u32)>,
}

/// What an [`ImageDescriptionBuilder`] means.
pub struct BuilderModel {
    pub transfer: Option<TransferFunction>,
    pub primaries: Option<Primaries>,
    pub max_cll: Option<u32>,
    pub max_fall: Option<u32>,
    pub mastering_luminance: Option<(u32, u32)>,
    pub mastering_primaries: Option<Chromaticities>,
    pub luminances: Option<(u32, u32, u32)>,
}

/// Requests to a creator.
#[derive(Debug, Clone, Copy, PartialEq, Eq)]
pub enum CreatorRequest {
    /// Set the transfer function, by its wire value.
    SetTfNamed(u32),
    /// Set the primaries, by their wire value.
    SetPrimariesNamed(u32),
    /// Set the mastering display luminance: min in 0.0001 cd/m², max in cd/m².
    SetMasteringLuminance(u32, u32),
    /// Set the maximum content light level.
    SetMaxCll(u32),
    /// Set the maximum frame-average light level.
    SetMaxFall(u32),
    /// Set the luminances: min in 0.0001 cd/m², max and reference white in cd/m².
    SetLuminances(u32, u32, u32),
    /// Set the mastering display primaries and white point.
    SetMasteringDisplayPrimaries(Chromaticities),
    /// Set the transfer function, by an exponent.
    SetTfPower,
    /// Set the primaries, by their chromaticities.
    SetPrimaries,
    /// Create the image description.
    Create,
}

/// Answers of a creator.
#[derive(Debug, Clone, Copy)]
pub enum CreatorReply {
    /// The parameter was set.
    Done,
    /// An image description object was made.
    Description(NewDescription),
    /// The client made an error.
    Error(CreatorError, &'static str),
}

/// What a creator decides about a request.
pub enum Decision {
    /// The parameters are these from now on.
    Accept(BuilderModel),
    /// The client made an error.
    Error(CreatorError, Seq<char>),
    /// The description fails gracefully.
    Fail,
    /// The description is ready.
    Ready(ImageDescription),
}

/// Whether a supported transfer function has this wire value.
pub open spec fn supports_tf(manager: ManagerModel, wire: u32) -> bool {
    exists|tf: TransferFunction|
        #![trigger manager.tfs.contains(tf)]
        manager.tfs.contains(tf) && tf.wire() == wire
}

/// Whether supported primaries have this wire value.
pub open spec fn supports_primaries(manager: ManagerModel, wire: u32) -> bool {
    exists|p: Primaries|
        #![trigger manager.primaries.contains(p)]
        manager.primaries.contains(p) && p.wire() == wire
}

/// Whether a luminance in cd/m² is above one in 0.0001 cd/m².
pub open spec fn is_brighter(luminance: u32, min_lum: u32) -> bool {
    luminance * 10000 > min_lum
}

/// Whether the target color volume of a description reaches outside its primary color volume:
/// a mastering primary or white point outside the gamut, or a reference white above the
/// maximum luminance.
pub open spec fn exceeds_volume(desc: ImageDescription) -> bool {
    ||| desc.mastering_primaries matches Some(mastering) && !Chromaticities::named(
        desc.primaries,
    ).contains_gamut(mastering)
    ||| desc.luminances matches Some((_, max_lum, reference_lum)) && reference_lum > max_lum
}

impl BuilderModel {
    /// No parameter set.
    pub open spec fn fresh() -> BuilderModel {
        BuilderModel {
            transfer: None,
            primaries: None,
            max_cll: None,
            max_fall: None,
            mastering_luminance: None,
            mastering_primaries: None,
            luminances: None,
        }
    }

    /// The description that the parameters describe.
    pub open spec fn described(self, transfer: TransferFunction, primaries: Primaries) -> ImageDescription {
        ImageDescription {
            transfer,
            primaries,
            max_cll: self.max_cll,
            max_fall: self.max_fall,
            mastering_luminance: self.mastering_luminance,
            mastering_primaries: self.mastering_primaries,
            luminances: self.luminances,
            windows_scrgb: false,
        }
    }

    /// Whether both light levels are set and the average is above the maximum.
    pub open spec fn levels_contradict(self) -> bool {
        match (self.max_cll, self.max_fall) {
            (Some(max_cll), Some(max_fall)) => max_fall > max_cll,
            _ => false,
        }
    }

    /// What is decided when the description is to be created.
    pub open spec fn create(self, manager: ManagerModel) -> Decision {
        match (self.transfer, self.primaries) {
            (Some(transfer), Some(primaries)) => {
                let desc = self.described(transfer, primaries);
                if self.levels_contradict() {
                    Decision::Error(
                        CreatorError::InvalidLuminance,
                        "max_fall must be less or equal to max_cll"@,
                    )
                } else if !manager.features.contains(Feature::ExtendedTargetVolume)
                    && exceeds_volume(desc) {
                    Decision::Fail
                } else {
                    Decision::Ready(desc)
                }
            },
            _ => Decision::Error(
                CreatorError::IncompleteSet,
                "transfer function and primaries are both required"@,
            ),
        }
    }

    /// What is decided about a request.
    pub open spec fn decide(self, request: CreatorRequest, manager: ManagerModel) -> Decision {
        match request {
            CreatorRequest::SetTfNamed(wire) => if self.transfer is Some {
                Decision::Error(CreatorError::AlreadySet, "transfer function already set"@)
            } else if !supports_tf(manager, wire) {
                Decision::Error(CreatorError::InvalidTf, "unsupported transfer function"@)
            } else {
                let tf = choose|tf: TransferFunction|
                    #![trigger manager.tfs.contains(tf)]
                    manager.tfs.contains(tf) && tf.wire() == wire;
                Decision::Accept(BuilderModel { transfer: Some(tf), ..self })
            },
            CreatorRequest::SetPrimariesNamed(wire) => if self.primaries is Some {
                Decision::Error(CreatorError::AlreadySet, "primaries already set"@)
            } else if !supports_primaries(manager, wire) {
                Decision::Error(CreatorError::InvalidPrimariesNamed, "unsupported primaries"@)
            } else {
                let p = choose|p: Primaries|
                    #![trigger manager.primaries.contains(p)]
                    manager.primaries.contains(p) && p.wire() == wire;
                Decision::Accept(BuilderModel { primaries: Some(p), ..self })
            },
            CreatorRequest::SetMasteringLuminance(min_lum, max_lum) => if !manager.features.contains(
                Feature::SetMasteringDisplayPrimaries,
            ) {
                Decision::Error(
                    CreatorError::UnsupportedFeature,
                    "set_mastering_luminance is not supported"@,
                )
            } else if !is_brighter(max_lum, min_lum) {
                Decision::Error(
                    CreatorError::InvalidLuminance,
                    "max L must be greater than min L"@,
                )
            } else {
                Decision::Accept(
                    BuilderModel { mastering_luminance: Some((min_lum, max_lum)), ..self },
                )
            },
            CreatorRequest::SetMaxCll(max_cll) => Decision::Accept(
                BuilderModel { max_cll: Some(max_cll), ..self },
            ),
            CreatorRequest::SetMaxFall(max_fall) => Decision::Accept(
                BuilderModel { max_fall: Some(max_fall), ..self },
            ),
            CreatorRequest::SetLuminances(min_lum, max_lum, reference_lum) => if !manager.features.contains(
            Feature::SetLuminances) {
                Decision::Error(
                    CreatorError::UnsupportedFeature,
                    "set_luminances is not supported"@,
                )
            } else if self.luminances is Some {
                Decision::Error(CreatorError::AlreadySet, "luminances already set"@)
            } else if !is_brighter(max_lum, min_lum) || !is_brighter(reference_lum, min_lum) {
                Decision::Error(
                    CreatorError::InvalidLuminance,
                    "max_lum and reference_lum must be greater than min_lum"@,
                )
            } else {
                Decision::Accept(
                    BuilderModel { luminances: Some((min_lum, max_lum, reference_lum)), ..self },
                )
            },
            CreatorRequest::SetMasteringDisplayPrimaries(mastering) => if !manager.features.contains(
            Feature::SetMasteringDisplayPrimaries) {
                Decision::Error(
                    CreatorError::UnsupportedFeature,
                    "set_mastering_display_primaries is not supported"@,
                )
            } else if self.mastering_primaries is Some {
                Decision::Error(
                    CreatorError::AlreadySet,
                    "mastering display primaries already set"@,
                )
            } else {
                Decision::Accept(BuilderModel { mastering_primaries: Some(mastering), ..self })
            },
            CreatorRequest::SetTfPower => Decision::Error(
                CreatorError::UnsupportedFeature,
                "set_tf_power is not supported"@,
            ),
            CreatorRequest::SetPrimaries => Decision::Error(
                CreatorError::UnsupportedFeature,
                "set_primaries is not supported"@,
            ),
            CreatorRequest::Create => self.create(manager),
        }
    }
}

impl CreatorReply {
    /// Whether this is an error with the given code and message.
    pub open spec fn is_error(self, error: CreatorError, message: Seq<char>) -> bool {
        self matches CreatorReply::Error(e, msg) && e == error && msg@ == message
    }
}

impl ImageDescriptionBuilder {
    pub closed spec fn view(&self) -> BuilderModel {
        BuilderModel {
            transfer: self.transfer,
            primaries: self.primaries,
            max_cll: self.max_cll,
            max_fall: self.max_fall,
            mastering_luminance: self.mastering_luminance,
            mastering_primaries: self.mastering_primaries,
            luminances: self.luminances,
        }
    }

    /// A creator without any parameter set.
    pub fn new() -> (builder: Self)
        ensures
            builder@ == BuilderModel::fresh(),
    {
        ImageDescriptionBuilder {
            transfer: None,
            primaries: None,
            max_cll: None,
            max_fall: None,
            mastering_luminance: None,
            mastering_primaries: None,
            luminances: None,
        }
    }

    /// Answers a request to the creator.
    pub fn request(&mut self, request: CreatorRequest, manager: &mut ColorManagementState) -> (reply:
        CreatorReply)
        requires
            old(manager)@.well_formed(),
            old(self)@.decide(request, old(manager)@) matches Decision::Ready(desc) ==> old(
                manager,
            )@.can_identify(desc),
        ensures
            final(manager)@.well_formed(),
            match old(self)@.decide(request, old(manager)@) {
                Decision::Accept(builder) => {
                    &&& reply is Done
                    &&& final(self)@ == builder
                    &&& final(manager)@ == old(manager)@
                },
                Decision::Error(error, message) => {
                    &&& reply.is_error(error, message)
                    &&& final(self)@ == old(self)@
                    &&& final(manager)@ == old(manager)@
                },
                Decision::Fail => {
                    &&& reply matches CreatorReply::Description(new) && new.has_failed(
                        "target color volume exceeds the primary color volume (extended_target_volume is not supported)"@,
                    )
                    &&& final(self)@ == old(self)@
                    &&& final(manager)@ == old(manager)@
                },
                Decision::Ready(desc) => {
                    &&& reply matches CreatorReply::Description(new) && new.is_ready(
                        desc,
                        final(manager)@,
                    )
                    &&& final(self)@ == old(self)@
                    &&& final(manager)@ == old(manager)@.identified(desc)
                },
            },
    {
        match request {
            CreatorRequest::SetTfNamed(wire) => {
                if self.transfer.is_some() {
                    return CreatorReply::Error(
                        CreatorError::AlreadySet,
                        "transfer function already set",
                    );
                }
                if let Some(tf) = TransferFunction::from_wire(wire) {
                    assert forall|other: TransferFunction| #[trigger]
                        manager@.tfs.contains(other) && other.wire() == wire implies other == tf by {}
                    if manager.supports_tf(tf) {
                        self.transfer = Some(tf);
                        return CreatorReply::Done;
                    }
                }
                CreatorReply::Error(CreatorError::InvalidTf, "unsupported transfer function")
            },
            CreatorRequest::SetPrimariesNamed(wire) => {
                if self.primaries.is_some() {
                    return CreatorReply::Error(CreatorError::AlreadySet, "primaries already set");
                }
                if let Some(p) = Primaries::from_wire(wire) {
                    assert forall|other: Primaries| #[trigger]
                        manager@.primaries.contains(other) && other.wire() == wire implies other
                        == p by {}
                    if manager.supports_primaries(p) {
                        self.primaries = Some(p);
                        return CreatorReply::Done;
                    }
                }
                CreatorReply::Error(CreatorError::InvalidPrimariesNamed, "unsupported primaries")
            },
            CreatorRequest::SetMasteringLuminance(min_lum, max_lum) => {
                if !manager.supports(Feature::SetMasteringDisplayPrimaries) {
                    return CreatorReply::Error(
                        CreatorError::UnsupportedFeature,
                        "set_mastering_luminance is not supported",
                    );
                }
                if max_lum as u64 * 10000 <= min_lum as u64 {
                    return CreatorReply::Error(
                        CreatorError::InvalidLuminance,
                        "max L must be greater than min L",
                    );
                }
                self.mastering_luminance = Some((min_lum, max_lum));
                CreatorReply::Done
            },
            CreatorRequest::SetMaxCll(max_cll) => {
                self.max_cll = Some(max_cll);
                CreatorReply::Done
            },
            CreatorRequest::SetMaxFall(max_fall) => {
                self.max_fall = Some(max_fall);
                CreatorReply::Done
            },
            CreatorRequest::SetLuminances(min_lum, max_lum, reference_lum) => {
                if !manager.supports(Feature::SetLuminances) {
                    return CreatorReply::Error(
                        CreatorError::UnsupportedFeature,
                        "set_luminances is not supported",
                    );
                }
                if self.luminances.is_some() {
                    return CreatorReply::Error(CreatorError::AlreadySet, "luminances already set");
                }
                if max_lum as u64 * 10000 <= min_lum as u64 || reference_lum as u64 * 10000
                    <= min_lum as u64 {
                    return CreatorReply::Error(
                        CreatorError::InvalidLuminance,
                        "max_lum and reference_lum must be greater than min_lum",
                    );
                }
                self.luminances = Some((min_lum, max_lum, reference_lum));
                CreatorReply::Done
            },
            CreatorRequest::SetMasteringDisplayPrimaries(mastering) => {
                if !manager.supports(Feature::SetMasteringDisplayPrimaries) {
                    return CreatorReply::Error(
                        CreatorError::UnsupportedFeature,
                        "set_mastering_display_primaries is not supported",
                    );
                }
                if self.mastering_primaries.is_some() {
                    return CreatorReply::Error(
                        CreatorError::AlreadySet,
                        "mastering display primaries already set",
                    );
                }
                self.mastering_primaries = Some(mastering);
                CreatorReply::Done
            },
            CreatorRequest::SetTfPower => CreatorReply::Error(
                CreatorError::UnsupportedFeature,
                "set_tf_power is not supported",
            ),
            CreatorRequest::SetPrimaries => CreatorReply::Error(
                CreatorError::UnsupportedFeature,
                "set_primaries is not supported",
            ),
            CreatorRequest::Create => self.create(manager),
        }
    }

    fn create(&self, manager: &mut ColorManagementState) -> (reply: CreatorReply)
        requires
            old(manager)@.well_formed(),
            self@.create(old(manager)@) matches Decision::Ready(desc) ==> old(
                manager,
            )@.can_identify(desc),
        ensures
            final(manager)@.well_formed(),
            match self@.create(old(manager)@) {
                Decision::Accept(builder) => false,
                Decision::Error(error, message) => {
                    &&& reply.is_error(error, message)
                    &&& final(manager)@ == old(manager)@
                },
                Decision::Fail => {
                    &&& reply matches CreatorReply::Description(new) && new.has_failed(
                        "target color volume exceeds the primary color volume (extended_target_volume is not supported)"@,
                    )
                    &&& final(manager)@ == old(manager)@
                },
                Decision::Ready(desc) => {
                    &&& reply matches CreatorReply::Description(new) && new.is_ready(
                        desc,
                        final(manager)@,
                    )
                    &&& final(manager)@ == old(manager)@.identified(desc)
                },
            },
    {
        let (transfer, primaries) = match (self.transfer, self.primaries) {
            (Some(transfer), Some(primaries)) => (transfer, primaries),
            _ => {
                return CreatorReply::Error(
                    CreatorError::IncompleteSet,
                    "transfer function and primaries are both required",
                );
            },
        };
        if let (Some(max_cll), Some(max_fall)) = (self.max_cll, self.max_fall) {
            if max_fall > max_cll {
                return CreatorReply::Error(
                    CreatorError::InvalidLuminance,
                    "max_fall must be less or equal to max_cll",
                );
            }
        }
        let desc = ImageDescription {
            transfer,
            primaries,
            max_cll: self.max_cll,
            max_fall: self.max_fall,
            mastering_luminance: self.mastering_luminance,
            mastering_primaries: self.mastering_primaries,
            luminances: self.luminances,
            windows_scrgb: false,
        };
        if !manager.supports(Feature::ExtendedTargetVolume) {
            let exceeds_gamut: bool = match desc.mastering_primaries {
                Some(mastering) => !Chromaticities::from_named(desc.primaries).gamut_contains(
                    &mastering,
                ),
                None => false,
            };
            let exceeds_luminance: bool = match desc.luminances {
                Some((_, max_lum, reference_lum)) => reference_lum > max_lum,
                None => false,
            };
            if exceeds_gamut || exceeds_luminance {
                return CreatorReply::Description(
                    ColorManagementState::make_failed_description(
                        "target color volume exceeds the primary color volume (extended_target_volume is not supported)",
                    ),
                );
            }
        }
        CreatorReply::Description(manager.make_ready_description(desc))
    }
}

/// A description that a client creates carries what the client set, respects the order of its
/// light levels and, without an extended target volume, stays inside its primary color volume.
/// It is never taken for the Windows-scRGB encoding.
pub proof fn law_created_descriptions_are_valid(builder: BuilderModel, manager: ManagerModel)
    requires
        builder.create(manager) is Ready,
    ensures
        ({
            let desc = builder.create(manager)->Ready_0;
            &&& Some(desc.transfer) == builder.transfer
            &&& Some(desc.primaries) == builder.primaries
            &&& !desc.windows_scrgb
            &&& !desc.is_windows_encoding()
            &&& desc.max_cll is Some && desc.max_fall is Some ==> desc.max_fall->0 <= desc.max_cll->0
            &&& !manager.features.contains(Feature::ExtendedTargetVolume) ==> !exceeds_volume(desc)
        }),
{
}

/// What a creator accepts is valid: a named transfer function or primaries that the manager
/// supports, and luminances in ascending order.
pub open spec fn is_valid(builder: BuilderModel, manager: ManagerModel) -> bool {
    &&& builder.transfer matches Some(tf) ==> manager.tfs.contains(tf)
    &&& builder.primaries matches Some(p) ==> manager.primaries.contains(p)
    &&& builder.mastering_luminance matches Some((min, max)) ==> is_brighter(max, min)
    &&& builder.luminances matches Some((min, max, reference)) ==> is_brighter(max, min)
        && is_brighter(reference, min)
}

/// Every request keeps the parameters of a creator valid, and none takes a transfer function,
/// primaries, luminances or mastering primaries back that were set.
pub proof fn law_requests_keep_parameters_valid(
    builder: BuilderModel,
    request: CreatorRequest,
    manager: ManagerModel,
)
    requires
        is_valid(builder, manager),
    ensures
        is_valid(BuilderModel::fresh(), manager),
        builder.decide(request, manager) matches Decision::Accept(after) ==> is_valid(after, manager)
            && (builder.transfer is Some ==> after.transfer == builder.transfer)
            && (builder.primaries is Some ==> after.primaries == builder.primaries)
            && (builder.luminances is Some ==> after.luminances == builder.luminances)
            && (builder.mastering_primaries is Some ==> after.mastering_primaries
            == builder.mastering_primaries),
        builder.decide(request, manager) matches Decision::Ready(desc) ==> manager.tfs.contains(
            desc.transfer,
        ) && manager.primaries.contains(desc.primaries),
{
}

} // verus!
