//! The color manager: what it advertises, and how it answers requests.

use std::collections::{HashMap, HashSet};

use vstd::prelude::*;

use crate::wayland::color::chromaticities::Chromaticities;
use crate::wayland::color::description::{
    Feature, ImageDescription, Primaries, RenderIntent, TransferFunction,
};

verus! {

broadcast use vstd::std_specs::hash::group_hash_axioms;

/// Double-buffered per-surface color management state.
#[derive(Debug, Clone, Copy)]
pub struct ColorManagementSurfaceCachedState {
    /// The image description attached to the surface, if any.
    pub description: Option<ImageDescription>,
    /// The rendering intent the client prefers for mapping the surface to outputs.
    pub render_intent: RenderIntent,
}

impl Default for ColorManagementSurfaceCachedState {
    fn default() -> (state: Self)
        ensures
            state.is_default(),
    {
        ColorManagementSurfaceCachedState { description: None, render_intent: RenderIntent::Perceptual }
    }
}

impl ColorManagementSurfaceCachedState {
    /// No description, and the perceptual intent.
    pub open spec fn is_default(self) -> bool {
        self.description is None && self.render_intent == RenderIntent::Perceptual
    }

    fn same(&self, other: &Self) -> (same: bool)
        ensures
            same == (*self == *other),
    {
        self.render_intent == other.render_intent && match (self.description, other.description) {
            (Some(a), Some(b)) => a == b,
            (None, None) => true,
            _ => false,
        }
    }

    /// The state that a commit captures. The pending state stays as it is.
    pub fn commit(&mut self) -> (captured: Self)
        ensures
            captured == *old(self),
            *final(self) == *old(self),
    {
        *self
    }

    /// Merges a captured state into a later one: the captured state replaces it.
    pub fn merge_into(self, into: &mut Self)
        ensures
            *final(into) == self,
    {
        *into = self;
    }

    /// Stores a new pending image description. Returns whether the pending value actually
    /// changed: clients attach the same description again for every frame.
    pub fn set_pending(&mut self, description: Option<ImageDescription>, render_intent: RenderIntent) -> (changed: bool)
        ensures
            *final(self) == (ColorManagementSurfaceCachedState { description, render_intent }),
            changed == (*final(self) != *old(self)),
    {
        let new = ColorManagementSurfaceCachedState { description, render_intent };
        if self.same(&new) {
            false
        } else {
            *self = new;
            true
        }
    }
}

/// The committed image description and rendering intent of a surface.
pub fn get_surface_description(current: &ColorManagementSurfaceCachedState) -> (r: (
    Option<ImageDescription>,
    RenderIntent,
))
    ensures
        r == (current.description, current.render_intent),
{
    (current.description, current.render_intent)
}

/// The color management bookkeeping of a surface.
pub struct ColorManagementSurfaceData {
    /// Whether the surface has its (one) color management object.
    pub attached: bool,
    /// The feedback objects of the surface.
    pub feedbacks: Vec<u64>,
    /// The identity of the preferred description the feedback objects were told last.
    pub last_preferred: Option<u32>,
}

/// What a [`ColorManagementSurfaceData`] means.
#[verifier::ext_equal]
pub struct SurfaceDataModel {
    pub attached: bool,
    pub feedbacks: Seq<u64>,
    pub last_preferred: Option<u32>,
}

impl SurfaceDataModel {
    /// A surface that nothing is known of.
    pub open spec fn fresh() -> SurfaceDataModel {
        SurfaceDataModel { attached: false, feedbacks: Seq::empty(), last_preferred: None }
    }
}

impl ColorManagementSurfaceData {
    pub open spec fn view(&self) -> SurfaceDataModel {
        SurfaceDataModel {
            attached: self.attached,
            feedbacks: self.feedbacks@,
            last_preferred: self.last_preferred,
        }
    }

    /// A surface that nothing is known of.
    pub fn new() -> (data: Self)
        ensures
            data@ == SurfaceDataModel::fresh(),
    {
        ColorManagementSurfaceData { attached: false, feedbacks: Vec::new(), last_preferred: None }
    }

    /// Gives the surface a color management object. A surface has at most one.
    pub fn attach(&mut self) -> (r: Result<(), ManagerError>)
        ensures
            final(self)@ == (SurfaceDataModel { attached: true, ..old(self)@ }),
            r is Ok <==> !old(self)@.attached,
            r is Err ==> r == Err::<(), ManagerError>(ManagerError::SurfaceExists),
    {
        let already: bool = self.attached;
        self.attached = true;
        if already {
            Err(ManagerError::SurfaceExists)
        } else {
            Ok(())
        }
    }

    /// Takes note of a new feedback object.
    pub fn add_feedback(&mut self, feedback: u64)
        ensures
            final(self)@ == (SurfaceDataModel {
                feedbacks: old(self)@.feedbacks.push(feedback),
                ..old(self)@
            }),
    {
        self.feedbacks.push(feedback);
    }

    /// Forgets a feedback object that was destroyed.
    pub fn remove_feedback(&mut self, feedback: u64)
        ensures
            final(self)@ == (SurfaceDataModel {
                feedbacks: old(self)@.feedbacks.filter(|f: u64| f != feedback),
                ..old(self)@
            }),
    {
        let ghost before = self@;
        let ghost keeps = |f: u64| f != feedback;
        let mut kept: Vec<u64> = Vec::new();
        let mut i: usize = 0;
        proof {
            reveal(Seq::filter);
            assert(before.feedbacks.take(0) =~= Seq::<u64>::empty());
        }
        while i < self.feedbacks.len()
            invariant
                self@ == before,
                i <= self.feedbacks@.len(),
                keeps == (|f: u64| f != feedback),
                kept@ == before.feedbacks.take(i as int).filter(keeps),
            decreases self.feedbacks@.len() - i,
        {
            proof {
                reveal(Seq::filter);
                assert(before.feedbacks.take(i + 1).drop_last() =~= before.feedbacks.take(i as int));
            }
            if self.feedbacks[i] != feedback {
                kept.push(self.feedbacks[i]);
            }
            i = i + 1;
        }
        assert(before.feedbacks.take(i as int) =~= before.feedbacks);
        self.feedbacks = kept;
    }
}

/// Errors of the color manager.
#[derive(Debug, Clone, Copy, PartialEq, Eq, Structural)]
pub enum ManagerError {
    UnsupportedFeature,
    SurfaceExists,
}

/// Errors of a surface's color management object.
#[derive(Debug, Clone, Copy, PartialEq, Eq, Structural)]
pub enum SurfaceError {
    RenderIntent,
    ImageDescription,
    Inert,
}

/// Errors of a surface's feedback object.
#[derive(Debug, Clone, Copy, PartialEq, Eq, Structural)]
pub enum FeedbackError {
    Inert,
}

/// Errors of a creator of parametric image descriptions.
#[derive(Debug, Clone, Copy, PartialEq, Eq, Structural)]
pub enum CreatorError {
    IncompleteSet,
    AlreadySet,
    UnsupportedFeature,
    InvalidTf,
    InvalidPrimariesNamed,
    InvalidLuminance,
}

/// Errors of an image description object.
#[derive(Debug, Clone, Copy, PartialEq, Eq, Structural)]
pub enum DescriptionError {
    NotReady,
    NoInformation,
}

/// Something the manager tells a client that binds it.
#[derive(Debug, Clone, Copy, PartialEq, Eq, Structural)]
pub enum Advertisement {
    Intent(RenderIntent),
    Feature(Feature),
    TransferFunction(TransferFunction),
    Primaries(Primaries),
    Done,
}

/// An object that watches the image description of an output.
#[derive(Debug, Clone, Copy, PartialEq, Eq, Structural)]
pub struct OutputObject {
    /// The object itself.
    pub object: u64,
    /// The output resource it was created for.
    pub resource: u64,
}

/// State of the color manager.
pub struct ColorManagementState {
    supported_tfs: Vec<TransferFunction>,
    supported_primaries: Vec<Primaries>,
    supported_features: Vec<Feature>,
    supported_intents: Vec<RenderIntent>,
    /// Known distinct image descriptions; a description's identity is its index + 1.
    identities: Vec<ImageDescription>,
    output_objects: Vec<OutputObject>,
}

/// What a [`ColorManagementState`] means.
#[verifier::ext_equal]
pub struct ManagerModel {
    pub tfs: Seq<TransferFunction>,
    pub primaries: Seq<Primaries>,
    pub features: Seq<Feature>,
    pub intents: Seq<RenderIntent>,
    pub identities: Seq<ImageDescription>,
    pub outputs: Seq<OutputObject>,
}

/// The features that are advertised if these are asked for: parametric descriptions always are,
/// and an extended target volume only comes with mastering display primaries.
pub open spec fn completed_features(features: Seq<Feature>) -> Seq<Feature> {
    let parametric = if features.contains(Feature::Parametric) {
        features
    } else {
        features.push(Feature::Parametric)
    };
    if parametric.contains(Feature::ExtendedTargetVolume) && !parametric.contains(
        Feature::SetMasteringDisplayPrimaries,
    ) {
        parametric.push(Feature::SetMasteringDisplayPrimaries)
    } else {
        parametric
    }
}

/// The intents that are advertised if these are asked for: the perceptual one always is.
pub open spec fn completed_intents(intents: Seq<RenderIntent>) -> Seq<RenderIntent> {
    if intents.contains(RenderIntent::Perceptual) {
        intents
    } else {
        intents.push(RenderIntent::Perceptual)
    }
}

impl ManagerModel {
    /// The identity of a description that is known.
    pub open spec fn identity(self, desc: ImageDescription) -> int {
        self.identities.index_of(desc) + 1
    }

    /// The manager after a description was given an identity.
    pub open spec fn identified(self, desc: ImageDescription) -> ManagerModel {
        ManagerModel {
            identities: if self.identities.contains(desc) {
                self.identities
            } else {
                self.identities.push(desc)
            },
            ..self
        }
    }

    /// No description is listed twice.
    pub open spec fn well_formed(self) -> bool {
        self.identities.no_duplicates()
    }

    /// Whether one more description can be given an identity.
    pub open spec fn has_room(self) -> bool {
        self.identities.len() < u32::MAX
    }

    /// Whether the identity of a description can be represented.
    pub open spec fn can_identify(self, desc: ImageDescription) -> bool {
        self.identified(desc).identity(desc) <= u32::MAX
    }

    /// What a client is told that binds the manager.
    pub open spec fn advertised(self) -> Seq<Advertisement> {
        self.intents.map_values(|i: RenderIntent| Advertisement::Intent(i))
            + self.features.map_values(|f: Feature| Advertisement::Feature(f))
            + self.tfs.map_values(|t: TransferFunction| Advertisement::TransferFunction(t))
            + self.primaries.map_values(|p: Primaries| Advertisement::Primaries(p))
            + seq![Advertisement::Done]
    }
}

fn has_feature(list: &Vec<Feature>, feature: Feature) -> (has: bool)
    ensures
        has == list@.contains(feature),
{
    let mut i: usize = 0;
    while i < list.len()
        invariant
            i <= list@.len(),
            forall|k: int| 0 <= k < i ==> list@[k] != feature,
        decreases list@.len() - i,
    {
        if list[i] == feature {
            return true;
        }
        i = i + 1;
    }
    false
}

fn has_intent(list: &Vec<RenderIntent>, intent: RenderIntent) -> (has: bool)
    ensures
        has == list@.contains(intent),
{
    let mut i: usize = 0;
    while i < list.len()
        invariant
            i <= list@.len(),
            forall|k: int| 0 <= k < i ==> list@[k] != intent,
        decreases list@.len() - i,
    {
        if list[i] == intent {
            return true;
        }
        i = i + 1;
    }
    false
}

fn has_tf(list: &Vec<TransferFunction>, tf: TransferFunction) -> (has: bool)
    ensures
        has == list@.contains(tf),
{
    let mut i: usize = 0;
    while i < list.len()
        invariant
            i <= list@.len(),
            forall|k: int| 0 <= k < i ==> list@[k] != tf,
        decreases list@.len() - i,
    {
        if list[i] == tf {
            return true;
        }
        i = i + 1;
    }
    false
}

fn has_primaries(list: &Vec<Primaries>, primaries: Primaries) -> (has: bool)
    ensures
        has == list@.contains(primaries),
{
    let mut i: usize = 0;
    while i < list.len()
        invariant
            i <= list@.len(),
            forall|k: int| 0 <= k < i ==> list@[k] != primaries,
        decreases list@.len() - i,
    {
        if list[i] == primaries {
            return true;
        }
        i = i + 1;
    }
    false
}

impl ColorManagementState {
    pub closed spec fn view(&self) -> ManagerModel {
        ManagerModel {
            tfs: self.supported_tfs@,
            primaries: self.supported_primaries@,
            features: self.supported_features@,
            intents: self.supported_intents@,
            identities: self.identities@,
            outputs: self.output_objects@,
        }
    }

    /// Creates a new color manager.
    ///
    /// The supported transfer functions, primaries, features and rendering intents are
    /// advertised to clients and validated in requests. Parametric descriptions and the
    /// perceptual intent are always advertised. If an extended target volume is asked for,
    /// mastering display primaries are advertised as well, since the protocol only allows the
    /// former alongside the latter.
    pub fn new(
        supported_tfs: Vec<TransferFunction>,
        supported_primaries: Vec<Primaries>,
        supported_features: Vec<Feature>,
        supported_intents: Vec<RenderIntent>,
    ) -> (state: Self)
        ensures
            state@ == (ManagerModel {
                tfs: supported_tfs@,
                primaries: supported_primaries@,
                features: completed_features(supported_features@),
                intents: completed_intents(supported_intents@),
                identities: Seq::empty(),
                outputs: Seq::empty(),
            }),
            state@.well_formed(),
    {
        let mut features = supported_features;
        if !has_feature(&features, Feature::Parametric) {
            features.push(Feature::Parametric);
        }
        if has_feature(&features, Feature::ExtendedTargetVolume) && !has_feature(
            &features,
            Feature::SetMasteringDisplayPrimaries,
        ) {
            features.push(Feature::SetMasteringDisplayPrimaries);
        }
        let mut intents = supported_intents;
        if !has_intent(&intents, RenderIntent::Perceptual) {
            intents.push(RenderIntent::Perceptual);
        }
        ColorManagementState {
            supported_tfs,
            supported_primaries,
            supported_features: features,
            supported_intents: intents,
            identities: Vec::new(),
            output_objects: Vec::new(),
        }
    }

    /// Whether a feature is supported.
    pub fn supports(&self, feature: Feature) -> (supported: bool)
        ensures
            supported == self@.features.contains(feature),
    {
        has_feature(&self.supported_features, feature)
    }

    /// Whether a transfer function is supported.
    pub fn supports_tf(&self, tf: TransferFunction) -> (supported: bool)
        ensures
            supported == self@.tfs.contains(tf),
    {
        has_tf(&self.supported_tfs, tf)
    }

    /// Whether primaries are supported.
    pub fn supports_primaries(&self, primaries: Primaries) -> (supported: bool)
        ensures
            supported == self@.primaries.contains(primaries),
    {
        has_primaries(&self.supported_primaries, primaries)
    }

    /// What a client is told that binds the manager, in order.
    pub fn bind(&self) -> (events: Vec<Advertisement>)
        ensures
            events@ == self@.advertised(),
    {
        let ghost intents = self@.intents.map_values(|i: RenderIntent| Advertisement::Intent(i));
        let ghost features = self@.features.map_values(|f: Feature| Advertisement::Feature(f));
        let ghost tfs = self@.tfs.map_values(
            |t: TransferFunction| Advertisement::TransferFunction(t),
        );
        let ghost primaries = self@.primaries.map_values(|p: Primaries| Advertisement::Primaries(p));
        let mut events: Vec<Advertisement> = Vec::new();
        let mut i: usize = 0;
        assert(events@ =~= intents.take(0));
        while i < self.supported_intents.len()
            invariant
                i <= self.supported_intents@.len(),
                intents == self@.intents.map_values(|i: RenderIntent| Advertisement::Intent(i)),
                events@ == intents.take(i as int),
            decreases self.supported_intents@.len() - i,
        {
            events.push(Advertisement::Intent(self.supported_intents[i]));
            assert(events@ =~= intents.take(i + 1));
            i = i + 1;
        }
        let mut i: usize = 0;
        assert(events@ =~= intents + features.take(0));
        while i < self.supported_features.len()
            invariant
                i <= self.supported_features@.len(),
                features == self@.features.map_values(|f: Feature| Advertisement::Feature(f)),
                events@ == intents + features.take(i as int),
            decreases self.supported_features@.len() - i,
        {
            events.push(Advertisement::Feature(self.supported_features[i]));
            assert(events@ =~= intents + features.take(i + 1));
            i = i + 1;
        }
        let mut i: usize = 0;
        assert(events@ =~= intents + features + tfs.take(0));
        while i < self.supported_tfs.len()
            invariant
                i <= self.supported_tfs@.len(),
                tfs == self@.tfs.map_values(
                    |t: TransferFunction| Advertisement::TransferFunction(t),
                ),
                events@ == intents + features + tfs.take(i as int),
            decreases self.supported_tfs@.len() - i,
        {
            events.push(Advertisement::TransferFunction(self.supported_tfs[i]));
            assert(events@ =~= intents + features + tfs.take(i + 1));
            i = i + 1;
        }
        let mut i: usize = 0;
        assert(events@ =~= intents + features + tfs + primaries.take(0));
        while i < self.supported_primaries.len()
            invariant
                i <= self.supported_primaries@.len(),
                primaries == self@.primaries.map_values(
                    |p: Primaries| Advertisement::Primaries(p),
                ),
                events@ == intents + features + tfs + primaries.take(i as int),
            decreases self.supported_primaries@.len() - i,
        {
            events.push(Advertisement::Primaries(self.supported_primaries[i]));
            assert(events@ =~= intents + features + tfs + primaries.take(i + 1));
            i = i + 1;
        }
        events.push(Advertisement::Done);
        assert(events@ =~= self@.advertised());
        events
    }

    /// Whether no identity is left for another description.
    pub fn is_full(&self) -> (full: bool)
        ensures
            full == !self@.has_room(),
            !full ==> forall|desc: ImageDescription| #[trigger] self@.can_identify(desc),
    {
        proof {
            if self@.has_room() {
                assert forall|desc: ImageDescription| #[trigger] self@.can_identify(desc) by {
                    let after = self@.identified(desc).identities;
                    if !self@.identities.contains(desc) {
                        assert(after[self@.identities.len() as int] == desc);
                    }
                    assert(after.contains(desc));
                }
            }
        }
        self.identities.len() as u64 >= u32::MAX as u64
    }

    /// Returns the stable identity for a description, assigning a new one if it is not known
    /// yet.
    pub fn identity_for(&mut self, desc: ImageDescription) -> (identity: u32)
        requires
            old(self)@.well_formed(),
            old(self)@.can_identify(desc),
        ensures
            final(self)@ == old(self)@.identified(desc),
            final(self)@.well_formed(),
            identity == final(self)@.identity(desc),
            1 <= identity <= final(self)@.identities.len(),
    {
        let ghost before = self@;
        let mut i: usize = 0;
        while i < self.identities.len()
            invariant
                self@ == before,
                before == old(self)@,
                before.well_formed(),
                before.can_identify(desc),
                i <= self.identities@.len(),
                forall|k: int| 0 <= k < i ==> before.identities[k] != desc,
            decreases self.identities@.len() - i,
        {
            if self.identities[i] == desc {
                proof {
                    assert(before.identities.contains(desc));
                    let k = before.identities.index_of(desc);
                    assert(before.identities[k] == desc);
                    assert(k == i);
                    assert(i + 1 <= u32::MAX);
                }
                return i as u32 + 1;
            }
            i = i + 1;
        }
        self.identities.push(desc);
        proof {
            let k = self@.identities.index_of(desc);
            assert(self@.identities[i as int] == desc);
            assert(self@.identities.contains(desc));
            assert(self@.identities[k] == desc);
            assert(k == i);
            assert(self@ =~= before.identified(desc));
        }
        i as u32 + 1
    }
}

impl SurfaceDataModel {
    /// The feedback objects that have to be told of the preferred description with this
    /// identity, if they were not told of it last.
    pub open spec fn told_of(self, identity: u32, alive: Set<u64>) -> Option<Seq<u64>> {
        if self.last_preferred == Some(identity) {
            None
        } else {
            Some(living(self.feedbacks, alive))
        }
    }

    /// The bookkeeping after the feedback objects were told, if they had to be.
    pub open spec fn informed(self, identity: u32, alive: Set<u64>) -> SurfaceDataModel {
        if self.last_preferred == Some(identity) {
            self
        } else {
            SurfaceDataModel {
                attached: self.attached,
                feedbacks: living(self.feedbacks, alive),
                last_preferred: Some(identity),
            }
        }
    }
}

/// Whether an object is among those that are alive.
pub open spec fn living(objects: Seq<u64>, alive: Set<u64>) -> Seq<u64> {
    objects.filter(|o: u64| alive.contains(o))
}

/// The watching objects that are alive.
pub open spec fn living_outputs(objects: Seq<OutputObject>, alive: Set<u64>) -> Seq<OutputObject> {
    objects.filter(|o: OutputObject| alive.contains(o.object))
}

/// The objects among these that watch the given output.
pub open spec fn watching(
    objects: Seq<OutputObject>,
    resources: Map<u64, u64>,
    output: u64,
) -> Seq<u64> {
    objects.filter(|o: OutputObject| o.watches(resources, output)).map_values(
        |o: OutputObject| o.object,
    )
}

impl OutputObject {
    /// Whether the object watches the given output.
    pub open spec fn watches(self, resources: Map<u64, u64>, output: u64) -> bool {
        resources.contains_key(self.resource) && resources[self.resource] == output
    }
}

impl ColorManagementState {
    /// Tells the feedback objects of a surface that its preferred image description changed.
    ///
    /// Returns the identity of the description and the objects to be told, in order, or `None`
    /// if there is nothing to tell: notifying the same description again is a no-op, and so is
    /// notifying a surface without color management data.
    ///
    /// `alive` holds the objects that are still alive.
    pub fn preferred_changed(
        &mut self,
        data: &mut Option<ColorManagementSurfaceData>,
        desc: ImageDescription,
        alive: &HashSet<u64>,
    ) -> (told: Option<(u32, Vec<u64>)>)
        requires
            old(self)@.well_formed(),
            old(self)@.can_identify(desc),
        ensures
            final(self)@ == old(self)@.identified(desc),
            final(self)@.well_formed(),
            match *old(data) {
                None => told is None && *final(data) == *old(data),
                Some(before) => {
                    let identity = final(self)@.identity(desc) as u32;
                    &&& *final(data) matches Some(after) && after@ == before@.informed(
                        identity,
                        alive@,
                    )
                    &&& match before@.told_of(identity, alive@) {
                        Some(feedbacks) => told matches Some((id, objects)) && id == identity
                            && objects@ == feedbacks,
                        None => told is None,
                    }
                },
            },
    {
        let identity: u32 = self.identity_for(desc);
        match data.take() {
            None => None,
            Some(mut entry) => {
                let known: bool = match entry.last_preferred {
                    Some(last) => last == identity,
                    None => false,
                };
                if known {
                    *data = Some(entry);
                    return None;
                }
                entry.last_preferred = Some(identity);
                let told = keep_living(&entry.feedbacks, alive);
                entry.feedbacks = keep_living(&entry.feedbacks, alive);
                *data = Some(entry);
                Some((identity, told))
            },
        }
    }

    /// Tells which objects have to be notified that the image description of an output changed,
    /// in order. Objects that are gone are forgotten.
    ///
    /// `resources` maps the output resources to their outputs.
    pub fn output_description_changed(
        &mut self,
        output: u64,
        resources: &HashMap<u64, u64>,
        alive: &HashSet<u64>,
    ) -> (told: Vec<u64>)
        ensures
            final(self)@ == (ManagerModel {
                outputs: living_outputs(old(self)@.outputs, alive@),
                ..old(self)@
            }),
            told@ == watching(living_outputs(old(self)@.outputs, alive@), resources@, output),
    {
        let ghost before = self@;
        let ghost lives = |o: OutputObject| alive@.contains(o.object);
        let ghost watches = |o: OutputObject| o.watches(resources@, output);
        let ghost pick = |o: OutputObject| o.object;
        let mut kept: Vec<OutputObject> = Vec::new();
        let mut told: Vec<u64> = Vec::new();
        let mut i: usize = 0;
        proof {
            reveal(Seq::filter);
            assert(before.outputs.take(0) =~= Seq::<OutputObject>::empty());
            assert(told@ =~= kept@.filter(watches).map_values(pick));
        }
        while i < self.output_objects.len()
            invariant
                self@ == before,
                i <= self.output_objects@.len(),
                lives == (|o: OutputObject| alive@.contains(o.object)),
                watches == (|o: OutputObject| o.watches(resources@, output)),
                pick == (|o: OutputObject| o.object),
                kept@ == before.outputs.take(i as int).filter(lives),
                told@ == kept@.filter(watches).map_values(pick),
            decreases self.output_objects@.len() - i,
        {
            let object = self.output_objects[i];
            proof {
                reveal(Seq::filter);
                assert(before.outputs.take(i + 1).drop_last() =~= before.outputs.take(i as int));
            }
            if alive.contains(&object.object) {
                let ghost kept_before = kept@;
                kept.push(object);
                proof {
                    assert(kept@.drop_last() =~= kept_before);
                }
                let same: bool = match resources.get(&object.resource) {
                    Some(o) => *o == output,
                    None => false,
                };
                if same {
                    told.push(object.object);
                    assert(kept@.filter(watches) == kept_before.filter(watches).push(object));
                    assert(told@ =~= kept@.filter(watches).map_values(pick));
                }
            }
            i = i + 1;
        }
        assert(before.outputs.take(i as int) =~= before.outputs);
        self.output_objects = kept;
        told
    }
}

fn keep_living(objects: &Vec<u64>, alive: &HashSet<u64>) -> (kept: Vec<u64>)
    ensures
        kept@ == living(objects@, alive@),
{
    let ghost lives = |o: u64| alive@.contains(o);
    let mut kept: Vec<u64> = Vec::new();
    let mut i: usize = 0;
    proof {
        reveal(Seq::filter);
        assert(objects@.take(0) =~= Seq::<u64>::empty());
    }
    while i < objects.len()
        invariant
            i <= objects@.len(),
            lives == (|o: u64| alive@.contains(o)),
            kept@ == objects@.take(i as int).filter(lives),
        decreases objects@.len() - i,
    {
        proof {
            reveal(Seq::filter);
            assert(objects@.take(i + 1).drop_last() =~= objects@.take(i as int));
        }
        if alive.contains(&objects[i]) {
            kept.push(objects[i]);
        }
        i = i + 1;
    }
    assert(objects@.take(i as int) =~= objects@);
    kept
}

/// User data of an image description object: the parsed description it represents.
#[derive(Debug, Clone, Copy)]
pub struct ImageDescriptionData {
    /// `None` for objects that failed instead of becoming ready; those can only be destroyed.
    desc: Option<ImageDescription>,
}

impl ImageDescriptionData {
    /// The description, if the object is ready.
    pub closed spec fn view(&self) -> Option<ImageDescription> {
        self.desc
    }

    /// The description this object represents, or `None` if creating it failed.
    pub fn description(&self) -> (desc: Option<ImageDescription>)
        ensures
            desc == self@,
    {
        self.desc
    }
}

/// What becomes of a new image description object.
#[derive(Debug, Clone, Copy)]
pub enum NewDescription {
    /// It is ready, with this identity.
    Ready(u32, ImageDescriptionData),
    /// It failed, because something is unsupported, for this reason. It can only be destroyed.
    Failed(&'static str, ImageDescriptionData),
}

impl NewDescription {
    /// Whether the object became ready and represents `desc`, which the manager knows by the
    /// object's identity.
    pub open spec fn is_ready(self, desc: ImageDescription, manager: ManagerModel) -> bool {
        self matches NewDescription::Ready(identity, data) && data@ == Some(desc) && identity
            == manager.identity(desc) && manager.identities.contains(desc) && identity != 0
    }

    /// Whether the object failed for this reason.
    pub open spec fn has_failed(self, reason: Seq<char>) -> bool {
        self matches NewDescription::Failed(msg, data) && msg@ == reason && data@ is None
    }
}

impl ColorManagementState {
    /// Makes an image description object that is ready.
    pub(crate) fn make_ready_description(&mut self, desc: ImageDescription) -> (new: NewDescription)
        requires
            old(self)@.well_formed(),
            old(self)@.can_identify(desc),
        ensures
            final(self)@ == old(self)@.identified(desc),
            final(self)@.well_formed(),
            new.is_ready(desc, final(self)@),
    {
        let identity: u32 = self.identity_for(desc);
        proof {
            let known = self@.identities;
            if !old(self)@.identities.contains(desc) {
                assert(known[known.len() - 1] == desc);
            }
        }
        NewDescription::Ready(identity, ImageDescriptionData { desc: Some(desc) })
    }

    /// Makes an image description object that fails gracefully.
    pub(crate) fn make_failed_description(msg: &'static str) -> (new: NewDescription)
        ensures
            new.has_failed(msg@),
    {
        NewDescription::Failed(msg, ImageDescriptionData { desc: None })
    }
}

/// Requests to the color manager.
#[derive(Debug, Clone, Copy, PartialEq, Eq, Structural)]
pub enum ManagerRequest {
    /// Watch the image description of an output.
    GetOutput(OutputObject),
    /// Create the color management object of a surface.
    GetSurface,
    /// Create a feedback object for a surface.
    GetSurfaceFeedback(u64),
    /// Create a creator of parametric image descriptions.
    CreateParametricCreator,
    /// Create a creator of image descriptions from ICC files.
    CreateIccCreator,
    /// Create the Windows-scRGB image description.
    CreateWindowsScrgb,
    /// Destroy the manager object.
    Destroy,
}

/// Answers of the color manager.
#[derive(Debug, Clone, Copy)]
pub enum ManagerReply {
    /// The request is done; a new object (if any) takes up its work.
    Done,
    /// An image description object was made.
    Description(NewDescription),
    /// The client made an error.
    Error(ManagerError, &'static str),
}

impl ColorManagementState {
    /// Answers a request to the color manager. `data` is the bookkeeping of the surface that
    /// the request is about, if it is about one.
    pub fn manager_request(
        &mut self,
        request: ManagerRequest,
        data: &mut Option<ColorManagementSurfaceData>,
    ) -> (reply: ManagerReply)
        requires
            old(self)@.well_formed(),
            request is CreateWindowsScrgb && old(self)@.features.contains(Feature::WindowsScrgb)
                ==> forall|desc: ImageDescription| #[trigger]
                desc.is_windows_encoding() ==> old(self)@.can_identify(desc),
        ensures
            final(self)@.well_formed(),
            ({
                let before = match *old(data) {
                    Some(data) => data@,
                    None => SurfaceDataModel::fresh(),
                };
                match request {
                    ManagerRequest::GetOutput(object) => {
                        &&& reply is Done
                        &&& *final(data) == *old(data)
                        &&& final(self)@ == (ManagerModel {
                            outputs: old(self)@.outputs.push(object),
                            ..old(self)@
                        })
                    },
                    ManagerRequest::GetSurface => {
                        &&& final(self)@ == old(self)@
                        &&& *final(data) matches Some(after) && after@ == (SurfaceDataModel {
                            attached: true,
                            ..before
                        })
                        &&& if before.attached {
                            reply matches ManagerReply::Error(e, msg) && e
                                == ManagerError::SurfaceExists && msg@
                                == "surface already has a wp_color_management_surface_v1"@
                        } else {
                            reply is Done
                        }
                    },
                    ManagerRequest::GetSurfaceFeedback(feedback) => {
                        &&& reply is Done
                        &&& final(self)@ == old(self)@
                        &&& *final(data) matches Some(after) && after@ == (SurfaceDataModel {
                            feedbacks: before.feedbacks.push(feedback),
                            ..before
                        })
                    },
                    ManagerRequest::CreateIccCreator => {
                        &&& reply matches ManagerReply::Error(e, msg) && e
                            == ManagerError::UnsupportedFeature && msg@
                            == "ICC image descriptions are not supported"@
                        &&& *final(data) == *old(data)
                        &&& final(self)@ == old(self)@
                    },
                    ManagerRequest::CreateWindowsScrgb => {
                        &&& *final(data) == *old(data)
                        &&& if old(self)@.features.contains(Feature::WindowsScrgb) {
                            reply matches ManagerReply::Description(new) && exists|desc: ImageDescription|
                                #![trigger desc.is_windows_encoding()]
                                desc.is_windows_encoding() && new.is_ready(desc, final(self)@)
                                    && final(self)@ == old(self)@.identified(desc)
                        } else {
                            &&& reply matches ManagerReply::Error(e, msg) && e
                                == ManagerError::UnsupportedFeature && msg@
                                == "Windows scRGB image descriptions are not supported"@
                            &&& final(self)@ == old(self)@
                        }
                    },
                    ManagerRequest::CreateParametricCreator | ManagerRequest::Destroy => {
                        &&& reply is Done
                        &&& *final(data) == *old(data)
                        &&& final(self)@ == old(self)@
                    },
                }
            }),
    {
        match request {
            ManagerRequest::GetOutput(object) => {
                self.output_objects.push(object);
                ManagerReply::Done
            },
            ManagerRequest::GetSurface => {
                let mut entry = match data.take() {
                    Some(entry) => entry,
                    None => ColorManagementSurfaceData::new(),
                };
                let attached = entry.attach();
                *data = Some(entry);
                match attached {
                    Ok(()) => ManagerReply::Done,
                    Err(e) => ManagerReply::Error(
                        e,
                        "surface already has a wp_color_management_surface_v1",
                    ),
                }
            },
            ManagerRequest::GetSurfaceFeedback(feedback) => {
                let mut entry = match data.take() {
                    Some(entry) => entry,
                    None => ColorManagementSurfaceData::new(),
                };
                entry.add_feedback(feedback);
                *data = Some(entry);
                ManagerReply::Done
            },
            ManagerRequest::CreateParametricCreator => ManagerReply::Done,
            ManagerRequest::CreateIccCreator => ManagerReply::Error(
                ManagerError::UnsupportedFeature,
                "ICC image descriptions are not supported",
            ),
            ManagerRequest::CreateWindowsScrgb => {
                if !has_feature(&self.supported_features, Feature::WindowsScrgb) {
                    return ManagerReply::Error(
                        ManagerError::UnsupportedFeature,
                        "Windows scRGB image descriptions are not supported",
                    );
                }
                let desc = ImageDescription::windows_scrgb();
                ManagerReply::Description(self.make_ready_description(desc))
            },
            ManagerRequest::Destroy => ManagerReply::Done,
        }
    }

    /// Answers a request for the image description of an output. `known` is the description of
    /// the output, if it still exists; otherwise sRGB is described.
    pub fn output_request(&mut self, known: Option<ImageDescription>) -> (new: NewDescription)
        requires
            old(self)@.well_formed(),
            match known {
                Some(known) => old(self)@.can_identify(known),
                None => forall|desc: ImageDescription| #[trigger]
                    desc.is_plain_srgb() ==> old(self)@.can_identify(desc),
            },
        ensures
            final(self)@.well_formed(),
            exists|desc: ImageDescription|
                #![trigger new.is_ready(desc, final(self)@)]
                new.is_ready(desc, final(self)@) && final(self)@ == old(self)@.identified(desc)
                    && match known {
                    Some(known) => desc == known,
                    None => desc.is_plain_srgb(),
                },
    {
        let desc = match known {
            Some(desc) => desc,
            None => ImageDescription::srgb(),
        };
        self.make_ready_description(desc)
    }

    /// Answers a request for the preferred image description of a surface. `preferred` is that
    /// description, or `None` if the surface was destroyed.
    pub fn feedback_request(&mut self, preferred: Option<ImageDescription>) -> (r: Result<
        NewDescription,
        (FeedbackError, &'static str),
    >)
        requires
            old(self)@.well_formed(),
            preferred matches Some(desc) ==> old(self)@.can_identify(desc),
        ensures
            final(self)@.well_formed(),
            match preferred {
                Some(desc) => r matches Ok(new) && new.is_ready(desc, final(self)@) && final(self)@
                    == old(self)@.identified(desc),
                None => r matches Err((e, msg)) && e == FeedbackError::Inert && msg@
                    == "the underlying wl_surface was destroyed"@ && final(self)@ == old(self)@,
            },
    {
        match preferred {
            Some(desc) => Ok(self.make_ready_description(desc)),
            None => Err((FeedbackError::Inert, "the underlying wl_surface was destroyed")),
        }
    }
}

/// Requests to the color management object of a surface.
#[derive(Debug, Clone, Copy)]
pub enum SurfaceRequest {
    /// Attach an image description, with the wire value of a rendering intent.
    SetImageDescription(ImageDescriptionData, u32),
    /// Detach the image description.
    UnsetImageDescription,
    /// Destroy the object.
    Destroy,
}

/// Answers of the color management object of a surface.
#[derive(Debug, Clone, Copy, PartialEq, Eq)]
pub enum SurfaceReply {
    /// The pending description changed.
    Changed,
    /// Nothing changed.
    Unchanged,
    /// The client made an error.
    Error(SurfaceError, &'static str),
}

impl SurfaceReply {
    /// Whether this is an error with the given code and message.
    pub open spec fn is_error(self, error: SurfaceError, message: Seq<char>) -> bool {
        self matches SurfaceReply::Error(e, msg) && e == error && msg@ == message
    }
}

/// Whether the wire value names a rendering intent that is supported.
pub open spec fn supports_intent(manager: ManagerModel, wire: u32) -> bool {
    exists|intent: RenderIntent|
        #![trigger manager.intents.contains(intent)]
        manager.intents.contains(intent) && intent.wire() == wire
}

impl ColorManagementState {
    /// Answers a request to the color management object of a surface. `alive` tells whether the
    /// surface still exists, `pending` is its pending state.
    pub fn surface_request(
        &self,
        request: SurfaceRequest,
        alive: bool,
        pending: &mut ColorManagementSurfaceCachedState,
    ) -> (reply: SurfaceReply)
        ensures
            match request {
                SurfaceRequest::SetImageDescription(data, wire) => {
                    if !alive {
                        &&& reply.is_error(
                            SurfaceError::Inert,
                            "the underlying wl_surface was destroyed"@,
                        )
                        &&& *final(pending) == *old(pending)
                    } else if !supports_intent(self@, wire) {
                        &&& reply.is_error(
                            SurfaceError::RenderIntent,
                            "unsupported rendering intent"@,
                        )
                        &&& *final(pending) == *old(pending)
                    } else if data@ is None {
                        &&& reply.is_error(
                            SurfaceError::ImageDescription,
                            "image description is not ready"@,
                        )
                        &&& *final(pending) == *old(pending)
                    } else {
                        &&& final(pending).description == data@
                        &&& final(pending).render_intent.wire() == wire
                        &&& reply == if *final(pending) == *old(pending) {
                            SurfaceReply::Unchanged
                        } else {
                            SurfaceReply::Changed
                        }
                    }
                },
                SurfaceRequest::UnsetImageDescription => {
                    if !alive {
                        &&& reply.is_error(
                            SurfaceError::Inert,
                            "the underlying wl_surface was destroyed"@,
                        )
                        &&& *final(pending) == *old(pending)
                    } else {
                        &&& final(pending).is_default()
                        &&& reply == if *final(pending) == *old(pending) {
                            SurfaceReply::Unchanged
                        } else {
                            SurfaceReply::Changed
                        }
                    }
                },
                SurfaceRequest::Destroy => reply is Unchanged && *final(pending) == *old(pending),
            },
    {
        match request {
            SurfaceRequest::SetImageDescription(data, wire) => {
                if !alive {
                    return SurfaceReply::Error(
                        SurfaceError::Inert,
                        "the underlying wl_surface was destroyed",
                    );
                }
                let intent = match RenderIntent::from_wire(wire) {
                    Some(intent) => intent,
                    None => {
                        return SurfaceReply::Error(
                            SurfaceError::RenderIntent,
                            "unsupported rendering intent",
                        );
                    },
                };
                if !has_intent(&self.supported_intents, intent) {
                    return SurfaceReply::Error(
                        SurfaceError::RenderIntent,
                        "unsupported rendering intent",
                    );
                }
                assert(self@.intents.contains(intent));
                match data.desc {
                    None => SurfaceReply::Error(
                        SurfaceError::ImageDescription,
                        "image description is not ready",
                    ),
                    Some(desc) => {
                        if pending.set_pending(Some(desc), intent) {
                            SurfaceReply::Changed
                        } else {
                            SurfaceReply::Unchanged
                        }
                    },
                }
            },
            SurfaceRequest::UnsetImageDescription => {
                if !alive {
                    return SurfaceReply::Error(
                        SurfaceError::Inert,
                        "the underlying wl_surface was destroyed",
                    );
                }
                if pending.set_pending(None, RenderIntent::Perceptual) {
                    SurfaceReply::Changed
                } else {
                    SurfaceReply::Unchanged
                }
            },
            SurfaceRequest::Destroy => SurfaceReply::Unchanged,
        }
    }
}

/// Takes note that the color management object of a living surface was destroyed. Like
/// unsetting the description, this resets the pending state; the surface can then be given a
/// new color management object. Returns whether a description was detached.
pub fn surface_destroyed(
    data: &mut Option<ColorManagementSurfaceData>,
    pending: &mut ColorManagementSurfaceCachedState,
) -> (changed: bool)
    ensures
        changed == old(pending).description is Some,
        final(pending).is_default(),
        match *old(data) {
            None => *final(data) is None,
            Some(before) => *final(data) matches Some(after) && after@ == (SurfaceDataModel {
                attached: false,
                ..before@
            }),
        },
{
    if let Some(mut entry) = data.take() {
        entry.attached = false;
        *data = Some(entry);
    }
    let changed: bool = pending.description.is_some();
    *pending = ColorManagementSurfaceCachedState::default();
    changed
}

impl ImageDescriptionData {
    /// Answers a request for information: the description whose information is to be sent, once
    /// the request has been dealt with.
    pub fn get_information(&self) -> (r: Result<
        ImageDescription,
        (DescriptionError, &'static str),
    >)
        ensures
            match self@ {
                None => r matches Err((e, msg)) && e == DescriptionError::NotReady && msg@
                    == "the image description failed and never became ready"@,
                Some(desc) => if desc.windows_scrgb {
                    r matches Err((e, msg)) && e == DescriptionError::NoInformation && msg@
                        == "this image description does not allow get_information"@
                } else {
                    r == Ok::<_, (DescriptionError, &'static str)>(desc)
                },
            },
    {
        match self.desc {
            None => Err(
                (
                    DescriptionError::NotReady,
                    "the image description failed and never became ready",
                ),
            ),
            Some(desc) => {
                if desc.windows_scrgb {
                    Err(
                        (
                            DescriptionError::NoInformation,
                            "this image description does not allow get_information",
                        ),
                    )
                } else {
                    Ok(desc)
                }
            },
        }
    }
}

/// Something a client is told about an image description.
#[derive(Debug, Clone, Copy, PartialEq, Eq)]
pub enum Information {
    Primaries(Chromaticities),
    PrimariesNamed(Primaries),
    TfNamed(TransferFunction),
    TargetPrimaries(Chromaticities),
    TargetLuminance(u32, u32),
    TargetMaxCll(u32),
    TargetMaxFall(u32),
    Done,
}

/// What a client is told about an image description, in order.
pub open spec fn information(desc: ImageDescription) -> Seq<Information> {
    let container = Chromaticities::named(desc.primaries);
    let target = match desc.mastering_primaries {
        Some(target) => target,
        None => container,
    };
    seq![
        Information::Primaries(container),
        Information::PrimariesNamed(desc.primaries),
        Information::TfNamed(desc.transfer),
        Information::TargetPrimaries(target),
    ] + (match desc.mastering_luminance {
        Some((min, max)) => seq![Information::TargetLuminance(min, max)],
        None => Seq::empty(),
    }) + (match desc.max_cll {
        Some(max_cll) => seq![Information::TargetMaxCll(max_cll)],
        None => Seq::empty(),
    }) + (match desc.max_fall {
        Some(max_fall) => seq![Information::TargetMaxFall(max_fall)],
        None => Seq::empty(),
    }) + seq![Information::Done]
}

/// The information events describing `desc`, terminating with the destructor event. `alive`
/// tells whether the object that sends them still exists; otherwise nothing is sent.
///
/// The target color volume defaults to the primary color volume when no mastering display
/// primaries were given.
pub fn send_image_description_info(alive: bool, desc: &ImageDescription) -> (events: Vec<Information>)
    ensures
        events@ == if alive {
            information(*desc)
        } else {
            Seq::empty()
        },
{
    let mut events: Vec<Information> = Vec::new();
    if !alive {
        return events;
    }
    let container = Chromaticities::from_named(desc.primaries);
    events.push(Information::Primaries(container));
    events.push(Information::PrimariesNamed(desc.primaries));
    events.push(Information::TfNamed(desc.transfer));
    let target = match desc.mastering_primaries {
        Some(target) => target,
        None => container,
    };
    events.push(Information::TargetPrimaries(target));
    if let Some((min, max)) = desc.mastering_luminance {
        events.push(Information::TargetLuminance(min, max));
    }
    if let Some(max_cll) = desc.max_cll {
        events.push(Information::TargetMaxCll(max_cll));
    }
    if let Some(max_fall) = desc.max_fall {
        events.push(Information::TargetMaxFall(max_fall));
    }
    events.push(Information::Done);
    assert(events@ =~= information(*desc));
    events
}

/// Identities are stable: assigning more never changes the identity of a description that is
/// known. They start at 1, since 0 is reserved by the protocol, and two descriptions never
/// share one.
pub proof fn law_identities_are_stable(
    manager: ManagerModel,
    known: ImageDescription,
    desc: ImageDescription,
)
    requires
        manager.well_formed(),
        manager.identities.contains(known),
    ensures
        manager.identified(desc).well_formed(),
        manager.identified(desc).identities.contains(known),
        manager.identified(desc).identities.contains(desc),
        manager.identified(desc).identity(known) == manager.identity(known),
        manager.identified(desc).identity(desc) == manager.identified(desc).identity(known)
            <==> desc == known,
        manager.identity(known) >= 1,
        manager.identified(desc).identified(desc) == manager.identified(desc),
{
    let after = manager.identified(desc);
    let i = manager.identities.index_of(known);
    assert(manager.identities[i] == known);
    assert(after.identities[i] == known);
    if !manager.identities.contains(desc) {
        assert(after.identities[manager.identities.len() as int] == desc);
    }
    let j = after.identities.index_of(desc);
    assert(after.identities[j] == desc);
    let k = after.identities.index_of(known);
    assert(after.identities[k] == known);
    assert(k == i);
}

/// Notifying the same preferred description twice tells the feedback objects once: it keeps its
/// identity, and nobody is told of the identity that was told last.
pub proof fn law_preferred_description_is_told_once(
    manager: ManagerModel,
    desc: ImageDescription,
    data: SurfaceDataModel,
    alive: Set<u64>,
    alive_later: Set<u64>,
)
    requires
        manager.well_formed(),
    ensures
        ({
            let after = manager.identified(desc);
            let identity = after.identity(desc) as u32;
            &&& after.identified(desc) == after
            &&& data.informed(identity, alive).told_of(identity, alive_later) is None
            &&& data.informed(identity, alive).informed(identity, alive_later) == data.informed(
                identity,
                alive,
            )
        }),
{
    let after = manager.identified(desc);
    if !manager.identities.contains(desc) {
        assert(after.identities[manager.identities.len() as int] == desc);
    }
}

/// Parametric descriptions and the perceptual intent are always advertised, an extended target
/// volume never without mastering display primaries, and what was asked for is not left out.
pub proof fn law_required_capabilities_are_advertised(
    features: Seq<Feature>,
    intents: Seq<RenderIntent>,
)
    ensures
        completed_features(features).contains(Feature::Parametric),
        completed_features(features).contains(Feature::ExtendedTargetVolume)
            ==> completed_features(features).contains(Feature::SetMasteringDisplayPrimaries),
        forall|f: Feature| #[trigger]
            features.contains(f) ==> completed_features(features).contains(f),
        completed_intents(intents).contains(RenderIntent::Perceptual),
        forall|i: RenderIntent| #[trigger]
            intents.contains(i) ==> completed_intents(intents).contains(i),
{
    let parametric = if features.contains(Feature::Parametric) {
        features
    } else {
        features.push(Feature::Parametric)
    };
    let complete = completed_features(features);
    let all = completed_intents(intents);
    assert(parametric.contains(Feature::Parametric)) by {
        if !features.contains(Feature::Parametric) {
            assert(parametric[features.len() as int] == Feature::Parametric);
        }
    }
    assert forall|f: Feature| #[trigger] features.contains(f) implies parametric.contains(f) by {
        let i = choose|i: int| 0 <= i < features.len() && features[i] == f;
        assert(parametric[i] == f);
    }
    assert forall|f: Feature| #[trigger] parametric.contains(f) implies complete.contains(f) by {
        let i = choose|i: int| 0 <= i < parametric.len() && parametric[i] == f;
        assert(complete[i] == f);
    }
    if complete.contains(Feature::ExtendedTargetVolume) && !parametric.contains(
        Feature::SetMasteringDisplayPrimaries,
    ) {
        if !parametric.contains(Feature::ExtendedTargetVolume) {
            let i = choose|i: int|
                0 <= i < complete.len() && complete[i] == Feature::ExtendedTargetVolume;
            assert(parametric[i] == Feature::ExtendedTargetVolume);
        }
        assert(complete[parametric.len() as int] == Feature::SetMasteringDisplayPrimaries);
    }
    assert(all.contains(RenderIntent::Perceptual)) by {
        if !intents.contains(RenderIntent::Perceptual) {
            assert(all[intents.len() as int] == RenderIntent::Perceptual);
        }
    }
    assert forall|i: RenderIntent| #[trigger] intents.contains(i) implies all.contains(i) by {
        let k = choose|k: int| 0 <= k < intents.len() && intents[k] == i;
        assert(all[k] == i);
    }
}

} // verus!
