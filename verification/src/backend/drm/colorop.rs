//! Discovery of per-plane color pipelines.
//!
//! The kernel exposes the color hardware of a plane as chains of color operations, each of
//! which is a fixed function: a named 1D curve, a 1D or 3D LUT, a 3x4 matrix or a multiplier.
//! Discovery walks these chains and describes the operations.

use drm::control::property;
use vstd::prelude::*;

use crate::text::same_text;

verus! {

/// Maximum length of a chain of color operations, to guard against cyclic or corrupted chains.
pub const MAX_PIPELINE_OPS: usize = 64;

/// A named transfer function supported by a curve.
///
/// The curves are defined by the kernel. The `PQ 125` variants use the scale where 1.0
/// corresponds to 80 cd/m² and 125.0 to 10,000 cd/m².
#[derive(Debug, Clone, Copy, PartialEq, Eq, Hash, Structural)]
pub enum Curve1DType {
    /// The sRGB EOTF (`sRGB EOTF`), decoding to linear.
    SrgbEotf,
    /// The inverse sRGB EOTF (`sRGB Inverse EOTF`), encoding from linear.
    SrgbInvEotf,
    /// The PQ (ST 2084) EOTF scaled to \[0.0, 125.0\] (`PQ 125 EOTF`), decoding to linear.
    Pq125Eotf,
    /// The inverse of the scaled PQ EOTF (`PQ 125 Inverse EOTF`), encoding from linear.
    Pq125InvEotf,
    /// The inverse BT.2020 OETF (`BT.2020 Inverse OETF`), decoding to linear.
    Bt2020InvOetf,
    /// The BT.2020 OETF (`BT.2020 OETF`), encoding from linear.
    Bt2020Oetf,
    /// A pure 2.2 power-law EOTF (`Gamma 2.2`), decoding to linear.
    Gamma22,
    /// The inverse 2.2 power-law EOTF (`Gamma 2.2 Inverse`), encoding from linear.
    Gamma22Inv,
}

impl Curve1DType {
    /// The kernel's name for this curve.
    pub open spec fn name(self) -> Seq<char> {
        match self {
            Curve1DType::SrgbEotf => "sRGB EOTF"@,
            Curve1DType::SrgbInvEotf => "sRGB Inverse EOTF"@,
            Curve1DType::Pq125Eotf => "PQ 125 EOTF"@,
            Curve1DType::Pq125InvEotf => "PQ 125 Inverse EOTF"@,
            Curve1DType::Bt2020InvOetf => "BT.2020 Inverse OETF"@,
            Curve1DType::Bt2020Oetf => "BT.2020 OETF"@,
            Curve1DType::Gamma22 => "Gamma 2.2"@,
            Curve1DType::Gamma22Inv => "Gamma 2.2 Inverse"@,
        }
    }

    /// The kernel's name for this curve in the `CURVE_1D_TYPE` property enum.
    pub fn kernel_name(&self) -> (name: &'static str)
        ensures
            name@ == self.name(),
    {
        match self {
            Curve1DType::SrgbEotf => "sRGB EOTF",
            Curve1DType::SrgbInvEotf => "sRGB Inverse EOTF",
            Curve1DType::Pq125Eotf => "PQ 125 EOTF",
            Curve1DType::Pq125InvEotf => "PQ 125 Inverse EOTF",
            Curve1DType::Bt2020InvOetf => "BT.2020 Inverse OETF",
            Curve1DType::Bt2020Oetf => "BT.2020 OETF",
            Curve1DType::Gamma22 => "Gamma 2.2",
            Curve1DType::Gamma22Inv => "Gamma 2.2 Inverse",
        }
    }

    /// The curve with this name, if there is one.
    pub open spec fn named(name: Seq<char>) -> Option<Curve1DType> {
        if exists|c: Curve1DType| #[trigger] c.name() == name {
            Some(choose|c: Curve1DType| #[trigger] c.name() == name)
        } else {
            None
        }
    }

    /// The curve the kernel knows by this name, if it is one of the above.
    pub fn from_kernel_name(name: &str) -> (curve: Option<Self>)
        ensures
            curve == Curve1DType::named(name@),
    {
        let curve = if same_text(name, "sRGB EOTF") {
            Curve1DType::SrgbEotf
        } else if same_text(name, "sRGB Inverse EOTF") {
            Curve1DType::SrgbInvEotf
        } else if same_text(name, "PQ 125 EOTF") {
            Curve1DType::Pq125Eotf
        } else if same_text(name, "PQ 125 Inverse EOTF") {
            Curve1DType::Pq125InvEotf
        } else if same_text(name, "BT.2020 Inverse OETF") {
            Curve1DType::Bt2020InvOetf
        } else if same_text(name, "BT.2020 OETF") {
            Curve1DType::Bt2020Oetf
        } else if same_text(name, "Gamma 2.2") {
            Curve1DType::Gamma22
        } else if same_text(name, "Gamma 2.2 Inverse") {
            Curve1DType::Gamma22Inv
        } else {
            return None;
        };
        proof {
            assert(curve.name() == name@);
            let other = choose|c: Curve1DType| #[trigger] c.name() == name@;
            lemma_names_differ(curve, other);
        }
        Some(curve)
    }
}

/// No two curves share a name.
proof fn lemma_names_differ(a: Curve1DType, b: Curve1DType)
    ensures
        a.name() == b.name() ==> a == b,
{
    reveal_strlit("sRGB EOTF");
    reveal_strlit("sRGB Inverse EOTF");
    reveal_strlit("PQ 125 EOTF");
    reveal_strlit("PQ 125 Inverse EOTF");
    reveal_strlit("BT.2020 Inverse OETF");
    reveal_strlit("BT.2020 OETF");
    reveal_strlit("Gamma 2.2");
    reveal_strlit("Gamma 2.2 Inverse");
    if a.name() == b.name() {
        assert(a.name().len() == b.name().len());
        assert(a.name()[0] == b.name()[0]);
    }
}

/// The name of a curve leads back to the curve.
pub proof fn law_names_lead_back(curve: Curve1DType)
    ensures
        Curve1DType::named(curve.name()) == Some(curve),
{
    let other = choose|c: Curve1DType| #[trigger] c.name() == curve.name();
    assert(curve.name() == curve.name());
    lemma_names_differ(curve, other);
}

/// Interpolation used by a 1D LUT.
#[derive(Debug, Clone, Copy, PartialEq, Eq, Hash, Structural)]
pub enum Lut1DInterpolation {
    /// Linear interpolation between LUT entries (`Linear`).
    Linear,
    /// An interpolation mode that is not modelled.
    Unknown,
}

/// Interpolation used by a 3D LUT.
#[derive(Debug, Clone, Copy, PartialEq, Eq, Hash, Structural)]
pub enum Lut3DInterpolation {
    /// Tetrahedral interpolation (`Tetrahedral`).
    Tetrahedral,
    /// An interpolation mode that is not modelled.
    Unknown,
}

/// The operation a single color operation can perform, i.e. the value of its `TYPE` property
/// together with the type-specific capability properties.
#[allow(inconsistent_fields)]
#[derive(Debug, Clone, PartialEq)]
pub enum ColorOpKind {
    /// A named 1D transfer function (`1D Curve`), selected via `CURVE_1D_TYPE`.
    Curve1D {
        /// The curves this operation supports, together with the raw `CURVE_1D_TYPE` enum value
        /// used to select each of them.
        ///
        /// Unknown curves are omitted; an empty list means none of the advertised curves are
        /// usable.
        supported: Vec<(Curve1DType, u64)>,
    },
    /// A custom 1D LUT (`1D LUT`) uploaded via the `DATA` blob property.
    Lut1D {
        /// Number of entries of the LUT (the `SIZE` property).
        size: u32,
        /// Interpolation between LUT entries.
        interpolation: Lut1DInterpolation,
    },
    /// A 3x4 matrix (`3x4 Matrix`) applied to the pixel values, uploaded via `DATA`.
    Ctm3x4,
    /// A multiplier (`Multiplier`) applied to all pixel values, set via the `MULTIPLIER`
    /// fixed-point property.
    Multiplier,
    /// A 3D LUT (`3D LUT`) uploaded via `DATA`.
    Lut3D {
        /// Size of each dimension of the LUT cube (the `SIZE` property).
        size: u32,
        /// Interpolation between LUT entries.
        interpolation: Lut3DInterpolation,
    },
    /// An operation that is not modelled.
    ///
    /// Pipelines containing unknown, non-bypassable operations cannot be used safely and are
    /// skipped during discovery; unknown *bypassable* operations are kept so the rest of the
    /// pipeline remains usable.
    Unknown {
        /// The kernel's name for the type of the operation.
        name: String,
    },
}

/// What a [`ColorOpKind`] means.
#[verifier::ext_equal]
pub enum KindModel {
    Curve1D(Seq<(Curve1DType, u64)>),
    Lut1D(u32, Lut1DInterpolation),
    Ctm3x4,
    Multiplier,
    Lut3D(u32, Lut3DInterpolation),
    Unknown(Seq<char>),
}

impl ColorOpKind {
    pub open spec fn view(&self) -> KindModel {
        match self {
            ColorOpKind::Curve1D { supported } => KindModel::Curve1D(supported@),
            ColorOpKind::Lut1D { size, interpolation } => KindModel::Lut1D(*size, *interpolation),
            ColorOpKind::Ctm3x4 => KindModel::Ctm3x4,
            ColorOpKind::Multiplier => KindModel::Multiplier,
            ColorOpKind::Lut3D { size, interpolation } => KindModel::Lut3D(*size, *interpolation),
            ColorOpKind::Unknown { name } => KindModel::Unknown(name@),
        }
    }
}

/// The property handles of an object, by name.
#[derive(Debug, Clone)]
pub struct PropertyTable {
    names: Vec<String>,
    handles: Vec<u32>,
}

impl PropertyTable {
    /// The handle of every name.
    pub closed spec fn view(&self) -> Map<Seq<char>, u32> {
        Map::new(
            |name: Seq<char>| exists|i: int| self.has_at(name, i),
            |name: Seq<char>| self.handles@[choose|i: int| self.has_at(name, i)],
        )
    }

    spec fn has_at(&self, name: Seq<char>, i: int) -> bool {
        0 <= i < self.names@.len() && self.names@[i]@ == name
    }

    /// Every name has one handle.
    pub closed spec fn wf(&self) -> bool {
        &&& self.names@.len() == self.handles@.len()
        &&& forall|i: int, j: int|
            0 <= i < self.names@.len() && 0 <= j < self.names@.len() && #[trigger] self.names@[i]@
                == #[trigger] self.names@[j]@ ==> i == j
    }

    proof fn lemma_at(&self, name: Seq<char>, i: int)
        requires
            self.wf(),
            self.has_at(name, i),
        ensures
            self@.dom().contains(name),
            self@[name] == self.handles@[i],
    {
        let j = choose|j: int| self.has_at(name, j);
        assert(self.names@[i]@ == self.names@[j]@);
    }

    /// No properties.
    pub fn new() -> (table: Self)
        ensures
            table.wf(),
            table@ == Map::<Seq<char>, u32>::empty(),
    {
        let table = PropertyTable { names: Vec::new(), handles: Vec::new() };
        assert(table@ =~= Map::<Seq<char>, u32>::empty());
        table
    }

    fn find(&self, name: &str) -> (index: Option<usize>)
        ensures
            match index {
                Some(i) => self.has_at(name@, i as int),
                None => forall|i: int| !self.has_at(name@, i),
            },
    {
        let mut i: usize = 0;
        while i < self.names.len()
            invariant
                i <= self.names@.len(),
                forall|k: int| 0 <= k < i ==> !self.has_at(name@, k),
            decreases self.names@.len() - i,
        {
            if same_text(self.names[i].as_str(), name) {
                return Some(i);
            }
            i = i + 1;
        }
        None
    }

    /// Sets the handle of a name.
    pub fn insert(&mut self, name: &str, handle: u32)
        requires
            old(self).wf(),
        ensures
            final(self).wf(),
            final(self)@ == old(self)@.insert(name@, handle),
    {
        let ghost before = *self;
        match self.find(name) {
            Some(i) => {
                self.handles[i] = handle;
                proof {
                    assert forall|n: Seq<char>| #[trigger] self@.dom().contains(n) <==> before@.insert(
                        name@,
                        handle,
                    ).dom().contains(n) by {
                        if before@.dom().contains(n) {
                            let k = choose|k: int| before.has_at(n, k);
                            assert(self.has_at(n, k));
                        }
                        if self@.dom().contains(n) {
                            let k = choose|k: int| self.has_at(n, k);
                            assert(before.has_at(n, k));
                        }
                        assert(self.has_at(name@, i as int));
                    }
                    assert forall|n: Seq<char>| #[trigger] self@.dom().contains(n) implies self@[n] == before@.insert(
                    name@, handle)[n] by {
                        let k = choose|k: int| self.has_at(n, k);
                        assert(before.has_at(n, k));
                        self.lemma_at(n, k);
                        before.lemma_at(n, k);
                        if n == name@ {
                            assert(self.names@[k]@ == self.names@[i as int]@);
                        } else {
                            assert(k != i);
                        }
                    }
                    assert(self@ =~= before@.insert(name@, handle));
                }
            },
            None => {
                self.names.push(name.to_owned());
                self.handles.push(handle);
                proof {
                    let n0 = before.names@.len() as int;
                    assert(self.has_at(name@, n0));
                    assert forall|n: Seq<char>, k: int| #[trigger] self.has_at(n, k) == (before.has_at(n, k) || (k
                        == n0 && n == name@)) by {}
                    assert forall|i: int, j: int|
                        0 <= i < self.names@.len() && 0 <= j < self.names@.len()
                            && #[trigger] self.names@[i]@ == #[trigger] self.names@[j]@ implies i == j by {
                        if i < n0 && j < n0 {
                            assert(before.names@[i]@ == before.names@[j]@);
                        } else if i < n0 {
                            assert(before.has_at(name@, i));
                        } else if j < n0 {
                            assert(before.has_at(name@, j));
                        }
                    }
                    assert forall|n: Seq<char>| #[trigger] self@.dom().contains(n) <==> before@.insert(
                        name@,
                        handle,
                    ).dom().contains(n) by {
                        if before@.dom().contains(n) {
                            let k = choose|k: int| before.has_at(n, k);
                            assert(self.has_at(n, k));
                        }
                        if self@.dom().contains(n) {
                            let k = choose|k: int| self.has_at(n, k);
                            if k < n0 {
                                assert(before.has_at(n, k));
                            }
                        }
                    }
                    assert forall|n: Seq<char>| #[trigger] self@.dom().contains(n) implies self@[n] == before@.insert(
                    name@, handle)[n] by {
                        let k = choose|k: int| self.has_at(n, k);
                        self.lemma_at(n, k);
                        if k < n0 {
                            assert(before.has_at(n, k));
                            before.lemma_at(n, k);
                        }
                    }
                    assert(self@ =~= before@.insert(name@, handle));
                }
            },
        }
    }

    /// The handle of a name.
    pub fn get(&self, name: &str) -> (handle: Option<u32>)
        requires
            self.wf(),
        ensures
            handle == if self@.dom().contains(name@) {
                Some(self@[name@])
            } else {
                None
            },
    {
        match self.find(name) {
            Some(i) => {
                proof {
                    self.lemma_at(name@, i as int);
                }
                Some(self.handles[i])
            },
            None => None,
        }
    }
}

/// One color operation in a [`ColorPipeline`].
#[derive(Debug, Clone)]
pub struct ColorOp {
    /// The object id of this operation.
    pub id: u32,
    /// The operation this performs.
    pub kind: ColorOpKind,
    /// Whether the operation has a `BYPASS` property.
    ///
    /// Operations without one cannot be individually disabled: a user of the pipeline must
    /// program them (e.g. to an identity transform) whenever the pipeline is selected.
    pub bypassable: bool,
    /// The property handles of this operation by name.
    pub props: PropertyTable,
}

/// What a [`ColorOp`] means.
#[verifier::ext_equal]
pub struct OpModel {
    pub id: u32,
    pub kind: KindModel,
    pub bypassable: bool,
    pub props: Map<Seq<char>, u32>,
}

impl ColorOp {
    pub open spec fn view(&self) -> OpModel {
        OpModel {
            id: self.id,
            kind: self.kind@,
            bypassable: self.bypassable,
            props: self.props@,
        }
    }
}

/// A color pipeline advertised on a plane.
///
/// The pipeline processes plane pixels *before* blending, in the order of its operations.
#[derive(Debug, Clone)]
pub struct ColorPipeline {
    /// The value that selects this pipeline (the object id of the first operation).
    pub id: u64,
    /// The color operations of this pipeline, in processing order.
    pub ops: Vec<ColorOp>,
}

impl ColorPipeline {
    pub open spec fn view(&self) -> Seq<OpModel> {
        self.ops@.map_values(|op: ColorOp| op@)
    }

    /// The property tables of all operations are sound.
    pub open spec fn wf(&self) -> bool {
        forall|i: int| 0 <= i < self.ops@.len() ==> (#[trigger] self.ops@[i]).props.wf()
    }
}

/// One value of an enum property.
#[derive(Debug)]
pub struct EnumEntry {
    /// The raw value.
    pub value: u64,
    /// The name of the value, if it is valid text.
    pub name: Option<String>,
}

/// What the kernel says about a property.
#[derive(Debug)]
pub struct PropertyInfo {
    /// The name of the property, if it is valid text.
    pub name: Option<String>,
    /// The possible values of an enum property; `None` for properties of other types.
    pub entries: Option<Vec<EnumEntry>>,
}

/// A property of an object, as it was read.
#[derive(Debug)]
pub struct PropertyRecord {
    /// The raw handle of the property.
    pub id: u32,
    /// The value of the property.
    pub value: u64,
    /// What is known about the property, if it could be queried.
    pub info: Option<PropertyInfo>,
}

/// What an [`EnumEntry`] means.
#[verifier::ext_equal]
pub struct EntryModel {
    pub value: u64,
    pub name: Option<Seq<char>>,
}

/// The characters of a text that may be missing.
pub open spec fn text_of(text: Option<String>) -> Option<Seq<char>> {
    match text {
        Some(text) => Some(text@),
        None => None,
    }
}

impl EnumEntry {
    pub open spec fn view(&self) -> EntryModel {
        EntryModel { value: self.value, name: text_of(self.name) }
    }
}

/// The possible values of a property.
pub open spec fn entries_of(info: PropertyInfo) -> Option<Seq<EntryModel>> {
    match info.entries {
        Some(entries) => Some(entries@.map_values(|e: EnumEntry| e@)),
        None => None,
    }
}

/// Parses a raw object id: `drm::control::from_u32`, and the conversion of `property::Handle`
/// back to its number.
///
/// Every number but 0 is the id of an object; the result is the number itself, or `None` for 0.
#[verifier::external_body]
fn property_handle(raw: u32) -> (handle: Option<u32>)
    ensures
        handle == if raw == 0 {
            None
        } else {
            Some(raw)
        },
{
    drm::control::from_u32::<property::Handle>(raw).map(u32::from)
}

/// The low 32 bits of a property value.
pub open spec fn low_word(value: u64) -> u32 {
    (value % 0x1_0000_0000) as u32
}

fn truncate(value: u64) -> (low: u32)
    ensures
        low == low_word(value),
{
    (value % 0x1_0000_0000) as u32
}

/// The index of the entry with the given value: the one at that index if it has that value, and
/// otherwise the first one that has.
pub open spec fn entry_for(entries: Seq<EntryModel>, value: u64) -> Option<int> {
    if value < entries.len() && entries[value as int].value == value {
        Some(value as int)
    } else if exists|i: int| is_first_with(entries, value, i) {
        Some(choose|i: int| is_first_with(entries, value, i))
    } else {
        None
    }
}

/// Whether an entry is the first one with the given value.
pub open spec fn is_first_with(entries: Seq<EntryModel>, value: u64, i: int) -> bool {
    &&& 0 <= i < entries.len()
    &&& entries[i].value == value
    &&& forall|k: int| 0 <= k < i ==> #[trigger] entries[k].value != value
}

/// The name of the entry with the given value.
pub open spec fn selected_name(entries: Seq<EntryModel>, value: u64) -> Option<Seq<char>> {
    match entry_for(entries, value) {
        Some(i) => entries[i].name,
        None => None,
    }
}

fn select_name(entries: &Vec<EnumEntry>, value: u64) -> (name: Option<&String>)
    ensures
        match name {
            Some(name) => selected_name(entries@.map_values(|e: EnumEntry| e@), value) == Some(
                name@,
            ),
            None => selected_name(entries@.map_values(|e: EnumEntry| e@), value) is None,
        },
{
    let ghost model = entries@.map_values(|e: EnumEntry| e@);
    if value < entries.len() as u64 && entries[value as usize].value == value {
        assert(model[value as int].value == value);
        return entries[value as usize].name.as_ref();
    }
    let mut i: usize = 0;
    while i < entries.len()
        invariant
            i <= entries@.len(),
            model == entries@.map_values(|e: EnumEntry| e@),
            !(value < entries@.len() && model[value as int].value == value),
            forall|k: int| 0 <= k < i ==> #[trigger] model[k].value != value,
        decreases entries@.len() - i,
    {
        assert(model[i as int] == entries@[i as int]@);
        if entries[i].value == value {
            proof {
                assert(is_first_with(model, value, i as int));
                let k = choose|k: int| is_first_with(model, value, k);
                assert(k == i);
            }
            return entries[i].name.as_ref();
        }
        i = i + 1;
    }
    proof {
        assert forall|k: int| !is_first_with(model, value, k) by {}
    }
    None
}

/// The known curves among the entries, with the values that select them.
pub open spec fn known_curves(entries: Seq<EntryModel>) -> Seq<(Curve1DType, u64)>
    decreases entries.len(),
{
    if entries.len() == 0 {
        Seq::empty()
    } else {
        let before = known_curves(entries.drop_last());
        match entries.last().name {
            Some(name) => match Curve1DType::named(name) {
                Some(curve) => before.push((curve, entries.last().value)),
                None => before,
            },
            None => before,
        }
    }
}

/// What was learned from the properties of a color operation so far.
#[verifier::ext_equal]
pub struct Findings {
    pub kind: Option<Seq<char>>,
    pub bypassable: bool,
    pub next: u32,
    pub curves: Seq<(Curve1DType, u64)>,
    pub size: u32,
    pub lut1d: Lut1DInterpolation,
    pub lut3d: Lut3DInterpolation,
    pub props: Map<Seq<char>, u32>,
}

impl Findings {
    /// Nothing learned yet.
    pub open spec fn nothing() -> Findings {
        Findings {
            kind: None,
            bypassable: false,
            next: 0,
            curves: Seq::empty(),
            size: 0,
            lut1d: Lut1DInterpolation::Unknown,
            lut3d: Lut3DInterpolation::Unknown,
            props: Map::empty(),
        }
    }

    /// What a property with a name and a value adds.
    pub open spec fn with_property(
        self,
        name: Seq<char>,
        handle: u32,
        value: u64,
        entries: Option<Seq<EntryModel>>,
    ) -> Findings {
        let known = Findings { props: self.props.insert(name, handle), ..self };
        if name == "TYPE"@ {
            match entries {
                Some(entries) => Findings { kind: selected_name(entries, value), ..known },
                None => known,
            }
        } else if name == "BYPASS"@ {
            Findings { bypassable: true, ..known }
        } else if name == "NEXT"@ {
            Findings { next: low_word(value), ..known }
        } else if name == "CURVE_1D_TYPE"@ {
            match entries {
                Some(entries) => Findings { curves: self.curves + known_curves(entries), ..known },
                None => known,
            }
        } else if name == "SIZE"@ {
            Findings { size: low_word(value), ..known }
        } else if name == "LUT1D_INTERPOLATION"@ {
            match entries {
                Some(entries) => if selected_name(entries, value) == Some("Linear"@) {
                    Findings { lut1d: Lut1DInterpolation::Linear, ..known }
                } else {
                    known
                },
                None => known,
            }
        } else if name == "LUT3D_INTERPOLATION"@ {
            match entries {
                Some(entries) => if selected_name(entries, value) == Some("Tetrahedral"@) {
                    Findings { lut3d: Lut3DInterpolation::Tetrahedral, ..known }
                } else {
                    known
                },
                None => known,
            }
        } else {
            known
        }
    }

    /// What a record adds: nothing if the handle, the query or the name is unusable.
    pub open spec fn with_record(self, record: PropertyRecord) -> Findings {
        if record.id == 0 {
            self
        } else {
            match record.info {
                Some(info) => match text_of(info.name) {
                    Some(name) => self.with_property(
                        name,
                        record.id,
                        record.value,
                        entries_of(info),
                    ),
                    None => self,
                },
                None => self,
            }
        }
    }

    /// What the properties of an operation say about it, in the order in which they are listed.
    pub open spec fn from_records(records: Seq<PropertyRecord>) -> Findings
        decreases records.len(),
    {
        if records.len() == 0 {
            Findings::nothing()
        } else {
            Findings::from_records(records.drop_last()).with_record(records.last())
        }
    }

    /// The kind of the operation.
    pub open spec fn model(self) -> KindModel {
        if self.kind == Some("1D Curve"@) {
            KindModel::Curve1D(self.curves)
        } else if self.kind == Some("1D LUT"@) {
            KindModel::Lut1D(self.size, self.lut1d)
        } else if self.kind == Some("3x4 Matrix"@) {
            KindModel::Ctm3x4
        } else if self.kind == Some("Multiplier"@) {
            KindModel::Multiplier
        } else if self.kind == Some("3D LUT"@) {
            KindModel::Lut3D(self.size, self.lut3d)
        } else {
            match self.kind {
                Some(name) => KindModel::Unknown(name),
                None => KindModel::Unknown("<missing TYPE>"@),
            }
        }
    }

    /// Whether the operation is neither known nor can be bypassed.
    pub open spec fn is_unusable(self) -> bool {
        self.model() is Unknown && !self.bypassable
    }
}

/// Why a color pipeline cannot be used.
#[derive(Debug, Clone, Copy, PartialEq, Eq, Structural)]
pub enum PipelineError {
    /// The chain of operations is too long, or cyclic.
    ChainTooLongOrCyclic,
    /// The pipeline contains an unknown operation that cannot be bypassed.
    UnknownNonBypassable,
}

impl PipelineError {
    /// What went wrong, in words.
    pub open spec fn text(self) -> Seq<char> {
        match self {
            PipelineError::ChainTooLongOrCyclic => "colorop NEXT chain is too long or cyclic"@,
            PipelineError::UnknownNonBypassable => "pipeline contains an unknown non-bypassable colorop"@,
        }
    }

    /// What went wrong, in words.
    pub fn message(&self) -> (message: &'static str)
        ensures
            message@ == self.text(),
    {
        match self {
            PipelineError::ChainTooLongOrCyclic => "colorop NEXT chain is too long or cyclic",
            PipelineError::UnknownNonBypassable => "pipeline contains an unknown non-bypassable colorop",
        }
    }
}

/// A color operation that was read, and the id of the one that follows it.
#[derive(Debug)]
pub struct ReadColorOp {
    pub op: ColorOp,
    pub next: u32,
}

fn collect_curves(entries: &Vec<EnumEntry>, curves: &mut Vec<(Curve1DType, u64)>)
    ensures
        final(curves)@ == old(curves)@ + known_curves(entries@.map_values(|e: EnumEntry| e@)),
{
    let ghost before = curves@;
    let ghost model = entries@.map_values(|e: EnumEntry| e@);
    let mut i: usize = 0;
    assert(model.take(0) =~= Seq::<EntryModel>::empty());
    assert(curves@ =~= before + known_curves(model.take(0)));
    while i < entries.len()
        invariant
            i <= entries@.len(),
            model == entries@.map_values(|e: EnumEntry| e@),
            curves@ == before + known_curves(model.take(i as int)),
        decreases entries@.len() - i,
    {
        proof {
            assert(model.take(i + 1).drop_last() =~= model.take(i as int));
            assert(model.take(i + 1).last() == entries@[i as int]@);
        }
        let ghost so_far = known_curves(model.take(i as int));
        if let Some(name) = &entries[i].name {
            if let Some(curve) = Curve1DType::from_kernel_name(name.as_str()) {
                curves.push((curve, entries[i].value));
                assert(curves@ =~= before + so_far.push((curve, entries@[i as int].value)));
            }
        }
        i = i + 1;
    }
    assert(model.take(i as int) =~= model);
}

/// Makes sense of the properties of a single color operation.
///
/// Unknown operations are only accepted if they can be bypassed.
pub fn read_colorop(id: u32, records: &Vec<PropertyRecord>) -> (r: Result<ReadColorOp, PipelineError>)
    ensures
        ({
            let found = Findings::from_records(records@);
            match r {
                Ok(read) => {
                    &&& !found.is_unusable()
                    &&& read.next == found.next
                    &&& read.op.props.wf()
                    &&& read.op@ == (OpModel {
                        id,
                        kind: found.model(),
                        bypassable: found.bypassable,
                        props: found.props,
                    })
                },
                Err(e) => found.is_unusable() && e == PipelineError::UnknownNonBypassable,
            }
        }),
{
    let mut kind: Option<String> = None;
    let mut bypassable: bool = false;
    let mut next: u32 = 0;
    let mut curves: Vec<(Curve1DType, u64)> = Vec::new();
    let mut size: u32 = 0;
    let mut lut1d = Lut1DInterpolation::Unknown;
    let mut lut3d = Lut3DInterpolation::Unknown;
    let mut props = PropertyTable::new();
    let mut i: usize = 0;
    assert(records@.take(0) =~= Seq::<PropertyRecord>::empty());
    while i < records.len()
        invariant
            i <= records@.len(),
            props.wf(),
            ({
                let found = Findings::from_records(records@.take(i as int));
                &&& found.kind == text_of(kind)
                &&& found.bypassable == bypassable
                &&& found.next == next
                &&& found.curves == curves@
                &&& found.size == size
                &&& found.lut1d == lut1d
                &&& found.lut3d == lut3d
                &&& found.props == props@
            }),
        decreases records@.len() - i,
    {
        proof {
            assert(records@.take(i + 1).drop_last() =~= records@.take(i as int));
            assert(records@.take(i + 1).last() == records@[i as int]);
        }
        let record = &records[i];
        i = i + 1;
        let handle: u32 = match property_handle(record.id) {
            Some(handle) => handle,
            None => continue ,
        };
        let info = match &record.info {
            Some(info) => info,
            None => continue ,
        };
        let name = match &info.name {
            Some(name) => name.as_str(),
            None => continue ,
        };
        props.insert(name, handle);
        if same_text(name, "TYPE") {
            if let Some(entries) = &info.entries {
                kind = match select_name(entries, record.value) {
                    Some(selected) => Some(selected.as_str().to_owned()),
                    None => None,
                };
            }
        } else if same_text(name, "BYPASS") {
            bypassable = true;
        } else if same_text(name, "NEXT") {
            next = truncate(record.value);
        } else if same_text(name, "CURVE_1D_TYPE") {
            if let Some(entries) = &info.entries {
                collect_curves(entries, &mut curves);
            }
        } else if same_text(name, "SIZE") {
            size = truncate(record.value);
        } else if same_text(name, "LUT1D_INTERPOLATION") {
            if let Some(entries) = &info.entries {
                if let Some(selected) = select_name(entries, record.value) {
                    if same_text(selected.as_str(), "Linear") {
                        lut1d = Lut1DInterpolation::Linear;
                    }
                }
            }
        } else if same_text(name, "LUT3D_INTERPOLATION") {
            if let Some(entries) = &info.entries {
                if let Some(selected) = select_name(entries, record.value) {
                    if same_text(selected.as_str(), "Tetrahedral") {
                        lut3d = Lut3DInterpolation::Tetrahedral;
                    }
                }
            }
        }
    }
    assert(records@.take(i as int) =~= records@);
    let kind = match kind {
        Some(name) => {
            if same_text(name.as_str(), "1D Curve") {
                ColorOpKind::Curve1D { supported: curves }
            } else if same_text(name.as_str(), "1D LUT") {
                ColorOpKind::Lut1D { size, interpolation: lut1d }
            } else if same_text(name.as_str(), "3x4 Matrix") {
                ColorOpKind::Ctm3x4
            } else if same_text(name.as_str(), "Multiplier") {
                ColorOpKind::Multiplier
            } else if same_text(name.as_str(), "3D LUT") {
                ColorOpKind::Lut3D { size, interpolation: lut3d }
            } else if !bypassable {
                return Err(PipelineError::UnknownNonBypassable);
            } else {
                ColorOpKind::Unknown { name }
            }
        },
        None => {
            if !bypassable {
                return Err(PipelineError::UnknownNonBypassable);
            }
            ColorOpKind::Unknown { name: "<missing TYPE>".to_owned() }
        },
    };
    Ok(ReadColorOp { op: ColorOp { id, kind, bypassable, props }, next })
}

/// The values of an enum property that select a pipeline: all but 0, which is the
/// always-present bypass.
pub open spec fn pipeline_values(entries: Seq<EntryModel>) -> Seq<u64> {
    entries.map_values(|e: EntryModel| e.value).filter(|v: u64| v != 0)
}

/// Whether a property is the one that selects the color pipeline of a plane.
pub open spec fn selects_pipeline(info: Option<PropertyInfo>) -> bool {
    info matches Some(info) && text_of(info.name) == Some("COLOR_PIPELINE"@)
}

/// The pipelines that the properties of a plane advertise, each by the id of its first
/// operation. The first `COLOR_PIPELINE` property counts; if it is no enum, or if there is
/// none, there are no pipelines.
pub open spec fn advertised_pipelines(infos: Seq<Option<PropertyInfo>>) -> Seq<u64>
    decreases infos.len(),
{
    if infos.len() == 0 {
        Seq::empty()
    } else if selects_pipeline(infos.first()) {
        match entries_of(infos.first()->0) {
            Some(entries) => pipeline_values(entries),
            None => Seq::empty(),
        }
    } else {
        advertised_pipelines(infos.drop_first())
    }
}

fn nonzero_values(entries: &Vec<EnumEntry>) -> (values: Vec<u64>)
    ensures
        values@ == pipeline_values(entries@.map_values(|e: EnumEntry| e@)),
{
    let ghost model = entries@.map_values(|e: EnumEntry| e@);
    let ghost all = model.map_values(|e: EntryModel| e.value);
    let ghost selects = |v: u64| v != 0;
    let mut values: Vec<u64> = Vec::new();
    let mut i: usize = 0;
    proof {
        reveal(Seq::filter);
        assert(all.take(0) =~= Seq::<u64>::empty());
    }
    while i < entries.len()
        invariant
            i <= entries@.len(),
            model == entries@.map_values(|e: EnumEntry| e@),
            all == model.map_values(|e: EntryModel| e.value),
            selects == (|v: u64| v != 0),
            values@ == all.take(i as int).filter(selects),
        decreases entries@.len() - i,
    {
        proof {
            reveal(Seq::filter);
            assert(all.take(i + 1).drop_last() =~= all.take(i as int));
            assert(all.take(i + 1).last() == entries@[i as int].value);
        }
        if entries[i].value != 0 {
            values.push(entries[i].value);
        }
        i = i + 1;
    }
    assert(all.take(i as int) =~= all);
    values
}

/// The color pipelines a plane advertises, each by the id of its first operation.
///
/// `infos` are the properties of the plane; those that cannot be queried are `None`. The list is
/// empty when the plane has no `COLOR_PIPELINE` property (either the kernel predates color
/// pipelines, the client capability is not enabled, or the driver exposes no pipeline on this
/// plane).
pub fn plane_color_pipelines(infos: &Vec<Option<PropertyInfo>>) -> (values: Vec<u64>)
    ensures
        values@ == advertised_pipelines(infos@),
{
    let mut i: usize = 0;
    assert(infos@.skip(0) =~= infos@);
    while i < infos.len()
        invariant
            i <= infos@.len(),
            advertised_pipelines(infos@.skip(i as int)) == advertised_pipelines(infos@),
        decreases infos@.len() - i,
    {
        assert(infos@.skip(i as int).drop_first() =~= infos@.skip(i + 1));
        if let Some(info) = &infos[i] {
            if let Some(name) = &info.name {
                if same_text(name.as_str(), "COLOR_PIPELINE") {
                    return match &info.entries {
                        Some(entries) => nonzero_values(entries),
                        None => Vec::new(),
                    };
                }
            }
        }
        i = i + 1;
    }
    Vec::new()
}

/// The pipelines of the walks that succeeded, in order.
pub open spec fn successes(walks: Seq<Option<ColorPipeline>>) -> Seq<ColorPipeline>
    decreases walks.len(),
{
    if walks.len() == 0 {
        Seq::empty()
    } else {
        match walks.last() {
            Some(pipeline) => successes(walks.drop_last()).push(pipeline),
            None => successes(walks.drop_last()),
        }
    }
}

/// The usable ones of the pipelines that a plane advertises, given what came of the walks along
/// them, in the order of [`plane_color_pipelines`]. A walk that failed is `None` and skipped: an
/// unusable pipeline does not hide the others.
pub fn usable_pipelines(walks: Vec<Option<ColorPipeline>>) -> (pipelines: Vec<ColorPipeline>)
    ensures
        pipelines@ == successes(walks@),
{
    let ghost all = walks@;
    let mut pipelines: Vec<ColorPipeline> = Vec::new();
    assert(all.take(0) =~= Seq::<Option<ColorPipeline>>::empty());
    for walk in iter: walks.into_iter()
        invariant
            iter.seq() == all,
            pipelines@ == successes(all.take(iter.index())),
    {
        proof {
            let i = iter.index();
            assert(all.take(i + 1).drop_last() =~= all.take(i));
            assert(all.take(i + 1).last() == all[i]);
        }
        if let Some(pipeline) = walk {
            pipelines.push(pipeline);
        }
    }
    assert(all.take(all.len() as int) =~= all);
    pipelines
}

/// Every walk that succeeded gives a pipeline, and a walk that failed does not matter for the
/// others.
pub proof fn law_unusable_pipelines_hide_no_others(walks: Seq<Option<ColorPipeline>>, i: int)
    requires
        0 <= i < walks.len(),
    ensures
        walks[i] matches Some(pipeline) ==> successes(walks).contains(pipeline),
        walks[i] is None ==> successes(walks) == successes(walks.remove(i)),
    decreases walks.len(),
{
    let rest = walks.drop_last();
    if i == walks.len() - 1 {
        assert(walks.remove(i) =~= rest);
        if let Some(pipeline) = walks[i] {
            let all = successes(walks);
            assert(all[all.len() - 1] == pipeline);
        }
    } else {
        law_unusable_pipelines_hide_no_others(rest, i);
        assert(walks.remove(i).drop_last() =~= rest.remove(i));
        assert(walks.remove(i).last() == walks.last());
        if let Some(pipeline) = walks[i] {
            let k = successes(rest).index_of(pipeline);
            assert(successes(walks)[k] == pipeline);
        }
    }
}

/// A walk along a chain of color operations.
pub struct PipelineWalk {
    first: u64,
    ops: Vec<ColorOp>,
    next: u32,
}

/// What a [`PipelineWalk`] means.
#[verifier::ext_equal]
pub struct WalkModel {
    pub first: u64,
    pub ops: Seq<OpModel>,
    pub next: u32,
}

/// What comes next in a walk.
#[derive(Debug, Clone, Copy, PartialEq, Eq, Structural)]
pub enum WalkStep {
    /// The end of the chain is reached.
    Done,
    /// The properties of the operation with this id are to be read.
    Read(u32),
    /// The chain cannot be used.
    Abort(PipelineError),
}

impl WalkModel {
    /// What comes next.
    pub open spec fn step(self) -> WalkStep {
        if self.next == 0 {
            WalkStep::Done
        } else if self.ops.len() == MAX_PIPELINE_OPS || self.has_visited(self.next) {
            WalkStep::Abort(PipelineError::ChainTooLongOrCyclic)
        } else {
            WalkStep::Read(self.next)
        }
    }

    /// Whether an operation was read before.
    pub open spec fn has_visited(self, id: u32) -> bool {
        exists|i: int| 0 <= i < self.ops.len() && #[trigger] self.ops[i].id == id
    }

    /// No chain is too long, none of its operations occurs twice, and none has the id 0.
    pub open spec fn well_formed(self) -> bool {
        &&& self.ops.len() <= MAX_PIPELINE_OPS
        &&& self.ops.len() == 0 ==> self.next == low_word(self.first)
        &&& self.ops.len() > 0 ==> self.ops[0].id == low_word(self.first)
        &&& forall|i: int| 0 <= i < self.ops.len() ==> #[trigger] self.ops[i].id != 0
        &&& forall|i: int, j: int|
            0 <= i < self.ops.len() && 0 <= j < self.ops.len() && #[trigger] self.ops[i].id
                == #[trigger] self.ops[j].id ==> i == j
    }
}

impl PipelineWalk {
    pub closed spec fn view(&self) -> WalkModel {
        WalkModel {
            first: self.first,
            ops: self.ops@.map_values(|op: ColorOp| op@),
            next: self.next,
        }
    }

    pub closed spec fn wf(&self) -> bool {
        &&& self@.well_formed()
        &&& forall|i: int| 0 <= i < self.ops@.len() ==> (#[trigger] self.ops@[i]).props.wf()
    }

    /// Starts at the operation with the id `first`.
    pub fn start(first: u64) -> (walk: Self)
        ensures
            walk.wf(),
            walk@ == (WalkModel { first, ops: Seq::empty(), next: low_word(first) }),
    {
        let walk = PipelineWalk { first, ops: Vec::new(), next: truncate(first) };
        assert(walk@.ops =~= Seq::<OpModel>::empty());
        walk
    }

    /// What comes next.
    pub fn step(&self) -> (step: WalkStep)
        requires
            self.wf(),
        ensures
            step == self@.step(),
    {
        if self.next == 0 {
            return WalkStep::Done;
        }
        if self.ops.len() == MAX_PIPELINE_OPS {
            return WalkStep::Abort(PipelineError::ChainTooLongOrCyclic);
        }
        let mut i: usize = 0;
        while i < self.ops.len()
            invariant
                self.next != 0,
                self@.ops.len() < MAX_PIPELINE_OPS,
                i <= self.ops@.len(),
                forall|k: int| 0 <= k < i ==> #[trigger] self@.ops[k].id != self.next,
            decreases self.ops@.len() - i,
        {
            if self.ops[i].id == self.next {
                assert(self@.ops[i as int].id == self.next);
                return WalkStep::Abort(PipelineError::ChainTooLongOrCyclic);
            }
            i = i + 1;
        }
        WalkStep::Read(self.next)
    }

    /// Takes the next operation from its properties, and goes on to the one that follows.
    pub fn advance(&mut self, records: &Vec<PropertyRecord>) -> (r: Result<(), PipelineError>)
        requires
            old(self).wf(),
            old(self)@.step() is Read,
        ensures
            final(self).wf(),
            ({
                let found = Findings::from_records(records@);
                if found.is_unusable() {
                    &&& r == Err::<(), PipelineError>(PipelineError::UnknownNonBypassable)
                    &&& final(self)@ == old(self)@
                } else {
                    &&& r is Ok
                    &&& final(self)@ == (WalkModel {
                        first: old(self)@.first,
                        ops: old(self)@.ops.push(
                            OpModel {
                                id: old(self)@.next,
                                kind: found.model(),
                                bypassable: found.bypassable,
                                props: found.props,
                            },
                        ),
                        next: found.next,
                    })
                }
            }),
    {
        let ghost before = self@;
        let read = match read_colorop(self.next, records) {
            Ok(read) => read,
            Err(e) => return Err(e),
        };
        let ghost op = read.op@;
        self.ops.push(read.op);
        self.next = read.next;
        proof {
            assert(self@.ops =~= before.ops.push(op));
            assert(op.id == before.next);
            assert forall|i: int, j: int|
                0 <= i < self@.ops.len() && 0 <= j < self@.ops.len() && #[trigger] self@.ops[i].id
                    == #[trigger] self@.ops[j].id implies i == j by {
                let n = before.ops.len();
                if i < n && j < n {
                    assert(before.ops[i].id == before.ops[j].id);
                } else if i < n {
                    assert(before.ops[i].id != before.next);
                } else if j < n {
                    assert(before.ops[j].id != before.next);
                }
            }
        }
        Ok(())
    }

    /// The pipeline that was walked.
    pub fn finish(self) -> (pipeline: ColorPipeline)
        requires
            self.wf(),
            self@.step() is Done,
        ensures
            pipeline.wf(),
            pipeline.id == self@.first,
            pipeline@ == self@.ops,
    {
        ColorPipeline { id: self.first, ops: self.ops }
    }
}

/// Every walk ends: each operation that is read brings it closer to the maximal length, at which
/// nothing more is read.
pub proof fn law_walks_end(walk: WalkModel)
    requires
        walk.well_formed(),
        walk.step() is Read,
    ensures
        walk.ops.len() < MAX_PIPELINE_OPS,
        !walk.has_visited(walk.next),
{
}

/// An operation is bypassable exactly if it has a `BYPASS` property, and an unknown operation of
/// a pipeline is.
pub proof fn law_bypassable_means_bypass_property(records: Seq<PropertyRecord>)
    ensures
        ({
            let found = Findings::from_records(records);
            &&& found.bypassable <==> found.props.dom().contains("BYPASS"@)
            &&& !found.is_unusable() && found.model() is Unknown ==> found.props.dom().contains(
                "BYPASS"@,
            )
        }),
    decreases records.len(),
{
    if records.len() > 0 {
        law_bypassable_means_bypass_property(records.drop_last());
        reveal_strlit("TYPE");
        reveal_strlit("BYPASS");
        assert("TYPE"@.len() != "BYPASS"@.len());
    }
}

} // verus!
