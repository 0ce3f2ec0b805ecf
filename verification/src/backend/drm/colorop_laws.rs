//! What the properties of color operations mean, and what discovery makes of them.

use vstd::prelude::*;

use crate::backend::drm::colorop;
use crate::backend::drm::colorop::{
    ColorPipeline, Curve1DType, EntryModel, Findings, KindModel, Lut1DInterpolation,
    Lut3DInterpolation, OpModel, PipelineError, PropertyInfo, PropertyRecord, WalkModel, WalkStep,
};

verus! {

/// The selected entry of an enumeration is one that has the selected value: the one at that very
/// place, or else the first. None is selected only if none has the value.
pub proof fn law_selected_entry_has_the_value(entries: Seq<EntryModel>, value: u64)
    ensures
        match colorop::entry_for(entries, value) {
            Some(i) => {
                &&& 0 <= i < entries.len()
                &&& entries[i].value == value
                &&& value < entries.len() && entries[value as int].value == value ==> i == value
                &&& i != value ==> forall|k: int| 0 <= k < i ==> (#[trigger] entries[k]).value != value
                &&& colorop::selected_name(entries, value) == entries[i].name
            },
            None => {
                &&& forall|k: int| 0 <= k < entries.len() ==> (#[trigger] entries[k]).value != value
                &&& colorop::selected_name(entries, value) is None
            },
        },
{
    assert forall|k: int| 0 <= k < entries.len() && (#[trigger] entries[k]).value == value implies exists|
        i: int,
    | colorop::is_first_with(entries, value, i) by {
        lemma_first(entries, value, k);
    }
}

proof fn lemma_first(entries: Seq<EntryModel>, value: u64, k: int)
    requires
        0 <= k < entries.len(),
        entries[k].value == value,
    ensures
        exists|i: int| colorop::is_first_with(entries, value, i),
    decreases k,
{
    if exists|j: int| 0 <= j < k && (#[trigger] entries[j]).value == value {
        let j = choose|j: int| 0 <= j < k && (#[trigger] entries[j]).value == value;
        lemma_first(entries, value, j);
    } else {
        assert(colorop::is_first_with(entries, value, k));
    }
}

/// The known curves of an enumeration are those of its entries, one after the other: an entry
/// with the name of a curve stands for that curve, beside its own value, and any other entry for
/// none.
pub proof fn law_known_curves_are_those_of_the_entries(a: Seq<EntryModel>, b: Seq<EntryModel>, e: EntryModel)
    ensures
        colorop::known_curves(a + b) == colorop::known_curves(a) + colorop::known_curves(b),
        forall|curve: Curve1DType| #[trigger]
            curve.name() == (e.name->0) && e.name is Some ==> colorop::known_curves(seq![e]) == seq![
                (curve, e.value),
            ],
        (e.name is None || forall|curve: Curve1DType| #[trigger] curve.name() != e.name->0)
            ==> colorop::known_curves(seq![e]) == Seq::<(Curve1DType, u64)>::empty(),
    decreases b.len(),
{
    let one = seq![e];
    assert(one.drop_last() =~= Seq::<EntryModel>::empty());
    assert(one.last() == e);
    assert(colorop::known_curves(one.drop_last()) =~= Seq::<(Curve1DType, u64)>::empty());
    assert forall|curve: Curve1DType| #[trigger] curve.name() == (e.name->0) && e.name is Some implies colorop::known_curves(
        one,
    ) == seq![(curve, e.value)] by {
        colorop::law_names_lead_back(curve);
    }
    if b.len() == 0 {
        assert(a + b =~= a);
    } else {
        law_known_curves_are_those_of_the_entries(a, b.drop_last(), e);
        assert((a + b).drop_last() =~= a + b.drop_last());
        assert((a + b).last() == b.last());
        assert(colorop::known_curves(a + b) =~= colorop::known_curves(a) + colorop::known_curves(b));
    }
}

/// A property's name decides what the property is about. Every property is remembered by its name,
/// and each of the others keeps what was found before.
pub proof fn law_a_property_says_one_thing(
    found: Findings,
    name: Seq<char>,
    handle: u32,
    value: u64,
    entries: Option<Seq<EntryModel>>,
)
    ensures
        ({
            let after = found.with_property(name, handle, value, entries);
            let text = match entries {
                Some(entries) => colorop::selected_name(entries, value),
                None => None,
            };
            &&& after.props.dom() == found.props.dom().insert(name)
            &&& after.props[name] == handle
            &&& forall|other: Seq<char>|
                other != name && #[trigger] found.props.dom().contains(other) ==> after.props[other]
                    == found.props[other]
            &&& name != "TYPE"@ || entries is None ==> after.kind == found.kind
            &&& name == "TYPE"@ && entries is Some ==> after.kind == text
            &&& after.bypassable <==> found.bypassable || name == "BYPASS"@
            &&& name != "NEXT"@ ==> after.next == found.next
            &&& name == "NEXT"@ ==> after.next == value % 0x1_0000_0000
            &&& name != "SIZE"@ ==> after.size == found.size
            &&& name == "SIZE"@ ==> after.size == value % 0x1_0000_0000
            &&& name != "CURVE_1D_TYPE"@ || entries is None ==> after.curves == found.curves
            &&& name == "CURVE_1D_TYPE"@ ==> (entries matches Some(entries) ==> after.curves
                == found.curves + colorop::known_curves(entries))
            &&& after.lut1d == (if name == "LUT1D_INTERPOLATION"@ && text == Some("Linear"@) {
                Lut1DInterpolation::Linear
            } else {
                found.lut1d
            })
            &&& after.lut3d == (if name == "LUT3D_INTERPOLATION"@ && text == Some("Tetrahedral"@) {
                Lut3DInterpolation::Tetrahedral
            } else {
                found.lut3d
            })
        }),
{
    lemma_property_names();
}

/// The names of the properties are different names.
proof fn lemma_property_names()
    ensures
        "TYPE"@ != "BYPASS"@,
        "TYPE"@ != "NEXT"@,
        "TYPE"@ != "CURVE_1D_TYPE"@,
        "TYPE"@ != "SIZE"@,
        "TYPE"@ != "LUT1D_INTERPOLATION"@,
        "TYPE"@ != "LUT3D_INTERPOLATION"@,
        "BYPASS"@ != "NEXT"@,
        "BYPASS"@ != "CURVE_1D_TYPE"@,
        "BYPASS"@ != "SIZE"@,
        "BYPASS"@ != "LUT1D_INTERPOLATION"@,
        "BYPASS"@ != "LUT3D_INTERPOLATION"@,
        "NEXT"@ != "CURVE_1D_TYPE"@,
        "NEXT"@ != "SIZE"@,
        "NEXT"@ != "LUT1D_INTERPOLATION"@,
        "NEXT"@ != "LUT3D_INTERPOLATION"@,
        "CURVE_1D_TYPE"@ != "SIZE"@,
        "CURVE_1D_TYPE"@ != "LUT1D_INTERPOLATION"@,
        "CURVE_1D_TYPE"@ != "LUT3D_INTERPOLATION"@,
        "SIZE"@ != "LUT1D_INTERPOLATION"@,
        "SIZE"@ != "LUT3D_INTERPOLATION"@,
        "LUT1D_INTERPOLATION"@ != "LUT3D_INTERPOLATION"@,
{
    reveal_strlit("TYPE");
    reveal_strlit("BYPASS");
    reveal_strlit("NEXT");
    reveal_strlit("CURVE_1D_TYPE");
    reveal_strlit("SIZE");
    reveal_strlit("LUT1D_INTERPOLATION");
    reveal_strlit("LUT3D_INTERPOLATION");
    assert("TYPE"@.len() == 4 && "NEXT"@.len() == 4 && "SIZE"@.len() == 4);
    assert("BYPASS"@.len() == 6 && "CURVE_1D_TYPE"@.len() == 13);
    assert("LUT1D_INTERPOLATION"@.len() == 19 && "LUT3D_INTERPOLATION"@.len() == 19);
    assert("TYPE"@[0] == 'T' && "NEXT"@[0] == 'N' && "SIZE"@[0] == 'S');
    assert("LUT1D_INTERPOLATION"@[3] == '1' && "LUT3D_INTERPOLATION"@[3] == '3');
}

/// The properties of an operation are taken one after the other. Without any, nothing is known:
/// no kind, no bypass, no successor. A property without a handle, without information or without
/// a name says nothing; any other is taken by its own name, handle, value and entries.
pub proof fn law_properties_are_taken_in_turn(records: Seq<PropertyRecord>, record: PropertyRecord)
    ensures
        ({
            let before = Findings::from_records(records);
            let after = Findings::from_records(records.push(record));
            match record.info {
                Some(info) if record.id != 0 && info.name is Some => after == before.with_property(
                    info.name->0@,
                    record.id,
                    record.value,
                    match info.entries {
                        Some(entries) => Some(
                            Seq::new(
                                entries@.len(),
                                |i: int|
                                    EntryModel {
                                        value: entries@[i].value,
                                        name: match entries@[i].name {
                                            Some(name) => Some(name@),
                                            None => None,
                                        },
                                    },
                            ),
                        ),
                        None => None,
                    },
                ),
                _ => after == before,
            }
        }),
        Findings::from_records(Seq::empty()) == (Findings {
            kind: None,
            bypassable: false,
            next: 0,
            curves: Seq::empty(),
            size: 0,
            lut1d: Lut1DInterpolation::Unknown,
            lut3d: Lut3DInterpolation::Unknown,
            props: Map::empty(),
        }),
{
    let all = records.push(record);
    assert(all.drop_last() =~= records);
    assert(all.last() == record);
    if let Some(info) = record.info {
        if let Some(entries) = info.entries {
            let listed = Seq::new(
                entries@.len(),
                |i: int|
                    EntryModel {
                        value: entries@[i].value,
                        name: match entries@[i].name {
                            Some(name) => Some(name@),
                            None => None,
                        },
                    },
            );
            assert(colorop::entries_of(info)->0 =~= listed);
        }
    }
}

/// An operation is of the kind that its type names, with what was found for that kind. A type that
/// is missing or not known makes the operation unknown, and such an operation can be tolerated
/// exactly if it can be bypassed.
pub proof fn law_the_type_names_the_kind(found: Findings)
    ensures
        found.model() is Curve1D <==> found.kind == Some("1D Curve"@),
        found.model() is Lut1D <==> found.kind == Some("1D LUT"@),
        found.model() is Ctm3x4 <==> found.kind == Some("3x4 Matrix"@),
        found.model() is Multiplier <==> found.kind == Some("Multiplier"@),
        found.model() is Lut3D <==> found.kind == Some("3D LUT"@),
        match found.model() {
            KindModel::Curve1D(supported) => supported == found.curves,
            KindModel::Lut1D(size, interpolation) => size == found.size && interpolation
                == found.lut1d,
            KindModel::Lut3D(size, interpolation) => size == found.size && interpolation
                == found.lut3d,
            KindModel::Unknown(name) => {
                &&& found.kind is Some ==> found.kind == Some(name)
                &&& found.kind is None ==> name == "<missing TYPE>"@
            },
            _ => true,
        },
        found.is_unusable() <==> found.model() is Unknown && !found.bypassable,
{
    reveal_strlit("1D Curve");
    reveal_strlit("1D LUT");
    reveal_strlit("3x4 Matrix");
    reveal_strlit("Multiplier");
    reveal_strlit("3D LUT");
    assert("1D Curve"@.len() == 8 && "1D LUT"@.len() == 6 && "3D LUT"@.len() == 6);
    assert("3x4 Matrix"@.len() == 10 && "Multiplier"@.len() == 10);
    assert("1D LUT"@[0] == '1' && "3D LUT"@[0] == '3');
    assert("3x4 Matrix"@[0] == '3' && "Multiplier"@[0] == 'M');
}

/// A plane advertises the values of its pipeline property, in their order, without the zero that
/// stands for no pipeline. The first property of that name is the one that counts.
pub proof fn law_advertised_pipelines(
    infos: Seq<Option<PropertyInfo>>,
    i: int,
    a: Seq<EntryModel>,
    b: Seq<EntryModel>,
    e: EntryModel,
)
    requires
        0 <= i < infos.len(),
        forall|k: int|
            0 <= k < i ==> !((#[trigger] infos[k]) matches Some(info) && info.name matches Some(name)
                && name@ == "COLOR_PIPELINE"@),
    ensures
        (infos[i] matches Some(info) && info.name matches Some(name) && name@ == "COLOR_PIPELINE"@)
            ==> colorop::advertised_pipelines(infos) == (match infos[i]->0.entries {
            Some(entries) => colorop::pipeline_values(
                entries@.map_values(|e: colorop::EnumEntry| e@),
            ),
            None => Seq::empty(),
        }),
        i == infos.len() - 1 && !(infos[i] matches Some(info) && info.name matches Some(name) && name@
            == "COLOR_PIPELINE"@) ==> colorop::advertised_pipelines(infos) == Seq::<u64>::empty(),
        colorop::pipeline_values(a + b) == colorop::pipeline_values(a) + colorop::pipeline_values(b),
        colorop::pipeline_values(seq![e]) == (if e.value == 0 {
            Seq::empty()
        } else {
            seq![e.value]
        }),
    decreases infos.len(),
{
    lemma_pipeline_values(a, b, e);
    assert(infos.first() == infos[0]);
    let rest = infos.drop_first();
    if i > 0 {
        assert(!colorop::selects_pipeline(infos[0]));
        assert forall|k: int| 0 <= k < rest.len() implies rest[k] == #[trigger] infos[k + 1] by {}
        assert forall|k: int| 0 <= k < i - 1 implies !((#[trigger] rest[k]) matches Some(info)
            && info.name matches Some(name) && name@ == "COLOR_PIPELINE"@) by {
            assert(rest[k] == infos[k + 1]);
        }
        law_advertised_pipelines(rest, i - 1, a, b, e);
        assert(rest[i - 1] == infos[i]);
    } else if infos.len() == 1 {
        assert(colorop::advertised_pipelines(rest) =~= Seq::<u64>::empty());
    }
}

proof fn lemma_pipeline_values(a: Seq<EntryModel>, b: Seq<EntryModel>, e: EntryModel)
    ensures
        colorop::pipeline_values(a + b) == colorop::pipeline_values(a) + colorop::pipeline_values(b),
        colorop::pipeline_values(seq![e]) == (if e.value == 0 {
            Seq::empty()
        } else {
            seq![e.value]
        }),
{
    reveal(Seq::filter);
    let value = |e: EntryModel| e.value;
    let nonzero = |v: u64| v != 0;
    assert((a + b).map_values(value) =~= a.map_values(value) + b.map_values(value));
    Seq::filter_distributes_over_add(a.map_values(value), b.map_values(value), nonzero);
    let one = seq![e].map_values(value);
    assert(one =~= seq![e.value]);
    assert(one.drop_last() =~= Seq::<u64>::empty());
    assert(one.drop_last().filter(nonzero) =~= Seq::<u64>::empty());
    assert(one.last() == e.value);
    if e.value != 0 {
        assert(one.filter(nonzero) =~= seq![e.value]);
    }
}

/// What can be used is what could be walked, in the order in which it was advertised.
pub proof fn law_usable_pipelines_in_order(
    a: Seq<Option<ColorPipeline>>,
    b: Seq<Option<ColorPipeline>>,
    pipeline: ColorPipeline,
)
    ensures
        colorop::successes(a + b) == colorop::successes(a) + colorop::successes(b),
        colorop::successes(seq![Some(pipeline)]) == seq![pipeline],
        colorop::successes(seq![None]) == Seq::<ColorPipeline>::empty(),
    decreases b.len(),
{
    let one = seq![Some(pipeline)];
    assert(one.drop_last() =~= Seq::<Option<ColorPipeline>>::empty());
    assert(colorop::successes(one.drop_last()) =~= Seq::<ColorPipeline>::empty());
    assert(one.last() == Some(pipeline));
    assert(colorop::successes(one) =~= seq![pipeline]);
    let failed = seq![None::<ColorPipeline>];
    assert(failed.drop_last() =~= Seq::<Option<ColorPipeline>>::empty());
    assert(failed.last() is None);
    if b.len() == 0 {
        assert(a + b =~= a);
        assert(colorop::successes(a) + colorop::successes(b) =~= colorop::successes(a));
    } else {
        law_usable_pipelines_in_order(a, b.drop_last(), pipeline);
        assert((a + b).drop_last() =~= a + b.drop_last());
        assert((a + b).last() == b.last());
        assert(colorop::successes(a + b) =~= colorop::successes(a) + colorop::successes(b));
    }
}

/// A walk is done exactly where there is no successor. Otherwise the successor is read, unless the
/// chain already has 64 operations or comes back to one of them.
pub proof fn law_where_a_walk_goes(walk: WalkModel, i: int)
    ensures
        walk.step() is Done <==> walk.next == 0,
        walk.step() matches WalkStep::Read(id) ==> {
            &&& id == walk.next
            &&& walk.ops.len() != 64
            &&& 0 <= i < walk.ops.len() ==> walk.ops[i].id != id
        },
        walk.step() matches WalkStep::Abort(e) ==> {
            &&& e == PipelineError::ChainTooLongOrCyclic
            &&& walk.ops.len() == 64 || exists|k: int|
                0 <= k < walk.ops.len() && (#[trigger] walk.ops[k]).id == walk.next
        },
        forall|first: u64| first < 0x1_0000_0000 ==> #[trigger] colorop::low_word(first) == first,
{
}

/// A walk that has been started at an operation and takes one step holds that operation, under
/// the id at which it was read, and goes on from there.
pub proof fn law_a_step_appends_the_operation(walk: WalkModel, records: Seq<PropertyRecord>)
    requires
        walk.well_formed(),
        walk.step() is Read,
        !Findings::from_records(records).is_unusable(),
    ensures
        ({
            let found = Findings::from_records(records);
            let after = WalkModel {
                first: walk.first,
                ops: walk.ops.push(
                    OpModel {
                        id: walk.next,
                        kind: found.model(),
                        bypassable: found.bypassable,
                        props: found.props,
                    },
                ),
                next: found.next,
            };
            &&& after.well_formed()
            &&& after.has_visited(walk.next)
            &&& found.next == walk.next ==> after.step() is Abort
        }),
{
    let found = Findings::from_records(records);
    let op = OpModel {
        id: walk.next,
        kind: found.model(),
        bypassable: found.bypassable,
        props: found.props,
    };
    let ops = walk.ops.push(op);
    let n = walk.ops.len() as int;
    assert(ops[n].id == walk.next);
    assert forall|i: int, j: int|
        0 <= i < ops.len() && 0 <= j < ops.len() && #[trigger] ops[i].id == #[trigger] ops[j].id implies i
        == j by {
        if i < n && j < n {
            assert(walk.ops[i].id == walk.ops[j].id);
        } else if i < n {
            assert(walk.ops[i].id == walk.next);
        } else if j < n {
            assert(walk.ops[j].id == walk.next);
        }
    }
}

} // verus!
