use vstd::prelude::*;

use crate::error::DataError;
use crate::extract::collect;
use crate::extract::decimal_attribute;
use crate::extract::i32_attribute;
use crate::extract::lemma_collect_fault;
use crate::extract::only;
use crate::extract::only_one;
use crate::extract::u8_attribute;
use crate::hardpoints::root_element;
use crate::hardpoints::slots_of;
use crate::hardpoints::HardpointDefs;
use crate::internals::Internal;
use crate::mechs::mech_list_view;
use crate::mechs::MechListElement;
use crate::mechs::MechListElementView;
use crate::mwo_types::components_view;
use crate::mwo_types::names_distinct;
use crate::mwo_types::quirks_view;
use crate::mwo_types::Component;
use crate::mwo_types::ComponentView;
use crate::mwo_types::Decimal;
use crate::mwo_types::HardpointCounts;
use crate::mwo_types::HardpointKind;
use crate::mwo_types::Specialness;
use crate::mwo_types::Variant;
use crate::mwo_types::VariantView;
use crate::search::first_index;
use crate::search::is_first;
use crate::search::lemma_first_absent;
use crate::search::lemma_first_found;
use crate::text::ends_with;
use crate::text::i32_spec;
use crate::text::parse_i32;
use crate::text::str_eq;
use crate::text::to_chars;
use crate::xml_doc::attribute;
use crate::xml_doc::children_tagged;
use crate::xml_doc::element_children;
use crate::xml_doc::elements_tagged;
use crate::xml_doc::places;
use crate::xml_doc::xml_parsed;
use crate::xml_doc::NodeView;
use crate::xml_doc::XmlDocument;

verus! {

/// How special the game data calls a variant of the type `name`.
pub open spec fn specialness_named(name: Seq<char>) -> Option<Specialness> {
    if name == "Champion"@ {
        Some(Specialness::Champion)
    } else if name == "Hero"@ {
        Some(Specialness::Hero)
    } else if name == "Founder"@ || name == "Special"@ || name == "Phoenix"@ || name == "Sarah"@ {
        Some(Specialness::Special)
    } else {
        None
    }
}

/// How special the variant is that `node` describes: normal, unless it has a
/// `VariantType`.
pub open spec fn specialness_of(node: NodeView) -> Option<Specialness> {
    match attribute(node, "VariantType"@) {
        None => Some(Specialness::Normal),
        Some(name) => specialness_named(name),
    }
}

/// What a `Hardpoint` element of a component adds to its counts: the kind
/// that its `Type` numbers, with the slots of the chassis hardpoint that its
/// `ID` names.
pub open spec fn hardpoint_use_at(nodes: Seq<NodeView>, defs: Seq<(i32, i32)>) -> spec_fn(
    int,
) -> Option<Option<(HardpointKind, i32)>> {
    |h: int|
        match (i32_attribute(nodes[h], "ID"@), u8_attribute(nodes[h], "Type"@)) {
            (Some(id), Some(code)) => if !HardpointKind::is_code(code as int) {
                None
            } else {
                match slots_of(defs, id) {
                    None => None,
                    Some(slots) => Some(Some((HardpointKind::with_code(code as int), slots))),
                }
            },
            _ => None,
        }
}

/// The counts that a run of uses adds up to: for each kind the slots of its
/// last use.
pub open spec fn counts_of(uses: Seq<(HardpointKind, i32)>) -> HardpointCounts
    decreases uses.len(),
{
    if uses.len() == 0 {
        HardpointCounts::spec_empty()
    } else {
        counts_of(uses.drop_last()).spec_insert(uses.last().0, uses.last().1)
    }
}

/// The id of the internal that an `Internal` element names.
pub open spec fn internal_id_at(nodes: Seq<NodeView>) -> spec_fn(int) -> Option<Option<i32>> {
    |i: int|
        match i32_attribute(nodes[i], "ItemID"@) {
            Some(id) => Some(Some(id)),
            None => None,
        }
}

/// The test that an internal has the id `id`.
pub open spec fn internal_with(id: i32) -> spec_fn(Internal) -> bool {
    |internal: Internal| internal.id == id
}

/// The slots that the internals `ids` take together, each looked up among
/// `internals`; `None` where one is not listed.
pub open spec fn internal_slots(internals: Seq<Internal>, ids: Seq<i32>) -> Option<int>
    decreases ids.len(),
{
    if ids.len() == 0 {
        Some(0)
    } else {
        match (
            internal_slots(internals, ids.drop_last()),
            first_index(internals, internal_with(ids.last())),
        ) {
            (Some(sum), Some(k)) => Some(sum + internals[k].slots),
            _ => None,
        }
    }
}

/// Whether a component's name marks the rear side of a torso.
pub open spec fn is_rear(name: Seq<char>) -> bool {
    "_rear"@.is_suffix_of(name)
}

/// Whether the component `node` may hold an ECM: it may not, unless its
/// `CanEquipECM` writes a number other than zero.
pub open spec fn can_equip_ecm(node: NodeView) -> Option<bool> {
    match attribute(node, "CanEquipECM"@) {
        None => Some(false),
        Some(text) => match i32_spec(text) {
            Some(v) => Some(v != 0),
            None => None,
        },
    }
}

/// The component that the element at a place describes, with its name. Its
/// effective slots are its `Slots` less those of its internals. A rear side
/// is left out, and must then be empty.
pub open spec fn component_at(
    nodes: Seq<NodeView>,
    defs: Seq<(i32, i32)>,
    internals: Seq<Internal>,
) -> spec_fn(int) -> Option<Option<(Seq<char>, ComponentView)>> {
    |c: int|
        if nodes[c].tag != "Component"@ {
            None
        } else {
            let name = attribute(nodes[c], "Name"@);
            let uses = collect(
                children_tagged(nodes, c, "Hardpoint"@),
                hardpoint_use_at(nodes, defs),
            );
            let base = i32_attribute(nodes[c], "Slots"@);
            let ids = collect(children_tagged(nodes, c, "Internal"@), internal_id_at(nodes));
            let hp = i32_attribute(nodes[c], "HP"@);
            let ecm = can_equip_ecm(nodes[c]);
            if name is None || uses is None || base is None || ids is None || hp is None
                || ecm is None {
                None
            } else {
                match internal_slots(internals, ids.unwrap()) {
                    None => None,
                    Some(taken) => {
                        let effective = base.unwrap() - taken;
                        let counts = counts_of(uses.unwrap());
                        if !(i32::MIN <= effective <= i32::MAX) {
                            None
                        } else if is_rear(name.unwrap()) {
                            if base.unwrap() == 0 && hp.unwrap() == 0 && ids.unwrap().len() == 0
                                && counts == HardpointCounts::spec_empty() {
                                Some(None)
                            } else {
                                None
                            }
                        } else {
                            Some(
                                Some(
                                    (
                                        name.unwrap(),
                                        ComponentView {
                                            base_slots: base.unwrap(),
                                            effective_slots: effective as i32,
                                            hp: hp.unwrap(),
                                            internal_ids: ids.unwrap(),
                                            hardpoint_count: counts,
                                            can_equip_ecm: ecm.unwrap(),
                                        },
                                    ),
                                ),
                            )
                        }
                    },
                }
            }
        }
}

/// The test that a named component is called `name`.
pub open spec fn component_named(name: Seq<char>) -> spec_fn((Seq<char>, ComponentView)) -> bool {
    |c: (Seq<char>, ComponentView)| c.0 == name
}

/// The components with `item` filed under its name: in place of the one of
/// that name, or behind them all.
pub open spec fn filed(
    components: Seq<(Seq<char>, ComponentView)>,
    item: (Seq<char>, ComponentView),
) -> Seq<(Seq<char>, ComponentView)> {
    match first_index(components, component_named(item.0)) {
        Some(k) => components.update(k, item),
        None => components.push(item),
    }
}

/// The components by name: each filed in turn, so that of two with one name
/// the later stays, where the earlier stood.
pub open spec fn by_name(items: Seq<(Seq<char>, ComponentView)>) -> Seq<
    (Seq<char>, ComponentView),
>
    decreases items.len(),
{
    if items.len() == 0 {
        Seq::empty()
    } else {
        filed(by_name(items.drop_last()), items.last())
    }
}

/// The quirk that the element at a place states: a `Quirk` with a `name` and
/// a `value`.
pub open spec fn quirk_at(nodes: Seq<NodeView>) -> spec_fn(int) -> Option<
    Option<(Seq<char>, Decimal)>,
> {
    |q: int|
        if nodes[q].tag != "Quirk"@ {
            None
        } else {
            match (attribute(nodes[q], "name"@), decimal_attribute(nodes[q], "value"@)) {
                (Some(name), Some(value)) => Some(Some((name, Decimal { micros: value }))),
                _ => None,
            }
        }
}

/// The quirks of the variant that the element at `def` defines: those of its
/// `QuirkList`, of which it has one at most.
pub open spec fn quirks_of(nodes: Seq<NodeView>, def: int) -> Option<Seq<(Seq<char>, Decimal)>> {
    let lists = elements_tagged(nodes, def, "QuirkList"@);
    if lists.len() == 0 {
        Some(Seq::empty())
    } else if lists.len() == 1 {
        collect(element_children(nodes, lists[0]), quirk_at(nodes))
    } else {
        None
    }
}

/// The test that an entry of the list of mechs declares the variant `name`.
pub open spec fn declares(name: Seq<char>) -> spec_fn(MechListElementView) -> bool {
    |e: MechListElementView| e.variant == name
}

/// What the `Mech` element of a variant tells of it.
pub ghost struct VariantData {
    pub display_name: Seq<char>,
    pub max_tons: i32,
    pub base_tons: Decimal,
    pub max_jj: i32,
    pub engine_min: i32,
    pub engine_max: i32,
    pub specialness: Specialness,
}

/// What the `Mech` element `node` tells of its variant.
pub open spec fn variant_data_of(node: NodeView) -> Option<VariantData> {
    let display_name = attribute(node, "Variant"@);
    let max_tons = i32_attribute(node, "MaxTons"@);
    let base_tons = decimal_attribute(node, "BaseTons"@);
    let max_jj = i32_attribute(node, "MaxJumpJets"@);
    let engine_min = i32_attribute(node, "MinEngineRating"@);
    let engine_max = i32_attribute(node, "MaxEngineRating"@);
    let specialness = specialness_of(node);
    if display_name is None || max_tons is None || base_tons is None || max_jj is None
        || engine_min is None || engine_max is None || specialness is None {
        None
    } else {
        Some(
            VariantData {
                display_name: display_name.unwrap(),
                max_tons: max_tons.unwrap(),
                base_tons: Decimal { micros: base_tons.unwrap() },
                max_jj: max_jj.unwrap(),
                engine_min: engine_min.unwrap(),
                engine_max: engine_max.unwrap(),
                specialness: specialness.unwrap(),
            },
        )
    }
}

/// The components of the variant that the element at `def` defines: those
/// of the elements below its one `ComponentList`, by name.
pub open spec fn components_of(
    nodes: Seq<NodeView>,
    def: int,
    defs: Seq<(i32, i32)>,
    internals: Seq<Internal>,
) -> Option<Seq<(Seq<char>, ComponentView)>> {
    match only(elements_tagged(nodes, def, "ComponentList"@)) {
        None => None,
        Some(list) => match collect(
            element_children(nodes, list),
            component_at(nodes, defs, internals),
        ) {
            None => None,
            Some(items) => Some(by_name(items)),
        },
    }
}

/// The variant called `variant_name` that a document defines, with the
/// chassis and faction that the list of mechs declares for it. `None` where
/// the document is malformed or the list does not declare the variant.
pub open spec fn variant_of(
    nodes: Seq<NodeView>,
    variant_name: Seq<char>,
    defs: Seq<(i32, i32)>,
    internals: Seq<Internal>,
    mechlist: Seq<MechListElementView>,
) -> Option<VariantView> {
    match root_element(nodes) {
        None => None,
        Some(def) => if nodes[def].tag != "MechDefinition"@ {
            None
        } else {
            match only(elements_tagged(nodes, def, "Mech"@)) {
                None => None,
                Some(mech) => match (
                    variant_data_of(nodes[mech]),
                    components_of(nodes, def, defs, internals),
                    quirks_of(nodes, def),
                    first_index(mechlist, declares(variant_name)),
                ) {
                    (Some(data), Some(components), Some(quirks), Some(listed)) => Some(
                        VariantView {
                            chassis: mechlist[listed].chassis,
                            variant_name,
                            display_name: data.display_name,
                            specialness: data.specialness,
                            affiliation: mechlist[listed].faction,
                            max_tons: data.max_tons,
                            base_tons: data.base_tons,
                            max_jj: data.max_jj,
                            engine_min: data.engine_min,
                            engine_max: data.engine_max,
                            components,
                            quirks,
                        },
                    ),
                    _ => None,
                },
            }
        },
    }
}

/// Filing a component keeps the names apart.
pub proof fn lemma_filed_distinct(
    components: Seq<(Seq<char>, ComponentView)>,
    item: (Seq<char>, ComponentView),
)
    requires
        names_distinct(components),
    ensures
        names_distinct(filed(components, item)),
{
    crate::search::lemma_first_index(components, component_named(item.0));
    let after = filed(components, item);
    match first_index(components, component_named(item.0)) {
        Some(k) => {
            assert forall|i: int, j: int| 0 <= i < j < after.len() implies (#[trigger] after[i]).0
                != (#[trigger] after[j]).0 by {
                assert(after[i].0 == components[i].0);
                assert(after[j].0 == components[j].0);
            }
        },
        None => {
            assert forall|i: int, j: int| 0 <= i < j < after.len() implies (#[trigger] after[i]).0
                != (#[trigger] after[j]).0 by {
                assert(after[i] == components[i]);
                if j < components.len() {
                    assert(after[j] == components[j]);
                } else {
                    assert(!component_named(item.0)(components[i]));
                }
            }
        },
    }
}

/// Components by name have names that differ.
pub proof fn lemma_by_name_distinct(items: Seq<(Seq<char>, ComponentView)>)
    ensures
        names_distinct(by_name(items)),
    decreases items.len(),
{
    if items.len() > 0 {
        lemma_by_name_distinct(items.drop_last());
        lemma_filed_distinct(by_name(items.drop_last()), items.last());
    }
}

/// Reads how special a variant type is.
pub fn specialness_from(name: &str) -> (r: Result<Specialness, DataError>)
    ensures
        match r {
            Ok(specialness) => specialness_named(name@) == Some(specialness),
            Err(e) => e == DataError::MalformedDocument && specialness_named(name@) is None,
        },
{
    if str_eq(name, "Champion") {
        Ok(Specialness::Champion)
    } else if str_eq(name, "Hero") {
        Ok(Specialness::Hero)
    } else if str_eq(name, "Founder") || str_eq(name, "Special") || str_eq(name, "Phoenix")
        || str_eq(name, "Sarah") {
        Ok(Specialness::Special)
    } else {
        Err(DataError::MalformedDocument)
    }
}

/// The counts of the hardpoints that the component at place `c` lists.
pub fn hardpoint_counts_from(doc: &XmlDocument, c: usize, defs: &HardpointDefs) -> (r: Result<
    HardpointCounts,
    DataError,
>)
    requires
        c < doc.nodes@.len(),
    ensures
        match r {
            Ok(counts) => collect(
                children_tagged(doc@, c as int, "Hardpoint"@),
                hardpoint_use_at(doc@, defs.slot_count@),
            ) matches Some(uses) && counts == counts_of(uses),
            Err(e) => e == DataError::MalformedDocument && collect(
                children_tagged(doc@, c as int, "Hardpoint"@),
                hardpoint_use_at(doc@, defs.slot_count@),
            ) is None,
        },
{
    let found = doc.select(c, false, Some("Hardpoint"));
    let mut counts = HardpointCounts::empty();
    let ghost mut uses: Seq<(HardpointKind, i32)> = Seq::empty();
    let mut k: usize = 0;
    while k < found.len()
        invariant
            k <= found@.len(),
            places(found@) == children_tagged(doc@, c as int, "Hardpoint"@),
            forall|j: int| 0 <= j < found@.len() ==> (#[trigger] found@[j]) < doc.nodes@.len(),
            collect(
                places(found@).subrange(0, k as int),
                hardpoint_use_at(doc@, defs.slot_count@),
            ) == Some(uses),
            counts == counts_of(uses),
        decreases found@.len() - k,
    {
        assert(places(found@).subrange(0, k + 1).drop_last() == places(found@).subrange(
            0,
            k as int,
        ));
        let h = found[k];
        let read = match (doc.required_i32(h, "ID"), doc.required_u8(h, "Type")) {
            (Ok(id), Ok(code)) => {
                if code == 0 || code == 1 || code == 2 || code == 4 {
                    match defs.slots(id) {
                        Some(slots) => Some((HardpointKind::from_int(code as i32), slots)),
                        None => None,
                    }
                } else {
                    None
                }
            },
            _ => None,
        };
        match read {
            None => {
                proof {
                    lemma_collect_fault(
                        places(found@),
                        hardpoint_use_at(doc@, defs.slot_count@),
                        k + 1,
                    );
                }
                return Err(DataError::MalformedDocument);
            },
            Some((kind, slots)) => {
                proof {
                    assert(uses.push((kind, slots)).drop_last() == uses);
                    uses = uses.push((kind, slots));
                }
                counts.insert(kind, slots);
            },
        }
        k = k + 1;
    }
    assert(places(found@).subrange(0, k as int) == places(found@));
    Ok(counts)
}

/// The ids of the internals that the component at place `c` lists.
pub fn internal_ids_from(doc: &XmlDocument, c: usize) -> (r: Result<Vec<i32>, DataError>)
    requires
        c < doc.nodes@.len(),
    ensures
        match r {
            Ok(ids) => collect(children_tagged(doc@, c as int, "Internal"@), internal_id_at(doc@))
                == Some(ids@),
            Err(e) => e == DataError::MalformedDocument && collect(
                children_tagged(doc@, c as int, "Internal"@),
                internal_id_at(doc@),
            ) is None,
        },
{
    let found = doc.select(c, false, Some("Internal"));
    let mut ids: Vec<i32> = Vec::new();
    let mut k: usize = 0;
    while k < found.len()
        invariant
            k <= found@.len(),
            places(found@) == children_tagged(doc@, c as int, "Internal"@),
            forall|j: int| 0 <= j < found@.len() ==> (#[trigger] found@[j]) < doc.nodes@.len(),
            collect(places(found@).subrange(0, k as int), internal_id_at(doc@)) == Some(ids@),
        decreases found@.len() - k,
    {
        assert(places(found@).subrange(0, k + 1).drop_last() == places(found@).subrange(
            0,
            k as int,
        ));
        match doc.required_i32(found[k], "ItemID") {
            Err(e) => {
                proof {
                    lemma_collect_fault(places(found@), internal_id_at(doc@), k + 1);
                }
                return Err(e);
            },
            Ok(id) => {
                ids.push(id);
            },
        }
        k = k + 1;
    }
    assert(places(found@).subrange(0, k as int) == places(found@));
    Ok(ids)
}

/// What is missing among the first ids is missing among them all.
proof fn lemma_internal_slots_fault(internals: Seq<Internal>, ids: Seq<i32>, n: int)
    requires
        0 <= n <= ids.len(),
        internal_slots(internals, ids.subrange(0, n)) is None,
    ensures
        internal_slots(internals, ids) is None,
    decreases ids.len(),
{
    if n == ids.len() {
        assert(ids.subrange(0, n) == ids);
    } else {
        assert(ids.drop_last().subrange(0, n) == ids.subrange(0, n));
        lemma_internal_slots_fault(internals, ids.drop_last(), n);
    }
}

/// The slots of the first internal with the id `id`.
pub fn find_internal(internals: &Vec<Internal>, id: i32) -> (slots: Option<i32>)
    ensures
        match slots {
            Some(s) => first_index(internals@, internal_with(id)) matches Some(k) && internals@[k].slots
                == s,
            None => first_index(internals@, internal_with(id)) is None,
        },
{
    let mut k: usize = 0;
    while k < internals.len()
        invariant
            k <= internals@.len(),
            forall|j: int| 0 <= j < k ==> !internal_with(id)(#[trigger] internals@[j]),
        decreases internals@.len() - k,
    {
        if internals[k].id == id {
            proof {
                lemma_first_found(internals@, internal_with(id), k as int);
            }
            return Some(internals[k].slots);
        }
        k = k + 1;
    }
    proof {
        lemma_first_absent(internals@, internal_with(id));
    }
    None
}

/// The slots that the internals `ids` take together.
pub fn slots_taken(internals: &Vec<Internal>, ids: &Vec<i32>) -> (r: Result<i128, DataError>)
    ensures
        match r {
            Ok(sum) => internal_slots(internals@, ids@) == Some(sum as int) && -(ids@.len()
                * 0x8000_0000) <= sum <= ids@.len() * 0x8000_0000,
            Err(e) => e == DataError::MalformedDocument && internal_slots(internals@, ids@)
                is None,
        },
{
    let mut sum: i128 = 0;
    let mut k: usize = 0;
    while k < ids.len()
        invariant
            k <= ids@.len(),
            internal_slots(internals@, ids@.subrange(0, k as int)) == Some(sum as int),
            -(k * 0x8000_0000) <= sum <= k * 0x8000_0000,
        decreases ids@.len() - k,
    {
        assert(ids@.subrange(0, k + 1).drop_last() == ids@.subrange(0, k as int));
        match find_internal(internals, ids[k]) {
            None => {
                proof {
                    lemma_internal_slots_fault(internals@, ids@, k + 1);
                }
                return Err(DataError::MalformedDocument);
            },
            Some(slots) => {
                sum = sum + slots as i128;
            },
        }
        k = k + 1;
    }
    assert(ids@.subrange(0, k as int) == ids@);
    Ok(sum)
}

/// Whether the component at place `c` may hold an ECM.
pub fn ecm_from(doc: &XmlDocument, c: usize) -> (r: Result<bool, DataError>)
    requires
        c < doc.nodes@.len(),
    ensures
        match r {
            Ok(can) => can_equip_ecm(doc@[c as int]) == Some(can),
            Err(e) => e == DataError::MalformedDocument && can_equip_ecm(doc@[c as int]) is None,
        },
{
    match doc.attribute(c, "CanEquipECM") {
        None => Ok(false),
        Some(text) => match parse_i32(text) {
            Some(v) => Ok(v != 0),
            None => Err(DataError::MalformedDocument),
        },
    }
}

/// The component that the element at place `c` describes, with its name,
/// unless it is one to leave out.
pub fn component_from(
    doc: &XmlDocument,
    c: usize,
    defs: &HardpointDefs,
    internals: &Vec<Internal>,
) -> (r: Result<Option<(String, Component)>, DataError>)
    requires
        c < doc.nodes@.len(),
    ensures
        match r {
            Ok(Some(named)) => component_at(doc@, defs.slot_count@, internals@)(c as int) == Some(
                Some((named.0@, named.1@)),
            ),
            Ok(None) => component_at(doc@, defs.slot_count@, internals@)(c as int) == Some(
                None::<(Seq<char>, ComponentView)>,
            ),
            Err(e) => e == DataError::MalformedDocument && component_at(
                doc@,
                defs.slot_count@,
                internals@,
            )(c as int) is None,
        },
{
    if !doc.has_tag(c, "Component") {
        return Err(DataError::MalformedDocument);
    }
    let name = doc.required(c, "Name")?;
    let hardpoint_count = hardpoint_counts_from(doc, c, defs)?;
    let base_slots = doc.required_i32(c, "Slots")?;
    let internal_ids = internal_ids_from(doc, c)?;
    let hp = doc.required_i32(c, "HP")?;
    let can_equip_ecm = ecm_from(doc, c)?;
    let taken = slots_taken(internals, &internal_ids)?;
    let listed: usize = internal_ids.len();
    let effective: i128 = base_slots as i128 - taken;
    if effective < -0x8000_0000 || effective > 0x7fff_ffff {
        return Err(DataError::MalformedDocument);
    }
    let name_chars = to_chars(name);
    let marker = to_chars("_rear");
    if ends_with(name_chars.as_slice(), marker.as_slice()) {
        if base_slots == 0 && hp == 0 && listed == 0 && hardpoint_count.is_empty() {
            return Ok(None);
        } else {
            return Err(DataError::MalformedDocument);
        }
    }
    let component = Component {
        base_slots,
        effective_slots: effective as i32,
        hp,
        internal_ids,
        hardpoint_count,
        can_equip_ecm,
    };
    Ok(Some((name.to_owned(), component)))
}

/// Files `component` under `name`: in place of the component of that name,
/// or behind them all.
pub fn insert_component(components: &mut Vec<(String, Component)>, name: String, component: Component)
    ensures
        components_view(final(components)@) == filed(
            components_view(old(components)@),
            (name@, component@),
        ),
{
    let ghost before = components_view(components@);
    let ghost item = (name@, component@);
    let mut k: usize = 0;
    while k < components.len()
        invariant
            k <= components@.len(),
            before == components_view(components@),
            components@ == old(components)@,
            item == (name@, component@),
            forall|j: int| 0 <= j < k ==> !component_named(item.0)(#[trigger] before[j]),
        decreases components@.len() - k,
    {
        if str_eq(components[k].0.as_str(), name.as_str()) {
            proof {
                lemma_first_found(before, component_named(item.0), k as int);
            }
            components.set(k, (name, component));
            return ;
        }
        k = k + 1;
    }
    proof {
        lemma_first_absent(before, component_named(item.0));
    }
    components.push((name, component));
}

/// The components of the variant that the element at place `def` defines.
pub fn components_from(
    doc: &XmlDocument,
    def: usize,
    defs: &HardpointDefs,
    internals: &Vec<Internal>,
) -> (r: Result<Vec<(String, Component)>, DataError>)
    requires
        def < doc.nodes@.len(),
    ensures
        match r {
            Ok(components) => components_of(doc@, def as int, defs.slot_count@, internals@)
                == Some(components_view(components@)),
            Err(e) => e == DataError::MalformedDocument && components_of(
                doc@,
                def as int,
                defs.slot_count@,
                internals@,
            ) is None,
        },
{
    let lists = doc.select(def, true, Some("ComponentList"));
    let list = only_one(&lists)?;
    let found = doc.select(list, true, None);
    let mut components: Vec<(String, Component)> = Vec::new();
    let ghost mut items: Seq<(Seq<char>, ComponentView)> = Seq::empty();
    let mut k: usize = 0;
    while k < found.len()
        invariant
            k <= found@.len(),
            only(elements_tagged(doc@, def as int, "ComponentList"@)) == Some(list as int),
            places(found@) == element_children(doc@, list as int),
            forall|j: int| 0 <= j < found@.len() ==> (#[trigger] found@[j]) < doc.nodes@.len(),
            collect(
                places(found@).subrange(0, k as int),
                component_at(doc@, defs.slot_count@, internals@),
            ) == Some(items),
            components_view(components@) == by_name(items),
        decreases found@.len() - k,
    {
        assert(places(found@).subrange(0, k + 1).drop_last() == places(found@).subrange(
            0,
            k as int,
        ));
        match component_from(doc, found[k], defs, internals) {
            Err(e) => {
                proof {
                    lemma_collect_fault(
                        places(found@),
                        component_at(doc@, defs.slot_count@, internals@),
                        k + 1,
                    );
                }
                return Err(e);
            },
            Ok(None) => {},
            Ok(Some(named)) => {
                proof {
                    assert(items.push((named.0@, named.1@)).drop_last() == items);
                    items = items.push((named.0@, named.1@));
                }
                insert_component(&mut components, named.0, named.1);
            },
        }
        k = k + 1;
    }
    assert(places(found@).subrange(0, k as int) == places(found@));
    Ok(components)
}

/// The quirk that the element at place `q` states.
pub fn quirk_from(doc: &XmlDocument, q: usize) -> (r: Result<(String, Decimal), DataError>)
    requires
        q < doc.nodes@.len(),
    ensures
        match r {
            Ok(quirk) => quirk_at(doc@)(q as int) == Some(Some((quirk.0@, quirk.1))),
            Err(e) => e == DataError::MalformedDocument && quirk_at(doc@)(q as int) is None,
        },
{
    if !doc.has_tag(q, "Quirk") {
        return Err(DataError::MalformedDocument);
    }
    let name = doc.required(q, "name")?;
    let value = doc.required_decimal(q, "value")?;
    Ok((name.to_owned(), value))
}

/// The quirks of the variant that the element at place `def` defines.
pub fn quirks_from(doc: &XmlDocument, def: usize) -> (r: Result<Vec<(String, Decimal)>, DataError>)
    requires
        def < doc.nodes@.len(),
    ensures
        match r {
            Ok(quirks) => quirks_of(doc@, def as int) == Some(quirks_view(quirks@)),
            Err(e) => e == DataError::MalformedDocument && quirks_of(doc@, def as int) is None,
        },
{
    let lists = doc.select(def, true, Some("QuirkList"));
    let mut quirks: Vec<(String, Decimal)> = Vec::new();
    if lists.len() == 0 {
        return Ok(quirks);
    }
    if lists.len() > 1 {
        return Err(DataError::MalformedDocument);
    }
    let list = lists[0];
    let found = doc.select(list, true, None);
    let mut k: usize = 0;
    while k < found.len()
        invariant
            k <= found@.len(),
            elements_tagged(doc@, def as int, "QuirkList"@).len() == 1,
            elements_tagged(doc@, def as int, "QuirkList"@)[0] == list,
            places(found@) == element_children(doc@, list as int),
            forall|j: int| 0 <= j < found@.len() ==> (#[trigger] found@[j]) < doc.nodes@.len(),
            collect(places(found@).subrange(0, k as int), quirk_at(doc@)) == Some(
                quirks_view(quirks@),
            ),
        decreases found@.len() - k,
    {
        assert(places(found@).subrange(0, k + 1).drop_last() == places(found@).subrange(
            0,
            k as int,
        ));
        match quirk_from(doc, found[k]) {
            Err(e) => {
                proof {
                    lemma_collect_fault(places(found@), quirk_at(doc@), k + 1);
                }
                return Err(e);
            },
            Ok(quirk) => {
                assert(quirks_view(quirks@.push(quirk)) == quirks_view(quirks@).push(
                    (quirk.0@, quirk.1),
                ));
                quirks.push(quirk);
            },
        }
        k = k + 1;
    }
    assert(places(found@).subrange(0, k as int) == places(found@));
    Ok(quirks)
}

/// What the `Mech` element of a variant tells of it, as read.
pub struct MechElement {
    pub display_name: String,
    pub max_tons: i32,
    pub base_tons: Decimal,
    pub max_jj: i32,
    pub engine_min: i32,
    pub engine_max: i32,
    pub specialness: Specialness,
}

impl View for MechElement {
    type V = VariantData;

    open spec fn view(&self) -> VariantData {
        VariantData {
            display_name: self.display_name@,
            max_tons: self.max_tons,
            base_tons: self.base_tons,
            max_jj: self.max_jj,
            engine_min: self.engine_min,
            engine_max: self.engine_max,
            specialness: self.specialness,
        }
    }
}

/// What the `Mech` element at place `mech` tells of its variant.
pub fn variant_data_from(doc: &XmlDocument, mech: usize) -> (r: Result<MechElement, DataError>)
    requires
        mech < doc.nodes@.len(),
    ensures
        match r {
            Ok(data) => variant_data_of(doc@[mech as int]) == Some(data@),
            Err(e) => e == DataError::MalformedDocument && variant_data_of(doc@[mech as int])
                is None,
        },
{
    let display_name = doc.required(mech, "Variant")?;
    let max_tons = doc.required_i32(mech, "MaxTons")?;
    let base_tons = doc.required_decimal(mech, "BaseTons")?;
    let max_jj = doc.required_i32(mech, "MaxJumpJets")?;
    let engine_min = doc.required_i32(mech, "MinEngineRating")?;
    let engine_max = doc.required_i32(mech, "MaxEngineRating")?;
    let specialness = match doc.attribute(mech, "VariantType") {
        None => Specialness::Normal,
        Some(name) => specialness_from(name)?,
    };
    Ok(
        MechElement {
            display_name: display_name.to_owned(),
            max_tons,
            base_tons,
            max_jj,
            engine_min,
            engine_max,
            specialness,
        },
    )
}

/// The first entry of the list of mechs that declares the variant `name`.
pub fn find_declared(mechlist: &Vec<MechListElement>, name: &str) -> (found: Option<usize>)
    ensures
        match found {
            Some(k) => first_index(mech_list_view(mechlist@), declares(name@)) == Some(k as int)
                && k < mechlist@.len(),
            None => first_index(mech_list_view(mechlist@), declares(name@)) is None,
        },
{
    let ghost list = mech_list_view(mechlist@);
    let mut k: usize = 0;
    while k < mechlist.len()
        invariant
            k <= mechlist@.len(),
            list == mech_list_view(mechlist@),
            forall|j: int| 0 <= j < k ==> !declares(name@)(#[trigger] list[j]),
        decreases mechlist@.len() - k,
    {
        if str_eq(mechlist[k].variant.as_str(), name) {
            proof {
                lemma_first_found(list, declares(name@), k as int);
            }
            return Some(k);
        }
        k = k + 1;
    }
    proof {
        lemma_first_absent(list, declares(name@));
    }
    None
}

/// The variant called `variant_name` that `doc` defines.
pub fn variant_from(
    variant_name: &str,
    doc: &XmlDocument,
    hardpoint_defs: &HardpointDefs,
    internals: &Vec<Internal>,
    mechlist: &Vec<MechListElement>,
) -> (r: Result<Variant, DataError>)
    ensures
        match r {
            Ok(variant) => variant_of(
                doc@,
                variant_name@,
                hardpoint_defs.slot_count@,
                internals@,
                mech_list_view(mechlist@),
            ) == Some(variant@) && variant.well_formed(),
            Err(e) => e == DataError::MalformedDocument && variant_of(
                doc@,
                variant_name@,
                hardpoint_defs.slot_count@,
                internals@,
                mech_list_view(mechlist@),
            ) is None,
        },
{
    let def = doc.root_element()?;
    if !doc.has_tag(def, "MechDefinition") {
        return Err(DataError::MalformedDocument);
    }
    let found = doc.select(def, true, Some("Mech"));
    let mech = only_one(&found)?;
    let data = variant_data_from(doc, mech)?;
    let components = components_from(doc, def, hardpoint_defs, internals)?;
    let quirks = quirks_from(doc, def)?;
    let listed = match find_declared(mechlist, variant_name) {
        Some(listed) => listed,
        None => {
            return Err(DataError::MalformedDocument);
        },
    };
    proof {
        let items = collect(
            element_children(
                doc@,
                only(elements_tagged(doc@, def as int, "ComponentList"@)).unwrap(),
            ),
            component_at(doc@, hardpoint_defs.slot_count@, internals@),
        ).unwrap();
        lemma_by_name_distinct(items);
    }
    Ok(
        Variant {
            chassis: mechlist[listed].chassis.clone(),
            variant_name: variant_name.to_owned(),
            display_name: data.display_name,
            specialness: data.specialness,
            affiliation: mechlist[listed].faction,
            max_tons: data.max_tons,
            base_tons: data.base_tons,
            max_jj: data.max_jj,
            engine_min: data.engine_min,
            engine_max: data.engine_max,
            components,
            quirks,
        },
    )
}

/// The variant called `variant_name` that the text `variant_content`
/// defines.
pub fn parse_mech_variant(
    variant_name: &str,
    variant_content: &str,
    hardpoint_defs: &HardpointDefs,
    internals: &Vec<Internal>,
    mechlist: &Vec<MechListElement>,
) -> (r: Result<Variant, DataError>)
    ensures
        match r {
            Ok(variant) => {
                &&& variant.well_formed()
                &&& xml_parsed(variant_content@) matches Some(nodes) && variant_of(
                    nodes,
                    variant_name@,
                    hardpoint_defs.slot_count@,
                    internals@,
                    mech_list_view(mechlist@),
                ) == Some(variant@)
            },
            Err(e) => e == DataError::MalformedDocument && (xml_parsed(variant_content@) matches Some(
                nodes,
            ) ==> variant_of(
                nodes,
                variant_name@,
                hardpoint_defs.slot_count@,
                internals@,
                mech_list_view(mechlist@),
            ) is None),
        },
{
    let doc = XmlDocument::parse(variant_content)?;
    variant_from(variant_name, &doc, hardpoint_defs, internals, mechlist)
}

} // verus!
