use vstd::prelude::*;

use crate::error::DataError;
use crate::extract::collect;
use crate::extract::decimal_attribute;
use crate::extract::i32_attribute;
use crate::extract::lemma_collect_fault;
use crate::internals::list_element;
use crate::mwo_types::weapons_view;
use crate::mwo_types::Affiliation;
use crate::mwo_types::Decimal;
use crate::mwo_types::HardpointKind;
use crate::mwo_types::Weapon;
use crate::mwo_types::WeaponView;
use crate::search::first_index;
use crate::search::is_first;
use crate::search::lemma_first_absent;
use crate::search::lemma_first_found;
use crate::text::split;
use crate::text::split_spec;
use crate::text::str_eq;
use crate::text::strings_view;
use crate::xml_doc::attribute;
use crate::xml_doc::children;
use crate::xml_doc::children_tagged;
use crate::xml_doc::places;
use crate::xml_doc::NodeView;
use crate::xml_doc::XmlDocument;

verus! {

/// The faction that the game data calls `name`.
pub open spec fn faction_named(name: Seq<char>) -> Option<Affiliation> {
    if name == "Clan"@ {
        Some(Affiliation::Clan)
    } else if name == "InnerSphere"@ {
        Some(Affiliation::InnerSphere)
    } else {
        None
    }
}

/// The weapons that the game data lists and the catalog leaves out.
pub open spec fn excluded(name: Seq<char>) -> bool {
    name == "DropShipLargePulseLaser"@ || name == "FakeMachineGun"@
}

/// The test that the node at a place has the id `id`.
pub open spec fn has_id(nodes: Seq<NodeView>, id: Seq<char>) -> spec_fn(int) -> bool {
    |i: int| attribute(nodes[i], "id"@) == Some(id)
}

/// The node whose stat block the weapon at `w` uses: where it names another
/// in `InheritFrom`, the first node of the list with that id; else itself.
pub open spec fn stats_source(nodes: Seq<NodeView>, list: int, w: int) -> Option<int> {
    match attribute(nodes[w], "InheritFrom"@) {
        None => Some(w),
        Some(id) => match first_index(children(nodes, list), has_id(nodes, id)) {
            Some(k) => Some(children(nodes, list)[k]),
            None => None,
        },
    }
}

/// The stat block of the weapon at `w`: the first `WeaponStats` below the
/// node whose stats it uses.
pub open spec fn stats_of(nodes: Seq<NodeView>, list: int, w: int) -> Option<int> {
    match stats_source(nodes, list, w) {
        None => None,
        Some(source) => {
            let found = children_tagged(nodes, source, "WeaponStats"@);
            if found.len() > 0 {
                Some(found[0])
            } else {
                None
            }
        },
    }
}

/// The test that an alias is the name of a kind of hardpoint.
pub open spec fn names_kind() -> spec_fn(Seq<char>) -> bool {
    |alias: Seq<char>| HardpointKind::named(alias) is Some
}

/// The kind of hardpoint that a weapon with these aliases mounts on: the
/// first of them that names one.
pub open spec fn kind_of(aliases: Seq<Seq<char>>) -> Option<HardpointKind> {
    match first_index(aliases, names_kind()) {
        Some(k) => HardpointKind::named(aliases[k]),
        None => None,
    }
}

/// The weapon that the node at a place describes. Its id, name, aliases and
/// faction are its own, its slots, tonnage, cooldown, speed and ammunition
/// those of its stat block. A node that is no element is left out, and so is
/// a weapon that the catalog excludes.
pub open spec fn weapon_at(nodes: Seq<NodeView>, list: int) -> spec_fn(int) -> Option<
    Option<WeaponView>,
> {
    |w: int|
        if !nodes[w].is_element {
            Some(None)
        } else if nodes[w].tag != "Weapon"@ {
            None
        } else {
            match stats_of(nodes, list, w) {
                None => None,
                Some(stats) => {
                    let id = i32_attribute(nodes[w], "id"@);
                    let name = attribute(nodes[w], "name"@);
                    let aliases = attribute(nodes[w], "HardpointAliases"@);
                    let faction = match attribute(nodes[w], "faction"@) {
                        Some(f) => faction_named(f),
                        None => None,
                    };
                    let slots = i32_attribute(nodes[stats], "slots"@);
                    let tons = decimal_attribute(nodes[stats], "tons"@);
                    let cooldown = decimal_attribute(nodes[stats], "cooldown"@);
                    let speed = i32_attribute(nodes[stats], "speed"@);
                    if id is None || name is None || aliases is None || faction is None
                        || slots is None || tons is None || cooldown is None || speed is None {
                        None
                    } else if excluded(name.unwrap()) {
                        Some(None)
                    } else {
                        match kind_of(split_spec(aliases.unwrap(), ',')) {
                            None => None,
                            Some(kind) => Some(
                                Some(
                                    WeaponView {
                                        name: name.unwrap(),
                                        hardpoint_kind: kind,
                                        hardpoint_aliases: split_spec(aliases.unwrap(), ','),
                                        faction: faction.unwrap(),
                                        slots: slots.unwrap(),
                                        tons: Decimal { micros: tons.unwrap() },
                                        id: id.unwrap(),
                                        cooldown: Decimal { micros: cooldown.unwrap() },
                                        speed: speed.unwrap(),
                                        ammo_type: attribute(nodes[stats], "ammoType"@),
                                    },
                                ),
                            ),
                        }
                    }
                },
            }
        }
}

/// The weapons that a document lists: those of the nodes below its
/// `WeaponList`, in document order. `None` where the document is malformed.
pub open spec fn weapons_of(nodes: Seq<NodeView>) -> Option<Seq<WeaponView>> {
    match list_element(nodes, "WeaponList"@) {
        None => None,
        Some(list) => collect(children(nodes, list), weapon_at(nodes, list)),
    }
}

/// Reads a faction from its name.
pub fn faction_from(name: &str) -> (r: Result<Affiliation, DataError>)
    ensures
        match r {
            Ok(faction) => faction_named(name@) == Some(faction),
            Err(e) => e == DataError::MalformedDocument && faction_named(name@) is None,
        },
{
    if str_eq(name, "Clan") {
        Ok(Affiliation::Clan)
    } else if str_eq(name, "InnerSphere") {
        Ok(Affiliation::InnerSphere)
    } else {
        Err(DataError::MalformedDocument)
    }
}

/// The kind of hardpoint that a weapon with these aliases mounts on.
pub fn kind_from(aliases: &Vec<String>) -> (kind: Option<HardpointKind>)
    ensures
        kind == kind_of(strings_view(aliases@)),
{
    let ghost views = strings_view(aliases@);
    let mut k: usize = 0;
    while k < aliases.len()
        invariant
            k <= aliases@.len(),
            views == strings_view(aliases@),
            forall|j: int| 0 <= j < k ==> !names_kind()(#[trigger] views[j]),
        decreases aliases@.len() - k,
    {
        match HardpointKind::from_name(aliases[k].as_str()) {
            Some(kind) => {
                proof {
                    lemma_first_found(views, names_kind(), k as int);
                }
                return Some(kind);
            },
            None => {},
        }
        k = k + 1;
    }
    proof {
        lemma_first_absent(views, names_kind());
    }
    None
}

/// The stat block of the weapon at place `w`, one of the nodes `siblings` of
/// the list.
pub fn stats_from(doc: &XmlDocument, siblings: &Vec<usize>, list: usize, w: usize) -> (r: Result<
    usize,
    DataError,
>)
    requires
        w < doc.nodes@.len(),
        places(siblings@) == children(doc@, list as int),
        forall|j: int| 0 <= j < siblings@.len() ==> (#[trigger] siblings@[j]) < doc.nodes@.len(),
    ensures
        match r {
            Ok(stats) => stats_of(doc@, list as int, w as int) == Some(stats as int) && stats
                < doc.nodes@.len(),
            Err(e) => e == DataError::MalformedDocument && stats_of(doc@, list as int, w as int)
                is None,
        },
{
    let source: usize = match doc.attribute(w, "InheritFrom") {
        None => w,
        Some(id) => {
            let ghost test = has_id(doc@, id@);
            let mut k: usize = 0;
            let mut found: Option<usize> = None;
            while k < siblings.len() && found.is_none()
                invariant
                    k <= siblings@.len(),
                    test == has_id(doc@, id@),
                    places(siblings@) == children(doc@, list as int),
                    forall|j: int|
                        0 <= j < siblings@.len() ==> (#[trigger] siblings@[j]) < doc.nodes@.len(),
                    match found {
                        None => forall|j: int|
                            0 <= j < k ==> !test(#[trigger] places(siblings@)[j]),
                        Some(source) => {
                            &&& source < doc.nodes@.len()
                            &&& first_index(places(siblings@), test) matches Some(at)
                                && places(siblings@)[at] == source
                        },
                    },
                decreases siblings@.len() - k + if found is None { 1int } else { 0int },
            {
                let sibling = siblings[k];
                let same = match doc.attribute(sibling, "id") {
                    Some(own) => str_eq(own, id),
                    None => false,
                };
                if same {
                    proof {
                        lemma_first_found(places(siblings@), test, k as int);
                    }
                    found = Some(sibling);
                } else {
                    k = k + 1;
                }
            }
            match found {
                Some(source) => source,
                None => {
                    proof {
                        lemma_first_absent(places(siblings@), test);
                    }
                    return Err(DataError::MalformedDocument);
                },
            }
        },
    };
    let blocks = doc.select(source, false, Some("WeaponStats"));
    if blocks.len() == 0 {
        return Err(DataError::MalformedDocument);
    }
    Ok(blocks[0])
}

/// The weapon that the node at place `w` describes, unless it is one to
/// leave out.
pub fn weapon_from(doc: &XmlDocument, siblings: &Vec<usize>, list: usize, w: usize) -> (r: Result<
    Option<Weapon>,
    DataError,
>)
    requires
        w < doc.nodes@.len(),
        places(siblings@) == children(doc@, list as int),
        forall|j: int| 0 <= j < siblings@.len() ==> (#[trigger] siblings@[j]) < doc.nodes@.len(),
    ensures
        match r {
            Ok(Some(weapon)) => weapon_at(doc@, list as int)(w as int) == Some(Some(weapon@)),
            Ok(None) => weapon_at(doc@, list as int)(w as int) == Some(None::<WeaponView>),
            Err(e) => e == DataError::MalformedDocument && weapon_at(doc@, list as int)(w as int)
                is None,
        },
{
    if !doc.is_element(w) {
        return Ok(None);
    }
    if !doc.has_tag(w, "Weapon") {
        return Err(DataError::MalformedDocument);
    }
    let stats = stats_from(doc, siblings, list, w)?;
    let id = doc.required_i32(w, "id")?;
    let name = doc.required(w, "name")?;
    let aliases = doc.required(w, "HardpointAliases")?;
    let faction = faction_from(doc.required(w, "faction")?)?;
    let slots = doc.required_i32(stats, "slots")?;
    let tons = doc.required_decimal(stats, "tons")?;
    let cooldown = doc.required_decimal(stats, "cooldown")?;
    let speed = doc.required_i32(stats, "speed")?;
    if str_eq(name, "DropShipLargePulseLaser") || str_eq(name, "FakeMachineGun") {
        return Ok(None);
    }
    let hardpoint_aliases = split(aliases, ',');
    let hardpoint_kind = match kind_from(&hardpoint_aliases) {
        Some(kind) => kind,
        None => {
            return Err(DataError::MalformedDocument);
        },
    };
    let ammo_type = match doc.attribute(stats, "ammoType") {
        Some(ammo) => Some(ammo.to_owned()),
        None => None,
    };
    Ok(
        Some(
            Weapon {
                name: name.to_owned(),
                hardpoint_kind,
                hardpoint_aliases,
                faction,
                slots,
                tons,
                id,
                cooldown,
                speed,
                ammo_type,
            },
        ),
    )
}

/// The weapons that `doc` lists.
pub fn weapons_from(doc: &XmlDocument) -> (r: Result<Vec<Weapon>, DataError>)
    ensures
        match r {
            Ok(weapons) => weapons_of(doc@) == Some(weapons_view(weapons@)),
            Err(e) => e == DataError::MalformedDocument && weapons_of(doc@) is None,
        },
{
    let list = doc.list_element("WeaponList")?;
    let found = doc.select(list, false, None);
    let mut weapons: Vec<Weapon> = Vec::new();
    let mut k: usize = 0;
    while k < found.len()
        invariant
            k <= found@.len(),
            list_element(doc@, "WeaponList"@) == Some(list as int),
            places(found@) == children(doc@, list as int),
            forall|j: int| 0 <= j < found@.len() ==> (#[trigger] found@[j]) < doc.nodes@.len(),
            collect(places(found@).subrange(0, k as int), weapon_at(doc@, list as int)) == Some(
                weapons_view(weapons@),
            ),
        decreases found@.len() - k,
    {
        assert(places(found@).subrange(0, k + 1).drop_last() == places(found@).subrange(
            0,
            k as int,
        ));
        match weapon_from(doc, &found, list, found[k]) {
            Err(e) => {
                proof {
                    lemma_collect_fault(places(found@), weapon_at(doc@, list as int), k + 1);
                }
                return Err(e);
            },
            Ok(None) => {},
            Ok(Some(weapon)) => {
                weapons.push(weapon);
            },
        }
        k = k + 1;
    }
    assert(places(found@).subrange(0, k as int) == places(found@));
    Ok(weapons)
}

} // verus!
