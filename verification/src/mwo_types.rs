use vstd::prelude::*;

use crate::text::str_eq;
use crate::text::strings_view;

verus! {

/// How many `Decimal` units make one whole.
pub const DECIMAL_SCALE: i64 = 1_000_000;

/// A decimal quantity (tons, seconds, speeds, quirk values) held exactly as a
/// whole number of millionths.
#[derive(Clone, Copy, Debug, PartialEq, Eq, Structural, Hash)]
pub struct Decimal {
    pub micros: i64,
}

impl Decimal {
    /// The quantity `whole`, with no fractional part.
    pub fn from_whole(whole: i32) -> (d: Decimal)
        ensures
            d.micros == whole * DECIMAL_SCALE,
    {
        let wide: i64 = whole as i64;
        Decimal { micros: wide * DECIMAL_SCALE }
    }

    pub fn is_zero(&self) -> (z: bool)
        ensures
            z == (self.micros == 0),
    {
        self.micros == 0
    }
}

pub struct MechdataCombined {
    pub mech_variants: Vec<Variant>,
    pub equipment: Equipment,
}

pub struct Equipment {
    pub weapons: Vec<Weapon>,
    pub engines: Vec<Engine>,
}

#[derive(Debug, Clone)]
pub struct Weapon {
    pub name: String,
    pub hardpoint_kind: HardpointKind,
    /// The names under which quirks refer to this weapon, in the order in
    /// which the game data lists them.
    pub hardpoint_aliases: Vec<String>,
    pub faction: Affiliation,
    pub slots: i32,
    pub tons: Decimal,
    pub id: i32,
    pub cooldown: Decimal,
    pub speed: i32,
    pub ammo_type: Option<String>,
}

#[derive(Debug)]
pub struct Engine {
    pub id: i32,
    pub name: String,
    pub rating: i32,
    pub heatsinks: i32,
    pub weight: Decimal,
    pub side_slots: i32,
    pub factions: Vec<Affiliation>,
}

#[derive(Debug, Copy, Clone, PartialEq, Eq, Structural, PartialOrd, Ord, Hash)]
pub enum Affiliation {
    InnerSphere,
    Clan,
}

#[derive(Debug, Copy, Clone, PartialEq, Eq, Structural, Hash)]
pub enum StructureType {
    Std,
    Endo,
}

#[derive(Debug, Copy, Clone, PartialEq, Eq, Structural, Hash)]
pub enum ArmorType {
    Std,
    Ferro,
    Stealth,
    LightFerro,
}

#[derive(Debug, Copy, Clone, PartialEq, Eq, Structural, Hash)]
pub enum HSType {
    Single,
    Double,
}

/// The kind of weapon that a hardpoint accepts.
#[derive(Clone, Copy, Debug, PartialEq, Eq, Structural, PartialOrd, Ord, Hash)]
pub enum HardpointKind {
    Ballistic,
    Energy,
    Missile,
    AMS,
}

impl HardpointKind {
    /// The number that the game data writes for this kind.
    pub open spec fn code(self) -> int {
        match self {
            HardpointKind::Ballistic => 0,
            HardpointKind::Energy => 1,
            HardpointKind::Missile => 2,
            HardpointKind::AMS => 4,
        }
    }

    /// The kind that the number `x` stands for; meant for the numbers of
    /// kinds.
    pub open spec fn with_code(x: int) -> HardpointKind {
        if x == 0 {
            HardpointKind::Ballistic
        } else if x == 1 {
            HardpointKind::Energy
        } else if x == 2 {
            HardpointKind::Missile
        } else {
            HardpointKind::AMS
        }
    }

    /// Whether `x` is the number of some kind.
    pub open spec fn is_code(x: int) -> bool {
        x == 0 || x == 1 || x == 2 || x == 4
    }

    /// The kind that the game data calls `name`, if there is one.
    pub open spec fn named(name: Seq<char>) -> Option<HardpointKind> {
        if name == "Ballistic"@ {
            Some(HardpointKind::Ballistic)
        } else if name == "Energy"@ {
            Some(HardpointKind::Energy)
        } else if name == "Missile"@ {
            Some(HardpointKind::Missile)
        } else if name == "AMS"@ {
            Some(HardpointKind::AMS)
        } else {
            None
        }
    }

    pub fn to_int(&self) -> (code: i32)
        ensures
            code == self.code(),
    {
        match self {
            HardpointKind::Ballistic => 0,
            HardpointKind::Energy => 1,
            HardpointKind::Missile => 2,
            HardpointKind::AMS => 4,
        }
    }

    pub fn from_int(x: i32) -> (kind: Self)
        requires
            Self::is_code(x as int),
        ensures
            kind == Self::with_code(x as int),
            kind.code() == x,
    {
        if x == 0 {
            HardpointKind::Ballistic
        } else if x == 1 {
            HardpointKind::Energy
        } else if x == 2 {
            HardpointKind::Missile
        } else {
            HardpointKind::AMS
        }
    }

    /// Reads a kind from its name; the names are case-sensitive.
    pub fn from_name(s: &str) -> (kind: Option<Self>)
        ensures
            kind == Self::named(s@),
    {
        if str_eq(s, "Ballistic") {
            Some(HardpointKind::Ballistic)
        } else if str_eq(s, "Energy") {
            Some(HardpointKind::Energy)
        } else if str_eq(s, "Missile") {
            Some(HardpointKind::Missile)
        } else if str_eq(s, "AMS") {
            Some(HardpointKind::AMS)
        } else {
            None
        }
    }
}

#[derive(Debug, Copy, Clone, PartialEq, Eq, Structural, Hash)]
pub enum Specialness {
    Normal,
    Champion,
    Hero,
    Special,
    Founder,
    Phoenix,
    Sarah,
}

/// For each kind of hardpoint, how many weapons of that kind a component can
/// mount; a kind that the component does not offer has no entry.
#[derive(Debug, Copy, Clone, PartialEq, Eq, Structural, Hash)]
pub struct HardpointCounts {
    pub ballistic: Option<i32>,
    pub energy: Option<i32>,
    pub missile: Option<i32>,
    pub ams: Option<i32>,
}

impl HardpointCounts {
    pub open spec fn spec_get(self, kind: HardpointKind) -> Option<i32> {
        match kind {
            HardpointKind::Ballistic => self.ballistic,
            HardpointKind::Energy => self.energy,
            HardpointKind::Missile => self.missile,
            HardpointKind::AMS => self.ams,
        }
    }

    pub open spec fn spec_empty() -> HardpointCounts {
        HardpointCounts { ballistic: None, energy: None, missile: None, ams: None }
    }

    /// The counts after `kind` has been set to `count`.
    pub open spec fn spec_insert(self, kind: HardpointKind, count: i32) -> HardpointCounts {
        match kind {
            HardpointKind::Ballistic => HardpointCounts { ballistic: Some(count), ..self },
            HardpointKind::Energy => HardpointCounts { energy: Some(count), ..self },
            HardpointKind::Missile => HardpointCounts { missile: Some(count), ..self },
            HardpointKind::AMS => HardpointCounts { ams: Some(count), ..self },
        }
    }

    /// The map from kind to count that these counts stand for.
    pub open spec fn as_map(self) -> Map<HardpointKind, int> {
        Map::new(
            |kind: HardpointKind| self.spec_get(kind) is Some,
            |kind: HardpointKind| self.spec_get(kind).unwrap() as int,
        )
    }

    pub fn empty() -> (counts: HardpointCounts)
        ensures
            counts == Self::spec_empty(),
            counts.as_map() == Map::<HardpointKind, int>::empty(),
    {
        let counts = HardpointCounts { ballistic: None, energy: None, missile: None, ams: None };
        counts
    }

    pub fn get(&self, kind: HardpointKind) -> (count: Option<i32>)
        ensures
            count == self.spec_get(kind),
    {
        match kind {
            HardpointKind::Ballistic => self.ballistic,
            HardpointKind::Energy => self.energy,
            HardpointKind::Missile => self.missile,
            HardpointKind::AMS => self.ams,
        }
    }

    pub fn insert(&mut self, kind: HardpointKind, count: i32)
        ensures
            *final(self) == old(self).spec_insert(kind, count),
            final(self).as_map() == old(self).as_map().insert(kind, count as int),
    {
        match kind {
            HardpointKind::Ballistic => {
                self.ballistic = Some(count);
            },
            HardpointKind::Energy => {
                self.energy = Some(count);
            },
            HardpointKind::Missile => {
                self.missile = Some(count);
            },
            HardpointKind::AMS => {
                self.ams = Some(count);
            },
        }
    }

    pub fn is_empty(&self) -> (e: bool)
        ensures
            e == (*self == Self::spec_empty()),
    {
        self.ballistic.is_none() && self.energy.is_none() && self.missile.is_none()
            && self.ams.is_none()
    }
}

#[derive(Debug, Clone)]
pub struct Component {
    pub base_slots: i32,
    /// `base_slots` less the slots that the fixed internals take.
    pub effective_slots: i32,
    pub hp: i32,
    pub internal_ids: Vec<i32>,
    pub hardpoint_count: HardpointCounts,
    pub can_equip_ecm: bool,
}

#[derive(Debug, Clone)]
pub struct Variant {
    pub chassis: String,
    pub variant_name: String,
    pub display_name: String,
    pub specialness: Specialness,
    pub affiliation: Affiliation,
    pub max_tons: i32,
    pub base_tons: Decimal,
    pub max_jj: i32,
    pub engine_min: i32,
    pub engine_max: i32,
    /// The components by name; a well-formed variant names none twice.
    pub components: Vec<(String, Component)>,
    /// The quirks in document order; a name may occur more than once.
    pub quirks: Vec<(String, Decimal)>,
}

/// No two of the components have one name.
pub open spec fn names_distinct(components: Seq<(Seq<char>, ComponentView)>) -> bool {
    forall|i: int, j: int|
        0 <= i < j < components.len() ==> (#[trigger] components[i]).0 != (
        #[trigger] components[j]).0
}

impl Variant {
    /// No two components carry the same name.
    pub open spec fn well_formed(&self) -> bool {
        names_distinct(components_view(self.components@))
    }
}

/// What a `Weapon` stands for.
pub ghost struct WeaponView {
    pub name: Seq<char>,
    pub hardpoint_kind: HardpointKind,
    pub hardpoint_aliases: Seq<Seq<char>>,
    pub faction: Affiliation,
    pub slots: i32,
    pub tons: Decimal,
    pub id: i32,
    pub cooldown: Decimal,
    pub speed: i32,
    pub ammo_type: Option<Seq<char>>,
}

impl View for Weapon {
    type V = WeaponView;

    open spec fn view(&self) -> WeaponView {
        WeaponView {
            name: self.name@,
            hardpoint_kind: self.hardpoint_kind,
            hardpoint_aliases: strings_view(self.hardpoint_aliases@),
            faction: self.faction,
            slots: self.slots,
            tons: self.tons,
            id: self.id,
            cooldown: self.cooldown,
            speed: self.speed,
            ammo_type: match self.ammo_type {
                Some(a) => Some(a@),
                None => None,
            },
        }
    }
}

/// What a `Component` stands for.
pub ghost struct ComponentView {
    pub base_slots: i32,
    pub effective_slots: i32,
    pub hp: i32,
    pub internal_ids: Seq<i32>,
    pub hardpoint_count: HardpointCounts,
    pub can_equip_ecm: bool,
}

impl View for Component {
    type V = ComponentView;

    open spec fn view(&self) -> ComponentView {
        ComponentView {
            base_slots: self.base_slots,
            effective_slots: self.effective_slots,
            hp: self.hp,
            internal_ids: self.internal_ids@,
            hardpoint_count: self.hardpoint_count,
            can_equip_ecm: self.can_equip_ecm,
        }
    }
}

/// What a run of named components stands for.
pub open spec fn components_view(components: Seq<(String, Component)>) -> Seq<
    (Seq<char>, ComponentView),
> {
    components.map_values(|c: (String, Component)| (c.0@, c.1@))
}

/// What a run of quirks stands for.
pub open spec fn quirks_view(quirks: Seq<(String, Decimal)>) -> Seq<(Seq<char>, Decimal)> {
    quirks.map_values(|q: (String, Decimal)| (q.0@, q.1))
}

/// What a `Variant` stands for.
pub ghost struct VariantView {
    pub chassis: Seq<char>,
    pub variant_name: Seq<char>,
    pub display_name: Seq<char>,
    pub specialness: Specialness,
    pub affiliation: Affiliation,
    pub max_tons: i32,
    pub base_tons: Decimal,
    pub max_jj: i32,
    pub engine_min: i32,
    pub engine_max: i32,
    pub components: Seq<(Seq<char>, ComponentView)>,
    pub quirks: Seq<(Seq<char>, Decimal)>,
}

impl View for Variant {
    type V = VariantView;

    open spec fn view(&self) -> VariantView {
        VariantView {
            chassis: self.chassis@,
            variant_name: self.variant_name@,
            display_name: self.display_name@,
            specialness: self.specialness,
            affiliation: self.affiliation,
            max_tons: self.max_tons,
            base_tons: self.base_tons,
            max_jj: self.max_jj,
            engine_min: self.engine_min,
            engine_max: self.engine_max,
            components: components_view(self.components@),
            quirks: quirks_view(self.quirks@),
        }
    }
}

/// What each weapon of a run stands for.
pub open spec fn weapons_view(weapons: Seq<Weapon>) -> Seq<WeaponView> {
    weapons.map_values(|w: Weapon| w@)
}

/// What each variant of a run stands for.
pub open spec fn variants_view(variants: Seq<Variant>) -> Seq<VariantView> {
    variants.map_values(|v: Variant| v@)
}

} // verus!
