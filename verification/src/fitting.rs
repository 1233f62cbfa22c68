use vstd::arithmetic::div_mod::lemma_fundamental_div_mod_converse;
use vstd::prelude::*;

use crate::mwo_types::Affiliation;
use crate::mwo_types::Component;
use crate::mwo_types::Decimal;
use crate::mwo_types::Engine;
use crate::mwo_types::Equipment;
use crate::mwo_types::HardpointKind;
use crate::mwo_types::Variant;
use crate::mwo_types::Weapon;
use crate::search::first_index;
use crate::search::is_first;
use crate::search::lemma_first_absent;
use crate::search::lemma_first_found;
use crate::text::str_eq;

verus! {

/// Whether a loadout fits a variant. `Maybe` stands for "not worked out yet";
/// no evaluation returns it.
#[derive(Debug, PartialEq, Eq, Structural, Clone, Copy)]
pub enum TriState {
    Maybe,
    Yes,
    No,
}

impl Default for TriState {
    fn default() -> (state: Self)
        ensures
            state == TriState::Maybe,
    {
        TriState::Maybe
    }
}

#[derive(Debug, PartialEq, Eq, Structural, Clone, Copy)]
pub struct FitStatus {
    pub fits: TriState,
}

impl Default for FitStatus {
    fn default() -> (status: Self)
        ensures
            status.fits == TriState::Maybe,
    {
        FitStatus { fits: TriState::Maybe }
    }
}

/// What is asked of a variant: the weapons with how many of each, and what
/// else the mech has to carry and reach.
#[derive(Debug)]
pub struct Loadout<'a> {
    pub weapons: Vec<(&'a Weapon, i32)>,
    pub want_ecm: bool,
    pub min_speed: Decimal,
    pub min_heatsinks: i32,
    /// `"none"` or `"full"`.
    pub want_armor: &'a str,
    pub ammo_t: Decimal,
}

/// A loadout of one weapon, as the evaluation reads it.
pub ghost struct LoadoutView {
    pub weapon: Weapon,
    pub amount: int,
    pub min_speed: int,
    pub min_heatsinks: int,
    pub full_armor: bool,
    pub ammo_t: int,
}

impl<'a> Loadout<'a> {
    /// The loadout names one weapon and an armor scheme that is known.
    pub open spec fn well_formed(&self) -> bool {
        &&& self.weapons@.len() == 1
        &&& (self.want_armor@ == "none"@ || self.want_armor@ == "full"@)
    }
}

impl<'a> View for Loadout<'a> {
    type V = LoadoutView;

    open spec fn view(&self) -> LoadoutView {
        LoadoutView {
            weapon: *self.weapons@[0].0,
            amount: self.weapons@[0].1 as int,
            min_speed: self.min_speed.micros as int,
            min_heatsinks: self.min_heatsinks as int,
            full_armor: self.want_armor@ == "full"@,
            ammo_t: self.ammo_t.micros as int,
        }
    }
}

/// Tonnage is compared in parts of a millionth of a ton: 1680 to each, so
/// that the armor's weight, a division by 1.12 or by 1.2, is a whole number.
pub const TONNAGE_PARTS: i128 = 1680;

/// The armor points that full armor puts on one component: 18 on the head,
/// twice the hit points elsewhere.
pub open spec fn component_armor_points(name: Seq<char>, component: Component) -> int {
    if name == "head"@ {
        18
    } else {
        component.hp * 2
    }
}

/// The armor points of full armor on all components.
pub open spec fn armor_points(components: Seq<(String, Component)>) -> int
    decreases components.len(),
{
    if components.len() == 0 {
        0
    } else {
        armor_points(components.drop_last()) + component_armor_points(
            components.last().0@,
            components.last().1,
        )
    }
}

/// The weight of `points` armor points in tonnage parts: 0.03125 ton a point,
/// divided by 1.12 for the Inner Sphere and by 1.2 for the Clans.
pub open spec fn armor_weight_parts(affiliation: Affiliation, points: int) -> int {
    match affiliation {
        Affiliation::InnerSphere => points * 31_250 * 1500,
        Affiliation::Clan => points * 31_250 * 1400,
    }
}

/// Whether an engine of `rating` moves a mech of `max_tons` at `min_speed`
/// (in millionths) or faster: the speed is `rating / max_tons * 16.2`. A mech
/// of no weight is as fast as one likes with any engine of positive rating.
pub open spec fn speed_reached(rating: int, max_tons: int, min_speed: int) -> bool {
    if max_tons > 0 {
        rating * 16_200_000 >= min_speed * max_tons
    } else if max_tons < 0 {
        rating * 16_200_000 <= min_speed * max_tons
    } else {
        rating > 0
    }
}

/// The heatsinks to add to an engine to reach `min_heatsinks`: of its own,
/// up to ten count.
pub open spec fn extra_heatsinks(engine: Engine, min_heatsinks: int) -> int {
    let own = if engine.heatsinks < 10 {
        engine.heatsinks as int
    } else {
        10
    };
    if min_heatsinks > own {
        min_heatsinks - own
    } else {
        0
    }
}

/// What an engine costs in millionths of a ton: its weight, and a ton for
/// each heatsink added.
pub open spec fn engine_cost(engine: Engine, min_heatsinks: int) -> int {
    engine.weight.micros + extra_heatsinks(engine, min_heatsinks) * 1_000_000
}

/// The engine is of the variant's faction, within its rating range, and fast
/// enough.
pub open spec fn engine_qualifies(engine: Engine, mech: Variant, min_speed: int) -> bool {
    &&& engine.factions@.contains(mech.affiliation)
    &&& mech.engine_min <= engine.rating <= mech.engine_max
    &&& speed_reached(engine.rating as int, mech.max_tons as int, min_speed)
}

/// Engine `i` qualifies, none that qualifies costs less, and of those that
/// cost the same it comes first.
pub open spec fn is_lightest(
    engines: Seq<Engine>,
    mech: Variant,
    min_speed: int,
    min_heatsinks: int,
    i: int,
) -> bool {
    &&& 0 <= i < engines.len()
    &&& engine_qualifies(engines[i], mech, min_speed)
    &&& forall|j: int|
        0 <= j < engines.len() && engine_qualifies(#[trigger] engines[j], mech, min_speed) ==> {
            ||| engine_cost(engines[j], min_heatsinks) > engine_cost(engines[i], min_heatsinks)
            ||| (engine_cost(engines[j], min_heatsinks) == engine_cost(engines[i], min_heatsinks)
                && i <= j)
        }
}

/// The engine that is chosen for a variant, if any qualifies.
pub open spec fn lightest_engine(
    engines: Seq<Engine>,
    mech: Variant,
    min_speed: int,
    min_heatsinks: int,
) -> Option<int> {
    if exists|i: int| is_lightest(engines, mech, min_speed, min_heatsinks, i) {
        Some(choose|i: int| is_lightest(engines, mech, min_speed, min_heatsinks, i))
    } else {
        None
    }
}

/// The tonnage, in parts, that is left for weapons with `engine` mounted:
/// the variant's tonnage less 5% for the structure, the ammunition, the
/// armor and the engine with its added heatsinks.
pub open spec fn free_tonnage_parts(mech: Variant, loadout: LoadoutView, engine: Engine) -> int {
    TONNAGE_PARTS * (mech.max_tons * 950_000 - loadout.ammo_t - engine_cost(
        engine,
        loadout.min_heatsinks,
    )) - if loadout.full_armor {
        armor_weight_parts(mech.affiliation, armor_points(mech.components@))
    } else {
        0
    }
}

/// The weight of the weapons asked for, in tonnage parts.
pub open spec fn weapons_weight_parts(loadout: LoadoutView) -> int {
    TONNAGE_PARTS * (loadout.weapon.tons.micros * loadout.amount)
}

/// `a / b` rounded down.
pub open spec fn floor_div(a: int, b: int) -> int {
    if b > 0 {
        a / b
    } else {
        (-a) / (-b)
    }
}

/// How many weapons of `kind`, of `slot_cost` slots each, one component
/// takes: as many as it has hardpoints of the kind, and room for.
pub open spec fn component_mounts(component: Component, kind: HardpointKind, slot_cost: int) -> int {
    let hardpoints = match component.hardpoint_count.spec_get(kind) {
        Some(n) => n as int,
        None => 0,
    };
    let room = floor_div(component.effective_slots as int, slot_cost);
    if hardpoints <= room {
        hardpoints
    } else {
        room
    }
}

/// How many such weapons all components take together.
pub open spec fn mountable(
    components: Seq<(String, Component)>,
    kind: HardpointKind,
    slot_cost: int,
) -> int
    decreases components.len(),
{
    if components.len() == 0 {
        0
    } else {
        mountable(components.drop_last(), kind, slot_cost) + component_mounts(
            components.last().1,
            kind,
            slot_cost,
        )
    }
}

/// The tonnage that the chosen engine leaves carries the weapons; `false`
/// where no engine qualifies.
pub open spec fn tonnage_fits(engines: Seq<Engine>, mech: Variant, loadout: LoadoutView) -> bool {
    match lightest_engine(engines, mech, loadout.min_speed, loadout.min_heatsinks) {
        Some(i) => free_tonnage_parts(mech, loadout, engines[i]) >= weapons_weight_parts(loadout),
        None => false,
    }
}

/// The loadout fits the variant: the factions agree, the tonnage suffices
/// and the hardpoints do.
pub open spec fn fits(engines: Seq<Engine>, mech: Variant, loadout: LoadoutView) -> bool {
    &&& mech.affiliation == loadout.weapon.faction
    &&& tonnage_fits(engines, mech, loadout)
    &&& mountable(mech.components@, loadout.weapon.hardpoint_kind, loadout.weapon.slots as int)
        >= loadout.amount
}

/// The verdict on a loadout: never `Maybe`.
pub open spec fn verdict(engines: Seq<Engine>, mech: Variant, loadout: LoadoutView) -> TriState {
    if fits(engines, mech, loadout) {
        TriState::Yes
    } else {
        TriState::No
    }
}

/// The engine that `is_lightest` is the one that `lightest_engine` names:
/// there is no second one.
pub proof fn lemma_lightest_found(
    engines: Seq<Engine>,
    mech: Variant,
    min_speed: int,
    min_heatsinks: int,
    i: int,
)
    requires
        is_lightest(engines, mech, min_speed, min_heatsinks, i),
    ensures
        lightest_engine(engines, mech, min_speed, min_heatsinks) == Some(i),
{
    let k = choose|k: int| is_lightest(engines, mech, min_speed, min_heatsinks, k);
    assert(engine_qualifies(engines[k], mech, min_speed));
    assert(engine_qualifies(engines[i], mech, min_speed));
}

/// Where no engine qualifies, `lightest_engine` names none.
pub proof fn lemma_lightest_absent(
    engines: Seq<Engine>,
    mech: Variant,
    min_speed: int,
    min_heatsinks: int,
)
    requires
        forall|j: int|
            0 <= j < engines.len() ==> !engine_qualifies(#[trigger] engines[j], mech, min_speed),
    ensures
        lightest_engine(engines, mech, min_speed, min_heatsinks) is None,
{
    if exists|i: int| is_lightest(engines, mech, min_speed, min_heatsinks, i) {
        let k = choose|k: int| is_lightest(engines, mech, min_speed, min_heatsinks, k);
        assert(!engine_qualifies(engines[k], mech, min_speed));
    }
}

/// A product of two bounded numbers is bounded by the product of the bounds.
proof fn lemma_product_bound(x: int, y: int, bx: int, by: int)
    by (nonlinear_arith)
    requires
        -bx <= x <= bx,
        -by <= y <= by,
    ensures
        -(bx * by) <= x * y <= bx * by,
{
}

/// The armor points of full armor on `mech`.
pub fn full_armor_points(mech: &Variant) -> (points: i128)
    ensures
        points == armor_points(mech.components@),
        -0x1_0000_0000_0000_0000_0000_0000 <= points <= 0x1_0000_0000_0000_0000_0000_0000,
{
    let mut points: i128 = 0;
    let mut i: usize = 0;
    while i < mech.components.len()
        invariant
            i <= mech.components@.len(),
            points == armor_points(mech.components@.subrange(0, i as int)),
            -(i * 0x1_0000_0000) <= points <= i * 0x1_0000_0000,
        decreases mech.components@.len() - i,
    {
        let name = &mech.components[i].0;
        let component = &mech.components[i].1;
        assert(mech.components@.subrange(0, i + 1).drop_last() == mech.components@.subrange(
            0,
            i as int,
        ));
        if str_eq(name.as_str(), "head") {
            points = points + 18;
        } else {
            points = points + (component.hp as i128) * 2;
        }
        i = i + 1;
    }
    assert(mech.components@.subrange(0, i as int) == mech.components@);
    points
}

/// Whether `engine` is offered to `affiliation`.
pub fn engine_has_faction(engine: &Engine, affiliation: Affiliation) -> (has: bool)
    ensures
        has == engine.factions@.contains(affiliation),
{
    let mut i: usize = 0;
    while i < engine.factions.len()
        invariant
            i <= engine.factions@.len(),
            forall|k: int| 0 <= k < i ==> engine.factions@[k] != affiliation,
        decreases engine.factions@.len() - i,
    {
        if engine.factions[i] == affiliation {
            return true;
        }
        i = i + 1;
    }
    false
}

/// Whether `eng` moves `mech` at `min_speed` or faster.
pub fn speed_with_engine(eng: &Engine, mech: &Variant, min_speed: Decimal) -> (reached: bool)
    ensures
        reached == speed_reached(eng.rating as int, mech.max_tons as int, min_speed.micros as int),
{
    let rating: i128 = eng.rating as i128;
    let tons: i128 = mech.max_tons as i128;
    let speed: i128 = min_speed.micros as i128;
    proof {
        lemma_product_bound(
            speed as int,
            tons as int,
            0x8000_0000_0000_0000,
            0x8000_0000,
        );
    }
    if tons > 0 {
        rating * 16_200_000 >= speed * tons
    } else if tons < 0 {
        rating * 16_200_000 <= speed * tons
    } else {
        rating > 0
    }
}

/// What `engine` costs with the heatsinks added that `min_heatsinks` asks.
pub fn engine_cost_of(engine: &Engine, min_heatsinks: i32) -> (cost: i128)
    ensures
        cost == engine_cost(*engine, min_heatsinks as int),
        -0x8000_0000_0000_0000 <= cost <= 0x8000_0000_0000_0000 + 0x1_0000_0000 * 1_000_000,
{
    let own: i128 = if engine.heatsinks < 10 {
        engine.heatsinks as i128
    } else {
        10
    };
    let wanted: i128 = min_heatsinks as i128;
    let extra: i128 = if wanted > own {
        wanted - own
    } else {
        0
    };
    engine.weight.micros as i128 + extra * 1_000_000
}

/// Whether `engine` may be chosen for `mech` at `min_speed`.
pub fn engine_is_candidate(engine: &Engine, mech: &Variant, min_speed: Decimal) -> (q: bool)
    ensures
        q == engine_qualifies(*engine, *mech, min_speed.micros as int),
{
    engine_has_faction(engine, mech.affiliation) && engine.rating >= mech.engine_min
        && engine.rating <= mech.engine_max && speed_with_engine(engine, mech, min_speed)
}

/// The engine to mount: of those that qualify the one that costs least, and
/// of several such the first.
pub fn choose_engine(
    engines: &Vec<Engine>,
    mech: &Variant,
    min_speed: Decimal,
    min_heatsinks: i32,
) -> (chosen: Option<usize>)
    ensures
        match chosen {
            Some(i) => lightest_engine(
                engines@,
                *mech,
                min_speed.micros as int,
                min_heatsinks as int,
            ) == Some(i as int),
            None => lightest_engine(engines@, *mech, min_speed.micros as int, min_heatsinks as int)
                is None,
        },
        chosen matches Some(i) ==> i < engines@.len(),
{
    let mut best: Option<usize> = None;
    let mut best_cost: i128 = 0;
    let mut i: usize = 0;
    while i < engines.len()
        invariant
            i <= engines@.len(),
            match best {
                Some(b) => {
                    &&& b < i
                    &&& best_cost == engine_cost(engines@[b as int], min_heatsinks as int)
                    &&& is_lightest(
                        engines@.subrange(0, i as int),
                        *mech,
                        min_speed.micros as int,
                        min_heatsinks as int,
                        b as int,
                    )
                },
                None => forall|j: int|
                    0 <= j < i ==> !engine_qualifies(
                        #[trigger] engines@[j],
                        *mech,
                        min_speed.micros as int,
                    ),
            },
        decreases engines@.len() - i,
    {
        let ghost now = engines@.subrange(0, i + 1);
        if engine_is_candidate(&engines[i], mech, min_speed) {
            let cost = engine_cost_of(&engines[i], min_heatsinks);
            match best {
                Some(b) => {
                    if cost < best_cost {
                        best = Some(i);
                        best_cost = cost;
                        assert(is_lightest(
                            now,
                            *mech,
                            min_speed.micros as int,
                            min_heatsinks as int,
                            i as int,
                        ));
                    } else {
                        assert(is_lightest(
                            now,
                            *mech,
                            min_speed.micros as int,
                            min_heatsinks as int,
                            b as int,
                        ));
                    }
                },
                None => {
                    best = Some(i);
                    best_cost = cost;
                    assert(is_lightest(
                        now,
                        *mech,
                        min_speed.micros as int,
                        min_heatsinks as int,
                        i as int,
                    ));
                },
            }
        } else {
            if let Some(b) = best {
                assert(is_lightest(
                    now,
                    *mech,
                    min_speed.micros as int,
                    min_heatsinks as int,
                    b as int,
                ));
            }
        }
        i = i + 1;
    }
    assert(engines@.subrange(0, i as int) == engines@);
    proof {
        match best {
            Some(b) => {
                lemma_lightest_found(
                    engines@,
                    *mech,
                    min_speed.micros as int,
                    min_heatsinks as int,
                    b as int,
                );
            },
            None => {
                lemma_lightest_absent(
                    engines@,
                    *mech,
                    min_speed.micros as int,
                    min_heatsinks as int,
                );
            },
        }
    }
    best
}

/// `a / b` rounded down.
pub fn floor_divide(a: i32, b: i32) -> (q: i64)
    requires
        b != 0,
    ensures
        q == floor_div(a as int, b as int),
        -0x8000_0000 <= q <= 0x8000_0000,
{
    let wide_a: i64 = a as i64;
    let wide_b: i64 = b as i64;
    let size_a: u64 = if wide_a < 0 {
        (-wide_a) as u64
    } else {
        wide_a as u64
    };
    let size_b: u64 = if wide_b < 0 {
        (-wide_b) as u64
    } else {
        wide_b as u64
    };
    let q: u64 = size_a / size_b;
    let r: u64 = size_a % size_b;
    assert(size_a == q * size_b + r && q <= size_a) by (nonlinear_arith)
        requires
            size_b > 0,
            q == size_a / size_b,
            r == size_a % size_b,
    ;
    if (a < 0) == (b < 0) {
        proof {
            lemma_fundamental_div_mod_converse(size_a as int, size_b as int, q as int, r as int);
        }
        q as i64
    } else if r == 0 {
        proof {
            assert(-(size_a as int) == (-(q as int)) * size_b + 0) by (nonlinear_arith)
                requires
                    size_a == q * size_b + r,
                    r == 0,
            ;
            lemma_fundamental_div_mod_converse(-(size_a as int), size_b as int, -(q as int), 0);
        }
        -(q as i64)
    } else {
        proof {
            assert(-(size_a as int) == (-(q as int) - 1) * size_b + (size_b - r) && q < size_a)
                by (nonlinear_arith)
                requires
                    size_a == q * size_b + r,
                    r > 0,
                    size_b >= 1,
            ;
            lemma_fundamental_div_mod_converse(
                -(size_a as int),
                size_b as int,
                -(q as int) - 1,
                size_b - r,
            );
        }
        -(q as i64) - 1
    }
}

/// How many weapons of `kind`, of `slot_cost` slots each, `mech` takes.
pub fn mountable_weapons(mech: &Variant, kind: HardpointKind, slot_cost: i32) -> (amount: i128)
    requires
        slot_cost != 0,
    ensures
        amount == mountable(mech.components@, kind, slot_cost as int),
{
    let mut amount: i128 = 0;
    let mut i: usize = 0;
    while i < mech.components.len()
        invariant
            slot_cost != 0,
            i <= mech.components@.len(),
            amount == mountable(mech.components@.subrange(0, i as int), kind, slot_cost as int),
            -(i * 0x8000_0000) <= amount <= i * 0x8000_0000,
        decreases mech.components@.len() - i,
    {
        let component = &mech.components[i].1;
        assert(mech.components@.subrange(0, i + 1).drop_last() == mech.components@.subrange(
            0,
            i as int,
        ));
        let hardpoints: i64 = match component.hardpoint_count.get(kind) {
            Some(n) => n as i64,
            None => 0,
        };
        let room: i64 = floor_divide(component.effective_slots, slot_cost);
        let here: i64 = if hardpoints <= room {
            hardpoints
        } else {
            room
        };
        amount = amount + here as i128;
        i = i + 1;
    }
    assert(mech.components@.subrange(0, i as int) == mech.components@);
    amount
}

/// Whether the tonnage that `engine` leaves on `mech` carries the weapons.
pub fn tonnage_suffices(mech: &Variant, loadout: &Loadout, engine: &Engine) -> (enough: bool)
    requires
        loadout.well_formed(),
    ensures
        enough == (free_tonnage_parts(*mech, loadout@, *engine) >= weapons_weight_parts(loadout@)),
{
    let cost: i128 = engine_cost_of(engine, loadout.min_heatsinks);
    let budget: i128 = (mech.max_tons as i128) * 950_000 - loadout.ammo_t.micros as i128 - cost;
    let armor: i128 = if str_eq(loadout.want_armor, "full") {
        let points: i128 = full_armor_points(mech);
        match mech.affiliation {
            Affiliation::InnerSphere => points * 31_250 * 1500,
            Affiliation::Clan => points * 31_250 * 1400,
        }
    } else {
        0
    };
    let free: i128 = TONNAGE_PARTS * budget - armor;
    let tons: i128 = loadout.weapons[0].0.tons.micros as i128;
    let amount: i128 = loadout.weapons[0].1 as i128;
    proof {
        lemma_product_bound(tons as int, amount as int, 0x8000_0000_0000_0000, 0x8000_0000);
    }
    let wanted: i128 = TONNAGE_PARTS * (tons * amount);
    free >= wanted
}

/// Whether a verdict on `loadout` for `mech` can be reached. Where the
/// factions agree the armor scheme `armor` must be one that is known; and
/// where the tonnage suffices too, so that the hardpoints of the components
/// are counted, the weapon must take slots.
pub open spec fn evaluable(
    engines: Seq<Engine>,
    mech: Variant,
    loadout: LoadoutView,
    armor: Seq<char>,
) -> bool {
    mech.affiliation == loadout.weapon.faction ==> {
        &&& armor == "none"@ || armor == "full"@
        &&& tonnage_fits(engines, mech, loadout) && mech.components@.len() > 0
            ==> loadout.weapon.slots != 0
    }
}

/// The verdict on `loadout` for `mech`, with the engines of `eqdb` to choose
/// from.
pub fn is_fits(eqdb: &Equipment, mech: &Variant, loadout: &Loadout) -> (state: TriState)
    requires
        loadout.weapons@.len() == 1,
        evaluable(eqdb.engines@, *mech, loadout@, loadout.want_armor@),
    ensures
        state == verdict(eqdb.engines@, *mech, loadout@),
        state != TriState::Maybe,
{
    let want_weap: &Weapon = loadout.weapons[0].0;
    let want_amt: i32 = loadout.weapons[0].1;
    if mech.affiliation != want_weap.faction {
        return TriState::No;
    }
    match choose_engine(&eqdb.engines, mech, loadout.min_speed, loadout.min_heatsinks) {
        None => {
            return TriState::No;
        },
        Some(i) => {
            if !tonnage_suffices(mech, loadout, &eqdb.engines[i]) {
                return TriState::No;
            }
        },
    }
    let amount: i128 = if mech.components.len() == 0 {
        0
    } else {
        mountable_weapons(mech, want_weap.hardpoint_kind, want_weap.slots)
    };
    if amount < want_amt as i128 {
        return TriState::No;
    }
    TriState::Yes
}

/// The test that a weapon is called `name`.
pub open spec fn weapon_named(name: Seq<char>) -> spec_fn(Weapon) -> bool {
    |w: Weapon| w.name@ == name
}

/// The place in `weapons` of the first weapon called `name`.
pub fn find_weapon(weapons: &Vec<Weapon>, name: &str) -> (found: Option<usize>)
    ensures
        match found {
            Some(i) => first_index(weapons@, weapon_named(name@)) == Some(i as int) && i
                < weapons@.len(),
            None => first_index(weapons@, weapon_named(name@)) is None,
        },
{
    let mut i: usize = 0;
    while i < weapons.len()
        invariant
            i <= weapons@.len(),
            forall|k: int| 0 <= k < i ==> !weapon_named(name@)(#[trigger] weapons@[k]),
        decreases weapons@.len() - i,
    {
        if str_eq(weapons[i].name.as_str(), name) {
            proof {
                lemma_first_found(weapons@, weapon_named(name@), i as int);
            }
            return Some(i);
        }
        i = i + 1;
    }
    proof {
        lemma_first_absent(weapons@, weapon_named(name@));
    }
    None
}

/// The loadout that a choice of one weapon stands for: ten heatsinks are
/// asked for.
pub open spec fn request(
    weapon: Weapon,
    amount: int,
    ammo_t: int,
    min_speed: int,
    armor: Seq<char>,
) -> LoadoutView {
    LoadoutView {
        weapon,
        amount,
        min_speed,
        min_heatsinks: 10,
        full_armor: armor == "full"@,
        ammo_t,
    }
}

/// For each variant, by its name and in the order given, whether the first
/// of the chosen weapons fits it.
pub fn get_fitting_mechs(
    equipment: &Equipment,
    mech_variants: &Vec<Variant>,
    chosen_weapons: &Vec<(String, i32, Decimal)>,
    min_speed: Decimal,
    armor: &str,
) -> (fitting: Vec<(String, FitStatus)>)
    requires
        chosen_weapons@.len() > 0,
        first_index(equipment.weapons@, weapon_named(chosen_weapons@[0].0@)) matches Some(w)
            && forall|i: int|
            0 <= i < mech_variants@.len() ==> evaluable(
                equipment.engines@,
                #[trigger] mech_variants@[i],
                request(
                    equipment.weapons@[w],
                    chosen_weapons@[0].1 as int,
                    chosen_weapons@[0].2.micros as int,
                    min_speed.micros as int,
                    armor@,
                ),
                armor@,
            ),
    ensures
        fitting@.len() == mech_variants@.len(),
        forall|i: int|
            0 <= i < fitting@.len() ==> {
                &&& (#[trigger] fitting@[i]).0@ == mech_variants@[i].variant_name@
                &&& fitting@[i].1.fits != TriState::Maybe
                &&& fitting@[i].1.fits == verdict(
                    equipment.engines@,
                    mech_variants@[i],
                    request(
                        equipment.weapons@[first_index(
                            equipment.weapons@,
                            weapon_named(chosen_weapons@[0].0@),
                        ).unwrap()],
                        chosen_weapons@[0].1 as int,
                        chosen_weapons@[0].2.micros as int,
                        min_speed.micros as int,
                        armor@,
                    ),
                )
            },
{
    let chosen = &chosen_weapons[0];
    let at = match find_weapon(&equipment.weapons, chosen.0.as_str()) {
        Some(at) => at,
        None => {
            return Vec::new();
        },
    };
    let mut weapons: Vec<(&Weapon, i32)> = Vec::new();
    weapons.push((&equipment.weapons[at], chosen.1));
    let want_loadout = Loadout {
        weapons,
        min_speed,
        want_ecm: false,
        min_heatsinks: 10,
        want_armor: armor,
        ammo_t: chosen.2,
    };
    let ghost wanted = request(
        equipment.weapons@[at as int],
        chosen.1 as int,
        chosen.2.micros as int,
        min_speed.micros as int,
        armor@,
    );
    let mut fitting: Vec<(String, FitStatus)> = Vec::new();
    let mut i: usize = 0;
    while i < mech_variants.len()
        invariant
            i <= mech_variants@.len(),
            fitting@.len() == i,
            want_loadout.weapons@.len() == 1,
            want_loadout.want_armor@ == armor@,
            want_loadout@ == wanted,
            forall|k: int|
                0 <= k < mech_variants@.len() ==> evaluable(
                    equipment.engines@,
                    #[trigger] mech_variants@[k],
                    wanted,
                    armor@,
                ),
            forall|k: int|
                0 <= k < i ==> {
                    &&& (#[trigger] fitting@[k]).0@ == mech_variants@[k].variant_name@
                    &&& fitting@[k].1.fits == verdict(equipment.engines@, mech_variants@[k], wanted)
                },
        decreases mech_variants@.len() - i,
    {
        let fits = is_fits(equipment, &mech_variants[i], &want_loadout);
        fitting.push((mech_variants[i].variant_name.clone(), FitStatus { fits }));
        i = i + 1;
    }
    fitting
}

/// Engine `i` is the one to choose among the first `n`.
spec fn lightest_among(
    engines: Seq<Engine>,
    mech: Variant,
    min_speed: int,
    min_heatsinks: int,
    n: int,
    i: int,
) -> bool {
    &&& 0 <= i < n
    &&& engine_qualifies(engines[i], mech, min_speed)
    &&& forall|j: int|
        0 <= j < n && engine_qualifies(#[trigger] engines[j], mech, min_speed) ==> {
            ||| engine_cost(engines[j], min_heatsinks) > engine_cost(engines[i], min_heatsinks)
            ||| (engine_cost(engines[j], min_heatsinks) == engine_cost(engines[i], min_heatsinks)
                && i <= j)
        }
}

/// Among the first `n` engines, of which one qualifies, one is the lightest.
proof fn lemma_lightest_among(
    engines: Seq<Engine>,
    mech: Variant,
    min_speed: int,
    min_heatsinks: int,
    n: int,
) -> (i: int)
    requires
        0 <= n <= engines.len(),
        exists|j: int| 0 <= j < n && engine_qualifies(#[trigger] engines[j], mech, min_speed),
    ensures
        lightest_among(engines, mech, min_speed, min_heatsinks, n, i),
    decreases n,
{
    let last = n - 1;
    if exists|j: int| 0 <= j < last && engine_qualifies(#[trigger] engines[j], mech, min_speed) {
        let b = lemma_lightest_among(engines, mech, min_speed, min_heatsinks, last);
        if engine_qualifies(engines[last], mech, min_speed) && engine_cost(
            engines[last],
            min_heatsinks,
        ) < engine_cost(engines[b], min_heatsinks) {
            last
        } else {
            b
        }
    } else {
        last
    }
}

/// What `lightest_engine` says of its result: the engine that it names
/// qualifies at the least cost, and it names one wherever one qualifies.
pub proof fn lemma_lightest_engine(
    engines: Seq<Engine>,
    mech: Variant,
    min_speed: int,
    min_heatsinks: int,
)
    ensures
        match lightest_engine(engines, mech, min_speed, min_heatsinks) {
            Some(i) => is_lightest(engines, mech, min_speed, min_heatsinks, i),
            None => forall|j: int|
                0 <= j < engines.len() ==> !engine_qualifies(
                    #[trigger] engines[j],
                    mech,
                    min_speed,
                ),
        },
{
    if exists|j: int|
        0 <= j < engines.len() && engine_qualifies(#[trigger] engines[j], mech, min_speed) {
        let i = lemma_lightest_among(
            engines,
            mech,
            min_speed,
            min_heatsinks,
            engines.len() as int,
        );
        assert(is_lightest(engines, mech, min_speed, min_heatsinks, i));
    }
}

/// An engine that is fast enough is fast enough for any lower speed.
pub proof fn lemma_speed_reached_monotonic(rating: int, max_tons: int, slower: int, faster: int)
    by (nonlinear_arith)
    requires
        slower <= faster,
        speed_reached(rating, max_tons, faster),
    ensures
        speed_reached(rating, max_tons, slower),
{
}

/// Asking for more speed never turns a loadout that does not fit into one
/// that does: of two loadouts that differ in the speed alone, the faster
/// fits only where the slower does.
pub proof fn lemma_fit_monotonic_in_speed(
    engines: Seq<Engine>,
    mech: Variant,
    loadout: LoadoutView,
    faster: int,
)
    requires
        loadout.min_speed <= faster,
    ensures
        fits(engines, mech, LoadoutView { min_speed: faster, ..loadout }) ==> fits(
            engines,
            mech,
            loadout,
        ),
        verdict(engines, mech, loadout) == TriState::No ==> verdict(
            engines,
            mech,
            LoadoutView { min_speed: faster, ..loadout },
        ) == TriState::No,
{
    let fast = LoadoutView { min_speed: faster, ..loadout };
    if fits(engines, mech, fast) {
        lemma_lightest_engine(engines, mech, faster, loadout.min_heatsinks);
        lemma_lightest_engine(engines, mech, loadout.min_speed, loadout.min_heatsinks);
        let f = lightest_engine(engines, mech, faster, loadout.min_heatsinks).unwrap();
        lemma_speed_reached_monotonic(
            engines[f].rating as int,
            mech.max_tons as int,
            loadout.min_speed,
            faster,
        );
        let s = lightest_engine(engines, mech, loadout.min_speed, loadout.min_heatsinks).unwrap();
        assert(engine_cost(engines[s], loadout.min_heatsinks) <= engine_cost(
            engines[f],
            loadout.min_heatsinks,
        ));
        assert(free_tonnage_parts(mech, loadout, engines[s]) >= free_tonnage_parts(
            mech,
            fast,
            engines[f],
        ));
    }
}

/// The weight of armor is 0.03125 ton a point, divided by 1.12 or by 1.2:
/// with 32 points to the ton, a million millionths to the ton and
/// `TONNAGE_PARTS` parts to the millionth, the weight in parts times 1.12
/// (or 1.2) is the points over 32.
pub proof fn lemma_armor_weight(points: int)
    ensures
        armor_weight_parts(Affiliation::InnerSphere, points) * 112 * 32 == points * 100
            * 1_000_000 * TONNAGE_PARTS,
        armor_weight_parts(Affiliation::Clan, points) * 120 * 32 == points * 100 * 1_000_000
            * TONNAGE_PARTS,
{
}

/// Full armor has no negative weight where no component has negative hit
/// points.
pub proof fn lemma_armor_points_not_negative(components: Seq<(String, Component)>)
    requires
        forall|i: int| 0 <= i < components.len() ==> (#[trigger] components[i]).1.hp >= 0,
    ensures
        armor_points(components) >= 0,
    decreases components.len(),
{
    if components.len() > 0 {
        lemma_armor_points_not_negative(components.drop_last());
    }
}

/// Going without armor frees tonnage: on a variant without negative hit
/// points, no engine leaves less tonnage without armor than with full armor,
/// and a loadout that fits with full armor fits without.
pub proof fn lemma_armor_none_frees_tonnage(
    engines: Seq<Engine>,
    mech: Variant,
    loadout: LoadoutView,
    engine: Engine,
)
    requires
        forall|i: int|
            0 <= i < mech.components@.len() ==> (#[trigger] mech.components@[i]).1.hp >= 0,
    ensures
        free_tonnage_parts(mech, LoadoutView { full_armor: false, ..loadout }, engine)
            >= free_tonnage_parts(mech, LoadoutView { full_armor: true, ..loadout }, engine),
        fits(engines, mech, LoadoutView { full_armor: true, ..loadout }) ==> fits(
            engines,
            mech,
            LoadoutView { full_armor: false, ..loadout },
        ),
{
    lemma_armor_points_not_negative(mech.components@);
    let full = LoadoutView { full_armor: true, ..loadout };
    let none = LoadoutView { full_armor: false, ..loadout };
    if fits(engines, mech, full) {
        let i = lightest_engine(engines, mech, loadout.min_speed, loadout.min_heatsinks).unwrap();
        assert(free_tonnage_parts(mech, none, engines[i]) >= free_tonnage_parts(
            mech,
            full,
            engines[i],
        ));
    }
}

} // verus!
