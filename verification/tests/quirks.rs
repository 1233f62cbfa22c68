use mechdata::error::DataError;
use mechdata::mwo_types::Affiliation;
use mechdata::mwo_types::Decimal;
use mechdata::mwo_types::Equipment;
use mechdata::mwo_types::HardpointKind;
use mechdata::mwo_types::Specialness;
use mechdata::mwo_types::Variant;
use mechdata::mwo_types::Weapon;
use mechdata::quirks::amount_of;
use mechdata::quirks::gain_of;
use mechdata::quirks::get_relevant_quirks;
use mechdata::quirks::prefixes_of;
use mechdata::quirks::read_quirk_name;
use mechdata::quirks::QuirkTotals;

fn value(micros: i64) -> Decimal {
    Decimal { micros }
}

fn weapon(name: &str, aliases: &[&str], cooldown: i64, speed: i32) -> Weapon {
    Weapon {
        name: name.to_string(),
        hardpoint_kind: HardpointKind::Ballistic,
        hardpoint_aliases: aliases.iter().map(|a| a.to_string()).collect(),
        faction: Affiliation::InnerSphere,
        slots: 1,
        tons: value(1_000_000),
        id: 1,
        cooldown: value(cooldown),
        speed,
        ammo_type: None,
    }
}

fn mech(quirks: &[(&str, i64)]) -> Variant {
    Variant {
        chassis: "atlas".to_string(),
        variant_name: "as7-d".to_string(),
        display_name: "AS7-D".to_string(),
        specialness: Specialness::Normal,
        affiliation: Affiliation::InnerSphere,
        max_tons: 100,
        base_tons: value(10_000_000),
        max_jj: 0,
        engine_min: 200,
        engine_max: 360,
        components: vec![],
        quirks: quirks.iter().map(|(n, v)| (n.to_string(), value(*v))).collect(),
    }
}

fn chosen(names: &[&str]) -> Vec<(String, i32, Decimal)> {
    names.iter().map(|n| (n.to_string(), 1, value(0))).collect()
}

fn catalog() -> Equipment {
    Equipment {
        weapons: vec![
            weapon("AutoCannon20", &["AC20", "Ballistic", "AC"], 4_000_000, 650),
            weapon("Flamer", &["Flamer", "Energy"], 0, 0),
            weapon("Bare", &[], 1_000_000, 100),
        ],
        engines: vec![],
    }
}

fn chars(s: &str) -> Vec<char> {
    s.chars().collect()
}

fn shown(totals: &QuirkTotals) -> Vec<(String, String, i128)> {
    totals.entries.iter().map(|e| (e.weapon.clone(), e.kind.clone(), e.value)).collect()
}

#[test]
fn general_cooldown_multiplier_counts_as_a_percentage() {
    let totals = get_relevant_quirks(
        &catalog(),
        &mech(&[("all_cooldown_multiplier", 100_000)]),
        &chosen(&["AutoCannon20"]),
    )
    .unwrap();
    assert_eq!(totals.get("AutoCannon20", "cooldown"), Some(10_000_000));
    assert_eq!(totals.entries.len(), 1);
}

#[test]
fn cooldown_quirk_is_absent_for_a_weapon_without_cooldown() {
    let totals = get_relevant_quirks(
        &catalog(),
        &mech(&[("all_cooldown_multiplier", 100_000)]),
        &chosen(&["Flamer"]),
    )
    .unwrap();
    assert_eq!(totals.get("Flamer", "cooldown"), None);
    assert!(totals.entries.is_empty());
}

#[test]
fn velocity_quirk_is_absent_for_a_weapon_without_speed() {
    let quirks = mech(&[("all_velocity_multiplier", 100_000), ("all_range_multiplier", 100_000)]);
    let totals = get_relevant_quirks(&catalog(), &quirks, &chosen(&["Flamer"])).unwrap();
    assert_eq!(shown(&totals), vec![("Flamer".to_string(), "range".to_string(), 10_000_000)]);
    let with_speed = get_relevant_quirks(&catalog(), &quirks, &chosen(&["AutoCannon20"])).unwrap();
    assert_eq!(with_speed.get("AutoCannon20", "velocity"), Some(10_000_000));
}

#[test]
fn aliases_address_a_weapon_in_lower_case() {
    let quirks = mech(&[
        ("ac20_cooldown_multiplier", 50_000),
        ("ballistic_range_multiplier", 150_000),
        ("ac_heat_multiplier", -100_000),
        ("energy_heat_multiplier", 250_000),
        ("AC20_velocity_multiplier", 250_000),
    ]);
    let totals = get_relevant_quirks(&catalog(), &quirks, &chosen(&["AutoCannon20"])).unwrap();
    assert_eq!(
        shown(&totals),
        vec![
            ("AutoCannon20".to_string(), "cooldown".to_string(), 5_000_000),
            ("AutoCannon20".to_string(), "range".to_string(), 15_000_000),
            ("AutoCannon20".to_string(), "heat".to_string(), -10_000_000),
        ]
    );
}

#[test]
fn quirks_of_one_kind_add_up() {
    let quirks = mech(&[
        ("all_cooldown_multiplier", 100_000),
        ("ac20_cooldown_multiplier", 50_000),
        ("ballistic_cooldown_multiplier", 25_000),
        ("all_cooldown_multiplier", 100_000),
    ]);
    let totals = get_relevant_quirks(&catalog(), &quirks, &chosen(&["AutoCannon20"])).unwrap();
    // 10 + 5 + round(2.5) + 10
    assert_eq!(totals.get("AutoCannon20", "cooldown"), Some(28_000_000));
}

#[test]
fn multipliers_round_halves_away_from_zero() {
    assert_eq!(amount_of("multiplier", value(75_000)), 8_000_000);
    assert_eq!(amount_of("multiplier", value(-75_000)), -8_000_000);
    assert_eq!(amount_of("multiplier", value(74_999)), 7_000_000);
    assert_eq!(amount_of("multiplier", value(-74_999)), -7_000_000);
    assert_eq!(amount_of("multiplier", value(4_999)), 0);
    assert_eq!(amount_of("multiplier", value(5_000)), 1_000_000);
    assert_eq!(amount_of("multiplier", value(-5_000)), -1_000_000);
    assert_eq!(amount_of("multiplier", value(0)), 0);
    assert_eq!(amount_of("multiplier", value(i64::MAX)), 922_337_203_685_478_000_000);
    assert_eq!(amount_of("multiplier", value(i64::MIN)), -922_337_203_685_478_000_000);
}

#[test]
fn other_quirks_count_as_they_stand() {
    assert_eq!(amount_of("additive", value(75_000)), 75_000);
    assert_eq!(amount_of("Multiplier", value(-1)), -1);
    assert_eq!(amount_of("", value(i64::MIN)), i64::MIN as i128);
    let quirks = mech(&[("all_minheatpenaltylevel_additive", 1_000_000)]);
    let totals = get_relevant_quirks(&catalog(), &quirks, &chosen(&["AutoCannon20"])).unwrap();
    assert_eq!(totals.get("AutoCannon20", "minheatpenaltylevel"), Some(1_000_000));
}

#[test]
fn quirk_of_another_shape_is_malformed() {
    for name in ["all_cooldown", "all_a_b_c", "all_", "ac20_", "ballistic_x"] {
        let r = get_relevant_quirks(&catalog(), &mech(&[(name, 1)]), &chosen(&["AutoCannon20"]));
        assert!(matches!(r, Err(DataError::MalformedQuirkName)), "{}", name);
    }
    let fine = get_relevant_quirks(
        &catalog(),
        &mech(&[("all__", 5), ("energy", 1), ("allcooldown_multiplier", 1)]),
        &chosen(&["AutoCannon20"]),
    )
    .unwrap();
    assert_eq!(shown(&fine), vec![("AutoCannon20".to_string(), "".to_string(), 5)]);
}

#[test]
fn malformed_quirk_fails_even_behind_good_ones() {
    let quirks = mech(&[("all_cooldown_multiplier", 100_000), ("all_broken", 1)]);
    let r = get_relevant_quirks(&catalog(), &quirks, &chosen(&["AutoCannon20"]));
    assert!(matches!(r, Err(DataError::MalformedQuirkName)));
    let second = get_relevant_quirks(&catalog(), &quirks, &chosen(&["Bare", "AutoCannon20"]));
    assert!(matches!(second, Err(DataError::MalformedQuirkName)));
}

#[test]
fn weapon_without_aliases_has_no_quirks() {
    let quirks = mech(&[("all_cooldown_multiplier", 100_000), ("all_broken", 1)]);
    let totals = get_relevant_quirks(&catalog(), &quirks, &chosen(&["Bare"])).unwrap();
    assert!(totals.entries.is_empty());
}

#[test]
fn each_chosen_weapon_has_its_own_totals() {
    let quirks = mech(&[("all_range_multiplier", 100_000), ("energy_heat_multiplier", -50_000)]);
    let totals =
        get_relevant_quirks(&catalog(), &quirks, &chosen(&["AutoCannon20", "Flamer", "Flamer"]))
            .unwrap();
    assert_eq!(
        shown(&totals),
        vec![
            ("AutoCannon20".to_string(), "range".to_string(), 10_000_000),
            ("Flamer".to_string(), "range".to_string(), 20_000_000),
            ("Flamer".to_string(), "heat".to_string(), -10_000_000),
        ]
    );
    assert_eq!(totals.get("Flamer", "heat"), Some(-10_000_000));
    assert_eq!(totals.get("AutoCannon20", "heat"), None);
    let none = get_relevant_quirks(&catalog(), &quirks, &chosen(&[])).unwrap();
    assert!(none.entries.is_empty());
}

#[test]
fn prefixes_pair_each_alias_with_the_general_one() {
    let prefixes = prefixes_of(&vec!["AC20".to_string(), "Ballistic".to_string()]);
    assert_eq!(prefixes, vec![chars("ac20_"), chars("all_"), chars("ballistic_"), chars("all_")]);
    assert_eq!(prefixes_of(&vec![]), Vec::<Vec<char>>::new());
}

#[test]
fn the_last_prefix_that_matches_decides() {
    let prefixes = vec![chars("a_"), chars("a_b_")];
    assert_eq!(
        read_quirk_name("a_b_cooldown_multiplier", &prefixes),
        Err(DataError::MalformedQuirkName)
    );
    assert_eq!(
        read_quirk_name("x_range_y_z", &vec![chars("x_"), chars("x_range_")]),
        Err(DataError::MalformedQuirkName)
    );
    assert_eq!(
        read_quirk_name("xyk_m", &vec![chars("x"), chars("xy")]),
        Ok(Some(("k".to_string(), "m".to_string())))
    );
    assert_eq!(
        read_quirk_name("xyk_m", &vec![chars("xy"), chars("x"), chars("z")]),
        Ok(Some(("yk".to_string(), "m".to_string())))
    );
    assert_eq!(
        read_quirk_name("x_range_multiplier", &vec![chars("x_")]),
        Ok(Some(("range".to_string(), "multiplier".to_string())))
    );
    assert_eq!(read_quirk_name("y_range_multiplier", &vec![chars("x_")]), Ok(None));
    assert_eq!(read_quirk_name("x_range_multiplier", &vec![]), Ok(None));
    assert_eq!(
        read_quirk_name("_a_b", &vec![chars("")]),
        Err(DataError::MalformedQuirkName)
    );
}

#[test]
fn gain_names_kind_and_amount() {
    let gun = weapon("Gun", &["Gun"], 1, 1);
    let prefixes = prefixes_of(&gun.hardpoint_aliases);
    assert_eq!(
        gain_of(&gun, &prefixes, "gun_cooldown_multiplier", value(125_000)),
        Ok(Some(("cooldown".to_string(), 13_000_000)))
    );
    assert_eq!(gain_of(&gun, &prefixes, "laser_cooldown_multiplier", value(125_000)), Ok(None));
    assert_eq!(
        gain_of(&gun, &prefixes, "gun_cooldown", value(125_000)),
        Err(DataError::MalformedQuirkName)
    );
}

#[test]
fn totals_add_under_weapon_and_kind() {
    let mut totals = QuirkTotals::new();
    assert_eq!(totals.get("a", "b"), None);
    totals.add("a", "b", 5);
    totals.add("a", "c", 7);
    totals.add("a", "b", -2);
    totals.add("b", "b", 1);
    assert_eq!(totals.get("a", "b"), Some(3));
    assert_eq!(totals.get("a", "c"), Some(7));
    assert_eq!(totals.get("b", "b"), Some(1));
    assert_eq!(totals.get("b", "a"), None);
    assert_eq!(totals.entries.len(), 3);
}
