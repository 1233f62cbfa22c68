use mechdata::catalog::parse_hardpoints_def;
use mechdata::catalog::variant_name;
use mechdata::error::DataError;
use mechdata::hardpoints::HardpointDefs;
use mechdata::internals::internals_from;
use mechdata::internals::Internal;
use mechdata::mechs::chassis_names;
use mechdata::mechs::mech_list_from;
use mechdata::mechs::name_order;
use mechdata::mechs::MechListElement;
use mechdata::mechs::NameOrder;
use mechdata::mwo_types::Affiliation;
use mechdata::mwo_types::Decimal;
use mechdata::mwo_types::HardpointKind;
use mechdata::mwo_types::Specialness;
use mechdata::variants::parse_mech_variant;
use mechdata::weapons::weapons_from;
use mechdata::xml_doc::XmlAttribute;
use mechdata::xml_doc::XmlDocument;
use mechdata::xml_doc::XmlNode;

const WEAPONS: &str = r#"<?xml version="1.0" encoding="utf-8"?>
<WeaponList>
  <!-- ballistic -->
  <Weapon id="1000" name="AutoCannon20" faction="InnerSphere" HardpointAliases="AC20,Ballistic,AC">
    <Loc nameTag="@AC20" descTag="@AC20_desc"/>
    <WeaponStats type="0" slots="10" tons="14" cooldown="4.0" speed="650" ammoType="AC20Ammo"/>
    <WeaponStats slots="99" tons="99" cooldown="99" speed="99"/>
  </Weapon>
  <Weapon id="1001" name="MediumLaser" faction="InnerSphere" HardpointAliases="MediumLaser,Energy,Laser">
    <WeaponStats slots="1" tons="1.0" cooldown="3.0" speed="0"/>
  </Weapon>
  text between weapons
  <Weapon id="1201" name="ClanMediumLaserCopy" InheritFrom="1001" faction="Clan" HardpointAliases="Energy">
    <Loc nameTag="@copy"/>
  </Weapon>
  <Weapon id="7" name="FakeMachineGun" faction="Clan" HardpointAliases="nothing">
    <WeaponStats slots="1" tons="0.5" cooldown="0" speed="100"/>
  </Weapon>
  <Weapon id="8" name="DropShipLargePulseLaser" InheritFrom="1000" faction="Clan" HardpointAliases=""/>
  <Weapon id="9" name="AntiMissile" faction="Clan" HardpointAliases="AMS">
    <WeaponStats slots="1" tons="0.5" cooldown="-0.25" speed="+100"/>
  </Weapon>
</WeaponList>
"#;

fn parse(text: &str) -> XmlDocument {
    XmlDocument::parse(text).unwrap()
}

fn weapons_error(text: &str) -> bool {
    matches!(weapons_from(&parse(text)), Err(DataError::MalformedDocument))
}

#[test]
fn documents_list_their_nodes_in_order() {
    let doc = parse("<a x='1' y=\"two\"><!--c--><b/>text<b z='3'><c/></b></a>");
    let shape: Vec<(Option<usize>, bool, &str)> =
        doc.nodes.iter().map(|n| (n.parent, n.is_element, n.tag.as_str())).collect();
    assert_eq!(
        shape,
        vec![
            (None, false, ""),
            (Some(0), true, "a"),
            (Some(1), false, ""),
            (Some(1), true, "b"),
            (Some(1), false, ""),
            (Some(1), true, "b"),
            (Some(5), true, "c"),
        ]
    );
    assert_eq!(doc.attribute(1, "x"), Some("1"));
    assert_eq!(doc.attribute(1, "y"), Some("two"));
    assert_eq!(doc.attribute(1, "z"), None);
    assert_eq!(doc.attribute(5, "z"), Some("3"));
    assert_eq!(doc.attribute(2, "x"), None);
    assert_eq!(doc.select(1, false, None), vec![2, 3, 4, 5]);
    assert_eq!(doc.select(1, true, None), vec![3, 5]);
    assert_eq!(doc.select(1, true, Some("b")), vec![3, 5]);
    assert_eq!(doc.select(1, false, Some("")), vec![2, 4]);
    assert_eq!(doc.select(1, true, Some("c")), Vec::<usize>::new());
    assert_eq!(doc.select(5, true, Some("c")), vec![6]);
    assert_eq!(doc.select(0, false, None), vec![1]);
    assert_eq!(doc.select(6, false, None), Vec::<usize>::new());
    assert_eq!(doc.select(99, false, None), Vec::<usize>::new());
    assert!(doc.has_tag(3, "b"));
    assert!(!doc.has_tag(3, "B"));
    assert!(doc.is_element(3));
    assert!(!doc.is_element(4));
}

#[test]
fn attributes_are_known_without_their_namespace() {
    let doc = parse("<a xmlns:n='http://x' b='1' n:b='2' n:c='3'><n:d/></a>");
    assert_eq!(doc.attribute(1, "b"), Some("1"));
    assert_eq!(doc.attribute(1, "c"), Some("3"));
    assert!(doc.has_tag(2, "d"));
}

#[test]
fn text_that_is_no_document_is_malformed() {
    for text in ["", "<a>", "<a></b>", "plain", "<a/><b/>", "<a x='1' x='2'/>"] {
        assert!(matches!(XmlDocument::parse(text), Err(DataError::MalformedDocument)), "{}", text);
    }
}

#[test]
fn weapons_come_with_their_stats() {
    let weapons = weapons_from(&parse(WEAPONS)).unwrap();
    let names: Vec<&str> = weapons.iter().map(|w| w.name.as_str()).collect();
    assert_eq!(names, vec!["AutoCannon20", "MediumLaser", "ClanMediumLaserCopy", "AntiMissile"]);
    let ac = &weapons[0];
    assert_eq!(ac.id, 1000);
    assert_eq!(ac.faction, Affiliation::InnerSphere);
    assert_eq!(ac.hardpoint_aliases, vec!["AC20", "Ballistic", "AC"]);
    assert_eq!(ac.hardpoint_kind, HardpointKind::Ballistic);
    assert_eq!(ac.slots, 10);
    assert_eq!(ac.tons, Decimal { micros: 14_000_000 });
    assert_eq!(ac.cooldown, Decimal { micros: 4_000_000 });
    assert_eq!(ac.speed, 650);
    assert_eq!(ac.ammo_type.as_deref(), Some("AC20Ammo"));
    let laser = &weapons[1];
    assert_eq!(laser.hardpoint_kind, HardpointKind::Energy);
    assert_eq!(laser.ammo_type, None);
    let ams = &weapons[3];
    assert_eq!(ams.hardpoint_kind, HardpointKind::AMS);
    assert_eq!(ams.tons, Decimal { micros: 500_000 });
    assert_eq!(ams.cooldown, Decimal { micros: -250_000 });
    assert_eq!(ams.speed, 100);
}

#[test]
fn weapon_that_inherits_uses_the_stats_of_its_source() {
    let weapons = weapons_from(&parse(WEAPONS)).unwrap();
    let copy = &weapons[2];
    assert_eq!(copy.id, 1201);
    assert_eq!(copy.name, "ClanMediumLaserCopy");
    assert_eq!(copy.faction, Affiliation::Clan);
    assert_eq!(copy.hardpoint_aliases, vec!["Energy"]);
    assert_eq!(copy.slots, 1);
    assert_eq!(copy.tons, Decimal { micros: 1_000_000 });
    assert_eq!(copy.cooldown, Decimal { micros: 3_000_000 });
    assert_eq!(copy.speed, 0);
}

#[test]
fn excluded_weapons_are_left_out_but_read() {
    let weapons = weapons_from(&parse(WEAPONS)).unwrap();
    assert!(weapons.iter().all(|w| w.name != "FakeMachineGun"));
    assert!(weapons.iter().all(|w| w.name != "DropShipLargePulseLaser"));
    assert!(weapons_error(
        "<WeaponList><Weapon id='7' name='FakeMachineGun' faction='Clan' HardpointAliases='x'/></WeaponList>"
    ));
}

#[test]
fn empty_weapon_list_has_no_weapons() {
    assert_eq!(weapons_from(&parse("<WeaponList/>")).unwrap().len(), 0);
    assert_eq!(weapons_from(&parse("<WeaponList> <!-- none --> </WeaponList>")).unwrap().len(), 0);
}

#[test]
fn malformed_weapon_lists_are_refused() {
    let stats = "<WeaponStats slots='1' tons='1' cooldown='1' speed='1'/>";
    let weapon = |attrs: &str, body: &str| format!("<WeaponList><Weapon {}>{}</Weapon></WeaponList>", attrs, body);
    let good = "id='1' name='n' faction='Clan' HardpointAliases='Energy'";
    assert!(weapons_from(&parse(&weapon(good, stats))).is_ok());
    assert!(weapons_error(&weapon("name='n' faction='Clan' HardpointAliases='Energy'", stats)));
    assert!(weapons_error(&weapon("id='x' name='n' faction='Clan' HardpointAliases='Energy'", stats)));
    assert!(weapons_error(&weapon("id='1' faction='Clan' HardpointAliases='Energy'", stats)));
    assert!(weapons_error(&weapon("id='1' name='n' HardpointAliases='Energy'", stats)));
    assert!(weapons_error(&weapon("id='1' name='n' faction='clan' HardpointAliases='Energy'", stats)));
    assert!(weapons_error(&weapon("id='1' name='n' faction='Clan'", stats)));
    assert!(weapons_error(&weapon("id='1' name='n' faction='Clan' HardpointAliases='Laser,energy'", stats)));
    assert!(weapons_error(&weapon(good, "")));
    assert!(weapons_error(&weapon(good, "<WeaponStats slots='1' tons='1' cooldown='1'/>")));
    assert!(weapons_error(&weapon(good, "<WeaponStats slots='1' tons='heavy' cooldown='1' speed='1'/>")));
    assert!(weapons_error(&weapon(good, "<WeaponStats slots='1.5' tons='1' cooldown='1' speed='1'/>")));
    assert!(weapons_error(&weapon(&format!("{} InheritFrom='2'", good), stats)));
    assert!(weapons_error("<WeaponList><Gun/></WeaponList>"));
    assert!(weapons_error("<Weapons/>"));
    assert!(weapons_error("<!-- first --><WeaponList/>"));
}

#[test]
fn internals_are_listed_with_their_slots() {
    let doc = parse(
        "<ModuleList>\
           <Internal id='1911' name='LifeSupport'><Loc/><ModuleStats slots='2' tons='0'/></Internal>\
           <!-- more -->\
           <Internal id='1912'><ModuleStats slots='-1'/></Internal>\
         </ModuleList>",
    );
    assert_eq!(
        internals_from(&doc).unwrap(),
        vec![Internal { id: 1911, slots: 2 }, Internal { id: 1912, slots: -1 }]
    );
    assert_eq!(internals_from(&parse("<ModuleList/>")).unwrap(), vec![]);
}

#[test]
fn malformed_internal_lists_are_refused() {
    for text in [
        "<Modules/>",
        "<ModuleList><Module id='1'><ModuleStats slots='1'/></Module></ModuleList>",
        "<ModuleList><Internal id='1'/></ModuleList>",
        "<ModuleList><Internal id='1'><ModuleStats slots='1'/><ModuleStats slots='1'/></Internal></ModuleList>",
        "<ModuleList><Internal><ModuleStats slots='1'/></Internal></ModuleList>",
        "<ModuleList><Internal id='1'><ModuleStats/></Internal></ModuleList>",
        "<ModuleList><Internal id='1'><ModuleStats slots='one'/></Internal></ModuleList>",
    ] {
        assert!(matches!(internals_from(&parse(text)), Err(DataError::MalformedDocument)), "{}", text);
    }
}

#[test]
fn hardpoints_count_their_weapon_slots() {
    let defs = parse_hardpoints_def(
        "<Hardpoints>\
           <Hardpoint id='1'><WeaponSlot id='1'><Attachment AName='a'/></WeaponSlot><WeaponSlot id='2'/></Hardpoint>\
           <WeaponDoorSet id='9'><WeaponDoor AName='door'/></WeaponDoorSet>\
           <Hardpoint id='2'/>\
           <Hardpoint id='-3'><!-- one --><WeaponSlot/>text</Hardpoint>\
         </Hardpoints>",
    )
    .unwrap();
    assert_eq!(defs.slot_count, vec![(1, 2), (2, 0), (-3, 1)]);
    assert_eq!(defs.slots(1), Some(2));
    assert_eq!(defs.slots(2), Some(0));
    assert_eq!(defs.slots(-3), Some(1));
    assert_eq!(defs.slots(9), None);
}

#[test]
fn later_hardpoint_of_one_id_counts() {
    let defs = parse_hardpoints_def(
        "<Hardpoints><Hardpoint id='1'><WeaponSlot/></Hardpoint><Hardpoint id='1'/></Hardpoints>",
    )
    .unwrap();
    assert_eq!(defs.slot_count, vec![(1, 1), (1, 0)]);
    assert_eq!(defs.slots(1), Some(0));
    let direct = HardpointDefs { slot_count: vec![(5, 1), (6, 2), (5, 3)] };
    assert_eq!(direct.slots(5), Some(3));
    assert_eq!(direct.slots(6), Some(2));
}

#[test]
fn malformed_hardpoints_are_refused() {
    for text in [
        "not xml",
        "<Hardpoint/>",
        "<Hardpoints><Door/></Hardpoints>",
        "<Hardpoints><Hardpoint/></Hardpoints>",
        "<Hardpoints><Hardpoint id='a'/></Hardpoints>",
        "<Hardpoints><Hardpoint id='1'><Slot/></Hardpoint></Hardpoints>",
    ] {
        assert!(matches!(parse_hardpoints_def(text), Err(DataError::MalformedDocument)), "{}", text);
    }
}

#[test]
fn mech_list_declares_variants() {
    let doc = parse(
        "<MechList>\
           <Mech id='1' chassis='atlas' name='as7-d' faction='InnerSphere'/>\
           <Mech id='2' chassis='timberwolf' name='TBR-PRIME' faction='Clan'/>\
         </MechList>",
    );
    let list = mech_list_from(&doc).unwrap();
    let shown: Vec<(&str, &str, Affiliation)> =
        list.iter().map(|e| (e.chassis.as_str(), e.variant.as_str(), e.faction)).collect();
    assert_eq!(
        shown,
        vec![("atlas", "as7-d", Affiliation::InnerSphere), ("timberwolf", "TBR-PRIME", Affiliation::Clan)]
    );
    for text in [
        "<MechList><Mech chassis='a' name='b'/></MechList>",
        "<MechList><Mech chassis='a' name='b' faction='Other'/></MechList>",
        "<MechList><Mech name='b' faction='Clan'/></MechList>",
        "<MechList><Mech chassis='a' faction='Clan'/></MechList>",
        "<MechList><Tank chassis='a' name='b' faction='Clan'/></MechList>",
    ] {
        assert!(matches!(mech_list_from(&parse(text)), Err(DataError::MalformedDocument)), "{}", text);
    }
}

fn listed(chassis: &str, variant: &str) -> MechListElement {
    MechListElement {
        faction: Affiliation::InnerSphere,
        chassis: chassis.to_string(),
        variant: variant.to_string(),
    }
}

#[test]
fn chassis_are_named_once_in_dictionary_order() {
    let list = vec![
        listed("catapult", "a"),
        listed("atlas", "b"),
        listed("Atlas", "c"),
        listed("catapult", "d"),
        listed("atlas", "e"),
        listed("at", "f"),
        listed("", "g"),
        listed("\u{e4}tlas", "h"),
    ];
    let names = chassis_names(&list);
    assert_eq!(names, vec!["", "Atlas", "at", "atlas", "catapult", "\u{e4}tlas"]);
    let mut expected: Vec<String> = list.iter().map(|e| e.chassis.clone()).collect();
    expected.sort();
    expected.dedup();
    assert_eq!(names, expected);
    assert_eq!(chassis_names(&vec![]), Vec::<String>::new());
}

#[test]
fn names_are_ordered_by_their_characters() {
    let order = |a: &str, b: &str| {
        let x: Vec<char> = a.chars().collect();
        let y: Vec<char> = b.chars().collect();
        name_order(&x, &y)
    };
    assert_eq!(order("a", "b"), NameOrder::Before);
    assert_eq!(order("b", "a"), NameOrder::After);
    assert_eq!(order("a", "a"), NameOrder::Same);
    assert_eq!(order("", ""), NameOrder::Same);
    assert_eq!(order("", "a"), NameOrder::Before);
    assert_eq!(order("ab", "a"), NameOrder::After);
    assert_eq!(order("Z", "a"), NameOrder::Before);
    assert_eq!(order("a\u{1f916}", "a\u{e4}"), NameOrder::After);
}

#[test]
fn variant_is_named_by_its_file() {
    assert_eq!(variant_name("Objects/mechs/atlas/as7-d.mdf"), "as7-d");
    assert_eq!(variant_name("as7-d(s).mdf"), "as7-d(s)");
    assert_eq!(variant_name("a/b.c.mdf"), "b");
    assert_eq!(variant_name("a\\b\\c.x.mdf"), "c");
    assert_eq!(variant_name("a.b/c"), "c");
    assert_eq!(variant_name(".mdf"), "");
    assert_eq!(variant_name("dir/"), "");
    assert_eq!(variant_name(""), "");
}

const VARIANT: &str = r#"<MechDefinition Version="1" HardpointPath="x">
  <Mech Variant="AS7-D" MaxTons="100" BaseTons="10.5" MaxJumpJets="0" MinEngineRating="200" MaxEngineRating="360" VariantType="Founder"/>
  <MovementTuningConfiguration MovementArchetype="Huge"/>
  <ComponentList>
    <Component Name="head" Slots="6" HP="15" CanEquipECM="0">
      <Internal ItemID="1911"/>
      <Internal ItemID="1912"/>
      <Internal ItemID="1911"/>
      <Hardpoint ID="10" Type="1"/>
    </Component>
    <Component Name="centre_torso_rear" Slots="0" HP="0"/>
    <Component Name="left_arm" Slots="12" HP="42" CanEquipECM="1">
      <Hardpoint ID="10" Type="1"/>
      <Hardpoint ID="11" Type="1"/>
      <Hardpoint ID="12" Type="0"/>
      <Hardpoint ID="13" Type="4"/>
    </Component>
    <Component Name="right_arm" Slots="12" HP="42"/>
    <Component Name="left_arm" Slots="8" HP="40">
      <Hardpoint ID="12" Type="2"/>
    </Component>
  </ComponentList>
  <QuirkList>
    <Quirk name="all_cooldown_multiplier" value="0.1"/>
    <!-- twice -->
    <Quirk name="all_cooldown_multiplier" value="-0.05"/>
    <Quirk name="armorresist_ct_additive" value="12"/>
  </QuirkList>
</MechDefinition>
"#;

fn defs() -> HardpointDefs {
    HardpointDefs { slot_count: vec![(10, 1), (11, 3), (12, 2), (13, 1)] }
}

fn internals() -> Vec<Internal> {
    vec![Internal { id: 1911, slots: 2 }, Internal { id: 1912, slots: 1 }, Internal { id: 1911, slots: 50 }]
}

fn mechlist() -> Vec<MechListElement> {
    vec![
        MechListElement {
            faction: Affiliation::Clan,
            chassis: "other".to_string(),
            variant: "AS7-D".to_string(),
        },
        MechListElement {
            faction: Affiliation::InnerSphere,
            chassis: "atlas".to_string(),
            variant: "as7-d".to_string(),
        },
        MechListElement {
            faction: Affiliation::Clan,
            chassis: "later".to_string(),
            variant: "as7-d".to_string(),
        },
    ]
}

fn variant_error(text: &str) -> bool {
    matches!(
        parse_mech_variant("as7-d", text, &defs(), &internals(), &mechlist()),
        Err(DataError::MalformedDocument)
    )
}

#[test]
fn variant_is_read_with_its_components_and_quirks() {
    let v = parse_mech_variant("as7-d", VARIANT, &defs(), &internals(), &mechlist()).unwrap();
    assert_eq!(v.chassis, "atlas");
    assert_eq!(v.variant_name, "as7-d");
    assert_eq!(v.display_name, "AS7-D");
    assert_eq!(v.specialness, Specialness::Special);
    assert_eq!(v.affiliation, Affiliation::InnerSphere);
    assert_eq!(v.max_tons, 100);
    assert_eq!(v.base_tons, Decimal { micros: 10_500_000 });
    assert_eq!(v.max_jj, 0);
    assert_eq!(v.engine_min, 200);
    assert_eq!(v.engine_max, 360);
    let names: Vec<&str> = v.components.iter().map(|c| c.0.as_str()).collect();
    assert_eq!(names, vec!["head", "left_arm", "right_arm"]);
    let quirks: Vec<(&str, i64)> = v.quirks.iter().map(|q| (q.0.as_str(), q.1.micros)).collect();
    assert_eq!(
        quirks,
        vec![
            ("all_cooldown_multiplier", 100_000),
            ("all_cooldown_multiplier", -50_000),
            ("armorresist_ct_additive", 12_000_000),
        ]
    );
}

#[test]
fn effective_slots_are_the_slots_less_the_internals() {
    let v = parse_mech_variant("as7-d", VARIANT, &defs(), &internals(), &mechlist()).unwrap();
    let head = &v.components[0].1;
    assert_eq!(head.base_slots, 6);
    assert_eq!(head.internal_ids, vec![1911, 1912, 1911]);
    assert_eq!(head.effective_slots, 6 - (2 + 1 + 2));
    assert_eq!(head.hp, 15);
    assert!(!head.can_equip_ecm);
    assert_eq!(head.hardpoint_count.get(HardpointKind::Energy), Some(1));
    assert_eq!(head.hardpoint_count.get(HardpointKind::Ballistic), None);
    let right = &v.components[2].1;
    assert_eq!(right.effective_slots, 12);
    assert!(right.hardpoint_count.is_empty());
    assert!(!right.can_equip_ecm);
}

#[test]
fn later_component_of_one_name_takes_the_place_of_the_earlier() {
    let v = parse_mech_variant("as7-d", VARIANT, &defs(), &internals(), &mechlist()).unwrap();
    let left = &v.components[1].1;
    assert_eq!(left.base_slots, 8);
    assert_eq!(left.hp, 40);
    assert!(!left.can_equip_ecm);
    assert_eq!(left.hardpoint_count.get(HardpointKind::Missile), Some(2));
    assert_eq!(left.hardpoint_count.get(HardpointKind::Energy), None);
}

#[test]
fn hardpoints_of_one_kind_count_the_slots_of_the_last() {
    let text = VARIANT.replace("<Component Name=\"left_arm\" Slots=\"8\" HP=\"40\">", "<Component Name=\"other\" Slots=\"8\" HP=\"40\">");
    let v = parse_mech_variant("as7-d", &text, &defs(), &internals(), &mechlist()).unwrap();
    let left = &v.components[1].1;
    assert!(left.can_equip_ecm);
    assert_eq!(left.hardpoint_count.get(HardpointKind::Energy), Some(3));
    assert_eq!(left.hardpoint_count.get(HardpointKind::Ballistic), Some(2));
    assert_eq!(left.hardpoint_count.get(HardpointKind::AMS), Some(1));
    assert_eq!(left.hardpoint_count.get(HardpointKind::Missile), None);
}

#[test]
fn variant_types_name_specialness() {
    for (written, expected) in [
        (" VariantType=\"Champion\"", Specialness::Champion),
        (" VariantType=\"Hero\"", Specialness::Hero),
        (" VariantType=\"Founder\"", Specialness::Special),
        (" VariantType=\"Special\"", Specialness::Special),
        (" VariantType=\"Phoenix\"", Specialness::Special),
        (" VariantType=\"Sarah\"", Specialness::Special),
        ("", Specialness::Normal),
    ] {
        let text = VARIANT.replace(" VariantType=\"Founder\"", written);
        let v = parse_mech_variant("as7-d", &text, &defs(), &internals(), &mechlist()).unwrap();
        assert_eq!(v.specialness, expected);
    }
    assert!(variant_error(&VARIANT.replace("\"Founder\"", "\"Legend\"")));
}

#[test]
fn variant_without_quirk_list_has_no_quirks() {
    let start = VARIANT.find("<QuirkList>").unwrap();
    let end = VARIANT.find("</QuirkList>").unwrap() + "</QuirkList>".len();
    let text = format!("{}{}", &VARIANT[..start], &VARIANT[end..]);
    let v = parse_mech_variant("as7-d", &text, &defs(), &internals(), &mechlist()).unwrap();
    assert!(v.quirks.is_empty());
    let empty = format!("{}<QuirkList/>{}", &VARIANT[..start], &VARIANT[end..]);
    assert!(parse_mech_variant("as7-d", &empty, &defs(), &internals(), &mechlist()).unwrap().quirks.is_empty());
}

#[test]
fn second_quirk_list_is_refused() {
    let text = VARIANT.replace("</MechDefinition>", "<QuirkList/></MechDefinition>");
    assert!(variant_error(&text));
}

#[test]
fn rear_component_must_be_empty() {
    assert!(variant_error(&VARIANT.replace(
        "<Component Name=\"centre_torso_rear\" Slots=\"0\" HP=\"0\"/>",
        "<Component Name=\"centre_torso_rear\" Slots=\"1\" HP=\"0\"/>"
    )));
    assert!(variant_error(&VARIANT.replace(
        "<Component Name=\"centre_torso_rear\" Slots=\"0\" HP=\"0\"/>",
        "<Component Name=\"centre_torso_rear\" Slots=\"0\" HP=\"3\"/>"
    )));
    assert!(variant_error(&VARIANT.replace(
        "<Component Name=\"centre_torso_rear\" Slots=\"0\" HP=\"0\"/>",
        "<Component Name=\"centre_torso_rear\" Slots=\"0\" HP=\"0\"><Hardpoint ID=\"10\" Type=\"1\"/></Component>"
    )));
    assert!(variant_error(&VARIANT.replace(
        "<Component Name=\"centre_torso_rear\" Slots=\"0\" HP=\"0\"/>",
        "<Component Name=\"centre_torso_rear\" Slots=\"0\" HP=\"0\"><Internal ItemID=\"1911\"/></Component>"
    )));
}

#[test]
fn malformed_variants_are_refused() {
    assert!(!variant_error(VARIANT));
    assert!(variant_error("<MechDefinition/>"));
    assert!(variant_error("not xml"));
    assert!(variant_error(&VARIANT.replace("MechDefinition", "Definition")));
    assert!(variant_error(&VARIANT.replace(" MaxTons=\"100\"", "")));
    assert!(variant_error(&VARIANT.replace(" MaxTons=\"100\"", " MaxTons=\"100.5\"")));
    assert!(variant_error(&VARIANT.replace(" BaseTons=\"10.5\"", " BaseTons=\"ten\"")));
    assert!(variant_error(&VARIANT.replace(" Variant=\"AS7-D\"", "")));
    assert!(variant_error(&VARIANT.replace("<MovementTuningConfiguration MovementArchetype=\"Huge\"/>", "<Mech/>")));
    assert!(variant_error(&VARIANT.replace("ComponentList", "Components")));
    assert!(variant_error(&VARIANT.replace("<Component Name=\"right_arm\"", "<Part Name=\"right_arm\"")));
    assert!(variant_error(&VARIANT.replace("<Component Name=\"right_arm\"", "<Component")));
    assert!(variant_error(&VARIANT.replace("ItemID=\"1912\"", "ItemID=\"1913\"")));
    assert!(variant_error(&VARIANT.replace("ItemID=\"1912\"", "Item=\"1912\"")));
    assert!(variant_error(&VARIANT.replace("ID=\"13\" Type=\"4\"", "ID=\"14\" Type=\"4\"")));
    assert!(variant_error(&VARIANT.replace("ID=\"13\" Type=\"4\"", "ID=\"13\" Type=\"3\"")));
    assert!(variant_error(&VARIANT.replace("ID=\"13\" Type=\"4\"", "ID=\"13\" Type=\"-0\"")));
    assert!(variant_error(&VARIANT.replace("ID=\"13\" Type=\"4\"", "ID=\"13\"")));
    assert!(variant_error(&VARIANT.replace("CanEquipECM=\"1\"", "CanEquipECM=\"yes\"")));
    assert!(variant_error(&VARIANT.replace("<Quirk name=\"armorresist_ct_additive\" value=\"12\"/>", "<Perk name=\"a\" value=\"12\"/>")));
    assert!(variant_error(&VARIANT.replace("value=\"12\"", "value=\"much\"")));
    assert!(variant_error(&VARIANT.replace("name=\"armorresist_ct_additive\"", "")));
    assert!(variant_error(&VARIANT.replace(" Slots=\"6\"", " Slots=\"-2147483648\"")));
}

#[test]
fn variant_must_be_declared_under_its_very_name() {
    let r = parse_mech_variant("AS7-d", VARIANT, &defs(), &internals(), &mechlist());
    assert!(matches!(r, Err(DataError::MalformedDocument)));
    let upper = parse_mech_variant("AS7-D", VARIANT, &defs(), &internals(), &mechlist()).unwrap();
    assert_eq!(upper.chassis, "other");
    assert_eq!(upper.affiliation, Affiliation::Clan);
    assert_eq!(upper.variant_name, "AS7-D");
}

#[test]
fn documents_can_be_written_down_by_hand() {
    let node = |parent: Option<usize>, tag: &str, attributes: &[(&str, &str)]| XmlNode {
        parent,
        is_element: true,
        tag: tag.to_string(),
        attributes: attributes
            .iter()
            .map(|(n, v)| XmlAttribute { name: n.to_string(), value: v.to_string() })
            .collect(),
    };
    let doc = XmlDocument {
        nodes: vec![
            XmlNode { parent: None, is_element: false, tag: String::new(), attributes: vec![] },
            node(Some(0), "ModuleList", &[]),
            node(Some(1), "Internal", &[("id", "5"), ("id", "6")]),
            node(Some(2), "ModuleStats", &[("slots", "3")]),
        ],
    };
    assert_eq!(internals_from(&doc).unwrap(), vec![Internal { id: 5, slots: 3 }]);
}
