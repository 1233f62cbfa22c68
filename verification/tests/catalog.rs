use std::io::Write;

use mechdata::catalog::assemble_catalog;
use mechdata::catalog::chassis_documents;
use mechdata::catalog::chassis_variants_from;
use mechdata::catalog::covers;
use mechdata::catalog::join_variants;
use mechdata::catalog::names_agree;
use mechdata::catalog::parse_internals;
use mechdata::catalog::parse_mech_chassis;
use mechdata::catalog::parse_mech_list;
use mechdata::catalog::parse_weapons;
use mechdata::catalog::read_document;
use mechdata::catalog::read_text;
use mechdata::catalog::ChassisDocuments;
use mechdata::error::DataError;
use mechdata::internals::Internal;
use mechdata::mechs::chassis_names;
use mechdata::mechs::MechListElement;
use mechdata::mwo_types::Affiliation;
use mechdata::mwo_types::Decimal;
use mechdata::mwo_types::Specialness;
use mechdata::mwo_types::Variant;
use mechdata::pak_archive::PakArchive;

fn deflate(payload: &[u8]) -> Vec<u8> {
    let mut encoder = libflate::deflate::Encoder::new(Vec::new());
    encoder.write_all(payload).unwrap();
    encoder.finish().into_result().unwrap()
}

fn record(name: &str, compressed: &[u8]) -> Vec<u8> {
    let mut out = Vec::new();
    out.extend_from_slice(b"PK\x03\x04");
    out.extend_from_slice(&[20, 0, 0, 0, 8, 0, 0, 0, 0, 0, 0, 0, 0, 0]);
    out.extend_from_slice(&(compressed.len() as u32).to_le_bytes());
    out.extend_from_slice(&0u32.to_le_bytes());
    out.extend_from_slice(&(name.len() as u16).to_le_bytes());
    out.extend_from_slice(&0u16.to_le_bytes());
    out.extend_from_slice(name.as_bytes());
    out.extend_from_slice(compressed);
    out
}

fn archive(files: &[(&str, &[u8])]) -> PakArchive {
    let mut out = Vec::new();
    for (name, payload) in files {
        out.extend(record(name, &deflate(payload)));
    }
    out.extend_from_slice(b"PK\x01\x02");
    PakArchive::new(out).unwrap()
}

const WEAPONS: &str = "<WeaponList>\
    <Weapon id='1' name='Laser' faction='Clan' HardpointAliases='Laser,Energy'>\
      <WeaponStats slots='1' tons='1' cooldown='3.25' speed='0'/>\
    </Weapon></WeaponList>";

const INTERNALS: &str = "<ModuleList>\
    <Internal id='1911'><ModuleStats slots='2'/></Internal>\
    <Internal id='1912'><ModuleStats slots='1'/></Internal></ModuleList>";

const MECHS: &str = "<MechList>\
    <Mech chassis='timberwolf' name='tbr-prime' faction='Clan'/>\
    <Mech chassis='atlas' name='as7-d' faction='InnerSphere'/>\
    <Mech chassis='atlas' name='AS7-K' faction='InnerSphere'/></MechList>";

const HARDPOINTS: &str = "<Hardpoints>\
    <Hardpoint id='1'><WeaponSlot/><WeaponSlot/></Hardpoint>\
    <WeaponDoorSet id='2'/></Hardpoints>";

fn mdf(display: &str, slots: i32) -> String {
    format!(
        "<MechDefinition><Mech Variant='{}' MaxTons='100' BaseTons='10' MaxJumpJets='0' \
         MinEngineRating='200' MaxEngineRating='360'/><ComponentList>\
         <Component Name='head' Slots='{}' HP='15'><Internal ItemID='1911'/>\
         <Hardpoint ID='1' Type='1'/></Component>\
         <Component Name='head_rear' Slots='0' HP='0'/></ComponentList></MechDefinition>",
        display, slots
    )
}

fn game_data() -> PakArchive {
    archive(&[
        ("Libs/Items/Mechs/Mechs.xml", MECHS.as_bytes()),
        ("Libs/Items/Weapons/Weapons.xml", WEAPONS.as_bytes()),
        ("Libs/Items/Modules/Internals.xml", INTERNALS.as_bytes()),
        ("Libs/Items/Other.bin", &[0xff, 0xfe, 0x00]),
    ])
}

fn atlas() -> PakArchive {
    let d = mdf("AS7-D", 6);
    let k = mdf("AS7-K", 8);
    archive(&[
        ("Objects/mechs/atlas/atlas.cdf", b"<CharacterDefinition/>"),
        ("Objects/mechs/atlas/as7-d.mdf", d.as_bytes()),
        ("Objects/mechs/atlas/old-hardpoints.xml", b"<Hardpoints/>"),
        ("Objects/mechs/atlas/atlas-hardpoints.xml", HARDPOINTS.as_bytes()),
        ("Objects/mechs/atlas/AS7-K.mdf", k.as_bytes()),
        ("Objects/mechs/atlas/body.dds", &[1, 2, 3]),
    ])
}

fn variant(name: &str) -> Variant {
    Variant {
        chassis: "c".to_string(),
        variant_name: name.to_string(),
        display_name: name.to_string(),
        specialness: Specialness::Normal,
        affiliation: Affiliation::Clan,
        max_tons: 20,
        base_tons: Decimal { micros: 0 },
        max_jj: 0,
        engine_min: 0,
        engine_max: 0,
        components: vec![],
        quirks: vec![],
    }
}

fn names(list: &[&str]) -> Vec<String> {
    list.iter().map(|n| n.to_string()).collect()
}

#[test]
fn shared_archive_yields_weapons_internals_and_mech_list() {
    let data = game_data();
    let weapons = parse_weapons(&data).unwrap();
    assert_eq!(weapons.len(), 1);
    assert_eq!(weapons[0].name, "Laser");
    assert_eq!(weapons[0].cooldown, Decimal { micros: 3_250_000 });
    assert_eq!(
        parse_internals(&data).unwrap(),
        vec![Internal { id: 1911, slots: 2 }, Internal { id: 1912, slots: 1 }]
    );
    let list = parse_mech_list(&data).unwrap();
    let declared: Vec<&str> = list.iter().map(|e| e.variant.as_str()).collect();
    assert_eq!(declared, vec!["tbr-prime", "as7-d", "AS7-K"]);
    assert_eq!(chassis_names(&list), vec!["atlas", "timberwolf"]);
}

#[test]
fn missing_document_is_not_found() {
    let data = archive(&[("Libs/Items/Weapons/weapons.xml", WEAPONS.as_bytes())]);
    assert!(matches!(parse_weapons(&data), Err(DataError::EntryNotFound)));
    assert!(matches!(parse_internals(&data), Err(DataError::EntryNotFound)));
    assert!(matches!(parse_mech_list(&data), Err(DataError::EntryNotFound)));
}

#[test]
fn documents_must_be_utf8_and_xml() {
    let data = game_data();
    assert_eq!(read_text(&data, "Libs/Items/Other.bin"), Err(DataError::MalformedDocument));
    assert_eq!(read_text(&data, "Libs/Items/Weapons/Weapons.xml").unwrap(), WEAPONS);
    let other = archive(&[
        ("Libs/Items/Weapons/Weapons.xml", b"<WeaponList>"),
        ("Libs/Items/Modules/Internals.xml", &[0xc3, 0x28]),
        ("text", "\u{e4}\u{1f916}".as_bytes()),
    ]);
    assert!(matches!(parse_weapons(&other), Err(DataError::MalformedDocument)));
    assert!(matches!(parse_internals(&other), Err(DataError::MalformedDocument)));
    assert!(matches!(read_document(&other, "text"), Err(DataError::MalformedDocument)));
    assert_eq!(read_text(&other, "text").unwrap(), "\u{e4}\u{1f916}");
}

#[test]
fn document_that_does_not_inflate_fails_to_decode() {
    let mut bytes = record("Libs/Items/Weapons/Weapons.xml", &[0xff, 0xff]);
    bytes.extend_from_slice(b"PK\x01\x02");
    let data = PakArchive::new(bytes).unwrap();
    assert!(matches!(parse_weapons(&data), Err(DataError::DecodeError)));
}

#[test]
fn chassis_archive_yields_its_variants() {
    let data = game_data();
    let internals = parse_internals(&data).unwrap();
    let list = parse_mech_list(&data).unwrap();
    let variants = parse_mech_chassis(&atlas(), &internals, &list).unwrap();
    let shown: Vec<(&str, &str, &str, i32)> = variants
        .iter()
        .map(|v| {
            (
                v.chassis.as_str(),
                v.variant_name.as_str(),
                v.display_name.as_str(),
                v.components[0].1.effective_slots,
            )
        })
        .collect();
    assert_eq!(shown, vec![("atlas", "as7-d", "AS7-D", 4), ("atlas", "AS7-K", "AS7-K", 6)]);
    for v in &variants {
        assert_eq!(v.affiliation, Affiliation::InnerSphere);
        assert_eq!(v.components.len(), 1);
        assert_eq!(v.components[0].0, "head");
    }
}

#[test]
fn last_hardpoints_document_counts() {
    let documents = chassis_documents(&atlas()).unwrap();
    assert_eq!(documents.hardpoints.as_deref(), Some(HARDPOINTS));
    let files: Vec<&str> = documents.variants.iter().map(|v| v.0.as_str()).collect();
    assert_eq!(files, vec!["Objects/mechs/atlas/as7-d.mdf", "Objects/mechs/atlas/AS7-K.mdf"]);
    assert_eq!(documents.variants[0].1, mdf("AS7-D", 6));
}

#[test]
fn chassis_without_hardpoints_is_malformed() {
    let data = game_data();
    let internals = parse_internals(&data).unwrap();
    let list = parse_mech_list(&data).unwrap();
    let d = mdf("AS7-D", 6);
    let pak = archive(&[("as7-d.mdf", d.as_bytes())]);
    assert!(matches!(
        parse_mech_chassis(&pak, &internals, &list),
        Err(DataError::MalformedDocument)
    ));
    let empty = archive(&[]);
    assert!(matches!(
        parse_mech_chassis(&empty, &internals, &list),
        Err(DataError::MalformedDocument)
    ));
    let only = archive(&[("x-hardpoints.xml", HARDPOINTS.as_bytes())]);
    assert_eq!(parse_mech_chassis(&only, &internals, &list).unwrap().len(), 0);
}

#[test]
fn undeclared_variant_in_a_chassis_is_malformed() {
    let data = game_data();
    let internals = parse_internals(&data).unwrap();
    let list = parse_mech_list(&data).unwrap();
    let d = mdf("AS7-D", 6);
    let pak = archive(&[
        ("x-hardpoints.xml", HARDPOINTS.as_bytes()),
        ("mechs/as7-s.mdf", d.as_bytes()),
    ]);
    assert!(matches!(
        parse_mech_chassis(&pak, &internals, &list),
        Err(DataError::MalformedDocument)
    ));
}

#[test]
fn fault_in_reading_comes_before_fault_in_documents() {
    let data = game_data();
    let internals = parse_internals(&data).unwrap();
    let list = parse_mech_list(&data).unwrap();
    let mut bytes = record("broken.mdf", &deflate(b"not xml"));
    bytes.extend(record("x-hardpoints.xml", &[0xff, 0xff]));
    bytes.extend_from_slice(b"PK\x01\x02");
    let pak = PakArchive::new(bytes).unwrap();
    assert!(matches!(parse_mech_chassis(&pak, &internals, &list), Err(DataError::DecodeError)));
}

#[test]
fn documents_of_a_chassis_can_be_given_as_texts() {
    let documents = ChassisDocuments {
        hardpoints: Some(HARDPOINTS.to_string()),
        variants: vec![("dir\\tbr-prime.variant.mdf".to_string(), mdf("TBR-PRIME", 3))],
    };
    let list = vec![MechListElement {
        faction: Affiliation::Clan,
        chassis: "timberwolf".to_string(),
        variant: "tbr-prime".to_string(),
    }];
    let internals = vec![Internal { id: 1911, slots: 5 }];
    let variants = chassis_variants_from(&documents, &internals, &list).unwrap();
    assert_eq!(variants.len(), 1);
    assert_eq!(variants[0].variant_name, "tbr-prime");
    assert_eq!(variants[0].components[0].1.effective_slots, -2);
    let none = ChassisDocuments { hardpoints: None, variants: vec![] };
    assert!(matches!(
        chassis_variants_from(&none, &internals, &list),
        Err(DataError::MalformedDocument)
    ));
}

#[test]
fn catalog_of_all_declared_variants_is_assembled_in_order() {
    let list = parse_mech_list(&game_data()).unwrap();
    let per_chassis =
        vec![vec![variant("AS7-D"), variant("as7-k")], vec![], vec![variant("TBR-Prime")]];
    let catalog = assemble_catalog(&list, per_chassis).unwrap();
    let found: Vec<&str> = catalog.iter().map(|v| v.variant_name.as_str()).collect();
    assert_eq!(found, vec!["AS7-D", "as7-k", "TBR-Prime"]);
}

#[test]
fn catalog_that_lacks_a_declared_variant_is_inconsistent() {
    let list = parse_mech_list(&game_data()).unwrap();
    let per_chassis = vec![vec![variant("as7-d")], vec![variant("tbr-prime")]];
    assert!(matches!(assemble_catalog(&list, per_chassis), Err(DataError::CatalogInconsistent)));
    assert!(matches!(assemble_catalog(&list, vec![]), Err(DataError::CatalogInconsistent)));
}

#[test]
fn catalog_with_an_undeclared_variant_is_inconsistent() {
    let list = parse_mech_list(&game_data()).unwrap();
    let per_chassis = vec![vec![
        variant("as7-d"),
        variant("as7-k"),
        variant("tbr-prime"),
        variant("tbr-c"),
    ]];
    assert!(matches!(assemble_catalog(&list, per_chassis), Err(DataError::CatalogInconsistent)));
}

#[test]
fn empty_catalog_agrees_with_an_empty_list() {
    assert_eq!(assemble_catalog(&vec![], vec![vec![], vec![]]).unwrap().len(), 0);
    assert!(matches!(
        assemble_catalog(&vec![], vec![vec![variant("x")]]),
        Err(DataError::CatalogInconsistent)
    ));
}

#[test]
fn variants_found_twice_count_once() {
    let list = parse_mech_list(&game_data()).unwrap();
    let per_chassis = vec![
        vec![variant("as7-d"), variant("AS7-D"), variant("as7-k")],
        vec![variant("tbr-prime")],
    ];
    assert_eq!(assemble_catalog(&list, per_chassis).unwrap().len(), 4);
}

#[test]
fn names_agree_as_sets() {
    assert!(names_agree(&names(&["a", "b", "a"]), &names(&["b", "a"])));
    assert!(names_agree(&names(&[]), &names(&[])));
    assert!(!names_agree(&names(&["a"]), &names(&[])));
    assert!(!names_agree(&names(&["a", "b"]), &names(&["a", "c"])));
    assert!(!names_agree(&names(&["a"]), &names(&["A"])));
    assert!(covers(&names(&["a"]), &names(&["b", "a"])));
    assert!(!covers(&names(&["b", "a"]), &names(&["a"])));
    assert!(covers(&names(&[]), &names(&["a"])));
}

#[test]
fn lists_are_joined_one_behind_the_other() {
    let joined = join_variants(vec![
        vec![variant("a"), variant("b")],
        vec![],
        vec![variant("c")],
        vec![variant("d"), variant("e")],
    ]);
    let found: Vec<&str> = joined.iter().map(|v| v.variant_name.as_str()).collect();
    assert_eq!(found, vec!["a", "b", "c", "d", "e"]);
    assert!(join_variants(vec![]).is_empty());
}
