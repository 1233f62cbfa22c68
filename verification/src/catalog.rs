use vstd::prelude::*;
use vstd::utf8::decode_utf8;
use vstd::utf8::valid_utf8;

use crate::error::DataError;
use crate::hardpoints::hardpoint_defs_from;
use crate::hardpoints::hardpoint_defs_of;
use crate::hardpoints::HardpointDefs;
use crate::internals::internals_from;
use crate::internals::internals_of;
use crate::internals::Internal;
use crate::mechs::mech_list_from;
use crate::mechs::mech_list_of;
use crate::mechs::mech_list_view;
use crate::mechs::MechListElement;
use crate::mechs::MechListElementView;
use crate::mwo_types::variants_view;
use crate::mwo_types::weapons_view;
use crate::mwo_types::Variant;
use crate::mwo_types::VariantView;
use crate::mwo_types::Weapon;
use crate::pak_archive::string_from_utf8;
use crate::pak_archive::unpacked;
use crate::pak_archive::EntryView;
use crate::pak_archive::PakArchive;
use crate::text::ends_with;
use crate::text::lowercased;
use crate::text::point_at;
use crate::text::str_eq;
use crate::text::strings_view;
use crate::text::to_chars;
use crate::text::to_lowercase;
use crate::variants::variant_from;
use crate::variants::variant_of;
use crate::weapons::weapons_from;
use crate::weapons::weapons_of;
use crate::xml_doc::xml_parsed;
use crate::xml_doc::NodeView;
use crate::xml_doc::XmlDocument;

verus! {

/// The text of the file `name` of an archive: its bytes inflated, which must
/// be UTF-8.
pub open spec fn document_text(bytes: Seq<u8>, entries: Seq<EntryView>, name: Seq<char>) -> Result<
    Seq<char>,
    DataError,
> {
    match unpacked(bytes, entries, name) {
        Err(e) => Err(e),
        Ok(unpacked) => if valid_utf8(unpacked) {
            Ok(decode_utf8(unpacked))
        } else {
            Err(DataError::MalformedDocument)
        },
    }
}

/// The document that the file `name` of an archive holds.
pub open spec fn document_nodes(bytes: Seq<u8>, entries: Seq<EntryView>, name: Seq<char>) -> Result<
    Seq<NodeView>,
    DataError,
> {
    match document_text(bytes, entries, name) {
        Err(e) => Err(e),
        Ok(text) => match xml_parsed(text) {
            Some(nodes) => Ok(nodes),
            None => Err(DataError::MalformedDocument),
        },
    }
}

/// What is read from a document of an archive: the fault met on the way to
/// the document, or what `read` makes of its nodes, `None` standing for a
/// malformed document.
pub open spec fn read_from<T>(
    nodes: Result<Seq<NodeView>, DataError>,
    read: spec_fn(Seq<NodeView>) -> Option<T>,
) -> Result<T, DataError> {
    match nodes {
        Err(e) => Err(e),
        Ok(nodes) => match read(nodes) {
            Some(value) => Ok(value),
            None => Err(DataError::MalformedDocument),
        },
    }
}

/// The text of the file `filename` of `archive`.
pub fn read_text(archive: &PakArchive, filename: &str) -> (r: Result<String, DataError>)
    ensures
        match r {
            Ok(text) => document_text(archive.bytes(), archive.entries(), filename@) matches Ok(t)
                && t == text@,
            Err(e) => document_text(archive.bytes(), archive.entries(), filename@) matches Err(f)
                && f == e,
        },
{
    let bytes = archive.unpack(filename)?;
    match string_from_utf8(bytes) {
        Ok(text) => Ok(text),
        Err(_) => Err(DataError::MalformedDocument),
    }
}

/// The document that the file `filename` of `archive` holds.
pub fn read_document(archive: &PakArchive, filename: &str) -> (r: Result<XmlDocument, DataError>)
    ensures
        match r {
            Ok(doc) => document_nodes(archive.bytes(), archive.entries(), filename@) matches Ok(n)
                && n == doc@,
            Err(e) => document_nodes(archive.bytes(), archive.entries(), filename@) matches Err(f)
                && f == e,
        },
{
    let text = read_text(archive, filename)?;
    XmlDocument::parse(text.as_str())
}

/// The weapons that the shared archive lists, in `Libs/Items/Weapons/Weapons.xml`.
pub fn parse_weapons(archive: &PakArchive) -> (r: Result<Vec<Weapon>, DataError>)
    ensures
        match r {
            Ok(weapons) => read_from(
                document_nodes(
                    archive.bytes(),
                    archive.entries(),
                    "Libs/Items/Weapons/Weapons.xml"@,
                ),
                |nodes: Seq<NodeView>| weapons_of(nodes),
            ) matches Ok(w) && w == weapons_view(weapons@),
            Err(e) => read_from(
                document_nodes(
                    archive.bytes(),
                    archive.entries(),
                    "Libs/Items/Weapons/Weapons.xml"@,
                ),
                |nodes: Seq<NodeView>| weapons_of(nodes),
            ) matches Err(f) && f == e,
        },
{
    let doc = read_document(archive, "Libs/Items/Weapons/Weapons.xml")?;
    weapons_from(&doc)
}

/// The internals that the shared archive lists, in
/// `Libs/Items/Modules/Internals.xml`.
pub fn parse_internals(archive: &PakArchive) -> (r: Result<Vec<Internal>, DataError>)
    ensures
        match r {
            Ok(internals) => read_from(
                document_nodes(
                    archive.bytes(),
                    archive.entries(),
                    "Libs/Items/Modules/Internals.xml"@,
                ),
                |nodes: Seq<NodeView>| internals_of(nodes),
            ) matches Ok(i) && i == internals@,
            Err(e) => read_from(
                document_nodes(
                    archive.bytes(),
                    archive.entries(),
                    "Libs/Items/Modules/Internals.xml"@,
                ),
                |nodes: Seq<NodeView>| internals_of(nodes),
            ) matches Err(f) && f == e,
        },
{
    let doc = read_document(archive, "Libs/Items/Modules/Internals.xml")?;
    internals_from(&doc)
}

/// The variants that the shared archive declares, in
/// `Libs/Items/Mechs/Mechs.xml`.
pub fn parse_mech_list(archive: &PakArchive) -> (r: Result<Vec<MechListElement>, DataError>)
    ensures
        match r {
            Ok(list) => read_from(
                document_nodes(archive.bytes(), archive.entries(), "Libs/Items/Mechs/Mechs.xml"@),
                |nodes: Seq<NodeView>| mech_list_of(nodes),
            ) matches Ok(l) && l == mech_list_view(list@),
            Err(e) => read_from(
                document_nodes(archive.bytes(), archive.entries(), "Libs/Items/Mechs/Mechs.xml"@),
                |nodes: Seq<NodeView>| mech_list_of(nodes),
            ) matches Err(f) && f == e,
        },
{
    let doc = read_document(archive, "Libs/Items/Mechs/Mechs.xml")?;
    mech_list_from(&doc)
}

/// The hardpoints that the text `contents` defines.
pub fn parse_hardpoints_def(contents: &str) -> (r: Result<HardpointDefs, DataError>)
    ensures
        match r {
            Ok(defs) => xml_parsed(contents@) matches Some(nodes) && hardpoint_defs_of(nodes)
                == Some(defs.slot_count@),
            Err(e) => e == DataError::MalformedDocument && (xml_parsed(contents@) matches Some(
                nodes,
            ) ==> hardpoint_defs_of(nodes) is None),
        },
{
    let doc = XmlDocument::parse(contents)?;
    hardpoint_defs_from(&doc)
}

/// Whether `c` parts the directories of a path.
pub open spec fn is_separator(c: char) -> bool {
    c == '/' || c == '\\'
}

/// Where the last part of the path `name` begins: behind its last separator.
pub open spec fn stem_start(name: Seq<char>) -> int
    decreases name.len(),
{
    if name.len() == 0 {
        0
    } else if is_separator(name.last()) {
        name.len() as int
    } else {
        stem_start(name.drop_last())
    }
}

/// The name of the variant that the file `filename` defines: the last part
/// of the path, up to its first point.
pub open spec fn variant_name_of(filename: Seq<char>) -> Seq<char> {
    let last = filename.subrange(stem_start(filename), filename.len() as int);
    last.subrange(0, point_at(last))
}

/// The last part of a path begins where a separator stands before it and
/// none behind.
proof fn lemma_stem_start(name: Seq<char>, k: int)
    requires
        0 <= k <= name.len(),
        forall|j: int| k <= j < name.len() ==> !is_separator(name[j]),
        k > 0 ==> is_separator(name[k - 1]),
    ensures
        stem_start(name) == k,
    decreases name.len(),
{
    if name.len() > 0 && k < name.len() {
        assert forall|j: int| k <= j < name.drop_last().len() implies !is_separator(
            name.drop_last()[j],
        ) by {}
        lemma_stem_start(name.drop_last(), k);
    }
}

/// The name of the variant that the file `filename` defines.
pub fn variant_name(filename: &str) -> (name: String)
    ensures
        name@ == variant_name_of(filename@),
{
    let chars = to_chars(filename);
    let n: usize = chars.len();
    let mut start: usize = n;
    while start > 0 && !(chars[start - 1] == '/' || chars[start - 1] == '\\')
        invariant
            start <= n,
            n == chars@.len(),
            forall|j: int| start <= j < n ==> !is_separator(chars@[j]),
        decreases start,
    {
        start = start - 1;
    }
    proof {
        lemma_stem_start(chars@, start as int);
    }
    let ghost last = chars@.subrange(start as int, n as int);
    let mut end: usize = start;
    while end < n && chars[end] != '.'
        invariant
            start <= end <= n,
            n == chars@.len(),
            forall|j: int| start <= j < end ==> chars@[j] != '.',
        decreases n - end,
    {
        end = end + 1;
    }
    proof {
        assert forall|i: int| 0 <= i < end - start implies last[i] != '.' by {}
        crate::text::lemma_point_found(last, end - start);
    }
    filename.substring_char(start, end).to_owned()
}

/// The texts of the documents that describe a chassis.
pub ghost struct ChassisTexts {
    /// The text that defines the hardpoints, if one was met.
    pub hardpoints: Option<Seq<char>>,
    /// The texts that define variants, each with the name of its file.
    pub variants: Seq<(Seq<char>, Seq<char>)>,
}

/// The texts that the first `n` files of a chassis archive hold: of the files
/// whose names end in `-hardpoints.xml` the last one, and every file whose
/// name ends in `.mdf`, in order; or the first fault met in reading them.
pub open spec fn chassis_texts(bytes: Seq<u8>, entries: Seq<EntryView>, n: int) -> Result<
    ChassisTexts,
    DataError,
>
    decreases n,
{
    if n <= 0 {
        Ok(ChassisTexts { hardpoints: None, variants: Seq::empty() })
    } else {
        match chassis_texts(bytes, entries, n - 1) {
            Err(e) => Err(e),
            Ok(texts) => {
                let name = entries[n - 1].name;
                if "-hardpoints.xml"@.is_suffix_of(name) {
                    match document_text(bytes, entries, name) {
                        Err(e) => Err(e),
                        Ok(text) => Ok(ChassisTexts { hardpoints: Some(text), ..texts }),
                    }
                } else if ".mdf"@.is_suffix_of(name) {
                    match document_text(bytes, entries, name) {
                        Err(e) => Err(e),
                        Ok(text) => Ok(
                            ChassisTexts { variants: texts.variants.push((name, text)), ..texts },
                        ),
                    }
                } else {
                    Ok(texts)
                }
            },
        }
    }
}

/// The variants that the texts `items` define, each called by the name of
/// its file. `None` where one of them is malformed.
pub open spec fn variants_of_texts(
    items: Seq<(Seq<char>, Seq<char>)>,
    defs: Seq<(i32, i32)>,
    internals: Seq<Internal>,
    mechlist: Seq<MechListElementView>,
) -> Option<Seq<VariantView>>
    decreases items.len(),
{
    if items.len() == 0 {
        Some(Seq::empty())
    } else {
        match (
            variants_of_texts(items.drop_last(), defs, internals, mechlist),
            xml_parsed(items.last().1),
        ) {
            (Some(earlier), Some(nodes)) => match variant_of(
                nodes,
                variant_name_of(items.last().0),
                defs,
                internals,
                mechlist,
            ) {
                Some(variant) => Some(earlier.push(variant)),
                None => None,
            },
            _ => None,
        }
    }
}

/// The variants that the documents of a chassis define. `None` where the
/// hardpoints are not defined or a document is malformed.
pub open spec fn chassis_variants(
    texts: ChassisTexts,
    internals: Seq<Internal>,
    mechlist: Seq<MechListElementView>,
) -> Option<Seq<VariantView>> {
    match texts.hardpoints {
        None => None,
        Some(text) => match xml_parsed(text) {
            None => None,
            Some(nodes) => match hardpoint_defs_of(nodes) {
                None => None,
                Some(defs) => variants_of_texts(texts.variants, defs, internals, mechlist),
            },
        },
    }
}

/// The variants that a chassis archive defines.
pub open spec fn mech_chassis(
    bytes: Seq<u8>,
    entries: Seq<EntryView>,
    internals: Seq<Internal>,
    mechlist: Seq<MechListElementView>,
) -> Result<Seq<VariantView>, DataError> {
    match chassis_texts(bytes, entries, entries.len() as int) {
        Err(e) => Err(e),
        Ok(texts) => match chassis_variants(texts, internals, mechlist) {
            Some(variants) => Ok(variants),
            None => Err(DataError::MalformedDocument),
        },
    }
}

/// No variant has two components of one name.
pub open spec fn all_well_formed(variants: Seq<Variant>) -> bool {
    forall|i: int| 0 <= i < variants.len() ==> (#[trigger] variants[i]).well_formed()
}

/// The documents that describe a chassis, as texts.
pub struct ChassisDocuments {
    pub hardpoints: Option<String>,
    pub variants: Vec<(String, String)>,
}

/// What a run of named texts stands for.
pub open spec fn texts_view(texts: Seq<(String, String)>) -> Seq<(Seq<char>, Seq<char>)> {
    texts.map_values(|t: (String, String)| (t.0@, t.1@))
}

impl View for ChassisDocuments {
    type V = ChassisTexts;

    open spec fn view(&self) -> ChassisTexts {
        ChassisTexts {
            hardpoints: match self.hardpoints {
                Some(text) => Some(text@),
                None => None,
            },
            variants: texts_view(self.variants@),
        }
    }
}

/// A fault met in the first files of an archive is the outcome for more.
proof fn lemma_chassis_texts_fault(bytes: Seq<u8>, entries: Seq<EntryView>, n: int, m: int)
    requires
        0 <= n <= m,
        chassis_texts(bytes, entries, n) is Err,
    ensures
        chassis_texts(bytes, entries, m) == chassis_texts(bytes, entries, n),
    decreases m,
{
    if n < m {
        lemma_chassis_texts_fault(bytes, entries, n, m - 1);
    }
}

/// What is malformed among the first texts is malformed as a whole.
proof fn lemma_variants_of_texts_fault(
    items: Seq<(Seq<char>, Seq<char>)>,
    defs: Seq<(i32, i32)>,
    internals: Seq<Internal>,
    mechlist: Seq<MechListElementView>,
    n: int,
)
    requires
        0 <= n <= items.len(),
        variants_of_texts(items.subrange(0, n), defs, internals, mechlist) is None,
    ensures
        variants_of_texts(items, defs, internals, mechlist) is None,
    decreases items.len(),
{
    if n == items.len() {
        assert(items.subrange(0, n) == items);
    } else {
        assert(items.drop_last().subrange(0, n) == items.subrange(0, n));
        lemma_variants_of_texts_fault(items.drop_last(), defs, internals, mechlist, n);
    }
}

/// The texts of the documents that describe the chassis of `archive`.
pub fn chassis_documents(archive: &PakArchive) -> (r: Result<ChassisDocuments, DataError>)
    ensures
        match r {
            Ok(documents) => chassis_texts(
                archive.bytes(),
                archive.entries(),
                archive.entries().len() as int,
            ) matches Ok(t) && t == documents@,
            Err(e) => chassis_texts(
                archive.bytes(),
                archive.entries(),
                archive.entries().len() as int,
            ) matches Err(f) && f == e,
        },
{
    let names = archive.file_list();
    let mut documents = ChassisDocuments { hardpoints: None, variants: Vec::new() };
    let hardpoints_suffix = to_chars("-hardpoints.xml");
    let variant_suffix = to_chars(".mdf");
    let mut i: usize = 0;
    assert(texts_view(documents.variants@) == Seq::<(Seq<char>, Seq<char>)>::empty());
    while i < names.len()
        invariant
            i <= names@.len(),
            names@.len() == archive.entries().len(),
            forall|k: int|
                0 <= k < names@.len() ==> (#[trigger] names@[k])@ == archive.entries()[k].name,
            hardpoints_suffix@ == "-hardpoints.xml"@,
            variant_suffix@ == ".mdf"@,
            chassis_texts(archive.bytes(), archive.entries(), i as int) matches Ok(t) && t
                == documents@,
        decreases names@.len() - i,
    {
        let filename = names[i].as_str();
        let chars = to_chars(filename);
        let is_hardpoints = ends_with(chars.as_slice(), hardpoints_suffix.as_slice());
        let is_variant = ends_with(chars.as_slice(), variant_suffix.as_slice());
        if is_hardpoints || is_variant {
            let text = match read_text(archive, filename) {
                Ok(text) => text,
                Err(e) => {
                    proof {
                        lemma_chassis_texts_fault(
                            archive.bytes(),
                            archive.entries(),
                            i + 1,
                            archive.entries().len() as int,
                        );
                    }
                    return Err(e);
                },
            };
            if is_hardpoints {
                documents.hardpoints = Some(text);
            } else {
                let named = (names[i].clone(), text);
                assert(texts_view(documents.variants@.push(named)) == texts_view(
                    documents.variants@,
                ).push((named.0@, named.1@)));
                documents.variants.push(named);
            }
        }
        i = i + 1;
    }
    Ok(documents)
}

/// The variants that the documents of a chassis define.
pub fn chassis_variants_from(
    documents: &ChassisDocuments,
    internals: &Vec<Internal>,
    mechlist: &Vec<MechListElement>,
) -> (r: Result<Vec<Variant>, DataError>)
    ensures
        match r {
            Ok(variants) => {
                &&& chassis_variants(documents@, internals@, mech_list_view(mechlist@)) == Some(
                    variants_view(variants@),
                )
                &&& all_well_formed(variants@)
            },
            Err(e) => e == DataError::MalformedDocument && chassis_variants(
                documents@,
                internals@,
                mech_list_view(mechlist@),
            ) is None,
        },
{
    let hardpoints = match &documents.hardpoints {
        Some(text) => parse_hardpoints_def(text.as_str())?,
        None => {
            return Err(DataError::MalformedDocument);
        },
    };
    let ghost items = texts_view(documents.variants@);
    let mut variants: Vec<Variant> = Vec::new();
    let mut k: usize = 0;
    while k < documents.variants.len()
        invariant
            k <= documents.variants@.len(),
            items == texts_view(documents.variants@),
            documents@.hardpoints matches Some(text) && xml_parsed(text) matches Some(nodes)
                && hardpoint_defs_of(nodes) == Some(hardpoints.slot_count@),
            variants_of_texts(
                items.subrange(0, k as int),
                hardpoints.slot_count@,
                internals@,
                mech_list_view(mechlist@),
            ) == Some(variants_view(variants@)),
            all_well_formed(variants@),
        decreases documents.variants@.len() - k,
    {
        assert(items.subrange(0, k + 1).drop_last() == items.subrange(0, k as int));
        let name = variant_name(documents.variants[k].0.as_str());
        let parsed = match XmlDocument::parse(documents.variants[k].1.as_str()) {
            Ok(doc) => variant_from(name.as_str(), &doc, &hardpoints, internals, mechlist),
            Err(e) => Err(e),
        };
        match parsed {
            Err(e) => {
                proof {
                    lemma_variants_of_texts_fault(
                        items,
                        hardpoints.slot_count@,
                        internals@,
                        mech_list_view(mechlist@),
                        k + 1,
                    );
                }
                return Err(DataError::MalformedDocument);
            },
            Ok(variant) => {
                assert(variants_view(variants@.push(variant)) == variants_view(variants@).push(
                    variant@,
                ));
                variants.push(variant);
            },
        }
        k = k + 1;
    }
    assert(items.subrange(0, k as int) == items);
    Ok(variants)
}

/// The variants that the chassis archive `archive` defines.
pub fn parse_mech_chassis(
    archive: &PakArchive,
    internals: &Vec<Internal>,
    mechlist: &Vec<MechListElement>,
) -> (r: Result<Vec<Variant>, DataError>)
    ensures
        match r {
            Ok(variants) => {
                &&& mech_chassis(
                    archive.bytes(),
                    archive.entries(),
                    internals@,
                    mech_list_view(mechlist@),
                ) matches Ok(v) && v == variants_view(variants@)
                &&& all_well_formed(variants@)
            },
            Err(e) => mech_chassis(
                archive.bytes(),
                archive.entries(),
                internals@,
                mech_list_view(mechlist@),
            ) matches Err(f) && f == e,
        },
{
    let documents = chassis_documents(archive)?;
    chassis_variants_from(&documents, internals, mechlist)
}

/// The lists one behind the other.
pub open spec fn joined<T>(lists: Seq<Seq<T>>) -> Seq<T>
    decreases lists.len(),
{
    if lists.len() == 0 {
        Seq::empty()
    } else {
        joined(lists.drop_last()) + lists.last()
    }
}

/// The names that the list of mechs declares, in lower case.
pub open spec fn declared_names(list: Seq<MechListElementView>) -> Seq<Seq<char>> {
    list.map_values(|e: MechListElementView| lowercased(e.variant))
}

/// The names of the variants found, in lower case.
pub open spec fn found_names(variants: Seq<VariantView>) -> Seq<Seq<char>> {
    variants.map_values(|v: VariantView| lowercased(v.variant_name))
}

/// Every name of `names` is one of `others`.
pub open spec fn covered(names: Seq<Seq<char>>, others: Seq<Seq<char>>) -> bool {
    forall|i: int| 0 <= i < names.len() ==> others.contains(#[trigger] names[i])
}

/// The two runs hold the same names, however often and in whatever order.
pub open spec fn same_names(a: Seq<Seq<char>>, b: Seq<Seq<char>>) -> bool {
    a.to_set() == b.to_set()
}

/// The variants found are those declared: as sets of names, without regard
/// to case.
pub open spec fn consistent(list: Seq<MechListElementView>, variants: Seq<VariantView>) -> bool {
    same_names(declared_names(list), found_names(variants))
}

/// Two runs hold the same names where each covers the other.
pub proof fn lemma_same_names(a: Seq<Seq<char>>, b: Seq<Seq<char>>)
    ensures
        same_names(a, b) <==> covered(a, b) && covered(b, a),
{
    if covered(a, b) && covered(b, a) {
        assert forall|x: Seq<char>| a.to_set().contains(x) <==> b.to_set().contains(x) by {
            if a.contains(x) {
                let i = choose|i: int| 0 <= i < a.len() && a[i] == x;
            }
            if b.contains(x) {
                let i = choose|i: int| 0 <= i < b.len() && b[i] == x;
            }
        }
        assert(a.to_set() =~= b.to_set());
    }
    if same_names(a, b) {
        assert forall|i: int| 0 <= i < a.len() implies b.contains(#[trigger] a[i]) by {
            assert(a.to_set().contains(a[i]));
        }
        assert forall|i: int| 0 <= i < b.len() implies a.contains(#[trigger] b[i]) by {
            assert(b.to_set().contains(b[i]));
        }
    }
}

/// A catalog that lacks a declared variant is not consistent: where a name
/// that the list declares is the name of no variant found, both taken in
/// lower case, the two do not agree.
pub proof fn lemma_missing_variant_is_inconsistent(
    list: Seq<MechListElementView>,
    variants: Seq<VariantView>,
    k: int,
)
    requires
        0 <= k < list.len(),
        forall|j: int|
            0 <= j < variants.len() ==> lowercased((#[trigger] variants[j]).variant_name)
                != lowercased(list[k].variant),
    ensures
        !consistent(list, variants),
{
    let declared = declared_names(list);
    let found = found_names(variants);
    lemma_same_names(declared, found);
    if covered(declared, found) {
        let j = choose|j: int| 0 <= j < found.len() && found[j] == declared[k];
    }
}

/// Whether every name of `names` is one of `others`.
pub fn covers(names: &Vec<String>, others: &Vec<String>) -> (r: bool)
    ensures
        r == covered(strings_view(names@), strings_view(others@)),
{
    let ghost a = strings_view(names@);
    let ghost b = strings_view(others@);
    let mut i: usize = 0;
    while i < names.len()
        invariant
            i <= names@.len(),
            a == strings_view(names@),
            b == strings_view(others@),
            forall|k: int| 0 <= k < i ==> b.contains(#[trigger] a[k]),
        decreases names@.len() - i,
    {
        assert(a[i as int] == names@[i as int]@);
        let mut j: usize = 0;
        let mut found: bool = false;
        while j < others.len() && !found
            invariant
                j <= others@.len(),
                i < names@.len(),
                a == strings_view(names@),
                b == strings_view(others@),
                found ==> b.contains(a[i as int]),
                !found ==> forall|k: int| 0 <= k < j ==> b[k] != a[i as int],
            decreases others@.len() - j + if found { 0int } else { 1int },
        {
            assert(b[j as int] == others@[j as int]@);
            if str_eq(others[j].as_str(), names[i].as_str()) {
                found = true;
            } else {
                j = j + 1;
            }
        }
        if !found {
            return false;
        }
        i = i + 1;
    }
    true
}

/// Whether two runs hold the same names, however often and in whatever
/// order.
pub fn names_agree(a: &Vec<String>, b: &Vec<String>) -> (r: bool)
    ensures
        r == same_names(strings_view(a@), strings_view(b@)),
{
    proof {
        lemma_same_names(strings_view(a@), strings_view(b@));
    }
    covers(a, b) && covers(b, a)
}

/// What each list of variants of a run stands for.
pub open spec fn variant_lists_view(lists: Seq<Vec<Variant>>) -> Seq<Seq<VariantView>> {
    lists.map_values(|l: Vec<Variant>| variants_view(l@))
}

/// The lists of variants one behind the other.
pub fn join_variants(per_chassis: Vec<Vec<Variant>>) -> (variants: Vec<Variant>)
    ensures
        variants_view(variants@) == joined(variant_lists_view(per_chassis@)),
{
    let ghost all = variant_lists_view(per_chassis@);
    let mut lists = per_chassis;
    let mut variants: Vec<Variant> = Vec::new();
    while lists.len() > 0
        invariant
            joined(all) == joined(variant_lists_view(lists@)) + variants_view(variants@),
        decreases lists@.len(),
    {
        let ghost before = variant_lists_view(lists@);
        let mut list = lists.pop().unwrap();
        assert(variant_lists_view(lists@) == before.drop_last());
        list.append(&mut variants);
        variants = list;
    }
    variants
}

/// The catalog of all variants: the variants of each chassis one behind the
/// other, which must be the variants that the list of mechs declares.
pub fn assemble_catalog(mechlist: &Vec<MechListElement>, per_chassis: Vec<Vec<Variant>>) -> (r:
    Result<Vec<Variant>, DataError>)
    ensures
        match r {
            Ok(variants) => {
                &&& variants_view(variants@) == joined(variant_lists_view(per_chassis@))
                &&& consistent(mech_list_view(mechlist@), variants_view(variants@))
            },
            Err(e) => e == DataError::CatalogInconsistent && !consistent(
                mech_list_view(mechlist@),
                joined(variant_lists_view(per_chassis@)),
            ),
        },
{
    let variants = join_variants(per_chassis);
    let ghost list = mech_list_view(mechlist@);
    let ghost found = variants_view(variants@);
    let mut declared: Vec<String> = Vec::new();
    let mut i: usize = 0;
    while i < mechlist.len()
        invariant
            i <= mechlist@.len(),
            list == mech_list_view(mechlist@),
            strings_view(declared@) == declared_names(list.subrange(0, i as int)),
        decreases mechlist@.len() - i,
    {
        let lower = to_lowercase(mechlist[i].variant.as_str());
        assert(strings_view(declared@.push(lower)) == strings_view(declared@).push(lower@));
        assert(declared_names(list.subrange(0, i as int).push(list[i as int])) == declared_names(
            list.subrange(0, i as int),
        ).push(lowercased(list[i as int].variant)));
        declared.push(lower);
        i = i + 1;
    }
    assert(list.subrange(0, i as int) == list);
    let mut names: Vec<String> = Vec::new();
    let mut j: usize = 0;
    while j < variants.len()
        invariant
            j <= variants@.len(),
            found == variants_view(variants@),
            strings_view(names@) == found_names(found.subrange(0, j as int)),
        decreases variants@.len() - j,
    {
        let lower = to_lowercase(variants[j].variant_name.as_str());
        assert(strings_view(names@.push(lower)) == strings_view(names@).push(lower@));
        assert(found_names(found.subrange(0, j as int).push(found[j as int])) == found_names(
            found.subrange(0, j as int),
        ).push(lowercased(found[j as int].variant_name)));
        names.push(lower);
        j = j + 1;
    }
    assert(found.subrange(0, j as int) == found);
    if names_agree(&declared, &names) {
        Ok(variants)
    } else {
        Err(DataError::CatalogInconsistent)
    }
}

} // verus!
