use vstd::prelude::*;

use crate::error::DataError;
use crate::extract::collect;
use crate::extract::lemma_collect_fault;
use crate::hardpoints::root_element;
use crate::mwo_types::Affiliation;
use crate::text::strings_view;
use crate::text::to_chars;
use crate::weapons::faction_from;
use crate::weapons::faction_named;
use crate::xml_doc::attribute;
use crate::xml_doc::element_children;
use crate::xml_doc::places;
use crate::xml_doc::NodeView;
use crate::xml_doc::XmlDocument;

verus! {

/// One variant as the list of mechs declares it.
#[derive(Debug)]
pub struct MechListElement {
    pub faction: Affiliation,
    pub chassis: String,
    pub variant: String,
}

/// What a `MechListElement` stands for.
pub ghost struct MechListElementView {
    pub faction: Affiliation,
    pub chassis: Seq<char>,
    pub variant: Seq<char>,
}

impl View for MechListElement {
    type V = MechListElementView;

    open spec fn view(&self) -> MechListElementView {
        MechListElementView {
            faction: self.faction,
            chassis: self.chassis@,
            variant: self.variant@,
        }
    }
}

/// What each entry of a list of mechs stands for.
pub open spec fn mech_list_view(list: Seq<MechListElement>) -> Seq<MechListElementView> {
    list.map_values(|e: MechListElement| e@)
}

/// The entry that the element at a place declares: a `Mech` with a
/// `faction`, a `chassis` and a `name`.
pub open spec fn mech_at(nodes: Seq<NodeView>) -> spec_fn(int) -> Option<
    Option<MechListElementView>,
> {
    |i: int|
        if nodes[i].tag != "Mech"@ {
            None
        } else {
            let faction = match attribute(nodes[i], "faction"@) {
                Some(f) => faction_named(f),
                None => None,
            };
            let chassis = attribute(nodes[i], "chassis"@);
            let variant = attribute(nodes[i], "name"@);
            if faction is None || chassis is None || variant is None {
                None
            } else {
                Some(
                    Some(
                        MechListElementView {
                            faction: faction.unwrap(),
                            chassis: chassis.unwrap(),
                            variant: variant.unwrap(),
                        },
                    ),
                )
            }
        }
}

/// The variants that a document declares: those of the elements below its
/// one top element. `None` where the document is malformed.
pub open spec fn mech_list_of(nodes: Seq<NodeView>) -> Option<Seq<MechListElementView>> {
    match root_element(nodes) {
        None => None,
        Some(root) => collect(element_children(nodes, root), mech_at(nodes)),
    }
}

/// The entry that the element at place `i` declares.
pub fn mech_from(doc: &XmlDocument, i: usize) -> (r: Result<MechListElement, DataError>)
    requires
        i < doc.nodes@.len(),
    ensures
        match r {
            Ok(entry) => mech_at(doc@)(i as int) == Some(Some(entry@)),
            Err(e) => e == DataError::MalformedDocument && mech_at(doc@)(i as int) is None,
        },
{
    if !doc.has_tag(i, "Mech") {
        return Err(DataError::MalformedDocument);
    }
    let faction = faction_from(doc.required(i, "faction")?)?;
    let chassis = doc.required(i, "chassis")?;
    let variant = doc.required(i, "name")?;
    Ok(MechListElement { faction, chassis: chassis.to_owned(), variant: variant.to_owned() })
}

/// The variants that `doc` declares.
pub fn mech_list_from(doc: &XmlDocument) -> (r: Result<Vec<MechListElement>, DataError>)
    ensures
        match r {
            Ok(list) => mech_list_of(doc@) == Some(mech_list_view(list@)),
            Err(e) => e == DataError::MalformedDocument && mech_list_of(doc@) is None,
        },
{
    let root = doc.root_element()?;
    let found = doc.select(root, true, None);
    let mut list: Vec<MechListElement> = Vec::new();
    let mut k: usize = 0;
    assert(places(found@).subrange(0, 0) == Seq::<int>::empty());
    assert(mech_list_view(list@) == Seq::<MechListElementView>::empty());
    while k < found.len()
        invariant
            k <= found@.len(),
            root_element(doc@) == Some(root as int),
            places(found@) == element_children(doc@, root as int),
            forall|j: int| 0 <= j < found@.len() ==> (#[trigger] found@[j]) < doc.nodes@.len(),
            collect(places(found@).subrange(0, k as int), mech_at(doc@)) == Some(
                mech_list_view(list@),
            ),
        decreases found@.len() - k,
    {
        assert(places(found@).subrange(0, k + 1).drop_last() == places(found@).subrange(
            0,
            k as int,
        ));
        assert(places(found@).subrange(0, k + 1).last() == found@[k as int]);
        match mech_from(doc, found[k]) {
            Err(e) => {
                proof {
                    lemma_collect_fault(places(found@), mech_at(doc@), k + 1);
                }
                return Err(e);
            },
            Ok(entry) => {
                assert(mech_list_view(list@.push(entry)) == mech_list_view(list@).push(entry@));
                list.push(entry);
            },
        }
        k = k + 1;
    }
    assert(places(found@).subrange(0, k as int) == places(found@));
    Ok(list)
}

/// `a` and `b` agree in their first `k` characters.
pub open spec fn agree_before(a: Seq<char>, b: Seq<char>, k: int) -> bool {
    &&& 0 <= k <= a.len()
    &&& k <= b.len()
    &&& forall|j: int| 0 <= j < k ==> a[j] == b[j]
}

/// `a` comes before `b` in the order of the dictionary, by the characters'
/// code points: where they first differ `a` has the lower character, or `a`
/// ends there and `b` goes on.
pub open spec fn name_before(a: Seq<char>, b: Seq<char>) -> bool {
    exists|k: int|
        #[trigger] agree_before(a, b, k) && k < b.len() && (k == a.len() || a[k] < b[k])
}

/// How two names stand in the order of the dictionary.
#[derive(Debug, Copy, Clone, PartialEq, Eq, Structural)]
pub enum NameOrder {
    Before,
    Same,
    After,
}

/// How `a` stands to `b` in the order of the dictionary.
pub fn name_order(a: &[char], b: &[char]) -> (order: NameOrder)
    ensures
        match order {
            NameOrder::Before => name_before(a@, b@),
            NameOrder::Same => a@ == b@,
            NameOrder::After => name_before(b@, a@),
        },
{
    let mut k: usize = 0;
    while k < a.len() && k < b.len() && a[k] == b[k]
        invariant
            agree_before(a@, b@, k as int),
        decreases a@.len() - k,
    {
        k = k + 1;
    }
    assert(agree_before(b@, a@, k as int));
    if k == a.len() && k == b.len() {
        assert(a@ =~= b@);
        NameOrder::Same
    } else if k == a.len() {
        NameOrder::Before
    } else if k == b.len() {
        NameOrder::After
    } else if a[k] < b[k] {
        NameOrder::Before
    } else {
        NameOrder::After
    }
}

/// No name comes before itself.
pub proof fn lemma_name_before_irreflexive(a: Seq<char>)
    ensures
        !name_before(a, a),
{
}

/// What comes before a name comes before all that the name comes before.
pub proof fn lemma_name_before_transitive(a: Seq<char>, b: Seq<char>, c: Seq<char>)
    requires
        name_before(a, b),
        name_before(b, c),
    ensures
        name_before(a, c),
{
    let i = choose|k: int|
        #[trigger] agree_before(a, b, k) && k < b.len() && (k == a.len() || a[k] < b[k]);
    let j = choose|k: int|
        #[trigger] agree_before(b, c, k) && k < c.len() && (k == b.len() || b[k] < c[k]);
    let k = if i <= j {
        i
    } else {
        j
    };
    assert(agree_before(a, c, k));
}

/// The names stand in the order of the dictionary, none twice.
pub open spec fn ascending(names: Seq<Seq<char>>) -> bool {
    forall|i: int, j: int| 0 <= i < j < names.len() ==> name_before(names[i], names[j])
}

/// Names in ascending order are all different.
pub proof fn lemma_ascending_no_duplicates(names: Seq<Seq<char>>)
    requires
        ascending(names),
    ensures
        names.no_duplicates(),
{
    assert forall|i: int, j: int| 0 <= i < names.len() && 0 <= j < names.len() && i != j implies names[i]
        != names[j] by {
        if i < j {
            lemma_name_before_irreflexive(names[i]);
        } else {
            lemma_name_before_irreflexive(names[j]);
        }
    }
}

/// Whether one of the first `n` entries of a list declares the chassis.
pub open spec fn declares_chassis(list: Seq<MechListElementView>, n: int, chassis: Seq<char>) -> bool {
    exists|i: int| 0 <= i < n && (#[trigger] list[i]).chassis == chassis
}

/// The chassis that a list of mechs declares, each once, in the order of the
/// dictionary.
pub fn chassis_names(list: &Vec<MechListElement>) -> (names: Vec<String>)
    ensures
        ascending(strings_view(names@)),
        strings_view(names@).no_duplicates(),
        forall|chassis: Seq<char>|
            strings_view(names@).contains(chassis) <==> declares_chassis(
                mech_list_view(list@),
                list@.len() as int,
                chassis,
            ),
{
    let ghost entries = mech_list_view(list@);
    let mut names: Vec<String> = Vec::new();
    let mut n: usize = 0;
    while n < list.len()
        invariant
            n <= list@.len(),
            entries == mech_list_view(list@),
            ascending(strings_view(names@)),
            forall|chassis: Seq<char>|
                strings_view(names@).contains(chassis) <==> declares_chassis(
                    entries,
                    n as int,
                    chassis,
                ),
        decreases list@.len() - n,
    {
        let ghost before = strings_view(names@);
        let chassis = &list[n].chassis;
        assert(entries[n as int].chassis == chassis@);
        let wanted = to_chars(chassis.as_str());
        let mut at: usize = 0;
        let mut present: bool = false;
        let mut searching: bool = true;
        while searching && at < names.len()
            invariant
                at <= names@.len(),
                before == strings_view(names@),
                wanted@ == chassis@,
                forall|j: int| 0 <= j < at ==> name_before(#[trigger] before[j], wanted@),
                !searching ==> at < names@.len() && (if present {
                    before[at as int] == wanted@
                } else {
                    name_before(wanted@, before[at as int])
                }),
                searching ==> !present,
            decreases names@.len() - at + if searching { 1int } else { 0int },
        {
            assert(before[at as int] == names@[at as int]@);
            let own = to_chars(names[at].as_str());
            match name_order(own.as_slice(), wanted.as_slice()) {
                NameOrder::Before => {
                    at = at + 1;
                },
                NameOrder::Same => {
                    present = true;
                    searching = false;
                },
                NameOrder::After => {
                    searching = false;
                },
            }
        }
        if !present {
            let name = chassis.clone();
            names.insert(at, name);
            let ghost after = strings_view(names@);
            assert(after == before.insert(at as int, chassis@));
            assert forall|i: int, j: int| 0 <= i < j < after.len() implies name_before(
                after[i],
                after[j],
            ) by {
                let x = if i < at { i } else { i - 1 };
                let y = if j < at { j } else { j - 1 };
                if i != at && j != at {
                    assert(after[i] == before[x] && after[j] == before[y]);
                } else if i == at {
                    assert(after[j] == before[y]);
                    if y > at {
                        lemma_name_before_transitive(wanted@, before[at as int], before[y]);
                    }
                } else {
                    assert(after[i] == before[x]);
                }
            }
            assert forall|c: Seq<char>| after.contains(c) <==> declares_chassis(
                entries,
                n + 1,
                c,
            ) by {
                if after.contains(c) {
                    let i = choose|i: int| 0 <= i < after.len() && after[i] == c;
                    if i == at {
                        assert(entries[n as int].chassis == c);
                    } else {
                        let x = if i < at { i } else { i - 1 };
                        assert(before[x] == c);
                        assert(before.contains(c));
                        assert(declares_chassis(entries, n as int, c));
                        let w = choose|w: int| 0 <= w < n && (#[trigger] entries[w]).chassis == c;
                        assert(0 <= w < n + 1 && entries[w].chassis == c);
                    }
                }
                if declares_chassis(entries, n + 1, c) {
                    let w = choose|w: int| 0 <= w < n + 1 && (#[trigger] entries[w]).chassis == c;
                    if w == n {
                        assert(after[at as int] == c);
                    } else {
                        assert(declares_chassis(entries, n as int, c));
                        let i = choose|i: int| 0 <= i < before.len() && before[i] == c;
                        let y = if i < at { i } else { i + 1 };
                        assert(after[y] == c);
                    }
                }
            }
        } else {
            assert forall|c: Seq<char>| before.contains(c) <==> declares_chassis(
                entries,
                n + 1,
                c,
            ) by {
                if before.contains(c) {
                    assert(declares_chassis(entries, n as int, c));
                    let w = choose|w: int| 0 <= w < n && (#[trigger] entries[w]).chassis == c;
                    assert(0 <= w < n + 1 && entries[w].chassis == c);
                }
                if declares_chassis(entries, n + 1, c) {
                    let w = choose|w: int| 0 <= w < n + 1 && (#[trigger] entries[w]).chassis == c;
                    if w == n {
                        assert(before[at as int] == c);
                    } else {
                        assert(declares_chassis(entries, n as int, c));
                    }
                }
            }
        }
        n = n + 1;
    }
    proof {
        lemma_ascending_no_duplicates(strings_view(names@));
    }
    names
}

} // verus!
