use vstd::prelude::*;

use crate::error::DataError;
use crate::extract::collect;
use crate::extract::i32_attribute;
use crate::extract::lemma_collect_fault;
use crate::extract::only;
use crate::extract::only_one;
use crate::search::is_last;
use crate::search::last_index;
use crate::search::lemma_last_absent;
use crate::search::lemma_last_found;
use crate::xml_doc::element_children;
use crate::xml_doc::places;
use crate::xml_doc::NodeView;
use crate::xml_doc::XmlDocument;

verus! {

/// The hardpoints of a chassis: for each hardpoint its id and how many
/// weapon slots it has, in document order. Of two entries with one id the
/// later counts.
#[derive(Debug)]
pub struct HardpointDefs {
    pub slot_count: Vec<(i32, i32)>,
}

/// The one element below the root.
pub open spec fn root_element(nodes: Seq<NodeView>) -> Option<int> {
    only(element_children(nodes, 0))
}

/// Whether every one of the nodes at `found` has the tag `tag`.
pub open spec fn all_tagged(nodes: Seq<NodeView>, found: Seq<int>, tag: Seq<char>) -> bool {
    forall|k: int| 0 <= k < found.len() ==> nodes[#[trigger] found[k]].tag == tag
}

/// The hardpoint that the element at a place describes: a `Hardpoint` with an
/// `id` and as many slots as it has elements below it, each a `WeaponSlot`.
/// A `WeaponDoorSet` is left out.
pub open spec fn hardpoint_at(nodes: Seq<NodeView>) -> spec_fn(int) -> Option<Option<(i32, i32)>> {
    |i: int|
        if nodes[i].tag == "WeaponDoorSet"@ {
            Some(None)
        } else if nodes[i].tag != "Hardpoint"@ {
            None
        } else {
            let slots = element_children(nodes, i);
            match i32_attribute(nodes[i], "id"@) {
                None => None,
                Some(id) => if all_tagged(nodes, slots, "WeaponSlot"@) && slots.len() <= i32::MAX {
                    Some(Some((id, slots.len() as i32)))
                } else {
                    None
                },
            }
        }
}

/// The hardpoints that a document defines: those of the elements below its
/// one `Hardpoints` element. `None` where the document is malformed.
pub open spec fn hardpoint_defs_of(nodes: Seq<NodeView>) -> Option<Seq<(i32, i32)>> {
    match root_element(nodes) {
        None => None,
        Some(root) => if nodes[root].tag != "Hardpoints"@ {
            None
        } else {
            collect(element_children(nodes, root), hardpoint_at(nodes))
        },
    }
}

/// The test that an entry is that of the hardpoint `id`.
pub open spec fn defines(id: i32) -> spec_fn((i32, i32)) -> bool {
    |d: (i32, i32)| d.0 == id
}

/// The slots of the hardpoint `id`.
pub open spec fn slots_of(defs: Seq<(i32, i32)>, id: i32) -> Option<i32> {
    match last_index(defs, defines(id)) {
        Some(k) => Some(defs[k].1),
        None => None,
    }
}

impl XmlDocument {
    /// The one element below the root.
    pub fn root_element(&self) -> (r: Result<usize, DataError>)
        ensures
            match r {
                Ok(root) => root_element(self@) == Some(root as int) && root < self.nodes@.len(),
                Err(e) => e == DataError::MalformedDocument && root_element(self@) is None,
            },
    {
        let found = self.select(0, true, None);
        only_one(&found)
    }
}

impl HardpointDefs {
    /// The slots of the hardpoint `id`.
    pub fn slots(&self, id: i32) -> (count: Option<i32>)
        ensures
            count == slots_of(self.slot_count@, id),
    {
        let mut k: usize = self.slot_count.len();
        while k > 0
            invariant
                k <= self.slot_count@.len(),
                forall|j: int|
                    k <= j < self.slot_count@.len() ==> !defines(id)(#[trigger] self.slot_count@[j]),
            decreases k,
        {
            k = k - 1;
            if self.slot_count[k].0 == id {
                proof {
                    lemma_last_found(self.slot_count@, defines(id), k as int);
                }
                return Some(self.slot_count[k].1);
            }
        }
        proof {
            lemma_last_absent(self.slot_count@, defines(id));
        }
        None
    }
}

/// The hardpoint that the element at place `i` describes, unless it is one
/// to leave out.
pub fn hardpoint_from(doc: &XmlDocument, i: usize) -> (r: Result<Option<(i32, i32)>, DataError>)
    requires
        i < doc.nodes@.len(),
    ensures
        match r {
            Ok(hardpoint) => hardpoint_at(doc@)(i as int) == Some(hardpoint),
            Err(e) => e == DataError::MalformedDocument && hardpoint_at(doc@)(i as int) is None,
        },
{
    if doc.has_tag(i, "WeaponDoorSet") {
        return Ok(None);
    }
    if !doc.has_tag(i, "Hardpoint") {
        return Err(DataError::MalformedDocument);
    }
    let id = doc.required_i32(i, "id")?;
    let slots = doc.select(i, true, None);
    let mut k: usize = 0;
    while k < slots.len()
        invariant
            k <= slots@.len(),
            i < doc.nodes@.len(),
            places(slots@) == element_children(doc@, i as int),
            forall|j: int| 0 <= j < slots@.len() ==> (#[trigger] slots@[j]) < doc.nodes@.len(),
            forall|j: int| 0 <= j < k ==> doc@[#[trigger] places(slots@)[j]].tag == "WeaponSlot"@,
            doc@[i as int].tag == "Hardpoint"@,
            doc@[i as int].tag != "WeaponDoorSet"@,
            i32_attribute(doc@[i as int], "id"@) == Some(id),
        decreases slots@.len() - k,
    {
        assert(places(slots@)[k as int] == slots@[k as int]);
        if !doc.has_tag(slots[k], "WeaponSlot") {
            return Err(DataError::MalformedDocument);
        }
        k = k + 1;
    }
    if slots.len() > 0x7fff_ffff {
        return Err(DataError::MalformedDocument);
    }
    Ok(Some((id, slots.len() as i32)))
}

/// The hardpoints that `doc` defines.
pub fn hardpoint_defs_from(doc: &XmlDocument) -> (r: Result<HardpointDefs, DataError>)
    ensures
        match r {
            Ok(defs) => hardpoint_defs_of(doc@) == Some(defs.slot_count@),
            Err(e) => e == DataError::MalformedDocument && hardpoint_defs_of(doc@) is None,
        },
{
    let root = doc.root_element()?;
    if !doc.has_tag(root, "Hardpoints") {
        return Err(DataError::MalformedDocument);
    }
    let found = doc.select(root, true, None);
    let mut slot_count: Vec<(i32, i32)> = Vec::new();
    let mut k: usize = 0;
    while k < found.len()
        invariant
            k <= found@.len(),
            root_element(doc@) == Some(root as int),
            doc@[root as int].tag == "Hardpoints"@,
            places(found@) == element_children(doc@, root as int),
            forall|j: int| 0 <= j < found@.len() ==> (#[trigger] found@[j]) < doc.nodes@.len(),
            collect(places(found@).subrange(0, k as int), hardpoint_at(doc@)) == Some(slot_count@),
        decreases found@.len() - k,
    {
        assert(places(found@).subrange(0, k + 1).drop_last() == places(found@).subrange(
            0,
            k as int,
        ));
        match hardpoint_from(doc, found[k]) {
            Err(e) => {
                proof {
                    lemma_collect_fault(places(found@), hardpoint_at(doc@), k + 1);
                }
                return Err(e);
            },
            Ok(None) => {},
            Ok(Some(hardpoint)) => {
                slot_count.push(hardpoint);
            },
        }
        k = k + 1;
    }
    assert(places(found@).subrange(0, k as int) == places(found@));
    Ok(HardpointDefs { slot_count })
}

} // verus!
