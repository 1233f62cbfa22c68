use vstd::prelude::*;

use crate::error::DataError;
use crate::extract::collect;
use crate::extract::i32_attribute;
use crate::extract::lemma_collect_fault;
use crate::extract::only;
use crate::extract::only_one;
use crate::xml_doc::children;
use crate::xml_doc::element_children;
use crate::xml_doc::elements_tagged;
use crate::xml_doc::places;
use crate::xml_doc::NodeView;
use crate::xml_doc::XmlDocument;

verus! {

/// A fixed internal item of a component, and the slots that it takes.
#[derive(Clone, Copy, Debug, PartialEq, Eq, Structural)]
pub struct Internal {
    pub id: i32,
    pub slots: i32,
}

/// The first node below the root, which must have the tag `tag`.
pub open spec fn list_element(nodes: Seq<NodeView>, tag: Seq<char>) -> Option<int> {
    let top = children(nodes, 0);
    if top.len() > 0 && nodes[top[0]].tag == tag {
        Some(top[0])
    } else {
        None
    }
}

/// The internal that the element at a place describes: an `Internal` with an
/// `id`, and with one `ModuleStats` element below it that tells its `slots`.
pub open spec fn internal_at(nodes: Seq<NodeView>) -> spec_fn(int) -> Option<Option<Internal>> {
    |i: int|
        if nodes[i].tag != "Internal"@ {
            None
        } else {
            match only(elements_tagged(nodes, i, "ModuleStats"@)) {
                None => None,
                Some(stats) => match (
                    i32_attribute(nodes[i], "id"@),
                    i32_attribute(nodes[stats], "slots"@),
                ) {
                    (Some(id), Some(slots)) => Some(Some(Internal { id, slots })),
                    _ => None,
                },
            }
        }
}

/// The internals that a document lists: those of the elements below its
/// `ModuleList`, in document order. `None` where the document is malformed.
pub open spec fn internals_of(nodes: Seq<NodeView>) -> Option<Seq<Internal>> {
    match list_element(nodes, "ModuleList"@) {
        None => None,
        Some(list) => collect(element_children(nodes, list), internal_at(nodes)),
    }
}

impl XmlDocument {
    /// The first node below the root, which must have the tag `tag`.
    pub fn list_element(&self, tag: &str) -> (r: Result<usize, DataError>)
        ensures
            match r {
                Ok(list) => list_element(self@, tag@) == Some(list as int) && list
                    < self.nodes@.len(),
                Err(e) => e == DataError::MalformedDocument && list_element(self@, tag@) is None,
            },
    {
        let top = self.select(0, false, None);
        if top.len() == 0 {
            return Err(DataError::MalformedDocument);
        }
        if !self.has_tag(top[0], tag) {
            return Err(DataError::MalformedDocument);
        }
        Ok(top[0])
    }
}

/// The internal that the element at place `i` describes.
pub fn internal_from(doc: &XmlDocument, i: usize) -> (r: Result<Internal, DataError>)
    requires
        i < doc.nodes@.len(),
    ensures
        match r {
            Ok(internal) => internal_at(doc@)(i as int) == Some(Some(internal)),
            Err(e) => e == DataError::MalformedDocument && internal_at(doc@)(i as int) is None,
        },
{
    if !doc.has_tag(i, "Internal") {
        return Err(DataError::MalformedDocument);
    }
    let found = doc.select(i, true, Some("ModuleStats"));
    let stats = only_one(&found)?;
    let id = doc.required_i32(i, "id")?;
    let slots = doc.required_i32(stats, "slots")?;
    Ok(Internal { id, slots })
}

/// The internals that `doc` lists.
pub fn internals_from(doc: &XmlDocument) -> (r: Result<Vec<Internal>, DataError>)
    ensures
        match r {
            Ok(internals) => internals_of(doc@) == Some(internals@),
            Err(e) => e == DataError::MalformedDocument && internals_of(doc@) is None,
        },
{
    let list = doc.list_element("ModuleList")?;
    let found = doc.select(list, true, None);
    let mut internals: Vec<Internal> = Vec::new();
    let mut k: usize = 0;
    while k < found.len()
        invariant
            k <= found@.len(),
            list_element(doc@, "ModuleList"@) == Some(list as int),
            places(found@) == element_children(doc@, list as int),
            forall|j: int| 0 <= j < found@.len() ==> (#[trigger] found@[j]) < doc.nodes@.len(),
            collect(places(found@).subrange(0, k as int), internal_at(doc@)) == Some(internals@),
        decreases found@.len() - k,
    {
        assert(places(found@).subrange(0, k + 1).drop_last() == places(found@).subrange(
            0,
            k as int,
        ));
        match internal_from(doc, found[k]) {
            Err(e) => {
                proof {
                    lemma_collect_fault(places(found@), internal_at(doc@), k + 1);
                }
                return Err(e);
            },
            Ok(internal) => {
                internals.push(internal);
            },
        }
        k = k + 1;
    }
    assert(places(found@).subrange(0, k as int) == places(found@));
    Ok(internals)
}

} // verus!
