use vstd::prelude::*;

use crate::error::DataError;
use crate::search::first_index;
use crate::search::is_first;
use crate::search::lemma_first_absent;
use crate::search::lemma_first_found;
use crate::text::str_eq;

verus! {

pub struct XmlAttribute {
    /// The name, without its namespace.
    pub name: String,
    pub value: String,
}

/// One node of a document: an element, or a comment, a text, a processing
/// instruction or the root.
pub struct XmlNode {
    /// The place of the parent in the document; the root has none.
    pub parent: Option<usize>,
    pub is_element: bool,
    /// The tag of an element, without its namespace; empty otherwise.
    pub tag: String,
    pub attributes: Vec<XmlAttribute>,
}

/// A document as the list of its nodes in document order. The first node is
/// the root, which is no element, and the children of a node follow it.
pub struct XmlDocument {
    pub nodes: Vec<XmlNode>,
}

/// What an `XmlNode` stands for.
pub ghost struct NodeView {
    pub parent: Option<int>,
    pub is_element: bool,
    pub tag: Seq<char>,
    pub attributes: Seq<(Seq<char>, Seq<char>)>,
}

impl View for XmlAttribute {
    type V = (Seq<char>, Seq<char>);

    open spec fn view(&self) -> (Seq<char>, Seq<char>) {
        (self.name@, self.value@)
    }
}

impl View for XmlNode {
    type V = NodeView;

    open spec fn view(&self) -> NodeView {
        NodeView {
            parent: match self.parent {
                Some(p) => Some(p as int),
                None => None,
            },
            is_element: self.is_element,
            tag: self.tag@,
            attributes: self.attributes@.map_values(|a: XmlAttribute| a@),
        }
    }
}

/// What each node of a run stands for.
pub open spec fn nodes_view(nodes: Seq<XmlNode>) -> Seq<NodeView> {
    nodes.map_values(|n: XmlNode| n@)
}

impl View for XmlDocument {
    type V = Seq<NodeView>;

    open spec fn view(&self) -> Seq<NodeView> {
        nodes_view(self.nodes@)
    }
}

/// The nodes that `roxmltree` reads from `text`, in document order, with the
/// place of each one's parent; `None` where it refuses the text.
pub uninterp spec fn xml_parsed(text: Seq<char>) -> Option<Seq<NodeView>>;

/// `roxmltree::Error`, which the parser fails with; nothing is read off it.
#[verifier::external_type_specification]
#[verifier::external_body]
pub struct ExXmlError(roxmltree::Error);

/// `roxmltree::Document::parse`, with each node that `descendants()` yields
/// written down as an `XmlNode`: the place of its `parent()`, whether it
/// `is_element()`, the local name of its `tag_name()`, and the local name and
/// the value of each of its `attributes()`. The parser reads the text alone,
/// so what it yields has a name, `xml_parsed`; of the nodes themselves
/// nothing is claimed.
#[verifier::external_body]
fn parse_nodes(text: &str) -> (r: Result<Vec<XmlNode>, roxmltree::Error>)
    ensures
        match r {
            Ok(nodes) => xml_parsed(text@) == Some(nodes_view(nodes@)),
            Err(_) => xml_parsed(text@) is None,
        },
{
    let doc = roxmltree::Document::parse(text)?;
    Ok(doc.descendants().map(|n| XmlNode {
        parent: n.parent().map(|p| p.id().get_usize()),
        is_element: n.is_element(),
        tag: n.tag_name().name().to_string(),
        attributes: n.attributes().map(|a| XmlAttribute {
            name: a.name().to_string(),
            value: a.value().to_string(),
        }).collect(),
    }).collect())
}

/// The test that an attribute is called `name`.
pub open spec fn attribute_named(name: Seq<char>) -> spec_fn((Seq<char>, Seq<char>)) -> bool {
    |a: (Seq<char>, Seq<char>)| a.0 == name
}

/// The value of the first attribute of `node` that is called `name`.
pub open spec fn attribute(node: NodeView, name: Seq<char>) -> Option<Seq<char>> {
    match first_index(node.attributes, attribute_named(name)) {
        Some(i) => Some(node.attributes[i].1),
        None => None,
    }
}

/// Which children of a node are asked for: all of them, or the elements
/// among them, or the elements of one tag.
pub ghost struct Selection {
    pub parent: int,
    pub elements_only: bool,
    pub tag: Option<Seq<char>>,
}

/// Whether `node` is one of the children selected.
pub open spec fn selected(node: NodeView, selection: Selection) -> bool {
    &&& node.parent == Some(selection.parent)
    &&& selection.elements_only ==> node.is_element
    &&& selection.tag matches Some(tag) ==> node.tag == tag
}

/// The places among the first `n` nodes of those selected, in document order.
pub open spec fn select_among(nodes: Seq<NodeView>, selection: Selection, n: int) -> Seq<int>
    decreases n,
{
    if n <= 0 {
        Seq::empty()
    } else if selected(nodes[n - 1], selection) {
        select_among(nodes, selection, n - 1).push(n - 1)
    } else {
        select_among(nodes, selection, n - 1)
    }
}

/// The places of the nodes selected, in document order.
pub open spec fn select(nodes: Seq<NodeView>, selection: Selection) -> Seq<int> {
    select_among(nodes, selection, nodes.len() as int)
}

/// All children of `parent`.
pub open spec fn children(nodes: Seq<NodeView>, parent: int) -> Seq<int> {
    select(nodes, Selection { parent, elements_only: false, tag: None })
}

/// The children of `parent` that are elements.
pub open spec fn element_children(nodes: Seq<NodeView>, parent: int) -> Seq<int> {
    select(nodes, Selection { parent, elements_only: true, tag: None })
}

/// The children of `parent` with the tag `tag`; these are elements, unless
/// the tag is empty.
pub open spec fn children_tagged(nodes: Seq<NodeView>, parent: int, tag: Seq<char>) -> Seq<int> {
    select(nodes, Selection { parent, elements_only: false, tag: Some(tag) })
}

/// The children of `parent` that are elements with the tag `tag`.
pub open spec fn elements_tagged(nodes: Seq<NodeView>, parent: int, tag: Seq<char>) -> Seq<int> {
    select(nodes, Selection { parent, elements_only: true, tag: Some(tag) })
}

/// Places as numbers.
pub open spec fn places(indices: Seq<usize>) -> Seq<int> {
    indices.map_values(|i: usize| i as int)
}

impl XmlDocument {
    /// Reads a document from its text.
    pub fn parse(text: &str) -> (r: Result<XmlDocument, DataError>)
        ensures
            match r {
                Ok(doc) => xml_parsed(text@) == Some(doc@),
                Err(e) => e == DataError::MalformedDocument && xml_parsed(text@) is None,
            },
    {
        match parse_nodes(text) {
            Ok(nodes) => Ok(XmlDocument { nodes }),
            Err(_) => Err(DataError::MalformedDocument),
        }
    }

    /// The places of the children of `parent`, in document order: all of
    /// them, or the elements among them where `elements_only`, and of those
    /// the ones with the tag `tag` where one is given.
    pub fn select(&self, parent: usize, elements_only: bool, tag: Option<&str>) -> (found: Vec<
        usize,
    >)
        ensures
            places(found@) == select(
                self@,
                Selection {
                    parent: parent as int,
                    elements_only,
                    tag: match tag {
                        Some(t) => Some(t@),
                        None => None,
                    },
                },
            ),
            forall|k: int| 0 <= k < found@.len() ==> (#[trigger] found@[k]) < self.nodes@.len(),
    {
        let ghost selection = Selection {
            parent: parent as int,
            elements_only,
            tag: match tag {
                Some(t) => Some(t@),
                None => None,
            },
        };
        let mut found: Vec<usize> = Vec::new();
        let mut i: usize = 0;
        while i < self.nodes.len()
            invariant
                i <= self.nodes@.len(),
                selection == (Selection {
                    parent: parent as int,
                    elements_only,
                    tag: match tag {
                        Some(t) => Some(t@),
                        None => None,
                    },
                }),
                places(found@) == select_among(self@, selection, i as int),
                forall|k: int| 0 <= k < found@.len() ==> (#[trigger] found@[k]) < self.nodes@.len(),
            decreases self.nodes@.len() - i,
        {
            let node = &self.nodes[i];
            let is_child = match node.parent {
                Some(p) => p == parent,
                None => false,
            };
            let right_kind = !elements_only || node.is_element;
            let right_tag = match tag {
                Some(t) => str_eq(node.tag.as_str(), t),
                None => true,
            };
            if is_child && right_kind && right_tag {
                found.push(i);
            }
            i = i + 1;
        }
        found
    }

    /// The value of the first attribute of node `i` that is called `name`.
    pub fn attribute(&self, i: usize, name: &str) -> (value: Option<&str>)
        requires
            i < self.nodes@.len(),
        ensures
            match value {
                Some(v) => attribute(self@[i as int], name@) == Some(v@),
                None => attribute(self@[i as int], name@) is None,
            },
    {
        let node = &self.nodes[i];
        let ghost attributes = self@[i as int].attributes;
        let mut k: usize = 0;
        while k < node.attributes.len()
            invariant
                k <= node.attributes@.len(),
                i < self.nodes@.len(),
                attributes == self@[i as int].attributes,
                attributes == node@.attributes,
                forall|j: int| 0 <= j < k ==> !attribute_named(name@)(#[trigger] attributes[j]),
            decreases node.attributes@.len() - k,
        {
            if str_eq(node.attributes[k].name.as_str(), name) {
                proof {
                    lemma_first_found(attributes, attribute_named(name@), k as int);
                }
                return Some(node.attributes[k].value.as_str());
            }
            k = k + 1;
        }
        proof {
            lemma_first_absent(attributes, attribute_named(name@));
        }
        None
    }

    /// Whether node `i` is an element.
    pub fn is_element(&self, i: usize) -> (e: bool)
        requires
            i < self.nodes@.len(),
        ensures
            e == self@[i as int].is_element,
    {
        self.nodes[i].is_element
    }

    /// Whether node `i` has the tag `tag`.
    pub fn has_tag(&self, i: usize, tag: &str) -> (has: bool)
        requires
            i < self.nodes@.len(),
        ensures
            has == (self@[i as int].tag == tag@),
    {
        str_eq(self.nodes[i].tag.as_str(), tag)
    }
}

} // verus!
