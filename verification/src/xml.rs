//! A flattened view of a parsed XML document: one record per node in
//! document order, each naming its parent, so that verified code can walk
//! the tree that the XML parser built.

use vstd::prelude::*;

verus! {

/// One node of a parsed document: its parent's index in document order,
/// whether it is an element, its tag name (empty for non-elements), and its
/// text content, for an element the text of its first child when that child
/// is a text node.
pub struct XmlNode {
    pub parent: usize,
    pub element: bool,
    pub name: String,
    pub text: Option<String>,
}

/// Mathematical content of one document node.
pub struct XmlNodeV {
    pub parent: int,
    pub element: bool,
    pub name: Seq<char>,
    pub text: Option<Seq<char>>,
}

impl View for XmlNode {
    type V = XmlNodeV;

    open spec fn view(&self) -> XmlNodeV {
        XmlNodeV {
            parent: self.parent as int,
            element: self.element,
            name: self.name@,
            text: match self.text {
                Option::Some(t) => Option::Some(t@),
                Option::None => Option::None,
            },
        }
    }
}

pub open spec fn nodes_view(v: Seq<XmlNode>) -> Seq<XmlNodeV> {
    v.map_values(|n: XmlNode| n@)
}

/// The flattened node list of the document written by `s`, or `None` when
/// `s` is not well-formed XML; what the XML parser computes from the text
/// alone.
pub uninterp spec fn xml_nodes(s: Seq<char>) -> Option<Seq<XmlNodeV>>;

/// Relies on `roxmltree::Document::parse` and the node accessors `parent`,
/// `id`, `is_element`, `tag_name` and `text`: the parser stores the nodes of
/// the document in document order with the root node first, `descendants` of
/// the root yields them in that order, and `id` gives each node's position
/// in it; `text` of an element is the text of its first child when that
/// child is a text node. The parse depends on the text alone.
#[verifier::external_body]
pub fn parse_xml(s: &str) -> (r: Option<Vec<XmlNode>>)
    ensures
        match r {
            Option::Some(v) => xml_nodes(s@) == Option::Some(nodes_view(v@)),
            Option::None => xml_nodes(s@) is None,
        },
{
    let doc = match roxmltree::Document::parse(s) {
        Ok(d) => d,
        Err(_) => return None,
    };
    let mut out: Vec<XmlNode> = Vec::new();
    for n in doc.root().descendants() {
        out.push(XmlNode {
            parent: n.parent().map_or(0, |p| p.id().get() as usize),
            element: n.is_element(),
            name: n.tag_name().name().to_string(),
            text: n.text().map(|t| t.to_string()),
        });
    }
    Some(out)
}

/// The first element child of `p` at index `from` or later, in document
/// order; a child is a node after the root whose parent is `p`.
pub open spec fn first_elem_child(nodes: Seq<XmlNodeV>, p: int, from: int) -> Option<int>
    decreases nodes.len() - from,
{
    if from >= nodes.len() {
        Option::None
    } else if nodes[from].parent == p && nodes[from].element {
        Option::Some(from)
    } else {
        first_elem_child(nodes, p, from + 1)
    }
}

/// The first element child of `p` with tag name `nm`, at `from` or later.
pub open spec fn named_child(nodes: Seq<XmlNodeV>, p: int, nm: Seq<char>, from: int) -> Option<
    int,
>
    decreases nodes.len() - from,
{
    if from >= nodes.len() {
        Option::None
    } else if nodes[from].parent == p && nodes[from].element && nodes[from].name == nm {
        Option::Some(from)
    } else {
        named_child(nodes, p, nm, from + 1)
    }
}

/// Finds the first element child of node `p`, scanning the node list in
/// document order.
pub fn find_first_elem_child(nodes: &Vec<XmlNode>, p: usize) -> (r: Option<usize>)
    ensures
        match r {
            Option::Some(j) => 1 <= j < nodes@.len() && first_elem_child(nodes_view(nodes@), p as int, 1)
                == Option::Some(j as int),
            Option::None => first_elem_child(nodes_view(nodes@), p as int, 1) is None,
        },
{
    let mut j: usize = 1;
    while j < nodes.len()
        invariant
            1 <= j,
            j <= nodes@.len() || j == 1,
            first_elem_child(nodes_view(nodes@), p as int, 1) == first_elem_child(
                nodes_view(nodes@),
                p as int,
                j as int,
            ),
        decreases nodes@.len() - j,
    {
        let nd = &nodes[j];
        assert(nodes_view(nodes@)[j as int] == nodes@[j as int]@);
        if nd.parent == p && nd.element {
            return Some(j);
        }
        j += 1;
    }
    None
}

/// Finds the first element child of node `p` whose tag name is `nm`.
pub fn find_named_child(nodes: &Vec<XmlNode>, p: usize, nm: &str) -> (r: Option<usize>)
    ensures
        match r {
            Option::Some(j) => 1 <= j < nodes@.len() && named_child(
                nodes_view(nodes@),
                p as int,
                nm@,
                1,
            ) == Option::Some(j as int),
            Option::None => named_child(nodes_view(nodes@), p as int, nm@, 1) is None,
        },
{
    let mut j: usize = 1;
    while j < nodes.len()
        invariant
            1 <= j,
            j <= nodes@.len() || j == 1,
            named_child(nodes_view(nodes@), p as int, nm@, 1) == named_child(
                nodes_view(nodes@),
                p as int,
                nm@,
                j as int,
            ),
        decreases nodes@.len() - j,
    {
        let nd = &nodes[j];
        assert(nodes_view(nodes@)[j as int] == nodes@[j as int]@);
        if nd.parent == p && nd.element && nd.name.as_str().eq(nm) {
            return Some(j);
        }
        j += 1;
    }
    None
}

} // verus!
