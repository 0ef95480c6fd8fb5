use vstd::prelude::*;
use crate::cli::{CliError, CliErrorView};

verus! {

/// An attribute of an XML element.
#[derive(Debug, Clone)]
pub struct XmlAttribute {
    /// The namespace URI of the attribute's name, if it has one.
    pub namespace: Option<String>,
    /// The local part of the attribute's name.
    pub name: String,
    pub value: String,
}

/// A node of an XML document, as the document lists it.
#[derive(Debug, Clone)]
pub struct XmlNode {
    pub is_element: bool,
    /// The local part of the element's tag name; empty for other nodes.
    pub local_name: String,
    /// The node's text: for an element, that of its first child when that
    /// child is text.
    pub text: Option<String>,
    pub attributes: Vec<XmlAttribute>,
    /// The position of the parent node in the document's list.
    pub parent: Option<usize>,
}

/// An XML document: its nodes in document order, the root first.
pub struct XmlDocument {
    pub nodes: Vec<XmlNode>,
}

impl View for XmlDocument {
    type V = Seq<XmlNode>;

    open spec fn view(&self) -> Seq<XmlNode> {
        self.nodes@
    }
}

/// The node is an element whose local name is `tag`, as `Node::has_tag_name`
/// with a bare name decides.
pub open spec fn has_tag(node: XmlNode, tag: Seq<char>) -> bool {
    node.is_element && node.local_name@ == tag
}

/// The value of the first attribute without namespace named `name`, as
/// `Node::attribute` with a bare name gives it.
pub open spec fn attribute_in(attrs: Seq<XmlAttribute>, name: Seq<char>) -> Option<Seq<char>>
    decreases attrs.len(),
{
    if attrs.len() == 0 {
        None
    } else if attrs[0].namespace is None && attrs[0].name@ == name {
        Some(attrs[0].value@)
    } else {
        attribute_in(attrs.drop_first(), name)
    }
}

/// The value of the node's attribute `name`, if it has one.
pub open spec fn attribute_of(node: XmlNode, name: Seq<char>) -> Option<Seq<char>> {
    attribute_in(node.attributes@, name)
}

/// The position of the parent of node `j`, when both are in the document.
pub open spec fn parent_of(nodes: Seq<XmlNode>, j: int) -> Option<int> {
    if 0 <= j < nodes.len() {
        match nodes[j].parent {
            Some(p) => if p < nodes.len() {
                Some(p as int)
            } else {
                None
            },
            None => None,
        }
    } else {
        None
    }
}

/// Node `a` is node `j` or is reached from it by at most `steps` steps to a
/// parent.
pub open spec fn reaches(nodes: Seq<XmlNode>, j: int, a: int, steps: nat) -> bool
    decreases steps,
{
    j == a || (steps > 0 && match parent_of(nodes, j) {
        Some(p) => reaches(nodes, p, a, (steps - 1) as nat),
        None => false,
    })
}

/// Node `a` is node `j` or one of its ancestors. (A path to the root visits
/// each node at most once, so as many steps as there are nodes suffice.)
pub open spec fn is_ancestor_or_self(nodes: Seq<XmlNode>, a: int, j: int) -> bool {
    reaches(nodes, j, a, nodes.len())
}

/// Node `j` or one of the nodes reached from it by at most `steps` steps to a
/// parent is an element tagged `tag`.
pub open spec fn tagged_within(nodes: Seq<XmlNode>, j: int, tag: Seq<char>, steps: nat) -> bool
    decreases steps,
{
    (0 <= j < nodes.len() && has_tag(nodes[j], tag)) || (steps > 0 && match parent_of(nodes, j) {
        Some(p) => tagged_within(nodes, p, tag, (steps - 1) as nat),
        None => false,
    })
}

/// Node `j` or one of its ancestors is an element tagged `tag`, as a search
/// of `Node::ancestors` finds it.
pub open spec fn has_tagged_ancestor(nodes: Seq<XmlNode>, j: int, tag: Seq<char>) -> bool {
    tagged_within(nodes, j, tag, nodes.len())
}

/// Whether the node is an element whose local name is `tag`.
pub fn node_has_tag(node: &XmlNode, tag: &String) -> (r: bool)
    ensures
        r == has_tag(*node, tag@),
{
    node.is_element && node.local_name == *tag
}

/// The value of the node's attribute `name` that has no namespace.
pub fn node_attribute<'a>(node: &'a XmlNode, name: &String) -> (r: Option<&'a String>)
    ensures
        match r {
            Some(v) => attribute_of(*node, name@) == Some(v@),
            None => attribute_of(*node, name@) is None,
        },
{
    let attrs = &node.attributes;
    let n = attrs.len();
    let mut i: usize = 0;
    assert(attrs@.skip(0) =~= attrs@);
    while i < n
        invariant
            i <= n,
            n == attrs@.len(),
            attrs@ == node.attributes@,
            attribute_of(*node, name@) == attribute_in(attrs@.skip(i as int), name@),
        decreases n - i,
    {
        let a = &attrs[i];
        assert(attrs@.skip(i as int)[0] == attrs@[i as int]);
        if a.namespace.is_none() && a.name == *name {
            return Some(&a.value);
        }
        assert(attrs@.skip(i as int).drop_first() =~= attrs@.skip(i + 1));
        i = i + 1;
    }
    None
}

/// Whether node `a` is node `j` or one of its ancestors.
pub fn ancestor_or_self(nodes: &Vec<XmlNode>, a: usize, j: usize) -> (r: bool)
    ensures
        r == is_ancestor_or_self(nodes@, a as int, j as int),
{
    let n = nodes.len();
    let mut k: usize = j;
    let mut steps: usize = n;
    loop
        invariant
            n == nodes@.len(),
            steps <= n,
            is_ancestor_or_self(nodes@, a as int, j as int) == reaches(
                nodes@,
                k as int,
                a as int,
                steps as nat,
            ),
        decreases steps,
    {
        if k == a {
            return true;
        }
        if steps == 0 || k >= n {
            return false;
        }
        match nodes[k].parent {
            Some(p) => {
                if p < n {
                    k = p;
                    steps = steps - 1;
                } else {
                    return false;
                }
            },
            None => {
                return false;
            },
        }
    }
}

/// Whether node `j` or one of its ancestors is an element tagged `tag`.
pub fn tagged_ancestor(nodes: &Vec<XmlNode>, j: usize, tag: &String) -> (r: bool)
    ensures
        r == has_tagged_ancestor(nodes@, j as int, tag@),
{
    let n = nodes.len();
    let mut k: usize = j;
    let mut steps: usize = n;
    loop
        invariant
            n == nodes@.len(),
            steps <= n,
            has_tagged_ancestor(nodes@, j as int, tag@) == tagged_within(
                nodes@,
                k as int,
                tag@,
                steps as nat,
            ),
        decreases steps,
    {
        if k >= n {
            return false;
        }
        if node_has_tag(&nodes[k], tag) {
            return true;
        }
        if steps == 0 {
            return false;
        }
        match nodes[k].parent {
            Some(p) => {
                if p < n {
                    k = p;
                    steps = steps - 1;
                } else {
                    return false;
                }
            },
            None => {
                return false;
            },
        }
    }
}

/// The nodes of the XML document `text` in document order, as `roxmltree`
/// parses it, or the message of the parse error it reports.
pub uninterp spec fn xml_document_nodes(text: Seq<char>) -> Result<Seq<XmlNode>, Seq<char>>;

/// Parses `text` with `roxmltree::Document::parse` and lists the nodes that
/// `Document::descendants` yields, each with what `Node::is_element`,
/// `Node::tag_name`, `Node::text`, `Node::attributes` and `Node::parent` give;
/// a parse error is returned as its message. Trusted: the result is what the
/// name `xml_document_nodes` stands for on `text`; nothing more is claimed of it.
#[verifier::external_body]
fn read_xml_nodes(text: &str) -> (r: Result<Vec<XmlNode>, String>)
    ensures
        match r {
            Ok(nodes) => xml_document_nodes(text@) == Ok::<Seq<XmlNode>, Seq<char>>(nodes@),
            Err(m) => xml_document_nodes(text@) == Err::<Seq<XmlNode>, Seq<char>>(m@),
        },
{
    let doc = roxmltree::Document::parse(text).map_err(|e| e.to_string())?;
    Ok(doc.descendants().map(|n| XmlNode {
        is_element: n.is_element(),
        local_name: n.tag_name().name().to_string(),
        text: n.text().map(String::from),
        attributes: n.attributes().map(|a| XmlAttribute {
            namespace: a.namespace().map(String::from),
            name: a.name().to_string(),
            value: a.value().to_string(),
        }).collect(),
        parent: n.parent().map(|p| p.id().get_usize()),
    }).collect())
}

/// Parses the text of an SDN file into its XML document.
pub fn parse_sdn_document(text: &str) -> (r: Result<XmlDocument, CliError>)
    ensures
        match r {
            Ok(doc) => xml_document_nodes(text@) == Ok::<Seq<XmlNode>, Seq<char>>(doc@),
            Err(e) => exists|m: Seq<char>|
                xml_document_nodes(text@) == Err::<Seq<XmlNode>, Seq<char>>(m) && e@
                    == CliErrorView::Xml(m),
        },
{
    match read_xml_nodes(text) {
        Ok(nodes) => Ok(XmlDocument { nodes }),
        Err(m) => {
            let e = CliError::Xml(m);
            assert(e@ == CliErrorView::Xml(m@));
            Err(e)
        },
    }
}

} // verus!

verus! {

/// Attribute `a` of `attrs` is an attribute without namespace named `name`
/// and no earlier attribute is.
pub open spec fn first_named(attrs: Seq<XmlAttribute>, a: int, name: Seq<char>) -> bool {
    &&& 0 <= a < attrs.len()
    &&& attrs[a].namespace is None
    &&& attrs[a].name@ == name
    &&& forall|b: int| 0 <= b < a ==> !(attrs[b].namespace is None && #[trigger] attrs[b].name@ == name)
}

/// Looking an attribute up by name finds the first attribute without
/// namespace of that name, wherever it stands, and finds nothing when there
/// is none.
pub proof fn attribute_lookup_finds_first_of_name(attrs: Seq<XmlAttribute>, name: Seq<char>)
    ensures
        forall|a: int| first_named(attrs, a, name) ==> attribute_in(attrs, name) == Some(attrs[a].value@),
        attribute_in(attrs, name) is None <==> forall|a: int|
            0 <= a < attrs.len() ==> !(attrs[a].namespace is None && #[trigger] attrs[a].name@ == name),
        attribute_in(attrs, name) matches Some(v) ==> exists|a: int|
            first_named(attrs, a, name) && attrs[a].value@ == v,
    decreases attrs.len(),
{
    if attrs.len() > 0 {
        let rest = attrs.drop_first();
        attribute_lookup_finds_first_of_name(rest, name);
        if let Some(v) = attribute_in(attrs, name) {
            if attrs[0].namespace is None && attrs[0].name@ == name {
                assert(first_named(attrs, 0, name));
            } else {
                let a = choose|a: int| first_named(rest, a, name) && rest[a].value@ == v;
                assert(rest[a] == attrs[a + 1]);
                assert forall|b: int| 0 <= b < a + 1 implies !(attrs[b].namespace is None
                    && #[trigger] attrs[b].name@ == name) by {
                    if b > 0 {
                        assert(rest[b - 1] == attrs[b]);
                    }
                }
                assert(first_named(attrs, a + 1, name));
            }
        }
        assert forall|a: int| first_named(attrs, a, name) implies attribute_in(attrs, name) == Some(
            attrs[a].value@,
        ) by {
            if a > 0 {
                assert(!(attrs[0].namespace is None && attrs[0].name@ == name));
                assert(first_named(rest, a - 1, name)) by {
                    assert forall|b: int| 0 <= b < a - 1 implies !(rest[b].namespace is None
                        && #[trigger] rest[b].name@ == name) by {
                        assert(rest[b] == attrs[b + 1]);
                    }
                }
                assert(rest[a - 1] == attrs[a]);
            }
        }
        if attribute_in(attrs, name) is None {
            assert forall|a: int| 0 <= a < attrs.len() implies !(attrs[a].namespace is None
                && #[trigger] attrs[a].name@ == name) by {
                if a > 0 {
                    assert(rest[a - 1] == attrs[a]);
                }
            }
        }
        if forall|a: int|
            0 <= a < attrs.len() ==> !(attrs[a].namespace is None && #[trigger] attrs[a].name@ == name) {
            assert(!(attrs[0].namespace is None && attrs[0].name@ == name));
            assert forall|a: int| 0 <= a < rest.len() implies !(rest[a].namespace is None
                && #[trigger] rest[a].name@ == name) by {
                assert(rest[a] == attrs[a + 1]);
            }
        }
    }
}

} // verus!
