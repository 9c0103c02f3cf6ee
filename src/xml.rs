//! A plain-value model of an XML document: the nodes in document order, each
//! with its local tag name, its attributes, its text and its children.
use vstd::prelude::*;
use roxmltree::Error as SyntaxError;

verus! {

/// The model of one node of a document.
pub struct NodeView {
    pub tag: Seq<char>,
    pub attributes: Seq<(Seq<char>, Seq<char>)>,
    pub text: Option<Seq<char>>,
    pub children: Seq<usize>,
}

/// One node of a document. Elements carry their local tag name; other nodes
/// (the document root, text, comments) carry an empty one. `text` is the text
/// that directly opens an element; `children` holds indices into the
/// document's node list.
pub struct XmlNode {
    pub tag: String,
    pub attributes: Vec<(String, String)>,
    pub text: Option<String>,
    pub children: Vec<usize>,
}

pub open spec fn text_view(t: Option<String>) -> Option<Seq<char>> {
    match t {
        Some(s) => Some(s@),
        None => None,
    }
}

impl View for XmlNode {
    type V = NodeView;

    open spec fn view(&self) -> NodeView {
        NodeView {
            tag: self.tag@,
            attributes: self.attributes@.map_values(|a: (String, String)| (a.0@, a.1@)),
            text: text_view(self.text),
            children: self.children@,
        }
    }
}

/// What an XML parser makes of a text: `None` where the text is not
/// well-formed XML, else the nodes in document order, the document root first.
pub uninterp spec fn xml_nodes(text: Seq<char>) -> Option<Seq<NodeView>>;

#[verifier::external_type_specification]
#[verifier::external_body]
pub struct ExSyntaxError(SyntaxError);

/// A parsed XML document, flattened into a list of nodes.
pub struct XmlDocument {
    pub nodes: Vec<XmlNode>,
}

pub open spec fn nodes_view(nodes: Seq<XmlNode>) -> Seq<NodeView> {
    nodes.map_values(|n: XmlNode| n@)
}

impl View for XmlDocument {
    type V = Seq<NodeView>;

    open spec fn view(&self) -> Seq<NodeView> {
        nodes_view(self.nodes@)
    }
}

/// Relies on roxmltree::Document::parse_with_options, with a document type
/// declaration allowed (reports carry one): it rejects text that is not
/// well-formed XML and otherwise builds the node tree, which depends on the
/// text alone. The tree is handed back in the order of `descendants`, each
/// node with its local tag name, attributes, text and its children's ids.
#[verifier::external_body]
fn parse_nodes(text: &str) -> (r: Result<Vec<XmlNode>, SyntaxError>)
    ensures
        match r {
            Ok(nodes) => xml_nodes(text@) == Some(nodes_view(nodes@)),
            Err(_) => xml_nodes(text@) is None,
        },
{
    let opt = roxmltree::ParsingOptions { allow_dtd: true, ..Default::default() };
    let doc = roxmltree::Document::parse_with_options(text, opt)?;
    Ok(doc.descendants().map(|n| XmlNode {
        tag: n.tag_name().name().to_string(),
        attributes: n.attributes().map(|a| (a.name().to_string(), a.value().to_string())).collect(),
        text: n.text().map(|t| t.to_string()),
        children: n.children().map(|c| c.id().get_usize()).collect(),
    }).collect())
}

/// Whether `i` names a node with the tag `name`.
pub open spec fn has_tag(doc: Seq<NodeView>, i: int, name: Seq<char>) -> bool {
    0 <= i < doc.len() && doc[i].tag == name
}

/// The value of the first attribute named `name`, as an XML reader looks it up.
pub open spec fn attr_in(attrs: Seq<(Seq<char>, Seq<char>)>, name: Seq<char>) -> Option<Seq<char>>
    decreases attrs.len(),
{
    if attrs.len() == 0 {
        None
    } else if attrs[0].0 == name {
        Some(attrs[0].1)
    } else {
        attr_in(attrs.drop_first(), name)
    }
}

pub open spec fn attr(n: NodeView, name: Seq<char>) -> Option<Seq<char>> {
    attr_in(n.attributes, name)
}

/// The index of the first element among the children of the document root.
pub open spec fn root_element_in(doc: Seq<NodeView>, kids: Seq<usize>) -> Option<int>
    decreases kids.len(),
{
    if kids.len() == 0 {
        None
    } else if kids[0] < doc.len() && doc[kids[0] as int].tag.len() > 0 {
        Some(kids[0] as int)
    } else {
        root_element_in(doc, kids.drop_first())
    }
}

pub open spec fn root_element_of(doc: Seq<NodeView>) -> Option<int> {
    if doc.len() == 0 {
        None
    } else {
        root_element_in(doc, doc[0].children)
    }
}

/// Character-wise equality of two strings.
pub fn str_eq(a: &str, b: &str) -> (r: bool)
    ensures
        r == (a@ == b@),
{
    let n = a.unicode_len();
    if n != b.unicode_len() {
        return false;
    }
    let mut k: usize = 0;
    while k < n
        invariant
            n == a@.len(),
            n == b@.len(),
            k <= n,
            forall|j: int| 0 <= j < k ==> a@[j] == b@[j],
        decreases n - k,
    {
        if a.get_char(k) != b.get_char(k) {
            return false;
        }
        k = k + 1;
    }
    assert(a@ =~= b@);
    true
}

impl XmlNode {
    /// The value of the attribute `name`, if the node has one.
    pub fn attribute(&self, name: &str) -> (r: Option<&String>)
        ensures
            match r {
                Some(v) => attr(self@, name@) == Some(v@),
                None => attr(self@, name@) is None,
            },
    {
        let ghost attrs = self@.attributes;
        assert(attrs.subrange(0, attrs.len() as int) =~= attrs);
        let mut k: usize = 0;
        while k < self.attributes.len()
            invariant
                attrs == self@.attributes,
                k <= attrs.len(),
                attr_in(attrs, name@) == attr_in(attrs.subrange(k as int, attrs.len() as int), name@),
            decreases self.attributes.len() - k,
        {
            let ghost rest = attrs.subrange(k as int, attrs.len() as int);
            assert(rest.drop_first() =~= attrs.subrange(k + 1, attrs.len() as int));
            if str_eq(self.attributes[k].0.as_str(), name) {
                return Some(&self.attributes[k].1);
            }
            k = k + 1;
        }
        None
    }

    /// Whether the node is an element with the tag `name`.
    pub fn has_tag(&self, name: &str) -> (r: bool)
        ensures
            r == (self@.tag == name@),
    {
        str_eq(self.tag.as_str(), name)
    }
}

impl XmlDocument {
    /// Parses `text` as XML; fails exactly where the XML parser does.
    pub fn parse(text: &str) -> (r: Result<XmlDocument, SyntaxError>)
        ensures
            match r {
                Ok(d) => xml_nodes(text@) == Some(d@),
                Err(_) => xml_nodes(text@) is None,
            },
    {
        match parse_nodes(text) {
            Ok(nodes) => Ok(XmlDocument { nodes }),
            Err(e) => Err(e),
        }
    }

    /// Whether `i` names an element with the tag `name`.
    pub fn is_tag(&self, i: usize, name: &str) -> (r: bool)
        ensures
            r == has_tag(self@, i as int, name@),
    {
        i < self.nodes.len() && self.nodes[i].has_tag(name)
    }

    /// The document's root element: the first element below the document root.
    pub fn root_element(&self) -> (r: Option<usize>)
        ensures
            match r {
                Some(i) => root_element_of(self@) == Some(i as int) && i < self@.len(),
                None => root_element_of(self@) is None,
            },
    {
        if self.nodes.len() == 0 {
            return None;
        }
        let kids = &self.nodes[0].children;
        let ghost ks = self@[0].children;
        assert(ks.subrange(0, ks.len() as int) =~= ks);
        let mut k: usize = 0;
        while k < kids.len()
            invariant
                ks == kids@,
                ks == self@[0].children,
                self@.len() > 0,
                k <= ks.len(),
                root_element_of(self@) == root_element_in(self@, ks.subrange(k as int, ks.len() as int)),
            decreases kids.len() - k,
        {
            let ghost rest = ks.subrange(k as int, ks.len() as int);
            assert(rest.drop_first() =~= ks.subrange(k + 1, ks.len() as int));
            let c = kids[k];
            if c < self.nodes.len() && self.nodes[c].tag.unicode_len() > 0 {
                return Some(c);
            }
            k = k + 1;
        }
        None
    }
}

} // verus!
