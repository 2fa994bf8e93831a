//! From the text of an XML document to the tree that the renderer reads.
//!
//! The parser hands over the nodes of the document in document order, each
//! with the position of its parent. The tree is built from that list here.

use vstd::prelude::*;
use vstd::string::*;
use vstd::utf8::{decode_utf8, encode_utf8, encode_utf8_decode_utf8, is_char_boundary};
use crate::model::{lemma_views_push, views};
use crate::text::same;
use crate::xml::{
    attributes_of, is_text, lemma_view, Attribute, AttributeView, XmlNode, XmlTree,
};

verus! {

/// One node of a parsed document, as the parser reports it.
pub struct RawNode {
    /// The position of the parent in the list; nothing for the root.
    pub parent: Option<usize>,
    /// Whether the node is a run of character data.
    pub text_node: bool,
    /// The name of an element; empty for any other node, as the name of
    /// an element never is.
    pub tag: String,
    /// The text that the parser gives for the node.
    pub text: Option<String>,
    /// The attributes of an element.
    pub attributes: Vec<Attribute>,
    /// Where the node starts in the document, in bytes.
    pub start: usize,
    /// Where the node ends in the document, in bytes.
    pub end: usize,
}

/// The content of a [`RawNode`].
pub ghost struct RawView {
    pub parent: Option<int>,
    pub text_node: bool,
    pub tag: Seq<char>,
    pub text: Option<Seq<char>>,
    pub attributes: Seq<AttributeView>,
    pub start: int,
    pub end: int,
}

impl View for RawNode {
    type V = RawView;

    open spec fn view(&self) -> RawView {
        RawView {
            parent: match self.parent {
                Some(p) => Some(p as int),
                None => None,
            },
            text_node: self.text_node,
            tag: self.tag@,
            text: match self.text {
                Some(t) => Some(t@),
                None => None,
            },
            attributes: attributes_of(self.attributes@),
            start: self.start as int,
            end: self.end as int,
        }
    }
}

/// The contents of a list of raw nodes.
pub open spec fn raw_views(nodes: Seq<RawNode>) -> Seq<RawView> {
    Seq::new(nodes.len(), |i: int| nodes[i]@)
}

/// The nodes that the parser finds in a document, in document order;
/// nothing where the text is not well-formed XML.
pub uninterp spec fn scanned(text: Seq<char>) -> Option<Seq<RawView>>;

/// Calls `roxmltree::Document::parse` and lists what `descendants` yields:
/// every node of the document in document order, with the position of its
/// parent, its type, tag name, text, attributes (each with its namespace,
/// local name and value) and byte range as the accessors of
/// `roxmltree::Node` and `roxmltree::Attribute` give them. The result
/// depends on the text alone.
#[verifier::external_body]
fn scan_document(text: &str) -> (r: Option<Vec<RawNode>>)
    ensures
        match r {
            Some(nodes) => scanned(text@) == Some(raw_views(nodes@)),
            None => scanned(text@) is None,
        },
{
    let doc = roxmltree::Document::parse(text).ok()?;
    let attribute = |a: roxmltree::Attribute| Attribute { namespace: a.namespace().map(String::from), name: a.name().into(), value: a.value().into() };
    Some(doc.descendants().map(|n| RawNode {
        parent: n.parent().map(|p| p.id().get_usize()),
        text_node: n.is_text(),
        tag: n.tag_name().name().into(),
        text: n.text().map(String::from),
        attributes: n.attributes().map(attribute).collect(),
        start: n.range().start,
        end: n.range().end,
    }).collect())
}

/// The length in bytes of `<htmlonly>`, the marker that opens a verbatim
/// element.
pub const OPEN_MARKER: usize = 10;

/// The length in bytes of `</htmlonly>`, the marker that closes a verbatim
/// element.
pub const CLOSE_MARKER: usize = 11;

/// The source text of an element between its opening and its closing
/// marker; nothing where the range does not hold both markers or does not
/// cut the document between characters.
pub open spec fn inner_source(input: Seq<char>, start: int, end: int) -> Option<Seq<char>> {
    let bytes = encode_utf8(input);
    let from = start + OPEN_MARKER;
    let to = end - CLOSE_MARKER;
    if 0 <= start && from <= to && to <= bytes.len() && is_char_boundary(bytes, to)
        && is_char_boundary(bytes.subrange(0, to), from) {
        Some(decode_utf8(bytes.subrange(from, to)))
    } else {
        None
    }
}

/// Cuts the source text of an element between its markers.
pub fn cut_inner_source(input: &str, start: usize, end: usize) -> (r: Option<String>)
    ensures
        match r {
            Some(s) => inner_source(input@, start as int, end as int) == Some(s@),
            None => inner_source(input@, start as int, end as int) is None,
        },
{
    if end < CLOSE_MARKER || start > end - CLOSE_MARKER || end - CLOSE_MARKER - start
        < OPEN_MARKER {
        return None;
    }
    let from = start + OPEN_MARKER;
    let to = end - CLOSE_MARKER;
    let bytes = input.as_bytes();
    if to > bytes.len() || !input.is_char_boundary(to) {
        return None;
    }
    let (head, _) = input.split_at(to);
    if !head.is_char_boundary(from) {
        return None;
    }
    let (_, inner) = head.split_at(from);
    proof {
        encode_utf8_decode_utf8(inner@);
        assert(inner.spec_bytes() =~= input.spec_bytes().subrange(from as int, to as int));
    }
    Some(inner.to_owned())
}

/// Whether the tree keeps a node: elements and character data are kept,
/// comments and processing instructions are not.
pub open spec fn kept(raw: RawView) -> bool {
    is_element(raw) || raw.text_node
}

/// Whether a raw node is an element: the nodes that have a name.
pub open spec fn is_element(raw: RawView) -> bool {
    raw.tag.len() > 0
}

/// The tree node for a raw node with the given children.
pub open spec fn node_content(raw: RawView, input: Seq<char>, children: Seq<XmlTree>) -> XmlTree {
    if is_element(raw) {
        XmlTree {
            tag: raw.tag,
            text: Seq::empty(),
            attributes: raw.attributes,
            children,
            verbatim: if raw.tag == "htmlonly"@ {
                inner_source(input, raw.start, raw.end)
            } else {
                None
            },
        }
    } else {
        XmlTree {
            tag: Seq::empty(),
            text: match raw.text {
                Some(t) => t,
                None => Seq::empty(),
            },
            attributes: Seq::empty(),
            children: Seq::empty(),
            verbatim: None,
        }
    }
}

/// The subtree of the node at position `i`, and the position after it.
pub open spec fn subtree(raw: Seq<RawView>, input: Seq<char>, i: int) -> (XmlTree, int)
    decreases raw.len() - i, 0int,
{
    if i < 0 || i >= raw.len() {
        (node_content(arbitrary(), input, Seq::empty()), i)
    } else {
        let below = forest(raw, input, i, i + 1);
        (node_content(raw[i], input, below.0), below.1)
    }
}

/// The subtrees of the children of `parent` that start at `from`, and the
/// position after the last of them. The children of a node follow it in
/// the list, each followed by what is below it.
pub open spec fn forest(raw: Seq<RawView>, input: Seq<char>, parent: int, from: int) -> (
    Seq<XmlTree>,
    int,
)
    decreases raw.len() - from, 1int,
{
    if from < 0 || from >= raw.len() || raw[from].parent != Some(parent) {
        (Seq::empty(), from)
    } else {
        let child = subtree(raw, input, from);
        if child.1 <= from || child.1 > raw.len() {
            (Seq::empty(), from)
        } else {
            let rest = forest(raw, input, parent, child.1);
            (
                if kept(raw[from]) {
                    seq![child.0] + rest.0
                } else {
                    rest.0
                },
                rest.1,
            )
        }
    }
}

/// The position of the first element among `nodes[from..]`.
pub open spec fn first_element(nodes: Seq<XmlTree>, from: int) -> Option<int>
    decreases nodes.len() - from,
{
    if from < 0 || from >= nodes.len() {
        None
    } else if !is_text(nodes[from]) {
        Some(from)
    } else {
        first_element(nodes, from + 1)
    }
}

/// The root element of a document: the first element below the root of
/// the list.
pub open spec fn document_tree(raw: Seq<RawView>, input: Seq<char>) -> Option<XmlTree> {
    if raw.len() == 0 {
        None
    } else {
        let top = forest(raw, input, 0, 1).0;
        match first_element(top, 0) {
            Some(k) => Some(top[k]),
            None => None,
        }
    }
}

/// The root element of the document that a text holds; nothing where the
/// text is not well-formed XML.
pub open spec fn parsed(text: Seq<char>) -> Option<XmlTree> {
    match scanned(text) {
        Some(raw) => document_tree(raw, text),
        None => None,
    }
}

fn copy_attributes(attrs: &Vec<Attribute>) -> (r: Vec<Attribute>)
    ensures
        attributes_of(r@) == attributes_of(attrs@),
{
    let mut out: Vec<Attribute> = Vec::new();
    let mut i: usize = 0;
    while i < attrs.len()
        invariant
            i <= attrs.len(),
            attributes_of(out@) =~= attributes_of(attrs@).take(i as int),
        decreases attrs.len() - i,
    {
        let namespace = match &attrs[i].namespace {
            Some(n) => Some(n.clone()),
            None => None,
        };
        let copy = Attribute {
            namespace,
            name: attrs[i].name.clone(),
            value: attrs[i].value.clone(),
        };
        assert(attributes_of(out@.push(copy)) =~= attributes_of(out@).push(copy@));
        out.push(copy);
        i += 1;
    }
    assert(attributes_of(out@) =~= attributes_of(attrs@));
    out
}

fn make_node(raw: &RawNode, input: &str, children: Vec<XmlNode>) -> (r: XmlNode)
    ensures
        r@ == node_content(raw@, input@, views(children@)),
{
    let node = if !raw.tag.as_str().is_empty() {
        let verbatim = if same(raw.tag.as_str(), "htmlonly") {
            cut_inner_source(input, raw.start, raw.end)
        } else {
            None
        };
        XmlNode {
            tag: raw.tag.clone(),
            text: String::new(),
            attributes: copy_attributes(&raw.attributes),
            children,
            verbatim,
        }
    } else {
        let text = match &raw.text {
            Some(t) => t.clone(),
            None => String::new(),
        };
        XmlNode {
            tag: String::new(),
            text,
            attributes: Vec::new(),
            children: Vec::new(),
            verbatim: None,
        }
    };
    proof {
        lemma_view(node);
        let expected = node_content(raw@, input@, views(children@));
        assert(node@.children =~= expected.children);
        assert(node@.attributes =~= expected.attributes);
    }
    node
}

fn build_subtree(nodes: &Vec<RawNode>, input: &str, i: usize) -> (r: (XmlNode, usize))
    requires
        i < nodes.len(),
    ensures
        r.0@ == subtree(raw_views(nodes@), input@, i as int).0,
        r.1 == subtree(raw_views(nodes@), input@, i as int).1,
        i < r.1 <= nodes.len(),
    decreases nodes.len() - i, 0int,
{
    let (children, next) = build_forest(nodes, input, i, i + 1);
    (make_node(&nodes[i], input, children), next)
}

fn build_forest(nodes: &Vec<RawNode>, input: &str, parent: usize, from: usize) -> (r: (
    Vec<XmlNode>,
    usize,
))
    requires
        from <= nodes.len(),
    ensures
        views(r.0@) == forest(raw_views(nodes@), input@, parent as int, from as int).0,
        r.1 == forest(raw_views(nodes@), input@, parent as int, from as int).1,
        from <= r.1 <= nodes.len(),
    decreases nodes.len() - from, 1int,
{
    let ghost raw = raw_views(nodes@);
    let ghost total = forest(raw, input@, parent as int, from as int);
    let mut out: Vec<XmlNode> = Vec::new();
    let mut at: usize = from;
    assert(views(out@) + total.0 =~= total.0);
    loop
        invariant
            from <= at <= nodes.len(),
            raw == raw_views(nodes@),
            total == forest(raw, input@, parent as int, from as int),
            total.0 == views(out@) + forest(raw, input@, parent as int, at as int).0,
            total.1 == forest(raw, input@, parent as int, at as int).1,
        decreases nodes.len() - at,
    {
        let is_child = at < nodes.len() && match nodes[at].parent {
            Some(p) => p == parent,
            None => false,
        };
        if !is_child {
            assert(views(out@) + Seq::<XmlTree>::empty() =~= views(out@));
            return (out, at);
        }
        let ghost before = views(out@);
        let (child, next) = build_subtree(nodes, input, at);
        let ghost after = forest(raw, input@, parent as int, next as int);
        if !nodes[at].tag.as_str().is_empty() || nodes[at].text_node {
            proof {
                lemma_views_push(out@, child);
                assert(before.push(child@) + after.0 =~= before + (seq![child@] + after.0));
            }
            out.push(child);
        }
        at = next;
    }
}

/// Builds the tree of a document from the list of its nodes and gives its
/// root element. Comments and processing instructions are left out; an
/// `htmlonly` element keeps the source text between its markers.
pub fn build_document(nodes: Vec<RawNode>, input: &str) -> (r: Option<XmlNode>)
    ensures
        match r {
            Some(n) => document_tree(raw_views(nodes@), input@) == Some(n@),
            None => document_tree(raw_views(nodes@), input@) is None,
        },
{
    if nodes.len() == 0 {
        return None;
    }
    let (top, _) = build_forest(&nodes, input, 0, 1);
    let ghost trees = views(top@);
    let mut top = top;
    let mut i: usize = 0;
    while i < top.len()
        invariant
            i <= top.len(),
            trees == views(top@),
            document_tree(raw_views(nodes@), input@) == match first_element(trees, 0) {
                Some(k) => Some(trees[k]),
                None => None,
            },
            first_element(trees, 0) == first_element(trees, i as int),
        decreases top.len() - i,
    {
        if !top[i].is_text() {
            assert(trees[i as int] == top@[i as int]@);
            let node = top.swap_remove(i);
            return Some(node);
        }
        i += 1;
    }
    None
}

/// Parses the text of an XML document and gives the tree of its root
/// element.
pub fn parse_document(text: &str) -> (r: Option<XmlNode>)
    ensures
        match r {
            Some(n) => parsed(text@) == Some(n@),
            None => parsed(text@) is None,
        },
{
    match scan_document(text) {
        Some(nodes) => build_document(nodes, text),
        None => None,
    }
}

} // verus!
