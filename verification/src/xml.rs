//! The XML tree that the renderer reads: elements and runs of character
//! data, with the few look-ups that the documentation schema needs.

use vstd::prelude::*;
use vstd::string::*;
use crate::text::same;

verus! {

/// One attribute of an element.
pub struct Attribute {
    /// The namespace of the attribute; nothing for a plain attribute.
    pub namespace: Option<String>,
    /// The name without its prefix.
    pub name: String,
    pub value: String,
}

/// The content of an [`Attribute`].
pub ghost struct AttributeView {
    pub namespace: Option<Seq<char>>,
    pub name: Seq<char>,
    pub value: Seq<char>,
}

impl View for Attribute {
    type V = AttributeView;

    open spec fn view(&self) -> AttributeView {
        AttributeView {
            namespace: match self.namespace {
                Some(n) => Some(n@),
                None => None,
            },
            name: self.name@,
            value: self.value@,
        }
    }
}

/// A node of a parsed document. A node with an empty `tag` is a run of
/// character data held in `text`; any other node is an element.
pub struct XmlNode {
    /// Element name; empty for character data.
    pub tag: String,
    /// The character data of a text node.
    pub text: String,
    /// The attributes of an element, in document order.
    pub attributes: Vec<Attribute>,
    /// The child nodes of an element, in document order.
    pub children: Vec<XmlNode>,
    /// The source text between the markers of an element whose content is
    /// copied as it was written.
    pub verbatim: Option<String>,
}

/// The mathematical content of an [`XmlNode`].
pub ghost struct XmlTree {
    pub tag: Seq<char>,
    pub text: Seq<char>,
    pub attributes: Seq<AttributeView>,
    pub children: Seq<XmlTree>,
    pub verbatim: Option<Seq<char>>,
}

/// The content of one attribute list.
pub open spec fn attributes_of(attrs: Seq<Attribute>) -> Seq<AttributeView> {
    Seq::new(attrs.len(), |i: int| attrs[i]@)
}

/// The content of a node and of everything below it.
pub open spec fn tree_of(n: XmlNode) -> XmlTree
    decreases n,
{
    XmlTree {
        tag: n.tag@,
        text: n.text@,
        attributes: attributes_of(n.attributes@),
        children: Seq::new(
            n.children@.len(),
            |i: int|
                if 0 <= i < n.children@.len() {
                    tree_of(n.children@[i])
                } else {
                    arbitrary()
                },
        ),
        verbatim: match n.verbatim {
            Some(v) => Some(v@),
            None => None,
        },
    }
}

impl View for XmlNode {
    type V = XmlTree;

    open spec fn view(&self) -> XmlTree {
        tree_of(*self)
    }
}

/// The view of a node is made of the views of its fields.
pub proof fn lemma_view(n: XmlNode)
    ensures
        n@.tag == n.tag@,
        n@.text == n.text@,
        n@.attributes == attributes_of(n.attributes@),
        n@.children.len() == n.children@.len(),
        forall|i: int| 0 <= i < n.children@.len() ==> n@.children[i] == (#[trigger] n.children@[i])@,
        n@.verbatim is Some <==> n.verbatim is Some,
        n.verbatim matches Some(v) ==> n@.verbatim == Some(v@),
{
}

/// Whether the node is a run of character data.
pub open spec fn is_text(n: XmlTree) -> bool {
    n.tag.len() == 0
}

/// The value of the first attribute without a namespace that is called
/// `name`, looking from `from` on.
pub open spec fn attribute_from(attrs: Seq<AttributeView>, name: Seq<char>, from: int) -> Option<
    Seq<char>,
>
    decreases attrs.len() - from,
{
    if from < 0 || from >= attrs.len() {
        None
    } else if attrs[from].namespace is None && attrs[from].name == name {
        Some(attrs[from].value)
    } else {
        attribute_from(attrs, name, from + 1)
    }
}

/// The value of the attribute called `name`, if the element has one. An
/// attribute in a namespace is not found by its name alone.
pub open spec fn attribute(n: XmlTree, name: Seq<char>) -> Option<Seq<char>> {
    attribute_from(n.attributes, name, 0)
}

/// The text of a node: its own character data, or for an element the
/// character data that it starts with.
pub open spec fn text_of(n: XmlTree) -> Option<Seq<char>> {
    if is_text(n) {
        Some(n.text)
    } else if n.children.len() > 0 && is_text(n.children[0]) {
        Some(n.children[0].text)
    } else {
        None
    }
}

/// Whether the node is an element called `tag`. A run of character data
/// is called nothing, not even by the empty name.
pub open spec fn called(n: XmlTree, tag: Seq<char>) -> bool {
    !is_text(n) && n.tag == tag
}

/// The position of the first element called `tag` among `cs[from..]`.
pub open spec fn first_tagged(cs: Seq<XmlTree>, tag: Seq<char>, from: int) -> Option<int>
    decreases cs.len() - from,
{
    if from < 0 || from >= cs.len() {
        None
    } else if called(cs[from], tag) {
        Some(from)
    } else {
        first_tagged(cs, tag, from + 1)
    }
}

/// The position of the child called `tag`, when exactly one child has that
/// name.
pub open spec fn only_tagged(cs: Seq<XmlTree>, tag: Seq<char>) -> Option<int> {
    match first_tagged(cs, tag, 0) {
        Some(i) => if first_tagged(cs, tag, i + 1) is None {
            Some(i)
        } else {
            None
        },
        None => None,
    }
}

/// The text of the only child called `tag`.
pub open spec fn child_value(n: XmlTree, tag: Seq<char>) -> Option<Seq<char>> {
    match only_tagged(n.children, tag) {
        Some(i) => text_of(n.children[i]),
        None => None,
    }
}

impl XmlNode {
    /// A run of character data.
    pub fn text(content: &str) -> (n: XmlNode)
        ensures
            n@ == (XmlTree {
                tag: Seq::empty(),
                text: content@,
                attributes: Seq::empty(),
                children: Seq::empty(),
                verbatim: None,
            }),
    {
        let n = XmlNode {
            tag: String::new(),
            text: content.to_owned(),
            attributes: Vec::new(),
            children: Vec::new(),
            verbatim: None,
        };
        proof {
            lemma_view(n);
            assert(n@.attributes =~= Seq::empty());
            assert(n@.children =~= Seq::empty());
        }
        n
    }

    /// An element called `tag` with the given attributes and children.
    pub fn element(tag: &str, attributes: Vec<Attribute>, children: Vec<XmlNode>) -> (n: XmlNode)
        ensures
            n.tag@ == tag@,
            n.attributes == attributes,
            n.children == children,
            n.verbatim is None,
            n.text@.len() == 0,
    {
        XmlNode { tag: tag.to_owned(), text: String::new(), attributes, children, verbatim: None }
    }

    /// Whether the node is a run of character data.
    pub fn is_text(&self) -> (r: bool)
        ensures
            r == is_text(self@),
    {
        self.tag.as_str().is_empty()
    }

    /// Whether the node is an element called `tag`.
    pub fn has_tag(&self, tag: &str) -> (r: bool)
        ensures
            r == called(self@, tag@),
    {
        !self.is_text() && same(self.tag.as_str(), tag)
    }

    /// Whether the name of the node is `tag`; the name of a run of
    /// character data is empty.
    pub fn named(&self, tag: &str) -> (r: bool)
        ensures
            r == (self@.tag == tag@),
    {
        same(self.tag.as_str(), tag)
    }

    /// The value of the attribute called `name`.
    pub fn attribute(&self, name: &str) -> (r: Option<&str>)
        ensures
            match r {
                Some(v) => attribute(self@, name@) == Some(v@),
                None => attribute(self@, name@) is None,
            },
    {
        let ghost attrs = self@.attributes;
        let mut i: usize = 0;
        while i < self.attributes.len()
            invariant
                i <= self.attributes.len(),
                attrs == attributes_of(self.attributes@),
                attribute_from(attrs, name@, 0) == attribute_from(attrs, name@, i as int),
            decreases self.attributes.len() - i,
        {
            if self.attributes[i].namespace.is_none() && same(
                self.attributes[i].name.as_str(),
                name,
            ) {
                return Some(self.attributes[i].value.as_str());
            }
            i += 1;
        }
        None
    }

    /// The text of the node: its own character data, or for an element the
    /// character data that it starts with.
    pub fn text_value(&self) -> (r: Option<&str>)
        ensures
            match r {
                Some(v) => text_of(self@) == Some(v@),
                None => text_of(self@) is None,
            },
    {
        proof {
            lemma_view(*self);
        }
        if self.is_text() {
            Some(self.text.as_str())
        } else if self.children.len() > 0 && self.children[0].is_text() {
            Some(self.children[0].text.as_str())
        } else {
            None
        }
    }

    /// The position of the first child called `tag` at or after `from`.
    pub fn find_child(&self, tag: &str, from: usize) -> (r: Option<usize>)
        ensures
            match r {
                Some(i) => first_tagged(self@.children, tag@, from as int) == Some(i as int) && from
                    <= i < self.children.len() && called(self.children[i as int]@, tag@),
                None => first_tagged(self@.children, tag@, from as int) is None,
            },
    {
        let ghost cs = self@.children;
        proof {
            lemma_view(*self);
        }
        let mut i: usize = from;
        while i < self.children.len()
            invariant
                from <= i,
                cs == self@.children,
                cs.len() == self.children.len(),
                forall|k: int| 0 <= k < cs.len() ==> cs[k] == (#[trigger] self.children@[k])@,
                first_tagged(cs, tag@, from as int) == first_tagged(cs, tag@, i as int),
            decreases self.children.len() - i,
        {
            if self.children[i].has_tag(tag) {
                return Some(i);
            }
            i += 1;
        }
        None
    }

    /// The position of the child called `tag`, when exactly one child has
    /// that name.
    pub fn child_index(&self, tag: &str) -> (r: Option<usize>)
        ensures
            match r {
                Some(i) => only_tagged(self@.children, tag@) == Some(i as int) && i
                    < self.children.len() && called(self.children[i as int]@, tag@),
                None => only_tagged(self@.children, tag@) is None,
            },
    {
        match self.find_child(tag, 0) {
            Some(i) => {
                if self.find_child(tag, i + 1).is_none() {
                    Some(i)
                } else {
                    None
                }
            },
            None => None,
        }
    }

}

/// Look-ups of a child by its name.
pub trait NodeExt {
    /// The content of the node.
    spec fn tree(&self) -> XmlTree;

    /// The child called `tag`, when exactly one child has that name.
    fn get_child(&self, tag: &str) -> (r: Option<&XmlNode>)
        ensures
            match r {
                Some(c) => only_tagged(self.tree().children, tag@) matches Some(i) && 0 <= i
                    < self.tree().children.len() && c@ == self.tree().children[i],
                None => only_tagged(self.tree().children, tag@) is None,
            },
    ;

    /// The text of the only child called `tag`.
    fn get_child_value(&self, tag: &str) -> (r: Option<&str>)
        ensures
            match r {
                Some(v) => child_value(self.tree(), tag@) == Some(v@),
                None => child_value(self.tree(), tag@) is None,
            },
    ;
}

impl NodeExt for XmlNode {
    open spec fn tree(&self) -> XmlTree {
        self@
    }

    fn get_child(&self, tag: &str) -> (r: Option<&XmlNode>) {
        proof {
            lemma_view(*self);
        }
        match self.child_index(tag) {
            Some(i) => Some(&self.children[i]),
            None => None,
        }
    }

    fn get_child_value(&self, tag: &str) -> (r: Option<&str>) {
        match self.get_child(tag) {
            Some(c) => c.text_value(),
            None => None,
        }
    }
}

} // verus!
