use doxhtml::document::{build_document, cut_inner_source, parse_document, RawNode};
use doxhtml::xml::{Attribute, NodeExt, XmlNode};

fn raw(parent: Option<usize>, tag: &str, text: Option<&str>) -> RawNode {
    RawNode {
        parent,
        text_node: tag.is_empty() && text.is_some(),
        tag: tag.to_owned(),
        text: text.map(|t| t.to_owned()),
        attributes: vec![],
        start: 0,
        end: 0,
    }
}

#[test]
fn parse_gives_root_element() {
    let doc = parse_document("<?xml version=\"1.0\"?><!-- c --><a x=\"1\" y=\"&lt;2\">t<b/>u<!-- d --><c>v</c></a>").unwrap();
    assert_eq!(doc.tag, "a");
    assert_eq!(doc.attributes.len(), 2);
    assert_eq!(doc.attributes[0].name, "x");
    assert_eq!(doc.attributes[0].value, "1");
    assert_eq!(doc.attributes[1].name, "y");
    assert_eq!(doc.attributes[1].value, "<2");
    assert_eq!(doc.attribute("y"), Some("<2"));
    assert_eq!(doc.attribute("z"), None);
    assert_eq!(doc.children.len(), 4);
    assert!(doc.children[0].is_text());
    assert_eq!(doc.children[0].text, "t");
    assert_eq!(doc.children[1].tag, "b");
    assert!(doc.children[1].children.is_empty());
    assert_eq!(doc.children[2].text, "u");
    assert_eq!(doc.children[3].tag, "c");
    assert_eq!(doc.children[3].children.len(), 1);
    assert_eq!(doc.children[3].children[0].text, "v");
    assert_eq!(doc.verbatim, None);
    assert_eq!(doc.text_value(), Some("t"));
    assert_eq!(doc.children[3].text_value(), Some("v"));
    assert_eq!(doc.children[1].text_value(), None);
}

#[test]
fn parse_rejects_malformed_text() {
    assert!(parse_document("").is_none());
    assert!(parse_document("<a>").is_none());
    assert!(parse_document("<a></b>").is_none());
    assert!(parse_document("plain").is_none());
}

#[test]
fn parse_decodes_entities_and_character_data() {
    let doc = parse_document("<a>x &amp; y <![CDATA[<raw>]]></a>").unwrap();
    assert_eq!(doc.text_value(), Some("x & y <raw>"));
}

#[test]
fn only_verbatim_elements_keep_their_source() {
    let doc = parse_document("<a><htmlonly>&lt;i&gt;</htmlonly><para>&lt;i&gt;</para></a>").unwrap();
    assert_eq!(doc.children[0].verbatim, Some("&lt;i&gt;".to_owned()));
    assert_eq!(doc.children[1].verbatim, None);
    assert_eq!(doc.verbatim, None);
}

#[test]
fn empty_verbatim_element() {
    let doc = parse_document("<a><htmlonly></htmlonly></a>").unwrap();
    assert_eq!(doc.children[0].verbatim, Some(String::new()));
    let short = parse_document("<a><htmlonly/></a>").unwrap();
    assert_eq!(short.children[0].verbatim, None);
}

#[test]
fn look_ups_on_parsed_tree() {
    let doc = parse_document("<a><b>1</b><c>2</c><b>3</b></a>").unwrap();
    assert_eq!(doc.find_child("b", 0), Some(0));
    assert_eq!(doc.find_child("b", 1), Some(2));
    assert_eq!(doc.find_child("b", 3), None);
    assert_eq!(doc.find_child("c", 0), Some(1));
    assert_eq!(doc.child_index("c"), Some(1));
    assert_eq!(doc.child_index("b"), None);
    assert_eq!(doc.child_index("d"), None);
    assert!(doc.get_child("b").is_none());
    assert_eq!(doc.get_child("c").unwrap().tag, "c");
    assert_eq!(doc.get_child_value("c"), Some("2"));
    assert_eq!(doc.get_child_value("b"), None);
    assert!(doc.has_tag("a"));
    assert!(!doc.has_tag("b"));
    assert!(!doc.is_text());
}

#[test]
fn cut_inner_source_between_markers() {
    let text = "<htmlonly>abc</htmlonly>";
    assert_eq!(cut_inner_source(text, 0, text.len()), Some("abc".to_owned()));
    assert_eq!(cut_inner_source(text, 0, 21), Some(String::new()));
    assert_eq!(cut_inner_source(text, 0, 20), None);
    assert_eq!(cut_inner_source(text, 0, 5), None);
    assert_eq!(cut_inner_source(text, 5, text.len()), None);
    assert_eq!(cut_inner_source(text, 0, text.len() + 1), Some("abc<".to_owned()));
    assert_eq!(cut_inner_source(text, 0, text.len() + 12), None);
    assert_eq!(cut_inner_source(text, usize::MAX, usize::MAX), None);
}

#[test]
fn cut_inner_source_respects_characters() {
    let text = "<htmlonly>\u{e9}</htmlonly>";
    assert_eq!(cut_inner_source(text, 0, text.len()), Some("\u{e9}".to_owned()));
    assert_eq!(cut_inner_source(text, 1, text.len()), None);
    assert_eq!(cut_inner_source(text, 0, text.len() - 1), None);
}

#[test]
fn build_document_from_list() {
    let nodes = vec![
        raw(None, "", None),
        raw(Some(0), "", None),
        raw(Some(0), "a", None),
        raw(Some(2), "", Some("t")),
        raw(Some(2), "b", None),
        raw(Some(4), "c", None),
        raw(Some(2), "d", None),
    ];
    let doc = build_document(nodes, "").unwrap();
    assert_eq!(doc.tag, "a");
    assert_eq!(doc.children.len(), 3);
    assert_eq!(doc.children[0].text, "t");
    assert_eq!(doc.children[1].tag, "b");
    assert_eq!(doc.children[1].children.len(), 1);
    assert_eq!(doc.children[1].children[0].tag, "c");
    assert_eq!(doc.children[2].tag, "d");
}

#[test]
fn build_document_without_element() {
    assert!(build_document(vec![], "").is_none());
    assert!(build_document(vec![raw(None, "", None)], "").is_none());
    assert!(build_document(vec![raw(None, "", None), raw(Some(0), "", Some("t"))], "").is_none());
    assert!(build_document(vec![raw(None, "", None), raw(Some(5), "a", None)], "").is_none());
}

#[test]
fn nodes_by_hand() {
    let t = XmlNode::text("x < y");
    assert!(t.is_text());
    assert_eq!(t.text, "x < y");
    assert_eq!(t.text_value(), Some("x < y"));
    assert!(t.children.is_empty());
    assert!(t.attributes.is_empty());
    assert_eq!(t.attribute("a"), None);
    let e = XmlNode::element(
        "e",
        vec![
            Attribute { namespace: None, name: "a".to_owned(), value: "1".to_owned() },
            Attribute { namespace: None, name: "a".to_owned(), value: "2".to_owned() },
            Attribute { namespace: None, name: "b".to_owned(), value: "3".to_owned() },
        ],
        vec![XmlNode::element("k", vec![], vec![]), XmlNode::text("late")],
    );
    assert!(!e.is_text());
    assert!(e.has_tag("e"));
    assert_eq!(e.attribute("a"), Some("1"));
    assert_eq!(e.attribute("b"), Some("3"));
    assert_eq!(e.text_value(), None);
    assert_eq!(e.verbatim, None);
    assert_eq!(e.find_child("", 0), None);
    assert_eq!(e.find_child("k", 0), Some(0));
    assert!(e.children[1].named(""));
    assert!(!e.children[1].has_tag(""));
    assert!(e.named("e"));
    assert!(e.get_child("").is_none());
    assert_eq!(e.get_child_value("k"), None);
}

#[test]
fn many_siblings() {
    let mut text = String::from("<a>");
    for i in 0..20000 {
        text.push_str(&format!("<b n=\"{}\"><c/>t</b>", i));
    }
    text.push_str("</a>");
    let doc = parse_document(&text).unwrap();
    assert_eq!(doc.children.len(), 20000);
    assert_eq!(doc.children[19999].attribute("n"), Some("19999"));
    assert_eq!(doc.children[19999].children.len(), 2);
    assert_eq!(doc.children[7].children[1].text, "t");
}

#[test]
fn deep_nesting() {
    let depth = 200;
    let text = format!("{}x{}", "<a>".repeat(depth), "</a>".repeat(depth));
    let mut node = &parse_document(&text).unwrap();
    for _ in 1..depth {
        assert_eq!(node.children.len(), 1);
        node = &node.children[0];
    }
    assert_eq!(node.text_value(), Some("x"));
}

#[test]
fn attribute_in_a_namespace_is_not_found_by_its_name() {
    let doc = parse_document("<a xmlns:x=\"urn:x\" x:kind=\"1\" kind=\"2\" x:only=\"3\"/>").unwrap();
    assert_eq!(doc.attribute("kind"), Some("2"));
    assert_eq!(doc.attribute("only"), None);
    assert_eq!(doc.attributes.len(), 3);
    assert_eq!(doc.attributes[0].namespace, Some("urn:x".to_owned()));
    assert_eq!(doc.attributes[0].name, "kind");
    assert_eq!(doc.attributes[1].namespace, None);
    let by_hand = XmlNode::element(
        "e",
        vec![
            Attribute { namespace: Some("n".to_owned()), name: "a".to_owned(), value: "1".to_owned() },
            Attribute { namespace: None, name: "a".to_owned(), value: "2".to_owned() },
        ],
        vec![],
    );
    assert_eq!(by_hand.attribute("a"), Some("2"));
}

#[test]
fn text_child_is_no_child_by_name() {
    let doc = parse_document("<a>t<b/></a>").unwrap();
    assert_eq!(doc.find_child("", 0), None);
    assert!(doc.get_child("").is_none());
    assert_eq!(doc.get_child_value(""), None);
    assert_eq!(doc.child_index("b"), Some(1));
}
