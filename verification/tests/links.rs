use doxhtml::document::parse_document;
use doxhtml::links::{find_placeholders, missing_references, relink, Placeholder, RefMap};
use doxhtml::render::{parse_text, Context};
use doxhtml::model::{Compound, EnumValue, File, Member, Page, PageCommon, Scope, Section};
use doxhtml::resolve::{create_ref_to_path_map, relink_file, relink_page};

fn common(ref_id: &str) -> PageCommon {
    PageCommon {
        ref_id: ref_id.to_owned(),
        source: format!("src/{}", ref_id),
        title: ref_id.to_owned(),
        has_math: true,
        subpage_refs: vec!["child".to_owned()],
    }
}

fn value(ref_id: &str, text: &str) -> EnumValue {
    EnumValue {
        ref_id: ref_id.to_owned(),
        name: format!("placeholder-ref://{}", ref_id),
        initializer: Some(format!("i {}", text)),
        description: format!("d {}", text),
    }
}

fn member_of(ref_id: &str, text: &str, enum_values: Vec<EnumValue>) -> Member {
    Member {
        ref_id: ref_id.to_owned(),
        definition: format!("def {}", text),
        description: format!("desc {}", text),
        enum_values,
    }
}

fn sample_file() -> File {
    let link = "<a href=\"placeholder-ref://m1\">x</a>";
    File {
        common: common("A_8h"),
        scopes: vec![
            Scope {
                ref_id: "classFoo".to_owned(),
                name: format!("name {}", link),
                kind: "class".to_owned(),
                sections: vec![
                    Section {
                        name: Some("placeholder-ref://m1".to_owned()),
                        description: Some(format!("sec {}", link)),
                        members: vec![
                            member_of("m1", link, vec![]),
                            member_of("e1", link, vec![value("v1", link), value("v2", link)]),
                        ],
                    },
                    Section { name: None, description: None, members: vec![member_of("m2", "", vec![])] },
                ],
            },
            Scope { ref_id: "classBar".to_owned(), name: "Bar".to_owned(), kind: "struct".to_owned(), sections: vec![] },
        ],
    }
}

fn sample_page() -> Page {
    Page { common: common("intro"), description: "<a href=\"placeholder-ref://classFoo\">Foo</a> <a href=\"placeholder-ref://gone\">?</a>".to_owned() }
}

fn table(entries: &[(&str, &str)]) -> RefMap {
    let mut map = RefMap::new();
    for (id, location) in entries {
        map.insert((*id).to_owned(), (*location).to_owned());
    }
    map
}

#[test]
fn table_holds_last_entry() {
    let mut map = RefMap::new();
    assert_eq!(map.get("a"), None);
    map.insert("a".to_owned(), "1".to_owned());
    map.insert("b".to_owned(), "2".to_owned());
    map.insert("a".to_owned(), "3".to_owned());
    assert_eq!(map.get("a"), Some("3"));
    assert_eq!(map.get("b"), Some("2"));
    assert_eq!(map.get("c"), None);
    assert_eq!(map.get(""), None);
}

#[test]
fn known_reference_resolves_to_location() {
    let map = table(&[("classFoo_1a", "A_8h.html#classFoo_1a")]);
    assert_eq!(
        relink(Placeholder::Reference, "<a href=\"placeholder-ref://classFoo_1a\">bar</a>", &map),
        "<a href=\"A_8h.html#classFoo_1a\">bar</a>"
    );
}

#[test]
fn unknown_reference_resolves_to_not_found() {
    let map = table(&[("a", "a.html")]);
    assert_eq!(
        relink(Placeholder::Reference, "<a href=\"placeholder-ref://zzz\">bar</a>", &map),
        "<a href=\"not-found\">bar</a>"
    );
    assert_eq!(relink(Placeholder::Reference, "<a href=\"placeholder-ref://\">bar</a>", &map), "<a href=\"not-found\">bar</a>");
}

#[test]
fn every_reference_is_rewritten() {
    let map = table(&[("a", "A"), ("b", "B")]);
    assert_eq!(
        relink(Placeholder::Reference, "\"placeholder-ref://a\" x \"placeholder-ref://b\" \"placeholder-ref://c\" placeholder-ref://a", &map),
        "\"A\" x \"B\" \"not-found\" A"
    );
}

#[test]
fn reference_runs_to_the_next_quote() {
    let map = table(&[("a", "A"), ("a placeholder-ref://a", "long")]);
    assert_eq!(relink(Placeholder::Reference, "placeholder-ref://a placeholder-ref://a\"placeholder-ref://a", &map), "long\"A");
}

#[test]
fn text_without_placeholders_is_unchanged() {
    let map = table(&[("a", "A")]);
    assert_eq!(relink(Placeholder::Reference, "", &map), "");
    assert_eq!(relink(Placeholder::Reference, "placeholder-ref:/a \u{e9} placeholder-img://a", &map), "placeholder-ref:/a \u{e9} placeholder-img://a");
    assert_eq!(relink(Placeholder::Image, "placeholder-ref://a", &map), "placeholder-ref://a");
}

#[test]
fn image_reference_resolves_or_keeps_its_path() {
    let map = table(&[("pics/a%20b.png", "images/a b.png")]);
    assert_eq!(
        relink(Placeholder::Image, "<img src=\"placeholder-img://pics/a%20b.png\"><img src=\"placeholder-img://c.png\" style=\"x\">", &map),
        "<img src=\"images/a b.png\"><img src=\"c.png\" style=\"x\">"
    );
}

#[test]
fn placeholders_are_listed_in_order() {
    let text = "<a href=\"placeholder-ref://a\">x</a><img src=\"placeholder-img://p.png\"><a href=\"placeholder-ref://b\">y</a> placeholder-ref://tail";
    assert_eq!(
        find_placeholders(Placeholder::Reference, text),
        vec!["a".to_owned(), "b".to_owned(), "tail".to_owned()]
    );
    assert_eq!(find_placeholders(Placeholder::Image, text), vec!["p.png".to_owned()]);
    assert_eq!(find_placeholders(Placeholder::Image, "none"), Vec::<String>::new());
    assert_eq!(find_placeholders(Placeholder::Reference, "placeholder-ref://"), vec![String::new()]);
}

#[test]
fn table_of_a_run() {
    let compounds = vec![Compound::File(sample_file()), Compound::Page(sample_page())];
    let map = create_ref_to_path_map(&compounds);
    assert_eq!(map.get("A_8h"), Some("A_8h.html"));
    assert_eq!(map.get("classFoo"), Some("A_8h.html#classFoo"));
    assert_eq!(map.get("classBar"), Some("A_8h.html#classBar"));
    assert_eq!(map.get("m1"), Some("A_8h.html#m1"));
    assert_eq!(map.get("e1"), Some("A_8h.html#e1"));
    assert_eq!(map.get("v1"), Some("A_8h.html#v1"));
    assert_eq!(map.get("v2"), Some("A_8h.html#v2"));
    assert_eq!(map.get("m2"), Some("A_8h.html#m2"));
    assert_eq!(map.get("intro"), Some("intro.html"));
    assert_eq!(map.get("child"), None);
    assert_eq!(map.get("src/A_8h"), None);
}

#[test]
fn later_entity_takes_a_repeated_identifier() {
    let mut other = sample_file();
    other.common.ref_id = "B_8h".to_owned();
    let first = create_ref_to_path_map(&vec![Compound::File(sample_file()), Compound::File(other)]);
    assert_eq!(first.get("m1"), Some("B_8h.html#m1"));
    let mut page = sample_page();
    page.common.ref_id = "m1".to_owned();
    let second = create_ref_to_path_map(&vec![Compound::File(sample_file()), Compound::Page(page)]);
    assert_eq!(second.get("m1"), Some("m1.html"));
    assert!(create_ref_to_path_map(&vec![]).get("m1").is_none());
}

#[test]
fn known_identifier_resolves_to_a_location_with_its_anchor() {
    let compounds = vec![Compound::File(sample_file()), Compound::Page(sample_page())];
    let map = create_ref_to_path_map(&compounds);
    for id in ["A_8h", "classFoo", "m1", "e1", "v1", "m2", "intro"] {
        let text = format!("<a href=\"placeholder-ref://{}\">x</a>", id);
        let out = relink(Placeholder::Reference, &text, &map);
        let own_page = format!("<a href=\"{}.html\">x</a>", id);
        let anchored = format!("#{}\">x</a>", id);
        assert!(out == own_page || out.ends_with(&anchored), "{}", out);
    }
    assert_eq!(
        relink(Placeholder::Reference, "<a href=\"placeholder-ref://nobody\">x</a>", &map),
        "<a href=\"not-found\">x</a>"
    );
}

#[test]
fn file_is_relinked_in_every_rendered_text() {
    let file = sample_file();
    let map = create_ref_to_path_map(&vec![Compound::File(sample_file())]);
    let out = relink_file(Placeholder::Reference, &file, &map);
    let link = "<a href=\"A_8h.html#m1\">x</a>";
    assert_eq!(out.common.ref_id, "A_8h");
    assert_eq!(out.common.source, "src/A_8h");
    assert_eq!(out.common.title, "A_8h");
    assert!(out.common.has_math);
    assert_eq!(out.common.subpage_refs, vec!["child".to_owned()]);
    assert_eq!(out.scopes.len(), 2);
    let scope = &out.scopes[0];
    assert_eq!(scope.ref_id, "classFoo");
    assert_eq!(scope.kind, "class");
    assert_eq!(scope.name, format!("name {}", link));
    assert_eq!(scope.sections.len(), 2);
    let section = &scope.sections[0];
    assert_eq!(section.name, Some("placeholder-ref://m1".to_owned()));
    assert_eq!(section.description, Some(format!("sec {}", link)));
    assert_eq!(section.members.len(), 2);
    assert_eq!(section.members[0].ref_id, "m1");
    assert_eq!(section.members[0].definition, format!("def {}", link));
    assert_eq!(section.members[0].description, format!("desc {}", link));
    let values = &section.members[1].enum_values;
    assert_eq!(values.len(), 2);
    assert_eq!(values[0].ref_id, "v1");
    assert_eq!(values[0].name, "placeholder-ref://v1");
    assert_eq!(values[0].initializer, Some(format!("i {}", link)));
    assert_eq!(values[1].description, format!("d {}", link));
    assert_eq!(scope.sections[1].name, None);
    assert_eq!(scope.sections[1].description, None);
    assert_eq!(scope.sections[1].members[0].definition, "def ");
    assert_eq!(out.scopes[1].name, "Bar");
    assert!(out.scopes[1].sections.is_empty());
}

#[test]
fn page_is_relinked() {
    let map = create_ref_to_path_map(&vec![Compound::File(sample_file())]);
    let out = relink_page(Placeholder::Reference, &sample_page(), &map);
    assert_eq!(out.description, "<a href=\"A_8h.html#classFoo\">Foo</a> <a href=\"not-found\">?</a>");
    assert_eq!(out.common.ref_id, "intro");
    assert_eq!(out.common.subpage_refs, vec!["child".to_owned()]);
}

#[test]
fn missing_references_are_listed() {
    let map = table(&[("a", "A"), ("c", "C")]);
    let ids: Vec<String> = ["a", "b", "c", "d", "b"].iter().map(|s| (*s).to_owned()).collect();
    assert_eq!(missing_references(&ids, &map), vec!["b".to_owned(), "d".to_owned(), "b".to_owned()]);
    assert_eq!(missing_references(&vec![], &map), Vec::<String>::new());
    assert_eq!(missing_references(&ids, &RefMap::new()), ids);
}

#[test]
fn rendered_link_leads_to_the_page_of_the_owning_file() {
    let map = create_ref_to_path_map(&vec![Compound::File(sample_file()), Compound::Page(sample_page())]);
    let link = |id: &str| {
        let doc = parse_document(&format!("<d><ref refid='{}' kindref='member'>t</ref></d>", id)).unwrap();
        let mut context = Context::new();
        parse_text(&doc, &mut context)
    };
    assert_eq!(link("m1"), "<a href=\"placeholder-ref://m1\">t</a>");
    for id in ["classFoo", "classBar", "m1", "e1", "v1", "v2", "m2"] {
        let out = relink(Placeholder::Reference, &link(id), &map);
        assert_eq!(out, format!("<a href=\"A_8h.html#{}\">t</a>", id));
        assert!(!out.contains("placeholder-ref://"));
    }
    assert_eq!(relink(Placeholder::Reference, &link("A_8h"), &map), "<a href=\"A_8h.html\">t</a>");
    assert_eq!(relink(Placeholder::Reference, &link("intro"), &map), "<a href=\"intro.html\">t</a>");
    assert_eq!(relink(Placeholder::Reference, &link("zz"), &map), "<a href=\"not-found\">t</a>");
    assert_eq!(
        relink(Placeholder::Reference, &link("zz"), &create_ref_to_path_map(&vec![])),
        "<a href=\"not-found\">t</a>"
    );
}

#[test]
fn rewriting_again_changes_nothing_once_no_placeholder_is_left() {
    let map = table(&[("a", "A.html#a"), ("b", "placeholder-ref://a")]);
    let once = relink(Placeholder::Reference, "<a href=\"placeholder-ref://a\">x</a> placeholder-ref://zz", &map);
    assert_eq!(once, "<a href=\"A.html#a\">x</a> not-found");
    assert!(find_placeholders(Placeholder::Reference, &once).is_empty());
    assert_eq!(relink(Placeholder::Reference, &once, &map), once);
    let kept = relink(Placeholder::Reference, "placeholder-ref://b", &map);
    assert_eq!(kept, "placeholder-ref://a");
    assert_eq!(relink(Placeholder::Reference, &kept, &map), "A.html#a");
}
