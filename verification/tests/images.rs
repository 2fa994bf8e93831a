use doxhtml::images::{
    file_name, file_placeholders, image_dir_of_file, image_dir_of_page, image_request, image_step,
    page_placeholders, parent_dir, plan_image,
};
use doxhtml::links::Placeholder;
use doxhtml::model::{EnumValue, File, Member, Page, PageCommon, Scope, Section};

fn common(source: &str) -> PageCommon {
    PageCommon {
        ref_id: "id".to_owned(),
        source: source.to_owned(),
        title: "t".to_owned(),
        has_math: false,
        subpage_refs: vec![],
    }
}

fn img(path: &str) -> String {
    format!("<img src=\"placeholder-img://{}\">", path)
}

#[test]
fn file_name_is_last_component() {
    assert_eq!(file_name("a/b/c.png"), "c.png");
    assert_eq!(file_name("c.png"), "c.png");
    assert_eq!(file_name("a/"), "");
    assert_eq!(file_name(""), "");
    assert_eq!(file_name("/x"), "x");
}

#[test]
fn parent_dir_is_all_but_last_component() {
    assert_eq!(parent_dir("a/b/c.png"), Some("a/b".to_owned()));
    assert_eq!(parent_dir("c.png"), None);
    assert_eq!(parent_dir("/c.png"), Some(String::new()));
    assert_eq!(parent_dir(""), None);
    assert_eq!(parent_dir("a/"), Some("a".to_owned()));
}

#[test]
fn image_directories() {
    let page = |source: &str| Page { common: common(source), description: String::new() };
    let file = |source: &str| File { common: common(source), scopes: vec![] };
    assert_eq!(image_dir_of_page(&page("docs/guide/intro.md")), "docs/guide");
    assert_eq!(image_dir_of_page(&page("intro.md")), ".");
    assert_eq!(image_dir_of_page(&page("")), ".");
    assert_eq!(image_dir_of_file(&file("src/a/x.h")), Some("src/a".to_owned()));
    assert_eq!(image_dir_of_file(&file("x.h")), None);
}

#[test]
fn image_plan() {
    let plan = plan_image("pics/a b.png", "/work/src", "/work/html", "docs/guide");
    assert_eq!(plan.source, "/work/src/docs/guide/pics/a b.png");
    assert_eq!(plan.target, "/work/html/images/a b.png");
    assert_eq!(plan.replacement, "images/a b.png");
}

#[test]
fn image_request_decodes_the_reference() {
    let request = image_request("pics/a%20b%C3%A9.png", "s", "h", ".").unwrap();
    assert_eq!(request.source, "s/./pics/a b\u{e9}.png");
    assert_eq!(request.target, "h/images/a b\u{e9}.png");
    assert_eq!(request.replacement, "images/a b\u{e9}.png");
    let plain = image_request("d.png", "s", "h", "docs").unwrap();
    assert_eq!(plain.source, "s/docs/d.png");
    assert_eq!(plain.replacement, "images/d.png");
    let partial = image_request("100%.png", "s", "h", "d").unwrap();
    assert_eq!(partial.replacement, "images/100%.png");
    let slash = image_request("a%2Fb.png", "s", "h", "d").unwrap();
    assert_eq!(slash.source, "s/d/a/b.png");
    assert_eq!(slash.replacement, "images/b.png");
}

#[test]
fn image_request_needs_text() {
    assert!(image_request("a%ff.png", "s", "h", "d").is_none());
    assert!(image_request("%C3", "s", "h", "d").is_none());
}

#[test]
fn placeholders_of_a_file_in_order() {
    let value = |n: &str, with: bool| EnumValue {
        ref_id: "v".to_owned(),
        name: img("name"),
        initializer: if with { Some(img(&format!("{}-init", n))) } else { None },
        description: img(&format!("{}-desc", n)),
    };
    let member = |n: &str, enum_values: Vec<EnumValue>| Member {
        ref_id: img("id"),
        definition: img(&format!("{}-def", n)),
        description: format!("{}{}", img(&format!("{}-d1", n)), img(&format!("{}-d2", n))),
        enum_values,
    };
    let file = File {
        common: common(&img("source")),
        scopes: vec![
            Scope {
                ref_id: img("id"),
                name: img("s1"),
                kind: img("kind"),
                sections: vec![
                    Section {
                        name: Some(img("header")),
                        description: Some(img("sec1")),
                        members: vec![member("m1", vec![value("v1", true), value("v2", false)]), member("m2", vec![])],
                    },
                    Section { name: None, description: None, members: vec![member("m3", vec![])] },
                ],
            },
            Scope { ref_id: "b".to_owned(), name: "plain".to_owned(), kind: "class".to_owned(), sections: vec![] },
            Scope { ref_id: "c".to_owned(), name: img("s3"), kind: "class".to_owned(), sections: vec![] },
        ],
    };
    let expected: Vec<String> = [
        "s1", "sec1", "m1-def", "m1-d1", "m1-d2", "v1-init", "v1-desc", "v2-desc", "m2-def", "m2-d1", "m2-d2",
        "m3-def", "m3-d1", "m3-d2", "s3",
    ]
    .iter()
    .map(|s| (*s).to_owned())
    .collect();
    assert_eq!(file_placeholders(Placeholder::Image, &file), expected);
    assert_eq!(file_placeholders(Placeholder::Reference, &file), Vec::<String>::new());
}

#[test]
fn placeholders_of_a_page() {
    let page = Page { common: common("x"), description: format!("a{}b{}", img("one.png"), img("two.png")) };
    assert_eq!(page_placeholders(Placeholder::Image, &page), vec!["one.png".to_owned(), "two.png".to_owned()]);
}

#[test]
fn image_steps() {
    let found = image_step(true, false);
    assert!(found.copy && found.rewrite);
    let there = image_step(true, true);
    assert!(!there.copy && there.rewrite);
    let missing = image_step(false, false);
    assert!(!missing.copy && !missing.rewrite);
    let stale = image_step(false, true);
    assert!(!stale.copy && !stale.rewrite);
}
