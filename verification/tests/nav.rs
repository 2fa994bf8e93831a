use doxhtml::model::{Compound, File, Page, PageCommon};
use doxhtml::nav::{build_navigation, build_page_entry, split_path, NavNode};

fn page(ref_id: &str, title: &str, children: &[&str]) -> Compound {
    Compound::Page(Page {
        common: PageCommon {
            ref_id: ref_id.to_owned(),
            source: format!("docs/{}.md", ref_id),
            title: title.to_owned(),
            has_math: false,
            subpage_refs: children.iter().map(|c| (*c).to_owned()).collect(),
        },
        description: String::new(),
    })
}

fn file(ref_id: &str, title: &str, source: &str) -> Compound {
    Compound::File(File {
        common: PageCommon {
            ref_id: ref_id.to_owned(),
            source: source.to_owned(),
            title: title.to_owned(),
            has_math: false,
            subpage_refs: vec![],
        },
        scopes: vec![],
    })
}

fn show(nodes: &Vec<NavNode>) -> String {
    let mut out = String::from("[");
    for (i, n) in nodes.iter().enumerate() {
        if i > 0 {
            out.push(',');
        }
        out.push_str(&format!("{}|{}{}", n.title, n.href, show(&n.children)));
    }
    out.push(']');
    out
}

fn nav(compounds: Vec<Compound>) -> Option<String> {
    build_navigation(&compounds).map(|n| show(&n))
}

#[test]
fn split_path_at_slashes() {
    assert_eq!(split_path("src/a/x.h"), vec!["src".to_owned(), "a".to_owned(), "x.h".to_owned()]);
    assert_eq!(split_path("x.h"), vec!["x.h".to_owned()]);
    assert_eq!(split_path(""), vec![String::new()]);
    assert_eq!(split_path("/a//b/"), vec![String::new(), "a".to_owned(), String::new(), "b".to_owned(), String::new()]);
}

#[test]
fn child_page_is_nested_and_not_a_root() {
    let compounds = vec![page("intro", "Intro", &["details"]), page("details", "Details", &[])];
    let tree = build_navigation(&compounds).unwrap();
    assert_eq!(tree.len(), 1);
    assert_eq!(tree[0].title, "Intro");
    assert_eq!(tree[0].href, "intro.html");
    assert_eq!(tree[0].children.len(), 1);
    assert_eq!(tree[0].children[0].title, "Details");
    assert_eq!(tree[0].children[0].href, "details.html");
    assert!(tree[0].children[0].children.is_empty());
}

#[test]
fn child_page_listed_before_its_parent() {
    assert_eq!(
        nav(vec![page("details", "Details", &[]), page("intro", "Intro", &["details"])]),
        Some("[Intro|intro.html[Details|details.html[]]]".to_owned())
    );
}

#[test]
fn pages_nest_to_any_depth() {
    assert_eq!(
        nav(vec![
            page("a", "A", &["b", "c"]),
            page("b", "B", &["d"]),
            page("c", "C", &[]),
            page("d", "D", &[]),
            page("e", "E", &[]),
        ]),
        Some("[A|a.html[B|b.html[D|d.html[]],C|c.html[]],E|e.html[]]".to_owned())
    );
}

#[test]
fn empty_run_has_empty_navigation() {
    assert_eq!(nav(vec![]), Some("[]".to_owned()));
}

#[test]
fn missing_child_page_breaks_the_navigation() {
    assert_eq!(nav(vec![page("a", "A", &["nowhere"])]), None);
}

#[test]
fn pages_in_a_circle_below_a_root_break_the_navigation() {
    assert_eq!(nav(vec![page("r", "R", &["a"]), page("a", "A", &["b"]), page("b", "B", &["a"])]), None);
}

#[test]
fn pages_in_a_circle_without_a_root_are_left_out() {
    assert_eq!(nav(vec![page("a", "A", &["b"]), page("b", "B", &["a"]), page("c", "C", &[])]), Some("[C|c.html[]]".to_owned()));
}

#[test]
fn child_reference_to_a_file_adds_nothing() {
    assert_eq!(
        nav(vec![page("a", "A", &["f", "b"]), file("f", "f.h", "f.h"), page("b", "B", &[])]),
        Some("[A|a.html[B|b.html[]],f.h|f.html[]]".to_owned())
    );
}

#[test]
fn files_are_grouped_by_directory() {
    assert_eq!(
        nav(vec![
            file("x", "x.h", "src/a/x.h"),
            file("y", "y.h", "src/a/y.h"),
            file("z", "z.h", "src/b/z.h"),
            file("t", "top.h", "top.h"),
            file("w", "w.h", "lib/w.h"),
        ]),
        Some(
            "[src|[a|[x.h|x.html[],y.h|y.html[]],b|[z.h|z.html[]]],top.h|t.html[],lib|[w.h|w.html[]]]".to_owned()
        )
    );
}

#[test]
fn files_and_pages_share_the_root() {
    assert_eq!(
        nav(vec![page("p", "P", &[]), file("x", "x.h", "src/x.h"), page("q", "Q", &[])]),
        Some("[P|p.html[],src|[x.h|x.html[]],Q|q.html[]]".to_owned())
    );
}

#[test]
fn directory_is_the_last_entry_of_that_title() {
    assert_eq!(
        nav(vec![page("src", "src", &[]), file("x", "x.h", "src/x.h"), file("y", "src", "src"), file("z", "z.h", "src/z.h")]),
        Some("[src|src.html[x.h|x.html[]],src|y.html[z.h|z.html[]]]".to_owned())
    );
}

#[test]
fn later_compound_takes_a_repeated_identifier() {
    assert_eq!(
        nav(vec![page("a", "A", &["b"]), page("b", "First", &[]), page("b", "Second", &[])]),
        Some("[A|a.html[Second|b.html[]]]".to_owned())
    );
}

#[test]
fn page_entry_lists_child_pages_in_order() {
    let compounds = vec![
        page("c", "C", &[]),
        page("a", "A", &["b", "f", "c"]),
        file("f", "f.h", "src/f.h"),
        page("b", "B", &["c"]),
    ];
    let entry = build_page_entry(&compounds, 1).unwrap();
    assert_eq!(show(&vec![entry]), "[A|a.html[B|b.html[C|c.html[]],C|c.html[]]]");
    let leaf = build_page_entry(&compounds, 0).unwrap();
    assert_eq!(show(&vec![leaf]), "[C|c.html[]]");
    assert!(build_page_entry(&compounds, 4).is_none());
    assert!(build_page_entry(&vec![page("a", "A", &["gone"])], 0).is_none());
    assert!(build_page_entry(&vec![page("a", "A", &["a"])], 0).is_none());
}

#[test]
fn many_pages() {
    let mut compounds = vec![];
    let ids: Vec<String> = (0..3000).map(|i| format!("p{}", i)).collect();
    let children: Vec<&str> = ids.iter().skip(1).map(|s| s.as_str()).collect();
    compounds.push(page("p0", "Root", &children));
    for id in ids.iter().skip(1) {
        compounds.push(page(id, id, &[]));
    }
    let tree = build_navigation(&compounds).unwrap();
    assert_eq!(tree.len(), 1);
    assert_eq!(tree[0].children.len(), 2999);
    assert_eq!(tree[0].children[2998].href, "p2999.html");
}
