use doxhtml::compound::{
    collect_refs, list_compounds, list_inner_scopes, try_parse_compound_file, try_parse_compound_page,
    CompoundKind,
};
use doxhtml::document::parse_document;
use doxhtml::compound::{parse_compound_file, parse_compound_page};
use doxhtml::entity::{
    find_compound_def, is_retained, parse_compound_scope, parse_member, try_parse_compound_scope,
    try_parse_member,
};
use doxhtml::model::Compound;
use doxhtml::render::{Context, SchemaError};
use doxhtml::signature::{
    render_function_args, render_scope_name, render_templateparamlist, try_render_function_args,
    try_render_templateparamlist,
};
use doxhtml::xml::XmlNode;

fn doc(xml: &str) -> XmlNode {
    parse_document(xml).unwrap()
}

fn member(xml: &str) -> doxhtml::model::Member {
    let mut context = Context::new();
    try_parse_member(&doc(xml), &mut context).unwrap()
}

fn member_err(xml: &str) -> SchemaError {
    let mut context = Context::new();
    try_parse_member(&doc(xml), &mut context).err().unwrap()
}

const CLASS_FOO: &str = "<doxygen><compounddef id=\"classns_1_1Foo\" kind=\"class\" prot=\"public\">\
<compoundname>ns::Foo</compoundname>\
<includes refid=\"A_8h\" local=\"no\">A.h</includes>\
<sectiondef kind=\"public-func\">\
<header>Functions</header>\
<description><para>About <ref refid=\"classns_1_1Foo_1a1\">bar</ref>.</para></description>\
<memberdef kind=\"function\" id=\"classns_1_1Foo_1a1\" prot=\"public\" static=\"no\">\
<type>int</type><definition>int ns::Foo::bar</definition><argsstring>(int x)</argsstring><name>bar</name>\
<param><type>int</type><declname>x</declname></param>\
<briefdescription><para>Brief.</para></briefdescription>\
<detaileddescription> </detaileddescription>\
<location file=\"src/A.h\" line=\"10\"/>\
</memberdef>\
<memberdef kind=\"function\" id=\"classns_1_1Foo_1a2\" prot=\"private\" static=\"no\">\
<type>void</type><name>hidden</name>\
<briefdescription/><detaileddescription/>\
<location file=\"src/A.h\" line=\"11\"/>\
</memberdef>\
<memberdef kind=\"friend\" id=\"classns_1_1Foo_1a3\" prot=\"public\" static=\"no\">\
<type>class</type><name>Pal</name>\
<briefdescription/><detaileddescription/>\
<location file=\"src/A.h\" line=\"12\"/>\
</memberdef>\
</sectiondef>\
<sectiondef kind=\"private-attrib\">\
<memberdef kind=\"variable\" id=\"classns_1_1Foo_1a4\" prot=\"private\" static=\"no\">\
<type>int</type><name>x_</name>\
<briefdescription/><detaileddescription/>\
<location file=\"src/A.h\" line=\"13\"/>\
</memberdef>\
</sectiondef>\
</compounddef></doxygen>";

const FILE_A: &str = "<doxygen><compounddef id=\"A_8h\" kind=\"file\">\
<compoundname>A.h</compoundname>\
<innerclass refid=\"classns_1_1Foo\" prot=\"public\">ns::Foo</innerclass>\
<innernamespace refid=\"namespacens\">ns</innernamespace>\
<briefdescription/>\
<location file=\"src/A.h\"/>\
</compounddef></doxygen>";

const FILE_B: &str = "<doxygen><compounddef id=\"B_8h\" kind=\"file\">\
<compoundname>B.h</compoundname>\
<innerclass refid=\"classns_1_1Foo\" prot=\"public\">ns::Foo</innerclass>\
<location file=\"src/B.h\"/>\
</compounddef></doxygen>";

const BAR_DEFINITION: &str = "<span class=\"member_name\">bar</span>(<br/>&nbsp;&nbsp;&nbsp;&nbsp;<span class=\"type\">int</span> <span class=\"declname\">x</span>) \u{2192} <span class=\"rettype\">int</span>";

#[test]
fn scope_name_marks_namespace_and_name() {
    assert_eq!(render_scope_name("Foo"), "<span class=\"name_part\">Foo</span>");
    assert_eq!(
        render_scope_name("ns::Foo"),
        "<span class=\"namespace_part\">ns::</span><span class=\"name_part\">&#8203;Foo</span>"
    );
    assert_eq!(
        render_scope_name("a::b::C<T>"),
        "<span class=\"namespace_part\">a::&#8203;b::</span><span class=\"name_part\">&#8203;C&lt;T&gt;</span>"
    );
    assert_eq!(render_scope_name(""), "<span class=\"name_part\"></span>");
}

#[test]
fn template_parameter_list() {
    let m = doc("<memberdef><templateparamlist>\
<param><type>typename T</type></param>\
<param><type>int</type><declname>N</declname><defval>3</defval></param>\
<param><type>class <ref refid=\"u\">U</ref></type></param>\
</templateparamlist></memberdef>");
    let mut context = Context::new();
    assert_eq!(
        try_render_templateparamlist(&m, &mut context).unwrap(),
        "<span class=\"templateparamlist\">template &lt;typename T, int3, class <a href=\"placeholder-ref://u\">U</a>&gt;</span>"
    );
}

#[test]
fn template_parameter_list_may_be_absent_or_empty() {
    let mut context = Context::new();
    assert_eq!(try_render_templateparamlist(&doc("<memberdef/>"), &mut context).unwrap(), "");
    assert_eq!(
        try_render_templateparamlist(&doc("<memberdef><templateparamlist/></memberdef>"), &mut context).unwrap(),
        "<span class=\"templateparamlist\">template &lt;&gt;</span>"
    );
}

#[test]
fn template_parameter_separator_follows_written_text() {
    let m = doc("<m><templateparamlist><param><type></type></param><param><type>T</type></param><param><type>U</type></param></templateparamlist></m>");
    let mut context = Context::new();
    assert_eq!(
        try_render_templateparamlist(&m, &mut context).unwrap(),
        "<span class=\"templateparamlist\">template &lt;T, U&gt;</span>"
    );
}

#[test]
fn template_parameter_needs_type() {
    let m = doc("<m><templateparamlist><param><declname>T</declname></param></templateparamlist></m>");
    let mut context = Context::new();
    assert_eq!(try_render_templateparamlist(&m, &mut context).err(), Some(SchemaError::Malformed));
}

#[test]
fn function_arguments() {
    let m = doc("<memberdef>\
<param><type>const <ref refid=\"f\">Foo</ref> &amp;</type><declname>a</declname></param>\
<param><type>char *</type><declname>b</declname><defval>&quot;x&quot;</defval></param>\
<param><type>...</type></param>\
</memberdef>");
    let mut context = Context::new();
    assert_eq!(
        try_render_function_args(&m, &mut context).unwrap(),
        "(<br/>&nbsp;&nbsp;&nbsp;&nbsp;<span class=\"type\">const <a href=\"placeholder-ref://f\">Foo</a>&amp;</span> <span class=\"declname\">a</span>,<br/>&nbsp;&nbsp;&nbsp;&nbsp;<span class=\"type\">char*</span> <span class=\"declname\">b</span> = <span class=\"defval\">&quot;x&quot;</span>,<br/>&nbsp;&nbsp;&nbsp;&nbsp;<span class=\"type\">...</span>)"
    );
}

#[test]
fn function_without_arguments() {
    let mut context = Context::new();
    assert_eq!(try_render_function_args(&doc("<memberdef><type>int</type></memberdef>"), &mut context).unwrap(), "()");
}

#[test]
fn function_argument_needs_type() {
    let mut context = Context::new();
    let m = doc("<memberdef><param><declname>a</declname></param></memberdef>");
    assert_eq!(try_render_function_args(&m, &mut context).err(), Some(SchemaError::Malformed));
}

#[test]
fn function_member() {
    let m = member("<memberdef kind=\"function\" id=\"f1\" prot=\"public\">\
<type>int</type><name>bar</name>\
<param><type>int</type><declname>x</declname></param>\
<briefdescription>\n<para>Brief.</para>\n</briefdescription>\
<detaileddescription>\n<para>More.</para>\n  </detaileddescription>\
</memberdef>");
    assert_eq!(m.ref_id, "f1");
    assert_eq!(m.definition, BAR_DEFINITION);
    assert_eq!(m.description, "<p>Brief.</p>\n\n<p>More.</p>");
    assert!(m.enum_values.is_empty());
}

#[test]
fn constructor_has_no_return_type() {
    let m = member("<memberdef kind=\"function\" id=\"c\"><type/><name>Foo&lt;T&gt;</name>\
<briefdescription/><detaileddescription/></memberdef>");
    assert_eq!(m.definition, "<span class=\"member_name\">Foo&lt;T&gt;</span>()");
    assert_eq!(m.description, "");
}

#[test]
fn event_member_with_template() {
    let m = member("<memberdef kind=\"event\" id=\"e\"><templateparamlist><param><type>class T</type></param></templateparamlist>\
<type>void</type><name>fire</name><briefdescription/><detaileddescription/></memberdef>");
    assert_eq!(
        m.definition,
        "<span class=\"templateparamlist\">template &lt;class T&gt;</span><span class=\"member_name\">fire</span>() \u{2192} <span class=\"rettype\">void</span>"
    );
}

#[test]
fn typedef_member() {
    let m = member("<memberdef kind=\"typedef\" id=\"t\"><type>std::vector&lt; int &gt;</type><name>Ints</name>\
<briefdescription/><detaileddescription/></memberdef>");
    assert_eq!(
        m.definition,
        "<span class=\"keyword\">using</span> <span class=\"member_name\">Ints</span> = <span class=\"type\">std::vector&lt; int &gt;</span>"
    );
}

#[test]
fn variable_member() {
    let with = member("<memberdef kind=\"variable\" id=\"v\"><type>const int</type><name>N</name><initializer>= 3</initializer>\
<briefdescription/><detaileddescription/></memberdef>");
    assert_eq!(
        with.definition,
        "<span class=\"type\">const int</span> <span class=\"member_name\">N</span> <span class=\"defval\">= 3</span>"
    );
    let without = member("<memberdef kind=\"property\" id=\"p\"><type>int</type><name>n</name>\
<briefdescription/><detaileddescription/></memberdef>");
    assert_eq!(without.definition, "<span class=\"type\">int</span> <span class=\"member_name\">n</span>");
}

#[test]
fn initializer_of_a_function_is_not_rendered() {
    let m = member("<memberdef kind=\"function\" id=\"f\"><type>int</type><name>f</name><initializer><image/></initializer>\
<briefdescription/><detaileddescription/></memberdef>");
    assert_eq!(m.definition, "<span class=\"member_name\">f</span>() \u{2192} <span class=\"rettype\">int</span>");
}

#[test]
fn enum_member() {
    let m = member("<memberdef kind=\"enum\" id=\"e\"><type/><name>Color</name>\
<enumvalue id=\"e_r\" prot=\"public\"><name>Red</name><initializer>= 1</initializer>\
<briefdescription><para>R</para></briefdescription><detaileddescription><para>ed</para></detaileddescription></enumvalue>\
<enumvalue id=\"e_g\" prot=\"public\"><name>Green</name>\
<briefdescription/><detaileddescription/></enumvalue>\
<briefdescription><para>Colors.</para></briefdescription><detaileddescription/>\
</memberdef>");
    assert_eq!(m.definition, "<span class=\"keyword\">enum</span> <span class=\"member_name\">Color</span>");
    assert_eq!(m.description, "<p>Colors.</p>");
    assert_eq!(m.enum_values.len(), 2);
    assert_eq!(m.enum_values[0].ref_id, "e_r");
    assert_eq!(m.enum_values[0].name, "Red");
    assert_eq!(m.enum_values[0].initializer, Some("= 1".to_owned()));
    assert_eq!(m.enum_values[0].description, "<p>R</p><p>ed</p>");
    assert_eq!(m.enum_values[1].ref_id, "e_g");
    assert_eq!(m.enum_values[1].name, "Green");
    assert_eq!(m.enum_values[1].initializer, None);
    assert_eq!(m.enum_values[1].description, "");
}

#[test]
fn enum_values_of_other_members_are_ignored() {
    let m = member("<memberdef kind=\"variable\" id=\"v\"><type>int</type><name>n</name>\
<enumvalue id=\"x\"/><briefdescription/><detaileddescription/></memberdef>");
    assert!(m.enum_values.is_empty());
}

#[test]
fn member_schema() {
    let full = |kind: &str| {
        format!(
            "<memberdef kind=\"{}\" id=\"m\"><type>int</type><name>n</name><briefdescription/><detaileddescription/></memberdef>",
            kind
        )
    };
    assert_eq!(member(&full("function")).ref_id, "m");
    assert_eq!(
        member_err(&full("define")),
        SchemaError::MemberKind { kind: "define".to_owned(), ref_id: "m".to_owned() }
    );
    assert_eq!(
        member_err(&full("")),
        SchemaError::MemberKind { kind: String::new(), ref_id: "m".to_owned() }
    );
    assert_eq!(
        member_err("<memberdef kind=\"function\"><type>int</type><name>n</name><briefdescription/><detaileddescription/></memberdef>"),
        SchemaError::Malformed
    );
    assert_eq!(
        member_err("<memberdef id=\"m\"><type>int</type><name>n</name><briefdescription/><detaileddescription/></memberdef>"),
        SchemaError::Malformed
    );
    assert_eq!(
        member_err("<memberdef kind=\"function\" id=\"m\"><name>n</name><briefdescription/><detaileddescription/></memberdef>"),
        SchemaError::Malformed
    );
    assert_eq!(
        member_err("<memberdef kind=\"function\" id=\"m\"><type>int</type><briefdescription/><detaileddescription/></memberdef>"),
        SchemaError::Malformed
    );
    assert_eq!(
        member_err("<memberdef kind=\"function\" id=\"m\"><type>int</type><name>n</name><detaileddescription/></memberdef>"),
        SchemaError::Malformed
    );
    assert_eq!(
        member_err("<memberdef kind=\"function\" id=\"m\"><type>int</type><name>n</name><briefdescription/></memberdef>"),
        SchemaError::Malformed
    );
    assert_eq!(
        member_err("<memberdef kind=\"enum\" id=\"m\"><type>int</type><name>n</name><enumvalue/><briefdescription/><detaileddescription/></memberdef>"),
        SchemaError::Malformed
    );
}

#[test]
fn member_notes_formulas_and_unknown_tags() {
    let mut context = Context::new();
    let m = doc("<memberdef kind=\"function\" id=\"m\"><type>int<odd/></type><name>n</name>\
<param><type>int<strange/></type></param>\
<briefdescription><para><formula id=\"1\">$x$</formula></para></briefdescription><detaileddescription><weird/></detaileddescription></memberdef>");
    let built = try_parse_member(&m, &mut context).unwrap();
    assert_eq!(built.description, "<p>\\(x\\)</p>");
    assert!(context.has_math);
    assert_eq!(context.unknown_tags, vec!["odd".to_owned(), "strange".to_owned(), "weird".to_owned()]);
}

#[test]
fn retained_members() {
    let check = |xml: &str, file: &str| is_retained(&doc(xml), file);
    let public = "<memberdef kind=\"function\" prot=\"public\"><location file=\"src/A.h\"/></memberdef>";
    assert_eq!(check(public, "src/A.h"), Ok(true));
    assert_eq!(check(public, "A.h"), Ok(false));
    assert_eq!(check(public, "rc/A.h"), Ok(false));
    assert_eq!(check(public, "src/B.h"), Ok(false));
    assert_eq!(check(public, "lib/src/A.h"), Ok(false));
    assert_eq!(check(public, ""), Ok(false));
    let other = "<memberdef kind=\"function\" prot=\"public\"><location file=\"src/BA.h\"/></memberdef>";
    assert_eq!(check(other, "A.h"), Ok(false));
    assert_eq!(check(other, "src/A.h"), Ok(false));
    assert_eq!(check(other, "src/BA.h"), Ok(true));
    assert_eq!(check("<memberdef kind=\"function\" prot=\"private\"/>", "A.h"), Ok(false));
    assert_eq!(check("<memberdef kind=\"function\" prot=\"protected\"/>", "A.h"), Ok(false));
    assert_eq!(check("<memberdef kind=\"friend\" prot=\"public\"/>", "A.h"), Ok(false));
    assert_eq!(check("<other/>", "A.h"), Ok(false));
    assert_eq!(check("<memberdef kind=\"function\"/>", "A.h"), Err(SchemaError::Malformed));
    assert_eq!(check("<memberdef prot=\"public\"/>", "A.h"), Err(SchemaError::Malformed));
    assert_eq!(check("<memberdef kind=\"function\" prot=\"public\"/>", "A.h"), Err(SchemaError::Malformed));
    assert_eq!(check("<memberdef kind=\"function\" prot=\"public\"><location/></memberdef>", "A.h"), Err(SchemaError::Malformed));
}

#[test]
fn scope_keeps_public_members_of_its_file() {
    let mut context = Context::new();
    let scope = try_parse_compound_scope("src/A.h", &doc(CLASS_FOO), &mut context).unwrap();
    assert_eq!(scope.ref_id, "classns_1_1Foo");
    assert_eq!(scope.kind, "class");
    assert_eq!(
        scope.name,
        " <span class=\"kind_part\">class</span> <span class=\"namespace_part\">ns::</span><span class=\"name_part\">&#8203;Foo</span>"
    );
    assert_eq!(scope.sections.len(), 1);
    let section = &scope.sections[0];
    assert_eq!(section.name, Some("Functions".to_owned()));
    assert_eq!(
        section.description,
        Some("<p>About <a href=\"placeholder-ref://classns_1_1Foo_1a1\">bar</a>.</p>".to_owned())
    );
    assert_eq!(section.members.len(), 1);
    assert_eq!(section.members[0].ref_id, "classns_1_1Foo_1a1");
    assert_eq!(section.members[0].definition, BAR_DEFINITION);
    assert_eq!(section.members[0].description, "<p>Brief.</p>");
}

#[test]
fn scope_of_another_file_keeps_nothing() {
    let mut context = Context::new();
    let scope = try_parse_compound_scope("src/B.h", &doc(CLASS_FOO), &mut context).unwrap();
    assert_eq!(scope.ref_id, "classns_1_1Foo");
    assert!(scope.sections.is_empty());
}

#[test]
fn template_scope() {
    let mut context = Context::new();
    let scope = try_parse_compound_scope(
        "V.h",
        &doc("<doxygen><compounddef id=\"structV\" kind=\"struct\"><compoundname>V</compoundname>\
<templateparamlist><param><type>typename T</type></param></templateparamlist></compounddef></doxygen>"),
        &mut context,
    )
    .unwrap();
    assert_eq!(
        scope.name,
        "<span class=\"templateparamlist\">template &lt;typename T&gt;</span> <span class=\"kind_part\">struct</span> <span class=\"name_part\">V</span>"
    );
}

#[test]
fn scope_schema() {
    let mut context = Context::new();
    let build = |xml: &str, context: &mut Context| try_parse_compound_scope("A.h", &doc(xml), context).err();
    assert_eq!(build("<doxygen/>", &mut context), Some(SchemaError::Malformed));
    assert_eq!(
        build("<doxygen><compounddef kind=\"class\"><compoundname>A</compoundname></compounddef></doxygen>", &mut context),
        Some(SchemaError::Malformed)
    );
    assert_eq!(
        build("<doxygen><compounddef id=\"a\"><compoundname>A</compoundname></compounddef></doxygen>", &mut context),
        Some(SchemaError::Malformed)
    );
    assert_eq!(
        build("<doxygen><compounddef id=\"a\" kind=\"class\"/></doxygen>", &mut context),
        Some(SchemaError::Malformed)
    );
    assert_eq!(
        build(
            "<doxygen><compounddef id=\"a\" kind=\"class\"><compoundname>A</compoundname><sectiondef><memberdef/></sectiondef></compounddef></doxygen>",
            &mut context
        ),
        Some(SchemaError::Malformed)
    );
}

#[test]
fn first_compound_definition_is_used() {
    let d = doc("<doxygen><other/><compounddef id=\"first\"/><compounddef id=\"second\"/></doxygen>");
    assert_eq!(find_compound_def(&d).unwrap().attribute("id"), Some("first"));
    assert!(find_compound_def(&doc("<doxygen/>")).is_none());
}

#[test]
fn inner_scopes_are_listed() {
    assert_eq!(
        list_inner_scopes(&doc(FILE_A)).unwrap(),
        vec!["classns_1_1Foo".to_owned(), "namespacens".to_owned()]
    );
    assert_eq!(list_inner_scopes(&doc(FILE_B)).unwrap(), vec!["classns_1_1Foo".to_owned()]);
    assert_eq!(list_inner_scopes(&doc("<doxygen/>")).err(), Some(SchemaError::Malformed));
    assert_eq!(
        list_inner_scopes(&doc("<doxygen><compounddef><innerclass/></compounddef></doxygen>")).err(),
        Some(SchemaError::Malformed)
    );
}

#[test]
fn references_are_collected() {
    let d = doc("<c><innerpage refid=\"a\"/><x refid=\"n\"/><innerpage refid=\"b\"/></c>");
    assert_eq!(collect_refs(&d, "innerpage", "innerpage").unwrap(), vec!["a".to_owned(), "b".to_owned()]);
    assert_eq!(collect_refs(&d, "innerpage", "x").unwrap(), vec!["a".to_owned(), "n".to_owned(), "b".to_owned()]);
    assert_eq!(collect_refs(&d, "y", "z").unwrap(), Vec::<String>::new());
    assert_eq!(collect_refs(&doc("<c><innerpage/></c>"), "innerpage", "innerpage").err(), Some(SchemaError::Malformed));
}

#[test]
fn class_appears_only_under_the_file_that_documents_it() {
    let class = || Some(doc(CLASS_FOO));
    let (a, _) = try_parse_compound_file(&doc(FILE_A), "A_8h", &vec![class(), None]).unwrap();
    assert_eq!(a.common.ref_id, "A_8h");
    assert_eq!(a.common.source, "src/A.h");
    assert_eq!(a.common.title, "A.h");
    assert!(!a.common.has_math);
    assert!(a.common.subpage_refs.is_empty());
    assert_eq!(a.scopes.len(), 1);
    assert_eq!(a.scopes[0].ref_id, "classns_1_1Foo");
    assert_eq!(a.scopes[0].sections.len(), 1);
    assert_eq!(a.scopes[0].sections[0].members.len(), 1);

    let (b, _) = try_parse_compound_file(&doc(FILE_B), "B_8h", &vec![class()]).unwrap();
    assert_eq!(b.common.title, "B.h");
    assert!(b.scopes.is_empty());

    assert!(matches!(Compound::from_file(a), Some(Compound::File(_))));
    assert!(Compound::from_file(b).is_none());
}

#[test]
fn file_without_loaded_documents_has_no_scopes() {
    let (none, unknown) = try_parse_compound_file(&doc(FILE_A), "A_8h", &vec![]).unwrap();
    assert!(none.scopes.is_empty());
    assert!(unknown.is_empty());
    let (missing, _) = try_parse_compound_file(&doc(FILE_A), "A_8h", &vec![None, None]).unwrap();
    assert!(missing.scopes.is_empty());
    let (second, _) = try_parse_compound_file(&doc(FILE_A), "A_8h", &vec![None, Some(doc(CLASS_FOO))]).unwrap();
    assert_eq!(second.scopes.len(), 1);
}

#[test]
fn every_kept_scope_and_section_has_content() {
    let two = "<doxygen><compounddef id=\"A_8h\" kind=\"file\"><compoundname>A.h</compoundname>\
<innerclass refid=\"a\"/><innerclass refid=\"b\"/><innerclass refid=\"c\"/><location file=\"src/A.h\"/></compounddef></doxygen>";
    let empty = "<doxygen><compounddef id=\"e\" kind=\"class\"><compoundname>E</compoundname>\
<sectiondef><memberdef kind=\"function\" prot=\"private\"/></sectiondef></compounddef></doxygen>";
    let (file, _) =
        try_parse_compound_file(&doc(two), "A_8h", &vec![Some(doc(empty)), Some(doc(CLASS_FOO)), Some(doc(empty))]).unwrap();
    assert_eq!(file.scopes.len(), 1);
    for scope in &file.scopes {
        assert!(!scope.sections.is_empty());
        for section in &scope.sections {
            assert!(!section.members.is_empty());
        }
    }
}

#[test]
fn file_has_math_flag_and_unknown_tags_of_its_scopes() {
    let class = "<doxygen><compounddef id=\"c\" kind=\"class\"><compoundname>C</compoundname>\
<sectiondef><memberdef kind=\"function\" id=\"m\" prot=\"public\"><type>int</type><name>f</name>\
<briefdescription><para><formula id=\"0\">$e$</formula><new/></para></briefdescription><detaileddescription/>\
<location file=\"A.h\"/></memberdef></sectiondef></compounddef></doxygen>";
    let file = "<doxygen><compounddef id=\"A_8h\" kind=\"file\"><compoundname>A.h</compoundname><innerclass refid=\"c\"/><location file=\"A.h\"/></compounddef></doxygen>";
    let (built, unknown) = try_parse_compound_file(&doc(file), "A_8h", &vec![Some(doc(class))]).unwrap();
    assert!(built.common.has_math);
    assert_eq!(built.common.source, "A.h");
    assert_eq!(built.scopes.len(), 1);
    assert_eq!(unknown, vec!["new".to_owned()]);
}

#[test]
fn file_schema() {
    let build = |xml: &str| try_parse_compound_file(&doc(xml), "f", &vec![]).err();
    assert_eq!(build("<doxygen/>"), Some(SchemaError::Malformed));
    assert_eq!(build("<doxygen><compounddef/></doxygen>"), Some(SchemaError::Malformed));
    assert_eq!(
        build("<doxygen><compounddef><compoundname>A.h</compoundname><location/></compounddef></doxygen>"),
        Some(SchemaError::Malformed)
    );
    assert_eq!(
        build("<doxygen><compounddef><compoundname>A.h</compoundname><innerclass/></compounddef></doxygen>"),
        Some(SchemaError::Malformed)
    );
    let broken = "<doxygen><compounddef id=\"c\"/></doxygen>";
    let file = "<doxygen><compounddef><compoundname>A.h</compoundname><innerclass refid=\"c\"/></compounddef></doxygen>";
    assert_eq!(try_parse_compound_file(&doc(file), "f", &vec![Some(doc(broken))]).err(), Some(SchemaError::Malformed));
}

#[test]
fn page_is_built() {
    let page = "<doxygen><compounddef id=\"intro\" kind=\"page\"><compoundname>intro</compoundname><title>Intro &amp; more</title>\
<innerpage refid=\"details\">Details</innerpage><innerpage refid=\"faq\">FAQ</innerpage>\
<briefdescription/><detaileddescription><para>Hello <formula id=\"3\">$x$</formula><blink/></para></detaileddescription>\
<location file=\"docs/intro.md\"/></compounddef></doxygen>";
    let (built, unknown) = try_parse_compound_page(&doc(page), "intro").unwrap();
    assert_eq!(built.common.ref_id, "intro");
    assert_eq!(built.common.source, "docs/intro.md");
    assert_eq!(built.common.title, "Intro & more");
    assert!(built.common.has_math);
    assert_eq!(built.common.subpage_refs, vec!["details".to_owned(), "faq".to_owned()]);
    assert_eq!(built.description, "<p>Hello \\(x\\)</p>");
    assert_eq!(unknown, vec!["blink".to_owned()]);
}

#[test]
fn page_without_location() {
    let page = "<doxygen><compounddef><title>T</title><detaileddescription/></compounddef></doxygen>";
    let (built, unknown) = try_parse_compound_page(&doc(page), "p").unwrap();
    assert_eq!(built.common.source, "");
    assert_eq!(built.description, "");
    assert!(!built.common.has_math);
    assert!(built.common.subpage_refs.is_empty());
    assert!(unknown.is_empty());
}

#[test]
fn page_schema() {
    let build = |xml: &str| try_parse_compound_page(&doc(xml), "p").err();
    assert_eq!(build("<doxygen/>"), Some(SchemaError::Malformed));
    assert_eq!(build("<doxygen><compounddef><detaileddescription/></compounddef></doxygen>"), Some(SchemaError::Malformed));
    assert_eq!(build("<doxygen><compounddef><title>T</title></compounddef></doxygen>"), Some(SchemaError::Malformed));
    assert_eq!(
        build("<doxygen><compounddef><title>T</title><detaileddescription/><innerpage/></compounddef></doxygen>"),
        Some(SchemaError::Malformed)
    );
    assert_eq!(
        build("<doxygen><compounddef><title>T</title><detaileddescription><ref/></detaileddescription></compounddef></doxygen>"),
        Some(SchemaError::Malformed)
    );
}

#[test]
fn index_lists_files_and_pages() {
    let index = doc("<doxygenindex><compound refid=\"classFoo\" kind=\"class\"><name>Foo</name></compound>\
<compound refid=\"A_8h\" kind=\"file\"><name>A.h</name></compound><other kind=\"file\" refid=\"x\"/>\
<compound kind=\"dir\"/><compound refid=\"intro\" kind=\"page\"><name>intro</name></compound></doxygenindex>");
    let entries = list_compounds(&index).unwrap();
    assert_eq!(entries.len(), 2);
    assert_eq!(entries[0].kind, CompoundKind::File);
    assert_eq!(entries[0].ref_id, "A_8h");
    assert_eq!(entries[1].kind, CompoundKind::Page);
    assert_eq!(entries[1].ref_id, "intro");
    assert!(list_compounds(&doc("<doxygenindex/>")).unwrap().is_empty());
}

#[test]
fn index_schema() {
    assert_eq!(list_compounds(&doc("<doxygen/>")).err(), Some(SchemaError::Malformed));
    assert_eq!(list_compounds(&doc("<doxygenindex><compound refid=\"a\"/></doxygenindex>")).err(), Some(SchemaError::Malformed));
    assert_eq!(list_compounds(&doc("<doxygenindex><compound kind=\"file\"/></doxygenindex>")).err(), Some(SchemaError::Malformed));
    assert_eq!(list_compounds(&doc("<doxygenindex><compound kind=\"page\"/></doxygenindex>")).err(), Some(SchemaError::Malformed));
}

#[test]
fn common_part_of_a_compound() {
    let (file, _) = try_parse_compound_file(&doc(FILE_A), "A_8h", &vec![Some(doc(CLASS_FOO))]).unwrap();
    let compound = Compound::from_file(file).unwrap();
    assert_eq!(compound.common().ref_id, "A_8h");
    assert_eq!(compound.common().title, "A.h");
    let page = "<doxygen><compounddef><title>T</title><detaileddescription/></compounddef></doxygen>";
    let (built, _) = try_parse_compound_page(&doc(page), "p").unwrap();
    assert_eq!(Compound::Page(built).common().ref_id, "p");
}

#[test]
fn member_of_unknown_kind_in_a_file_names_kind_and_member() {
    let class = "<doxygen><compounddef id=\"c\" kind=\"class\"><compoundname>C</compoundname>\
<sectiondef><memberdef kind=\"function\" id=\"ok\" prot=\"public\"><type>int</type><name>f</name>\
<briefdescription/><detaileddescription/><location file=\"A.h\"/></memberdef>\
<memberdef kind=\"signal\" id=\"odd\" prot=\"public\"><type>int</type><name>g</name>\
<briefdescription/><detaileddescription/><location file=\"A.h\"/></memberdef>\
<memberdef kind=\"slot\" id=\"later\" prot=\"public\"><type>int</type><name>h</name>\
<briefdescription/><detaileddescription/><location file=\"A.h\"/></memberdef></sectiondef></compounddef></doxygen>";
    let file = "<doxygen><compounddef id=\"A_8h\" kind=\"file\"><compoundname>A.h</compoundname><innerclass refid=\"c\"/><location file=\"A.h\"/></compounddef></doxygen>";
    assert_eq!(
        try_parse_compound_file(&doc(file), "A_8h", &vec![Some(doc(class))]).err(),
        Some(SchemaError::MemberKind { kind: "signal".to_owned(), ref_id: "odd".to_owned() })
    );
    let elsewhere = "<doxygen><compounddef id=\"B_8h\" kind=\"file\"><compoundname>B.h</compoundname><innerclass refid=\"c\"/><location file=\"B.h\"/></compounddef></doxygen>";
    let (other, _) = try_parse_compound_file(&doc(elsewhere), "B_8h", &vec![Some(doc(class))]).unwrap();
    assert!(other.scopes.is_empty());
}

#[test]
fn member_is_kept_by_source_path_not_by_name() {
    let class = "<doxygen><compounddef id=\"c\" kind=\"class\"><compoundname>C</compoundname>\
<sectiondef><memberdef kind=\"function\" id=\"m\" prot=\"public\"><type>int</type><name>f</name>\
<briefdescription/><detaileddescription/><location file=\"src/BA.h\"/></memberdef></sectiondef></compounddef></doxygen>";
    let a = "<doxygen><compounddef id=\"A_8h\" kind=\"file\"><compoundname>A.h</compoundname><innerclass refid=\"c\"/><location file=\"src/A.h\"/></compounddef></doxygen>";
    let ba = "<doxygen><compounddef id=\"BA_8h\" kind=\"file\"><compoundname>BA.h</compoundname><innerclass refid=\"c\"/><location file=\"src/BA.h\"/></compounddef></doxygen>";
    let (in_a, _) = try_parse_compound_file(&doc(a), "A_8h", &vec![Some(doc(class))]).unwrap();
    assert!(in_a.scopes.is_empty());
    let (in_ba, _) = try_parse_compound_file(&doc(ba), "BA_8h", &vec![Some(doc(class))]).unwrap();
    assert_eq!(in_ba.scopes.len(), 1);
    assert_eq!(in_ba.scopes[0].sections[0].members[0].ref_id, "m");
}

#[test]
fn documents_that_follow_the_schema_are_built_directly() {
    let (file, unknown) = parse_compound_file(&doc(FILE_A), "A_8h", &vec![Some(doc(CLASS_FOO)), None]);
    assert_eq!(file.common.source, "src/A.h");
    assert_eq!(file.scopes.len(), 1);
    assert_eq!(file.scopes[0].sections[0].members[0].definition, BAR_DEFINITION);
    assert!(unknown.is_empty());
    let page = "<doxygen><compounddef><title>T</title><detaileddescription><para>x</para></detaileddescription></compounddef></doxygen>";
    let (built, _) = parse_compound_page(&doc(page), "p");
    assert_eq!(built.description, "<p>x</p>");
    let mut context = Context::new();
    let scope = parse_compound_scope("src/A.h", &doc(CLASS_FOO), &mut context);
    assert_eq!(scope.sections.len(), 1);
    let m = doc("<memberdef kind=\"function\" id=\"f1\"><templateparamlist><param><type>class T</type></param></templateparamlist>\
<type>int</type><name>bar</name><param><type>int</type><declname>x</declname></param>\
<briefdescription/><detaileddescription/></memberdef>");
    assert_eq!(
        render_templateparamlist(&m, &mut context),
        "<span class=\"templateparamlist\">template &lt;class T&gt;</span>"
    );
    assert_eq!(
        render_function_args(&m, &mut context),
        "(<br/>&nbsp;&nbsp;&nbsp;&nbsp;<span class=\"type\">int</span> <span class=\"declname\">x</span>)"
    );
    assert_eq!(
        parse_member(&m, &mut context).definition,
        format!("<span class=\"templateparamlist\">template &lt;class T&gt;</span>{}", BAR_DEFINITION)
    );
}
