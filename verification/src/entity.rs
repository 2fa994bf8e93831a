//! The entity model builder: what the compound documents of the export
//! become in the document tree.
//!
//! A builder renders rich text on its way. What it yields is therefore
//! described by the entity and by the trace of what was rendered: the
//! outcomes joined in the order of rendering, of which the findings are what
//! counts.

use vstd::prelude::*;
use vstd::string::*;
use crate::markup::{child_markup, join, nothing, Markup};
use crate::model::{
    lemma_views_push, optional, views, EnumValue, EnumValueView, Member, MemberView, Scope,
    ScopeView, Section, SectionView,
};
use crate::render::{
    lemma_join_nothing, lemma_noted_join, lemma_noted_plain, lift, noted, render_child, Context,
    Failure, Notes, SchemaError,
};
use crate::signature::{
    function_args, try_render_function_args, render_scope_name, try_render_templateparamlist,
    scope_name, template_list,
};
use crate::text::{escape_html, escaped, same, trim, trimmed, wrapped, CharClass};
use crate::xml::{
    attribute, child_value, first_tagged, lemma_view, only_tagged, NodeExt, XmlNode, XmlTree,
};

verus! {

/// What a builder yields: the content of the entity, and the trace of what
/// was rendered on the way.
pub ghost struct Built<V> {
    pub value: V,
    pub trace: Markup,
}

/// What a builder owes: on success the expected entity, with the findings
/// of its trace added to the notes; and exactly the expected failure where
/// the document breaks the schema.
pub open spec fn built<T: View>(
    r: Result<T, SchemaError>,
    expected: Result<Built<T::V>, Failure>,
    before: Notes,
    after: Notes,
) -> bool {
    match r {
        Ok(v) => expected matches Ok(b) && v@ == b.value && after == noted(before, b.trace),
        Err(e) => expected matches Err(f) && f == e@,
    }
}

/// What a builder of a list owes: as `built`, for the contents of the list.
pub open spec fn built_list<T: View>(
    r: Result<Vec<T>, SchemaError>,
    expected: Result<Built<Seq<T::V>>, Failure>,
    before: Notes,
    after: Notes,
) -> bool {
    match r {
        Ok(v) => expected matches Ok(b) && views(v@) == b.value && after == noted(
            before,
            b.trace,
        ),
        Err(e) => expected matches Err(f) && f == e@,
    }
}

/// The empty list, built without rendering anything.
pub open spec fn none_built<V>() -> Built<Seq<V>> {
    Built { value: Seq::empty(), trace: nothing() }
}

/// One list after another.
pub open spec fn append<V>(a: Built<Seq<V>>, b: Built<Seq<V>>) -> Built<Seq<V>> {
    Built { value: a.value + b.value, trace: join(a.trace, b.trace) }
}

/// One list after another; the first failure fails both.
pub open spec fn concat<V>(
    a: Result<Built<Seq<V>>, Failure>,
    b: Result<Built<Seq<V>>, Failure>,
) -> Result<Built<Seq<V>>, Failure> {
    match a {
        Ok(x) => match b {
            Ok(y) => Ok(append(x, y)),
            Err(f) => Err(f),
        },
        Err(f) => Err(f),
    }
}

/// A list of one entity.
pub open spec fn single<V>(b: Result<Built<V>, Failure>) -> Result<Built<Seq<V>>, Failure> {
    match b {
        Ok(b) => Ok(Built { value: seq![b.value], trace: b.trace }),
        Err(f) => Err(f),
    }
}

/// Adding the next items to what was built before them.
pub proof fn lemma_concat_step<V>(
    acc: Built<Seq<V>>,
    item: Result<Built<Seq<V>>, Failure>,
    rest: Result<Built<Seq<V>>, Failure>,
)
    ensures
        concat(Ok(acc), concat(item, rest)) == match item {
            Ok(x) => concat(Ok(append(acc, x)), rest),
            Err(f) => Err(f),
        },
{
    match (item, rest) {
        (Ok(x), Ok(r)) => {
            let a = append(acc, append(x, r));
            let b = append(append(acc, x), r);
            assert(a.value =~= b.value);
            assert(a.trace.html =~= b.trace.html);
            assert(a.trace.unknown =~= b.trace.unknown);
        },
        _ => {},
    }
}

/// The empty list changes nothing.
pub proof fn lemma_append_none<V>(a: Built<Seq<V>>)
    ensures
        append(a, none_built()) == a,
        append(none_built(), a) == a,
{
    lemma_join_nothing(a.trace);
    assert(append(a, none_built()).value =~= a.value);
    assert(append(none_built::<V>(), a).value =~= a.value);
}

/// What the only child of `c` called `tag` renders to; nothing where `c` has
/// no such child.
pub open spec fn maybe_child(c: XmlTree, tag: Seq<char>) -> Option<Markup> {
    match only_tagged(c.children, tag) {
        Some(_) => child_markup(c, tag),
        None => Some(nothing()),
    }
}

/// The HTML of an optional child, where the element has that child.
pub open spec fn maybe_html(c: XmlTree, tag: Seq<char>, m: Markup) -> Option<Seq<char>> {
    match only_tagged(c.children, tag) {
        Some(_) => Some(m.html),
        None => None,
    }
}

/// Renders the only child of `c` called `tag`, where `c` has one.
fn render_maybe(c: &XmlNode, tag: &str, context: &mut Context) -> (r: Result<
    Option<String>,
    SchemaError,
>)
    ensures
        match r {
            Ok(s) => maybe_child(c@, tag@) matches Some(m) && optional(s) == maybe_html(
                c@,
                tag@,
                m,
            ) && final(context)@ == noted(old(context)@, m),
            Err(e) => maybe_child(c@, tag@) is None && e@ == Failure::Malformed,
        },
{
    proof {
        lemma_noted_plain(context@, Seq::empty());
    }
    match c.child_index(tag) {
        Some(_) => {
            let html = render_child(c, tag, context)?;
            Ok(Some(html))
        },
        None => Ok(None),
    }
}

/// One value of an enumeration.
pub open spec fn enum_value(v: XmlTree) -> Option<Built<EnumValueView>> {
    match (
        child_markup(v, "briefdescription"@),
        child_markup(v, "detaileddescription"@),
        attribute(v, "id"@),
        child_value(v, "name"@),
        maybe_child(v, "initializer"@),
    ) {
        (Some(brief), Some(detailed), Some(id), Some(name), Some(initial)) => Some(
            Built {
                value: EnumValueView {
                    ref_id: id,
                    name,
                    initializer: maybe_html(v, "initializer"@, initial),
                    description: brief.html + detailed.html,
                },
                trace: join(join(brief, detailed), initial),
            },
        ),
        _ => None,
    }
}

fn parse_enum_value(v: &XmlNode, context: &mut Context) -> (r: Result<EnumValue, SchemaError>)
    ensures
        built(r, lift(enum_value(v@)), old(context)@, final(context)@),
{
    let ghost before = context@;
    let mut description = render_child(v, "briefdescription", context)?;
    let ghost brief = child_markup(v@, "briefdescription"@)->0;
    let detailed_html = render_child(v, "detaileddescription", context)?;
    let ghost detailed = child_markup(v@, "detaileddescription"@)->0;
    description.append(detailed_html.as_str());
    proof {
        lemma_noted_join(before, brief, detailed);
    }
    let ref_id = match v.attribute("id") {
        Some(id) => id.to_owned(),
        None => {
            return Err(SchemaError::Malformed);
        },
    };
    let name = match v.get_child_value("name") {
        Some(name) => name.to_owned(),
        None => {
            return Err(SchemaError::Malformed);
        },
    };
    let initializer = render_maybe(v, "initializer", context)?;
    proof {
        lemma_noted_join(before, join(brief, detailed), maybe_child(v@, "initializer"@)->0);
    }
    Ok(EnumValue { ref_id, name, initializer, description })
}

/// The values of an enumeration among `cs[from..]`.
pub open spec fn enum_values(cs: Seq<XmlTree>, from: int) -> Result<
    Built<Seq<EnumValueView>>,
    Failure,
>
    decreases cs.len() - from,
{
    if from < 0 || from >= cs.len() {
        Ok(none_built())
    } else {
        concat(
            if cs[from].tag == "enumvalue"@ {
                single(lift(enum_value(cs[from])))
            } else {
                Ok(none_built())
            },
            enum_values(cs, from + 1),
        )
    }
}

fn parse_enum_values(memberdef: &XmlNode, context: &mut Context) -> (r: Result<
    Vec<EnumValue>,
    SchemaError,
>)
    ensures
        built_list(r, enum_values(memberdef@.children, 0), old(context)@, final(context)@),
{
    let ghost cs = memberdef@.children;
    let ghost before = context@;
    let ghost total = enum_values(cs, 0);
    let ghost mut acc: Built<Seq<EnumValueView>> = none_built();
    proof {
        lemma_view(*memberdef);
        lemma_noted_plain(before, Seq::empty());
        match total {
            Ok(t) => {
                lemma_append_none(t);
            },
            Err(_) => {},
        }
    }
    let mut out: Vec<EnumValue> = Vec::new();
    assert(views(out@) =~= acc.value);
    let mut i: usize = 0;
    while i < memberdef.children.len()
        invariant
            i <= memberdef.children.len(),
            cs == memberdef@.children,
            cs.len() == memberdef.children.len(),
            forall|k: int| 0 <= k < cs.len() ==> cs[k] == (#[trigger] memberdef.children@[k])@,
            total == enum_values(cs, 0),
            total == concat(Ok(acc), enum_values(cs, i as int)),
            views(out@) == acc.value,
            context@ == noted(before, acc.trace),
        decreases memberdef.children.len() - i,
    {
        let c = &memberdef.children[i];
        let ghost item = if cs[i as int].tag == "enumvalue"@ {
            single(lift(enum_value(cs[i as int])))
        } else {
            Ok(none_built())
        };
        proof {
            lemma_concat_step(acc, item, enum_values(cs, i + 1));
            lemma_append_none(acc);
        }
        if c.named("enumvalue") {
            let value = parse_enum_value(c, context)?;
            proof {
                let b = enum_value(c@)->0;
                lemma_views_push(out@, value);
                lemma_noted_join(before, acc.trace, b.trace);
                assert(acc.value.push(b.value) =~= acc.value + seq![b.value]);
                acc = append(acc, item->Ok_0);
            }
            out.push(value);
        }
        i += 1;
    }
    proof {
        lemma_append_none(acc);
    }
    Ok(out)
}

/// The signature of a member of the given kind, from its rendered parts.
/// A kind that the generator does not know has no signature.
pub open spec fn definition(
    kind: Seq<char>,
    template: Seq<char>,
    name: Seq<char>,
    args: Seq<char>,
    return_type: Seq<char>,
    initial: Option<Seq<char>>,
) -> Option<Seq<char>> {
    if kind == "function"@ || kind == "event"@ {
        Some(
            template + "<span class=\"member_name\">"@ + name + "</span>"@ + args + (
            if return_type.len() > 0 {
                " \u{2192} <span class=\"rettype\">"@ + return_type + "</span>"@
            } else {
                Seq::empty()
            }),
        )
    } else if kind == "typedef"@ {
        Some(
            template + "<span class=\"keyword\">using</span> <span class=\"member_name\">"@ + name
                + "</span> = <span class=\"type\">"@ + return_type + "</span>"@,
        )
    } else if kind == "variable"@ || kind == "property"@ {
        Some(
            "<span class=\"type\">"@ + return_type + "</span> <span class=\"member_name\">"@ + name
                + "</span>"@ + (match initial {
                Some(v) => " <span class=\"defval\">"@ + v + "</span>"@,
                None => Seq::empty(),
            }),
        )
    } else if kind == "enum"@ {
        Some("<span class=\"keyword\">enum</span> <span class=\"member_name\">"@ + name + "</span>"@)
    } else {
        None
    }
}

/// Writes the signature of a member from its rendered parts.
fn render_definition(
    kind: &str,
    template: &str,
    name: &str,
    args: &str,
    return_type: &str,
    initial: &Option<String>,
) -> (r: Option<String>)
    ensures
        optional(r) == definition(
            kind@,
            template@,
            name@,
            args@,
            return_type@,
            optional(*initial),
        ),
{
    if same(kind, "function") || same(kind, "event") {
        let mut r = template.to_owned();
        r.append("<span class=\"member_name\">");
        r.append(name);
        r.append("</span>");
        r.append(args);
        let tail = if return_type.is_empty() {
            String::new()
        } else {
            wrapped(" \u{2192} <span class=\"rettype\">", return_type, "</span>")
        };
        r.append(tail.as_str());
        Some(r)
    } else if same(kind, "typedef") {
        let mut r = template.to_owned();
        r.append("<span class=\"keyword\">using</span> <span class=\"member_name\">");
        r.append(name);
        r.append("</span> = <span class=\"type\">");
        r.append(return_type);
        r.append("</span>");
        Some(r)
    } else if same(kind, "variable") || same(kind, "property") {
        let mut r = "<span class=\"type\">".to_owned();
        r.append(return_type);
        r.append("</span> <span class=\"member_name\">");
        r.append(name);
        r.append("</span>");
        let tail = match initial {
            Some(v) => wrapped(" <span class=\"defval\">", v.as_str(), "</span>"),
            None => String::new(),
        };
        r.append(tail.as_str());
        Some(r)
    } else if same(kind, "enum") {
        Some(wrapped("<span class=\"keyword\">enum</span> <span class=\"member_name\">", name, "</span>"))
    } else {
        None
    }
}

/// Whether a member of this kind may carry an initial value.
pub open spec fn is_variable(kind: Seq<char>) -> bool {
    kind == "variable"@ || kind == "property"@
}

/// The initial value of a member, which is rendered for a variable only.
pub open spec fn initial_value(n: XmlTree, kind: Seq<char>) -> Option<Markup> {
    if is_variable(kind) {
        maybe_child(n, "initializer"@)
    } else {
        Some(nothing())
    }
}

/// The initial value as it enters the signature.
pub open spec fn initial_html(n: XmlTree, kind: Seq<char>, m: Markup) -> Option<Seq<char>> {
    if is_variable(kind) {
        maybe_html(n, "initializer"@, m)
    } else {
        None
    }
}

/// The enumeration values of a member, which only an enumeration has.
pub open spec fn member_values(n: XmlTree, kind: Seq<char>) -> Result<
    Built<Seq<EnumValueView>>,
    Failure,
> {
    if kind == "enum"@ {
        enum_values(n.children, 0)
    } else {
        Ok(none_built())
    }
}

/// What a member definition becomes: its identifier, its signature, its
/// description without white space at either end, and the values of an
/// enumeration. A member of a kind for which no signature is known fails
/// with that kind and its identifier; whatever else breaks the schema fails
/// as malformed.
pub open spec fn member_of(n: XmlTree) -> Result<Built<MemberView>, Failure> {
    match (
        attribute(n, "id"@),
        child_markup(n, "type"@),
        child_value(n, "name"@),
        template_list(n),
        function_args(n),
        attribute(n, "kind"@),
    ) {
        (Some(id), Some(ty), Some(name), Some(template), Some(args), Some(kind)) => match initial_value(
            n,
            kind,
        ) {
            Some(initial) => match definition(
                kind,
                template.html,
                escaped(name),
                args.html,
                ty.html,
                initial_html(n, kind, initial),
            ) {
                Some(definition) => match member_values(n, kind) {
                    Ok(values) => match (
                        child_markup(n, "briefdescription"@),
                        child_markup(n, "detaileddescription"@),
                    ) {
                        (Some(brief), Some(detailed)) => Ok(
                            Built {
                                value: MemberView {
                                    ref_id: id,
                                    definition,
                                    description: trimmed(
                                        brief.html + detailed.html,
                                        CharClass::Space,
                                    ),
                                    enum_values: values.value,
                                },
                                trace: join(
                                    join(
                                        join(
                                            join(join(join(ty, template), args), initial),
                                            values.trace,
                                        ),
                                        brief,
                                    ),
                                    detailed,
                                ),
                            },
                        ),
                        _ => Err(Failure::Malformed),
                    },
                    Err(f) => Err(f),
                },
                None => Err(Failure::MemberKind { kind, ref_id: id }),
            },
            None => Err(Failure::Malformed),
        },
        _ => Err(Failure::Malformed),
    }
}

/// Builds a member from a definition that follows the schema.
pub fn parse_member(memberdef: &XmlNode, context: &mut Context) -> (member: Member)
    requires
        member_of(memberdef@) is Ok,
    ensures
        member@ == member_of(memberdef@)->Ok_0.value,
        final(context)@ == noted(old(context)@, member_of(memberdef@)->Ok_0.trace),
{
    match try_parse_member(memberdef, context) {
        Ok(member) => member,
        Err(_) => unreached(),
    }
}

/// Builds a member from its definition, or answers with the failure where
/// the definition breaks the schema.
pub fn try_parse_member(memberdef: &XmlNode, context: &mut Context) -> (r: Result<Member, SchemaError>)
    ensures
        built(r, member_of(memberdef@), old(context)@, final(context)@),
{
    let ghost n = memberdef@;
    let ghost before = context@;
    proof {
        lemma_noted_plain(before, Seq::empty());
    }
    let ref_id = match memberdef.attribute("id") {
        Some(id) => id.to_owned(),
        None => {
            return Err(SchemaError::Malformed);
        },
    };
    let return_type = render_child(memberdef, "type", context)?;
    let ghost ty = child_markup(n, "type"@)->0;
    let name = match memberdef.get_child_value("name") {
        Some(name) => escape_html(name),
        None => {
            return Err(SchemaError::Malformed);
        },
    };
    let template = try_render_templateparamlist(memberdef, context)?;
    let ghost tpl = template_list(n)->0;
    proof {
        lemma_noted_join(before, ty, tpl);
    }
    let args = try_render_function_args(memberdef, context)?;
    let ghost ar = function_args(n)->0;
    proof {
        lemma_noted_join(before, join(ty, tpl), ar);
    }
    let kind = match memberdef.attribute("kind") {
        Some(kind) => kind,
        None => {
            return Err(SchemaError::Malformed);
        },
    };
    let ghost so_far = join(join(ty, tpl), ar);
    let variable = same(kind, "variable") || same(kind, "property");
    let initial = if variable {
        render_maybe(memberdef, "initializer", context)?
    } else {
        proof {
            lemma_noted_plain(context@, Seq::empty());
        }
        None
    };
    let ghost init = initial_value(n, kind@)->0;
    proof {
        lemma_noted_join(before, so_far, init);
    }
    let definition = match render_definition(
        kind,
        template.as_str(),
        name.as_str(),
        args.as_str(),
        return_type.as_str(),
        &initial,
    ) {
        Some(d) => d,
        None => {
            return Err(SchemaError::MemberKind { kind: kind.to_owned(), ref_id });
        },
    };
    let enum_values = if same(kind, "enum") {
        parse_enum_values(memberdef, context)?
    } else {
        let none: Vec<EnumValue> = Vec::new();
        proof {
            lemma_noted_plain(context@, Seq::empty());
            assert(views(none@) =~= none_built::<EnumValueView>().value);
        }
        none
    };
    let ghost values = member_values(n, kind@)->Ok_0;
    proof {
        lemma_noted_join(before, join(so_far, init), values.trace);
    }
    let brief_html = render_child(memberdef, "briefdescription", context)?;
    let ghost brief = child_markup(n, "briefdescription"@)->0;
    proof {
        lemma_noted_join(before, join(join(so_far, init), values.trace), brief);
    }
    let detailed_html = render_child(memberdef, "detaileddescription", context)?;
    let ghost detailed = child_markup(n, "detaileddescription"@)->0;
    proof {
        lemma_noted_join(before, join(join(join(so_far, init), values.trace), brief), detailed);
    }
    let mut both = brief_html;
    both.append(detailed_html.as_str());
    let description = trim(both.as_str(), CharClass::Space);
    Ok(Member { ref_id, definition, description, enum_values })
}

/// Whether a child of a section is a member that the file keeps: a member
/// definition that is public, no friend, and declared at the source path of
/// the file that is being built. Nothing where the schema is broken on the
/// way to the answer.
pub open spec fn retained(m: XmlTree, parent_file: Seq<char>) -> Option<bool> {
    if m.tag != "memberdef"@ {
        Some(false)
    } else {
        match attribute(m, "prot"@) {
            None => None,
            Some(prot) => if prot != "public"@ {
                Some(false)
            } else {
                match attribute(m, "kind"@) {
                    None => None,
                    Some(kind) => if kind == "friend"@ {
                        Some(false)
                    } else {
                        match only_tagged(m.children, "location"@) {
                            None => None,
                            Some(k) => match attribute(m.children[k], "file"@) {
                                None => None,
                                Some(file) => Some(file == parent_file),
                            },
                        }
                    },
                }
            },
        }
    }
}

/// A member is kept by the file that declares it and by no other: a public
/// member definition that is no friend is kept exactly by the file whose
/// source path is the location of the member.
pub proof fn lemma_kept_by_own_file(m: XmlTree, source: Seq<char>, location: Seq<char>, k: int)
    requires
        m.tag == "memberdef"@,
        attribute(m, "prot"@) == Some("public"@),
        attribute(m, "kind"@) is Some,
        attribute(m, "kind"@) != Some("friend"@),
        only_tagged(m.children, "location"@) == Some(k),
        attribute(m.children[k], "file"@) == Some(location),
    ensures
        retained(m, source) == Some(location == source),
        retained(m, location) == Some(true),
{
}

/// Whether the file keeps this child of a section.
pub fn is_retained(m: &XmlNode, parent_file: &str) -> (r: Result<bool, SchemaError>)
    ensures
        match r {
            Ok(b) => retained(m@, parent_file@) == Some(b),
            Err(e) => retained(m@, parent_file@) is None && e@ == Failure::Malformed,
        },
{
    if !m.named("memberdef") {
        return Ok(false);
    }
    match m.attribute("prot") {
        None => Err(SchemaError::Malformed),
        Some(prot) => {
            if !same(prot, "public") {
                return Ok(false);
            }
            match m.attribute("kind") {
                None => Err(SchemaError::Malformed),
                Some(kind) => {
                    if same(kind, "friend") {
                        return Ok(false);
                    }
                    match m.get_child("location") {
                        None => Err(SchemaError::Malformed),
                        Some(location) => match location.attribute("file") {
                            None => Err(SchemaError::Malformed),
                            Some(file) => Ok(same(file, parent_file)),
                        },
                    }
                },
            }
        },
    }
}

/// What one child of a section adds to its members.
pub open spec fn member_item(m: XmlTree, parent_file: Seq<char>) -> Result<
    Built<Seq<MemberView>>,
    Failure,
> {
    match retained(m, parent_file) {
        Some(keep) => if keep {
            single(member_of(m))
        } else {
            Ok(none_built())
        },
        None => Err(Failure::Malformed),
    }
}

/// The members that the file keeps among `cs[from..]`.
pub open spec fn members_of(cs: Seq<XmlTree>, from: int, parent_file: Seq<char>) -> Result<
    Built<Seq<MemberView>>,
    Failure,
>
    decreases cs.len() - from,
{
    if from < 0 || from >= cs.len() {
        Ok(none_built())
    } else {
        concat(member_item(cs[from], parent_file), members_of(cs, from + 1, parent_file))
    }
}

fn parse_members(section: &XmlNode, parent_file: &str, context: &mut Context) -> (r: Result<
    Vec<Member>,
    SchemaError,
>)
    ensures
        built_list(
            r,
            members_of(section@.children, 0, parent_file@),
            old(context)@,
            final(context)@,
        ),
{
    let ghost cs = section@.children;
    let ghost before = context@;
    let ghost total = members_of(cs, 0, parent_file@);
    let ghost mut acc: Built<Seq<MemberView>> = none_built();
    proof {
        lemma_view(*section);
        lemma_noted_plain(before, Seq::empty());
        match total {
            Ok(t) => {
                lemma_append_none(t);
            },
            Err(_) => {},
        }
    }
    let mut out: Vec<Member> = Vec::new();
    assert(views(out@) =~= acc.value);
    let mut i: usize = 0;
    while i < section.children.len()
        invariant
            i <= section.children.len(),
            cs == section@.children,
            cs.len() == section.children.len(),
            forall|k: int| 0 <= k < cs.len() ==> cs[k] == (#[trigger] section.children@[k])@,
            total == members_of(cs, 0, parent_file@),
            total == concat(Ok(acc), members_of(cs, i as int, parent_file@)),
            views(out@) == acc.value,
            context@ == noted(before, acc.trace),
        decreases section.children.len() - i,
    {
        let c = &section.children[i];
        let ghost item = member_item(cs[i as int], parent_file@);
        proof {
            lemma_concat_step(acc, item, members_of(cs, i + 1, parent_file@));
            lemma_append_none(acc);
        }
        if is_retained(c, parent_file)? {
            let member = try_parse_member(c, context)?;
            proof {
                let b = member_of(c@)->Ok_0;
                lemma_views_push(out@, member);
                lemma_noted_join(before, acc.trace, b.trace);
                assert(acc.value.push(b.value) =~= acc.value + seq![b.value]);
                acc = append(acc, item->Ok_0);
            }
            out.push(member);
        }
        i += 1;
    }
    proof {
        lemma_append_none(acc);
    }
    Ok(out)
}

/// What one child of a scope adds to its sections: a section definition
/// with at least one member that the file keeps.
pub open spec fn section_item(sd: XmlTree, parent_file: Seq<char>) -> Result<
    Built<Seq<SectionView>>,
    Failure,
> {
    if sd.tag != "sectiondef"@ {
        Ok(none_built())
    } else {
        match maybe_child(sd, "description"@) {
            Some(d) => match members_of(sd.children, 0, parent_file) {
                Ok(members) => Ok(
                    Built {
                        value: if members.value.len() > 0 {
                            seq![
                                SectionView {
                                    name: child_value(sd, "header"@),
                                    description: maybe_html(sd, "description"@, d),
                                    members: members.value,
                                },
                            ]
                        } else {
                            Seq::empty()
                        },
                        trace: join(d, members.trace),
                    },
                ),
                Err(f) => Err(f),
            },
            None => Err(Failure::Malformed),
        }
    }
}

/// The sections among `cs[from..]`.
pub open spec fn sections_of(cs: Seq<XmlTree>, from: int, parent_file: Seq<char>) -> Result<
    Built<Seq<SectionView>>,
    Failure,
>
    decreases cs.len() - from,
{
    if from < 0 || from >= cs.len() {
        Ok(none_built())
    } else {
        concat(section_item(cs[from], parent_file), sections_of(cs, from + 1, parent_file))
    }
}

fn parse_section(sd: &XmlNode, parent_file: &str, context: &mut Context) -> (r: Result<
    Option<Section>,
    SchemaError,
>)
    requires
        sd@.tag == "sectiondef"@,
    ensures
        match r {
            Ok(s) => section_item(sd@, parent_file@) matches Ok(b) && b.value == (match s {
                Some(s) => seq![s@],
                None => Seq::empty(),
            }) && final(context)@ == noted(old(context)@, b.trace),
            Err(e) => section_item(sd@, parent_file@) matches Err(f) && f == e@,
        },
{
    let ghost before = context@;
    let name = match sd.get_child_value("header") {
        Some(v) => Some(v.to_owned()),
        None => None,
    };
    let description = render_maybe(sd, "description", context)?;
    let ghost d = maybe_child(sd@, "description"@)->0;
    let members = parse_members(sd, parent_file, context)?;
    proof {
        lemma_noted_join(before, d, members_of(sd@.children, 0, parent_file@)->Ok_0.trace);
    }
    if members.len() > 0 {
        Ok(Some(Section { name, description, members }))
    } else {
        Ok(None)
    }
}

fn parse_sections(compounddef: &XmlNode, parent_file: &str, context: &mut Context) -> (r: Result<
    Vec<Section>,
    SchemaError,
>)
    ensures
        built_list(
            r,
            sections_of(compounddef@.children, 0, parent_file@),
            old(context)@,
            final(context)@,
        ),
{
    let ghost cs = compounddef@.children;
    let ghost before = context@;
    let ghost total = sections_of(cs, 0, parent_file@);
    let ghost mut acc: Built<Seq<SectionView>> = none_built();
    proof {
        lemma_view(*compounddef);
        lemma_noted_plain(before, Seq::empty());
        match total {
            Ok(t) => {
                lemma_append_none(t);
            },
            Err(_) => {},
        }
    }
    let mut out: Vec<Section> = Vec::new();
    assert(views(out@) =~= acc.value);
    let mut i: usize = 0;
    while i < compounddef.children.len()
        invariant
            i <= compounddef.children.len(),
            cs == compounddef@.children,
            cs.len() == compounddef.children.len(),
            forall|k: int| 0 <= k < cs.len() ==> cs[k] == (#[trigger] compounddef.children@[k])@,
            total == sections_of(cs, 0, parent_file@),
            total == concat(Ok(acc), sections_of(cs, i as int, parent_file@)),
            views(out@) == acc.value,
            context@ == noted(before, acc.trace),
        decreases compounddef.children.len() - i,
    {
        let c = &compounddef.children[i];
        let ghost item = section_item(cs[i as int], parent_file@);
        proof {
            lemma_concat_step(acc, item, sections_of(cs, i + 1, parent_file@));
            lemma_append_none(acc);
        }
        if c.named("sectiondef") {
            let section = parse_section(c, parent_file, context)?;
            proof {
                lemma_noted_join(before, acc.trace, item->Ok_0.trace);
            }
            match section {
                Some(s) => {
                    proof {
                        lemma_views_push(out@, s);
                        assert(acc.value.push(s@) =~= acc.value + seq![s@]);
                    }
                    out.push(s);
                },
                None => {
                    assert(acc.value + Seq::<SectionView>::empty() =~= acc.value);
                },
            }
            proof {
                acc = append(acc, item->Ok_0);
            }
        }
        i += 1;
    }
    proof {
        lemma_append_none(acc);
    }
    Ok(out)
}

/// The rendered name of a scope: its template parameters, its kind and its
/// name.
pub open spec fn scope_title(template: Seq<char>, kind: Seq<char>, name: Seq<char>) -> Seq<char> {
    template + " <span class=\"kind_part\">"@ + kind + "</span> "@ + scope_name(name)
}

/// The compound definition of a document: the first element of that name
/// under the root element.
pub open spec fn compound_def(doc: XmlTree) -> Option<XmlTree> {
    match first_tagged(doc.children, "compounddef"@, 0) {
        Some(k) => Some(doc.children[k]),
        None => None,
    }
}

/// The compound definition of a document.
pub fn find_compound_def(doc: &XmlNode) -> (r: Option<&XmlNode>)
    ensures
        match r {
            Some(c) => compound_def(doc@) == Some(c@),
            None => compound_def(doc@) is None,
        },
{
    proof {
        lemma_view(*doc);
    }
    match doc.find_child("compounddef", 0) {
        Some(k) => Some(&doc.children[k]),
        None => None,
    }
}

/// What the document of a class or namespace becomes within the file whose
/// source path is `parent_file`.
pub open spec fn scope_of(doc: XmlTree, parent_file: Seq<char>) -> Result<
    Built<ScopeView>,
    Failure,
> {
    match compound_def(doc) {
        Some(cd) => match (
            attribute(cd, "id"@),
            attribute(cd, "kind"@),
            template_list(cd),
            child_value(cd, "compoundname"@),
        ) {
            (Some(id), Some(kind), Some(template), Some(name)) => match sections_of(
                cd.children,
                0,
                parent_file,
            ) {
                Ok(sections) => Ok(
                    Built {
                        value: ScopeView {
                            ref_id: id,
                            name: scope_title(template.html, kind, name),
                            kind,
                            sections: sections.value,
                        },
                        trace: join(template, sections.trace),
                    },
                ),
                Err(f) => Err(f),
            },
            _ => Err(Failure::Malformed),
        },
        None => Err(Failure::Malformed),
    }
}

/// Builds a scope from a document of a class or namespace that follows the
/// schema. Only the members declared at `parent_source`, the source path of
/// the file, are kept, and only the sections that keep a member.
pub fn parse_compound_scope(parent_source: &str, doc: &XmlNode, context: &mut Context) -> (scope:
    Scope)
    requires
        scope_of(doc@, parent_source@) is Ok,
    ensures
        scope@ == scope_of(doc@, parent_source@)->Ok_0.value,
        final(context)@ == noted(old(context)@, scope_of(doc@, parent_source@)->Ok_0.trace),
{
    match try_parse_compound_scope(parent_source, doc, context) {
        Ok(scope) => scope,
        Err(_) => unreached(),
    }
}

/// Builds a scope from the document of a class or namespace, or answers
/// with the failure where the document breaks the schema. Only the members
/// declared at `parent_source`, the source path of the file, are kept, and
/// only the sections that keep a member.
pub fn try_parse_compound_scope(parent_source: &str, doc: &XmlNode, context: &mut Context) -> (r:
    Result<Scope, SchemaError>)
    ensures
        built(r, scope_of(doc@, parent_source@), old(context)@, final(context)@),
{
    let ghost before = context@;
    let compounddef = match find_compound_def(doc) {
        Some(c) => c,
        None => {
            return Err(SchemaError::Malformed);
        },
    };
    let ref_id = match compounddef.attribute("id") {
        Some(id) => id.to_owned(),
        None => {
            return Err(SchemaError::Malformed);
        },
    };
    let kind = match compounddef.attribute("kind") {
        Some(kind) => kind.to_owned(),
        None => {
            return Err(SchemaError::Malformed);
        },
    };
    let mut name = try_render_templateparamlist(compounddef, context)?;
    let shown = match compounddef.get_child_value("compoundname") {
        Some(n) => render_scope_name(n),
        None => {
            return Err(SchemaError::Malformed);
        },
    };
    name.append(" <span class=\"kind_part\">");
    name.append(kind.as_str());
    name.append("</span> ");
    name.append(shown.as_str());
    let sections = parse_sections(compounddef, parent_source, context)?;
    proof {
        lemma_noted_join(
            before,
            template_list(compounddef@)->0,
            sections_of(compounddef@.children, 0, parent_source@)->Ok_0.trace,
        );
    }
    Ok(Scope { ref_id, name, kind, sections })
}

} // verus!
