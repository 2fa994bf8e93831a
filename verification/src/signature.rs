//! How the pieces of a declaration are written: scope names, template
//! parameter lists and argument lists.

use vstd::prelude::*;
use vstd::string::*;
use crate::markup::{both, child_markup, join, nothing, plain, wrap, Markup};
use crate::render::{
    lemma_join_nothing, lemma_noted_join, lemma_noted_plain, lemma_both_step, noted,
    render_child, rendered, Context, SchemaError,
};
use crate::text::{
    escape_html, escaped, find_last, from_chars, last_match, replace_all, replaced_all, to_chars,
    wrapped,
};
use crate::xml::{child_value, lemma_view, only_tagged, NodeExt, XmlNode, XmlTree};

verus! {

/// A scope name with a break opportunity after every `::`.
pub open spec fn breakable(name: Seq<char>) -> Seq<char> {
    replaced_all(escaped(name), "::"@, "::&#8203;"@)
}

/// A scope name as it is shown: escaped, with a break opportunity after
/// every `::`, the enclosing scopes marked as the namespace part and the
/// last component as the name part.
pub open spec fn scope_name(name: Seq<char>) -> Seq<char> {
    let shown = breakable(name);
    match last_match(shown, "::&#8203;"@, shown.len() as int) {
        Some(at) => "<span class=\"namespace_part\">"@ + shown.take(at + 2)
            + "</span><span class=\"name_part\">"@ + shown.skip(at + 2) + "</span>"@,
        None => "<span class=\"name_part\">"@ + shown + "</span>"@,
    }
}

/// Writes a scope name as it is shown.
pub fn render_scope_name(name: &str) -> (r: String)
    ensures
        r@ == scope_name(name@),
{
    let escaped_name = escape_html(name);
    let shown = replace_all(escaped_name.as_str(), "::", "::&#8203;");
    let chars = to_chars(shown.as_str());
    let mark = to_chars("::&#8203;");
    match find_last(&chars, &mark) {
        Some(at) => {
            proof {
                reveal_strlit("::&#8203;");
            }
            let end = chars.len();
            let head = from_chars(&chars, 0, at + 2);
            let tail = from_chars(&chars, at + 2, end);
            let mut r = "<span class=\"namespace_part\">".to_owned();
            r.append(head.as_str());
            r.append("</span><span class=\"name_part\">");
            r.append(tail.as_str());
            r.append("</span>");
            r
        },
        None => wrapped("<span class=\"name_part\">", shown.as_str(), "</span>"),
    }
}

/// One template parameter: a separator where something was written before
/// it, its type, and its default as written.
pub open spec fn template_param(follows: bool, t: Markup, default: Option<Seq<char>>) -> Markup {
    Markup {
        html: (if follows {
            ", "@
        } else {
            Seq::empty()
        }) + t.html + (match default {
            Some(d) => d,
            None => Seq::empty(),
        }),
        math: t.math,
        unknown: t.unknown,
    }
}

/// The template parameters among `cs[from..]`, written after `sofar`.
pub open spec fn template_params(cs: Seq<XmlTree>, from: int, sofar: Markup) -> Option<Markup>
    decreases cs.len() - from,
{
    if from < 0 || from >= cs.len() {
        Some(sofar)
    } else if cs[from].tag == "param"@ {
        match child_markup(cs[from], "type"@) {
            Some(t) => template_params(
                cs,
                from + 1,
                join(
                    sofar,
                    template_param(sofar.html.len() > 0, t, child_value(cs[from], "defval"@)),
                ),
            ),
            None => None,
        }
    } else {
        template_params(cs, from + 1, sofar)
    }
}

/// The template parameter list of a declaration; nothing where it has none.
pub open spec fn template_list(n: XmlTree) -> Option<Markup> {
    match only_tagged(n.children, "templateparamlist"@) {
        Some(k) => wrap(
            "<span class=\"templateparamlist\">template &lt;"@,
            template_params(n.children[k].children, 0, nothing()),
            "&gt;</span>"@,
        ),
        None => Some(nothing()),
    }
}

/// Writes the template parameter list of a declaration, or answers with
/// the failure where the declaration breaks the schema.
pub fn try_render_templateparamlist(memberdef: &XmlNode, context: &mut Context) -> (r: Result<
    String,
    SchemaError,
>)
    ensures
        rendered(r, template_list(memberdef@), old(context)@, final(context)@),
{
    proof {
        lemma_view(*memberdef);
        lemma_noted_plain(context@, Seq::empty());
    }
    let list = match memberdef.get_child("templateparamlist") {
        Some(list) => list,
        None => {
            return Ok(String::new());
        },
    };
    let ghost cs = list@.children;
    let ghost before = context@;
    let ghost total = template_params(cs, 0, nothing());
    let ghost mut sofar = nothing();
    proof {
        lemma_view(*list);
    }
    let mut s = String::new();
    let mut i: usize = 0;
    while i < list.children.len()
        invariant
            i <= list.children.len(),
            cs == list@.children,
            cs.len() == list.children.len(),
            forall|k: int| 0 <= k < cs.len() ==> cs[k] == (#[trigger] list.children@[k])@,
            total == template_params(cs, 0, nothing()),
            total == template_params(cs, i as int, sofar),
            template_list(memberdef@) == wrap(
                "<span class=\"templateparamlist\">template &lt;"@,
                total,
                "&gt;</span>"@,
            ),
            s@ == sofar.html,
            context@ == noted(before, sofar),
        decreases list.children.len() - i,
    {
        let param = &list.children[i];
        if param.named("param") {
            let t = render_child(param, "type", context)?;
            let mut piece = if s.as_str().is_empty() {
                String::new()
            } else {
                ", ".to_owned()
            };
            piece.append(t.as_str());
            match param.get_child_value("defval") {
                Some(d) => {
                    piece.append(d);
                },
                None => {
                    let none = String::new();
                    piece.append(none.as_str());
                },
            }
            s.append(piece.as_str());
            proof {
                let m = child_markup(param@, "type"@)->0;
                let p = template_param(sofar.html.len() > 0, m, child_value(param@, "defval"@));
                assert(noted(noted(before, sofar), m) == noted(noted(before, sofar), p));
                lemma_noted_join(before, sofar, p);
                sofar = join(sofar, p);
            }
        }
        i += 1;
    }
    Ok(wrapped("<span class=\"templateparamlist\">template &lt;", s.as_str(), "&gt;</span>"))
}

/// Writes the template parameter list of a declaration that follows the
/// schema.
pub fn render_templateparamlist(memberdef: &XmlNode, context: &mut Context) -> (html: String)
    requires
        template_list(memberdef@) is Some,
    ensures
        html@ == template_list(memberdef@)->0.html,
        final(context)@ == noted(old(context)@, template_list(memberdef@)->0),
{
    match try_render_templateparamlist(memberdef, context) {
        Ok(html) => html,
        Err(_) => unreached(),
    }
}

/// The line break and indentation before each argument.
pub open spec fn arg_break() -> Seq<char> {
    "<br/>&nbsp;&nbsp;&nbsp;&nbsp;"@
}

/// A rendered type with the space before `&` and `*` taken away.
pub open spec fn tidy_type(t: Seq<char>) -> Seq<char> {
    replaced_all(replaced_all(t, " &amp;"@, "&amp;"@), " *"@, "*"@)
}

/// What the only child of `c` called `tag` renders to between `open` and
/// `close`; nothing where `c` has no such child.
pub open spec fn optional_child(c: XmlTree, tag: Seq<char>, open: Seq<char>, close: Seq<char>)
    -> Option<Markup> {
    match only_tagged(c.children, tag) {
        Some(_) => wrap(open, child_markup(c, tag), close),
        None => Some(nothing()),
    }
}

/// Renders the only child of `c` called `tag` between `open` and `close`.
pub fn render_optional_child(
    c: &XmlNode,
    tag: &str,
    open: &str,
    close: &str,
    context: &mut Context,
) -> (r: Result<String, SchemaError>)
    ensures
        rendered(r, optional_child(c@, tag@, open@, close@), old(context)@, final(context)@),
{
    proof {
        lemma_noted_plain(context@, Seq::empty());
    }
    match c.child_index(tag) {
        Some(_) => {
            let inner = render_child(c, tag, context)?;
            Ok(wrapped(open, inner.as_str(), close))
        },
        None => Ok(String::new()),
    }
}

/// The type of an argument, as it is shown.
pub open spec fn argument_type(t: Markup) -> Markup {
    Markup {
        html: "<span class=\"type\">"@ + tidy_type(t.html) + "</span>"@,
        math: t.math,
        unknown: t.unknown,
    }
}

/// One argument: its type, then its name and its default where it has
/// them.
pub open spec fn argument(param: XmlTree) -> Option<Markup> {
    match child_markup(param, "type"@) {
        Some(t) => both(
            both(
                Some(argument_type(t)),
                optional_child(param, "declname"@, " <span class=\"declname\">"@, "</span>"@),
            ),
            optional_child(param, "defval"@, " = <span class=\"defval\">"@, "</span>"@),
        ),
        None => None,
    }
}

/// Writes one argument.
fn render_argument(param: &XmlNode, context: &mut Context) -> (r: Result<String, SchemaError>)
    ensures
        rendered(r, argument(param@), old(context)@, final(context)@),
{
    let ghost before = context@;
    let t = render_child(param, "type", context)?;
    let ghost m = child_markup(param@, "type"@)->0;
    let first = replace_all(t.as_str(), " &amp;", "&amp;");
    let tidy = replace_all(first.as_str(), " *", "*");
    let mut html = wrapped("<span class=\"type\">", tidy.as_str(), "</span>");
    assert(context@ == noted(before, argument_type(m)));
    let name = render_optional_child(param, "declname", " <span class=\"declname\">", "</span>", context)?;
    html.append(name.as_str());
    let ghost n = optional_child(param@, "declname"@, " <span class=\"declname\">"@, "</span>"@)->0;
    proof {
        lemma_noted_join(before, argument_type(m), n);
    }
    let default = render_optional_child(param, "defval", " = <span class=\"defval\">", "</span>", context)?;
    html.append(default.as_str());
    proof {
        let d = optional_child(param@, "defval"@, " = <span class=\"defval\">"@, "</span>"@)->0;
        lemma_noted_join(before, join(argument_type(m), n), d);
    }
    Ok(html)
}

/// The arguments among `cs[from..]`, each on a line of its own and with a
/// comma between two of them.
pub open spec fn arguments(cs: Seq<XmlTree>, from: int, first: bool) -> Option<Markup>
    decreases cs.len() - from,
{
    if from < 0 || from >= cs.len() {
        Some(nothing())
    } else if cs[from].tag == "param"@ {
        both(
            both(
                Some(
                    plain(
                        if first {
                            arg_break()
                        } else {
                            ","@ + arg_break()
                        },
                    ),
                ),
                argument(cs[from]),
            ),
            arguments(cs, from + 1, false),
        )
    } else {
        arguments(cs, from + 1, first)
    }
}

/// The argument list of a declaration, in parentheses.
pub open spec fn function_args(n: XmlTree) -> Option<Markup> {
    wrap("("@, arguments(n.children, 0, true), ")"@)
}

/// Writes the argument list of a declaration, or answers with the failure
/// where the declaration breaks the schema.
pub fn try_render_function_args(memberdef: &XmlNode, context: &mut Context) -> (r: Result<
    String,
    SchemaError,
>)
    ensures
        rendered(r, function_args(memberdef@), old(context)@, final(context)@),
{
    let ghost cs = memberdef@.children;
    let ghost before = context@;
    let ghost total = arguments(cs, 0, true);
    let ghost mut acc = nothing();
    proof {
        lemma_view(*memberdef);
        lemma_noted_plain(before, Seq::empty());
        match total {
            Some(t) => {
                lemma_join_nothing(t);
            },
            None => {},
        }
    }
    let mut s = String::new();
    let mut first = true;
    let mut i: usize = 0;
    while i < memberdef.children.len()
        invariant
            i <= memberdef.children.len(),
            cs == memberdef@.children,
            cs.len() == memberdef.children.len(),
            forall|k: int| 0 <= k < cs.len() ==> cs[k] == (#[trigger] memberdef.children@[k])@,
            total == arguments(cs, 0, true),
            total == both(Some(acc), arguments(cs, i as int, first)),
            s@ == acc.html,
            context@ == noted(before, acc),
        decreases memberdef.children.len() - i,
    {
        let param = &memberdef.children[i];
        if param.named("param") {
            let ghost lead = plain(
                if first {
                    arg_break()
                } else {
                    ","@ + arg_break()
                },
            );
            proof {
                lemma_both_step(
                    acc,
                    both(Some(lead), argument(param@)),
                    arguments(cs, i + 1, false),
                );
                lemma_noted_plain(context@, lead.html);
            }
            let arg = render_argument(param, context)?;
            let mut piece = if first {
                String::new()
            } else {
                ",".to_owned()
            };
            piece.append("<br/>&nbsp;&nbsp;&nbsp;&nbsp;");
            piece.append(arg.as_str());
            s.append(piece.as_str());
            proof {
                let m = join(lead, argument(param@)->0);
                assert(piece@ =~= m.html);
                lemma_noted_join(before, acc, m);
                lemma_noted_join(noted(before, acc), lead, argument(param@)->0);
                acc = join(acc, m);
            }
            first = false;
        }
        i += 1;
    }
    proof {
        lemma_join_nothing(acc);
    }
    Ok(wrapped("(", s.as_str(), ")"))
}

/// Writes the argument list of a declaration that follows the schema.
pub fn render_function_args(memberdef: &XmlNode, context: &mut Context) -> (html: String)
    requires
        function_args(memberdef@) is Some,
    ensures
        html@ == function_args(memberdef@)->0.html,
        final(context)@ == noted(old(context)@, function_args(memberdef@)->0),
{
    match try_render_function_args(memberdef, context) {
        Ok(html) => html,
        Err(_) => unreached(),
    }
}

} // verus!
