//! The transcoder at work. Each function here computes what the function of
//! the same construct in [`crate::markup`] says.

use vstd::prelude::*;
use vstd::string::*;
use crate::markup::{
    admonition, block, both, child_markup, code_line, common_indent, container, element, entry,
    fragment, highlight_from, indent_from, join, leading_spaces, left_of, line_indent, markup,
    member, nothing, param_item, param_names, plain, section, section_level, series, stripped,
    style_after, symbol, var_entry, wrap, Markup, Series, IMG_SCHEME, REF_SCHEME,
};
use crate::text::{
    capitalize_first_letter, count_leading, escape_html, find_char, from_chars, joined,
    parse_number, same, strings_of, to_chars, to_decimal, trim, wrapped, CharClass,
};
use crate::xml::{lemma_view, NodeExt, XmlNode};

verus! {

/// The input breaks the documentation schema.
#[derive(Debug, PartialEq, Eq)]
pub enum SchemaError {
    /// Something that the schema promises is missing or out of place.
    Malformed,
    /// A member is of a kind for which no signature is known.
    MemberKind {
        /// The kind as the document gives it.
        kind: String,
        /// The identifier of the member.
        ref_id: String,
    },
}

/// The mathematical content of a [`SchemaError`].
pub ghost enum Failure {
    Malformed,
    MemberKind { kind: Seq<char>, ref_id: Seq<char> },
}

impl View for SchemaError {
    type V = Failure;

    open spec fn view(&self) -> Failure {
        match *self {
            SchemaError::Malformed => Failure::Malformed,
            SchemaError::MemberKind { kind, ref_id } => Failure::MemberKind {
                kind: kind@,
                ref_id: ref_id@,
            },
        }
    }
}

/// What rich text that breaks the schema fails with.
pub open spec fn lift<V>(outcome: Option<V>) -> Result<V, Failure> {
    match outcome {
        Some(v) => Ok(v),
        None => Err(Failure::Malformed),
    }
}

/// What rendering has found so far in one document.
pub struct Context {
    /// Whether a formula was rendered.
    pub has_math: bool,
    /// The names of the elements that were passed over, in document order.
    pub unknown_tags: Vec<String>,
}

/// The mathematical content of a [`Context`].
pub ghost struct Notes {
    pub math: bool,
    pub unknown: Seq<Seq<char>>,
}

impl View for Context {
    type V = Notes;

    open spec fn view(&self) -> Notes {
        Notes { math: self.has_math, unknown: strings_of(self.unknown_tags@) }
    }
}

/// The notes after an outcome has been added to them.
pub open spec fn noted(before: Notes, m: Markup) -> Notes {
    Notes { math: before.math || m.math, unknown: before.unknown + m.unknown }
}

/// What a rendering function owes: on success the HTML of the expected
/// outcome, with its findings added to the notes; the failure `Malformed`
/// exactly when the tree breaks the schema.
pub open spec fn rendered(
    r: Result<String, SchemaError>,
    expected: Option<Markup>,
    before: Notes,
    after: Notes,
) -> bool {
    match r {
        Ok(s) => expected matches Some(m) && s@ == m.html && after == noted(before, m),
        Err(e) => expected is None && e@ == Failure::Malformed,
    }
}

/// Adding a piece to what was rendered before it.
pub proof fn lemma_both_step(acc: Markup, piece: Option<Markup>, rest: Option<Markup>)
    ensures
        both(Some(acc), both(piece, rest)) == match piece {
            Some(m) => both(Some(join(acc, m)), rest),
            None => None,
        },
{
    match (piece, rest) {
        (Some(m), Some(r)) => {
            assert(join(acc, join(m, r)).html =~= join(join(acc, m), r).html);
            assert(join(acc, join(m, r)).unknown =~= join(join(acc, m), r).unknown);
        },
        _ => {},
    }
}

/// The empty outcome changes nothing.
pub proof fn lemma_join_nothing(m: Markup)
    ensures
        join(m, nothing()) == m,
        join(nothing(), m) == m,
{
    assert(join(m, nothing()).html =~= m.html);
    assert(join(m, nothing()).unknown =~= m.unknown);
    assert(join(nothing(), m).html =~= m.html);
    assert(join(nothing(), m).unknown =~= m.unknown);
}

/// Noting two outcomes in turn is noting them joined.
pub proof fn lemma_noted_join(before: Notes, a: Markup, b: Markup)
    ensures
        noted(noted(before, a), b) == noted(before, join(a, b)),
{
    assert(noted(noted(before, a), b).unknown =~= noted(before, join(a, b)).unknown);
}

/// Fixed HTML leaves the notes as they were.
pub proof fn lemma_noted_plain(before: Notes, html: Seq<char>)
    ensures
        noted(before, plain(html)) == before,
{
    assert(noted(before, plain(html)).unknown =~= before.unknown);
}

/// How the children of an element are to be rendered in a row.
#[derive(Clone, Copy)]
enum SeriesKind {
    Content,
    Items,
    Rows,
    Cells,
    Parameters { table: bool },
    Variables,
    Lines { dedent: Option<u128> },
}

impl View for SeriesKind {
    type V = Series;

    closed spec fn view(&self) -> Series {
        match *self {
            SeriesKind::Content => Series::Content,
            SeriesKind::Items => Series::Items,
            SeriesKind::Rows => Series::Rows,
            SeriesKind::Cells => Series::Cells,
            SeriesKind::Parameters { table } => Series::Parameters { table },
            SeriesKind::Variables => Series::Variables,
            SeriesKind::Lines { dedent } => Series::Lines { dedent: strip_of(dedent) },
        }
    }
}

impl Context {
    /// Notes that hold nothing yet.
    pub fn new() -> (c: Context)
        ensures
            c@ == (Notes { math: false, unknown: Seq::empty() }),
    {
        let c = Context { has_math: false, unknown_tags: Vec::new() };
        assert(c@.unknown =~= Seq::empty());
        c
    }
}

/// Transcoding is deterministic: two renderings of trees with the same
/// content, started with the same notes, end the same way. Both fail, or
/// both give the same HTML and leave the same notes.
pub proof fn lemma_transcoding_deterministic(
    a: XmlNode,
    b: XmlNode,
    before: Notes,
    first: Result<String, SchemaError>,
    after_first: Notes,
    second: Result<String, SchemaError>,
    after_second: Notes,
)
    requires
        a@ == b@,
        rendered(first, markup(a@), before, after_first),
        rendered(second, markup(b@), before, after_second),
    ensures
        first is Ok <==> second is Ok,
        first is Ok ==> first->Ok_0@ == second->Ok_0@ && after_first == after_second,
{
}

/// Renders the content of `node`: every child in turn. Finding a formula
/// sets `has_math`; an element outside the schema is passed over and its
/// name is added to `unknown_tags`. A tree that breaks the schema is
/// answered with the failure.
pub fn try_parse_text(node: &XmlNode, context: &mut Context) -> (r: Result<String, SchemaError>)
    ensures
        rendered(r, markup(node@), old(context)@, final(context)@),
    decreases node, 3int,
{
    render_series(SeriesKind::Content, node, 0, context)
}

/// Renders the content of a node that follows the schema: every child in
/// turn. Finding a formula sets `has_math`; an element outside the schema
/// is passed over and its name is added to `unknown_tags`. A tree that may
/// break the schema is rendered by `try_parse_text`.
pub fn parse_text(node: &XmlNode, context: &mut Context) -> (html: String)
    requires
        markup(node@) is Some,
    ensures
        html@ == markup(node@)->0.html,
        final(context)@ == noted(old(context)@, markup(node@)->0),
{
    match try_parse_text(node, context) {
        Ok(html) => html,
        Err(_) => unreached(),
    }
}

fn render_series(kind: SeriesKind, parent: &XmlNode, from: usize, context: &mut Context) -> (r:
    Result<String, SchemaError>)
    requires
        from <= parent.children.len(),
    ensures
        rendered(
            r,
            series(kind@, parent@.children, from as int),
            old(context)@,
            final(context)@,
        ),
    decreases parent, 2int,
{
    let ghost cs = parent@.children;
    let ghost before = context@;
    let ghost total = series(kind@, cs, from as int);
    let ghost mut acc = nothing();
    let mut out = String::new();
    let mut i: usize = from;
    proof {
        lemma_view(*parent);
        lemma_noted_plain(before, Seq::empty());
        match total {
            Some(t) => {
                lemma_join_nothing(t);
            },
            None => {},
        }
    }
    while i < parent.children.len()
        invariant
            from <= i <= parent.children.len(),
            cs == parent@.children,
            cs.len() == parent.children.len(),
            total == series(kind@, cs, from as int),
            total == both(Some(acc), series(kind@, cs, i as int)),
            out@ == acc.html,
            context@ == noted(before, acc),
        decreases parent.children.len() - i,
    {
        proof {
            lemma_both_step(acc, member(kind@, cs, i as int), series(kind@, cs, i + 1));
        }
        match render_member(kind, parent, i, context) {
            Ok(piece) => {
                proof {
                    let m = member(kind@, cs, i as int)->0;
                    lemma_noted_join(before, acc, m);
                    acc = join(acc, m);
                }
                out.append(piece.as_str());
            },
            Err(e) => {
                return Err(e);
            },
        }
        i += 1;
    }
    proof {
        lemma_join_nothing(acc);
    }
    Ok(out)
}

fn render_member(kind: SeriesKind, parent: &XmlNode, i: usize, context: &mut Context) -> (r:
    Result<String, SchemaError>)
    requires
        i < parent.children.len(),
    ensures
        rendered(r, member(kind@, parent@.children, i as int), old(context)@, final(context)@),
    decreases parent, 1int,
{
    let c = &parent.children[i];
    proof {
        lemma_view(*parent);
        lemma_noted_plain(context@, Seq::empty());
    }
    match kind {
        SeriesKind::Content => render_fragment(parent, i, context),
        SeriesKind::Items => {
            if c.named("listitem") {
                render_wrapped("<li>", c, "</li>", context)
            } else {
                Ok(String::new())
            }
        },
        SeriesKind::Rows => {
            if c.named("row") {
                let cells = render_series(SeriesKind::Cells, c, 0, context)?;
                Ok(wrapped("<tr>", cells.as_str(), "</tr>"))
            } else {
                Ok(String::new())
            }
        },
        SeriesKind::Cells => {
            if c.named("entry") {
                render_entry(c, context)
            } else {
                Ok(String::new())
            }
        },
        SeriesKind::Parameters { table } => {
            if c.named("parameteritem") {
                render_param_item(c, table, context)
            } else {
                Ok(String::new())
            }
        },
        SeriesKind::Variables => render_var_entry(c, context),
        SeriesKind::Lines { dedent } => {
            if c.named("codeline") {
                render_code_line(c, dedent, context)
            } else {
                Ok(String::new())
            }
        },
    }
}

/// The style annotation that the node after the image at `i` carries.
fn read_style(parent: &XmlNode, i: usize) -> (r: Option<(String, usize)>)
    requires
        i < parent.children.len(),
    ensures
        match r {
            Some((style, taken)) => style_after(parent@.children, i as int) == Some(
                (style@, taken as nat),
            ) && taken <= parent.children[i + 1].text@.len(),
            None => style_after(parent@.children, i as int) is None,
        },
{
    proof {
        lemma_view(*parent);
    }
    if i + 1 >= parent.children.len() {
        return None;
    }
    let next = &parent.children[i + 1];
    proof {
        lemma_view(*next);
    }
    if !next.is_text() {
        return None;
    }
    let tail = to_chars(next.text.as_str());
    assert(tail@.skip(0) =~= tail@);
    let lead = count_leading(&tail, 0, CharClass::Space);
    if lead < tail.len() && tail[lead] == '{' {
        match find_char(&tail, '}', lead) {
            Some(end) => {
                let style = from_chars(&tail, lead + 1, end);
                Some((style, end + 1))
            },
            None => None,
        }
    } else {
        None
    }
}

fn render_fragment(parent: &XmlNode, i: usize, context: &mut Context) -> (r: Result<
    String,
    SchemaError,
>)
    requires
        i < parent.children.len(),
    ensures
        rendered(r, fragment(parent@.children, i as int), old(context)@, final(context)@),
    decreases parent, 0int,
{
    let c = &parent.children[i];
    proof {
        lemma_view(*parent);
        lemma_view(*c);
        lemma_noted_plain(context@, Seq::empty());
    }
    if c.is_text() {
        let skip = if i > 0 && parent.children[i - 1].named("image") {
            match read_style(parent, i - 1) {
                Some((_, taken)) => taken,
                None => 0,
            }
        } else {
            0
        };
        let text = c.text.as_str();
        let shown = text.substring_char(skip, text.unicode_len());
        assert(shown@ =~= c@.text.skip(skip as int));
        let html = escape_html(shown);
        proof {
            lemma_noted_plain(context@, html@);
        }
        Ok(html)
    } else if c.named("image") {
        match c.attribute("name") {
            Some(path) => {
                let style = match read_style(parent, i) {
                    Some((s, _)) => wrapped(" style=\"", s.as_str(), "\""),
                    None => String::new(),
                };
                let mut html = "<img src=\"".to_owned();
                html.append(IMG_SCHEME);
                html.append(path);
                html.append("\"");
                html.append(style.as_str());
                html.append(">");
                proof {
                    lemma_noted_plain(context@, html@);
                }
                Ok(html)
            },
            None => Err(SchemaError::Malformed),
        }
    } else {
        render_element(c, context)
    }
}

/// Renders the content of `c` between `open` and `close`.
pub fn render_wrapped(open: &str, c: &XmlNode, close: &str, context: &mut Context) -> (r: Result<
    String,
    SchemaError,
>)
    ensures
        rendered(r, wrap(open@, markup(c@), close@), old(context)@, final(context)@),
    decreases c, 4int,
{
    let inner = try_parse_text(c, context)?;
    Ok(wrapped(open, inner.as_str(), close))
}

/// Renders the content of the only child of `c` called `tag`.
pub fn render_child(c: &XmlNode, tag: &str, context: &mut Context) -> (r: Result<String, SchemaError>)
    ensures
        rendered(r, child_markup(c@, tag@), old(context)@, final(context)@),
    decreases c, 4int,
{
    proof {
        lemma_view(*c);
    }
    match c.child_index(tag) {
        Some(k) => try_parse_text(&c.children[k], context),
        None => Err(SchemaError::Malformed),
    }
}

fn symbol_html(tag: &str) -> (r: Option<String>)
    ensures
        match r {
            Some(s) => symbol(tag@) == Some(s@),
            None => symbol(tag@) is None,
        },
{
    if same(tag, "linebreak") {
        Some("<br/>".to_owned())
    } else if same(tag, "hruler") {
        Some("<hr/>".to_owned())
    } else if same(tag, "sp") || same(tag, "nonbreakablespace") {
        Some("&nbsp;".to_owned())
    } else if same(tag, "deg") || same(tag, "ndash") || same(tag, "mdash") || same(tag, "zwj") {
        Some(wrapped("&", tag, ";"))
    } else if same(tag, "title") {
        Some(String::new())
    } else {
        None
    }
}

fn container_tags(tag: &str) -> (r: Option<(&'static str, &'static str)>)
    ensures
        match r {
            Some((open, close)) => container(tag@) == Some((open@, close@)),
            None => container(tag@) is None,
        },
{
    if same(tag, "para") {
        Some(("<p>", "</p>"))
    } else if same(tag, "bold") {
        Some(("<bold>", "</bold>"))
    } else if same(tag, "emphasis") {
        Some(("<em>", "</em>"))
    } else if same(tag, "verbatim") || same(tag, "preformatted") {
        Some(("<pre>", "</pre>"))
    } else if same(tag, "computeroutput") {
        Some(("<tt>", "</tt>"))
    } else if same(tag, "superscript") {
        Some(("<sup>", "</sup>"))
    } else if same(tag, "subscript") {
        Some(("<sub>", "</sub>"))
    } else {
        None
    }
}

fn section_digit(tag: &str) -> (r: Option<&'static str>)
    ensures
        match r {
            Some(level) => section_level(tag@) == Some(level@),
            None => section_level(tag@) is None,
        },
{
    if same(tag, "sect1") {
        Some("2")
    } else if same(tag, "sect2") {
        Some("3")
    } else if same(tag, "sect3") {
        Some("4")
    } else if same(tag, "sect4") {
        Some("5")
    } else if same(tag, "sect5") {
        Some("6")
    } else {
        None
    }
}

fn admonition_html(kind: &str, body: &str) -> (r: String)
    ensures
        forall|m: Markup| m.html == body@ ==> r@ == (#[trigger] admonition(kind@, m)).html,
{
    if same(kind, "warning") || same(kind, "attention") {
        let open = wrapped("<div class=\"alert ", "alert-warning", "\">");
        wrapped(open.as_str(), body, "</div>")
    } else if same(kind, "info") || same(kind, "note") || same(kind, "remark") {
        let open = wrapped("<div class=\"alert ", "alert-info", "\">");
        wrapped(open.as_str(), body, "</div>")
    } else {
        let label = if same(kind, "return") {
            "Returns".to_owned()
        } else {
            capitalize_first_letter(kind)
        };
        let open = wrapped("<dl><dt>", label.as_str(), "</dt><dd>");
        wrapped(open.as_str(), body, "</dd></dl>")
    }
}

fn render_element(c: &XmlNode, context: &mut Context) -> (r: Result<String, SchemaError>)
    ensures
        rendered(r, element(c@), old(context)@, final(context)@),
    decreases c, 6int,
{
    proof {
        lemma_view(*c);
        lemma_noted_plain(context@, Seq::empty());
    }
    let tag = c.tag.as_str();
    if let Some(html) = symbol_html(tag) {
        proof {
            lemma_noted_plain(context@, html@);
        }
        return Ok(html);
    }
    if let Some((open, close)) = container_tags(tag) {
        return render_wrapped(open, c, close, context);
    }
    if same(tag, "simplesect") {
        let kind = match c.attribute("kind") {
            Some(kind) => kind,
            None => {
                return Err(SchemaError::Malformed);
            },
        };
        let body = render_child(c, "para", context)?;
        Ok(admonition_html(kind, body.as_str()))
    } else if same(tag, "blockquote") {
        let body = render_child(c, "para", context)?;
        Ok(wrapped("<blockquote>", body.as_str(), "</blockquote>"))
    } else if same(tag, "ref") {
        match (c.attribute("refid"), c.text_value()) {
            (Some(id), Some(label)) => {
                let mut html = "<a href=\"".to_owned();
                html.append(REF_SCHEME);
                html.append(id);
                html.append("\">");
                html.append(label);
                html.append("</a>");
                proof {
                    lemma_noted_plain(context@, html@);
                }
                Ok(html)
            },
            _ => Err(SchemaError::Malformed),
        }
    } else if same(tag, "ulink") {
        match c.attribute("url") {
            Some(url) => {
                let open = wrapped("<a href=\"", url, "\">");
                render_wrapped(open.as_str(), c, "</a>", context)
            },
            None => Err(SchemaError::Malformed),
        }
    } else if same(tag, "xrefsect") {
        match c.get_child_value("xreftitle") {
            Some(title) => {
                let open = wrapped("<div class=\"alert alert-danger\"><h5>", title, "</h5>");
                let body = render_child(c, "xrefdescription", context)?;
                Ok(wrapped(open.as_str(), body.as_str(), "</div>"))
            },
            None => Err(SchemaError::Malformed),
        }
    } else if same(tag, "highlight") {
        match c.attribute("class") {
            Some(class) => {
                let open = wrapped("<span class=\"highlight-", class, "\">");
                render_wrapped(open.as_str(), c, "</span>", context)
            },
            None => Err(SchemaError::Malformed),
        }
    } else if same(tag, "anchor") {
        match c.attribute("id") {
            Some(id) => {
                let html = wrapped("<a name=\"", id, "\"></a>");
                proof {
                    lemma_noted_plain(context@, html@);
                }
                Ok(html)
            },
            None => Err(SchemaError::Malformed),
        }
    } else if same(tag, "formula") {
        match c.text_value() {
            Some(t) => {
                let formula = trim(t, CharClass::Dollar);
                let html = wrapped("\\(", formula.as_str(), "\\)");
                let ghost before = context@;
                context.has_math = true;
                proof {
                    let m = Markup { html: html@, math: true, unknown: Seq::empty() };
                    assert(context@.unknown =~= noted(before, m).unknown);
                }
                Ok(html)
            },
            None => Err(SchemaError::Malformed),
        }
    } else if same(tag, "htmlonly") {
        match &c.verbatim {
            Some(source) => {
                proof {
                    lemma_noted_plain(context@, source@);
                }
                Ok(source.clone())
            },
            None => Err(SchemaError::Malformed),
        }
    } else if same(tag, "heading") {
        match c.attribute("level") {
            Some(text) => match parse_number(text) {
                Some(level) => {
                    let digits = to_decimal(level);
                    let open = wrapped("<h", digits.as_str(), ">");
                    let close = wrapped("</h", digits.as_str(), ">");
                    render_wrapped(open.as_str(), c, close.as_str(), context)
                },
                None => Err(SchemaError::Malformed),
            },
            None => Err(SchemaError::Malformed),
        }
    } else if let Some(level) = section_digit(tag) {
        render_section(c, level, context)
    } else {
        render_block(c, context)
    }
}

fn render_section(c: &XmlNode, level: &str, context: &mut Context) -> (r: Result<
    String,
    SchemaError,
>)
    ensures
        rendered(r, section(c@, level@), old(context)@, final(context)@),
    decreases c, 5int,
{
    proof {
        lemma_view(*c);
    }
    let ghost before = context@;
    match (c.find_child("title", 0), c.attribute("id")) {
        (Some(k), Some(id)) => {
            let mut open = wrapped("<a name=\"", id, "\"></a>");
            let heading = wrapped("<h", level, ">");
            open.append(heading.as_str());
            let close = wrapped("</h", level, ">");
            let mut html = render_wrapped(open.as_str(), &c.children[k], close.as_str(), context)?;
            let ghost first = wrap(open@, markup(c@.children[k as int]), close@)->0;
            let body = try_parse_text(c, context)?;
            html.append(body.as_str());
            proof {
                lemma_noted_join(before, first, markup(c@)->0);
            }
            Ok(html)
        },
        _ => Err(SchemaError::Malformed),
    }
}

/// The least indentation of the lines of a listing that are not blank.
fn count_indent(listing: &XmlNode) -> (r: Option<u128>)
    ensures
        match r {
            Some(n) => common_indent(listing@.children, 0) == Some(n as nat),
            None => common_indent(listing@.children, 0) is None,
        },
{
    let ghost cs = listing@.children;
    proof {
        lemma_view(*listing);
    }
    let mut best: Option<u128> = None;
    let mut i: usize = listing.children.len();
    while i > 0
        invariant
            i <= listing.children.len(),
            cs == listing@.children,
            cs.len() == listing.children.len(),
            forall|k: int| 0 <= k < cs.len() ==> cs[k] == (#[trigger] listing.children@[k])@,
            match best {
                Some(n) => common_indent(cs, i as int) == Some(n as nat),
                None => common_indent(cs, i as int) is None,
            },
        decreases i,
    {
        i -= 1;
        let line = &listing.children[i];
        if line.named("codeline") {
            match (indent_of(line), best) {
                (Some(a), Some(b)) => {
                    if a < b {
                        best = Some(a);
                    }
                },
                (Some(a), None) => {
                    best = Some(a);
                },
                (None, _) => {},
            }
        }
    }
    best
}

/// How many whitespace tokens a run starts with.
fn count_spaces(run: &XmlNode) -> (n: usize)
    ensures
        n == leading_spaces(run@.children, 0),
        n <= run.children.len(),
{
    let ghost tokens = run@.children;
    proof {
        lemma_view(*run);
    }
    let mut i: usize = 0;
    while i < run.children.len() && run.children[i].named("sp")
        invariant
            i <= run.children.len(),
            tokens == run@.children,
            tokens.len() == run.children.len(),
            forall|j: int| 0 <= j < tokens.len() ==> tokens[j] == (#[trigger] run.children@[j])@,
            leading_spaces(tokens, 0) == i + leading_spaces(tokens, i as int),
        decreases run.children.len() - i,
    {
        i += 1;
    }
    i
}

/// The indentation of one code line; nothing for a blank line.
fn indent_of(line: &XmlNode) -> (r: Option<u128>)
    ensures
        match r {
            Some(n) => line_indent(line@) == Some(n as nat),
            None => line_indent(line@) is None,
        },
{
    let ghost runs = line@.children;
    proof {
        lemma_view(*line);
    }
    let mut total: u128 = 0;
    let mut i: usize = 0;
    while i < line.children.len()
        invariant
            i <= line.children.len(),
            runs == line@.children,
            runs.len() == line.children.len(),
            forall|j: int| 0 <= j < runs.len() ==> runs[j] == (#[trigger] line.children@[j])@,
            total <= i * 0xFFFF_FFFF_FFFF_FFFF,
            line_indent(line@) == match indent_from(runs, i as int) {
                Some(m) => Some((m + total) as nat),
                None => None,
            },
        decreases line.children.len() - i,
    {
        let run = &line.children[i];
        if !run.named("highlight") {
            return Some(total);
        }
        let n = count_spaces(run);
        if n < run.children.len() {
            return Some(total + n as u128);
        }
        total = total + n as u128;
        i += 1;
    }
    None
}

/// Whether something is still to be taken away.
fn strips(left: Option<u128>) -> (r: bool)
    ensures
        r == (strip_of(left) != Some(0nat)),
{
    match left {
        Some(n) => n > 0,
        None => true,
    }
}

/// The number of units to take away, as a natural number.
pub open spec fn strip_of(left: Option<u128>) -> Option<nat> {
    match left {
        Some(n) => Some(n as nat),
        None => None,
    }
}

fn render_highlight_from(run: &XmlNode, cut: usize, context: &mut Context) -> (r: Result<
    String,
    SchemaError,
>)
    requires
        cut <= run.children.len(),
    ensures
        rendered(r, highlight_from(run@, cut as int), old(context)@, final(context)@),
    decreases run, 4int,
{
    match run.attribute("class") {
        Some(class) => {
            let open = wrapped("<span class=\"highlight-", class, "\">");
            let inner = render_series(SeriesKind::Content, run, cut, context)?;
            Ok(wrapped(open.as_str(), inner.as_str(), "</span>"))
        },
        None => Err(SchemaError::Malformed),
    }
}

fn render_code_line(line: &XmlNode, dedent: Option<u128>, context: &mut Context) -> (r: Result<
    String,
    SchemaError,
>)
    ensures
        rendered(r, code_line(line@, strip_of(dedent)), old(context)@, final(context)@),
    decreases line, 5int,
{
    let ghost runs = line@.children;
    let ghost before = context@;
    let ghost total = stripped(runs, 0, strip_of(dedent));
    let ghost mut acc = nothing();
    proof {
        lemma_view(*line);
        lemma_noted_plain(before, Seq::empty());
        match total {
            Some(t) => {
                lemma_join_nothing(t);
            },
            None => {},
        }
    }
    let mut out = String::new();
    let mut left = dedent;
    let mut i: usize = 0;
    while i < line.children.len() && strips(left) && line.children[i].named("highlight")
        invariant
            i <= line.children.len(),
            runs == line@.children,
            runs.len() == line.children.len(),
            forall|j: int| 0 <= j < runs.len() ==> runs[j] == (#[trigger] line.children@[j])@,
            before == old(context)@,
            total == stripped(runs, 0, strip_of(dedent)),
            total == both(Some(acc), stripped(runs, i as int, strip_of(left))),
            out@ == acc.html,
            context@ == noted(before, acc),
        decreases line.children.len() - i,
    {
        let run = &line.children[i];
        let lead = count_spaces(run);
        let cut: usize = match left {
            Some(n) => if n < lead as u128 {
                n as usize
            } else {
                lead
            },
            None => lead,
        };
        let whole = cut == run.children.len();
        let ghost rest = if whole {
            stripped(runs, i + 1, left_of(strip_of(left), cut as nat))
        } else {
            series(Series::Content, runs, i + 1)
        };
        proof {
            lemma_both_step(acc, highlight_from(run@, cut as int), rest);
        }
        let piece = render_highlight_from(run, cut, context)?;
        proof {
            let m = highlight_from(run@, cut as int)->0;
            lemma_noted_join(before, acc, m);
            acc = join(acc, m);
        }
        out.append(piece.as_str());
        i += 1;
        if whole {
            left = match left {
                Some(n) => Some(n - cut as u128),
                None => None,
            };
        } else {
            let ghost sofar = acc;
            let tail = render_series(SeriesKind::Content, line, i, context)?;
            proof {
                let m = series(Series::Content, runs, i as int)->0;
                lemma_noted_join(before, sofar, m);
            }
            out.append(tail.as_str());
            out.append("<br/>");
            return Ok(out);
        }
    }
    let ghost sofar = acc;
    let tail = render_series(SeriesKind::Content, line, i, context)?;
    proof {
        let m = series(Series::Content, runs, i as int)->0;
        lemma_noted_join(before, sofar, m);
    }
    out.append(tail.as_str());
    out.append("<br/>");
    Ok(out)
}

fn render_entry(e: &XmlNode, context: &mut Context) -> (r: Result<String, SchemaError>)
    ensures
        rendered(r, entry(e@), old(context)@, final(context)@),
    decreases e, 5int,
{
    match e.attribute("thead") {
        Some(v) => {
            if same(v, "yes") {
                render_wrapped("<th>", e, "</th>", context)
            } else {
                render_wrapped("<td>", e, "</td>", context)
            }
        },
        None => Err(SchemaError::Malformed),
    }
}

/// The names of a parameter entry, separated by commas.
fn join_names(list: &XmlNode) -> (r: String)
    ensures
        r@ == joined(param_names(list@.children, 0), ", "@),
{
    let ghost cs = list@.children;
    let ghost mut names: Seq<Seq<char>> = Seq::empty();
    proof {
        lemma_view(*list);
    }
    let mut out = String::new();
    let mut first = true;
    let mut i: usize = 0;
    assert(names + param_names(cs, 0) =~= param_names(cs, 0));
    while i < list.children.len()
        invariant
            i <= list.children.len(),
            cs == list@.children,
            cs.len() == list.children.len(),
            forall|k: int| 0 <= k < cs.len() ==> cs[k] == (#[trigger] list.children@[k])@,
            param_names(cs, 0) == names + param_names(cs, i as int),
            out@ == joined(names, ", "@),
            first == (names.len() == 0),
        decreases list.children.len() - i,
    {
        let c = &list.children[i];
        if c.named("parametername") {
            match c.text_value() {
                Some(name) => {
                    proof {
                        let longer = names.push(name@);
                        assert(longer.drop_last() =~= names);
                        assert(longer + param_names(cs, i + 1) =~= names + (seq![name@]
                            + param_names(cs, i + 1)));
                        names = longer;
                    }
                    if first {
                        out = name.to_owned();
                        first = false;
                    } else {
                        out.append(", ");
                        out.append(name);
                    }
                },
                None => {},
            }
        }
        i += 1;
    }
    assert(names + param_names(cs, i as int) =~= names);
    out
}

fn render_param_item(item: &XmlNode, table: bool, context: &mut Context) -> (r: Result<
    String,
    SchemaError,
>)
    ensures
        rendered(r, param_item(item@, table), old(context)@, final(context)@),
    decreases item, 5int,
{
    proof {
        lemma_view(*item);
        lemma_noted_plain(context@, Seq::empty());
    }
    match item.child_index("parameternamelist") {
        Some(k) => {
            let names = join_names(&item.children[k]);
            if names.as_str().is_empty() {
                return Ok(String::new());
            }
            let description = render_child(item, "parameterdescription", context)?;
            let name = escape_html(names.as_str());
            if table {
                let open = wrapped(
                    "<tr><td><span class=\"declname\">",
                    name.as_str(),
                    ":</span></td><td>",
                );
                Ok(wrapped(open.as_str(), description.as_str(), "</td></tr>"))
            } else {
                let open = wrapped(
                    "<dt>Throws <span class=\"declname\">",
                    name.as_str(),
                    ":</span></dt><dd>",
                );
                Ok(wrapped(open.as_str(), description.as_str(), "</dd>"))
            }
        },
        None => Err(SchemaError::Malformed),
    }
}

fn render_var_entry(e: &XmlNode, context: &mut Context) -> (r: Result<String, SchemaError>)
    ensures
        rendered(r, var_entry(e@), old(context)@, final(context)@),
    decreases e, 5int,
{
    proof {
        lemma_noted_plain(context@, Seq::empty());
    }
    if e.named("varlistentry") {
        let term = render_child(e, "term", context)?;
        Ok(wrapped("<dt>", term.as_str(), "</dt>"))
    } else if e.named("listitem") {
        render_wrapped("<dd>", e, "</dd>", context)
    } else if e.is_text() {
        Ok(String::new())
    } else {
        Err(SchemaError::Malformed)
    }
}

fn render_block(c: &XmlNode, context: &mut Context) -> (r: Result<String, SchemaError>)
    ensures
        rendered(r, block(c@), old(context)@, final(context)@),
    decreases c, 5int,
{
    proof {
        lemma_view(*c);
    }
    let tag = c.tag.as_str();
    if same(tag, "parameterlist") {
        match c.attribute("kind") {
            Some(kind) => {
                if same(kind, "param") || same(kind, "templateparam") {
                    let items = render_series(SeriesKind::Parameters { table: true }, c, 0, context)?;
                    Ok(wrapped("<table class=\"parameterlist\">", items.as_str(), "</table>"))
                } else if same(kind, "exception") {
                    let items = render_series(SeriesKind::Parameters { table: false }, c, 0, context)?;
                    Ok(wrapped("<dl class=\"parameterlist\">", items.as_str(), "</dl>"))
                } else {
                    Err(SchemaError::Malformed)
                }
            },
            None => Err(SchemaError::Malformed),
        }
    } else if same(tag, "itemizedlist") {
        let items = render_series(SeriesKind::Items, c, 0, context)?;
        Ok(wrapped("<ul>", items.as_str(), "</ul>"))
    } else if same(tag, "orderedlist") {
        let items = render_series(SeriesKind::Items, c, 0, context)?;
        Ok(wrapped("<ol>", items.as_str(), "</ol>"))
    } else if same(tag, "table") {
        let rows = render_series(SeriesKind::Rows, c, 0, context)?;
        Ok(wrapped("<table>", rows.as_str(), "</table>"))
    } else if same(tag, "programlisting") {
        let dedent = count_indent(c);
        let lines = render_series(SeriesKind::Lines { dedent }, c, 0, context)?;
        Ok(wrapped("<pre class=\"programlisting\">", lines.as_str(), "</pre>"))
    } else if same(tag, "variablelist") {
        let entries = render_series(SeriesKind::Variables, c, 0, context)?;
        Ok(wrapped("<dl class=\"variablelist\">", entries.as_str(), "</dl>"))
    } else {
        let ghost before = context@;
        context.unknown_tags.push(c.tag.clone());
        proof {
            let m = Markup { html: Seq::empty(), math: false, unknown: seq![c@.tag] };
            assert(context@.unknown =~= noted(before, m).unknown);
        }
        Ok(String::new())
    }
}

} // verus!
