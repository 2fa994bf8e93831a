//! The markup transcoder: what a rich-text tree of the documentation schema
//! becomes in HTML.
//!
//! This module says, as a function of the tree alone, which HTML each
//! construct yields, whether a formula was met and which elements were
//! passed over. `try_parse_text` computes exactly that.

use vstd::prelude::*;
use vstd::string::*;
use crate::text::{
    capitalized, decimal, escaped, first_char, joined, leading, number_of, trimmed, CharClass,
};
use crate::xml::{attribute, child_value, first_tagged, is_text, only_tagged, text_of, XmlTree};

verus! {

/// The outcome of rendering a piece of rich text.
pub ghost struct Markup {
    /// The HTML fragment.
    pub html: Seq<char>,
    /// Whether a formula was rendered.
    pub math: bool,
    /// The names of the elements that were passed over, in document order.
    pub unknown: Seq<Seq<char>>,
}

/// A fragment of fixed HTML.
pub open spec fn plain(html: Seq<char>) -> Markup {
    Markup { html, math: false, unknown: Seq::empty() }
}

/// Two outcomes, one after the other.
pub open spec fn join(a: Markup, b: Markup) -> Markup {
    Markup { html: a.html + b.html, math: a.math || b.math, unknown: a.unknown + b.unknown }
}

/// Two renderings, one after the other; a failure of either fails both.
pub open spec fn both(a: Option<Markup>, b: Option<Markup>) -> Option<Markup> {
    match (a, b) {
        (Some(x), Some(y)) => Some(join(x, y)),
        _ => None,
    }
}

/// An outcome between an opening and a closing piece of HTML.
pub open spec fn enclose(open: Seq<char>, m: Markup, close: Seq<char>) -> Markup {
    Markup { html: open + m.html + close, math: m.math, unknown: m.unknown }
}

/// A rendering between an opening and a closing piece of HTML.
pub open spec fn wrap(open: Seq<char>, m: Option<Markup>, close: Seq<char>) -> Option<Markup> {
    match m {
        Some(m) => Some(enclose(open, m, close)),
        None => None,
    }
}

/// The scheme under which a cross-reference is left for later resolution.
pub const REF_SCHEME: &'static str = "placeholder-ref://";

/// The scheme under which an image reference is left for later resolution.
pub const IMG_SCHEME: &'static str = "placeholder-img://";

/// The scheme under which a cross-reference is left for later resolution.
pub open spec fn ref_scheme() -> Seq<char> {
    REF_SCHEME@
}

/// The scheme under which an image reference is left for later resolution.
pub open spec fn img_scheme() -> Seq<char> {
    IMG_SCHEME@
}

/// Elements that stand for a fixed piece of HTML.
pub open spec fn symbol(tag: Seq<char>) -> Option<Seq<char>> {
    if tag == "linebreak"@ {
        Some("<br/>"@)
    } else if tag == "hruler"@ {
        Some("<hr/>"@)
    } else if tag == "sp"@ || tag == "nonbreakablespace"@ {
        Some("&nbsp;"@)
    } else if tag == "deg"@ || tag == "ndash"@ || tag == "mdash"@ || tag == "zwj"@ {
        Some("&"@ + tag + ";"@)
    } else if tag == "title"@ {
        Some(Seq::empty())
    } else {
        None
    }
}

/// Elements whose content is rendered between a pair of HTML tags.
pub open spec fn container(tag: Seq<char>) -> Option<(Seq<char>, Seq<char>)> {
    if tag == "para"@ {
        Some(("<p>"@, "</p>"@))
    } else if tag == "bold"@ {
        Some(("<bold>"@, "</bold>"@))
    } else if tag == "emphasis"@ {
        Some(("<em>"@, "</em>"@))
    } else if tag == "verbatim"@ || tag == "preformatted"@ {
        Some(("<pre>"@, "</pre>"@))
    } else if tag == "computeroutput"@ {
        Some(("<tt>"@, "</tt>"@))
    } else if tag == "superscript"@ {
        Some(("<sup>"@, "</sup>"@))
    } else if tag == "subscript"@ {
        Some(("<sub>"@, "</sub>"@))
    } else {
        None
    }
}

/// The visual class of an admonition that is shown as an alert box.
pub open spec fn alert_class(kind: Seq<char>) -> Option<Seq<char>> {
    if kind == "warning"@ || kind == "attention"@ {
        Some("alert-warning"@)
    } else if kind == "info"@ || kind == "note"@ || kind == "remark"@ {
        Some("alert-info"@)
    } else {
        None
    }
}

/// The heading of an admonition that is shown as a definition.
pub open spec fn kind_label(kind: Seq<char>) -> Seq<char> {
    if kind == "return"@ {
        "Returns"@
    } else {
        capitalized(kind)
    }
}

/// An admonition of the given kind around its rendered paragraph.
pub open spec fn admonition(kind: Seq<char>, body: Markup) -> Markup {
    match alert_class(kind) {
        Some(css) => enclose("<div class=\"alert "@ + css + "\">"@, body, "</div>"@),
        None => enclose("<dl><dt>"@ + kind_label(kind) + "</dt><dd>"@, body, "</dd></dl>"@),
    }
}

/// Whether a parameter list of this kind is laid out as a table (`true`) or
/// as a definition list (`false`).
pub open spec fn param_layout(kind: Seq<char>) -> Option<bool> {
    if kind == "param"@ || kind == "templateparam"@ {
        Some(true)
    } else if kind == "exception"@ {
        Some(false)
    } else {
        None
    }
}

/// One entry of a parameter list: the escaped names and the description.
pub open spec fn param_row(names: Seq<char>, description: Markup, table: bool) -> Markup {
    if table {
        enclose(
            "<tr><td><span class=\"declname\">"@ + names + ":</span></td><td>"@,
            description,
            "</td></tr>"@,
        )
    } else {
        enclose(
            "<dt>Throws <span class=\"declname\">"@ + names + ":</span></dt><dd>"@,
            description,
            "</dd>"@,
        )
    }
}

/// The texts of the `parametername` elements among `cs[from..]` that have
/// one.
pub open spec fn param_names(cs: Seq<XmlTree>, from: int) -> Seq<Seq<char>>
    decreases cs.len() - from,
{
    if from < 0 || from >= cs.len() {
        Seq::empty()
    } else if cs[from].tag == "parametername"@ && text_of(cs[from]) is Some {
        seq![text_of(cs[from])->0] + param_names(cs, from + 1)
    } else {
        param_names(cs, from + 1)
    }
}

/// The heading level of a section element.
pub open spec fn section_level(tag: Seq<char>) -> Option<Seq<char>> {
    if tag == "sect1"@ {
        Some("2"@)
    } else if tag == "sect2"@ {
        Some("3"@)
    } else if tag == "sect3"@ {
        Some("4"@)
    } else if tag == "sect4"@ {
        Some("5"@)
    } else if tag == "sect5"@ {
        Some("6"@)
    } else {
        None
    }
}

/// The opening tag of a heading.
pub open spec fn heading_open(level: Seq<char>) -> Seq<char> {
    "<h"@ + level + ">"@
}

/// The closing tag of a heading.
pub open spec fn heading_close(level: Seq<char>) -> Seq<char> {
    "</h"@ + level + ">"@
}

/// The inline style that may follow an image: after optional white space, a
/// brace, the style, and the first closing brace. Gives the style and the
/// number of characters that the annotation takes.
pub open spec fn style_note(tail: Seq<char>) -> Option<(Seq<char>, nat)> {
    let lead = leading(tail, CharClass::Space);
    if lead < tail.len() && tail[lead as int] == '{' {
        match first_char(tail, '}', lead as int) {
            Some(end) => Some((tail.subrange(lead as int + 1, end), (end + 1) as nat)),
            None => None,
        }
    } else {
        None
    }
}

/// The style annotation that the node after position `i` carries for an
/// image at `i`.
pub open spec fn style_after(cs: Seq<XmlTree>, i: int) -> Option<(Seq<char>, nat)> {
    if 0 <= i && i + 1 < cs.len() && is_text(cs[i + 1]) {
        style_note(cs[i + 1].text)
    } else {
        None
    }
}

/// How many leading characters of the text node at `i` belong to the style
/// annotation of an image just before it.
pub open spec fn style_skip(cs: Seq<XmlTree>, i: int) -> nat {
    if 0 < i < cs.len() && cs[i - 1].tag == "image"@ {
        match style_after(cs, i - 1) {
            Some((_, n)) => n,
            None => 0,
        }
    } else {
        0
    }
}

/// An image element with its optional style.
pub open spec fn image_html(path: Seq<char>, style: Option<(Seq<char>, nat)>) -> Seq<char> {
    "<img src=\""@ + img_scheme() + path + "\""@ + (match style {
        Some((s, _)) => " style=\""@ + s + "\""@,
        None => Seq::empty(),
    }) + ">"@
}

/// A cross-reference left for later resolution.
pub open spec fn ref_html(id: Seq<char>, label: Seq<char>) -> Seq<char> {
    "<a href=\""@ + ref_scheme() + id + "\">"@ + label + "</a>"@
}

/// How many whitespace tokens stand at the start of `tokens[from..]`.
pub open spec fn leading_spaces(tokens: Seq<XmlTree>, from: int) -> nat
    decreases tokens.len() - from,
{
    if 0 <= from < tokens.len() && tokens[from].tag == "sp"@ {
        1 + leading_spaces(tokens, from + 1)
    } else {
        0
    }
}

/// The indentation of a code line, read from its child `from` on: the
/// whitespace tokens that stand before the first other token. A highlighted
/// run of whitespace alone hands on to the run after it; nothing is the
/// answer for a line without any other token, which is blank.
pub open spec fn indent_from(runs: Seq<XmlTree>, from: int) -> Option<nat>
    decreases runs.len() - from,
{
    if from < 0 || from >= runs.len() {
        None
    } else if runs[from].tag == "highlight"@ {
        let n = leading_spaces(runs[from].children, 0);
        if n < runs[from].children.len() {
            Some(n)
        } else {
            match indent_from(runs, from + 1) {
                Some(m) => Some(n + m),
                None => None,
            }
        }
    } else {
        Some(0)
    }
}

/// The indentation of a code line: its leading whitespace units. A line
/// without any other token is blank and has none.
pub open spec fn line_indent(line: XmlTree) -> Option<nat> {
    indent_from(line.children, 0)
}

/// The smaller of two indentations, where nothing stands for a blank line.
pub open spec fn least(a: Option<nat>, b: Option<nat>) -> Option<nat> {
    match (a, b) {
        (Some(x), Some(y)) => Some(if x <= y { x } else { y }),
        (Some(x), None) => Some(x),
        (None, y) => y,
    }
}

/// The least indentation of the code lines among `cs[from..]` that are not
/// blank.
pub open spec fn common_indent(cs: Seq<XmlTree>, from: int) -> Option<nat>
    decreases cs.len() - from,
{
    if from < 0 || from >= cs.len() {
        None
    } else if cs[from].tag == "codeline"@ {
        least(line_indent(cs[from]), common_indent(cs, from + 1))
    } else {
        common_indent(cs, from + 1)
    }
}

/// The ways in which the children of an element are rendered in a row.
pub ghost enum Series {
    /// Rich text: every child is rendered.
    Content,
    /// The items of a list.
    Items,
    /// The rows of a table.
    Rows,
    /// The cells of a table row.
    Cells,
    /// The entries of a parameter list, laid out as a table or as a
    /// definition list.
    Parameters { table: bool },
    /// The terms and descriptions of a variable list.
    Variables,
    /// The lines of a code listing, each without the common indentation.
    Lines { dedent: Option<nat> },
}

/// The outcome that adds nothing.
pub open spec fn nothing() -> Markup {
    plain(Seq::empty())
}

/// What the content of `n` renders to; nothing when the tree breaks the
/// schema.
pub open spec fn markup(n: XmlTree) -> Option<Markup>
    decreases n, 0int, 0int,
{
    series(Series::Content, n.children, 0)
}

/// What the nodes `cs[from..]` render to, in order, when they are read as
/// `kind` says.
pub open spec fn series(kind: Series, cs: Seq<XmlTree>, from: int) -> Option<Markup>
    decreases cs, 2int, cs.len() - from,
{
    if from < 0 || from >= cs.len() {
        Some(nothing())
    } else {
        both(member(kind, cs, from), series(kind, cs, from + 1))
    }
}

/// What the node at position `i` of `cs` renders to as a member of a series
/// of the given kind. A series other than rich text passes over the
/// children that are not its members.
pub open spec fn member(kind: Series, cs: Seq<XmlTree>, i: int) -> Option<Markup>
    decreases cs, 1int, 0int,
{
    if i < 0 || i >= cs.len() {
        None
    } else {
        match kind {
            Series::Content => fragment(cs, i),
            Series::Items => if cs[i].tag == "listitem"@ {
                wrap("<li>"@, markup(cs[i]), "</li>"@)
            } else {
                Some(nothing())
            },
            Series::Rows => if cs[i].tag == "row"@ {
                wrap("<tr>"@, series(Series::Cells, cs[i].children, 0), "</tr>"@)
            } else {
                Some(nothing())
            },
            Series::Cells => if cs[i].tag == "entry"@ {
                entry(cs[i])
            } else {
                Some(nothing())
            },
            Series::Parameters { table } => if cs[i].tag == "parameteritem"@ {
                param_item(cs[i], table)
            } else {
                Some(nothing())
            },
            Series::Variables => var_entry(cs[i]),
            Series::Lines { dedent } => if cs[i].tag == "codeline"@ {
                code_line(cs[i], dedent)
            } else {
                Some(nothing())
            },
        }
    }
}

/// What the node at position `i` of a piece of rich text renders to. Its
/// neighbours matter only for an image and the style annotation after it.
pub open spec fn fragment(cs: Seq<XmlTree>, i: int) -> Option<Markup>
    decreases cs, 0int, 0int,
{
    if i < 0 || i >= cs.len() {
        None
    } else if is_text(cs[i]) {
        Some(plain(escaped(cs[i].text.skip(style_skip(cs, i) as int))))
    } else if cs[i].tag == "image"@ {
        match attribute(cs[i], "name"@) {
            Some(path) => Some(plain(image_html(path, style_after(cs, i)))),
            None => None,
        }
    } else {
        element(cs[i])
    }
}

/// What the only child of `c` called `tag` renders to.
pub open spec fn child_markup(c: XmlTree, tag: Seq<char>) -> Option<Markup>
    decreases c, 0int, 0int,
{
    match only_tagged(c.children, tag) {
        Some(k) => if 0 <= k < c.children.len() {
            markup(c.children[k])
        } else {
            None
        },
        None => None,
    }
}

/// What an element renders to, whatever stands beside it.
pub open spec fn element(c: XmlTree) -> Option<Markup>
    decreases c, 2int, 0int,
{
    let tag = c.tag;
    if symbol(tag) is Some {
        Some(plain(symbol(tag)->0))
    } else if container(tag) is Some {
        match container(tag) {
            Some((open, close)) => wrap(open, markup(c), close),
            None => None,
        }
    } else if tag == "simplesect"@ {
        match (attribute(c, "kind"@), child_markup(c, "para"@)) {
            (Some(kind), Some(body)) => Some(admonition(kind, body)),
            _ => None,
        }
    } else if tag == "blockquote"@ {
        wrap("<blockquote>"@, child_markup(c, "para"@), "</blockquote>"@)
    } else if tag == "ref"@ {
        match (attribute(c, "refid"@), text_of(c)) {
            (Some(id), Some(label)) => Some(plain(ref_html(id, label))),
            _ => None,
        }
    } else if tag == "ulink"@ {
        match attribute(c, "url"@) {
            Some(url) => wrap("<a href=\""@ + url + "\">"@, markup(c), "</a>"@),
            None => None,
        }
    } else if tag == "xrefsect"@ {
        match child_value(c, "xreftitle"@) {
            Some(title) => wrap(
                "<div class=\"alert alert-danger\"><h5>"@ + title + "</h5>"@,
                child_markup(c, "xrefdescription"@),
                "</div>"@,
            ),
            None => None,
        }
    } else if tag == "highlight"@ {
        match attribute(c, "class"@) {
            Some(class) => wrap("<span class=\"highlight-"@ + class + "\">"@, markup(c), "</span>"@),
            None => None,
        }
    } else if tag == "anchor"@ {
        match attribute(c, "id"@) {
            Some(id) => Some(plain("<a name=\""@ + id + "\"></a>"@)),
            None => None,
        }
    } else if tag == "formula"@ {
        match text_of(c) {
            Some(t) => Some(
                Markup {
                    html: "\\("@ + trimmed(t, CharClass::Dollar) + "\\)"@,
                    math: true,
                    unknown: Seq::empty(),
                },
            ),
            None => None,
        }
    } else if tag == "htmlonly"@ {
        match c.verbatim {
            Some(source) => Some(plain(source)),
            None => None,
        }
    } else if tag == "heading"@ {
        match attribute(c, "level"@) {
            Some(text) => match number_of(text) {
                Some(level) => wrap(
                    heading_open(decimal(level)),
                    markup(c),
                    heading_close(decimal(level)),
                ),
                None => None,
            },
            None => None,
        }
    } else if section_level(tag) is Some {
        section(c, section_level(tag)->0)
    } else {
        block(c)
    }
}

/// A section: an anchor, the title as a heading, then the content.
pub open spec fn section(c: XmlTree, level: Seq<char>) -> Option<Markup>
    decreases c, 1int, 0int,
{
    match (first_tagged(c.children, "title"@, 0), attribute(c, "id"@)) {
        (Some(k), Some(id)) => if 0 <= k < c.children.len() {
            both(
                wrap(
                    "<a name=\""@ + id + "\"></a>"@ + heading_open(level),
                    markup(c.children[k]),
                    heading_close(level),
                ),
                markup(c),
            )
        } else {
            None
        },
        _ => None,
    }
}

/// What a list, a table, a code listing or an element outside the schema
/// renders to. An element outside the schema renders to nothing and is
/// noted by its name.
pub open spec fn block(c: XmlTree) -> Option<Markup>
    decreases c, 1int, 0int,
{
    let tag = c.tag;
    if tag == "parameterlist"@ {
        match attribute(c, "kind"@) {
            Some(kind) => match param_layout(kind) {
                Some(table) => if table {
                    wrap(
                        "<table class=\"parameterlist\">"@,
                        series(Series::Parameters { table }, c.children, 0),
                        "</table>"@,
                    )
                } else {
                    wrap(
                        "<dl class=\"parameterlist\">"@,
                        series(Series::Parameters { table }, c.children, 0),
                        "</dl>"@,
                    )
                },
                None => None,
            },
            None => None,
        }
    } else if tag == "itemizedlist"@ {
        wrap("<ul>"@, series(Series::Items, c.children, 0), "</ul>"@)
    } else if tag == "orderedlist"@ {
        wrap("<ol>"@, series(Series::Items, c.children, 0), "</ol>"@)
    } else if tag == "table"@ {
        wrap("<table>"@, series(Series::Rows, c.children, 0), "</table>"@)
    } else if tag == "programlisting"@ {
        wrap(
            "<pre class=\"programlisting\">"@,
            series(Series::Lines { dedent: common_indent(c.children, 0) }, c.children, 0),
            "</pre>"@,
        )
    } else if tag == "variablelist"@ {
        wrap("<dl class=\"variablelist\">"@, series(Series::Variables, c.children, 0), "</dl>"@)
    } else {
        Some(Markup { html: Seq::empty(), math: false, unknown: seq![tag] })
    }
}

/// One cell of a table: a header cell where `thead` is `yes`.
pub open spec fn entry(e: XmlTree) -> Option<Markup>
    decreases e, 1int, 0int,
{
    match attribute(e, "thead"@) {
        Some(v) => if v == "yes"@ {
            wrap("<th>"@, markup(e), "</th>"@)
        } else {
            wrap("<td>"@, markup(e), "</td>"@)
        },
        None => None,
    }
}

/// One entry of a parameter list. An entry without names renders to
/// nothing, whatever else it holds.
pub open spec fn param_item(item: XmlTree, table: bool) -> Option<Markup>
    decreases item, 1int, 0int,
{
    match only_tagged(item.children, "parameternamelist"@) {
        Some(k) => {
            let names = joined(param_names(item.children[k].children, 0), ", "@);
            if names.len() == 0 {
                Some(nothing())
            } else {
                match child_markup(item, "parameterdescription"@) {
                    Some(d) => Some(param_row(escaped(names), d, table)),
                    None => None,
                }
            }
        },
        None => None,
    }
}

/// One child of a variable list: a term, its description, or character data
/// between them. Anything else breaks the schema.
pub open spec fn var_entry(e: XmlTree) -> Option<Markup>
    decreases e, 1int, 0int,
{
    if e.tag == "varlistentry"@ {
        wrap("<dt>"@, child_markup(e, "term"@), "</dt>"@)
    } else if e.tag == "listitem"@ {
        wrap("<dd>"@, markup(e), "</dd>"@)
    } else if is_text(e) {
        Some(nothing())
    } else {
        None
    }
}

/// A highlighted run without its first `cut` tokens.
pub open spec fn highlight_from(run: XmlTree, cut: int) -> Option<Markup>
    decreases run, 1int, 0int,
{
    match attribute(run, "class"@) {
        Some(class) => wrap(
            "<span class=\"highlight-"@ + class + "\">"@,
            series(Series::Content, run.children, cut),
            "</span>"@,
        ),
        None => None,
    }
}

/// How many of the whitespace tokens that a run starts with are taken
/// away, where `strip` units are still to be taken away from the line; all
/// of them where `strip` is nothing.
pub open spec fn cut_of(strip: Option<nat>, lead: nat) -> nat {
    match strip {
        Some(n) => if n < lead {
            n
        } else {
            lead
        },
        None => lead,
    }
}

/// What is still to be taken away after `cut` units have been.
pub open spec fn left_of(strip: Option<nat>, cut: nat) -> Option<nat> {
    match strip {
        Some(n) => Some((n - cut) as nat),
        None => None,
    }
}

/// What the children `runs[from..]` of a code line render to once the
/// first `strip` of its leading whitespace units are taken away, or all of
/// them where `strip` is nothing. Only leading units are taken: what stands
/// after the first other token stays as it is.
pub open spec fn stripped(runs: Seq<XmlTree>, from: int, strip: Option<nat>) -> Option<Markup>
    decreases runs, 3int, runs.len() - from,
{
    if from < 0 || from >= runs.len() {
        Some(nothing())
    } else if strip != Some(0nat) && runs[from].tag == "highlight"@ {
        let cut = cut_of(strip, leading_spaces(runs[from].children, 0));
        both(
            highlight_from(runs[from], cut as int),
            if cut == runs[from].children.len() {
                stripped(runs, from + 1, left_of(strip, cut))
            } else {
                series(Series::Content, runs, from + 1)
            },
        )
    } else {
        series(Series::Content, runs, from)
    }
}

/// One line of a code listing: its content without the common indentation,
/// and a line break.
pub open spec fn code_line(line: XmlTree, dedent: Option<nat>) -> Option<Markup>
    decreases line, 1int, 0int,
{
    match stripped(line.children, 0, dedent) {
        Some(m) => Some(Markup { html: m.html + "<br/>"@, math: m.math, unknown: m.unknown }),
        None => None,
    }
}

/// Dedentation is idempotent: a listing that is already dedented, so that
/// the least indentation of its lines is zero, is left unchanged: each of
/// its lines is rendered as it stands.
pub proof fn lemma_dedent_idempotent(listing: Seq<XmlTree>, line: XmlTree)
    requires
        common_indent(listing, 0) == Some(0nat),
    ensures
        stripped(line.children, 0, common_indent(listing, 0)) == markup(line),
        code_line(line, common_indent(listing, 0)) == match markup(line) {
            Some(m) => Some(Markup { html: m.html + "<br/>"@, math: m.math, unknown: m.unknown }),
            None => None,
        },
{
}

} // verus!
