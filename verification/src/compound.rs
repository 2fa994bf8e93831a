//! The top-level documents of the export: what a file document and a page
//! document become.

use vstd::prelude::*;
use vstd::string::*;
use crate::entity::{
    append, built, compound_def, concat, find_compound_def, lemma_append_none, lemma_concat_step,
    none_built, try_parse_compound_scope, scope_of, sections_of, Built,
};
use crate::markup::child_markup;
use crate::model::{
    lemma_views_push, views, File, FileView, Page, PageCommon, PageCommonView, PageView, Scope,
    ScopeView, SectionView,
};
use crate::render::{
    lemma_noted_join, lemma_noted_plain, noted, render_child, Context, Failure, SchemaError,
};
use crate::text::strings_of;
use crate::xml::{
    attribute, called, child_value, lemma_view, only_tagged, NodeExt, XmlNode, XmlTree,
};

verus! {

/// The identifiers that the elements called `a` or `b` among `cs[from..]`
/// refer to.
pub open spec fn refs(cs: Seq<XmlTree>, from: int, a: Seq<char>, b: Seq<char>) -> Option<
    Seq<Seq<char>>,
>
    decreases cs.len() - from,
{
    if from < 0 || from >= cs.len() {
        Some(Seq::empty())
    } else if called(cs[from], a) || called(cs[from], b) {
        match (attribute(cs[from], "refid"@), refs(cs, from + 1, a, b)) {
            (Some(id), Some(rest)) => Some(seq![id] + rest),
            _ => None,
        }
    } else {
        refs(cs, from + 1, a, b)
    }
}

/// Collects the identifiers that the children of `node` called `a` or `b`
/// refer to.
pub fn collect_refs(node: &XmlNode, a: &str, b: &str) -> (r: Result<Vec<String>, SchemaError>)
    ensures
        match r {
            Ok(ids) => refs(node@.children, 0, a@, b@) == Some(strings_of(ids@)),
            Err(e) => refs(node@.children, 0, a@, b@) is None && e@ == Failure::Malformed,
        },
{
    let ghost cs = node@.children;
    let ghost total = refs(cs, 0, a@, b@);
    proof {
        lemma_view(*node);
    }
    let mut out: Vec<String> = Vec::new();
    let mut i: usize = 0;
    assert(total == match total {
        Some(rest) => Some(strings_of(out@) + rest),
        None => None,
    }) by {
        match total {
            Some(rest) => {
                assert(strings_of(out@) + rest =~= rest);
            },
            None => {},
        }
    }
    while i < node.children.len()
        invariant
            i <= node.children.len(),
            cs == node@.children,
            cs.len() == node.children.len(),
            forall|k: int| 0 <= k < cs.len() ==> cs[k] == (#[trigger] node.children@[k])@,
            total == refs(cs, 0, a@, b@),
            total == match refs(cs, i as int, a@, b@) {
                Some(rest) => Some(strings_of(out@) + rest),
                None => None,
            },
        decreases node.children.len() - i,
    {
        let c = &node.children[i];
        if c.has_tag(a) || c.has_tag(b) {
            match c.attribute("refid") {
                Some(id) => {
                    let owned = id.to_owned();
                    proof {
                        match refs(cs, i + 1, a@, b@) {
                            Some(rest) => {
                                assert(strings_of(out@.push(owned)) + rest =~= strings_of(out@) + (
                                seq![id@] + rest)) by {
                                    assert(strings_of(out@.push(owned)) =~= strings_of(out@).push(
                                        id@,
                                    ));
                                }
                            },
                            None => {},
                        }
                    }
                    out.push(owned);
                },
                None => {
                    return Err(SchemaError::Malformed);
                },
            }
        }
        i += 1;
    }
    assert(strings_of(out@) + Seq::<Seq<char>>::empty() =~= strings_of(out@));
    Ok(out)
}

/// The identifiers of the classes and namespaces that a file document
/// names, in order.
pub open spec fn inner_scope_refs(doc: XmlTree) -> Option<Seq<Seq<char>>> {
    match compound_def(doc) {
        Some(cd) => refs(cd.children, 0, "innerclass"@, "innernamespace"@),
        None => None,
    }
}

/// Lists the identifiers of the classes and namespaces that a file
/// document names, in order: the documents that building the file needs.
pub fn list_inner_scopes(doc: &XmlNode) -> (r: Result<Vec<String>, SchemaError>)
    ensures
        match r {
            Ok(ids) => inner_scope_refs(doc@) == Some(strings_of(ids@)),
            Err(e) => inner_scope_refs(doc@) is None && e@ == Failure::Malformed,
        },
{
    match find_compound_def(doc) {
        Some(c) => collect_refs(c, "innerclass", "innernamespace"),
        None => Err(SchemaError::Malformed),
    }
}

/// The source path of a compound: the file of its location, or nothing
/// where it has no location.
pub open spec fn source_of(cd: XmlTree) -> Option<Seq<char>> {
    match only_tagged(cd.children, "location"@) {
        Some(k) => attribute(cd.children[k], "file"@),
        None => Some(Seq::empty()),
    }
}

fn read_source(cd: &XmlNode) -> (r: Result<String, SchemaError>)
    ensures
        match r {
            Ok(s) => source_of(cd@) == Some(s@),
            Err(e) => source_of(cd@) is None && e@ == Failure::Malformed,
        },
{
    match cd.get_child("location") {
        Some(location) => match location.attribute("file") {
            Some(file) => Ok(file.to_owned()),
            None => Err(SchemaError::Malformed),
        },
        None => Ok(String::new()),
    }
}

/// The contents of the documents that were loaded for a file.
pub open spec fn documents(docs: Seq<Option<XmlNode>>) -> Seq<Option<XmlTree>> {
    Seq::new(
        docs.len(),
        |i: int|
            match docs[i] {
                Some(d) => Some(d@),
                None => None,
            },
    )
}

/// The document at position `k`; nothing where none was loaded.
pub open spec fn loaded(docs: Seq<Option<XmlTree>>, k: int) -> Option<XmlTree> {
    if 0 <= k < docs.len() {
        docs[k]
    } else {
        None
    }
}

/// What the document of a class or namespace adds to the scopes of the
/// file whose source path is `source`: its scope, where that keeps a
/// section. A document that could not be loaded adds nothing.
pub open spec fn scope_item(doc: Option<XmlTree>, source: Seq<char>) -> Result<
    Built<Seq<ScopeView>>,
    Failure,
> {
    match doc {
        Some(d) => match scope_of(d, source) {
            Ok(b) => Ok(
                Built {
                    value: if b.value.sections.len() > 0 {
                        seq![b.value]
                    } else {
                        Seq::empty()
                    },
                    trace: b.trace,
                },
            ),
            Err(f) => Err(f),
        },
        None => Ok(none_built()),
    }
}

/// Whether an element names a class or namespace that the file holds.
pub open spec fn is_inner_scope(c: XmlTree) -> bool {
    c.tag == "innerclass"@ || c.tag == "innernamespace"@
}

/// The scopes of a file: for each class or namespace among `cs[from..]`,
/// what its document adds, the documents taken from position `k` on.
pub open spec fn file_scopes(
    cs: Seq<XmlTree>,
    from: int,
    docs: Seq<Option<XmlTree>>,
    k: int,
    source: Seq<char>,
) -> Result<Built<Seq<ScopeView>>, Failure>
    decreases cs.len() - from,
{
    if from < 0 || from >= cs.len() {
        Ok(none_built())
    } else if is_inner_scope(cs[from]) {
        match attribute(cs[from], "refid"@) {
            Some(_) => concat(
                scope_item(loaded(docs, k), source),
                file_scopes(cs, from + 1, docs, k + 1, source),
            ),
            None => Err(Failure::Malformed),
        }
    } else {
        file_scopes(cs, from + 1, docs, k, source)
    }
}

/// What a file document becomes, given the documents of the classes and
/// namespaces that it names, in the order of `inner_scope_refs`. The scopes
/// keep the members that are declared at the source path of the file.
pub open spec fn file_of(doc: XmlTree, ref_id: Seq<char>, docs: Seq<Option<XmlTree>>) -> Result<
    Built<FileView>,
    Failure,
> {
    match compound_def(doc) {
        Some(cd) => match (source_of(cd), child_value(cd, "compoundname"@)) {
            (Some(source), Some(title)) => match file_scopes(cd.children, 0, docs, 0, source) {
                Ok(scopes) => Ok(
                    Built {
                        value: FileView {
                            common: PageCommonView {
                                ref_id,
                                source,
                                title,
                                has_math: scopes.trace.math,
                                subpage_refs: Seq::empty(),
                            },
                            scopes: scopes.value,
                        },
                        trace: scopes.trace,
                    },
                ),
                Err(f) => Err(f),
            },
            _ => Err(Failure::Malformed),
        },
        None => Err(Failure::Malformed),
    }
}

fn parse_file_scopes(
    compounddef: &XmlNode,
    source: &str,
    inner: &Vec<Option<XmlNode>>,
    context: &mut Context,
) -> (r: Result<Vec<Scope>, SchemaError>)
    ensures
        match r {
            Ok(v) => file_scopes(compounddef@.children, 0, documents(inner@), 0, source@) matches Ok(
                b,
            ) && views(v@) == b.value && final(context)@ == noted(old(context)@, b.trace),
            Err(e) => file_scopes(compounddef@.children, 0, documents(inner@), 0, source@) matches Err(
                f,
            ) && f == e@,
        },
{
    let ghost cs = compounddef@.children;
    let ghost docs = documents(inner@);
    let ghost before = context@;
    let ghost total = file_scopes(cs, 0, docs, 0, source@);
    let ghost mut acc: Built<Seq<ScopeView>> = none_built();
    proof {
        lemma_view(*compounddef);
        lemma_noted_plain(before, Seq::empty());
        match total {
            Ok(t) => {
                lemma_append_none(t);
            },
            Err(_) => {},
        }
    }
    let mut out: Vec<Scope> = Vec::new();
    assert(views(out@) =~= acc.value);
    let mut i: usize = 0;
    let mut k: usize = 0;
    while i < compounddef.children.len()
        invariant
            i <= compounddef.children.len(),
            k <= i,
            cs == compounddef@.children,
            cs.len() == compounddef.children.len(),
            docs == documents(inner@),
            forall|j: int| 0 <= j < cs.len() ==> cs[j] == (#[trigger] compounddef.children@[j])@,
            total == file_scopes(cs, 0, docs, 0, source@),
            total == concat(Ok(acc), file_scopes(cs, i as int, docs, k as int, source@)),
            views(out@) == acc.value,
            context@ == noted(before, acc.trace),
        decreases compounddef.children.len() - i,
    {
        let c = &compounddef.children[i];
        if c.named("innerclass") || c.named("innernamespace") {
            if c.attribute("refid").is_none() {
                return Err(SchemaError::Malformed);
            }
            let ghost item = scope_item(loaded(docs, k as int), source@);
            proof {
                lemma_concat_step(acc, item, file_scopes(cs, i + 1, docs, k + 1, source@));
                lemma_append_none(acc);
                lemma_noted_plain(context@, Seq::empty());
            }
            if k < inner.len() {
                match &inner[k] {
                    Some(doc) => {
                        let scope = try_parse_compound_scope(source, doc, context)?;
                        proof {
                            lemma_noted_join(before, acc.trace, item->Ok_0.trace);
                        }
                        if scope.sections.len() > 0 {
                            proof {
                                lemma_views_push(out@, scope);
                                assert(acc.value.push(scope@) =~= acc.value + seq![scope@]);
                            }
                            out.push(scope);
                        } else {
                            assert(acc.value + Seq::<ScopeView>::empty() =~= acc.value);
                        }
                    },
                    None => {},
                }
            }
            proof {
                acc = append(acc, item->Ok_0);
            }
            k += 1;
        }
        i += 1;
    }
    proof {
        lemma_append_none(acc);
    }
    Ok(out)
}

/// Builds a file from documents that follow the schema: its own, and those
/// of the classes and namespaces that it names, given in the order of
/// [`list_inner_scopes`], with nothing where a document could not be
/// loaded. Returns the file and the names of the elements that rendering
/// passed over.
pub fn parse_compound_file(doc: &XmlNode, ref_id: &str, inner: &Vec<Option<XmlNode>>) -> (r: (
    File,
    Vec<String>,
))
    requires
        file_of(doc@, ref_id@, documents(inner@)) is Ok,
    ensures
        r.0@ == file_of(doc@, ref_id@, documents(inner@))->Ok_0.value,
        strings_of(r.1@) == file_of(doc@, ref_id@, documents(inner@))->Ok_0.trace.unknown,
{
    match try_parse_compound_file(doc, ref_id, inner) {
        Ok(built) => built,
        Err(_) => unreached(),
    }
}

/// Builds a file from its document and from the documents of the classes
/// and namespaces that it names, given in the order of
/// [`list_inner_scopes`], with nothing where a document could not be
/// loaded. Returns the file and the names of the elements that rendering
/// passed over, or the failure where a document breaks the schema.
pub fn try_parse_compound_file(doc: &XmlNode, ref_id: &str, inner: &Vec<Option<XmlNode>>) -> (r:
    Result<(File, Vec<String>), SchemaError>)
    ensures
        match r {
            Ok((file, unknown)) => file_of(doc@, ref_id@, documents(inner@)) matches Ok(b)
                && file@ == b.value && strings_of(unknown@) == b.trace.unknown,
            Err(e) => file_of(doc@, ref_id@, documents(inner@)) matches Err(f) && f == e@,
        },
{
    let compounddef = match find_compound_def(doc) {
        Some(c) => c,
        None => {
            return Err(SchemaError::Malformed);
        },
    };
    let source = read_source(compounddef)?;
    let title = match compounddef.get_child_value("compoundname") {
        Some(t) => t.to_owned(),
        None => {
            return Err(SchemaError::Malformed);
        },
    };
    let mut context = Context::new();
    let scopes = parse_file_scopes(compounddef, source.as_str(), inner, &mut context)?;
    let no_pages: Vec<String> = Vec::new();
    proof {
        let b = file_scopes(compounddef@.children, 0, documents(inner@), 0, source@)->Ok_0;
        assert(context@.unknown =~= b.trace.unknown);
        assert(strings_of(no_pages@) =~= Seq::empty());
    }
    let file = File {
        common: PageCommon {
            ref_id: ref_id.to_owned(),
            source,
            title,
            has_math: context.has_math,
            subpage_refs: no_pages,
        },
        scopes,
    };
    Ok((file, context.unknown_tags))
}

/// What a page document becomes.
pub open spec fn page_of(doc: XmlTree, ref_id: Seq<char>) -> Option<Built<PageView>> {
    match compound_def(doc) {
        Some(cd) => match (
            source_of(cd),
            child_value(cd, "title"@),
            child_markup(cd, "detaileddescription"@),
            refs(cd.children, 0, "innerpage"@, "innerpage"@),
        ) {
            (Some(source), Some(title), Some(description), Some(subpages)) => Some(
                Built {
                    value: PageView {
                        common: PageCommonView {
                            ref_id,
                            source,
                            title,
                            has_math: description.math,
                            subpage_refs: subpages,
                        },
                        description: description.html,
                    },
                    trace: description,
                },
            ),
            _ => None,
        },
        None => None,
    }
}

/// Builds a page from a document that follows the schema. Returns the page
/// and the names of the elements that rendering passed over.
pub fn parse_compound_page(doc: &XmlNode, ref_id: &str) -> (r: (Page, Vec<String>))
    requires
        page_of(doc@, ref_id@) is Some,
    ensures
        r.0@ == page_of(doc@, ref_id@)->0.value,
        strings_of(r.1@) == page_of(doc@, ref_id@)->0.trace.unknown,
{
    match try_parse_compound_page(doc, ref_id) {
        Ok(built) => built,
        Err(_) => unreached(),
    }
}

/// Builds a page from its document. Returns the page and the names of the
/// elements that rendering passed over, or the failure where the document
/// breaks the schema.
pub fn try_parse_compound_page(doc: &XmlNode, ref_id: &str) -> (r: Result<
    (Page, Vec<String>),
    SchemaError,
>)
    ensures
        match r {
            Ok((page, unknown)) => page_of(doc@, ref_id@) matches Some(b) && page@ == b.value
                && strings_of(unknown@) == b.trace.unknown,
            Err(e) => page_of(doc@, ref_id@) is None && e@ == Failure::Malformed,
        },
{
    let compounddef = match find_compound_def(doc) {
        Some(c) => c,
        None => {
            return Err(SchemaError::Malformed);
        },
    };
    let source = read_source(compounddef)?;
    let title = match compounddef.get_child_value("title") {
        Some(t) => t.to_owned(),
        None => {
            return Err(SchemaError::Malformed);
        },
    };
    let mut context = Context::new();
    let description = render_child(compounddef, "detaileddescription", &mut context)?;
    let subpage_refs = collect_refs(compounddef, "innerpage", "innerpage")?;
    proof {
        let d = child_markup(compounddef@, "detaileddescription"@)->0;
        assert(context@.unknown =~= d.unknown);
    }
    let page = Page {
        common: PageCommon {
            ref_id: ref_id.to_owned(),
            source,
            title,
            has_math: context.has_math,
            subpage_refs,
        },
        description,
    };
    Ok((page, context.unknown_tags))
}

/// The kind of a top-level compound.
#[derive(Clone, Copy, Debug, PartialEq, Eq)]
pub enum CompoundKind {
    File,
    Page,
}

/// An entry of the index of an export: a compound that gets a page.
pub struct IndexEntry {
    pub kind: CompoundKind,
    pub ref_id: String,
}

/// The content of an [`IndexEntry`].
pub ghost struct IndexEntryView {
    pub kind: CompoundKind,
    pub ref_id: Seq<char>,
}

impl View for IndexEntry {
    type V = IndexEntryView;

    open spec fn view(&self) -> IndexEntryView {
        IndexEntryView { kind: self.kind, ref_id: self.ref_id@ }
    }
}

/// The kind that the index names; nothing for a kind that gets no page.
pub open spec fn compound_kind(kind: Seq<char>) -> Option<CompoundKind> {
    if kind == "file"@ {
        Some(CompoundKind::File)
    } else if kind == "page"@ {
        Some(CompoundKind::Page)
    } else {
        None
    }
}

/// The files and pages among the entries `cs[from..]` of an index.
pub open spec fn index_entries(cs: Seq<XmlTree>, from: int) -> Option<Seq<IndexEntryView>>
    decreases cs.len() - from,
{
    if from < 0 || from >= cs.len() {
        Some(Seq::empty())
    } else if cs[from].tag == "compound"@ {
        match attribute(cs[from], "kind"@) {
            Some(kind) => match compound_kind(kind) {
                Some(k) => match (attribute(cs[from], "refid"@), index_entries(cs, from + 1)) {
                    (Some(id), Some(rest)) => Some(
                        seq![IndexEntryView { kind: k, ref_id: id }] + rest,
                    ),
                    _ => None,
                },
                None => index_entries(cs, from + 1),
            },
            None => None,
        }
    } else {
        index_entries(cs, from + 1)
    }
}

/// The files and pages that the index document of an export lists, in
/// order.
pub open spec fn index_of(doc: XmlTree) -> Option<Seq<IndexEntryView>> {
    if doc.tag == "doxygenindex"@ {
        index_entries(doc.children, 0)
    } else {
        None
    }
}

/// Lists the files and pages of an export from its index document.
pub fn list_compounds(index: &XmlNode) -> (r: Result<Vec<IndexEntry>, SchemaError>)
    ensures
        match r {
            Ok(entries) => index_of(index@) == Some(views(entries@)),
            Err(e) => index_of(index@) is None && e@ == Failure::Malformed,
        },
{
    if !index.named("doxygenindex") {
        return Err(SchemaError::Malformed);
    }
    let ghost cs = index@.children;
    let ghost total = index_entries(cs, 0);
    proof {
        lemma_view(*index);
    }
    let mut out: Vec<IndexEntry> = Vec::new();
    let mut i: usize = 0;
    assert(total == match total {
        Some(rest) => Some(views(out@) + rest),
        None => None,
    }) by {
        match total {
            Some(rest) => {
                assert(views(out@) + rest =~= rest);
            },
            None => {},
        }
    }
    while i < index.children.len()
        invariant
            i <= index.children.len(),
            cs == index@.children,
            cs.len() == index.children.len(),
            forall|k: int| 0 <= k < cs.len() ==> cs[k] == (#[trigger] index.children@[k])@,
            total == index_entries(cs, 0),
            index_of(index@) == total,
            total == match index_entries(cs, i as int) {
                Some(rest) => Some(views(out@) + rest),
                None => None,
            },
        decreases index.children.len() - i,
    {
        let c = &index.children[i];
        if c.named("compound") {
            let kind = match c.attribute("kind") {
                Some(kind) => if crate::text::same(kind, "file") {
                    Some(CompoundKind::File)
                } else if crate::text::same(kind, "page") {
                    Some(CompoundKind::Page)
                } else {
                    None
                },
                None => {
                    return Err(SchemaError::Malformed);
                },
            };
            match kind {
                Some(kind) => match c.attribute("refid") {
                    Some(id) => {
                        let entry = IndexEntry { kind, ref_id: id.to_owned() };
                        proof {
                            match index_entries(cs, i + 1) {
                                Some(rest) => {
                                    assert(views(out@.push(entry)) + rest =~= views(out@) + (
                                    seq![entry@] + rest));
                                },
                                None => {},
                            }
                        }
                        out.push(entry);
                    },
                    None => {
                        return Err(SchemaError::Malformed);
                    },
                },
                None => {},
            }
        }
        i += 1;
    }
    assert(views(out@) + Seq::<IndexEntryView>::empty() =~= views(out@));
    Ok(out)
}

/// Whether every section of a list keeps at least one member.
pub open spec fn sections_kept(sections: Seq<SectionView>) -> bool {
    forall|j: int| 0 <= j < sections.len() ==> (#[trigger] sections[j]).members.len() > 0
}

/// Whether every scope of a list keeps at least one section, and every
/// section of it at least one member.
pub open spec fn scopes_kept(scopes: Seq<ScopeView>) -> bool {
    forall|i: int|
        0 <= i < scopes.len() ==> (#[trigger] scopes[i]).sections.len() > 0 && sections_kept(
            scopes[i].sections,
        )
}

proof fn lemma_sections_kept(cs: Seq<XmlTree>, from: int, parent_file: Seq<char>)
    ensures
        sections_of(cs, from, parent_file) matches Ok(b) ==> sections_kept(b.value),
    decreases cs.len() - from,
{
    if 0 <= from < cs.len() {
        lemma_sections_kept(cs, from + 1, parent_file);
    }
}

proof fn lemma_scopes_kept(
    cs: Seq<XmlTree>,
    from: int,
    docs: Seq<Option<XmlTree>>,
    k: int,
    source: Seq<char>,
)
    ensures
        file_scopes(cs, from, docs, k, source) matches Ok(b) ==> scopes_kept(b.value),
    decreases cs.len() - from,
{
    if 0 <= from < cs.len() {
        if is_inner_scope(cs[from]) {
            lemma_scopes_kept(cs, from + 1, docs, k + 1, source);
            match loaded(docs, k) {
                Some(d) => {
                    match compound_def(d) {
                        Some(cd) => {
                            lemma_sections_kept(cd.children, 0, source);
                        },
                        None => {},
                    }
                },
                None => {},
            }
        } else {
            lemma_scopes_kept(cs, from + 1, docs, k, source);
        }
    }
}

/// What has nothing to show is left out: every scope of a file that was
/// built keeps at least one section, and every section at least one
/// member. A scope whose sections all came out empty is not among the
/// scopes of its file, and a file without scopes is not an entity of the
/// generated set (see `Compound::from_file`).
pub proof fn lemma_file_keeps_nonempty(
    doc: XmlTree,
    ref_id: Seq<char>,
    docs: Seq<Option<XmlTree>>,
)
    ensures
        file_of(doc, ref_id, docs) matches Ok(b) ==> scopes_kept(b.value.scopes),
{
    match compound_def(doc) {
        Some(cd) => {
            match source_of(cd) {
                Some(source) => {
                    lemma_scopes_kept(cd.children, 0, docs, 0, source);
                },
                None => {},
            }
        },
        None => {},
    }
}

} // verus!
