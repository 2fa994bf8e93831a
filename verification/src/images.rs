//! Image references: which texts of an entity may hold them, where the
//! image of a reference is looked for, and where it goes in the output.

use vstd::prelude::*;
use vstd::string::*;
use crate::links::{find_placeholders, placeholders, Placeholder};
use crate::model::{
    views, EnumValueView, File, FileView, Member, MemberView, Page,
    Scope, ScopeView, Section, SectionView,
};
use crate::text::{from_chars, strings_of, to_chars};

verus! {

/// The position of the last `c` in `s` before `upto`.
pub open spec fn last_char(s: Seq<char>, c: char, upto: int) -> Option<int>
    decreases upto,
{
    if upto <= 0 || upto > s.len() {
        None
    } else if s[upto - 1] == c {
        Some(upto - 1)
    } else {
        last_char(s, c, upto - 1)
    }
}

fn find_last_char(s: &Vec<char>, c: char) -> (r: Option<usize>)
    ensures
        match r {
            Some(k) => last_char(s@, c, s@.len() as int) == Some(k as int) && k < s.len(),
            None => last_char(s@, c, s@.len() as int) is None,
        },
{
    let mut upto: usize = s.len();
    while upto > 0
        invariant
            upto <= s.len(),
            last_char(s@, c, s@.len() as int) == last_char(s@, c, upto as int),
        decreases upto,
    {
        if s[upto - 1] == c {
            return Some(upto - 1);
        }
        upto -= 1;
    }
    None
}

/// The last component of a path: what follows its last `/`.
pub open spec fn file_name_of(path: Seq<char>) -> Seq<char> {
    match last_char(path, '/', path.len() as int) {
        Some(k) => path.skip(k + 1),
        None => path,
    }
}

/// The directory of a path: what stands before its last `/`; nothing for a
/// path without one.
pub open spec fn parent_of(path: Seq<char>) -> Option<Seq<char>> {
    match last_char(path, '/', path.len() as int) {
        Some(k) => Some(path.take(k)),
        None => None,
    }
}

/// The last component of a path.
pub fn file_name(path: &str) -> (r: String)
    ensures
        r@ == file_name_of(path@),
{
    let chars = to_chars(path);
    match find_last_char(&chars, '/') {
        Some(k) => {
            let end = chars.len();
            from_chars(&chars, k + 1, end)
        },
        None => path.to_owned(),
    }
}

/// The directory of a path.
pub fn parent_dir(path: &str) -> (r: Option<String>)
    ensures
        match r {
            Some(d) => parent_of(path@) == Some(d@),
            None => parent_of(path@) is None,
        },
{
    let chars = to_chars(path);
    match find_last_char(&chars, '/') {
        Some(k) => Some(from_chars(&chars, 0, k)),
        None => None,
    }
}

/// The directory in which the images of a page are looked for: the
/// directory of its source, or the current directory for a source without
/// one.
pub open spec fn page_image_dir(source: Seq<char>) -> Seq<char> {
    match parent_of(source) {
        Some(d) => d,
        None => "."@,
    }
}

/// The directory in which the images of a page are looked for.
pub fn image_dir_of_page(page: &Page) -> (r: String)
    ensures
        r@ == page_image_dir(page@.common.source),
{
    match parent_dir(page.common.source.as_str()) {
        Some(d) => d,
        None => ".".to_owned(),
    }
}

/// The directory in which the images of a file are looked for: the
/// directory of its source. A source without a directory has none.
pub fn image_dir_of_file(file: &File) -> (r: Option<String>)
    ensures
        match r {
            Some(d) => parent_of(file@.common.source) == Some(d@),
            None => parent_of(file@.common.source) is None,
        },
{
    parent_dir(file.common.source.as_str())
}

/// What a percent-encoded text stands for; nothing where the decoded bytes
/// are not UTF-8.
pub uninterp spec fn percent_decoded(s: Seq<char>) -> Option<Seq<char>>;

/// Calls `percent_encoding::percent_decode_str` and `decode_utf8` on its
/// result: every `%` followed by two hexadecimal digits becomes the byte
/// that they spell, and the bytes are read as UTF-8. The result depends on
/// the text alone.
#[verifier::external_body]
fn percent_decode(s: &str) -> (r: Option<String>)
    ensures
        match r {
            Some(d) => percent_decoded(s@) == Some(d@),
            None => percent_decoded(s@) is None,
        },
{
    percent_encoding::percent_decode_str(s).decode_utf8().ok().map(|d| d.into_owned())
}

/// What is to be done for one image reference.
pub struct ImageRequest {
    /// Where the image is looked for.
    pub source: String,
    /// Where the image is copied to.
    pub target: String,
    /// What the reference is rewritten to once the image is there.
    pub replacement: String,
}

/// The content of an [`ImageRequest`].
pub ghost struct ImageRequestView {
    pub source: Seq<char>,
    pub target: Seq<char>,
    pub replacement: Seq<char>,
}

impl View for ImageRequest {
    type V = ImageRequestView;

    open spec fn view(&self) -> ImageRequestView {
        ImageRequestView {
            source: self.source@,
            target: self.target@,
            replacement: self.replacement@,
        }
    }
}

/// Where the image with the given path is looked for.
pub open spec fn image_source(source_dir: Seq<char>, image_dir: Seq<char>, path: Seq<char>) -> Seq<
    char,
> {
    source_dir + "/"@ + image_dir + "/"@ + path
}

/// What is to be done for the image with the given path. Images are kept
/// in the output by their file name alone.
pub open spec fn image_plan(
    path: Seq<char>,
    source_dir: Seq<char>,
    html_dir: Seq<char>,
    image_dir: Seq<char>,
) -> ImageRequestView {
    let source = image_source(source_dir, image_dir, path);
    ImageRequestView {
        source,
        target: html_dir + "/images/"@ + file_name_of(source),
        replacement: "images/"@ + file_name_of(source),
    }
}

/// Says what is to be done for the image with the given path.
pub fn plan_image(path: &str, source_dir: &str, html_dir: &str, image_dir: &str) -> (r:
    ImageRequest)
    ensures
        r@ == image_plan(path@, source_dir@, html_dir@, image_dir@),
{
    let mut source = source_dir.to_owned();
    source.append("/");
    source.append(image_dir);
    source.append("/");
    source.append(path);
    let name = file_name(source.as_str());
    let mut target = html_dir.to_owned();
    target.append("/images/");
    target.append(name.as_str());
    let mut replacement = "images/".to_owned();
    replacement.append(name.as_str());
    ImageRequest { source, target, replacement }
}

/// Says what is to be done for an image reference as it stands in the
/// rendered text: the path is percent-decoded first. Nothing where the
/// reference does not decode.
pub fn image_request(reference: &str, source_dir: &str, html_dir: &str, image_dir: &str) -> (r:
    Option<ImageRequest>)
    ensures
        match r {
            Some(request) => percent_decoded(reference@) matches Some(path) && request@
                == image_plan(path, source_dir@, html_dir@, image_dir@),
            None => percent_decoded(reference@) is None,
        },
{
    match percent_decode(reference) {
        Some(path) => Some(plan_image(path.as_str(), source_dir, html_dir, image_dir)),
        None => None,
    }
}

/// What is done for an image once it is known which files exist.
pub struct ImageStep {
    /// Whether the image is copied to its place in the output.
    pub copy: bool,
    /// Whether the reference is rewritten to that place.
    pub rewrite: bool,
}

/// Decides what is done for an image. An image that is found is referred to
/// at its place in the output, and copied there unless a file of that name
/// is there already. An image that is not found is left as it is referred
/// to.
pub fn image_step(source_exists: bool, target_exists: bool) -> (r: ImageStep)
    ensures
        r.rewrite == source_exists,
        r.copy == (source_exists && !target_exists),
{
    ImageStep { copy: source_exists && !target_exists, rewrite: source_exists }
}

/// The texts of an optional text.
pub open spec fn maybe_text(t: Option<Seq<char>>) -> Seq<Seq<char>> {
    match t {
        Some(t) => seq![t],
        None => Seq::empty(),
    }
}

/// The rendered texts of an enumeration value.
pub open spec fn value_texts(v: EnumValueView) -> Seq<Seq<char>> {
    maybe_text(v.initializer) + seq![v.description]
}

/// The rendered texts of the enumeration values `vs[from..]`.
pub open spec fn values_texts(vs: Seq<EnumValueView>, from: int) -> Seq<Seq<char>>
    decreases vs.len() - from,
{
    if from < 0 || from >= vs.len() {
        Seq::empty()
    } else {
        value_texts(vs[from]) + values_texts(vs, from + 1)
    }
}

/// The rendered texts of a member.
pub open spec fn member_texts(m: MemberView) -> Seq<Seq<char>> {
    seq![m.definition, m.description] + values_texts(m.enum_values, 0)
}

/// The rendered texts of the members `ms[from..]`.
pub open spec fn members_texts(ms: Seq<MemberView>, from: int) -> Seq<Seq<char>>
    decreases ms.len() - from,
{
    if from < 0 || from >= ms.len() {
        Seq::empty()
    } else {
        member_texts(ms[from]) + members_texts(ms, from + 1)
    }
}

/// The rendered texts of a section.
pub open spec fn section_texts(s: SectionView) -> Seq<Seq<char>> {
    maybe_text(s.description) + members_texts(s.members, 0)
}

/// The rendered texts of the sections `ss[from..]`.
pub open spec fn sections_texts(ss: Seq<SectionView>, from: int) -> Seq<Seq<char>>
    decreases ss.len() - from,
{
    if from < 0 || from >= ss.len() {
        Seq::empty()
    } else {
        section_texts(ss[from]) + sections_texts(ss, from + 1)
    }
}

/// The rendered texts of a scope.
pub open spec fn scope_texts(s: ScopeView) -> Seq<Seq<char>> {
    seq![s.name] + sections_texts(s.sections, 0)
}

/// The rendered texts of the scopes `scopes[from..]`.
pub open spec fn scopes_texts(scopes: Seq<ScopeView>, from: int) -> Seq<Seq<char>>
    decreases scopes.len() - from,
{
    if from < 0 || from >= scopes.len() {
        Seq::empty()
    } else {
        scope_texts(scopes[from]) + scopes_texts(scopes, from + 1)
    }
}

/// Every rendered text of a file, in order: the texts that the second pass
/// rewrites.
pub open spec fn file_texts(f: FileView) -> Seq<Seq<char>> {
    scopes_texts(f.scopes, 0)
}

/// The identifiers of the placeholders in the texts `texts[from..]`.
pub open spec fn placeholders_in(kind: Placeholder, texts: Seq<Seq<char>>, from: int) -> Seq<
    Seq<char>,
>
    decreases texts.len() - from,
{
    if from < 0 || from >= texts.len() {
        Seq::empty()
    } else {
        placeholders(kind, texts[from]) + placeholders_in(kind, texts, from + 1)
    }
}

/// Adding a text to a list adds its placeholders at the end.
pub proof fn lemma_placeholders_push(kind: Placeholder, texts: Seq<Seq<char>>, t: Seq<char>, from: int)
    requires
        0 <= from <= texts.len(),
    ensures
        placeholders_in(kind, texts.push(t), from) == placeholders_in(kind, texts, from)
            + placeholders(kind, t),
    decreases texts.len() - from,
{
    let longer = texts.push(t);
    if from < texts.len() {
        lemma_placeholders_push(kind, texts, t, from + 1);
        assert(longer[from] == texts[from]);
        assert(placeholders(kind, texts[from]) + (placeholders_in(kind, texts, from + 1)
            + placeholders(kind, t)) =~= placeholders_in(kind, texts, from) + placeholders(kind, t));
    } else {
        assert(placeholders_in(kind, longer, from + 1) =~= Seq::<Seq<char>>::empty());
        assert(placeholders_in(kind, longer, from) =~= placeholders(kind, t));
        assert(placeholders_in(kind, texts, from) + placeholders(kind, t) =~= placeholders(
            kind,
            t,
        ));
    }
}

/// Collects the placeholders of one text after those found before.
fn collect(kind: Placeholder, text: &str, found: &mut Vec<String>, Ghost(texts): Ghost<Seq<Seq<char>>>)
    requires
        strings_of(old(found)@) == placeholders_in(kind, texts, 0),
    ensures
        strings_of(final(found)@) == placeholders_in(kind, texts.push(text@), 0),
{
    let mut more = find_placeholders(kind, text);
    let ghost before = found@;
    let ghost added = more@;
    found.append(&mut more);
    proof {
        lemma_placeholders_push(kind, texts, text@, 0);
        assert(strings_of(found@) =~= strings_of(before) + strings_of(added));
    }
}

fn collect_optional(
    kind: Placeholder,
    text: &Option<String>,
    found: &mut Vec<String>,
    Ghost(texts): Ghost<Seq<Seq<char>>>,
)
    requires
        strings_of(old(found)@) == placeholders_in(kind, texts, 0),
    ensures
        strings_of(final(found)@) == placeholders_in(
            kind,
            texts + maybe_text(crate::model::optional(*text)),
            0,
        ),
{
    match text {
        Some(t) => {
            collect(kind, t.as_str(), found, Ghost(texts));
            assert(texts.push(t@) =~= texts + maybe_text(crate::model::optional(*text)));
        },
        None => {
            assert(texts =~= texts + maybe_text(crate::model::optional(*text)));
        },
    }
}

fn collect_member(
    kind: Placeholder,
    m: &Member,
    found: &mut Vec<String>,
    Ghost(texts): Ghost<Seq<Seq<char>>>,
)
    requires
        strings_of(old(found)@) == placeholders_in(kind, texts, 0),
    ensures
        strings_of(final(found)@) == placeholders_in(kind, texts + member_texts(m@), 0),
{
    collect(kind, m.definition.as_str(), found, Ghost(texts));
    collect(kind, m.description.as_str(), found, Ghost(texts.push(m.definition@)));
    let ghost vs = m@.enum_values;
    let ghost start = texts.push(m.definition@).push(m.description@);
    let ghost mut sofar = start;
    let mut i: usize = 0;
    assert(sofar + values_texts(vs, 0) =~= texts + member_texts(m@));
    while i < m.enum_values.len()
        invariant
            i <= m.enum_values.len(),
            vs == views(m.enum_values@),
            strings_of(found@) == placeholders_in(kind, sofar, 0),
            sofar + values_texts(vs, i as int) == texts + member_texts(m@),
        decreases m.enum_values.len() - i,
    {
        let v = &m.enum_values[i];
        collect_optional(kind, &v.initializer, found, Ghost(sofar));
        let ghost middle = sofar + maybe_text(v@.initializer);
        collect(kind, v.description.as_str(), found, Ghost(middle));
        proof {
            assert(middle.push(v@.description) + values_texts(vs, i + 1) =~= sofar + values_texts(
                vs,
                i as int,
            ));
            sofar = middle.push(v@.description);
        }
        i += 1;
    }
    assert(sofar + values_texts(vs, i as int) =~= sofar);
}

fn collect_section(
    kind: Placeholder,
    s: &Section,
    found: &mut Vec<String>,
    Ghost(texts): Ghost<Seq<Seq<char>>>,
)
    requires
        strings_of(old(found)@) == placeholders_in(kind, texts, 0),
    ensures
        strings_of(final(found)@) == placeholders_in(kind, texts + section_texts(s@), 0),
{
    collect_optional(kind, &s.description, found, Ghost(texts));
    let ghost ms = s@.members;
    let ghost mut sofar = texts + maybe_text(s@.description);
    let mut i: usize = 0;
    assert(sofar + members_texts(ms, 0) =~= texts + section_texts(s@));
    while i < s.members.len()
        invariant
            i <= s.members.len(),
            ms == views(s.members@),
            strings_of(found@) == placeholders_in(kind, sofar, 0),
            sofar + members_texts(ms, i as int) == texts + section_texts(s@),
        decreases s.members.len() - i,
    {
        let m = &s.members[i];
        collect_member(kind, m, found, Ghost(sofar));
        proof {
            assert((sofar + member_texts(m@)) + members_texts(ms, i + 1) =~= sofar + members_texts(
                ms,
                i as int,
            ));
            sofar = sofar + member_texts(m@);
        }
        i += 1;
    }
    assert(sofar + members_texts(ms, i as int) =~= sofar);
}

fn collect_scope(
    kind: Placeholder,
    s: &Scope,
    found: &mut Vec<String>,
    Ghost(texts): Ghost<Seq<Seq<char>>>,
)
    requires
        strings_of(old(found)@) == placeholders_in(kind, texts, 0),
    ensures
        strings_of(final(found)@) == placeholders_in(kind, texts + scope_texts(s@), 0),
{
    collect(kind, s.name.as_str(), found, Ghost(texts));
    let ghost ss = s@.sections;
    let ghost mut sofar = texts.push(s.name@);
    let mut i: usize = 0;
    assert(sofar + sections_texts(ss, 0) =~= texts + scope_texts(s@));
    while i < s.sections.len()
        invariant
            i <= s.sections.len(),
            ss == views(s.sections@),
            strings_of(found@) == placeholders_in(kind, sofar, 0),
            sofar + sections_texts(ss, i as int) == texts + scope_texts(s@),
        decreases s.sections.len() - i,
    {
        let section = &s.sections[i];
        collect_section(kind, section, found, Ghost(sofar));
        proof {
            assert((sofar + section_texts(section@)) + sections_texts(ss, i + 1) =~= sofar
                + sections_texts(ss, i as int));
            sofar = sofar + section_texts(section@);
        }
        i += 1;
    }
    assert(sofar + sections_texts(ss, i as int) =~= sofar);
}

/// Lists the placeholders of the given kind in every rendered text of a
/// file, in order.
pub fn file_placeholders(kind: Placeholder, file: &File) -> (r: Vec<String>)
    ensures
        strings_of(r@) == placeholders_in(kind, file_texts(file@), 0),
{
    let mut found: Vec<String> = Vec::new();
    let ghost scopes = file@.scopes;
    let ghost mut sofar: Seq<Seq<char>> = Seq::empty();
    let mut i: usize = 0;
    assert(strings_of(found@) =~= placeholders_in(kind, sofar, 0));
    assert(sofar + scopes_texts(scopes, 0) =~= file_texts(file@));
    while i < file.scopes.len()
        invariant
            i <= file.scopes.len(),
            scopes == views(file.scopes@),
            strings_of(found@) == placeholders_in(kind, sofar, 0),
            sofar + scopes_texts(scopes, i as int) == file_texts(file@),
        decreases file.scopes.len() - i,
    {
        let scope = &file.scopes[i];
        collect_scope(kind, scope, &mut found, Ghost(sofar));
        proof {
            assert((sofar + scope_texts(scope@)) + scopes_texts(scopes, i + 1) =~= sofar
                + scopes_texts(scopes, i as int));
            sofar = sofar + scope_texts(scope@);
        }
        i += 1;
    }
    assert(sofar + scopes_texts(scopes, i as int) =~= sofar);
    found
}

/// Lists the placeholders of the given kind in the description of a page,
/// in order.
pub fn page_placeholders(kind: Placeholder, page: &Page) -> (r: Vec<String>)
    ensures
        strings_of(r@) == placeholders(kind, page@.description),
{
    find_placeholders(kind, page.description.as_str())
}

} // verus!
