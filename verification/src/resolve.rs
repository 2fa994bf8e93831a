//! The cross-reference resolver on entities: the table of every identifier
//! of a run, and the second pass that rewrites the rendered text of an
//! entity.

use vstd::prelude::*;
use vstd::string::*;
use crate::links::{not_found, relink, relinked, resolved, Placeholder, RefMap};
use crate::model::{
    lemma_views_push, optional, views, Compound, CompoundView, EnumValue, EnumValueView, File,
    FileView, Member, MemberView, Page, PageCommon, PageView, Scope, ScopeView, Section,
    SectionView,
};
use crate::text::wrapped;

verus! {

/// The location of a file or page: the page that is generated for it.
pub open spec fn page_file(ref_id: Seq<char>) -> Seq<char> {
    ref_id + ".html"@
}

/// The location of an entity within the page of its file.
pub open spec fn anchored(file: Seq<char>, id: Seq<char>) -> Seq<char> {
    file + "#"@ + id
}

/// The table after the enumeration values `vs[from..]` have been entered.
pub open spec fn with_values(
    m: Map<Seq<char>, Seq<char>>,
    file: Seq<char>,
    vs: Seq<EnumValueView>,
    from: int,
) -> Map<Seq<char>, Seq<char>>
    decreases vs.len() - from,
{
    if from < 0 || from >= vs.len() {
        m
    } else {
        with_values(m.insert(vs[from].ref_id, anchored(file, vs[from].ref_id)), file, vs, from + 1)
    }
}

/// The table after a member and its enumeration values have been entered.
pub open spec fn with_member(m: Map<Seq<char>, Seq<char>>, file: Seq<char>, member: MemberView)
    -> Map<Seq<char>, Seq<char>> {
    with_values(
        m.insert(member.ref_id, anchored(file, member.ref_id)),
        file,
        member.enum_values,
        0,
    )
}

/// The table after the members `ms[from..]` have been entered.
pub open spec fn with_members(
    m: Map<Seq<char>, Seq<char>>,
    file: Seq<char>,
    ms: Seq<MemberView>,
    from: int,
) -> Map<Seq<char>, Seq<char>>
    decreases ms.len() - from,
{
    if from < 0 || from >= ms.len() {
        m
    } else {
        with_members(with_member(m, file, ms[from]), file, ms, from + 1)
    }
}

/// The table after the members of the sections `ss[from..]` have been
/// entered.
pub open spec fn with_sections(
    m: Map<Seq<char>, Seq<char>>,
    file: Seq<char>,
    ss: Seq<SectionView>,
    from: int,
) -> Map<Seq<char>, Seq<char>>
    decreases ss.len() - from,
{
    if from < 0 || from >= ss.len() {
        m
    } else {
        with_sections(with_members(m, file, ss[from].members, 0), file, ss, from + 1)
    }
}

/// The table after a scope and everything in it have been entered.
pub open spec fn with_scope(m: Map<Seq<char>, Seq<char>>, file: Seq<char>, scope: ScopeView)
    -> Map<Seq<char>, Seq<char>> {
    with_sections(m.insert(scope.ref_id, anchored(file, scope.ref_id)), file, scope.sections, 0)
}

/// The table after the scopes `scopes[from..]` have been entered.
pub open spec fn with_scopes(
    m: Map<Seq<char>, Seq<char>>,
    file: Seq<char>,
    scopes: Seq<ScopeView>,
    from: int,
) -> Map<Seq<char>, Seq<char>>
    decreases scopes.len() - from,
{
    if from < 0 || from >= scopes.len() {
        m
    } else {
        with_scopes(with_scope(m, file, scopes[from]), file, scopes, from + 1)
    }
}

/// The table after a compound and everything in it have been entered.
pub open spec fn with_compound(m: Map<Seq<char>, Seq<char>>, c: CompoundView) -> Map<
    Seq<char>,
    Seq<char>,
> {
    match c {
        CompoundView::File(f) => with_scopes(
            m.insert(f.common.ref_id, page_file(f.common.ref_id)),
            page_file(f.common.ref_id),
            f.scopes,
            0,
        ),
        CompoundView::Page(p) => m.insert(p.common.ref_id, page_file(p.common.ref_id)),
    }
}

/// The table after the compounds `cs[from..]` have been entered.
pub open spec fn with_compounds(m: Map<Seq<char>, Seq<char>>, cs: Seq<CompoundView>, from: int)
    -> Map<Seq<char>, Seq<char>>
    decreases cs.len() - from,
{
    if from < 0 || from >= cs.len() {
        m
    } else {
        with_compounds(with_compound(m, cs[from]), cs, from + 1)
    }
}

/// The table of a run: every file and page under the name of its page,
/// every scope, member and enumeration value under the page of its file
/// with its identifier as the anchor. Where an identifier occurs twice, the
/// later entity has it.
pub open spec fn ref_map(cs: Seq<CompoundView>) -> Map<Seq<char>, Seq<char>> {
    with_compounds(Map::empty(), cs, 0)
}

/// The name of the page that is generated for a file or page.
pub fn page_name(ref_id: &str) -> (r: String)
    ensures
        r@ == page_file(ref_id@),
{
    let mut r = ref_id.to_owned();
    r.append(".html");
    r
}

fn anchor(file: &str, id: &str) -> (r: String)
    ensures
        r@ == anchored(file@, id@),
{
    wrapped(file, "#", id)
}

fn add_member(map: &mut RefMap, file: &str, member: &Member)
    ensures
        final(map)@ == with_member(old(map)@, file@, member@),
{
    map.insert(member.ref_id.clone(), anchor(file, member.ref_id.as_str()));
    let ghost start = map@;
    let ghost vs = member@.enum_values;
    let mut i: usize = 0;
    while i < member.enum_values.len()
        invariant
            i <= member.enum_values.len(),
            vs == views(member.enum_values@),
            with_values(start, file@, vs, 0) == with_values(map@, file@, vs, i as int),
        decreases member.enum_values.len() - i,
    {
        let value = &member.enum_values[i];
        map.insert(value.ref_id.clone(), anchor(file, value.ref_id.as_str()));
        i += 1;
    }
}

fn add_scope(map: &mut RefMap, file: &str, scope: &Scope)
    ensures
        final(map)@ == with_scope(old(map)@, file@, scope@),
{
    map.insert(scope.ref_id.clone(), anchor(file, scope.ref_id.as_str()));
    let ghost start = map@;
    let ghost ss = scope@.sections;
    let mut i: usize = 0;
    while i < scope.sections.len()
        invariant
            i <= scope.sections.len(),
            ss == views(scope.sections@),
            with_sections(start, file@, ss, 0) == with_sections(map@, file@, ss, i as int),
        decreases scope.sections.len() - i,
    {
        let section = &scope.sections[i];
        let ghost before = map@;
        let ghost ms = section@.members;
        let mut k: usize = 0;
        while k < section.members.len()
            invariant
                k <= section.members.len(),
                ms == views(section.members@),
                with_members(before, file@, ms, 0) == with_members(map@, file@, ms, k as int),
            decreases section.members.len() - k,
        {
            add_member(map, file, &section.members[k]);
            k += 1;
        }
        i += 1;
    }
}

/// Builds the table of a run from all its compounds.
pub fn create_ref_to_path_map(compounds: &Vec<Compound>) -> (map: RefMap)
    ensures
        map@ == ref_map(views(compounds@)),
{
    let mut map = RefMap::new();
    let ghost cs = views(compounds@);
    let mut i: usize = 0;
    while i < compounds.len()
        invariant
            i <= compounds.len(),
            cs == views(compounds@),
            ref_map(cs) == with_compounds(map@, cs, i as int),
        decreases compounds.len() - i,
    {
        match &compounds[i] {
            Compound::File(file) => {
                let name = page_name(file.common.ref_id.as_str());
                map.insert(file.common.ref_id.clone(), name.clone());
                let ghost start = map@;
                let ghost scopes = file@.scopes;
                let mut k: usize = 0;
                while k < file.scopes.len()
                    invariant
                        k <= file.scopes.len(),
                        scopes == views(file.scopes@),
                        with_scopes(start, name@, scopes, 0) == with_scopes(
                            map@,
                            name@,
                            scopes,
                            k as int,
                        ),
                    decreases file.scopes.len() - k,
                {
                    add_scope(&mut map, name.as_str(), &file.scopes[k]);
                    k += 1;
                }
            },
            Compound::Page(page) => {
                let name = page_name(page.common.ref_id.as_str());
                map.insert(page.common.ref_id.clone(), name);
            },
        }
        i += 1;
    }
    map
}

/// Whether `location` is where the entity `id` is found: the page of `id`
/// itself, or a page with `id` as the anchor.
pub open spec fn locates(location: Seq<char>, id: Seq<char>) -> bool {
    location == page_file(id) || exists|file: Seq<char>| location == anchored(file, id)
}

/// Whether every entry of a table holds a location of its identifier.
pub open spec fn well_located(m: Map<Seq<char>, Seq<char>>) -> bool {
    forall|id: Seq<char>| m.contains_key(id) ==> locates(#[trigger] m[id], id)
}

proof fn lemma_insert_anchor(m: Map<Seq<char>, Seq<char>>, file: Seq<char>, id: Seq<char>)
    requires
        well_located(m),
    ensures
        well_located(m.insert(id, anchored(file, id))),
{
    let n = m.insert(id, anchored(file, id));
    assert forall|k: Seq<char>| n.contains_key(k) implies locates(#[trigger] n[k], k) by {
        if k == id {
            assert(n[k] == anchored(file, id));
        } else {
            assert(m.contains_key(k));
            assert(n[k] == m[k]);
        }
    }
}

proof fn lemma_values_located(
    m: Map<Seq<char>, Seq<char>>,
    file: Seq<char>,
    vs: Seq<EnumValueView>,
    from: int,
)
    requires
        well_located(m),
    ensures
        well_located(with_values(m, file, vs, from)),
    decreases vs.len() - from,
{
    if 0 <= from < vs.len() {
        lemma_insert_anchor(m, file, vs[from].ref_id);
        lemma_values_located(
            m.insert(vs[from].ref_id, anchored(file, vs[from].ref_id)),
            file,
            vs,
            from + 1,
        );
    }
}

proof fn lemma_members_located(
    m: Map<Seq<char>, Seq<char>>,
    file: Seq<char>,
    ms: Seq<MemberView>,
    from: int,
)
    requires
        well_located(m),
    ensures
        well_located(with_members(m, file, ms, from)),
    decreases ms.len() - from,
{
    if 0 <= from < ms.len() {
        lemma_insert_anchor(m, file, ms[from].ref_id);
        lemma_values_located(
            m.insert(ms[from].ref_id, anchored(file, ms[from].ref_id)),
            file,
            ms[from].enum_values,
            0,
        );
        lemma_members_located(with_member(m, file, ms[from]), file, ms, from + 1);
    }
}

proof fn lemma_sections_located(
    m: Map<Seq<char>, Seq<char>>,
    file: Seq<char>,
    ss: Seq<SectionView>,
    from: int,
)
    requires
        well_located(m),
    ensures
        well_located(with_sections(m, file, ss, from)),
    decreases ss.len() - from,
{
    if 0 <= from < ss.len() {
        lemma_members_located(m, file, ss[from].members, 0);
        lemma_sections_located(with_members(m, file, ss[from].members, 0), file, ss, from + 1);
    }
}

proof fn lemma_scopes_located(
    m: Map<Seq<char>, Seq<char>>,
    file: Seq<char>,
    scopes: Seq<ScopeView>,
    from: int,
)
    requires
        well_located(m),
    ensures
        well_located(with_scopes(m, file, scopes, from)),
    decreases scopes.len() - from,
{
    if 0 <= from < scopes.len() {
        lemma_insert_anchor(m, file, scopes[from].ref_id);
        lemma_sections_located(
            m.insert(scopes[from].ref_id, anchored(file, scopes[from].ref_id)),
            file,
            scopes[from].sections,
            0,
        );
        lemma_scopes_located(with_scope(m, file, scopes[from]), file, scopes, from + 1);
    }
}

proof fn lemma_compounds_located(m: Map<Seq<char>, Seq<char>>, cs: Seq<CompoundView>, from: int)
    requires
        well_located(m),
    ensures
        well_located(with_compounds(m, cs, from)),
    decreases cs.len() - from,
{
    if 0 <= from < cs.len() {
        let id = match cs[from] {
            CompoundView::File(f) => f.common.ref_id,
            CompoundView::Page(p) => p.common.ref_id,
        };
        let n = m.insert(id, page_file(id));
        assert forall|k: Seq<char>| n.contains_key(k) implies locates(#[trigger] n[k], k) by {
            if k != id {
                assert(m.contains_key(k));
                assert(n[k] == m[k]);
            }
        }
        match cs[from] {
            CompoundView::File(f) => {
                lemma_scopes_located(n, page_file(id), f.scopes, 0);
            },
            CompoundView::Page(p) => {},
        }
        lemma_compounds_located(with_compound(m, cs[from]), cs, from + 1);
    }
}

/// A reference to an identifier that the run knows resolves to a location
/// of that identifier: its own page, or a page with the identifier as the
/// anchor. A reference to an identifier that the run does not know resolves
/// to the not-found marker, which is not empty.
pub proof fn lemma_reference_resolution(compounds: Seq<CompoundView>, id: Seq<char>)
    ensures
        ref_map(compounds).contains_key(id) ==> locates(
            resolved(Placeholder::Reference, ref_map(compounds), id),
            id,
        ),
        !ref_map(compounds).contains_key(id) ==> resolved(
            Placeholder::Reference,
            ref_map(compounds),
            id,
        ) == not_found(),
        not_found().len() > 0,
{
    reveal_strlit("not-found");
    lemma_compounds_located(Map::empty(), compounds, 0);
}

/// The content of an enumeration value after its rendered text has been
/// rewritten.
pub open spec fn relinked_value(kind: Placeholder, v: EnumValueView, map: Map<Seq<char>, Seq<char>>)
    -> EnumValueView {
    EnumValueView {
        ref_id: v.ref_id,
        name: v.name,
        initializer: match v.initializer {
            Some(t) => Some(relinked(kind, t, map)),
            None => None,
        },
        description: relinked(kind, v.description, map),
    }
}

/// The content of a member after its rendered text has been rewritten.
pub open spec fn relinked_member(kind: Placeholder, m: MemberView, map: Map<Seq<char>, Seq<char>>)
    -> MemberView {
    MemberView {
        ref_id: m.ref_id,
        definition: relinked(kind, m.definition, map),
        description: relinked(kind, m.description, map),
        enum_values: Seq::new(
            m.enum_values.len(),
            |i: int| relinked_value(kind, m.enum_values[i], map),
        ),
    }
}

/// The content of a section after its rendered text has been rewritten.
pub open spec fn relinked_section(
    kind: Placeholder,
    s: SectionView,
    map: Map<Seq<char>, Seq<char>>,
) -> SectionView {
    SectionView {
        name: s.name,
        description: match s.description {
            Some(t) => Some(relinked(kind, t, map)),
            None => None,
        },
        members: Seq::new(s.members.len(), |i: int| relinked_member(kind, s.members[i], map)),
    }
}

/// The content of a scope after its rendered text has been rewritten.
pub open spec fn relinked_scope(kind: Placeholder, s: ScopeView, map: Map<Seq<char>, Seq<char>>)
    -> ScopeView {
    ScopeView {
        ref_id: s.ref_id,
        name: relinked(kind, s.name, map),
        kind: s.kind,
        sections: Seq::new(s.sections.len(), |i: int| relinked_section(kind, s.sections[i], map)),
    }
}

/// The content of a file after the rendered text of everything in it has
/// been rewritten.
pub open spec fn relinked_file(kind: Placeholder, f: FileView, map: Map<Seq<char>, Seq<char>>)
    -> FileView {
    FileView {
        common: f.common,
        scopes: Seq::new(f.scopes.len(), |i: int| relinked_scope(kind, f.scopes[i], map)),
    }
}

/// The content of a page after its description has been rewritten.
pub open spec fn relinked_page(kind: Placeholder, p: PageView, map: Map<Seq<char>, Seq<char>>)
    -> PageView {
    PageView { common: p.common, description: relinked(kind, p.description, map) }
}

fn relink_optional(kind: Placeholder, text: &Option<String>, map: &RefMap) -> (r: Option<String>)
    ensures
        optional(r) == match optional(*text) {
            Some(t) => Some(relinked(kind, t, map@)),
            None => None,
        },
{
    match text {
        Some(t) => Some(relink(kind, t.as_str(), map)),
        None => None,
    }
}

fn relink_value(kind: Placeholder, v: &EnumValue, map: &RefMap) -> (r: EnumValue)
    ensures
        r@ == relinked_value(kind, v@, map@),
{
    EnumValue {
        ref_id: v.ref_id.clone(),
        name: v.name.clone(),
        initializer: relink_optional(kind, &v.initializer, map),
        description: relink(kind, v.description.as_str(), map),
    }
}

fn relink_member(kind: Placeholder, m: &Member, map: &RefMap) -> (r: Member)
    ensures
        r@ == relinked_member(kind, m@, map@),
{
    let mut values: Vec<EnumValue> = Vec::new();
    let ghost expected = relinked_member(kind, m@, map@).enum_values;
    let mut i: usize = 0;
    while i < m.enum_values.len()
        invariant
            i <= m.enum_values.len(),
            expected == relinked_member(kind, m@, map@).enum_values,
            views(values@) =~= expected.take(i as int),
        decreases m.enum_values.len() - i,
    {
        let value = relink_value(kind, &m.enum_values[i], map);
        proof {
            lemma_views_push(values@, value);
        }
        values.push(value);
        i += 1;
    }
    assert(views(values@) =~= expected);
    Member {
        ref_id: m.ref_id.clone(),
        definition: relink(kind, m.definition.as_str(), map),
        description: relink(kind, m.description.as_str(), map),
        enum_values: values,
    }
}

fn relink_section(kind: Placeholder, s: &Section, map: &RefMap) -> (r: Section)
    ensures
        r@ == relinked_section(kind, s@, map@),
{
    let mut members: Vec<Member> = Vec::new();
    let ghost expected = relinked_section(kind, s@, map@).members;
    let mut i: usize = 0;
    while i < s.members.len()
        invariant
            i <= s.members.len(),
            expected == relinked_section(kind, s@, map@).members,
            views(members@) =~= expected.take(i as int),
        decreases s.members.len() - i,
    {
        let member = relink_member(kind, &s.members[i], map);
        proof {
            lemma_views_push(members@, member);
        }
        members.push(member);
        i += 1;
    }
    assert(views(members@) =~= expected);
    let name = match &s.name {
        Some(n) => Some(n.clone()),
        None => None,
    };
    Section { name, description: relink_optional(kind, &s.description, map), members }
}

fn relink_scope(kind: Placeholder, s: &Scope, map: &RefMap) -> (r: Scope)
    ensures
        r@ == relinked_scope(kind, s@, map@),
{
    let mut sections: Vec<Section> = Vec::new();
    let ghost expected = relinked_scope(kind, s@, map@).sections;
    let mut i: usize = 0;
    while i < s.sections.len()
        invariant
            i <= s.sections.len(),
            expected == relinked_scope(kind, s@, map@).sections,
            views(sections@) =~= expected.take(i as int),
        decreases s.sections.len() - i,
    {
        let section = relink_section(kind, &s.sections[i], map);
        proof {
            lemma_views_push(sections@, section);
        }
        sections.push(section);
        i += 1;
    }
    assert(views(sections@) =~= expected);
    Scope {
        ref_id: s.ref_id.clone(),
        name: relink(kind, s.name.as_str(), map),
        kind: s.kind.clone(),
        sections,
    }
}

fn copy_common(c: &PageCommon) -> (r: PageCommon)
    ensures
        r@ == c@,
{
    let mut subpages: Vec<String> = Vec::new();
    let mut i: usize = 0;
    while i < c.subpage_refs.len()
        invariant
            i <= c.subpage_refs.len(),
            crate::text::strings_of(subpages@) =~= crate::text::strings_of(c.subpage_refs@).take(
                i as int,
            ),
        decreases c.subpage_refs.len() - i,
    {
        let copy = c.subpage_refs[i].clone();
        assert(crate::text::strings_of(subpages@.push(copy)) =~= crate::text::strings_of(
            subpages@,
        ).push(copy@));
        subpages.push(copy);
        i += 1;
    }
    assert(crate::text::strings_of(subpages@) =~= crate::text::strings_of(c.subpage_refs@));
    PageCommon {
        ref_id: c.ref_id.clone(),
        source: c.source.clone(),
        title: c.title.clone(),
        has_math: c.has_math,
        subpage_refs: subpages,
    }
}

/// Rewrites the placeholders of the given kind in every rendered text of a
/// file: the names of its scopes, the descriptions of its sections, the
/// signatures and descriptions of its members, the initializers and
/// descriptions of its enumeration values.
pub fn relink_file(kind: Placeholder, file: &File, map: &RefMap) -> (r: File)
    ensures
        r@ == relinked_file(kind, file@, map@),
{
    let mut scopes: Vec<Scope> = Vec::new();
    let ghost expected = relinked_file(kind, file@, map@).scopes;
    let mut i: usize = 0;
    while i < file.scopes.len()
        invariant
            i <= file.scopes.len(),
            expected == relinked_file(kind, file@, map@).scopes,
            views(scopes@) =~= expected.take(i as int),
        decreases file.scopes.len() - i,
    {
        let scope = relink_scope(kind, &file.scopes[i], map);
        proof {
            lemma_views_push(scopes@, scope);
        }
        scopes.push(scope);
        i += 1;
    }
    assert(views(scopes@) =~= expected);
    File { common: copy_common(&file.common), scopes }
}

/// Rewrites the placeholders of the given kind in the description of a
/// page.
pub fn relink_page(kind: Placeholder, page: &Page, map: &RefMap) -> (r: Page)
    ensures
        r@ == relinked_page(kind, page@, map@),
{
    Page {
        common: copy_common(&page.common),
        description: relink(kind, page.description.as_str(), map),
    }
}

} // verus!
