//! Where the identifiers of a run lead when no identifier occurs twice:
//! everything that a file holds is found on the page of that file, under its
//! own identifier as the anchor.

use vstd::prelude::*;
use crate::model::{CompoundView, EnumValueView, MemberView, ScopeView, SectionView};
use crate::resolve::{
    anchored, page_file, ref_map, with_compound, with_compounds, with_member, with_members,
    with_scope, with_scopes, with_sections, with_values,
};

verus! {

/// The table after the entries `es[from..]` have been entered in order.
pub open spec fn inserted(
    m: Map<Seq<char>, Seq<char>>,
    es: Seq<(Seq<char>, Seq<char>)>,
    from: int,
) -> Map<Seq<char>, Seq<char>>
    decreases es.len() - from,
{
    if from < 0 || from >= es.len() {
        m
    } else {
        inserted(m.insert(es[from].0, es[from].1), es, from + 1)
    }
}

/// The entry of an entity that stands on the page `file`.
pub open spec fn anchor_entry(file: Seq<char>, id: Seq<char>) -> (Seq<char>, Seq<char>) {
    (id, anchored(file, id))
}

/// The entries of the enumeration values `vs[from..]`.
pub open spec fn value_entries(file: Seq<char>, vs: Seq<EnumValueView>, from: int) -> Seq<
    (Seq<char>, Seq<char>),
>
    decreases vs.len() - from,
{
    if from < 0 || from >= vs.len() {
        Seq::empty()
    } else {
        seq![anchor_entry(file, vs[from].ref_id)] + value_entries(file, vs, from + 1)
    }
}

/// The entries of a member and of its enumeration values.
pub open spec fn member_entries(file: Seq<char>, m: MemberView) -> Seq<(Seq<char>, Seq<char>)> {
    seq![anchor_entry(file, m.ref_id)] + value_entries(file, m.enum_values, 0)
}

/// The entries of the members `ms[from..]`.
pub open spec fn members_entries(file: Seq<char>, ms: Seq<MemberView>, from: int) -> Seq<
    (Seq<char>, Seq<char>),
>
    decreases ms.len() - from,
{
    if from < 0 || from >= ms.len() {
        Seq::empty()
    } else {
        member_entries(file, ms[from]) + members_entries(file, ms, from + 1)
    }
}

/// The entries of the members of the sections `ss[from..]`.
pub open spec fn sections_entries(file: Seq<char>, ss: Seq<SectionView>, from: int) -> Seq<
    (Seq<char>, Seq<char>),
>
    decreases ss.len() - from,
{
    if from < 0 || from >= ss.len() {
        Seq::empty()
    } else {
        members_entries(file, ss[from].members, 0) + sections_entries(file, ss, from + 1)
    }
}

/// The entries of a scope and of everything in it.
pub open spec fn scope_entries(file: Seq<char>, s: ScopeView) -> Seq<(Seq<char>, Seq<char>)> {
    seq![anchor_entry(file, s.ref_id)] + sections_entries(file, s.sections, 0)
}

/// The entries of the scopes `scopes[from..]`.
pub open spec fn scopes_entries(file: Seq<char>, scopes: Seq<ScopeView>, from: int) -> Seq<
    (Seq<char>, Seq<char>),
>
    decreases scopes.len() - from,
{
    if from < 0 || from >= scopes.len() {
        Seq::empty()
    } else {
        scope_entries(file, scopes[from]) + scopes_entries(file, scopes, from + 1)
    }
}

/// The entries of a compound and of everything in it.
pub open spec fn compound_entries(c: CompoundView) -> Seq<(Seq<char>, Seq<char>)> {
    match c {
        CompoundView::File(f) => seq![(f.common.ref_id, page_file(f.common.ref_id))]
            + scopes_entries(page_file(f.common.ref_id), f.scopes, 0),
        CompoundView::Page(p) => seq![(p.common.ref_id, page_file(p.common.ref_id))],
    }
}

/// Every entry of the compounds `cs[from..]`, in the order in which the
/// table of a run takes them.
pub open spec fn entries(cs: Seq<CompoundView>, from: int) -> Seq<(Seq<char>, Seq<char>)>
    decreases cs.len() - from,
{
    if from < 0 || from >= cs.len() {
        Seq::empty()
    } else {
        compound_entries(cs[from]) + entries(cs, from + 1)
    }
}

/// Whether no identifier occurs twice among the entries.
pub open spec fn distinct(es: Seq<(Seq<char>, Seq<char>)>) -> bool {
    forall|i: int, j: int| 0 <= i < j < es.len() ==> (#[trigger] es[i]).0 != (#[trigger] es[j]).0
}

/// Whether no identifier occurs twice in a run.
pub open spec fn unique_identifiers(cs: Seq<CompoundView>) -> bool {
    distinct(entries(cs, 0))
}

proof fn lemma_inserted_shift(
    m: Map<Seq<char>, Seq<char>>,
    a: Seq<(Seq<char>, Seq<char>)>,
    b: Seq<(Seq<char>, Seq<char>)>,
    j: int,
)
    requires
        0 <= j <= b.len(),
    ensures
        inserted(m, a + b, a.len() + j) == inserted(m, b, j),
    decreases b.len() - j,
{
    if j < b.len() {
        assert((a + b)[a.len() + j] == b[j]);
        lemma_inserted_shift(m.insert(b[j].0, b[j].1), a, b, j + 1);
    }
}

proof fn lemma_inserted_append(
    m: Map<Seq<char>, Seq<char>>,
    a: Seq<(Seq<char>, Seq<char>)>,
    b: Seq<(Seq<char>, Seq<char>)>,
    i: int,
)
    requires
        0 <= i <= a.len(),
    ensures
        inserted(m, a + b, i) == inserted(inserted(m, a, i), b, 0),
    decreases a.len() - i,
{
    if i < a.len() {
        assert((a + b)[i] == a[i]);
        lemma_inserted_append(m.insert(a[i].0, a[i].1), a, b, i + 1);
    } else {
        lemma_inserted_shift(m, a, b, 0);
    }
}

proof fn lemma_inserted_first(
    m: Map<Seq<char>, Seq<char>>,
    x: (Seq<char>, Seq<char>),
    rest: Seq<(Seq<char>, Seq<char>)>,
)
    ensures
        inserted(m, seq![x] + rest, 0) == inserted(m.insert(x.0, x.1), rest, 0),
{
    lemma_inserted_append(m, seq![x], rest, 0);
    assert(inserted(m, seq![x], 0) == m.insert(x.0, x.1)) by {
        assert(inserted(m.insert(x.0, x.1), seq![x], 1) == m.insert(x.0, x.1));
    }
}

proof fn lemma_values(m: Map<Seq<char>, Seq<char>>, file: Seq<char>, vs: Seq<EnumValueView>, from: int)
    ensures
        with_values(m, file, vs, from) == inserted(m, value_entries(file, vs, from), 0),
    decreases vs.len() - from,
{
    if 0 <= from < vs.len() {
        let x = anchor_entry(file, vs[from].ref_id);
        lemma_inserted_first(m, x, value_entries(file, vs, from + 1));
        lemma_values(m.insert(x.0, x.1), file, vs, from + 1);
    }
}

proof fn lemma_member(m: Map<Seq<char>, Seq<char>>, file: Seq<char>, member: MemberView)
    ensures
        with_member(m, file, member) == inserted(m, member_entries(file, member), 0),
{
    let x = anchor_entry(file, member.ref_id);
    lemma_inserted_first(m, x, value_entries(file, member.enum_values, 0));
    lemma_values(m.insert(x.0, x.1), file, member.enum_values, 0);
}

proof fn lemma_members(m: Map<Seq<char>, Seq<char>>, file: Seq<char>, ms: Seq<MemberView>, from: int)
    ensures
        with_members(m, file, ms, from) == inserted(m, members_entries(file, ms, from), 0),
    decreases ms.len() - from,
{
    if 0 <= from < ms.len() {
        lemma_member(m, file, ms[from]);
        lemma_inserted_append(
            m,
            member_entries(file, ms[from]),
            members_entries(file, ms, from + 1),
            0,
        );
        lemma_members(with_member(m, file, ms[from]), file, ms, from + 1);
    }
}

proof fn lemma_sections(
    m: Map<Seq<char>, Seq<char>>,
    file: Seq<char>,
    ss: Seq<SectionView>,
    from: int,
)
    ensures
        with_sections(m, file, ss, from) == inserted(m, sections_entries(file, ss, from), 0),
    decreases ss.len() - from,
{
    if 0 <= from < ss.len() {
        lemma_members(m, file, ss[from].members, 0);
        lemma_inserted_append(
            m,
            members_entries(file, ss[from].members, 0),
            sections_entries(file, ss, from + 1),
            0,
        );
        lemma_sections(with_members(m, file, ss[from].members, 0), file, ss, from + 1);
    }
}

proof fn lemma_scope(m: Map<Seq<char>, Seq<char>>, file: Seq<char>, scope: ScopeView)
    ensures
        with_scope(m, file, scope) == inserted(m, scope_entries(file, scope), 0),
{
    let x = anchor_entry(file, scope.ref_id);
    lemma_inserted_first(m, x, sections_entries(file, scope.sections, 0));
    lemma_sections(m.insert(x.0, x.1), file, scope.sections, 0);
}

proof fn lemma_scopes(
    m: Map<Seq<char>, Seq<char>>,
    file: Seq<char>,
    scopes: Seq<ScopeView>,
    from: int,
)
    ensures
        with_scopes(m, file, scopes, from) == inserted(m, scopes_entries(file, scopes, from), 0),
    decreases scopes.len() - from,
{
    if 0 <= from < scopes.len() {
        lemma_scope(m, file, scopes[from]);
        lemma_inserted_append(
            m,
            scope_entries(file, scopes[from]),
            scopes_entries(file, scopes, from + 1),
            0,
        );
        lemma_scopes(with_scope(m, file, scopes[from]), file, scopes, from + 1);
    }
}

proof fn lemma_compound(m: Map<Seq<char>, Seq<char>>, c: CompoundView)
    ensures
        with_compound(m, c) == inserted(m, compound_entries(c), 0),
{
    match c {
        CompoundView::File(f) => {
            let x = (f.common.ref_id, page_file(f.common.ref_id));
            lemma_inserted_first(m, x, scopes_entries(page_file(f.common.ref_id), f.scopes, 0));
            lemma_scopes(m.insert(x.0, x.1), page_file(f.common.ref_id), f.scopes, 0);
        },
        CompoundView::Page(p) => {
            let x = (p.common.ref_id, page_file(p.common.ref_id));
            lemma_inserted_first(m, x, Seq::empty());
            assert(seq![x] + Seq::<(Seq<char>, Seq<char>)>::empty() =~= seq![x]);
        },
    }
}

proof fn lemma_compounds(m: Map<Seq<char>, Seq<char>>, cs: Seq<CompoundView>, from: int)
    ensures
        with_compounds(m, cs, from) == inserted(m, entries(cs, from), 0),
    decreases cs.len() - from,
{
    if 0 <= from < cs.len() {
        lemma_compound(m, cs[from]);
        lemma_inserted_append(m, compound_entries(cs[from]), entries(cs, from + 1), 0);
        lemma_compounds(with_compound(m, cs[from]), cs, from + 1);
    }
}

/// The table of a run is what entering its entries in order gives.
pub proof fn lemma_ref_map_entries(cs: Seq<CompoundView>)
    ensures
        ref_map(cs) == inserted(Map::empty(), entries(cs, 0), 0),
{
    lemma_compounds(Map::empty(), cs, 0);
}

proof fn lemma_frame(
    m: Map<Seq<char>, Seq<char>>,
    es: Seq<(Seq<char>, Seq<char>)>,
    from: int,
    k: Seq<char>,
)
    requires
        0 <= from,
        forall|j: int| from <= j < es.len() ==> (#[trigger] es[j]).0 != k,
    ensures
        inserted(m, es, from).contains_key(k) == m.contains_key(k),
        m.contains_key(k) ==> inserted(m, es, from)[k] == m[k],
    decreases es.len() - from,
{
    if from < es.len() {
        assert(es[from].0 != k);
        lemma_frame(m.insert(es[from].0, es[from].1), es, from + 1, k);
    }
}

proof fn lemma_wins(
    m: Map<Seq<char>, Seq<char>>,
    es: Seq<(Seq<char>, Seq<char>)>,
    from: int,
    i: int,
)
    requires
        0 <= from <= i < es.len(),
        distinct(es),
    ensures
        inserted(m, es, from).contains_key(es[i].0),
        inserted(m, es, from)[es[i].0] == es[i].1,
    decreases i - from,
{
    if from == i {
        assert forall|j: int| i + 1 <= j < es.len() implies (#[trigger] es[j]).0 != es[i].0 by {
            assert(es[i].0 != es[j].0);
        }
        lemma_frame(m.insert(es[i].0, es[i].1), es, i + 1, es[i].0);
    } else {
        lemma_wins(m.insert(es[from].0, es[from].1), es, from + 1, i);
    }
}

/// Where no identifier occurs twice, the table holds every entry of the
/// run as it was entered.
pub proof fn lemma_entry_stands(cs: Seq<CompoundView>, x: (Seq<char>, Seq<char>))
    requires
        unique_identifiers(cs),
        entries(cs, 0).contains(x),
    ensures
        ref_map(cs).contains_key(x.0),
        ref_map(cs)[x.0] == x.1,
{
    let es = entries(cs, 0);
    let i = choose|i: int| 0 <= i < es.len() && es[i] == x;
    lemma_ref_map_entries(cs);
    lemma_wins(Map::empty(), es, 0, i);
}

proof fn lemma_in_left(
    a: Seq<(Seq<char>, Seq<char>)>,
    b: Seq<(Seq<char>, Seq<char>)>,
    x: (Seq<char>, Seq<char>),
)
    requires
        a.contains(x),
    ensures
        (a + b).contains(x),
{
    let i = choose|i: int| 0 <= i < a.len() && a[i] == x;
    assert((a + b)[i] == x);
}

proof fn lemma_in_right(
    a: Seq<(Seq<char>, Seq<char>)>,
    b: Seq<(Seq<char>, Seq<char>)>,
    x: (Seq<char>, Seq<char>),
)
    requires
        b.contains(x),
    ensures
        (a + b).contains(x),
{
    let i = choose|i: int| 0 <= i < b.len() && b[i] == x;
    assert((a + b)[a.len() + i] == x);
}

proof fn lemma_value_in(file: Seq<char>, vs: Seq<EnumValueView>, from: int, v: int)
    requires
        0 <= from <= v < vs.len(),
    ensures
        value_entries(file, vs, from).contains(anchor_entry(file, vs[v].ref_id)),
    decreases v - from,
{
    let head = seq![anchor_entry(file, vs[from].ref_id)];
    if from == v {
        assert(head[0] == anchor_entry(file, vs[v].ref_id));
        lemma_in_left(head, value_entries(file, vs, from + 1), anchor_entry(file, vs[v].ref_id));
    } else {
        lemma_value_in(file, vs, from + 1, v);
        lemma_in_right(head, value_entries(file, vs, from + 1), anchor_entry(file, vs[v].ref_id));
    }
}

proof fn lemma_member_in(
    file: Seq<char>,
    ms: Seq<MemberView>,
    from: int,
    k: int,
    x: (Seq<char>, Seq<char>),
)
    requires
        0 <= from <= k < ms.len(),
        member_entries(file, ms[k]).contains(x),
    ensures
        members_entries(file, ms, from).contains(x),
    decreases k - from,
{
    if from == k {
        lemma_in_left(member_entries(file, ms[k]), members_entries(file, ms, from + 1), x);
    } else {
        lemma_member_in(file, ms, from + 1, k, x);
        lemma_in_right(member_entries(file, ms[from]), members_entries(file, ms, from + 1), x);
    }
}

proof fn lemma_section_in(
    file: Seq<char>,
    ss: Seq<SectionView>,
    from: int,
    k: int,
    x: (Seq<char>, Seq<char>),
)
    requires
        0 <= from <= k < ss.len(),
        members_entries(file, ss[k].members, 0).contains(x),
    ensures
        sections_entries(file, ss, from).contains(x),
    decreases k - from,
{
    if from == k {
        lemma_in_left(
            members_entries(file, ss[k].members, 0),
            sections_entries(file, ss, from + 1),
            x,
        );
    } else {
        lemma_section_in(file, ss, from + 1, k, x);
        lemma_in_right(
            members_entries(file, ss[from].members, 0),
            sections_entries(file, ss, from + 1),
            x,
        );
    }
}

proof fn lemma_scope_in(
    file: Seq<char>,
    scopes: Seq<ScopeView>,
    from: int,
    k: int,
    x: (Seq<char>, Seq<char>),
)
    requires
        0 <= from <= k < scopes.len(),
        scope_entries(file, scopes[k]).contains(x),
    ensures
        scopes_entries(file, scopes, from).contains(x),
    decreases k - from,
{
    if from == k {
        lemma_in_left(scope_entries(file, scopes[k]), scopes_entries(file, scopes, from + 1), x);
    } else {
        lemma_scope_in(file, scopes, from + 1, k, x);
        lemma_in_right(
            scope_entries(file, scopes[from]),
            scopes_entries(file, scopes, from + 1),
            x,
        );
    }
}

proof fn lemma_compound_in(cs: Seq<CompoundView>, from: int, k: int, x: (Seq<char>, Seq<char>))
    requires
        0 <= from <= k < cs.len(),
        compound_entries(cs[k]).contains(x),
    ensures
        entries(cs, from).contains(x),
    decreases k - from,
{
    if from == k {
        lemma_in_left(compound_entries(cs[k]), entries(cs, from + 1), x);
    } else {
        lemma_compound_in(cs, from + 1, k, x);
        lemma_in_right(compound_entries(cs[from]), entries(cs, from + 1), x);
    }
}

/// Where no identifier occurs twice, a file and a page are found on their
/// own page.
pub proof fn lemma_compound_location(cs: Seq<CompoundView>, c: int)
    requires
        unique_identifiers(cs),
        0 <= c < cs.len(),
    ensures
        ({
            let id = match cs[c] {
                CompoundView::File(f) => f.common.ref_id,
                CompoundView::Page(p) => p.common.ref_id,
            };
            ref_map(cs).contains_key(id) && ref_map(cs)[id] == page_file(id)
        }),
{
    let id = match cs[c] {
        CompoundView::File(f) => f.common.ref_id,
        CompoundView::Page(p) => p.common.ref_id,
    };
    let x = (id, page_file(id));
    assert(compound_entries(cs[c])[0] == x);
    lemma_compound_in(cs, 0, c, x);
    lemma_entry_stands(cs, x);
}

/// Where no identifier occurs twice, a scope is found on the page of the
/// file that holds it, under its own identifier as the anchor.
pub proof fn lemma_scope_location(cs: Seq<CompoundView>, f: int, s: int)
    requires
        unique_identifiers(cs),
        0 <= f < cs.len(),
        cs[f] is File,
        0 <= s < cs[f]->File_0.scopes.len(),
    ensures
        ({
            let file = cs[f]->File_0;
            let id = file.scopes[s].ref_id;
            ref_map(cs).contains_key(id) && ref_map(cs)[id] == anchored(
                page_file(file.common.ref_id),
                id,
            )
        }),
{
    let file = cs[f]->File_0;
    let page = page_file(file.common.ref_id);
    let x = anchor_entry(page, file.scopes[s].ref_id);
    assert(scope_entries(page, file.scopes[s])[0] == x);
    lemma_scope_in(page, file.scopes, 0, s, x);
    lemma_in_right(
        seq![(file.common.ref_id, page)],
        scopes_entries(page, file.scopes, 0),
        x,
    );
    lemma_compound_in(cs, 0, f, x);
    lemma_entry_stands(cs, x);
}

/// Where no identifier occurs twice, a member is found on the page of the
/// file that holds it, under its own identifier as the anchor.
pub proof fn lemma_member_location(cs: Seq<CompoundView>, f: int, s: int, c: int, m: int)
    requires
        unique_identifiers(cs),
        0 <= f < cs.len(),
        cs[f] is File,
        0 <= s < cs[f]->File_0.scopes.len(),
        0 <= c < cs[f]->File_0.scopes[s].sections.len(),
        0 <= m < cs[f]->File_0.scopes[s].sections[c].members.len(),
    ensures
        ({
            let file = cs[f]->File_0;
            let id = file.scopes[s].sections[c].members[m].ref_id;
            ref_map(cs).contains_key(id) && ref_map(cs)[id] == anchored(
                page_file(file.common.ref_id),
                id,
            )
        }),
{
    let file = cs[f]->File_0;
    let page = page_file(file.common.ref_id);
    let scope = file.scopes[s];
    let section = scope.sections[c];
    let member = section.members[m];
    let x = anchor_entry(page, member.ref_id);
    assert(member_entries(page, member)[0] == x);
    lemma_placed(cs, f, s, c, m, x);
    lemma_entry_stands(cs, x);
}

/// Where no identifier occurs twice, an enumeration value is found on the
/// page of the file that holds it, under its own identifier as the anchor.
pub proof fn lemma_value_location(cs: Seq<CompoundView>, f: int, s: int, c: int, m: int, v: int)
    requires
        unique_identifiers(cs),
        0 <= f < cs.len(),
        cs[f] is File,
        0 <= s < cs[f]->File_0.scopes.len(),
        0 <= c < cs[f]->File_0.scopes[s].sections.len(),
        0 <= m < cs[f]->File_0.scopes[s].sections[c].members.len(),
        0 <= v < cs[f]->File_0.scopes[s].sections[c].members[m].enum_values.len(),
    ensures
        ({
            let file = cs[f]->File_0;
            let id = file.scopes[s].sections[c].members[m].enum_values[v].ref_id;
            ref_map(cs).contains_key(id) && ref_map(cs)[id] == anchored(
                page_file(file.common.ref_id),
                id,
            )
        }),
{
    let file = cs[f]->File_0;
    let page = page_file(file.common.ref_id);
    let member = file.scopes[s].sections[c].members[m];
    let x = anchor_entry(page, member.enum_values[v].ref_id);
    lemma_value_in(page, member.enum_values, 0, v);
    lemma_in_right(
        seq![anchor_entry(page, member.ref_id)],
        value_entries(page, member.enum_values, 0),
        x,
    );
    lemma_placed(cs, f, s, c, m, x);
    lemma_entry_stands(cs, x);
}

/// An entry of a member is an entry of the run.
proof fn lemma_placed(
    cs: Seq<CompoundView>,
    f: int,
    s: int,
    c: int,
    m: int,
    x: (Seq<char>, Seq<char>),
)
    requires
        0 <= f < cs.len(),
        cs[f] is File,
        0 <= s < cs[f]->File_0.scopes.len(),
        0 <= c < cs[f]->File_0.scopes[s].sections.len(),
        0 <= m < cs[f]->File_0.scopes[s].sections[c].members.len(),
        member_entries(
            page_file(cs[f]->File_0.common.ref_id),
            cs[f]->File_0.scopes[s].sections[c].members[m],
        ).contains(x),
    ensures
        entries(cs, 0).contains(x),
{
    let file = cs[f]->File_0;
    let page = page_file(file.common.ref_id);
    let scope = file.scopes[s];
    let section = scope.sections[c];
    lemma_member_in(page, section.members, 0, m, x);
    lemma_section_in(page, scope.sections, 0, c, x);
    lemma_in_right(seq![anchor_entry(page, scope.ref_id)], sections_entries(page, scope.sections, 0), x);
    lemma_scope_in(page, file.scopes, 0, s, x);
    lemma_in_right(seq![(file.common.ref_id, page)], scopes_entries(page, file.scopes, 0), x);
    lemma_compound_in(cs, 0, f, x);
}

} // verus!
