//! The navigation synthesizer: the table of contents of a run, built from
//! the source paths of the files and from the parent and child links of the
//! pages.

use vstd::prelude::*;
use vstd::hash_map::StringHashMap;
use vstd::string::*;
use crate::model::{views, Compound, CompoundView, PageCommonView};
use crate::resolve::{page_file, page_name};
use crate::text::{find_char, first_char, from_chars, lemma_first_char, same, strings_of, to_chars};

verus! {

/// An entry of the table of contents: a page, or a directory of the source
/// tree, with the entries below it. A directory has an empty `href`.
pub struct NavNode {
    pub title: String,
    pub href: String,
    pub children: Vec<NavNode>,
}

/// The content of a [`NavNode`].
pub ghost struct NavTree {
    pub title: Seq<char>,
    pub href: Seq<char>,
    pub children: Seq<NavTree>,
}

/// The content of an entry and of everything below it.
pub open spec fn nav_tree_of(n: NavNode) -> NavTree
    decreases n,
{
    NavTree {
        title: n.title@,
        href: n.href@,
        children: Seq::new(
            n.children@.len(),
            |i: int|
                if 0 <= i < n.children@.len() {
                    nav_tree_of(n.children@[i])
                } else {
                    arbitrary()
                },
        ),
    }
}

impl View for NavNode {
    type V = NavTree;

    open spec fn view(&self) -> NavTree {
        nav_tree_of(*self)
    }
}

/// The view of an entry is made of the views of its fields.
pub proof fn lemma_nav_view(n: NavNode)
    ensures
        n@.title == n.title@,
        n@.href == n.href@,
        n@.children == views(n.children@),
{
    assert(n@.children =~= views(n.children@));
}

/// The pieces of `s` between the occurrences of `sep`.
pub open spec fn split(s: Seq<char>, sep: char) -> Seq<Seq<char>>
    decreases s.len(),
{
    match first_char(s, sep, 0) {
        Some(k) => if 0 <= k < s.len() {
            seq![s.take(k)] + split(s.skip(k + 1), sep)
        } else {
            seq![s]
        },
        None => seq![s],
    }
}

/// Splits a path at every `/`.
pub fn split_path(path: &str) -> (r: Vec<String>)
    ensures
        strings_of(r@) == split(path@, '/'),
{
    let chars = to_chars(path);
    let mut out: Vec<String> = Vec::new();
    let mut start: usize = 0;
    assert(chars@.skip(0) =~= chars@);
    assert(strings_of(out@) + split(chars@, '/') =~= split(chars@, '/'));
    loop
        invariant
            start <= chars.len(),
            chars@ == path@,
            split(path@, '/') == strings_of(out@) + split(chars@.skip(start as int), '/'),
        decreases chars.len() - start,
    {
        let ghost rest = chars@.skip(start as int);
        let ghost before = strings_of(out@);
        proof {
            crate::links::lemma_first_char_skip(chars@, '/', start as int, start as int);
            lemma_first_char(rest, '/', 0);
        }
        match find_char(&chars, '/', start) {
            Some(k) => {
                let piece = from_chars(&chars, start, k);
                proof {
                    assert(rest.take(k - start) =~= piece@);
                    assert(rest.skip(k - start + 1) =~= chars@.skip(k + 1));
                    assert(strings_of(out@.push(piece)) =~= before.push(piece@));
                }
                out.push(piece);
                start = k + 1;
                assert(before + (seq![piece@] + split(chars@.skip(start as int), '/'))
                    =~= strings_of(out@) + split(chars@.skip(start as int), '/'));
            },
            None => {
                let piece = from_chars(&chars, start, chars.len());
                proof {
                    assert(rest =~= piece@);
                    assert(strings_of(out@.push(piece)) =~= before.push(piece@));
                    assert(before + seq![piece@] =~= before.push(piece@));
                }
                out.push(piece);
                return out;
            },
        }
    }
}

/// What a file and a page have in common.
pub open spec fn common_of(c: CompoundView) -> PageCommonView {
    match c {
        CompoundView::File(f) => f.common,
        CompoundView::Page(p) => p.common,
    }
}

/// Whether a compound is a page.
pub open spec fn is_page(c: CompoundView) -> bool {
    c is Page
}

/// Whether `id` is among the first `upto` of `refs`.
pub open spec fn names(refs: Seq<Seq<char>>, id: Seq<char>, upto: int) -> bool
    decreases upto,
{
    0 < upto <= refs.len() && (refs[upto - 1] == id || names(refs, id, upto - 1))
}

/// Whether one of the first `upto` compounds lists `id` as a child page.
pub open spec fn is_subpage(cs: Seq<CompoundView>, id: Seq<char>, upto: int) -> bool
    decreases upto,
{
    0 < upto <= cs.len() && (names(
        common_of(cs[upto - 1]).subpage_refs,
        id,
        common_of(cs[upto - 1]).subpage_refs.len() as int,
    ) || is_subpage(cs, id, upto - 1))
}

/// The view of a compound gives the view of what it has in common.
proof fn lemma_common(c: Compound)
    ensures
        common_of(c@) == (match c {
            Compound::File(f) => f.common@,
            Compound::Page(p) => p.common@,
        }),
        is_page(c@) == (c is Page),
{
}

/// The position of the last compound before `upto` that is called `id`.
pub open spec fn lookup(cs: Seq<CompoundView>, id: Seq<char>, upto: int) -> Option<int>
    decreases upto,
{
    if upto <= 0 || upto > cs.len() {
        None
    } else if common_of(cs[upto - 1]).ref_id == id {
        Some(upto - 1)
    } else {
        lookup(cs, id, upto - 1)
    }
}

/// A position that `lookup` gives lies before `upto`.
pub proof fn lemma_lookup(cs: Seq<CompoundView>, id: Seq<char>, upto: int)
    ensures
        lookup(cs, id, upto) matches Some(k) ==> 0 <= k < upto && k < cs.len(),
    decreases upto,
{
    if 0 < upto <= cs.len() && common_of(cs[upto - 1]).ref_id != id {
        lemma_lookup(cs, id, upto - 1);
    }
}

/// Whether a table holds, for every identifier, the position of the last of
/// the first `upto` compounds that is called so.
pub open spec fn holds_positions(table: Map<Seq<char>, usize>, cs: Seq<CompoundView>, upto: int)
    -> bool {
    forall|id: Seq<char>|
        match lookup(cs, id, upto) {
            Some(k) => #[trigger] table.contains_key(id) && table[id] == k,
            None => !table.contains_key(id),
        }
}

/// Whether a table holds exactly the identifiers that the first `upto`
/// compounds, and the first `k` child pages of the next one, list as child
/// pages.
pub open spec fn holds_children(
    table: Map<Seq<char>, usize>,
    cs: Seq<CompoundView>,
    upto: int,
    k: int,
) -> bool {
    forall|id: Seq<char>| #[trigger]
        table.contains_key(id) == (is_subpage(cs, id, upto) || (0 <= upto < cs.len() && names(
            common_of(cs[upto]).subpage_refs,
            id,
            k,
        )))
}

/// The look-up tables of a run: where each compound stands, and which
/// identifiers are listed as child pages.
struct Directory {
    positions: StringHashMap<usize>,
    children: StringHashMap<usize>,
}

impl Directory {
    /// Whether the tables are those of the given run.
    closed spec fn serves(&self, cs: Seq<CompoundView>) -> bool {
        holds_positions(self.positions@, cs, cs.len() as int) && holds_children(
            self.children@,
            cs,
            cs.len() as int,
            0,
        )
    }

    /// Builds the tables of a run.
    fn new(compounds: &Vec<Compound>) -> (d: Directory)
        ensures
            d.serves(views(compounds@)),
    {
        let ghost cs = views(compounds@);
        let mut positions: StringHashMap<usize> = StringHashMap::new();
        let mut children: StringHashMap<usize> = StringHashMap::new();
        let mut i: usize = 0;
        while i < compounds.len()
            invariant
                i <= compounds.len(),
                cs == views(compounds@),
                holds_positions(positions@, cs, i as int),
                holds_children(children@, cs, i as int, 0),
            decreases compounds.len() - i,
        {
            let common = compounds[i].common();
            proof {
                lemma_common(compounds[i as int]);
            }
            let ghost refs = strings_of(common.subpage_refs@);
            let mut k: usize = 0;
            while k < common.subpage_refs.len()
                invariant
                    k <= common.subpage_refs.len(),
                    i < compounds.len(),
                    cs == views(compounds@),
                    refs == common_of(cs[i as int]).subpage_refs,
                    refs == strings_of(common.subpage_refs@),
                    holds_children(children@, cs, i as int, k as int),
                decreases common.subpage_refs.len() - k,
            {
                children.insert(common.subpage_refs[k].clone(), i);
                k += 1;
            }
            let ghost before = positions@;
            positions.insert(common.ref_id.clone(), i);
            assert forall|id: Seq<char>|
                match lookup(cs, id, i + 1) {
                    Some(k) => #[trigger] positions@.contains_key(id) && positions@[id] == k,
                    None => !positions@.contains_key(id),
                } by {
                assert(before.contains_key(id) || !before.contains_key(id));
            }
            i += 1;
        }
        Directory { positions, children }
    }

    /// Whether a compound of the run lists `id` as a child page.
    fn has_subpage(&self, id: &str, Ghost(cs): Ghost<Seq<CompoundView>>) -> (r: bool)
        requires
            self.serves(cs),
        ensures
            r == is_subpage(cs, id@, cs.len() as int),
    {
        self.children.contains_key(id)
    }

    /// The position of the last compound of the run that is called `id`.
    fn find(&self, id: &str, Ghost(cs): Ghost<Seq<CompoundView>>) -> (r: Option<usize>)
        requires
            self.serves(cs),
        ensures
            match r {
                Some(k) => lookup(cs, id@, cs.len() as int) == Some(k as int) && k < cs.len(),
                None => lookup(cs, id@, cs.len() as int) is None,
            },
    {
        proof {
            lemma_lookup(cs, id@, cs.len() as int);
        }
        match self.positions.get(id) {
            Some(k) => Some(*k),
            None => None,
        }
    }
}

/// The entry of a page or file itself, without what stands below it.
pub open spec fn leaf(c: PageCommonView) -> NavTree {
    NavTree { title: c.title, href: page_file(c.ref_id), children: Seq::empty() }
}

/// The entry of the page at position `i` with the entries of its child
/// pages below it, followed to a depth of `fuel`. Nothing where a child
/// page is not among the compounds, or where the pages go deeper than
/// `fuel`.
pub open spec fn page_tree(cs: Seq<CompoundView>, i: int, fuel: nat) -> Option<NavTree>
    decreases fuel, 0int, 0int,
{
    if fuel == 0 || i < 0 || i >= cs.len() {
        None
    } else {
        match subtrees(cs, common_of(cs[i]).subpage_refs, 0, (fuel - 1) as nat) {
            Some(children) => Some(
                NavTree {
                    title: common_of(cs[i]).title,
                    href: page_file(common_of(cs[i]).ref_id),
                    children,
                },
            ),
            None => None,
        }
    }
}

/// The entries of the child pages `refs[from..]`. A reference to a file
/// adds nothing.
pub open spec fn subtrees(cs: Seq<CompoundView>, refs: Seq<Seq<char>>, from: int, fuel: nat)
    -> Option<Seq<NavTree>>
    decreases fuel, 1int, refs.len() - from,
{
    if from < 0 || from >= refs.len() {
        Some(Seq::empty())
    } else {
        match lookup(cs, refs[from], cs.len() as int) {
            Some(k) => if 0 <= k < cs.len() && is_page(cs[k]) {
                match (page_tree(cs, k, fuel), subtrees(cs, refs, from + 1, fuel)) {
                    (Some(t), Some(rest)) => Some(seq![t] + rest),
                    _ => None,
                }
            } else {
                subtrees(cs, refs, from + 1, fuel)
            },
            None => None,
        }
    }
}

fn build_page(compounds: &Vec<Compound>, directory: &Directory, i: usize, fuel: usize) -> (r:
    Option<NavNode>)
    requires
        i < compounds.len(),
        directory.serves(views(compounds@)),
    ensures
        match r {
            Some(n) => page_tree(views(compounds@), i as int, fuel as nat) == Some(n@),
            None => page_tree(views(compounds@), i as int, fuel as nat) is None,
        },
    decreases fuel,
{
    if fuel == 0 {
        return None;
    }
    let ghost cs = views(compounds@);
    let common = compounds[i].common();
    proof {
        lemma_common(compounds[i as int]);
    }
    let ghost refs = strings_of(common.subpage_refs@);
    let ghost total = subtrees(cs, refs, 0, (fuel - 1) as nat);
    let mut children: Vec<NavNode> = Vec::new();
    let mut k: usize = 0;
    assert(total == match total {
        Some(rest) => Some(views(children@) + rest),
        None => None,
    }) by {
        match total {
            Some(rest) => {
                assert(views(children@) + rest =~= rest);
            },
            None => {},
        }
    }
    while k < common.subpage_refs.len()
        invariant
            k <= common.subpage_refs.len(),
            fuel > 0,
            cs == views(compounds@),
            directory.serves(cs),
            refs == strings_of(common.subpage_refs@),
            total == subtrees(cs, refs, 0, (fuel - 1) as nat),
            total is None ==> page_tree(cs, i as int, fuel as nat) is None,
            total == match subtrees(cs, refs, k as int, (fuel - 1) as nat) {
                Some(rest) => Some(views(children@) + rest),
                None => None,
            },
        decreases common.subpage_refs.len() - k,
    {
        match directory.find(common.subpage_refs[k].as_str(), Ghost(cs)) {
            Some(j) => {
                proof {
                    lemma_common(compounds[j as int]);
                }
                if let Compound::Page(_) = &compounds[j] {
                    match build_page(compounds, directory, j, fuel - 1) {
                        Some(child) => {
                            proof {
                                match subtrees(cs, refs, k + 1, (fuel - 1) as nat) {
                                    Some(rest) => {
                                        assert(views(children@.push(child)) + rest =~= views(
                                            children@,
                                        ) + (seq![child@] + rest));
                                    },
                                    None => {},
                                }
                            }
                            children.push(child);
                        },
                        None => {
                            return None;
                        },
                    }
                }
            },
            None => {
                return None;
            },
        }
        k += 1;
    }
    assert(views(children@) + Seq::<NavTree>::empty() =~= views(children@));
    let node = NavNode {
        title: common.title.clone(),
        href: page_name(common.ref_id.as_str()),
        children,
    };
    proof {
        lemma_nav_view(node);
    }
    Some(node)
}

/// The position of the last entry before `upto` that is called `title`.
pub open spec fn last_titled(level: Seq<NavTree>, title: Seq<char>, upto: int) -> Option<int>
    decreases upto,
{
    if upto <= 0 || upto > level.len() {
        None
    } else if level[upto - 1].title == title {
        Some(upto - 1)
    } else {
        last_titled(level, title, upto - 1)
    }
}

fn find_titled(level: &Vec<NavNode>, title: &str) -> (r: Option<usize>)
    ensures
        match r {
            Some(k) => last_titled(views(level@), title@, level@.len() as int) == Some(k as int)
                && k < level.len(),
            None => last_titled(views(level@), title@, level@.len() as int) is None,
        },
{
    let ghost entries = views(level@);
    let mut upto: usize = level.len();
    while upto > 0
        invariant
            upto <= level.len(),
            entries == views(level@),
            last_titled(entries, title@, level@.len() as int) == last_titled(
                entries,
                title@,
                upto as int,
            ),
        decreases upto,
    {
        proof {
            lemma_nav_view(level[upto - 1]);
        }
        if same(level[upto - 1].title.as_str(), title) {
            return Some(upto - 1);
        }
        upto -= 1;
    }
    None
}

/// The entries of one level after `entry` has been placed under the
/// directories `dirs[from..]`: each directory is the last entry of its
/// level with that title, or a new directory at the end of the level.
pub open spec fn placed(level: Seq<NavTree>, dirs: Seq<Seq<char>>, from: int, entry: NavTree)
    -> Seq<NavTree>
    decreases dirs.len() - from,
{
    if from < 0 || from >= dirs.len() {
        level.push(entry)
    } else {
        match last_titled(level, dirs[from], level.len() as int) {
            Some(k) => if 0 <= k < level.len() {
                level.update(
                    k,
                    NavTree {
                        title: level[k].title,
                        href: level[k].href,
                        children: placed(level[k].children, dirs, from + 1, entry),
                    },
                )
            } else {
                level
            },
            None => level.push(
                NavTree {
                    title: dirs[from],
                    href: Seq::empty(),
                    children: placed(Seq::empty(), dirs, from + 1, entry),
                },
            ),
        }
    }
}

fn place(level: Vec<NavNode>, dirs: &Vec<String>, from: usize, upto: usize, entry: NavNode) -> (r:
    Vec<NavNode>)
    requires
        from <= upto <= dirs.len(),
    ensures
        views(r@) == placed(
            views(level@),
            strings_of(dirs@).take(upto as int),
            from as int,
            entry@,
        ),
    decreases upto - from,
{
    let mut level = level;
    let ghost before = views(level@);
    let ghost names = strings_of(dirs@).take(upto as int);
    if from >= upto {
        proof {
            crate::model::lemma_views_push(level@, entry);
        }
        level.push(entry);
        return level;
    }
    let dir = dirs[from].as_str();
    assert(names[from as int] == dir@);
    match find_titled(&level, dir) {
        Some(k) => {
            let ghost old_level = level@;
            let node = level.remove(k);
            let NavNode { title, href, children } = node;
            proof {
                lemma_nav_view(node);
            }
            let node = NavNode { title, href, children: place(children, dirs, from + 1, upto, entry) };
            proof {
                lemma_nav_view(node);
            }
            level.insert(k, node);
            assert(level@ =~= old_level.update(k as int, node));
            assert(views(level@) =~= before.update(k as int, node@));
            level
        },
        None => {
            let empty: Vec<NavNode> = Vec::new();
            assert(views(empty@) =~= Seq::<NavTree>::empty());
            let node = NavNode {
                title: dir.to_owned(),
                href: String::new(),
                children: place(empty, dirs, from + 1, upto, entry),
            };
            proof {
                lemma_nav_view(node);
                crate::model::lemma_views_push(level@, node);
            }
            level.push(node);
            level
        },
    }
}

/// The directories of a source path: its pieces without the last one.
pub open spec fn directories(source: Seq<char>) -> Seq<Seq<char>> {
    split(source, '/').drop_last()
}

/// The table of contents after the compounds `cs[i..]` have been added to
/// `sofar`. A page that no compound lists as a child stands at the root
/// with its child pages below it; a page that is listed stands only under
/// its parent. A file stands under the directories of its source path.
pub open spec fn navigation_from(cs: Seq<CompoundView>, i: int, sofar: Seq<NavTree>) -> Option<
    Seq<NavTree>,
>
    decreases cs.len() - i,
{
    if i < 0 || i >= cs.len() {
        Some(sofar)
    } else if is_page(cs[i]) {
        if is_subpage(cs, common_of(cs[i]).ref_id, cs.len() as int) {
            navigation_from(cs, i + 1, sofar)
        } else {
            match page_tree(cs, i, cs.len()) {
                Some(t) => navigation_from(cs, i + 1, sofar.push(t)),
                None => None,
            }
        }
    } else {
        navigation_from(
            cs,
            i + 1,
            placed(sofar, directories(common_of(cs[i]).source), 0, leaf(common_of(cs[i]))),
        )
    }
}

/// The table of contents of a run; nothing where a page names a child that
/// is not among the compounds, or where the pages are nested deeper than
/// there are compounds, as they are when they go in a circle.
pub open spec fn navigation(cs: Seq<CompoundView>) -> Option<Seq<NavTree>> {
    navigation_from(cs, 0, Seq::empty())
}

/// Builds the entry of the page at position `i` with the entries of its
/// child pages below it, in the order in which the page lists them. A
/// child that is a file is left out.
pub fn build_page_entry(compounds: &Vec<Compound>, i: usize) -> (r: Option<NavNode>)
    ensures
        match r {
            Some(n) => page_tree(views(compounds@), i as int, compounds@.len()) == Some(n@),
            None => page_tree(views(compounds@), i as int, compounds@.len()) is None,
        },
{
    if i >= compounds.len() {
        return None;
    }
    let directory = Directory::new(compounds);
    build_page(compounds, &directory, i, compounds.len())
}

/// Builds the table of contents of a run.
pub fn build_navigation(compounds: &Vec<Compound>) -> (r: Option<Vec<NavNode>>)
    ensures
        match r {
            Some(nav) => navigation(views(compounds@)) == Some(views(nav@)),
            None => navigation(views(compounds@)) is None,
        },
{
    let ghost cs = views(compounds@);
    let directory = Directory::new(compounds);
    let mut nav: Vec<NavNode> = Vec::new();
    assert(views(nav@) =~= Seq::<NavTree>::empty());
    let mut i: usize = 0;
    while i < compounds.len()
        invariant
            i <= compounds.len(),
            cs == views(compounds@),
            directory.serves(cs),
            navigation(cs) == navigation_from(cs, i as int, views(nav@)),
        decreases compounds.len() - i,
    {
        proof {
            lemma_common(compounds[i as int]);
        }
        match &compounds[i] {
            Compound::Page(page) => {
                if !directory.has_subpage(page.common.ref_id.as_str(), Ghost(cs)) {
                    match build_page(compounds, &directory, i, compounds.len()) {
                        Some(node) => {
                            proof {
                                crate::model::lemma_views_push(nav@, node);
                            }
                            nav.push(node);
                        },
                        None => {
                            return None;
                        },
                    }
                }
            },
            Compound::File(file) => {
                let pieces = split_path(file.common.source.as_str());
                let entry = NavNode {
                    title: file.common.title.clone(),
                    href: page_name(file.common.ref_id.as_str()),
                    children: Vec::new(),
                };
                proof {
                    lemma_nav_view(entry);
                    assert(entry@.children =~= Seq::<NavTree>::empty());
                    lemma_split_some(file.common.source@, '/');
                    assert(strings_of(pieces@).take(pieces@.len() - 1) =~= directories(
                        file.common.source@,
                    ));
                }
                nav = place(nav, &pieces, 0, pieces.len() - 1, entry);
            },
        }
        i += 1;
    }
    Some(nav)
}

/// Whether `depth` bounds how deep the pages are nested: every child that a
/// compound lists is among the compounds, and a child page has a smaller
/// depth than the compound that lists it.
pub open spec fn nested_within(cs: Seq<CompoundView>, depth: Seq<nat>) -> bool {
    depth.len() == cs.len() && forall|i: int, j: int|
        0 <= i < cs.len() && 0 <= j < common_of(cs[i]).subpage_refs.len() ==> match lookup(
            cs,
            #[trigger] common_of(cs[i]).subpage_refs[j],
            cs.len() as int,
        ) {
            Some(k) => 0 <= k < cs.len() && (is_page(cs[k]) ==> depth[k] < depth[i]),
            None => false,
        }
}

/// A compound whose depth is below `fuel` gets its entry.
pub proof fn lemma_page_tree_exists(cs: Seq<CompoundView>, depth: Seq<nat>, i: int, fuel: nat)
    requires
        nested_within(cs, depth),
        0 <= i < cs.len(),
        depth[i] < fuel,
    ensures
        page_tree(cs, i, fuel) is Some,
    decreases fuel, 0int, 0int,
{
    lemma_subtrees_exist(cs, depth, i, 0, (fuel - 1) as nat);
}

/// The children of a compound whose depth is at most `fuel` get their
/// entries.
proof fn lemma_subtrees_exist(cs: Seq<CompoundView>, depth: Seq<nat>, i: int, from: int, fuel: nat)
    requires
        nested_within(cs, depth),
        0 <= i < cs.len(),
        0 <= from,
        depth[i] <= fuel,
    ensures
        subtrees(cs, common_of(cs[i]).subpage_refs, from, fuel) is Some,
    decreases fuel, 1int, common_of(cs[i]).subpage_refs.len() - from,
{
    let refs = common_of(cs[i]).subpage_refs;
    if from < refs.len() {
        let id = refs[from];
        match lookup(cs, id, cs.len() as int) {
            Some(k) => {
                if is_page(cs[k]) {
                    lemma_page_tree_exists(cs, depth, k, fuel);
                }
            },
            None => {},
        }
        lemma_subtrees_exist(cs, depth, i, from + 1, fuel);
    }
}

/// The rest of the table of contents exists where the pages are nested
/// less deep than there are compounds.
proof fn lemma_navigation_from_exists(
    cs: Seq<CompoundView>,
    depth: Seq<nat>,
    i: int,
    sofar: Seq<NavTree>,
)
    requires
        nested_within(cs, depth),
        forall|k: int| 0 <= k < cs.len() ==> depth[k] < cs.len(),
        0 <= i,
    ensures
        navigation_from(cs, i, sofar) is Some,
    decreases cs.len() - i,
{
    if i < cs.len() {
        if is_page(cs[i]) {
            if is_subpage(cs, common_of(cs[i]).ref_id, cs.len() as int) {
                lemma_navigation_from_exists(cs, depth, i + 1, sofar);
            } else {
                lemma_page_tree_exists(cs, depth, i, cs.len());
                lemma_navigation_from_exists(
                    cs,
                    depth,
                    i + 1,
                    sofar.push(page_tree(cs, i, cs.len())->0),
                );
            }
        } else {
            lemma_navigation_from_exists(
                cs,
                depth,
                i + 1,
                placed(sofar, directories(common_of(cs[i]).source), 0, leaf(common_of(cs[i]))),
            );
        }
    }
}

/// A run has a table of contents where every child that a compound lists
/// is among the compounds and the pages are nested less deep than there
/// are compounds.
pub proof fn lemma_navigation_exists(cs: Seq<CompoundView>, depth: Seq<nat>)
    requires
        nested_within(cs, depth),
        forall|k: int| 0 <= k < cs.len() ==> depth[k] < cs.len(),
    ensures
        navigation(cs) is Some,
{
    lemma_navigation_from_exists(cs, depth, 0, Seq::empty());
}

/// Splitting gives at least one piece.
pub proof fn lemma_split_some(s: Seq<char>, sep: char)
    ensures
        split(s, sep).len() > 0,
{
}

} // verus!
