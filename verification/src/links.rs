//! Cross-reference resolution on text: the placeholders that rendering
//! leaves behind, the table from identifiers to locations, and the rewriting
//! of placeholders once the table is complete.

use vstd::prelude::*;
use vstd::hash_map::StringHashMap;
use vstd::string::*;
use crate::markup::{img_scheme, ref_scheme, IMG_SCHEME, REF_SCHEME};
use crate::text::{
    find_char, first_char, from_chars, is_at, lemma_first_char, matches_at, strings_of, to_chars,
};

verus! {

/// The table from identifiers to locations.
pub struct RefMap {
    map: StringHashMap<String>,
}

impl View for RefMap {
    type V = Map<Seq<char>, Seq<char>>;

    closed spec fn view(&self) -> Map<Seq<char>, Seq<char>> {
        self.map@.map_values(|s: String| s@)
    }
}

impl RefMap {
    /// The empty table.
    pub fn new() -> (r: RefMap)
        ensures
            r@ == Map::<Seq<char>, Seq<char>>::empty(),
    {
        let r = RefMap { map: StringHashMap::new() };
        assert(r@ =~= Map::<Seq<char>, Seq<char>>::empty());
        r
    }

    /// Records the location of an identifier. A later entry for the same
    /// identifier replaces an earlier one.
    pub fn insert(&mut self, id: String, location: String)
        ensures
            final(self)@ == old(self)@.insert(id@, location@),
    {
        let ghost before = self.map@;
        self.map.insert(id, location);
        assert(self@ =~= before.map_values(|s: String| s@).insert(id@, location@));
    }

    /// The location recorded for an identifier.
    pub fn get(&self, id: &str) -> (r: Option<&str>)
        ensures
            match r {
                Some(location) => self@.contains_key(id@) && self@[id@] == location@,
                None => !self@.contains_key(id@),
            },
    {
        match self.map.get(id) {
            Some(location) => Some(location.as_str()),
            None => None,
        }
    }
}

/// The two kinds of placeholder that rendering leaves in its output.
#[derive(Clone, Copy, Debug, PartialEq, Eq)]
pub enum Placeholder {
    /// A reference to an entity by its identifier.
    Reference,
    /// A reference to an image by its path.
    Image,
}

/// The scheme that starts a placeholder of the given kind.
pub open spec fn scheme(kind: Placeholder) -> Seq<char> {
    match kind {
        Placeholder::Reference => ref_scheme(),
        Placeholder::Image => img_scheme(),
    }
}

/// What stands in for a reference whose identifier the table lacks.
pub const NOT_FOUND: &'static str = "not-found";

/// What stands in for a reference whose identifier the table lacks.
pub open spec fn not_found() -> Seq<char> {
    NOT_FOUND@
}

/// What a placeholder is replaced by: the entry of the table, and where the
/// table has none, the not-found marker for a reference and the path as it
/// was written for an image.
pub open spec fn resolved(kind: Placeholder, map: Map<Seq<char>, Seq<char>>, id: Seq<char>) -> Seq<
    char,
> {
    if map.contains_key(id) {
        map[id]
    } else {
        match kind {
            Placeholder::Reference => not_found(),
            Placeholder::Image => id,
        }
    }
}

/// The end of the identifier that starts at `from`: the position of the
/// next double quote, or the end of the text.
pub open spec fn id_end(text: Seq<char>, from: int) -> int {
    match first_char(text, '"', from) {
        Some(q) => q,
        None => if from <= text.len() {
            text.len() as int
        } else {
            from
        },
    }
}

/// `text` with every placeholder of the given kind replaced. A placeholder
/// is the scheme and what follows it up to the next double quote; the
/// placeholders are found from the left.
pub open spec fn relinked(kind: Placeholder, text: Seq<char>, map: Map<Seq<char>, Seq<char>>) -> Seq<
    char,
>
    decreases text.len(),
{
    let s = scheme(kind);
    if text.len() == 0 {
        text
    } else if s.len() > 0 && is_at(text, 0, s) {
        let end = id_end(text, s.len() as int);
        if s.len() <= end <= text.len() {
            resolved(kind, map, text.subrange(s.len() as int, end)) + relinked(
                kind,
                text.skip(end),
                map,
            )
        } else {
            text
        }
    } else {
        seq![text[0]] + relinked(kind, text.drop_first(), map)
    }
}

/// The identifiers of the placeholders of the given kind in `text`, in
/// order.
pub open spec fn placeholders(kind: Placeholder, text: Seq<char>) -> Seq<Seq<char>>
    decreases text.len(),
{
    let s = scheme(kind);
    if text.len() == 0 {
        Seq::empty()
    } else if s.len() > 0 && is_at(text, 0, s) {
        let end = id_end(text, s.len() as int);
        if s.len() <= end <= text.len() {
            seq![text.subrange(s.len() as int, end)] + placeholders(kind, text.skip(end))
        } else {
            Seq::empty()
        }
    } else {
        placeholders(kind, text.drop_first())
    }
}

fn scheme_chars(kind: Placeholder) -> (r: Vec<char>)
    ensures
        r@ == scheme(kind),
        r@.len() > 0,
{
    match kind {
        Placeholder::Reference => {
            proof {
                reveal_strlit("placeholder-ref://");
            }
            to_chars(REF_SCHEME)
        },
        Placeholder::Image => {
            proof {
                reveal_strlit("placeholder-img://");
            }
            to_chars(IMG_SCHEME)
        },
    }
}

/// The end of the identifier that starts at `from`.
fn find_id_end(text: &Vec<char>, from: usize) -> (end: usize)
    requires
        from <= text.len(),
    ensures
        end == id_end(text@, from as int),
        from <= end <= text.len(),
{
    match find_char(text, '"', from) {
        Some(q) => q,
        None => text.len(),
    }
}

/// Replaces every placeholder of the given kind in `text` by what the table
/// holds for it.
pub fn relink(kind: Placeholder, text: &str, map: &RefMap) -> (r: String)
    ensures
        r@ == relinked(kind, text@, map@),
{
    let chars = to_chars(text);
    let mark = scheme_chars(kind);
    let mut out = String::new();
    let mut i: usize = 0;
    assert(chars@.skip(0) =~= chars@);
    assert(out@ + relinked(kind, chars@, map@) =~= relinked(kind, chars@, map@));
    while i < chars.len()
        invariant
            i <= chars.len(),
            chars@ == text@,
            mark@ == scheme(kind),
            mark@.len() > 0,
            relinked(kind, text@, map@) == out@ + relinked(kind, chars@.skip(i as int), map@),
        decreases chars.len() - i,
    {
        let ghost rest = chars@.skip(i as int);
        let ghost before = out@;
        if matches_at(&chars, i, &mark) {
            let start = i + mark.len();
            let end = find_id_end(&chars, start);
            let id = from_chars(&chars, start, end);
            proof {
                assert(rest.subrange(0, mark@.len() as int) =~= chars@.subrange(
                    i as int,
                    i + mark@.len(),
                ));
                assert(first_char(rest, '"', mark@.len() as int) == match first_char(
                    chars@,
                    '"',
                    start as int,
                ) {
                    Some(q) => Some(q - i),
                    None => None,
                }) by {
                    lemma_first_char_skip(chars@, '"', i as int, start as int);
                }
                assert(id_end(rest, mark@.len() as int) == end - i);
                assert(rest.subrange(mark@.len() as int, end - i) =~= id@);
                assert(rest.skip(end - i) =~= chars@.skip(end as int));
            }
            match map.get(id.as_str()) {
                Some(location) => {
                    out.append(location);
                },
                None => {
                    match kind {
                        Placeholder::Reference => {
                            out.append(NOT_FOUND);
                        },
                        Placeholder::Image => {
                            out.append(id.as_str());
                        },
                    }
                },
            }
            i = end;
            assert(before + (resolved(kind, map@, id@) + relinked(
                kind,
                chars@.skip(i as int),
                map@,
            )) =~= out@ + relinked(kind, chars@.skip(i as int), map@));
        } else {
            proof {
                if rest.len() >= mark@.len() {
                    assert(rest.subrange(0, mark@.len() as int) =~= chars@.subrange(
                        i as int,
                        i + mark@.len(),
                    ));
                }
                assert(rest.drop_first() =~= chars@.skip(i + 1));
            }
            out.push(chars[i]);
            i += 1;
            assert(before + (seq![rest[0]] + relinked(kind, chars@.skip(i as int), map@)) =~= out@
                + relinked(kind, chars@.skip(i as int), map@));
        }
    }
    assert(out@ + relinked(kind, chars@.skip(i as int), map@) =~= out@);
    out
}

/// Searching a character in the rest of a text finds what searching the
/// whole text from the same place finds.
pub proof fn lemma_first_char_skip(text: Seq<char>, c: char, offset: int, from: int)
    requires
        0 <= offset <= from,
        offset <= text.len(),
    ensures
        first_char(text.skip(offset), c, from - offset) == match first_char(text, c, from) {
            Some(q) => Some(q - offset),
            None => None,
        },
    decreases text.len() - from,
{
    if from < text.len() {
        assert(text.skip(offset)[from - offset] == text[from]);
        if text[from] != c {
            lemma_first_char_skip(text, c, offset, from + 1);
        }
    }
}

/// Lists the identifiers of the placeholders of the given kind in `text`,
/// in order.
pub fn find_placeholders(kind: Placeholder, text: &str) -> (r: Vec<String>)
    ensures
        strings_of(r@) == placeholders(kind, text@),
{
    let chars = to_chars(text);
    let mark = scheme_chars(kind);
    let mut out: Vec<String> = Vec::new();
    let mut i: usize = 0;
    assert(chars@.skip(0) =~= chars@);
    assert(strings_of(out@) + placeholders(kind, chars@) =~= placeholders(
        kind,
        chars@,
    ));
    while i < chars.len()
        invariant
            i <= chars.len(),
            chars@ == text@,
            mark@ == scheme(kind),
            mark@.len() > 0,
            placeholders(kind, text@) == strings_of(out@) + placeholders(
                kind,
                chars@.skip(i as int),
            ),
        decreases chars.len() - i,
    {
        let ghost rest = chars@.skip(i as int);
        let ghost before = strings_of(out@);
        if matches_at(&chars, i, &mark) {
            let start = i + mark.len();
            let end = find_id_end(&chars, start);
            let id = from_chars(&chars, start, end);
            proof {
                assert(rest.subrange(0, mark@.len() as int) =~= chars@.subrange(
                    i as int,
                    i + mark@.len(),
                ));
                lemma_first_char_skip(chars@, '"', i as int, start as int);
                assert(id_end(rest, mark@.len() as int) == end - i);
                assert(rest.subrange(mark@.len() as int, end - i) =~= id@);
                assert(rest.skip(end - i) =~= chars@.skip(end as int));
                assert(strings_of(out@.push(id)) =~= before.push(id@));
            }
            out.push(id);
            i = end;
            assert(before + (seq![id@] + placeholders(kind, chars@.skip(i as int)))
                =~= strings_of(out@) + placeholders(kind, chars@.skip(i as int)));
        } else {
            proof {
                if rest.len() >= mark@.len() {
                    assert(rest.subrange(0, mark@.len() as int) =~= chars@.subrange(
                        i as int,
                        i + mark@.len(),
                    ));
                }
                assert(rest.drop_first() =~= chars@.skip(i + 1));
            }
            i += 1;
        }
    }
    assert(strings_of(out@) + placeholders(kind, chars@.skip(i as int))
        =~= strings_of(out@));
    out
}

/// A placeholder is rewritten to what its identifier resolves to: the
/// scheme followed by an identifier without a double quote becomes the
/// entry of the table, or what stands in for a missing entry.
pub proof fn lemma_placeholder_rewritten(
    kind: Placeholder,
    id: Seq<char>,
    map: Map<Seq<char>, Seq<char>>,
)
    requires
        first_char(id, '"', 0) is None,
    ensures
        relinked(kind, scheme(kind) + id, map) == resolved(kind, map, id),
{
    reveal_strlit("placeholder-ref://");
    reveal_strlit("placeholder-img://");
    let s = scheme(kind);
    let t = s + id;
    assert(t.subrange(0, s.len() as int) =~= s);
    assert(t.skip(s.len() as int) =~= id);
    lemma_first_char_skip(t, '"', s.len() as int, s.len() as int);
    assert(id_end(t, s.len() as int) == t.len());
    assert(t.subrange(s.len() as int, t.len() as int) =~= id);
    assert(t.skip(t.len() as int) =~= Seq::<char>::empty());
    assert(relinked(kind, t, map) =~= resolved(kind, map, id) + relinked(
        kind,
        Seq::<char>::empty(),
        map,
    ));
    assert(resolved(kind, map, id) + Seq::<char>::empty() =~= resolved(kind, map, id));
}

/// What stands before the first placeholder stays as it is: where no
/// placeholder starts within the first `n` characters, they are kept and
/// the rest is rewritten.
pub proof fn lemma_relinked_prefix(
    kind: Placeholder,
    text: Seq<char>,
    map: Map<Seq<char>, Seq<char>>,
    n: int,
)
    requires
        0 <= n <= text.len(),
        forall|i: int| 0 <= i < n ==> !is_at(text, i, scheme(kind)),
    ensures
        relinked(kind, text, map) == text.take(n) + relinked(kind, text.skip(n), map),
    decreases n,
{
    let s = scheme(kind);
    if n == 0 {
        assert(text.skip(0) =~= text);
        assert(text.take(0) + relinked(kind, text, map) =~= relinked(kind, text, map));
    } else {
        let rest = text.drop_first();
        assert(!is_at(text, 0, s));
        assert forall|i: int| 0 <= i < n - 1 implies !is_at(rest, i, s) by {
            assert(!is_at(text, i + 1, s));
            if i + s.len() <= rest.len() {
                assert(rest.subrange(i, i + s.len()) =~= text.subrange(i + 1, i + 1 + s.len()));
            }
        }
        lemma_relinked_prefix(kind, rest, map, n - 1);
        assert(rest.skip(n - 1) =~= text.skip(n));
        assert(seq![text[0]] + (rest.take(n - 1) + relinked(kind, text.skip(n), map)) =~= text.take(
            n,
        ) + relinked(kind, text.skip(n), map));
    }
}

/// A text in which no placeholder starts is left as it is, whatever the
/// table holds. So rewriting a second time changes nothing once the first
/// has left no placeholder behind.
pub proof fn lemma_relinked_settled(
    kind: Placeholder,
    text: Seq<char>,
    map: Map<Seq<char>, Seq<char>>,
)
    requires
        forall|i: int| 0 <= i < text.len() ==> !is_at(text, i, scheme(kind)),
    ensures
        relinked(kind, text, map) == text,
{
    let n = text.len() as int;
    lemma_relinked_prefix(kind, text, map, n);
    assert(text.take(n) =~= text);
    assert(text.skip(n) =~= Seq::<char>::empty());
    assert(text + Seq::<char>::empty() =~= text);
}

/// Whether `c` occurs nowhere in `text`.
pub open spec fn lacks(text: Seq<char>, c: char) -> bool {
    forall|k: int| 0 <= k < text.len() ==> text[k] != c
}

/// Rewriting leaves no placeholder behind where nothing that an identifier
/// resolves to holds a slash: with `pre` standing before the text, and no
/// placeholder starting in `pre`, none starts anywhere in `pre` followed by
/// the rewritten text.
proof fn lemma_relinked_leaves_none(
    kind: Placeholder,
    pre: Seq<char>,
    text: Seq<char>,
    map: Map<Seq<char>, Seq<char>>,
)
    requires
        forall|id: Seq<char>| lacks(#[trigger] resolved(kind, map, id), '/'),
        forall|i: int| 0 <= i < pre.len() ==> !is_at(pre + text, i, scheme(kind)),
    ensures
        forall|i: int|
            0 <= i < (pre + relinked(kind, text, map)).len() ==> !is_at(
                pre + relinked(kind, text, map),
                i,
                scheme(kind),
            ),
    decreases text.len(),
{
    reveal_strlit("placeholder-ref://");
    reveal_strlit("placeholder-img://");
    let s = scheme(kind);
    let n = s.len() as int;
    assert(n == 18 && s[17] == '/');
    assert(forall|k: int| 0 <= k < n ==> s[k] != '"');
    if text.len() == 0 {
        assert(pre + relinked(kind, text, map) =~= pre + text);
    } else if is_at(text, 0, s) {
        let end = id_end(text, n);
        lemma_first_char(text, '"', n);
        let value = resolved(kind, map, text.subrange(n, end));
        let rest = text.skip(end);
        let pre2 = pre + value;
        let whole = pre2 + rest;
        assert(lacks(value, '/'));
        assert(rest.len() == 0 || rest[0] == '"');
        assert forall|i: int| 0 <= i < pre2.len() implies !is_at(whole, i, s) by {
            if is_at(whole, i, s) {
                let found = whole.subrange(i, i + n);
                if i + n <= pre.len() {
                    assert((pre + text).subrange(i, i + n) =~= found);
                    assert(is_at(pre + text, i, s));
                } else if i + n <= pre2.len() {
                    assert(found[17] == value[i + 17 - pre.len()]);
                } else {
                    assert(found[pre2.len() - i] == rest[0]);
                }
            }
        }
        lemma_relinked_leaves_none(kind, pre2, rest, map);
        assert(pre + relinked(kind, text, map) =~= pre2 + relinked(kind, rest, map));
    } else {
        let rest = text.drop_first();
        let pre2 = pre.push(text[0]);
        assert(pre2 + rest =~= pre + text);
        assert forall|i: int| 0 <= i < pre2.len() implies !is_at(pre2 + rest, i, s) by {
            if i == pre.len() && is_at(pre + text, i, s) {
                assert((pre + text).subrange(i, i + n) =~= text.subrange(0, n));
            }
        }
        lemma_relinked_leaves_none(kind, pre2, rest, map);
        assert(pre + relinked(kind, text, map) =~= pre2 + relinked(kind, rest, map));
    }
}

/// Rewriting references is idempotent where no entry of the table holds a
/// slash: the scheme ends with one and the marker for a missing entry has
/// none, so the first pass leaves no placeholder for a second to find.
pub proof fn lemma_relink_idempotent(text: Seq<char>, map: Map<Seq<char>, Seq<char>>)
    requires
        forall|id: Seq<char>| map.contains_key(id) ==> lacks(#[trigger] map[id], '/'),
    ensures
        relinked(Placeholder::Reference, relinked(Placeholder::Reference, text, map), map)
            == relinked(Placeholder::Reference, text, map),
{
    reveal_strlit("not-found");
    let kind = Placeholder::Reference;
    let once = relinked(kind, text, map);
    let pre = Seq::<char>::empty();
    assert(lacks(not_found(), '/'));
    assert forall|id: Seq<char>| lacks(#[trigger] resolved(kind, map, id), '/') by {
        if map.contains_key(id) {
            assert(lacks(map[id], '/'));
        }
    }
    lemma_relinked_leaves_none(kind, pre, text, map);
    assert(pre + once =~= once);
    lemma_relinked_settled(kind, once, map);
}

/// A placeholder within a text is rewritten to what its identifier
/// resolves to, and the text after it is rewritten in turn: the identifier
/// ends at the double quote that `rest` starts with, or at the end of the
/// text.
pub proof fn lemma_relinked_at(
    kind: Placeholder,
    id: Seq<char>,
    rest: Seq<char>,
    map: Map<Seq<char>, Seq<char>>,
)
    requires
        first_char(id, '"', 0) is None,
        rest.len() == 0 || rest[0] == '"',
    ensures
        relinked(kind, scheme(kind) + id + rest, map) == resolved(kind, map, id) + relinked(
            kind,
            rest,
            map,
        ),
{
    reveal_strlit("placeholder-ref://");
    reveal_strlit("placeholder-img://");
    let s = scheme(kind);
    let t = s + id + rest;
    let start = s.len() as int;
    let end = start + id.len();
    assert(t.subrange(0, start) =~= s);
    lemma_quote_after(id, rest, 0);
    lemma_first_char_skip(t, '"', start, start);
    assert(t.skip(start) =~= id + rest);
    assert(id_end(t, start) == end);
    assert(t.subrange(start, end) =~= id);
    assert(t.skip(end) =~= rest);
}

/// The first double quote of an identifier without one, followed by a text
/// that starts with one, stands where the identifier ends.
proof fn lemma_quote_after(id: Seq<char>, rest: Seq<char>, from: int)
    requires
        0 <= from <= id.len(),
        first_char(id, '"', from) is None,
        rest.len() == 0 || rest[0] == '"',
    ensures
        first_char(id + rest, '"', from) == if rest.len() == 0 {
            None
        } else {
            Some(id.len() as int)
        },
    decreases id.len() - from,
{
    let t = id + rest;
    if from < id.len() {
        assert(t[from] == id[from]);
        lemma_quote_after(id, rest, from + 1);
    } else if rest.len() > 0 {
        assert(t[from] == rest[0]);
    }
}

/// The link that rendering leaves for a cross-reference is rewritten to a
/// link to what the identifier resolves to, and nothing else of it changes,
/// where the identifier holds no double quote and no placeholder starts in
/// what follows it.
pub proof fn lemma_link_rewritten(id: Seq<char>, label: Seq<char>, map: Map<Seq<char>, Seq<char>>)
    requires
        first_char(id, '"', 0) is None,
        forall|i: int|
            0 <= i < ("\">"@ + label + "</a>"@).len() ==> !is_at(
                "\">"@ + label + "</a>"@,
                i,
                ref_scheme(),
            ),
    ensures
        relinked(Placeholder::Reference, crate::markup::ref_html(id, label), map) == "<a href=\""@
            + resolved(Placeholder::Reference, map, id) + "\">"@ + label + "</a>"@,
{
    reveal_strlit("placeholder-ref://");
    reveal_strlit("<a href=\"");
    reveal_strlit("\">");
    let kind = Placeholder::Reference;
    let s = scheme(kind);
    let pre = "<a href=\""@;
    let tail = "\">"@ + label + "</a>"@;
    let text = crate::markup::ref_html(id, label);
    assert(text =~= pre + (s + id + tail));
    assert forall|i: int| 0 <= i < 9 implies !is_at(text, i, s) by {
        if is_at(text, i, s) {
            assert(text.subrange(i, i + s.len())[0] == s[0]);
            assert(text[i] == pre[i]);
        }
    }
    lemma_relinked_prefix(kind, text, map, 9);
    assert(text.take(9) =~= pre);
    assert(text.skip(9) =~= s + id + tail);
    assert(tail[0] == '"');
    lemma_relinked_at(kind, id, tail, map);
    lemma_relinked_prefix(kind, tail, map, tail.len() as int);
    assert(tail.take(tail.len() as int) =~= tail);
    assert(tail.skip(tail.len() as int) =~= Seq::<char>::empty());
    assert(relinked(kind, tail, map) =~= tail);
    assert(pre + (resolved(kind, map, id) + tail) =~= "<a href=\""@ + resolved(kind, map, id)
        + "\">"@ + label + "</a>"@);
}

/// The identifiers among `ids[from..]` that the table lacks, in order.
pub open spec fn missing(ids: Seq<Seq<char>>, map: Map<Seq<char>, Seq<char>>, from: int) -> Seq<
    Seq<char>,
>
    decreases ids.len() - from,
{
    if from < 0 || from >= ids.len() {
        Seq::empty()
    } else if map.contains_key(ids[from]) {
        missing(ids, map, from + 1)
    } else {
        seq![ids[from]] + missing(ids, map, from + 1)
    }
}

/// Lists the identifiers that the table lacks: the references that are
/// rewritten to the not-found marker.
pub fn missing_references(ids: &Vec<String>, map: &RefMap) -> (r: Vec<String>)
    ensures
        strings_of(r@) == missing(strings_of(ids@), map@, 0),
{
    let ghost all = strings_of(ids@);
    let mut out: Vec<String> = Vec::new();
    let mut i: usize = 0;
    assert(strings_of(out@) + missing(all, map@, 0) =~= missing(all, map@, 0));
    while i < ids.len()
        invariant
            i <= ids.len(),
            all == strings_of(ids@),
            missing(all, map@, 0) == strings_of(out@) + missing(all, map@, i as int),
        decreases ids.len() - i,
    {
        let ghost before = strings_of(out@);
        if map.get(ids[i].as_str()).is_none() {
            let id = ids[i].clone();
            assert(strings_of(out@.push(id)) =~= before.push(id@));
            out.push(id);
            assert(before + (seq![all[i as int]] + missing(all, map@, i + 1)) =~= strings_of(out@)
                + missing(all, map@, i + 1));
        }
        i += 1;
    }
    assert(strings_of(out@) + missing(all, map@, i as int) =~= strings_of(out@));
    out
}

} // verus!
