//! The document tree that is built from the export: files and pages, the
//! scopes of a file, their sections, members and enumeration values.

use vstd::prelude::*;
use crate::text::strings_of;

verus! {

/// What a file and a page have in common.
pub struct PageCommon {
    /// The stable identifier of the compound.
    pub ref_id: String,
    /// The path of the source that the compound comes from.
    pub source: String,
    /// The title under which the compound is shown.
    pub title: String,
    /// Whether the compound holds a formula.
    pub has_math: bool,
    /// The identifiers of the child pages, in order.
    pub subpage_refs: Vec<String>,
}

/// A free-form documentation page.
pub struct Page {
    pub common: PageCommon,
    /// The rendered description.
    pub description: String,
}

/// A documented source file.
pub struct File {
    pub common: PageCommon,
    /// The classes and namespaces that the file defines.
    pub scopes: Vec<Scope>,
}

/// A class, struct, union or namespace documented within a file.
pub struct Scope {
    pub ref_id: String,
    /// The rendered name.
    pub name: String,
    pub kind: String,
    pub sections: Vec<Section>,
}

/// A group of members of a scope.
pub struct Section {
    pub name: Option<String>,
    pub description: Option<String>,
    pub members: Vec<Member>,
}

/// A documented declaration.
pub struct Member {
    pub ref_id: String,
    /// The rendered signature.
    pub definition: String,
    /// The rendered description.
    pub description: String,
    /// The values of an enumeration; empty for any other member.
    pub enum_values: Vec<EnumValue>,
}

/// One value of an enumeration.
pub struct EnumValue {
    pub ref_id: String,
    pub name: String,
    pub initializer: Option<String>,
    pub description: String,
}

/// A top-level documented entity.
pub enum Compound {
    File(File),
    Page(Page),
}

/// The content of an optional string.
pub open spec fn optional(s: Option<String>) -> Option<Seq<char>> {
    match s {
        Some(s) => Some(s@),
        None => None,
    }
}

/// The contents of a list of values.
pub open spec fn views<T: View>(v: Seq<T>) -> Seq<T::V> {
    Seq::new(v.len(), |i: int| v[i]@)
}

/// Adding a value to a list adds its content to the contents.
pub proof fn lemma_views_push<T: View>(v: Seq<T>, x: T)
    ensures
        views(v.push(x)) == views(v).push(x@),
{
    assert(views(v.push(x)) =~= views(v).push(x@));
}

/// The content of a [`PageCommon`].
pub ghost struct PageCommonView {
    pub ref_id: Seq<char>,
    pub source: Seq<char>,
    pub title: Seq<char>,
    pub has_math: bool,
    pub subpage_refs: Seq<Seq<char>>,
}

/// The content of a [`Page`].
pub ghost struct PageView {
    pub common: PageCommonView,
    pub description: Seq<char>,
}

/// The content of a [`File`].
pub ghost struct FileView {
    pub common: PageCommonView,
    pub scopes: Seq<ScopeView>,
}

/// The content of a [`Scope`].
pub ghost struct ScopeView {
    pub ref_id: Seq<char>,
    pub name: Seq<char>,
    pub kind: Seq<char>,
    pub sections: Seq<SectionView>,
}

/// The content of a [`Section`].
pub ghost struct SectionView {
    pub name: Option<Seq<char>>,
    pub description: Option<Seq<char>>,
    pub members: Seq<MemberView>,
}

/// The content of a [`Member`].
pub ghost struct MemberView {
    pub ref_id: Seq<char>,
    pub definition: Seq<char>,
    pub description: Seq<char>,
    pub enum_values: Seq<EnumValueView>,
}

/// The content of an [`EnumValue`].
pub ghost struct EnumValueView {
    pub ref_id: Seq<char>,
    pub name: Seq<char>,
    pub initializer: Option<Seq<char>>,
    pub description: Seq<char>,
}

/// The content of a [`Compound`].
pub ghost enum CompoundView {
    File(FileView),
    Page(PageView),
}

impl View for EnumValue {
    type V = EnumValueView;

    open spec fn view(&self) -> EnumValueView {
        EnumValueView {
            ref_id: self.ref_id@,
            name: self.name@,
            initializer: optional(self.initializer),
            description: self.description@,
        }
    }
}

impl View for Member {
    type V = MemberView;

    open spec fn view(&self) -> MemberView {
        MemberView {
            ref_id: self.ref_id@,
            definition: self.definition@,
            description: self.description@,
            enum_values: views(self.enum_values@),
        }
    }
}

impl View for Section {
    type V = SectionView;

    open spec fn view(&self) -> SectionView {
        SectionView {
            name: optional(self.name),
            description: optional(self.description),
            members: views(self.members@),
        }
    }
}

impl View for Scope {
    type V = ScopeView;

    open spec fn view(&self) -> ScopeView {
        ScopeView {
            ref_id: self.ref_id@,
            name: self.name@,
            kind: self.kind@,
            sections: views(self.sections@),
        }
    }
}

impl View for PageCommon {
    type V = PageCommonView;

    open spec fn view(&self) -> PageCommonView {
        PageCommonView {
            ref_id: self.ref_id@,
            source: self.source@,
            title: self.title@,
            has_math: self.has_math,
            subpage_refs: strings_of(self.subpage_refs@),
        }
    }
}

impl View for Page {
    type V = PageView;

    open spec fn view(&self) -> PageView {
        PageView { common: self.common@, description: self.description@ }
    }
}

impl View for File {
    type V = FileView;

    open spec fn view(&self) -> FileView {
        FileView { common: self.common@, scopes: views(self.scopes@) }
    }
}

impl View for Compound {
    type V = CompoundView;

    open spec fn view(&self) -> CompoundView {
        match *self {
            Compound::File(file) => CompoundView::File(file@),
            Compound::Page(page) => CompoundView::Page(page@),
        }
    }
}

impl Compound {
    /// What a file and a page have in common.
    pub fn common(&self) -> (c: &PageCommon)
        ensures
            *c == match *self {
                Compound::File(file) => file.common,
                Compound::Page(page) => page.common,
            },
    {
        match self {
            Compound::File(file) => &file.common,
            Compound::Page(page) => &page.common,
        }
    }

    /// A file as an entity of the generated set. A file without scopes has
    /// nothing worth a page and is left out.
    pub fn from_file(file: File) -> (r: Option<Compound>)
        ensures
            r == if file.scopes@.len() > 0 {
                Some(Compound::File(file))
            } else {
                None
            },
    {
        if file.scopes.len() > 0 {
            Some(Compound::File(file))
        } else {
            None
        }
    }
}

} // verus!
