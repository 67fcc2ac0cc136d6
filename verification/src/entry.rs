//! Completion entries as the language server sends them, and the scored form
//! in which the popup lists them.

use vstd::prelude::*;

verus! {

/// What a completion entry stands for.
#[derive(Clone, Copy, Debug, PartialEq, Eq, Structural)]
pub enum CompletionKind {
    Method,
    Function,
    Enum,
    EnumMember,
    Class,
    Variable,
    Struct,
    Keyword,
    Constant,
    Property,
    Field,
    Interface,
    Snippet,
    Module,
    Other,
}

/// One suggestion of the language server.
#[derive(Debug)]
pub struct CompletionEntry {
    pub label: String,
    pub kind: Option<CompletionKind>,
    pub insert_text: String,
}

/// A `CompletionEntry` as a value.
pub struct EntryView {
    pub label: Seq<char>,
    pub kind: Option<CompletionKind>,
    pub insert_text: Seq<char>,
}

impl View for CompletionEntry {
    type V = EntryView;

    open spec fn view(&self) -> EntryView {
        EntryView { label: self.label@, kind: self.kind, insert_text: self.insert_text@ }
    }
}

impl Clone for CompletionEntry {
    fn clone(&self) -> (r: Self)
        ensures
            r@ == self@,
    {
        CompletionEntry {
            label: self.label.clone(),
            kind: self.kind,
            insert_text: self.insert_text.clone(),
        }
    }
}

/// An entry with its rank: the score of its label against the current query,
/// the character offsets of the label that the query matched, and the place
/// the entry had in the list as the server sent it.
#[derive(Debug)]
pub struct ScoredCompletionItem {
    pub item: CompletionEntry,
    pub index: usize,
    pub score: i64,
    pub indices: Vec<usize>,
}

/// A `ScoredCompletionItem` as a value.
pub struct ScoredView {
    pub item: EntryView,
    pub index: usize,
    pub score: i64,
    pub indices: Seq<usize>,
}

impl View for ScoredCompletionItem {
    type V = ScoredView;

    open spec fn view(&self) -> ScoredView {
        ScoredView {
            item: self.item@,
            index: self.index,
            score: self.score,
            indices: self.indices@,
        }
    }
}

impl Clone for ScoredCompletionItem {
    fn clone(&self) -> (r: Self)
        ensures
            r@ == self@,
    {
        ScoredCompletionItem {
            item: self.item.clone(),
            index: self.index,
            score: self.score,
            indices: copy_offsets(&self.indices),
        }
    }
}

/// A copy of `offsets`.
pub fn copy_offsets(offsets: &Vec<usize>) -> (r: Vec<usize>)
    ensures
        r@ == offsets@,
{
    let mut r: Vec<usize> = Vec::new();
    let mut i: usize = 0;
    while i < offsets.len()
        invariant
            i <= offsets.len(),
            r@ == offsets@.take(i as int),
        decreases offsets.len() - i,
    {
        r.push(offsets[i]);
        i += 1;
        assert(r@ =~= offsets@.take(i as int));
    }
    assert(offsets@.take(offsets.len() as int) =~= offsets@);
    r
}

/// The values of a list of scored items, in order.
pub open spec fn views(items: Seq<ScoredCompletionItem>) -> Seq<ScoredView> {
    items.map_values(|item: ScoredCompletionItem| item@)
}

/// A copy of `items`.
pub fn copy_items(items: &Vec<ScoredCompletionItem>) -> (r: Vec<ScoredCompletionItem>)
    ensures
        views(r@) == views(items@),
{
    let mut r: Vec<ScoredCompletionItem> = Vec::new();
    let mut i: usize = 0;
    while i < items.len()
        invariant
            i <= items.len(),
            r.len() == i,
            views(r@) == views(items@.take(i as int)),
        decreases items.len() - i,
    {
        let ghost before = r@;
        r.push(items[i].clone());
        i += 1;
        assert forall|k: int| 0 <= k < i implies views(r@)[k] == views(items@.take(i as int))[k] by {
            if k < i - 1 {
                assert(views(before)[k] == views(items@.take(i - 1))[k]);
            }
        }
        assert(views(r@) =~= views(items@.take(i as int)));
    }
    assert(items@.take(items.len() as int) =~= items@);
    r
}

/// Whether two lists of offsets hold the same offsets.
pub fn same_offsets(a: &Vec<usize>, b: &Vec<usize>) -> (r: bool)
    ensures
        r == (a@ == b@),
{
    if a.len() != b.len() {
        return false;
    }
    let mut i: usize = 0;
    while i < a.len()
        invariant
            i <= a.len(),
            a.len() == b.len(),
            forall|k: int| 0 <= k < i ==> a[k] == b[k],
        decreases a.len() - i,
    {
        if a[i] != b[i] {
            return false;
        }
        i += 1;
    }
    assert(a@ =~= b@);
    true
}

/// Whether two kinds are the same, or both absent.
pub fn same_kind(a: Option<CompletionKind>, b: Option<CompletionKind>) -> (r: bool)
    ensures
        r == (a == b),
{
    match (a, b) {
        (Some(x), Some(y)) => x == y,
        (None, None) => true,
        _ => false,
    }
}

/// Whether two entries are the same in label, kind and inserted text.
pub fn same_entry(a: &CompletionEntry, b: &CompletionEntry) -> (r: bool)
    ensures
        r == (a@ == b@),
{
    a.label == b.label && same_kind(a.kind, b.kind) && a.insert_text == b.insert_text
}

/// Whether two scored items are the same in entry, place, score and matched
/// offsets.
pub fn same_item(a: &ScoredCompletionItem, b: &ScoredCompletionItem) -> (r: bool)
    ensures
        r == (a@ == b@),
{
    a.index == b.index && a.score == b.score && same_entry(&a.item, &b.item) && same_offsets(
        &a.indices,
        &b.indices,
    )
}

/// Whether two lists hold the same items in the same order.
pub fn same_items(a: &Vec<ScoredCompletionItem>, b: &Vec<ScoredCompletionItem>) -> (r: bool)
    ensures
        r == (views(a@) == views(b@)),
{
    if a.len() != b.len() {
        assert(views(a@).len() != views(b@).len());
        return false;
    }
    let mut i: usize = 0;
    while i < a.len()
        invariant
            i <= a.len(),
            a.len() == b.len(),
            forall|k: int| 0 <= k < i ==> a[k]@ == b[k]@,
        decreases a.len() - i,
    {
        if !same_item(&a[i], &b[i]) {
            assert(views(a@)[i as int] != views(b@)[i as int]);
            return false;
        }
        i += 1;
    }
    assert(views(a@) =~= views(b@));
    true
}

/// The name of the glyph that stands for `kind` in the list, for the kinds
/// that have one.
pub open spec fn icon_of(kind: Option<CompletionKind>) -> Option<Seq<char>> {
    match kind {
        Some(CompletionKind::Method) => Some("method"@),
        Some(CompletionKind::Function) => Some("method"@),
        Some(CompletionKind::Enum) => Some("enum"@),
        Some(CompletionKind::EnumMember) => Some("enum-member"@),
        Some(CompletionKind::Class) => Some("class"@),
        Some(CompletionKind::Variable) => Some("variable"@),
        Some(CompletionKind::Struct) => Some("structure"@),
        Some(CompletionKind::Keyword) => Some("keyword"@),
        Some(CompletionKind::Constant) => Some("constant"@),
        Some(CompletionKind::Property) => Some("property"@),
        Some(CompletionKind::Field) => Some("field"@),
        Some(CompletionKind::Interface) => Some("interface"@),
        Some(CompletionKind::Snippet) => Some("snippet"@),
        Some(CompletionKind::Module) => Some("namespace"@),
        Some(CompletionKind::Other) => None,
        None => None,
    }
}

/// The glyph name of `kind`: `None` for an entry without a kind and for a
/// kind without a glyph.
pub fn completion_svg(kind: Option<CompletionKind>) -> (r: Option<&'static str>)
    ensures
        r is Some <==> icon_of(kind) is Some,
        r matches Some(name) ==> Some(name@) == icon_of(kind),
{
    let kind = match kind {
        Some(kind) => kind,
        None => { return None; },
    };
    let name = match kind {
        CompletionKind::Method => "method",
        CompletionKind::Function => "method",
        CompletionKind::Enum => "enum",
        CompletionKind::EnumMember => "enum-member",
        CompletionKind::Class => "class",
        CompletionKind::Variable => "variable",
        CompletionKind::Struct => "structure",
        CompletionKind::Keyword => "keyword",
        CompletionKind::Constant => "constant",
        CompletionKind::Property => "property",
        CompletionKind::Field => "field",
        CompletionKind::Interface => "interface",
        CompletionKind::Snippet => "snippet",
        CompletionKind::Module => "namespace",
        CompletionKind::Other => { return None; },
    };
    Some(name)
}

} // verus!
