//! What the TOML parser reports of a manifest: whether the text is well-formed
//! and, for each section, its entries with the place of their version literal.
//! Nothing in this file is proved; each function states what is taken on trust
//! of the parser.

use vstd::prelude::*;
use vstd::string::*;
use toml_edit::{ImDocument, TomlError};

verus! {

/// A parsed document that keeps, for every value, its place in the text.
#[verifier::external_type_specification]
#[verifier::external_body]
#[verifier::reject_recursive_types(S)]
pub struct ExImDocument<S>(ImDocument<S>);

/// Why a text is not well-formed TOML.
#[verifier::external_type_specification]
#[verifier::external_body]
pub struct ExTomlError(TomlError);

/// The form in which an entry of a section is written.
#[derive(Debug, Clone, Copy, PartialEq, Eq, Structural)]
pub enum ItemShape {
    /// A string: `name = "1.0"`.
    Text,
    /// An inline table: `name = { version = "1.0" }`.
    Inline,
    /// A table of its own: `[dependencies.name]`.
    Table,
    /// Anything else.
    Other,
}

/// A string literal of the manifest: the string it denotes and the bytes of
/// the text, from `start` up to `end`, that write it, quotes included.
#[derive(Debug)]
pub struct Literal {
    pub value: String,
    pub start: usize,
    pub end: usize,
}

/// What a `Literal` stands for in contracts.
pub struct LiteralView {
    pub value: Seq<char>,
    pub start: int,
    pub end: int,
}

impl View for Literal {
    type V = LiteralView;

    open spec fn view(&self) -> LiteralView {
        LiteralView { value: self.value@, start: self.start as int, end: self.end as int }
    }
}

/// The view of a literal that may be absent.
pub open spec fn literal_view(literal: Option<Literal>) -> Option<LiteralView> {
    match literal {
        Some(l) => Some(l@),
        None => None,
    }
}

/// One entry of a section as the parser reports it: its key, its shape, and
/// the literal that the entry itself is if it is a string.
pub struct RawItem {
    pub name: Seq<char>,
    pub shape: ItemShape,
    pub text: Option<LiteralView>,
}

/// Whether the parser accepts `text` as a TOML document.
pub uninterp spec fn toml_parses(text: Seq<char>) -> bool;

/// The entries of the top-level table `section` of the document that `text`
/// writes, in the order in which the parser's table yields them; `None` where
/// the document has no such table.
pub uninterp spec fn toml_items(text: Seq<char>, section: Seq<char>) -> Option<Seq<RawItem>>;

/// The string literal that is the member `key` of the entry at `index` of the
/// top-level table `section` of the document that `text` writes; `None` where
/// there is no such entry, where it is no table of either kind, where it has
/// no such member, or where the member is no string.
pub uninterp spec fn toml_member(
    text: Seq<char>,
    section: Seq<char>,
    index: int,
    key: Seq<char>,
) -> Option<LiteralView>;

/// The text that `doc` was parsed from.
pub uninterp spec fn document_source(doc: ImDocument<String>) -> Seq<char>;

/// Whether `doc` has a table `section` with an entry at `index`.
pub open spec fn has_item(doc: ImDocument<String>, section: Seq<char>, index: int) -> bool {
    let items = toml_items(document_source(doc), section);
    items is Some && 0 <= index < items.unwrap().len()
}

/// Calls `ImDocument::parse`. Taken on trust: whether it succeeds depends on
/// the text alone, and the document it returns remembers that text.
#[verifier::external_body]
pub(crate) fn parse_document(text: &str) -> (r: Result<ImDocument<String>, TomlError>)
    ensures
        r is Ok <==> toml_parses(text@),
        r is Ok ==> document_source(r->Ok_0) == text@,
{
    ImDocument::parse(text.to_string())
}

/// Calls `Table::iter` on the top-level table `section`, found with
/// `Table::get` and `Item::as_table`, and counts its entries. Taken on trust:
/// the entries are a function of the text the document was parsed from.
#[verifier::external_body]
pub(crate) fn section_len(doc: &ImDocument<String>, section: &str) -> (n: Option<usize>)
    ensures
        n is Some <==> toml_items(document_source(*doc), section@) is Some,
        n is Some ==> n.unwrap() == toml_items(document_source(*doc), section@).unwrap().len(),
{
    doc.get(section).and_then(|item| item.as_table()).map(|table| table.iter().count())
}

/// The key that `Table::iter` yields at `index` of the table `section`.
#[verifier::external_body]
pub(crate) fn item_name(doc: &ImDocument<String>, section: &str, index: usize) -> (name: String)
    requires
        has_item(*doc, section@, index as int),
    ensures
        name@ == toml_items(document_source(*doc), section@).unwrap()[index as int].name,
{
    let table = doc.get(section).and_then(|item| item.as_table());
    let entry = table.and_then(|table| table.iter().nth(index));
    entry.map(|(key, _)| key.to_string()).unwrap_or_default()
}

/// Which variant of `Item` and `Value` the entry at `index` of the table
/// `section` is.
#[verifier::external_body]
pub(crate) fn item_shape(doc: &ImDocument<String>, section: &str, index: usize) -> (shape:
    ItemShape)
    requires
        has_item(*doc, section@, index as int),
    ensures
        shape == toml_items(document_source(*doc), section@).unwrap()[index as int].shape,
{
    let table = doc.get(section).and_then(|item| item.as_table());
    match table.and_then(|table| table.iter().nth(index)) {
        Some((_, toml_edit::Item::Value(toml_edit::Value::String(_)))) => ItemShape::Text,
        Some((_, toml_edit::Item::Value(toml_edit::Value::InlineTable(_)))) => ItemShape::Inline,
        Some((_, toml_edit::Item::Table(_))) => ItemShape::Table,
        _ => ItemShape::Other,
    }
}

/// What `Item::as_str` and `Item::span` give for the entry at `index` of the
/// table `section`: the string and its place, where the entry is a string.
#[verifier::external_body]
pub(crate) fn item_text(doc: &ImDocument<String>, section: &str, index: usize) -> (literal:
    Option<Literal>)
    requires
        has_item(*doc, section@, index as int),
    ensures
        literal_view(literal) == toml_items(document_source(*doc), section@).unwrap()[index as int].text,
{
    let table = doc.get(section).and_then(|item| item.as_table());
    let item = table.and_then(|table| table.iter().nth(index)).map(|(_, item)| item);
    let found = item.and_then(|item| item.as_str().zip(item.span()));
    found.map(|(value, span)| Literal { value: value.to_string(), start: span.start, end: span.end })
}

/// What `Item::as_str` and `Item::span` give for the member `key`, found with
/// `Item::as_table_like` and `TableLike::get`, of the entry at `index` of the
/// table `section`: the string and its place, where there is such a member and
/// it is a string.
#[verifier::external_body]
pub(crate) fn item_member(
    doc: &ImDocument<String>,
    section: &str,
    index: usize,
    key: &str,
) -> (literal: Option<Literal>)
    requires
        has_item(*doc, section@, index as int),
    ensures
        literal_view(literal) == toml_member(document_source(*doc), section@, index as int, key@),
{
    let table = doc.get(section).and_then(|item| item.as_table());
    let item = table.and_then(|table| table.iter().nth(index)).map(|(_, item)| item);
    let member = item.and_then(|item| item.as_table_like()).and_then(|table| table.get(key));
    let found = member.and_then(|item| item.as_str().zip(item.span()));
    found.map(|(value, span)| Literal { value: value.to_string(), start: span.start, end: span.end })
}

} // verus!
