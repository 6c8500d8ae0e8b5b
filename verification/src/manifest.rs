//! The manifest as an editable text: the bytes as they were read, and for each
//! dependency entry the place of its version literal, so that a rewrite
//! replaces that literal and leaves every other byte alone.

use vstd::prelude::*;
use vstd::string::*;
use vstd::utf8::encode_utf8;
use toml_edit::ImDocument;
use crate::error::CcuError;
use crate::rewrite::{
    escaped, escaped_byte, find_entry, has_version, hex_digit, is_entry,
    lemma_find_entry_unique, lemma_has_version, lemma_rewritten, literal_of, moved, rewritten,
    set_version_spec, update_spec,
};
use crate::version::preserve_version_operator;
use crate::source::{
    document_source, item_member, item_name, item_shape, item_text, literal_view,
    parse_document, section_len, toml_items, toml_member, toml_parses, ItemShape, Literal,
    LiteralView, RawItem,
};

verus! {

/// The three sections of a manifest that declare dependencies.
#[derive(Debug, Clone, Copy, PartialEq, Eq, Structural)]
pub enum DependencySection {
    Dependencies,
    DevDependencies,
    BuildDependencies,
}

impl DependencySection {
    /// The name of the section's table.
    pub open spec fn name_spec(self) -> Seq<char> {
        match self {
            DependencySection::Dependencies => "dependencies"@,
            DependencySection::DevDependencies => "dev-dependencies"@,
            DependencySection::BuildDependencies => "build-dependencies"@,
        }
    }

    /// The name of the section's table in the manifest.
    pub fn as_str(&self) -> (name: &'static str)
        ensures
            name@ == self.name_spec(),
    {
        match self {
            DependencySection::Dependencies => "dependencies",
            DependencySection::DevDependencies => "dev-dependencies",
            DependencySection::BuildDependencies => "build-dependencies",
        }
    }
}

/// A dependency that declares a version: its name, the version range as the
/// manifest writes it, and the section it stands in.
#[derive(Debug, PartialEq, Eq)]
pub struct Dependency {
    pub name: String,
    pub version: String,
    pub section: DependencySection,
}

/// What a `Dependency` stands for in contracts.
pub struct DependencyView {
    pub name: Seq<char>,
    pub version: Seq<char>,
    pub section: DependencySection,
}

impl View for Dependency {
    type V = DependencyView;

    open spec fn view(&self) -> DependencyView {
        DependencyView { name: self.name@, version: self.version@, section: self.section }
    }
}

impl Clone for Dependency {
    fn clone(&self) -> (copy: Dependency)
        ensures
            copy@ == self@,
    {
        Dependency {
            name: self.name.clone(),
            version: self.version.clone(),
            section: self.section,
        }
    }
}

/// The views of a list of dependencies.
pub open spec fn dependency_views(list: Seq<Dependency>) -> Seq<DependencyView> {
    Seq::new(list.len(), |i: int| list[i]@)
}

/// An entry of a dependency section. `version` is the string literal that
/// holds its version range, and is absent where the entry has none (a path,
/// git or workspace dependency, say).
#[derive(Debug)]
pub struct Entry {
    pub name: String,
    pub section: DependencySection,
    pub shape: ItemShape,
    pub version: Option<Literal>,
}

/// What an `Entry` stands for in contracts.
pub struct EntryView {
    pub name: Seq<char>,
    pub section: DependencySection,
    pub shape: ItemShape,
    pub version: Option<LiteralView>,
}

impl View for Entry {
    type V = EntryView;

    open spec fn view(&self) -> EntryView {
        EntryView {
            name: self.name@,
            section: self.section,
            shape: self.shape,
            version: literal_view(self.version),
        }
    }
}

/// The views of a list of entries.
pub open spec fn entry_views(list: Seq<Entry>) -> Seq<EntryView> {
    Seq::new(list.len(), |i: int| list[i]@)
}

/// The key under which an entry that is a table holds its version range.
pub open spec fn version_key() -> Seq<char> {
    "version"@
}

/// The literal that holds an entry's version range: the entry itself where it
/// is a string, its member `version` where it is a table of either kind, and
/// none otherwise.
pub open spec fn chosen_literal_spec(
    shape: ItemShape,
    text: Option<LiteralView>,
    version: Option<LiteralView>,
) -> Option<LiteralView> {
    match shape {
        ItemShape::Text => text,
        ItemShape::Inline => version,
        ItemShape::Table => version,
        ItemShape::Other => None,
    }
}

/// The entry that an item of `section` gives, `version` being the string
/// literal of its member `version`, if it has one.
pub open spec fn entry_of(
    item: RawItem,
    version: Option<LiteralView>,
    section: DependencySection,
) -> EntryView {
    EntryView {
        name: item.name,
        section,
        shape: item.shape,
        version: chosen_literal_spec(item.shape, item.text, version),
    }
}

/// The entry that the item at `index` of `section` of the manifest `text`
/// gives.
pub open spec fn entry_at(
    text: Seq<char>,
    section: DependencySection,
    items: Seq<RawItem>,
    index: int,
) -> EntryView {
    entry_of(
        items[index],
        toml_member(text, section.name_spec(), index, version_key()),
        section,
    )
}

/// The entries of one section of the manifest `text`, in the parser's order;
/// none where the manifest has no such section.
pub open spec fn section_entries(text: Seq<char>, section: DependencySection) -> Seq<EntryView> {
    match toml_items(text, section.name_spec()) {
        Some(items) => Seq::new(items.len(), |i: int| entry_at(text, section, items, i)),
        None => Seq::empty(),
    }
}

/// The entries of the manifest `text`: those of `dependencies`, then those of
/// `dev-dependencies`, then those of `build-dependencies`.
pub open spec fn manifest_entries(text: Seq<char>) -> Seq<EntryView> {
    section_entries(text, DependencySection::Dependencies) + section_entries(
        text,
        DependencySection::DevDependencies,
    ) + section_entries(text, DependencySection::BuildDependencies)
}

/// Whether an entry's version literal, if it has one, is a non-empty stretch
/// of a text of `len` bytes.
pub open spec fn field_ok(e: EntryView, len: int) -> bool {
    e.version is Some ==> 0 <= e.version.unwrap().start < e.version.unwrap().end <= len
}

/// Whether two entries differ in name or section, and their version literals
/// do not overlap.
pub open spec fn apart(a: EntryView, b: EntryView) -> bool {
    &&& !(a.name == b.name && a.section == b.section)
    &&& (a.version is Some && b.version is Some ==> a.version.unwrap().end
        <= b.version.unwrap().start || b.version.unwrap().end <= a.version.unwrap().start)
}

/// Whether `entries` can be the entries of a text of `len` bytes: every
/// version literal lies within the text, no two overlap, and no name occurs
/// twice in a section.
pub open spec fn consistent(entries: Seq<EntryView>, len: int) -> bool {
    &&& forall|i: int| 0 <= i < entries.len() ==> field_ok(#[trigger] entries[i], len)
    &&& forall|i: int, j: int|
        0 <= i < j < entries.len() ==> apart(#[trigger] entries[i], #[trigger] entries[j])
}

/// What a manifest stands for in contracts: the bytes of its text, its
/// entries, and the path it was read from.
pub struct ManifestView {
    pub text: Seq<u8>,
    pub entries: Seq<EntryView>,
    pub path: Seq<char>,
}

/// Whether a manifest's entries fit its text.
pub open spec fn well_formed(v: ManifestView) -> bool {
    consistent(v.entries, v.text.len() as int)
}

/// The manifest that loading `text` from `path` gives, or `None` where the
/// text is not well-formed.
pub open spec fn load_spec(path: Seq<char>, text: Seq<char>) -> Option<ManifestView> {
    let loaded = ManifestView { text: encode_utf8(text), entries: manifest_entries(text), path };
    if toml_parses(text) && well_formed(loaded) {
        Some(loaded)
    } else {
        None
    }
}

/// Whether an entry declares a dependency: it has a version literal, and the
/// version range that the literal denotes is not empty.
pub open spec fn declares_version(e: EntryView) -> bool {
    e.version is Some && e.version.unwrap().value.len() > 0
}

/// The dependencies among `entries`: those with a version range that is not
/// empty, in order.
pub open spec fn dependencies_of(entries: Seq<EntryView>) -> Seq<DependencyView>
    decreases entries.len(),
{
    if entries.len() == 0 {
        Seq::empty()
    } else {
        let rest = dependencies_of(entries.drop_last());
        let e = entries.last();
        if declares_version(e) {
            rest.push(
                DependencyView {
                    name: e.name,
                    version: e.version.unwrap().value,
                    section: e.section,
                },
            )
        } else {
            rest
        }
    }
}

/// Whether two dependencies have the same name in the same section.
pub open spec fn same_key(a: DependencyView, b: DependencyView) -> bool {
    a.name == b.name && a.section == b.section
}

/// Whether no two dependencies of `deps` have the same name in the same section.
pub open spec fn distinct_dependencies(deps: Seq<DependencyView>) -> bool {
    forall|i: int, j: int|
        0 <= i < j < deps.len() ==> !same_key(#[trigger] deps[i], #[trigger] deps[j])
}

/// Whether the entry `e` declares the dependency `d`.
pub open spec fn declared_by(d: DependencyView, e: EntryView) -> bool {
    &&& e.name == d.name
    &&& e.section == d.section
    &&& e.version is Some
    &&& e.version.unwrap().value == d.version
}

/// Whether one of `entries` declares the dependency `d`.
pub open spec fn declared_in(d: DependencyView, entries: Seq<EntryView>) -> bool {
    exists|i: int| 0 <= i < entries.len() && declared_by(d, #[trigger] entries[i])
}

/// The dependencies read from consistent entries each come from an entry,
/// have a version range that is not empty, and no two of them have the same
/// name in the same section.
pub proof fn lemma_dependencies_of(entries: Seq<EntryView>, len: int)
    requires
        consistent(entries, len),
    ensures
        distinct_dependencies(dependencies_of(entries)),
        forall|k: int|
            0 <= k < dependencies_of(entries).len() ==> (#[trigger] dependencies_of(
                entries,
            )[k]).version.len() > 0,
        forall|k: int|
            0 <= k < dependencies_of(entries).len() ==> declared_in(
                #[trigger] dependencies_of(entries)[k],
                entries,
            ),
    decreases entries.len(),
{
    if entries.len() > 0 {
        let deps = dependencies_of(entries);
        let init = entries.drop_last();
        let rest = dependencies_of(init);
        let last = entries.last();
        assert forall|i: int| 0 <= i < init.len() implies field_ok(#[trigger] init[i], len) by {
            assert(init[i] == entries[i]);
        }
        assert forall|i: int, j: int| 0 <= i < j < init.len() implies apart(
            #[trigger] init[i],
            #[trigger] init[j],
        ) by {
            assert(init[i] == entries[i] && init[j] == entries[j]);
        }
        lemma_dependencies_of(init, len);
        assert(field_ok(entries[entries.len() - 1], len));
        assert forall|k: int| 0 <= k < deps.len() implies declared_in(
            #[trigger] deps[k],
            entries,
        ) by {
            if k < rest.len() {
                assert(declared_in(rest[k], init));
                let i = choose|i: int|
                    0 <= i < init.len() && declared_by(rest[k], #[trigger] init[i]);
                assert(entries[i] == init[i]);
                assert(deps[k] == rest[k]);
            } else {
                assert(declared_by(deps[k], entries[entries.len() - 1]));
            }
        }
        assert forall|a: int, b: int| 0 <= a < b < deps.len() implies !same_key(
            #[trigger] deps[a],
            #[trigger] deps[b],
        ) by {
            if b < rest.len() {
                assert(deps[a] == rest[a] && deps[b] == rest[b]);
            } else {
                assert(declared_in(rest[a], init));
                let i = choose|i: int|
                    0 <= i < init.len() && declared_by(rest[a], #[trigger] init[i]);
                assert(entries[i] == init[i]);
                assert(apart(entries[i], entries[entries.len() - 1]));
                assert(deps[a] == rest[a]);
            }
        }
    }
}

/// The entries of `entries` that stand in `section`, in order.
pub open spec fn entries_in(entries: Seq<EntryView>, section: DependencySection) -> Seq<
    EntryView,
>
    decreases entries.len(),
{
    if entries.len() == 0 {
        Seq::empty()
    } else {
        let rest = entries_in(entries.drop_last(), section);
        if entries.last().section == section {
            rest.push(entries.last())
        } else {
            rest
        }
    }
}

/// The entries of one section, taken out of consistent entries, are
/// consistent again; each of them is one of the entries and stands in that
/// section.
pub proof fn lemma_entries_in(entries: Seq<EntryView>, len: int, section: DependencySection)
    requires
        consistent(entries, len),
    ensures
        consistent(entries_in(entries, section), len),
        forall|k: int|
            0 <= k < entries_in(entries, section).len() ==> (#[trigger] entries_in(
                entries,
                section,
            )[k]).section == section && entries.contains(entries_in(entries, section)[k]),
    decreases entries.len(),
{
    if entries.len() > 0 {
        let chosen = entries_in(entries, section);
        let init = entries.drop_last();
        let rest = entries_in(init, section);
        let last = entries.last();
        assert forall|i: int| 0 <= i < init.len() implies field_ok(#[trigger] init[i], len) by {
            assert(init[i] == entries[i]);
        }
        assert forall|i: int, j: int| 0 <= i < j < init.len() implies apart(
            #[trigger] init[i],
            #[trigger] init[j],
        ) by {
            assert(init[i] == entries[i] && init[j] == entries[j]);
        }
        lemma_entries_in(init, len, section);
        assert(last == entries[entries.len() - 1]);
        assert forall|k: int| 0 <= k < chosen.len() implies (#[trigger] chosen[k]).section
            == section && entries.contains(chosen[k]) by {
            if k < rest.len() {
                assert(chosen[k] == rest[k]);
                assert(init.contains(rest[k]));
                let i = choose|i: int| 0 <= i < init.len() && init[i] == rest[k];
                assert(entries[i] == rest[k]);
            }
        }
        assert forall|k: int| 0 <= k < chosen.len() implies field_ok(#[trigger] chosen[k], len) by {
            assert(entries.contains(chosen[k]));
            let i = choose|i: int| 0 <= i < entries.len() && entries[i] == chosen[k];
            assert(field_ok(entries[i], len));
        }
        assert forall|a: int, b: int| 0 <= a < b < chosen.len() implies apart(
            #[trigger] chosen[a],
            #[trigger] chosen[b],
        ) by {
            if b < rest.len() {
                assert(chosen[a] == rest[a] && chosen[b] == rest[b]);
            } else {
                assert(chosen[a] == rest[a]);
                assert(init.contains(rest[a]));
                let i = choose|i: int| 0 <= i < init.len() && init[i] == rest[a];
                assert(entries[i] == init[i]);
                assert(apart(entries[i], entries[entries.len() - 1]));
            }
        }
    }
}

/// A manifest, held as the text it was read from together with the places of
/// the version literals in it.
#[derive(Debug)]
pub struct CargoTomlParser {
    text: Vec<u8>,
    entries: Vec<Entry>,
    path: String,
}

impl View for CargoTomlParser {
    type V = ManifestView;

    closed spec fn view(&self) -> ManifestView {
        ManifestView { text: self.text@, entries: entry_views(self.entries@), path: self.path@ }
    }
}

/// Picks the literal that holds an entry's version range: the entry itself
/// where it is a string, its member `version` where it is a table of either
/// kind, and none otherwise.
pub fn chosen_literal(shape: ItemShape, text: Option<Literal>, version: Option<Literal>) -> (r:
    Option<Literal>)
    ensures
        literal_view(r) == chosen_literal_spec(shape, literal_view(text), literal_view(version)),
{
    match shape {
        ItemShape::Text => text,
        ItemShape::Inline => version,
        ItemShape::Table => version,
        ItemShape::Other => None,
    }
}

/// Appends the entries of one section of `doc` to `out`, classifying each by
/// the form in which it is written.
fn scan_section(doc: &ImDocument<String>, section: DependencySection, out: &mut Vec<Entry>)
    ensures
        entry_views(final(out)@) == entry_views(old(out)@) + section_entries(
            document_source(*doc),
            section,
        ),
{
    let ghost before = entry_views(out@);
    let name = section.as_str();
    match section_len(doc, name) {
        None => {
            assert(entry_views(out@) =~= before + Seq::<EntryView>::empty());
        },
        Some(n) => {
            let ghost items = toml_items(document_source(*doc), name@).unwrap();
            let mut i: usize = 0;
            assert(entry_views(out@) =~= before + Seq::new(
                0,
                |k: int| entry_at(document_source(*doc), section, items, k),
            ));
            while i < n
                invariant
                    i <= n,
                    n == items.len(),
                    name@ == section.name_spec(),
                    toml_items(document_source(*doc), name@) == Some(items),
                    entry_views(out@) == before + Seq::new(
                        i as nat,
                        |k: int| entry_at(document_source(*doc), section, items, k),
                    ),
                decreases n - i,
            {
                let key = item_name(doc, name, i);
                let shape = item_shape(doc, name, i);
                let text = item_text(doc, name, i);
                let version = item_member(doc, name, i, "version");
                let entry = Entry::from_item(key, section, shape, text, version);
                let ghost held = out@;
                let ghost added = entry@;
                assert(added == entry_at(document_source(*doc), section, items, i as int));
                out.push(entry);
                i = i + 1;
                assert(entry_views(out@) =~= entry_views(held).push(added));
                assert(entry_views(out@) =~= before + Seq::new(
                    i as nat,
                    |k: int| entry_at(document_source(*doc), section, items, k),
                ));
            }
        },
    }
}

/// Whether an entry's version literal fits a text of `len` bytes.
fn field_fits(e: &Entry, len: usize) -> (ok: bool)
    ensures
        ok == field_ok(e@, len as int),
{
    match &e.version {
        Some(l) => l.start < l.end && l.end <= len,
        None => true,
    }
}

/// Whether two entries differ in name or section and do not overlap.
fn entries_apart(a: &Entry, b: &Entry) -> (ok: bool)
    ensures
        ok == apart(a@, b@),
{
    if a.name == b.name && a.section == b.section {
        return false;
    }
    match (&a.version, &b.version) {
        (Some(x), Some(y)) => x.end <= y.start || y.end <= x.start,
        _ => true,
    }
}

/// Whether `entries` can be the entries of a text of `len` bytes: every
/// version literal is a stretch of the text and denotes a string that is not
/// empty, no two literals overlap, and no name occurs twice in a section.
pub fn check_entries(entries: &Vec<Entry>, len: usize) -> (ok: bool)
    ensures
        ok == consistent(entry_views(entries@), len as int),
{
    let ghost views = entry_views(entries@);
    let n: usize = entries.len();
    let mut i: usize = 0;
    while i < n
        invariant
            i <= n,
            n == entries@.len(),
            views == entry_views(entries@),
            forall|a: int| 0 <= a < i ==> field_ok(#[trigger] views[a], len as int),
            forall|a: int, b: int|
                0 <= a < i && a < b < n ==> apart(#[trigger] views[a], #[trigger] views[b]),
        decreases n - i,
    {
        assert(views[i as int] == entries@[i as int]@);
        if !field_fits(&entries[i], len) {
            return false;
        }
        let mut j: usize = i + 1;
        while j < n
            invariant
                i < j <= n,
                n == entries@.len(),
                views == entry_views(entries@),
                forall|b: int| i < b < j ==> apart(views[i as int], #[trigger] views[b]),
            decreases n - j,
        {
            assert(views[i as int] == entries@[i as int]@);
            assert(views[j as int] == entries@[j as int]@);
            if !entries_apart(&entries[i], &entries[j]) {
                return false;
            }
            j = j + 1;
        }
        i = i + 1;
    }
    true
}

/// Appends the bytes of `src` from `from` up to `to` to `dst`.
fn append_range(dst: &mut Vec<u8>, src: &Vec<u8>, from: usize, to: usize)
    requires
        from <= to <= src@.len(),
    ensures
        final(dst)@ == old(dst)@ + src@.subrange(from as int, to as int),
{
    let ghost before = dst@;
    let mut i: usize = from;
    assert(dst@ =~= before + src@.subrange(from as int, from as int));
    while i < to
        invariant
            from <= i <= to <= src@.len(),
            dst@ == before + src@.subrange(from as int, i as int),
        decreases to - i,
    {
        dst.push(src[i]);
        i = i + 1;
        assert(dst@ =~= before + src@.subrange(from as int, i as int));
    }
}

/// The hexadecimal digit that writes `n`.
fn hex_digit_of(n: u8) -> (d: u8)
    requires
        n < 16,
    ensures
        d == hex_digit(n),
{
    if n < 10 {
        0x30 + n
    } else {
        0x37 + n
    }
}

/// Appends to `out` what writes the byte `b` inside a basic string literal.
fn escape_byte(out: &mut Vec<u8>, b: u8)
    ensures
        final(out)@ == old(out)@ + escaped_byte(b),
{
    let ghost before = out@;
    if b == 0x22 || b == 0x5c {
        out.push(0x5c);
        out.push(b);
    } else if b == 0x08 {
        out.push(0x5c);
        out.push(0x62);
    } else if b == 0x09 {
        out.push(0x5c);
        out.push(0x74);
    } else if b == 0x0a {
        out.push(0x5c);
        out.push(0x6e);
    } else if b == 0x0c {
        out.push(0x5c);
        out.push(0x66);
    } else if b == 0x0d {
        out.push(0x5c);
        out.push(0x72);
    } else if b < 0x20 || b == 0x7f {
        out.push(0x5c);
        out.push(0x75);
        out.push(0x30);
        out.push(0x30);
        out.push(hex_digit_of(b / 16));
        out.push(hex_digit_of(b % 16));
    } else {
        out.push(b);
    }
    assert(out@ =~= before + escaped_byte(b));
}

/// What writes `bytes` inside a basic string literal: every byte that such a
/// literal cannot hold as it is gives way to its escape.
pub fn escape(bytes: &Vec<u8>) -> (out: Vec<u8>)
    ensures
        out@ == escaped(bytes@),
{
    let mut out: Vec<u8> = Vec::new();
    let mut i: usize = 0;
    assert(bytes@.subrange(0, 0) =~= Seq::<u8>::empty());
    while i < bytes.len()
        invariant
            i <= bytes.len(),
            out@ == escaped(bytes@.subrange(0, i as int)),
        decreases bytes.len() - i,
    {
        proof {
            let next = bytes@.subrange(0, i as int + 1);
            assert(next.drop_last() =~= bytes@.subrange(0, i as int));
            assert(next.last() == bytes@[i as int]);
        }
        escape_byte(&mut out, bytes[i]);
        i = i + 1;
    }
    assert(bytes@.subrange(0, bytes.len() as int) =~= bytes@);
    out
}

/// A copy of a literal, moved as `moved` says.
fn moved_literal(version: &Option<Literal>, from: usize, to: usize) -> (r: Option<Literal>)
    requires
        version is Some ==> version.unwrap().start <= version.unwrap().end,
        version is Some && version.unwrap().start >= from ==> version.unwrap().end - from + to
            <= usize::MAX,
    ensures
        literal_view(r) == moved(literal_view(*version), from as int, to - from),
{
    match version {
        Some(l) => {
            if l.start >= from {
                Some(
                    Literal {
                        value: l.value.clone(),
                        start: l.start - from + to,
                        end: l.end - from + to,
                    },
                )
            } else {
                Some(Literal { value: l.value.clone(), start: l.start, end: l.end })
            }
        },
        None => None,
    }
}

/// The dependency that an entry declares, if it declares one.
fn dependency_of(e: &Entry) -> (r: Option<Dependency>)
    ensures
        r is Some <==> declares_version(e@),
        r is Some ==> r.unwrap()@ == (DependencyView {
            name: e@.name,
            version: e@.version.unwrap().value,
            section: e@.section,
        }),
{
    match &e.version {
        Some(l) => {
            if l.value.as_str().is_empty() {
                None
            } else {
                Some(
                    Dependency {
                        name: e.name.clone(),
                        version: l.value.clone(),
                        section: e.section,
                    },
                )
            }
        },
        None => None,
    }
}

impl Entry {
    /// The entry that an item of `section` gives, from what the parser reports
    /// of the item: its key, its shape, the literal that the item itself is,
    /// and the literal of its member `version`.
    pub fn from_item(
        name: String,
        section: DependencySection,
        shape: ItemShape,
        text: Option<Literal>,
        version: Option<Literal>,
    ) -> (entry: Entry)
        ensures
            entry@ == entry_of(
                RawItem { name: name@, shape, text: literal_view(text) },
                literal_view(version),
                section,
            ),
    {
        let literal = chosen_literal(shape, text, version);
        Entry { name, section, shape, version: literal }
    }
}

impl CargoTomlParser {
    /// What holds of every manifest: its entries fit its text.
    #[verifier::type_invariant]
    pub closed spec fn fits(self) -> bool {
        well_formed(self@)
    }

    /// A manifest that fits is well-formed.
    pub proof fn lemma_fits(self)
        requires
            self.fits(),
        ensures
            well_formed(self@),
    {
    }

    /// The manifest with the given text and entries, for `path`. Fails with
    /// `ParseError` where the entries do not fit the text.
    pub fn from_parts(path: &str, text: Vec<u8>, entries: Vec<Entry>) -> (r: Result<
        CargoTomlParser,
        CcuError,
    >)
        ensures
            ({
                let v = ManifestView { text: text@, entries: entry_views(entries@), path: path@ };
                if well_formed(v) {
                    r is Ok && r->Ok_0@ == v
                } else {
                    r is Err && r->Err_0 == CcuError::ParseError
                }
            }),
    {
        if !check_entries(&entries, text.len()) {
            return Err(CcuError::ParseError);
        }
        Ok(CargoTomlParser { text, entries, path: String::from_str(path) })
    }

    /// Reads the manifest `content`, which was found at `path`. Fails with
    /// `ParseError` where the content is not well-formed.
    pub fn from_text(path: &str, content: &str) -> (r: Result<CargoTomlParser, CcuError>)
        ensures
            match load_spec(path@, content@) {
                Some(v) => r is Ok && r->Ok_0@ == v,
                None => r is Err && r->Err_0 == CcuError::ParseError,
            },
    {
        let doc = match parse_document(content) {
            Ok(doc) => doc,
            Err(_) => {
                return Err(CcuError::ParseError);
            },
        };
        let mut entries: Vec<Entry> = Vec::new();
        assert(entry_views(entries@) =~= Seq::<EntryView>::empty());
        scan_section(&doc, DependencySection::Dependencies, &mut entries);
        scan_section(&doc, DependencySection::DevDependencies, &mut entries);
        scan_section(&doc, DependencySection::BuildDependencies, &mut entries);
        assert(entry_views(entries@) =~= manifest_entries(content@));
        CargoTomlParser::from_parts(path, content.as_bytes_vec(), entries)
    }

    /// The path the manifest was read from.
    pub fn path(&self) -> (path: &str)
        ensures
            well_formed(self@),
            path@ == self@.path,
    {
        proof {
            use_type_invariant(self);
        }
        self.path.as_str()
    }

    /// The manifest's text as it now stands.
    pub fn serialize(&self) -> (bytes: Vec<u8>)
        ensures
            well_formed(self@),
            bytes@ == self@.text,
    {
        proof {
            use_type_invariant(self);
        }
        let mut bytes: Vec<u8> = Vec::new();
        let mut i: usize = 0;
        while i < self.text.len()
            invariant
                i <= self.text.len(),
                bytes@ == self.text@.subrange(0, i as int),
            decreases self.text.len() - i,
        {
            bytes.push(self.text[i]);
            i = i + 1;
            assert(bytes@ =~= self.text@.subrange(0, i as int));
        }
        assert(self.text@.subrange(0, self.text.len() as int) =~= self.text@);
        bytes
    }

    /// The dependencies of all three sections that declare a version: those of
    /// `dependencies` first, then `dev-dependencies`, then `build-dependencies`.
    /// Entries without a version of their own, or with an empty one, are left
    /// out. No two of the dependencies have the same name in the same section.
    pub fn get_all_dependencies(&self) -> (deps: Vec<Dependency>)
        ensures
            well_formed(self@),
            dependency_views(deps@) == dependencies_of(self@.entries),
            distinct_dependencies(dependency_views(deps@)),
            forall|k: int| 0 <= k < deps@.len() ==> (#[trigger] deps@[k])@.version.len() > 0,
    {
        proof {
            use_type_invariant(self);
            lemma_dependencies_of(self@.entries, self@.text.len() as int);
        }
        let ghost views = entry_views(self.entries@);
        let mut deps: Vec<Dependency> = Vec::new();
        let mut i: usize = 0;
        assert(views.subrange(0, 0) =~= Seq::<EntryView>::empty());
        assert(dependency_views(deps@) =~= Seq::<DependencyView>::empty());
        while i < self.entries.len()
            invariant
                i <= self.entries.len(),
                views == entry_views(self.entries@),
                dependency_views(deps@) == dependencies_of(views.subrange(0, i as int)),
            decreases self.entries.len() - i,
        {
            let e = &self.entries[i];
            let ghost before = dependency_views(deps@);
            proof {
                let next = views.subrange(0, i as int + 1);
                assert(next.drop_last() =~= views.subrange(0, i as int));
                assert(next.last() == e@);
            }
            match dependency_of(e) {
                Some(d) => {
                    let ghost added = d@;
                    deps.push(d);
                    assert(dependency_views(deps@) =~= before.push(added));
                },
                None => {},
            }
            i = i + 1;
        }
        assert(views.subrange(0, self.entries.len() as int) =~= views);
        assert forall|k: int| 0 <= k < deps@.len() implies (#[trigger] deps@[k])@.version.len()
            > 0 by {
            assert(dependency_views(deps@)[k] == deps@[k]@);
        }
        deps
    }

    /// The dependencies of one section that declare a version, in the order in
    /// which the manifest holds them. Each stands in `section`, has a version
    /// range that is not empty, and no two of them have the same name.
    pub fn get_dependencies_from_section(&self, section: DependencySection) -> (deps: Vec<
        Dependency,
    >)
        ensures
            well_formed(self@),
            dependency_views(deps@) == dependencies_of(entries_in(self@.entries, section)),
            distinct_dependencies(dependency_views(deps@)),
            forall|k: int|
                0 <= k < deps@.len() ==> (#[trigger] deps@[k])@.version.len() > 0
                    && deps@[k]@.section == section,
    {
        proof {
            use_type_invariant(self);
            lemma_entries_in(self@.entries, self@.text.len() as int, section);
            lemma_dependencies_of(entries_in(self@.entries, section), self@.text.len() as int);
        }
        let ghost views = entry_views(self.entries@);
        let mut deps: Vec<Dependency> = Vec::new();
        let mut i: usize = 0;
        assert(views.subrange(0, 0) =~= Seq::<EntryView>::empty());
        assert(dependency_views(deps@) =~= Seq::<DependencyView>::empty());
        while i < self.entries.len()
            invariant
                i <= self.entries.len(),
                views == entry_views(self.entries@),
                dependency_views(deps@) == dependencies_of(
                    entries_in(views.subrange(0, i as int), section),
                ),
            decreases self.entries.len() - i,
        {
            let e = &self.entries[i];
            let ghost before = dependency_views(deps@);
            let ghost chosen = entries_in(views.subrange(0, i as int), section);
            proof {
                let next = views.subrange(0, i as int + 1);
                assert(next.drop_last() =~= views.subrange(0, i as int));
                assert(next.last() == e@);
                if e@.section == section {
                    assert(chosen.push(e@).drop_last() =~= chosen);
                }
            }
            if e.section == section {
                match dependency_of(e) {
                    Some(d) => {
                        let ghost added = d@;
                        deps.push(d);
                        assert(dependency_views(deps@) =~= before.push(added));
                    },
                    None => {},
                }
            }
            i = i + 1;
        }
        assert(views.subrange(0, self.entries.len() as int) =~= views);
        assert forall|k: int| 0 <= k < deps@.len() implies (#[trigger] deps@[k])@.version.len() > 0
            && deps@[k]@.section == section by {
            let chosen = entries_in(self@.entries, section);
            let d = dependency_views(deps@)[k];
            assert(d == deps@[k]@);
            assert(declared_in(d, chosen));
            let i = choose|i: int| 0 <= i < chosen.len() && declared_by(d, #[trigger] chosen[i]);
            assert(chosen[i].section == section);
        }
        deps
    }

    /// The position of the entry called `name` in `section`.
    fn find(&self, name: &str, section: DependencySection) -> (r: Option<usize>)
        ensures
            match r {
                Some(i) => find_entry(self@.entries, name@, section) == Some(i as int) && i
                    < self@.entries.len(),
                None => find_entry(self@.entries, name@, section) is None,
            },
    {
        proof {
            use_type_invariant(self);
        }
        let ghost views = entry_views(self.entries@);
        let wanted = String::from_str(name);
        let mut i: usize = 0;
        while i < self.entries.len()
            invariant
                i <= self.entries.len(),
                wanted@ == name@,
                views == entry_views(self.entries@),
                consistent(views, self.text@.len() as int),
                forall|k: int| 0 <= k < i ==> !is_entry(#[trigger] views[k], name@, section),
            decreases self.entries.len() - i,
        {
            assert(views[i as int] == self.entries@[i as int]@);
            if self.entries[i].name == wanted && self.entries[i].section == section {
                proof {
                    lemma_find_entry_unique(
                        views,
                        self.text@.len() as int,
                        name@,
                        section,
                        i as int,
                    );
                }
                return Some(i);
            }
            i = i + 1;
        }
        None
    }

    /// The manifest with the version range of `name` in `section` set to
    /// `new_spec`; `self` stays as it is. Only the bytes of that version
    /// literal differ between the two texts. Fails with `NotFound` where the
    /// section or the entry is absent and with `UnsupportedFormat` where the
    /// entry has no version of its own, and succeeds on every other input.
    /// The new literal holds `new_spec` between quotation marks, with an escape
    /// in place of each character that a string literal cannot hold as it is.
    /// An empty `new_spec` is written too; the entry then declares no
    /// dependency until a range is set again.
    pub fn with_dependency_version(
        &self,
        name: &str,
        section: DependencySection,
        new_spec: &str,
    ) -> (r: Result<CargoTomlParser, CcuError>)
        ensures
            well_formed(self@),
            r is Ok <==> has_version(self@.entries, name@, section),
            match set_version_spec(self@, name@, section, new_spec@) {
                Ok(v) => r is Ok && r->Ok_0@ == v && well_formed(v),
                Err(e) => r is Err && r->Err_0 == e,
            },
    {
        proof {
            use_type_invariant(self);
            lemma_has_version(self@, name@, section);
        }
        let ghost views = entry_views(self.entries@);
        let index = match self.find(name, section) {
            Some(i) => i,
            None => {
                return Err(CcuError::NotFound);
            },
        };
        assert(views[index as int] == self.entries@[index as int]@);
        let (start, end) = match &self.entries[index].version {
            Some(l) => (l.start, l.end),
            None => {
                return Err(CcuError::UnsupportedFormat);
            },
        };
        let spec_bytes = escape(&new_spec.as_bytes_vec());
        let ghost target = rewritten(self@, index as int, new_spec@);
        proof {
            lemma_rewritten(self@, index as int, new_spec@);
            assert(field_ok(views[index as int], self.text@.len() as int));
        }
        let mut text: Vec<u8> = Vec::new();
        append_range(&mut text, &self.text, 0, start);
        text.push(0x22u8);
        append_range(&mut text, &spec_bytes, 0, spec_bytes.len());
        text.push(0x22u8);
        append_range(&mut text, &self.text, end, self.text.len());
        assert(spec_bytes@.subrange(0, spec_bytes@.len() as int) =~= spec_bytes@);
        assert(text@ =~= target.text);
        let total: usize = text.len();
        let new_end: usize = total - (self.text.len() - end);
        assert(new_end == start + literal_of(new_spec@).len());
        let mut entries: Vec<Entry> = Vec::new();
        let mut i: usize = 0;
        while i < self.entries.len()
            invariant
                i <= self.entries.len(),
                index < self.entries.len(),
                views == entry_views(self.entries@),
                well_formed(self@),
                target == rewritten(self@, index as int, new_spec@),
                views[index as int].version is Some,
                start == views[index as int].version.unwrap().start,
                end == views[index as int].version.unwrap().end,
                new_end == start + literal_of(new_spec@).len(),
                total == self.text@.len() - (end - start) + literal_of(new_spec@).len(),
                entries@.len() == i,
                forall|k: int| 0 <= k < i ==> (#[trigger] entries@[k])@ == target.entries[k],
            decreases self.entries.len() - i,
        {
            let e = &self.entries[i];
            assert(views[i as int] == e@);
            assert(field_ok(views[i as int], self.text@.len() as int));
            let version = if i == index {
                Some(Literal { value: String::from_str(new_spec), start, end: new_end })
            } else {
                moved_literal(&e.version, end, new_end)
            };
            entries.push(
                Entry { name: e.name.clone(), section: e.section, shape: e.shape, version },
            );
            i = i + 1;
        }
        assert(entry_views(entries@) =~= target.entries);
        Ok(CargoTomlParser { text, entries, path: self.path.clone() })
    }

    /// Sets the version range of `name` in `section` to `new_spec`, replacing
    /// the bytes of its version literal and no others. Succeeds exactly when
    /// the section holds the entry and the entry has a version of its own:
    /// fails with `NotFound` where section or entry is absent and with
    /// `UnsupportedFormat` where the entry has no version literal, and then
    /// leaves the manifest as it was.
    pub fn set_dependency_version(
        &mut self,
        name: &str,
        section: &DependencySection,
        new_spec: &str,
    ) -> (r: Result<(), CcuError>)
        ensures
            well_formed(old(self)@),
            well_formed(final(self)@),
            r is Ok <==> has_version(old(self)@.entries, name@, *section),
            match set_version_spec(old(self)@, name@, *section, new_spec@) {
                Ok(v) => r is Ok && final(self)@ == v,
                Err(e) => r is Err && r->Err_0 == e && final(self)@ == old(self)@,
            },
    {
        proof {
            use_type_invariant(&*self);
            lemma_has_version(self@, name@, *section);
        }
        match self.with_dependency_version(name, *section, new_spec) {
            Ok(next) => {
                *self = next;
                Ok(())
            },
            Err(e) => Err(e),
        }
    }

    /// The version range that the version literal of `name` in `section`
    /// holds, if the entry is there and has such a literal.
    pub fn version_of(&self, name: &str, section: DependencySection) -> (r: Option<String>)
        ensures
            well_formed(self@),
            r is Some <==> has_version(self@.entries, name@, section),
            match find_entry(self@.entries, name@, section) {
                Some(i) => match self@.entries[i].version {
                    Some(l) => r is Some && r.unwrap()@ == l.value,
                    None => r is None,
                },
                None => r is None,
            },
    {
        proof {
            use_type_invariant(self);
            lemma_has_version(self@, name@, section);
        }
        match self.find(name, section) {
            Some(i) => {
                assert(entry_views(self.entries@)[i as int] == self.entries@[i as int]@);
                match &self.entries[i].version {
                    Some(l) => Some(l.value.clone()),
                    None => None,
                }
            },
            None => None,
        }
    }

    /// Moves the dependency `name` of `section` to `new_version`, keeping the
    /// operator that its version range starts with. Succeeds exactly when the
    /// section holds the entry and the entry has a version of its own: fails
    /// with `NotFound` where section or entry is absent and with
    /// `UnsupportedFormat` where the entry has no version literal, and then
    /// leaves the manifest as it was.
    pub fn update_dependency(
        &mut self,
        name: &str,
        section: &DependencySection,
        new_version: &str,
    ) -> (r: Result<(), CcuError>)
        ensures
            well_formed(old(self)@),
            well_formed(final(self)@),
            r is Ok <==> has_version(old(self)@.entries, name@, *section),
            match update_spec(old(self)@, name@, *section, new_version@) {
                Ok(v) => r is Ok && final(self)@ == v,
                Err(e) => r is Err && r->Err_0 == e && final(self)@ == old(self)@,
            },
    {
        match self.version_of(name, *section) {
            Some(current) => {
                let new_spec = preserve_version_operator(current.as_str(), new_version);
                self.set_dependency_version(name, section, new_spec.as_str())
            },
            None => {
                // No version to keep an operator of: the entry is absent or has
                // no version, and setting it reports which.
                self.set_dependency_version(name, section, new_version)
            },
        }
    }
}

} // verus!
