//! What rewriting a version literal does to a manifest, stated over its view:
//! which bytes change, where the other literals move, and why the result is
//! again a manifest whose entries fit its text.

use vstd::prelude::*;
use vstd::utf8::{
    decode_utf8, encode_utf8, encode_utf8_decode_utf8, is_ascii_chars, is_ascii_chars_encode_utf8,
};
use crate::error::CcuError;
use crate::manifest::{
    apart, consistent, field_ok, load_spec, well_formed, DependencySection, EntryView,
    ManifestView,
};
use crate::source::LiteralView;
use crate::version::extract_operator_spec;

verus! {

/// Whether `e` is the entry called `name` in `section`.
pub open spec fn is_entry(e: EntryView, name: Seq<char>, section: DependencySection) -> bool {
    e.name == name && e.section == section
}

/// Whether `entries` holds an entry called `name` in `section`.
pub open spec fn has_entry(
    entries: Seq<EntryView>,
    name: Seq<char>,
    section: DependencySection,
) -> bool {
    exists|i: int| 0 <= i < entries.len() && is_entry(#[trigger] entries[i], name, section)
}

/// The position of the entry called `name` in `section`, if there is one.
pub open spec fn find_entry(
    entries: Seq<EntryView>,
    name: Seq<char>,
    section: DependencySection,
) -> Option<int> {
    if has_entry(entries, name, section) {
        Some(choose|i: int| 0 <= i < entries.len() && is_entry(#[trigger] entries[i], name, section))
    } else {
        None
    }
}

/// Whether a byte can stand in a basic string literal as it is: no control
/// character, no quotation mark, no backslash.
pub open spec fn is_plain_byte(b: u8) -> bool {
    b >= 0x20 && b != 0x7f && b != 0x22 && b != 0x5c
}

/// Whether `bytes` can be written between quotation marks as it is: plain
/// bytes only.
pub open spec fn is_plain(bytes: Seq<u8>) -> bool {
    forall|i: int| 0 <= i < bytes.len() ==> is_plain_byte(#[trigger] bytes[i])
}

/// The digit, `0` to `9` or `A` to `F`, that writes a number below sixteen.
pub open spec fn hex_digit(n: u8) -> u8 {
    if n < 10 {
        (0x30 + n) as u8
    } else {
        (0x37 + n) as u8
    }
}

/// How a byte is written inside a basic string literal: a plain byte as it
/// is; quotation mark and backslash behind a backslash; backspace, tab, line
/// feed, form feed and carriage return as `\b`, `\t`, `\n`, `\f` and `\r`;
/// any other control character as `\u00` and its two hexadecimal digits.
pub open spec fn escaped_byte(b: u8) -> Seq<u8> {
    if b == 0x22 {
        seq![0x5cu8, 0x22u8]
    } else if b == 0x5c {
        seq![0x5cu8, 0x5cu8]
    } else if b == 0x08 {
        seq![0x5cu8, 0x62u8]
    } else if b == 0x09 {
        seq![0x5cu8, 0x74u8]
    } else if b == 0x0a {
        seq![0x5cu8, 0x6eu8]
    } else if b == 0x0c {
        seq![0x5cu8, 0x66u8]
    } else if b == 0x0d {
        seq![0x5cu8, 0x72u8]
    } else if b < 0x20 || b == 0x7f {
        seq![0x5cu8, 0x75u8, 0x30u8, 0x30u8, hex_digit(b / 16), hex_digit(b % 16)]
    } else {
        seq![b]
    }
}

/// How `bytes` is written inside a basic string literal, byte by byte.
pub open spec fn escaped(bytes: Seq<u8>) -> Seq<u8>
    decreases bytes.len(),
{
    if bytes.len() == 0 {
        Seq::empty()
    } else {
        escaped(bytes.drop_last()) + escaped_byte(bytes.last())
    }
}

/// The string literal that writes the version range `range`.
pub open spec fn literal_of(range: Seq<char>) -> Seq<u8> {
    quoted(escaped(encode_utf8(range)))
}

/// Plain bytes are written as they are.
pub proof fn lemma_escaped_plain(bytes: Seq<u8>)
    requires
        is_plain(bytes),
    ensures
        escaped(bytes) == bytes,
    decreases bytes.len(),
{
    if bytes.len() > 0 {
        let front = bytes.drop_last();
        assert forall|i: int| 0 <= i < front.len() implies is_plain_byte(#[trigger] front[i]) by {
            assert(front[i] == bytes[i]);
        }
        lemma_escaped_plain(front);
        assert(is_plain_byte(bytes[bytes.len() - 1]));
        assert(escaped(bytes) =~= bytes);
    } else {
        assert(escaped(bytes) =~= bytes);
    }
}

/// Whether a character can stand in a basic string literal as it is, and is
/// written as one byte: printable ASCII but for quotation mark and backslash.
pub open spec fn is_plain_char(c: char) -> bool {
    0x20 <= c as u32 <= 0x7e && c != '"' && c != '\\'
}

/// Whether every character of `s` is plain.
pub open spec fn all_plain_chars(s: Seq<char>) -> bool {
    forall|i: int| 0 <= i < s.len() ==> is_plain_char(#[trigger] s[i])
}

/// A plain character is an ASCII character, written as the byte of its number.
pub proof fn lemma_plain_char(c: char)
    requires
        is_plain_char(c),
    ensures
        '\0' <= c <= '\u{7f}',
        is_plain_byte(c as u8),
{
}

/// A text of plain characters is written between quotation marks as it is.
pub proof fn lemma_plain_text(s: Seq<char>)
    requires
        all_plain_chars(s),
    ensures
        is_plain(encode_utf8(s)),
        literal_of(s) == quoted(encode_utf8(s)),
{
    assert(is_ascii_chars(s)) by {
        assert forall|i: int| 0 <= i < s.len() implies '\0' <= #[trigger] s[i] <= '\u{7f}' by {
            lemma_plain_char(s[i]);
        }
    }
    is_ascii_chars_encode_utf8(s);
    let bytes = encode_utf8(s);
    assert forall|i: int| 0 <= i < bytes.len() implies is_plain_byte(#[trigger] bytes[i]) by {
        lemma_plain_char(s[i]);
        assert(bytes[i] == s[i] as u8);
    }
    lemma_escaped_plain(bytes);
}

/// `bytes` between quotation marks.
pub open spec fn quoted(bytes: Seq<u8>) -> Seq<u8> {
    seq![0x22u8] + bytes + seq![0x22u8]
}

/// `text` with the bytes from `start` up to `end` replaced by `with`.
pub open spec fn splice(text: Seq<u8>, start: int, end: int, with: Seq<u8>) -> Seq<u8> {
    text.subrange(0, start) + with + text.subrange(end, text.len() as int)
}

/// A literal after a stretch of text that ended at `from` has grown by `by`
/// bytes: moved by as much if it stood behind that stretch, else where it was.
pub open spec fn moved(version: Option<LiteralView>, from: int, by: int) -> Option<LiteralView> {
    match version {
        Some(l) => if l.start >= from {
            Some(LiteralView { value: l.value, start: l.start + by, end: l.end + by })
        } else {
            Some(l)
        },
        None => None,
    }
}

/// The manifest `v` once the version literal of the entry at `index` has been
/// replaced by the literal that writes `new_spec`.
pub open spec fn rewritten(v: ManifestView, index: int, new_spec: Seq<char>) -> ManifestView {
    let field = v.entries[index].version.unwrap();
    let literal = literal_of(new_spec);
    let by = literal.len() - (field.end - field.start);
    ManifestView {
        text: splice(v.text, field.start, field.end, literal),
        entries: Seq::new(
            v.entries.len(),
            |i: int|
                EntryView {
                    name: v.entries[i].name,
                    section: v.entries[i].section,
                    shape: v.entries[i].shape,
                    version: if i == index {
                        Some(
                            LiteralView {
                                value: new_spec,
                                start: field.start,
                                end: field.start + literal.len(),
                            },
                        )
                    } else {
                        moved(v.entries[i].version, field.end, by)
                    },
                },
        ),
        path: v.path,
    }
}

/// What setting the version range of `name` in `section` to `new_spec` gives:
/// `NotFound` where there is no such entry, `UnsupportedFormat` where it has no
/// version literal, and else the rewritten manifest.
pub open spec fn set_version_spec(
    v: ManifestView,
    name: Seq<char>,
    section: DependencySection,
    new_spec: Seq<char>,
) -> Result<ManifestView, CcuError> {
    match find_entry(v.entries, name, section) {
        None => Err(CcuError::NotFound),
        Some(index) => if v.entries[index].version is None {
            Err(CcuError::UnsupportedFormat)
        } else {
            Ok(rewritten(v, index, new_spec))
        },
    }
}

/// What updating `name` in `section` to `new_version` gives: the version range
/// is set to `new_version` behind the operator that the range had.
pub open spec fn update_spec(
    v: ManifestView,
    name: Seq<char>,
    section: DependencySection,
    new_version: Seq<char>,
) -> Result<ManifestView, CcuError> {
    match find_entry(v.entries, name, section) {
        None => Err(CcuError::NotFound),
        Some(index) => match v.entries[index].version {
            None => Err(CcuError::UnsupportedFormat),
            Some(field) => set_version_spec(
                v,
                name,
                section,
                extract_operator_spec(field.value) + new_version,
            ),
        },
    }
}

/// In a consistent list any two different entries are apart.
pub proof fn lemma_all_apart(entries: Seq<EntryView>, len: int, i: int, j: int)
    requires
        consistent(entries, len),
        0 <= i < entries.len(),
        0 <= j < entries.len(),
        i != j,
    ensures
        apart(entries[i], entries[j]),
{
    if i < j {
        assert(apart(entries[i], entries[j]));
    } else {
        assert(apart(entries[j], entries[i]));
    }
}

/// In a consistent list the entry called `name` in `section` is the only one.
pub proof fn lemma_find_entry_unique(
    entries: Seq<EntryView>,
    len: int,
    name: Seq<char>,
    section: DependencySection,
    i: int,
)
    requires
        consistent(entries, len),
        0 <= i < entries.len(),
        is_entry(entries[i], name, section),
    ensures
        find_entry(entries, name, section) == Some(i),
{
    let found = find_entry(entries, name, section);
    assert(has_entry(entries, name, section));
    let j = found.unwrap();
    if i != j {
        lemma_all_apart(entries, len, i, j);
    }
}

/// Rewriting a version literal keeps the manifest well-formed, changes no byte
/// in front of the literal, and moves the bytes behind it without changing
/// them. The new literal stands where the old one began.
pub proof fn lemma_rewritten(v: ManifestView, index: int, new_spec: Seq<char>)
    requires
        well_formed(v),
        0 <= index < v.entries.len(),
        v.entries[index].version is Some,
    ensures
        ({
            let field = v.entries[index].version.unwrap();
            let literal = literal_of(new_spec);
            let by = literal.len() - (field.end - field.start);
            let w = rewritten(v, index, new_spec);
            &&& well_formed(w)
            &&& w.text.len() == v.text.len() + by
            &&& forall|k: int| 0 <= k < field.start ==> w.text[k] == v.text[k]
            &&& forall|k: int| field.end <= k < v.text.len() ==> w.text[k + by] == v.text[k]
            &&& w.text.subrange(field.start, field.start + literal.len()) == literal
            &&& w.entries.len() == v.entries.len()
            &&& forall|i: int|
                0 <= i < v.entries.len() ==> (#[trigger] w.entries[i]).name == v.entries[i].name
                    && w.entries[i].section == v.entries[i].section && (w.entries[i].version
                    is Some <==> v.entries[i].version is Some)
            &&& forall|i: int|
                0 <= i < v.entries.len() && i != index && v.entries[i].version is Some ==> (
                #[trigger] w.entries[i]).version.unwrap().value
                    == v.entries[i].version.unwrap().value
            &&& w.entries[index].version.unwrap().value == new_spec
        }),
{
    let field = v.entries[index].version.unwrap();
    let literal = literal_of(new_spec);
    let by = literal.len() - (field.end - field.start);
    let w = rewritten(v, index, new_spec);
    let len = v.text.len() as int;
    assert(field_ok(v.entries[index], len));
    assert(w.text.subrange(field.start, field.start + literal.len()) =~= literal);
    assert forall|i: int| 0 <= i < w.entries.len() implies field_ok(
        #[trigger] w.entries[i],
        w.text.len() as int,
    ) by {
        assert(field_ok(v.entries[i], len));
        if i != index {
            lemma_all_apart(v.entries, len, i, index);
        }
    }
    assert forall|i: int, j: int| 0 <= i < j < w.entries.len() implies apart(
        #[trigger] w.entries[i],
        #[trigger] w.entries[j],
    ) by {
        assert(apart(v.entries[i], v.entries[j]));
        assert(field_ok(v.entries[i], len));
        assert(field_ok(v.entries[j], len));
        if i != index {
            lemma_all_apart(v.entries, len, i, index);
        }
        if j != index {
            lemma_all_apart(v.entries, len, j, index);
        }
    }
}

/// Loading a text and writing the manifest out again gives the text back.
pub proof fn lemma_load_round_trip(path: Seq<char>, text: Seq<char>)
    requires
        load_spec(path, text) is Some,
    ensures
        load_spec(path, text).unwrap().text == encode_utf8(text),
        decode_utf8(load_spec(path, text).unwrap().text) == text,
{
    encode_utf8_decode_utf8(text);
}

/// Whether `entries` holds an entry called `name` in `section` that has a
/// version literal.
pub open spec fn has_version(
    entries: Seq<EntryView>,
    name: Seq<char>,
    section: DependencySection,
) -> bool {
    exists|i: int|
        0 <= i < entries.len() && is_entry(#[trigger] entries[i], name, section)
            && entries[i].version is Some
}

/// Setting a version range succeeds exactly when the manifest holds the entry
/// and the entry has a version literal; so does updating it.
pub proof fn lemma_has_version(v: ManifestView, name: Seq<char>, section: DependencySection)
    requires
        well_formed(v),
    ensures
        forall|new_spec: Seq<char>| #[trigger]
            set_version_spec(v, name, section, new_spec) is Ok <==> has_version(
                v.entries,
                name,
                section,
            ),
        forall|new_version: Seq<char>| #[trigger]
            update_spec(v, name, section, new_version) is Ok <==> has_version(
                v.entries,
                name,
                section,
            ),
        has_version(v.entries, name, section) <==> (find_entry(v.entries, name, section) is Some
            && v.entries[find_entry(v.entries, name, section).unwrap()].version is Some),
{
    if has_version(v.entries, name, section) {
        let i = choose|i: int|
            0 <= i < v.entries.len() && is_entry(#[trigger] v.entries[i], name, section)
                && v.entries[i].version is Some;
        lemma_find_entry_unique(v.entries, v.text.len() as int, name, section, i);
    }
    if find_entry(v.entries, name, section) is Some {
        assert(has_entry(v.entries, name, section));
        let i = find_entry(v.entries, name, section).unwrap();
        assert(is_entry(v.entries[i], name, section));
    }
}

/// What is written can be read again: after the version range of an entry was
/// set, the entry is found where it was and holds the new range, and every
/// other entry is found where it was and holds the range it held.
pub proof fn lemma_set_then_find(
    v: ManifestView,
    name: Seq<char>,
    section: DependencySection,
    new_spec: Seq<char>,
)
    requires
        well_formed(v),
        set_version_spec(v, name, section, new_spec) is Ok,
    ensures
        ({
            let w = set_version_spec(v, name, section, new_spec)->Ok_0;
            let index = find_entry(v.entries, name, section).unwrap();
            &&& well_formed(w)
            &&& w.path == v.path
            &&& find_entry(w.entries, name, section) == Some(index)
            &&& w.entries[index].version is Some
            &&& w.entries[index].version.unwrap().value == new_spec
            &&& forall|other: Seq<char>, place: DependencySection|
                #![trigger find_entry(w.entries, other, place)]
                find_entry(w.entries, other, place) == find_entry(v.entries, other, place)
            &&& forall|other: Seq<char>, place: DependencySection|
                #![trigger has_version(w.entries, other, place)]
                has_version(w.entries, other, place) == has_version(v.entries, other, place)
            &&& forall|i: int|
                0 <= i < v.entries.len() && i != index && v.entries[i].version is Some ==> (
                #[trigger] w.entries[i]).version.unwrap().value
                    == v.entries[i].version.unwrap().value
        }),
{
    let w = set_version_spec(v, name, section, new_spec)->Ok_0;
    let index = find_entry(v.entries, name, section).unwrap();
    let len = v.text.len() as int;
    let new_len = w.text.len() as int;
    assert(has_entry(v.entries, name, section));
    lemma_rewritten(v, index, new_spec);
    assert(is_entry(w.entries[index], name, section));
    lemma_find_entry_unique(w.entries, new_len, name, section, index);
    assert forall|other: Seq<char>, place: DependencySection|
        #![trigger find_entry(w.entries, other, place)]
        find_entry(w.entries, other, place) == find_entry(v.entries, other, place) by {
        if has_entry(v.entries, other, place) {
            let i = find_entry(v.entries, other, place).unwrap();
            assert(is_entry(w.entries[i], other, place));
            lemma_find_entry_unique(w.entries, new_len, other, place, i);
        } else if has_entry(w.entries, other, place) {
            let i = find_entry(w.entries, other, place).unwrap();
            assert(is_entry(v.entries[i], other, place));
        }
    }
    assert forall|other: Seq<char>, place: DependencySection|
        #![trigger has_version(w.entries, other, place)]
        has_version(w.entries, other, place) == has_version(v.entries, other, place) by {
        if has_version(v.entries, other, place) {
            let i = choose|i: int|
                0 <= i < v.entries.len() && is_entry(#[trigger] v.entries[i], other, place)
                    && v.entries[i].version is Some;
            assert(is_entry(w.entries[i], other, place) && w.entries[i].version is Some);
        }
        if has_version(w.entries, other, place) {
            let i = choose|i: int|
                0 <= i < w.entries.len() && is_entry(#[trigger] w.entries[i], other, place)
                    && w.entries[i].version is Some;
            assert(is_entry(v.entries[i], other, place) && v.entries[i].version is Some);
        }
    }
}

} // verus!
