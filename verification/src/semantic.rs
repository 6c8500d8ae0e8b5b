//! Semantic versions, how two of them compare, and how one is written.

use vstd::prelude::*;
use vstd::string::*;
use crate::number::{decimal_repr, render_number};
use crate::text::{chars_of, string_of};

verus! {

/// A semantic version. `pre` and `build` hold the pre-release and build
/// identifiers without their `-` and `+`, and are empty where there are none.
#[derive(Debug, PartialEq, Eq)]
pub struct SemVer {
    pub major: u64,
    pub minor: u64,
    pub patch: u64,
    pub pre: String,
    pub build: String,
}

/// What a `SemVer` stands for in contracts.
pub struct SemVerView {
    pub major: u64,
    pub minor: u64,
    pub patch: u64,
    pub pre: Seq<char>,
    pub build: Seq<char>,
}

impl View for SemVer {
    type V = SemVerView;

    open spec fn view(&self) -> SemVerView {
        SemVerView {
            major: self.major,
            minor: self.minor,
            patch: self.patch,
            pre: self.pre@,
            build: self.build@,
        }
    }
}

impl Clone for SemVer {
    fn clone(&self) -> (copy: SemVer)
        ensures
            copy@ == self@,
    {
        SemVer {
            major: self.major,
            minor: self.minor,
            patch: self.patch,
            pre: self.pre.clone(),
            build: self.build.clone(),
        }
    }
}

/// Whether `c` can stand in a pre-release or build identifier: an ASCII letter
/// or digit, a hyphen, or the dot between two identifiers.
pub open spec fn is_identifier_char(c: char) -> bool {
    ||| 48 <= c as u32 <= 57
    ||| 65 <= c as u32 <= 90
    ||| 97 <= c as u32 <= 122
    ||| c == '-'
    ||| c == '.'
}

/// Whether the pre-release and build identifiers of `v` hold only characters
/// that such identifiers can hold.
pub open spec fn identifiers_ok(v: SemVerView) -> bool {
    &&& forall|i: int| 0 <= i < v.pre.len() ==> is_identifier_char(#[trigger] v.pre[i])
    &&& forall|i: int| 0 <= i < v.build.len() ==> is_identifier_char(#[trigger] v.build[i])
}

/// How far apart two versions are.
#[derive(Debug, Clone, Copy, PartialEq, Eq, Structural)]
pub enum Severity {
    Major,
    Minor,
    Patch,
}

/// Whether `latest` is strictly greater than `current`: by major, then minor,
/// then patch. Pre-release and build identifiers take no part.
pub open spec fn newer_spec(latest: SemVerView, current: SemVerView) -> bool {
    ||| latest.major > current.major
    ||| (latest.major == current.major && latest.minor > current.minor)
    ||| (latest.major == current.major && latest.minor == current.minor && latest.patch
        > current.patch)
}

/// The severity of going from `current` to `latest`.
pub open spec fn classify_spec(current: SemVerView, latest: SemVerView) -> Severity {
    if latest.major > current.major {
        Severity::Major
    } else if latest.minor > current.minor {
        Severity::Minor
    } else {
        Severity::Patch
    }
}

/// "Newer than" is a strict order: nothing is newer than itself, and it carries
/// over a version in between.
pub proof fn lemma_newer_strict_order(a: SemVerView, b: SemVerView, c: SemVerView)
    ensures
        !newer_spec(a, a),
        newer_spec(a, b) ==> !newer_spec(b, a),
        newer_spec(a, b) && newer_spec(b, c) ==> newer_spec(a, c),
{
}

/// What a version with no pre-release and no build identifiers looks like.
pub open spec fn plain_version(major: u64, minor: u64, patch: u64) -> SemVerView {
    SemVerView { major, minor, patch, pre: Seq::empty(), build: Seq::empty() }
}

/// The text of a version: the three numbers with dots between them, then `-`
/// and the pre-release identifiers if there are any, then `+` and the build
/// identifiers if there are any.
pub open spec fn render_spec(v: SemVerView) -> Seq<char> {
    decimal_repr(v.major as nat) + seq!['.'] + decimal_repr(v.minor as nat) + seq!['.']
        + decimal_repr(v.patch as nat) + (if v.pre.len() > 0 {
        seq!['-'] + v.pre
    } else {
        Seq::empty()
    }) + (if v.build.len() > 0 {
        seq!['+'] + v.build
    } else {
        Seq::empty()
    })
}

/// Appends the characters of `src` to `dst`.
pub fn append_chars(dst: &mut Vec<char>, src: &Vec<char>)
    ensures
        final(dst)@ == old(dst)@ + src@,
{
    let mut i: usize = 0;
    assert(dst@ =~= old(dst)@ + src@.subrange(0, 0));
    while i < src.len()
        invariant
            i <= src.len(),
            dst@ == old(dst)@ + src@.subrange(0, i as int),
        decreases src.len() - i,
    {
        dst.push(src[i]);
        i = i + 1;
        assert(dst@ =~= old(dst)@ + src@.subrange(0, i as int));
    }
    assert(src@.subrange(0, src.len() as int) =~= src@);
}

impl SemVer {
    /// The version `major.minor.patch`, with no further identifiers.
    pub fn new(major: u64, minor: u64, patch: u64) -> (v: SemVer)
        ensures
            v@ == plain_version(major, minor, patch),
    {
        SemVer { major, minor, patch, pre: String::new(), build: String::new() }
    }

    /// Whether `self` is strictly greater than `current`.
    pub fn is_newer_than(&self, current: &SemVer) -> (newer: bool)
        ensures
            newer == newer_spec(self@, current@),
    {
        self.major > current.major || (self.major == current.major && (self.minor
            > current.minor || (self.minor == current.minor && self.patch > current.patch)))
    }

    /// The characters of the version's text.
    pub fn render(&self) -> (out: Vec<char>)
        ensures
            out@ == render_spec(self@),
    {
        let mut out = render_number(self.major);
        out.push('.');
        let minor = render_number(self.minor);
        append_chars(&mut out, &minor);
        out.push('.');
        let patch = render_number(self.patch);
        append_chars(&mut out, &patch);
        let pre = chars_of(self.pre.as_str());
        if pre.len() > 0 {
            out.push('-');
            append_chars(&mut out, &pre);
        }
        let build = chars_of(self.build.as_str());
        if build.len() > 0 {
            out.push('+');
            append_chars(&mut out, &build);
        }
        assert(out@ =~= render_spec(self@));
        out
    }

    /// The version's text, such as `1.2.3` or `1.0.0-rc.1`.
    pub fn to_string(&self) -> (text: String)
        ensures
            text@ == render_spec(self@),
    {
        let out = self.render();
        string_of(&out)
    }
}

/// Tells how large the step from `current` to `latest` is: major if the major
/// number grows, else minor if the minor number grows, else patch.
pub fn classify_severity(current: &SemVer, latest: &SemVer) -> (severity: Severity)
    ensures
        severity == classify_spec(current@, latest@),
{
    if latest.major > current.major {
        Severity::Major
    } else if latest.minor > current.minor {
        Severity::Minor
    } else {
        Severity::Patch
    }
}

} // verus!
