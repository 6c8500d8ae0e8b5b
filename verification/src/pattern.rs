//! Package-name patterns: a name, or a name with `*` in it that matches every
//! name holding what is left once the stars are taken out.

use vstd::prelude::*;
use vstd::string::*;
use crate::text::chars_of;

verus! {

/// Whether `p` holds a `*`.
pub open spec fn has_star(p: Seq<char>) -> bool {
    exists|i: int| 0 <= i < p.len() && #[trigger] p[i] == '*'
}

/// `p` with every `*` taken out.
pub open spec fn without_stars(p: Seq<char>) -> Seq<char>
    decreases p.len(),
{
    if p.len() == 0 {
        p
    } else if p.last() == '*' {
        without_stars(p.drop_last())
    } else {
        without_stars(p.drop_last()).push(p.last())
    }
}

/// Whether `needle` stands at position `at` of `hay`.
pub open spec fn occurs_at(needle: Seq<char>, hay: Seq<char>, at: int) -> bool {
    0 <= at && at + needle.len() <= hay.len() && hay.subrange(at, at + needle.len()) == needle
}

/// Whether `needle` stands somewhere in `hay`.
pub open spec fn occurs_in(needle: Seq<char>, hay: Seq<char>) -> bool {
    exists|at: int| occurs_at(needle, hay, at)
}

/// Whether `pattern` matches `name`: with a star in it, by what is left of the
/// pattern without its stars standing somewhere in the name; without one, by
/// being the name.
pub open spec fn pattern_matches_spec(pattern: Seq<char>, name: Seq<char>) -> bool {
    if has_star(pattern) {
        occurs_in(without_stars(pattern), name)
    } else {
        name == pattern
    }
}

/// The views of a list of strings.
pub open spec fn string_views(list: Seq<String>) -> Seq<Seq<char>> {
    Seq::new(list.len(), |i: int| list[i]@)
}

/// Whether one of `patterns` matches `name`.
pub open spec fn matches_any_spec(patterns: Seq<Seq<char>>, name: Seq<char>) -> bool {
    exists|i: int| 0 <= i < patterns.len() && pattern_matches_spec(#[trigger] patterns[i], name)
}

/// Whether a dependency called `name` is looked at: it matches one of
/// `filters`, unless there are none, and it matches none of `rejects`.
pub open spec fn should_check_spec(
    filters: Seq<Seq<char>>,
    rejects: Seq<Seq<char>>,
    name: Seq<char>,
) -> bool {
    (filters.len() == 0 || matches_any_spec(filters, name)) && !matches_any_spec(rejects, name)
}

/// Whether `chars` holds a `*`.
pub fn contains_star(chars: &Vec<char>) -> (found: bool)
    ensures
        found == has_star(chars@),
{
    let mut i: usize = 0;
    while i < chars.len()
        invariant
            i <= chars.len(),
            forall|k: int| 0 <= k < i ==> chars@[k] != '*',
        decreases chars.len() - i,
    {
        if chars[i] == '*' {
            return true;
        }
        i = i + 1;
    }
    false
}

/// Takes every `*` out of `chars`.
pub fn remove_stars(chars: &Vec<char>) -> (r: Vec<char>)
    ensures
        r@ == without_stars(chars@),
{
    let mut r: Vec<char> = Vec::new();
    let mut i: usize = 0;
    assert(chars@.subrange(0, 0) =~= Seq::<char>::empty());
    while i < chars.len()
        invariant
            i <= chars.len(),
            r@ == without_stars(chars@.subrange(0, i as int)),
        decreases chars.len() - i,
    {
        let c = chars[i];
        proof {
            let next = chars@.subrange(0, i as int + 1);
            assert(next.drop_last() =~= chars@.subrange(0, i as int));
            assert(next.last() == c);
        }
        if c != '*' {
            r.push(c);
        }
        i = i + 1;
    }
    assert(chars@.subrange(0, chars.len() as int) =~= chars@);
    r
}

/// Whether two character vectors hold the same characters.
pub fn same_chars(a: &Vec<char>, b: &Vec<char>) -> (same: bool)
    ensures
        same == (a@ == b@),
{
    if a.len() != b.len() {
        return false;
    }
    let mut i: usize = 0;
    while i < a.len()
        invariant
            a.len() == b.len(),
            i <= a.len(),
            forall|k: int| 0 <= k < i ==> a@[k] == b@[k],
        decreases a.len() - i,
    {
        if a[i] != b[i] {
            return false;
        }
        i = i + 1;
    }
    assert(a@ =~= b@);
    true
}

/// Whether `needle` stands at position `at` of `hay`.
pub(crate) fn found_at(needle: &Vec<char>, hay: &Vec<char>, at: usize) -> (found: bool)
    requires
        at + needle@.len() <= hay@.len(),
    ensures
        found == occurs_at(needle@, hay@, at as int),
{
    let ghost window = hay@.subrange(at as int, at + needle@.len());
    let hay_len: usize = hay.len();
    let mut j: usize = 0;
    while j < needle.len()
        invariant
            at + needle@.len() <= hay@.len(),
            hay_len == hay@.len(),
            j <= needle.len(),
            window == hay@.subrange(at as int, at + needle@.len()),
            forall|k: int| 0 <= k < j ==> hay@[at + k] == needle@[k],
        decreases needle.len() - j,
    {
        if hay[at + j] != needle[j] {
            assert(window[j as int] != needle@[j as int]);
            return false;
        }
        j = j + 1;
    }
    assert(window =~= needle@);
    true
}

/// Whether `needle` stands somewhere in `hay`.
pub fn contains_chars(needle: &Vec<char>, hay: &Vec<char>) -> (found: bool)
    ensures
        found == occurs_in(needle@, hay@),
{
    if needle.len() > hay.len() {
        return false;
    }
    let last: usize = hay.len() - needle.len();
    let mut at: usize = 0;
    while at < last
        invariant
            needle@.len() <= hay@.len(),
            last == hay@.len() - needle@.len(),
            at <= last,
            forall|k: int| 0 <= k < at ==> !occurs_at(needle@, hay@, k),
        decreases last - at,
    {
        if found_at(needle, hay, at) {
            return true;
        }
        at = at + 1;
    }
    found_at(needle, hay, last)
}

/// Whether `pattern` matches `name`. A pattern with a `*` in it matches every
/// name that holds the pattern's other characters as one run; a pattern
/// without one matches only the name equal to it.
pub fn pattern_matches(pattern: &str, name: &str) -> (matched: bool)
    ensures
        matched == pattern_matches_spec(pattern@, name@),
{
    let p = chars_of(pattern);
    let n = chars_of(name);
    if contains_star(&p) {
        let needle = remove_stars(&p);
        contains_chars(&needle, &n)
    } else {
        same_chars(&n, &p)
    }
}

/// Whether one of `patterns` matches `name`.
pub fn matches_any(patterns: &Vec<String>, name: &str) -> (matched: bool)
    ensures
        matched == matches_any_spec(string_views(patterns@), name@),
{
    let ghost views = string_views(patterns@);
    let mut i: usize = 0;
    while i < patterns.len()
        invariant
            i <= patterns.len(),
            views == string_views(patterns@),
            forall|k: int| 0 <= k < i ==> !pattern_matches_spec(#[trigger] views[k], name@),
        decreases patterns.len() - i,
    {
        assert(views[i as int] == patterns@[i as int]@);
        if pattern_matches(patterns[i].as_str(), name) {
            return true;
        }
        i = i + 1;
    }
    false
}

/// Whether a dependency called `name` is looked at: if there are filters, one
/// of them must match it, and no reject pattern may match it.
pub fn should_check(filters: &Vec<String>, rejects: &Vec<String>, name: &str) -> (checked: bool)
    ensures
        checked == should_check_spec(string_views(filters@), string_views(rejects@), name@),
{
    if filters.len() > 0 && !matches_any(filters, name) {
        return false;
    }
    !matches_any(rejects, name)
}

} // verus!
