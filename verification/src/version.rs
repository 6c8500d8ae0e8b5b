//! Version ranges as manifests write them: an optional comparison operator in
//! front of a version that may leave out its minor or patch component.

use vstd::prelude::*;
use vstd::string::*;
use crate::error::CcuError;
use crate::number::{
    decimal_repr, decimal_value, is_digit, is_numeric, lemma_decimal_round_trip, parse_numeric,
};
use crate::semantic::{plain_version, render_spec, SemVer, SemVerView};
use crate::text::{chars_of, string_of, trim, trim_spec};

verus! {

/// Whether `op` is one of the comparison operators a range may start with.
pub open spec fn is_operator(op: Seq<char>) -> bool {
    ||| op == seq!['^']
    ||| op == seq!['~']
    ||| op == seq!['>', '=']
    ||| op == seq!['<', '=']
    ||| op == seq!['>']
    ||| op == seq!['<']
    ||| op == seq!['=']
}

/// Whether `c` can open an operator.
pub open spec fn is_operator_char(c: char) -> bool {
    c == '^' || c == '~' || c == '>' || c == '<' || c == '='
}

/// The longest operator that `range` starts with, or nothing for a bare version.
pub open spec fn extract_operator_spec(range: Seq<char>) -> Seq<char> {
    if range.len() >= 2 && (range[0] == '>' || range[0] == '<') && range[1] == '=' {
        range.subrange(0, 2)
    } else if range.len() >= 1 && is_operator_char(range[0]) {
        range.subrange(0, 1)
    } else {
        Seq::empty()
    }
}

/// `range` without the operator it starts with.
pub open spec fn strip_operator_spec(range: Seq<char>) -> Seq<char> {
    range.subrange(extract_operator_spec(range).len() as int, range.len() as int)
}

/// The operator found by `extract_operator_spec` is a prefix of the range, is
/// an operator unless it is empty, and no operator that the range starts with
/// is longer.
pub proof fn lemma_extract_operator_longest(range: Seq<char>)
    ensures
        extract_operator_spec(range).is_prefix_of(range),
        extract_operator_spec(range).len() == 0 || is_operator(extract_operator_spec(range)),
        forall|op: Seq<char>| is_operator(op) && op.is_prefix_of(range)
            ==> op.len() <= extract_operator_spec(range).len(),
        extract_operator_spec(range) + strip_operator_spec(range) == range,
{
    let found = extract_operator_spec(range);
    if found.len() == 2 {
        assert(found =~= seq![range[0], range[1]]);
    } else if found.len() == 1 {
        assert(found =~= seq![range[0]]);
    }
    assert forall|op: Seq<char>| is_operator(op) && op.is_prefix_of(range) implies op.len()
        <= found.len() by {
        assert(op[0] == range[0]);
        if op.len() == 2 {
            assert(op[1] == range[1]);
        }
    }
    assert(found + strip_operator_spec(range) =~= range);
}

/// The operator that `range` starts with: the longest of `^`, `~`, `>=`, `<=`,
/// `>`, `<` and `=` that is a prefix of it, or the empty string.
pub fn extract_operator(range: &str) -> (op: String)
    ensures
        op@ == extract_operator_spec(range@),
{
    let chars = chars_of(range);
    let found = operator_of(&chars);
    string_of(&found)
}

/// The operator at the start of `chars`.
pub fn operator_of(chars: &Vec<char>) -> (op: Vec<char>)
    ensures
        op@ == extract_operator_spec(chars@),
{
    let mut op: Vec<char> = Vec::new();
    if chars.len() >= 2 && (chars[0] == '>' || chars[0] == '<') && chars[1] == '=' {
        op.push(chars[0]);
        op.push(chars[1]);
        assert(op@ =~= chars@.subrange(0, 2));
    } else if chars.len() >= 1 && (chars[0] == '^' || chars[0] == '~' || chars[0] == '>'
        || chars[0] == '<' || chars[0] == '=') {
        op.push(chars[0]);
        assert(op@ =~= chars@.subrange(0, 1));
    } else {
        assert(op@ =~= Seq::<char>::empty());
    }
    op
}

/// Puts `operator` in front of `new_version`.
pub fn apply_operator(operator: &str, new_version: &str) -> (spec: String)
    ensures
        spec@ == operator@ + new_version@,
{
    String::from_str(operator).concat(new_version)
}

/// `new_version` behind the operator that `old_version` starts with, so that a
/// rewritten range keeps the constraint style it had.
pub fn preserve_version_operator(old_version: &str, new_version: &str) -> (spec: String)
    ensures
        spec@ == extract_operator_spec(old_version@) + new_version@,
{
    let operator = extract_operator(old_version);
    apply_operator(operator.as_str(), new_version)
}

/// The characters of `chars` from `from` on.
pub(crate) fn tail_of(chars: &Vec<char>, from: usize) -> (r: Vec<char>)
    requires
        from <= chars@.len(),
    ensures
        r@ == chars@.subrange(from as int, chars@.len() as int),
{
    let mut r: Vec<char> = Vec::new();
    let mut i: usize = from;
    while i < chars.len()
        invariant
            from <= i <= chars@.len(),
            r@ == chars@.subrange(from as int, i as int),
        decreases chars@.len() - i,
    {
        r.push(chars[i]);
        i = i + 1;
        assert(r@ =~= chars@.subrange(from as int, i as int));
    }
    r
}

/// What is left of a range once surrounding whitespace and the operator are gone.
pub open spec fn strip_version_operator_spec(version: Seq<char>) -> Seq<char> {
    strip_operator_spec(trim_spec(version))
}

/// Trims `version` and removes the operator it then starts with.
pub fn strip_version_operator(version: &str) -> (bare: String)
    ensures
        bare@ == strip_version_operator_spec(version@),
{
    let bare = bare_chars(version);
    string_of(&bare)
}

/// The characters of `version` without surrounding whitespace and operator.
pub fn bare_chars(version: &str) -> (bare: Vec<char>)
    ensures
        bare@ == strip_version_operator_spec(version@),
{
    let chars = chars_of(version);
    let trimmed = trim(&chars);
    let op = operator_of(&trimmed);
    proof {
        lemma_extract_operator_longest(trimmed@);
    }
    tail_of(&trimmed, op.len())
}

/// The pieces of `s` between its dots. A string without a dot is one piece; two
/// dots in a row enclose an empty piece.
pub open spec fn split_dots(s: Seq<char>) -> Seq<Seq<char>>
    decreases s.len(),
{
    if s.len() == 0 {
        seq![Seq::<char>::empty()]
    } else {
        let init = split_dots(s.drop_last());
        if s.last() == '.' {
            init.push(Seq::<char>::empty())
        } else {
            init.update(init.len() - 1, init.last().push(s.last()))
        }
    }
}

/// Splitting always yields at least one piece.
pub proof fn lemma_split_nonempty(s: Seq<char>)
    ensures
        split_dots(s).len() >= 1,
    decreases s.len(),
{
    if s.len() > 0 {
        lemma_split_nonempty(s.drop_last());
    }
}

/// The views of a list of character vectors.
pub open spec fn part_views(parts: Seq<Vec<char>>) -> Seq<Seq<char>> {
    Seq::new(parts.len(), |i: int| parts[i]@)
}

/// Cuts `s` at every dot.
pub fn split_at_dots(s: &Vec<char>) -> (parts: Vec<Vec<char>>)
    ensures
        part_views(parts@) == split_dots(s@),
{
    let mut done: Vec<Vec<char>> = Vec::new();
    let mut current: Vec<char> = Vec::new();
    let mut i: usize = 0;
    assert(s@.subrange(0, 0) =~= Seq::<char>::empty());
    assert(part_views(done@).push(current@) =~= split_dots(s@.subrange(0, 0)));
    while i < s.len()
        invariant
            i <= s.len(),
            part_views(done@).push(current@) == split_dots(s@.subrange(0, i as int)),
        decreases s.len() - i,
    {
        let c = s[i];
        let ghost init = split_dots(s@.subrange(0, i as int));
        let ghost next = s@.subrange(0, i as int + 1);
        let ghost old_done = done@;
        let ghost old_current = current@;
        proof {
            assert(next.drop_last() =~= s@.subrange(0, i as int));
            assert(next.last() == c);
            assert(init.last() == old_current);
        }
        if c == '.' {
            done.push(current);
            current = Vec::new();
            assert(part_views(done@) =~= part_views(old_done).push(old_current));
            assert(part_views(done@).push(current@) =~= split_dots(next));
        } else {
            current.push(c);
            assert(part_views(done@).push(current@) =~= init.update(
                init.len() - 1,
                init.last().push(c),
            ));
        }
        i = i + 1;
    }
    let ghost old_done = done@;
    assert(s@.subrange(0, s.len() as int) =~= s@);
    done.push(current);
    assert(part_views(done@) =~= part_views(old_done).push(current@));
    done
}

/// `s` with `.0` added for each of the minor and patch components it leaves
/// out. A string that has three or more pieces already stays as it is.
pub open spec fn normalize_spec(s: Seq<char>) -> Seq<char> {
    let pieces = split_dots(s).len();
    if pieces == 1 {
        s + seq!['.', '0', '.', '0']
    } else if pieces == 2 {
        s + seq!['.', '0']
    } else {
        s
    }
}

/// Pads the characters of a version to three components.
pub fn normalize_chars(s: &Vec<char>) -> (r: Vec<char>)
    ensures
        r@ == normalize_spec(s@),
{
    let parts = split_at_dots(s);
    assert(parts@.len() == part_views(parts@).len());
    let mut r = s.clone();
    assert(r@ =~= s@);
    if parts.len() == 1 {
        r.push('.');
        r.push('0');
        r.push('.');
        r.push('0');
        assert(r@ =~= s@ + seq!['.', '0', '.', '0']);
    } else if parts.len() == 2 {
        r.push('.');
        r.push('0');
        assert(r@ =~= s@ + seq!['.', '0']);
    }
    r
}

/// Completes a shorthand version: `2` becomes `2.0.0`, `0.21` becomes `0.21.0`,
/// and a version with three or more components is returned unchanged.
pub fn normalize_version(version: &str) -> (full: String)
    ensures
        full@ == normalize_spec(version@),
{
    let chars = chars_of(version);
    let full = normalize_chars(&chars);
    string_of(&full)
}

/// The version that `s` writes, if it is three numerals joined by dots.
pub open spec fn parse_triple_spec(s: Seq<char>) -> Option<SemVerView> {
    let parts = split_dots(s);
    if parts.len() == 3 && is_numeric(parts[0]) && is_numeric(parts[1]) && is_numeric(parts[2]) {
        Some(
            plain_version(
                decimal_value(parts[0]) as u64,
                decimal_value(parts[1]) as u64,
                decimal_value(parts[2]) as u64,
            ),
        )
    } else {
        None
    }
}

/// The version that a range compares as: trimmed, without its operator, padded
/// to three components and read as numbers. `None` where what is left is not
/// one to three numerals joined by dots.
pub open spec fn to_comparable_spec(range: Seq<char>) -> Option<SemVerView> {
    parse_triple_spec(normalize_spec(strip_version_operator_spec(range)))
}

/// Reads three numerals joined by dots.
pub fn parse_triple(s: &Vec<char>) -> (r: Option<SemVer>)
    ensures
        r is Some <==> parse_triple_spec(s@) is Some,
        r is Some ==> r.unwrap()@ == parse_triple_spec(s@).unwrap(),
{
    let parts = split_at_dots(s);
    assert(parts@.len() == part_views(parts@).len());
    if parts.len() != 3 {
        return None;
    }
    assert(part_views(parts@)[0] == parts@[0]@);
    assert(part_views(parts@)[1] == parts@[1]@);
    assert(part_views(parts@)[2] == parts@[2]@);
    let major = parse_numeric(&parts[0]);
    let minor = parse_numeric(&parts[1]);
    let patch = parse_numeric(&parts[2]);
    match (major, minor, patch) {
        (Some(major), Some(minor), Some(patch)) => Some(SemVer::new(major, minor, patch)),
        _ => None,
    }
}

/// Reduces a version range to the version it compares as: `^1.2.3` to 1.2.3,
/// `0.21` to 0.21.0, `2` to 2.0.0. Fails with `InvalidVersion` where the range,
/// once trimmed and without its operator, is not one to three numerals joined
/// by dots.
pub fn to_comparable(range: &str) -> (r: Result<SemVer, CcuError>)
    ensures
        match to_comparable_spec(range@) {
            Some(v) => r is Ok && r->Ok_0@ == v,
            None => r is Err && r->Err_0 == CcuError::InvalidVersion,
        },
{
    let bare = bare_chars(range);
    let full = normalize_chars(&bare);
    match parse_triple(&full) {
        Some(v) => Ok(v),
        None => Err(CcuError::InvalidVersion),
    }
}

/// Whether every piece is a numeral.
pub open spec fn all_numeric(parts: Seq<Seq<char>>) -> bool {
    forall|i: int| 0 <= i < parts.len() ==> is_numeric(#[trigger] parts[i])
}

/// Adding `.0` to a string adds the piece `0` to its pieces.
pub proof fn lemma_split_push_zero(s: Seq<char>)
    ensures
        split_dots(s + seq!['.', '0']) == split_dots(s).push(seq!['0']),
{
    let a = s.push('.');
    let b = a.push('0');
    assert(b =~= s + seq!['.', '0']);
    assert(b.drop_last() =~= a);
    assert(a.drop_last() =~= s);
    lemma_split_nonempty(s);
    assert(split_dots(a) == split_dots(s).push(Seq::<char>::empty()));
    assert(Seq::<char>::empty().push('0') =~= seq!['0']);
    assert(split_dots(b) =~= split_dots(s).push(seq!['0']));
}

/// The numeral `0` is a numeral and is worth nothing.
pub proof fn lemma_zero_numeral()
    ensures
        is_numeric(seq!['0']),
        decimal_value(seq!['0']) == 0,
{
    let z = seq!['0'];
    assert(z.drop_last() =~= Seq::<char>::empty());
    assert(decimal_value(z.drop_last()) == 0);
    assert(z.last() == '0');
}

/// A range reduces to a version exactly when, trimmed and without its operator,
/// it is one to three numerals joined by dots. The numerals give major, minor
/// and patch in this order, and a component that is left out counts as zero.
pub proof fn lemma_to_comparable_pads(range: Seq<char>)
    ensures
        ({
            let parts = split_dots(strip_version_operator_spec(range));
            &&& to_comparable_spec(range) is Some <==> (1 <= parts.len() <= 3 && all_numeric(
                parts,
            ))
            &&& to_comparable_spec(range) is Some ==> to_comparable_spec(range).unwrap()
                == plain_version(
                decimal_value(parts[0]) as u64,
                if parts.len() >= 2 {
                    decimal_value(parts[1]) as u64
                } else {
                    0
                },
                if parts.len() >= 3 {
                    decimal_value(parts[2]) as u64
                } else {
                    0
                },
            )
        }),
{
    let bare = strip_version_operator_spec(range);
    let parts = split_dots(bare);
    let zero = seq!['0'];
    lemma_split_nonempty(bare);
    lemma_zero_numeral();
    if parts.len() == 1 {
        let once = bare + seq!['.', '0'];
        lemma_split_push_zero(bare);
        lemma_split_push_zero(once);
        assert(once + seq!['.', '0'] =~= bare + seq!['.', '0', '.', '0']);
        let full = split_dots(normalize_spec(bare));
        assert(full == parts.push(zero).push(zero));
        assert(full[0] == parts[0] && full[1] == zero && full[2] == zero);
    } else if parts.len() == 2 {
        lemma_split_push_zero(bare);
        let full = split_dots(normalize_spec(bare));
        assert(full == parts.push(zero));
        assert(full[0] == parts[0] && full[1] == parts[1] && full[2] == zero);
    }
}

/// Whether `s` holds no dot.
pub open spec fn no_dots(s: Seq<char>) -> bool {
    forall|i: int| 0 <= i < s.len() ==> #[trigger] s[i] != '.'
}

/// A string without a dot is one piece.
pub proof fn lemma_split_single(d: Seq<char>)
    requires
        no_dots(d),
    ensures
        split_dots(d) == seq![d],
    decreases d.len(),
{
    if d.len() == 0 {
        assert(d =~= Seq::<char>::empty());
    } else {
        let front = d.drop_last();
        assert(no_dots(front)) by {
            assert forall|i: int| 0 <= i < front.len() implies #[trigger] front[i] != '.' by {
                assert(front[i] == d[i]);
            }
        }
        lemma_split_single(front);
        assert(d.last() == d[d.len() - 1]);
        assert(front.push(d.last()) =~= d);
        assert(split_dots(d) =~= seq![d]);
    }
}

/// A dot and a string without a dot add that string as one more piece.
pub proof fn lemma_split_append(x: Seq<char>, d: Seq<char>)
    requires
        no_dots(d),
    ensures
        split_dots(x + seq!['.'] + d) == split_dots(x).push(d),
    decreases d.len(),
{
    let whole = x + seq!['.'] + d;
    if d.len() == 0 {
        assert(d =~= Seq::<char>::empty());
        assert(whole.drop_last() =~= x);
        assert(whole.last() == '.');
    } else {
        let front = d.drop_last();
        assert(no_dots(front)) by {
            assert forall|i: int| 0 <= i < front.len() implies #[trigger] front[i] != '.' by {
                assert(front[i] == d[i]);
            }
        }
        lemma_split_append(x, front);
        assert(whole.drop_last() =~= x + seq!['.'] + front);
        assert(whole.last() == d[d.len() - 1]);
        assert(front.push(d.last()) =~= d);
        assert(split_dots(whole) =~= split_dots(x).push(d));
    }
}

/// The numeral of a number that fits 64 bits is a numeral of a version, worth
/// that number, and holds no dot.
pub proof fn lemma_numeral_of(n: u64)
    ensures
        is_numeric(decimal_repr(n as nat)),
        decimal_value(decimal_repr(n as nat)) == n,
        no_dots(decimal_repr(n as nat)),
{
    let r = decimal_repr(n as nat);
    lemma_decimal_round_trip(n as nat);
    assert forall|i: int| 0 <= i < r.len() implies #[trigger] r[i] != '.' by {
        assert(is_digit(r[i]));
    }
}

/// What is written for a version of three numbers reads back as that version,
/// and counts as complete.
pub proof fn lemma_render_reads_back(major: u64, minor: u64, patch: u64)
    ensures
        normalize_spec(render_spec(plain_version(major, minor, patch))) == render_spec(
            plain_version(major, minor, patch),
        ),
        parse_triple_spec(render_spec(plain_version(major, minor, patch))) == Some(
            plain_version(major, minor, patch),
        ),
{
    let a = decimal_repr(major as nat);
    let b = decimal_repr(minor as nat);
    let c = decimal_repr(patch as nat);
    lemma_numeral_of(major);
    lemma_numeral_of(minor);
    lemma_numeral_of(patch);
    let text = render_spec(plain_version(major, minor, patch));
    assert(text =~= a + seq!['.'] + b + seq!['.'] + c);
    lemma_split_single(a);
    lemma_split_append(a, b);
    lemma_split_append(a + seq!['.'] + b, c);
    let parts = split_dots(text);
    assert(parts == seq![a].push(b).push(c));
    assert(parts[0] == a && parts[1] == b && parts[2] == c);
}

} // verus!
