//! Decimal numerals: reading a run of digits as a number and writing one back.

use vstd::prelude::*;

verus! {

/// Whether `c` is one of the digits `0` to `9`.
pub open spec fn is_digit(c: char) -> bool {
    48 <= c as u32 && c as u32 <= 57
}

/// The number a digit stands for.
pub open spec fn digit_value(c: char) -> nat {
    (c as u32 - 48) as nat
}

/// The number that the digits of `s` write in base ten.
pub open spec fn decimal_value(s: Seq<char>) -> nat
    decreases s.len(),
{
    if s.len() == 0 {
        0
    } else {
        decimal_value(s.drop_last()) * 10 + digit_value(s.last())
    }
}

/// Whether every character of `s` is a digit.
pub open spec fn all_digits(s: Seq<char>) -> bool {
    forall|i: int| 0 <= i < s.len() ==> is_digit(#[trigger] s[i])
}

/// Whether `s` is a numeral of a version: digits only, at least one, no
/// leading zero unless it is `0` itself, and a value that fits 64 bits.
pub open spec fn is_numeric(s: Seq<char>) -> bool {
    &&& s.len() > 0
    &&& all_digits(s)
    &&& (s.len() > 1 ==> s[0] != '0')
    &&& decimal_value(s) <= u64::MAX
}

/// A numeral is worth at least as much as any prefix of it.
pub proof fn lemma_decimal_prefix_le(s: Seq<char>, k: int)
    requires
        0 <= k <= s.len(),
    ensures
        decimal_value(s.subrange(0, k)) <= decimal_value(s),
    decreases s.len(),
{
    if k == s.len() {
        assert(s.subrange(0, k) =~= s);
    } else {
        lemma_decimal_prefix_le(s.drop_last(), k);
        assert(s.drop_last().subrange(0, k) =~= s.subrange(0, k));
    }
}

/// Reads `s` as a numeral, or reports that it is none.
pub fn parse_numeric(s: &Vec<char>) -> (r: Option<u64>)
    ensures
        r is Some <==> is_numeric(s@),
        r is Some ==> r.unwrap() == decimal_value(s@),
{
    let n: usize = s.len();
    if n == 0 {
        return None;
    }
    if n > 1 && s[0] == '0' {
        return None;
    }
    let mut acc: u64 = 0;
    let mut i: usize = 0;
    assert(s@.subrange(0, 0) =~= Seq::<char>::empty());
    while i < n
        invariant
            n == s@.len(),
            i <= n,
            all_digits(s@.subrange(0, i as int)),
            acc == decimal_value(s@.subrange(0, i as int)),
        decreases n - i,
    {
        let c = s[i];
        let code: u32 = c as u32;
        let ghost next = s@.subrange(0, i as int + 1);
        proof {
            assert(next.drop_last() =~= s@.subrange(0, i as int));
            assert(next.last() == c);
            lemma_decimal_prefix_le(s@, i as int + 1);
        }
        if code < 48 || code > 57 {
            assert(!is_digit(s@[i as int]));
            return None;
        }
        let d: u64 = (code - 48) as u64;
        if acc > 1844674407370955161 {
            return None;
        }
        let tens: u64 = acc * 10;
        if tens > u64::MAX - d {
            return None;
        }
        acc = tens + d;
        i = i + 1;
        assert forall|j: int| 0 <= j < next.len() implies is_digit(#[trigger] next[j]) by {
            if j < i - 1 {
                assert(next[j] == s@.subrange(0, i as int - 1)[j]);
            }
        }
    }
    assert(s@.subrange(0, n as int) =~= s@);
    Some(acc)
}

/// The digit that writes `d`, for `d` below ten.
pub open spec fn digit_char_spec(d: nat) -> char {
    if d == 0 {
        '0'
    } else if d == 1 {
        '1'
    } else if d == 2 {
        '2'
    } else if d == 3 {
        '3'
    } else if d == 4 {
        '4'
    } else if d == 5 {
        '5'
    } else if d == 6 {
        '6'
    } else if d == 7 {
        '7'
    } else if d == 8 {
        '8'
    } else {
        '9'
    }
}

/// The shortest base-ten numeral of `n`.
pub open spec fn decimal_repr(n: nat) -> Seq<char>
    decreases n,
{
    if n < 10 {
        seq![digit_char_spec(n)]
    } else {
        decimal_repr(n / 10).push(digit_char_spec(n % 10))
    }
}

/// The digit that writes `d`.
pub(crate) fn digit_char(d: u64) -> (c: char)
    requires
        d < 10,
    ensures
        c == digit_char_spec(d as nat),
{
    if d == 0 {
        '0'
    } else if d == 1 {
        '1'
    } else if d == 2 {
        '2'
    } else if d == 3 {
        '3'
    } else if d == 4 {
        '4'
    } else if d == 5 {
        '5'
    } else if d == 6 {
        '6'
    } else if d == 7 {
        '7'
    } else if d == 8 {
        '8'
    } else {
        '9'
    }
}

/// Writes `n` in base ten.
pub fn render_number(n: u64) -> (r: Vec<char>)
    ensures
        r@ == decimal_repr(n as nat),
    decreases n,
{
    if n < 10 {
        let mut r: Vec<char> = Vec::new();
        r.push(digit_char(n));
        assert(r@ =~= seq![digit_char_spec(n as nat)]);
        r
    } else {
        let mut r = render_number(n / 10);
        r.push(digit_char(n % 10));
        r
    }
}

/// Writing a number and reading the numeral back gives the number again, and
/// what is written has only digits and no needless leading zero.
pub proof fn lemma_decimal_round_trip(n: nat)
    ensures
        decimal_repr(n).len() > 0,
        all_digits(decimal_repr(n)),
        decimal_repr(n).len() > 1 ==> decimal_repr(n)[0] != '0',
        decimal_repr(n)[0] == '0' ==> n == 0,
        decimal_value(decimal_repr(n)) == n,
    decreases n,
{
    let r = decimal_repr(n);
    if n < 10 {
        assert(r.drop_last() =~= Seq::<char>::empty());
        assert(decimal_value(r.drop_last()) == 0);
        assert(r.last() == digit_char_spec(n));
    } else {
        let front = decimal_repr(n / 10);
        lemma_decimal_round_trip(n / 10);
        assert(r.drop_last() =~= front);
        assert(r.last() == digit_char_spec(n % 10));
        assert(r[0] == front[0]);
        assert forall|i: int| 0 <= i < r.len() implies is_digit(#[trigger] r[i]) by {
            if i < front.len() {
                assert(r[i] == front[i]);
            }
        }
    }
}

} // verus!
