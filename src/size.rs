//! Genome sizes as whole numbers of base pairs, and their decimal text.
use vstd::prelude::*;
use crate::text::{chars_of, string_of};

verus! {

pub open spec fn is_digit(c: char) -> bool {
    '0' <= c && c <= '9'
}

pub open spec fn digit_value(c: char) -> nat {
    if is_digit(c) {
        (c as u32 - '0' as u32) as nat
    } else {
        0
    }
}

/// The number written by the decimal digits `s`, most significant first.
pub open spec fn digits_value(s: Seq<char>) -> nat
    decreases s.len(),
{
    if s.len() == 0 {
        0
    } else {
        digits_value(s.drop_last()) * 10 + digit_value(s.last())
    }
}

pub open spec fn all_digits(s: Seq<char>) -> bool {
    forall|i: int| 0 <= i < s.len() ==> is_digit(#[trigger] s[i])
}

/// `s[p]` is the decimal point of `s`: digits before it, at least one digit after it.
pub open spec fn is_point(s: Seq<char>, p: int) -> bool {
    &&& 0 < p && p + 1 < s.len()
    &&& s[p] == '.'
    &&& all_digits(s.take(p))
    &&& all_digits(s.skip(p + 1))
}

/// A whole part rounded by its first fractional digit: half rounds up.
pub open spec fn rounded(whole: Seq<char>, first: char) -> Option<u64> {
    let v = digits_value(whole) + if first >= '5' { 1nat } else { 0nat };
    if v <= u64::MAX {
        Some(v as u64)
    } else {
        None
    }
}

/// The size that a field states: decimal digits, optionally followed by a point
/// and more digits (rounded to a whole number, half up), whose value fits in `u64`.
pub open spec fn size_spec(s: Seq<char>) -> Option<u64> {
    if s.len() > 0 && all_digits(s) {
        if digits_value(s) <= u64::MAX {
            Some(digits_value(s) as u64)
        } else {
            None
        }
    } else if exists|p: int| is_point(s, p) {
        let p = choose|p: int| is_point(s, p);
        rounded(s.take(p), s[p + 1])
    } else {
        None
    }
}

proof fn lemma_point_at(s: Seq<char>, p: int, q: int)
    requires
        0 <= p < s.len(),
        all_digits(s.take(p)),
        !is_digit(s[p]),
        is_point(s, q),
    ensures
        q == p,
{
    if q < p {
        assert(s.take(p)[q] == s[q]);
    } else if q > p {
        assert(s.take(q)[p] == s[p]);
    }
}

pub open spec fn digit_char(d: nat) -> char {
    ((d + 48) as u8) as char
}

/// The decimal text of `n`, without sign or leading zeros.
pub open spec fn decimal_spec(n: nat) -> Seq<char>
    decreases n,
{
    if n < 10 {
        seq![digit_char(n)]
    } else {
        decimal_spec(n / 10).push(digit_char(n % 10))
    }
}

proof fn lemma_digits_value_prefix(s: Seq<char>, k: int)
    requires
        0 <= k <= s.len(),
    ensures
        digits_value(s.take(k)) <= digits_value(s),
    decreases s.len(),
{
    if k < s.len() {
        assert(s.drop_last().take(k) =~= s.take(k));
        lemma_digits_value_prefix(s.drop_last(), k);
    } else {
        assert(s.take(k) =~= s);
    }
}

proof fn lemma_digit_char(d: nat)
    requires
        d < 10,
    ensures
        is_digit(digit_char(d)),
        digit_value(digit_char(d)) == d,
{
}

proof fn lemma_decimal_digits(n: nat)
    ensures
        decimal_spec(n).len() > 0,
        all_digits(decimal_spec(n)),
        digits_value(decimal_spec(n)) == n,
    decreases n,
{
    lemma_digit_char(n % 10);
    if n >= 10 {
        lemma_decimal_digits(n / 10);
        let d = decimal_spec(n);
        assert(d.drop_last() =~= decimal_spec(n / 10));
        assert(d.last() == digit_char(n % 10));
        assert(digits_value(d) == digits_value(d.drop_last()) * 10 + digit_value(d.last()));
        assert(n == (n / 10) * 10 + n % 10) by (nonlinear_arith);
        assert(all_digits(d)) by {
            assert forall|i: int| 0 <= i < d.len() implies is_digit(#[trigger] d[i]) by {
                if i < d.len() - 1 {
                    assert(d[i] == d.drop_last()[i]);
                }
            }
        }
    } else {
        let d = decimal_spec(n);
        assert(d.drop_last() =~= Seq::<char>::empty());
        assert(digits_value(d) == digits_value(d.drop_last()) * 10 + digit_value(d.last()));
    }
}

/// Formatting a size and reading the text back gives the same size.
pub proof fn lemma_size_round_trip(n: u64)
    ensures
        size_spec(decimal_spec(n as nat)) == Some(n),
{
    lemma_decimal_digits(n as nat);
}

/// Reads a genome size field: digits, or digits, a point and digits, rounded to
/// a whole number with half rounding up. `None` for anything else (`"N/A"`, a
/// sign, an exponent, an empty field) and for a value beyond `u64`.
pub fn parse_size(field: &str) -> (r: Option<u64>)
    ensures
        r == size_spec(field@),
{
    let s = chars_of(field);
    let n = s.len();
    if n == 0 {
        return None;
    }
    let mut value: u64 = 0;
    let mut big = false;
    let mut i: usize = 0;
    while i < n && '0' <= s[i] && s[i] <= '9'
        invariant
            n == s@.len(),
            i <= n,
            s@ == field@,
            all_digits(s@.take(i as int)),
            !big ==> value as nat == digits_value(s@.take(i as int)),
            big ==> digits_value(s@.take(i as int)) > u64::MAX,
        decreases n - i,
    {
        let c = s[i];
        assert(s@.take(i as int + 1).drop_last() =~= s@.take(i as int));
        let d = (c as u32 - '0' as u32) as u64;
        if !big {
            if value > (u64::MAX - d) / 10 {
                big = true;
            } else {
                value = value * 10 + d;
            }
        }
        i = i + 1;
        assert(all_digits(s@.take(i as int)));
    }
    if i == n {
        assert(s@.take(n as int) =~= s@);
        return if big { None } else { Some(value) };
    }
    let p = i;
    assert(!all_digits(s@));
    if s[p] != '.' || p == 0 || p + 1 >= n {
        assert(!exists|q: int| is_point(s@, q)) by {
            if exists|q: int| is_point(s@, q) {
                let q = choose|q: int| is_point(s@, q);
                lemma_point_at(s@, p as int, q);
            }
        }
        return None;
    }
    let mut j: usize = p + 1;
    while j < n
        invariant
            n == s@.len(),
            p + 1 <= j <= n,
            p < n,
            s@ == field@,
            all_digits(s@.take(p as int)),
            !is_digit(s@[p as int]),
            !all_digits(s@),
            !big ==> value as nat == digits_value(s@.take(p as int)),
            big ==> digits_value(s@.take(p as int)) > u64::MAX,
            forall|k: int| p < k < j ==> is_digit(#[trigger] s@[k]),
        decreases n - j,
    {
        if s[j] < '0' || s[j] > '9' {
            assert(!exists|q: int| is_point(s@, q)) by {
                if exists|q: int| is_point(s@, q) {
                    let q = choose|q: int| is_point(s@, q);
                    lemma_point_at(s@, p as int, q);
                    assert(s@.skip(p + 1)[j - p - 1] == s@[j as int]);
                }
            }
            return None;
        }
        j = j + 1;
    }
    assert(all_digits(s@.skip(p + 1))) by {
        assert forall|k: int| 0 <= k < s@.skip(p + 1).len() implies is_digit(#[trigger] s@.skip(p + 1)[k]) by {
            assert(s@.skip(p + 1)[k] == s@[p + 1 + k]);
        }
    }
    assert(is_point(s@, p as int));
    proof {
        let q = choose|q: int| is_point(s@, q);
        lemma_point_at(s@, p as int, q);
    }
    if big {
        return None;
    }
    if s[p + 1] >= '5' {
        if value == u64::MAX {
            return None;
        }
        Some(value + 1)
    } else {
        Some(value)
    }
}

fn push_decimal(n: u64, out: &mut Vec<char>)
    ensures
        final(out)@ == old(out)@ + decimal_spec(n as nat),
    decreases n,
{
    if n >= 10 {
        push_decimal(n / 10, out);
    }
    let c = ((n % 10) as u8 + 48u8) as char;
    out.push(c);
    if n >= 10 {
        assert(decimal_spec(n as nat) == decimal_spec((n / 10) as nat).push(digit_char((n % 10) as nat)));
    }
}

/// The decimal text of a size: digits only, no leading zeros, `"0"` for zero.
pub fn format_size(n: u64) -> (r: String)
    ensures
        r@ == decimal_spec(n as nat),
{
    let mut digits: Vec<char> = Vec::new();
    push_decimal(n, &mut digits);
    assert(digits@ =~= decimal_spec(n as nat));
    string_of(&digits)
}

} // verus!
