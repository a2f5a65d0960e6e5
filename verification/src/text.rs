//! Text utilities shared by the pipeline: turning source text into a
//! character vector, building strings back from characters, decimal
//! numerals, and lexicographic text ordering.

use vstd::prelude::*;
use vstd::std_specs::iter::IteratorSpec;

verus! {

/// The characters of a string slice, as an indexable vector.
pub fn chars_vec(s: &str) -> (v: Vec<char>)
    ensures
        v@ == s@,
{
    broadcast use vstd::string::group_string_axioms;

    let mut it = s.chars();
    let mut v: Vec<char> = Vec::new();
    loop
        invariant
            it.obeys_prophetic_iter_laws(),
            it.decrease() is Some,
            v@ + it.remaining() == s@,
        decreases it.decrease()->0,
    {
        match it.next() {
            Option::Some(c) => {
                v.push(c);
            },
            Option::None => {
                assert(v@ =~= s@);
                return v;
            },
        }
    }
}

/// Relies on `FromIterator<char> for String`: collecting characters yields
/// the string made of exactly those characters, in order.
#[verifier::external_body]
pub fn string_from_chars(v: &Vec<char>) -> (s: String)
    ensures
        s@ == v@,
{
    v.iter().collect()
}

/// Whether `c` is a decimal digit.
pub open spec fn is_digit_char(c: char) -> bool {
    '0' <= c && c <= '9'
}

/// Numeric value of a decimal digit character.
pub open spec fn digit_val(c: char) -> int {
    c as int - '0' as int
}

/// The digit character for a value below ten.
pub open spec fn digit_char(d: int) -> char {
    (('0' as u8) + (d as u8)) as char
}

/// Value of a sequence of decimal digit characters, most significant first.
pub open spec fn digits_val(s: Seq<char>) -> int
    decreases s.len(),
{
    if s.len() == 0 {
        0
    } else {
        10 * digits_val(s.drop_last()) + digit_val(s.last())
    }
}

/// Whether every character of `s` is a decimal digit.
pub open spec fn all_digits(s: Seq<char>) -> bool {
    forall|i: int| 0 <= i < s.len() ==> is_digit_char(#[trigger] s[i])
}

/// A digit sequence has a nonnegative value.
pub proof fn lemma_digits_val_nonneg(s: Seq<char>)
    requires
        all_digits(s),
    ensures
        digits_val(s) >= 0,
    decreases s.len(),
{
    if s.len() > 0 {
        assert(is_digit_char(s[s.len() - 1]));
        lemma_digits_val_nonneg(s.drop_last());
    }
}

/// Appending one digit multiplies the value by ten and adds the digit.
pub proof fn lemma_digits_val_push(s: Seq<char>, c: char)
    ensures
        digits_val(s.push(c)) == 10 * digits_val(s) + digit_val(c),
{
    assert(s.push(c).drop_last() =~= s);
    assert(s.push(c).last() == c);
}

/// Decimal numeral of a nonnegative number, without leading zeros
/// (except for zero itself).
pub open spec fn dec_digits(n: int) -> Seq<char>
    decreases n,
{
    if n <= 0 {
        seq!['0']
    } else if n < 10 {
        seq![digit_char(n)]
    } else {
        dec_digits(n / 10).push(digit_char(n % 10))
    }
}

/// Decimal rendering of an integer: a minus sign for negatives, then the
/// digits of the magnitude.
pub open spec fn dec_int(n: int) -> Seq<char> {
    if n < 0 {
        seq!['-'] + dec_digits(-n)
    } else {
        dec_digits(n)
    }
}

/// Writing a numeral and reading it back yields the number again.
pub proof fn lemma_dec_digits_val(n: int)
    requires
        n >= 0,
    ensures
        digits_val(dec_digits(n)) == n,
        all_digits(dec_digits(n)),
    decreases n,
{
    if n < 10 {
        let s = dec_digits(n);
        assert(digits_val(Seq::<char>::empty()) == 0);
        if n > 0 {
            assert(digit_char(n) as int == 48 + n);
            assert(s =~= seq![digit_char(n)]);
        } else {
            assert(s =~= seq!['0']);
        }
        assert(s.drop_last() =~= Seq::<char>::empty());
        assert(digits_val(s) == 10 * digits_val(s.drop_last()) + digit_val(s.last()));
        assert(digits_val(dec_digits(n)) == n);
    } else {
        lemma_dec_digits_val(n / 10);
        assert(dec_digits(n).drop_last() =~= dec_digits(n / 10));
        assert(dec_digits(n).last() == digit_char(n % 10));
        assert forall|i: int| 0 <= i < dec_digits(n).len() implies is_digit_char(
            #[trigger] dec_digits(n)[i],
        ) by {
            if i < dec_digits(n).len() - 1 {
                assert(dec_digits(n)[i] == dec_digits(n / 10)[i]);
            }
        }
    }
}

/// The digits of the magnitude of `n`, least significant first.
fn mag_digits_rev(n: u64) -> (v: Vec<char>)
    ensures
        v@.reverse() == dec_digits(n as int),
{
    let mut v: Vec<char> = Vec::new();
    if n == 0 {
        v.push('0');
        assert(v@.reverse() =~= dec_digits(0));
        return v;
    }
    let mut m: u64 = n;
    while m >= 10
        invariant
            1 <= m <= n,
            dec_digits(n as int) =~= dec_digits(m as int) + v@.reverse(),
        decreases m,
    {
        let d: u64 = m % 10;
        let c: char = ((48u8 + (d as u8)) as char);
        proof {
            assert(c == digit_char(m as int % 10));
            assert(dec_digits(m as int) == dec_digits(m as int / 10).push(
                digit_char(m as int % 10),
            ));
            assert(dec_digits(m as int / 10).push(digit_char(m as int % 10)) + v@.reverse()
                =~= dec_digits(m as int / 10) + (v@.push(c)).reverse());
        }
        v.push(c);
        m = m / 10;
    }
    let c: char = ((48u8 + (m as u8)) as char);
    proof {
        assert(c == digit_char(m as int));
        assert(dec_digits(m as int) =~= seq![c]);
        assert(dec_digits(m as int) + v@.reverse() =~= (v@.push(c)).reverse());
    }
    v.push(c);
    v
}

/// A vector with the elements in reverse order.
fn reversed(v: &Vec<char>) -> (r: Vec<char>)
    ensures
        r@ == v@.reverse(),
{
    let mut r: Vec<char> = Vec::new();
    let mut i: usize = v.len();
    while i > 0
        invariant
            0 <= i <= v.len(),
            r@.len() == v@.len() - i,
            forall|k: int| 0 <= k < r@.len() ==> r@[k] == v@[v@.len() - 1 - k],
        decreases i,
    {
        i = i - 1;
        r.push(v[i]);
    }
    assert(r@ =~= v@.reverse());
    r
}

/// The decimal numeral of `n`.
pub fn render_u64(n: u64) -> (s: String)
    ensures
        s@ == dec_digits(n as int),
{
    let rev = mag_digits_rev(n);
    let digits = reversed(&rev);
    string_from_chars(&digits)
}

/// The decimal rendering of `n`, with a minus sign when negative.
pub fn render_i64(n: i64) -> (s: String)
    ensures
        s@ == dec_int(n as int),
{
    if n >= 0 {
        let s = render_u64(n as u64);
        s
    } else {
        let mag: u64 = if n == i64::MIN {
            9223372036854775808u64
        } else {
            (-n) as u64
        };
        let rev = mag_digits_rev(mag);
        let digits = reversed(&rev);
        let mut all: Vec<char> = Vec::new();
        all.push('-');
        let mut j: usize = 0;
        while j < digits.len()
            invariant
                0 <= j <= digits.len(),
                all@ =~= seq!['-'] + digits@.take(j as int),
            decreases digits.len() - j,
        {
            all.push(digits[j]);
            assert(digits@.take(j + 1) =~= digits@.take(j as int).push(digits@[j as int]));
            j = j + 1;
        }
        assert(digits@.take(digits@.len() as int) =~= digits@);
        assert(all@ =~= seq!['-'] + dec_digits(mag as int));
        string_from_chars(&all)
    }
}

/// Lexicographic "strictly less" on character sequences, comparing from
/// position `i` onward.
pub open spec fn str_lt_from(a: Seq<char>, b: Seq<char>, i: int) -> bool
    decreases a.len() - i,
{
    if i >= a.len() {
        i < b.len()
    } else if i >= b.len() {
        false
    } else if a[i] != b[i] {
        (a[i] as int) < (b[i] as int)
    } else {
        str_lt_from(a, b, i + 1)
    }
}

/// Lexicographic "strictly less" on character sequences: a proper prefix is
/// less, and otherwise the first differing character decides.
pub open spec fn str_lt(a: Seq<char>, b: Seq<char>) -> bool {
    str_lt_from(a, b, 0)
}

/// Whether `a` is lexicographically strictly below `b`.
pub fn str_less(a: &str, b: &str) -> (r: bool)
    ensures
        r == str_lt(a@, b@),
{
    let av = chars_vec(a);
    let bv = chars_vec(b);
    let mut i: usize = 0;
    loop
        invariant
            av@ == a@,
            bv@ == b@,
            0 <= i <= av.len(),
            i <= bv.len(),
            str_lt(a@, b@) == str_lt_from(a@, b@, i as int),
        decreases av.len() - i,
    {
        if i >= av.len() {
            return i < bv.len();
        }
        if i >= bv.len() {
            return false;
        }
        let ca: char = av[i];
        let cb: char = bv[i];
        if ca != cb {
            proof {
                assert(str_lt_from(a@, b@, i as int) == ((a@[i as int] as int) < (b@[i as int]
                    as int)));
            }
            return ca < cb;
        }
        i = i + 1;
    }
}

} // verus!



