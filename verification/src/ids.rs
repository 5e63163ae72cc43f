use vstd::prelude::*;

use crate::strutil::push_char;

verus! {

// Job and package identifiers are 128-bit, time-ordered integers; a cursor
// is the canonical decimal rendering of one.  Rendering and parsing that
// form are exact inverses, so a cursor pins down one id.

/// The character standing for one decimal digit value.
pub open spec fn spec_digit_char(d: int) -> char
    recommends
        0 <= d < 10,
{
    (48 + d) as char
}

pub open spec fn spec_char_is_digit(c: char) -> bool {
    48 <= c as int <= 57
}

/// The numeric value of one decimal digit character.
pub open spec fn spec_char_digit(c: char) -> int {
    c as int - 48
}

/// The canonical decimal rendering of a number: no sign, no leading zero.
pub open spec fn spec_dec_digits(n: nat) -> Seq<char>
    decreases n,
{
    if n < 10 {
        seq![spec_digit_char(n as int)]
    } else {
        spec_dec_digits(n / 10).push(spec_digit_char((n % 10) as int))
    }
}

pub open spec fn spec_all_digits(s: Seq<char>) -> bool {
    forall|i: int| 0 <= i < s.len() ==> spec_char_is_digit(#[trigger] s[i])
}

/// The number a digit string denotes, most significant digit first.
pub open spec fn spec_digits_value(s: Seq<char>) -> int
    decreases s.len(),
{
    if s.len() == 0 {
        0
    } else {
        spec_digits_value(s.drop_last()) * 10 + spec_char_digit(s.last())
    }
}

/// A canonical cursor: at least one digit, digits only, no leading zero.
pub open spec fn spec_canonical_digits(s: Seq<char>) -> bool {
    &&& s.len() > 0
    &&& spec_all_digits(s)
    &&& (s.len() == 1 || s[0] != '0')
}

/// What parsing a cursor yields: the denoted id, if the string is a
/// canonical decimal rendering of a value that fits in 128 bits.
pub open spec fn spec_parse_u128(s: Seq<char>) -> Option<u128> {
    if spec_canonical_digits(s) && spec_digits_value(s) <= u128::MAX {
        Some(spec_digits_value(s) as u128)
    } else {
        None
    }
}

fn digit_char(d: u128) -> (c: char)
    requires
        d < 10,
    ensures
        c == spec_digit_char(d as int),
{
    if d == 0 {
        '0'
    } else if d == 1 {
        '1'
    } else if d == 2 {
        '2'
    } else if d == 3 {
        '3'
    } else if d == 4 {
        '4'
    } else if d == 5 {
        '5'
    } else if d == 6 {
        '6'
    } else if d == 7 {
        '7'
    } else if d == 8 {
        '8'
    } else {
        '9'
    }
}

/// Renders an id as its canonical decimal cursor string.
pub fn id_to_string(n: u128) -> (s: String)
    ensures
        s@ == spec_dec_digits(n as nat),
    decreases n,
{
    if n < 10 {
        let mut s = String::new();
        push_char(&mut s, digit_char(n));
        proof {
            assert(s@ =~= seq![spec_digit_char(n as int)]);
        }
        s
    } else {
        let mut s = id_to_string(n / 10);
        push_char(&mut s, digit_char(n % 10));
        s
    }
}

/// A digit string's value only grows as more digits are appended.
proof fn lemma_digits_value_nonneg(s: Seq<char>)
    requires
        spec_all_digits(s),
    ensures
        spec_digits_value(s) >= 0,
    decreases s.len(),
{
    if s.len() > 0 {
        assert(spec_all_digits(s.drop_last()));
        lemma_digits_value_nonneg(s.drop_last());
    }
}

pub proof fn lemma_digits_value_mono(s: Seq<char>, i: int)
    requires
        spec_all_digits(s),
        0 <= i <= s.len(),
    ensures
        spec_digits_value(s.take(i)) <= spec_digits_value(s),
    decreases s.len() - i,
{
    if i < s.len() {
        lemma_digits_value_mono(s, i + 1);
        let t = s.take(i + 1);
        assert(t.drop_last() =~= s.take(i));
        assert(spec_all_digits(s.take(i)));
        lemma_digits_value_nonneg(s.take(i));
        assert(spec_digits_value(t) == spec_digits_value(s.take(i)) * 10 + spec_char_digit(s[i]));
    } else {
        assert(s.take(i) =~= s);
    }
}

/// Parses a canonical decimal cursor string back into an id.
pub fn parse_u128(s: &str) -> (r: Option<u128>)
    ensures
        r == spec_parse_u128(s@),
{
    let len = s.unicode_len();
    if len == 0 {
        return None;
    }
    if len > 1 && s.get_char(0) == '0' {
        return None;
    }
    let mut acc: u128 = 0;
    let mut i: usize = 0;
    while i < len
        invariant
            0 <= i <= len,
            len == s@.len(),
            len > 1 ==> s@[0] != '0',
            spec_all_digits(s@.take(i as int)),
            acc == spec_digits_value(s@.take(i as int)),
        decreases len - i,
    {
        let c = s.get_char(i);
        let v = c as u32;
        if v < 48 || v > 57 {
            assert(!spec_char_is_digit(s@[i as int]));
            return None;
        }
        let d = (v - 48) as u128;
        let next = match acc.checked_mul(10) {
            Some(m) => m.checked_add(d),
            None => None,
        };
        match next {
            Some(m) => {
                proof {
                    let t = s@.take(i as int + 1);
                    assert(t.drop_last() =~= s@.take(i as int));
                    assert(t.last() == s@[i as int]);
                }
                acc = m;
            },
            None => {
                proof {
                    let t = s@.take(i as int + 1);
                    assert(t.drop_last() =~= s@.take(i as int));
                    assert(t.last() == s@[i as int]);
                    assert(spec_digits_value(t) > u128::MAX);
                    if spec_all_digits(s@) {
                        lemma_digits_value_mono(s@, i as int + 1);
                    }
                }
                return None;
            },
        }
        i = i + 1;
    }
    proof {
        assert(s@.take(len as int) =~= s@);
    }
    Some(acc)
}

/// Rendering an id and parsing the result gives the id back; in
/// particular distinct ids have distinct cursor strings.
pub proof fn lemma_cursor_roundtrip(n: u128)
    ensures
        spec_parse_u128(spec_dec_digits(n as nat)) == Some(n),
{
    lemma_dec_digits_canonical(n as nat);
    lemma_dec_digits_value(n as nat);
}

/// A digit character denotes the digit it was built from.
proof fn lemma_digit_char_value(d: int)
    requires
        0 <= d < 10,
    ensures
        spec_char_digit(spec_digit_char(d)) == d,
        spec_char_is_digit(spec_digit_char(d)),
{
    assert(spec_digit_char(d) as int == 48 + d);
}

pub proof fn lemma_dec_digits_value(n: nat)
    ensures
        spec_digits_value(spec_dec_digits(n)) == n,
    decreases n,
{
    if n < 10 {
        let s = spec_dec_digits(n);
        assert(s =~= seq![spec_digit_char(n as int)]);
        assert(s.drop_last() =~= Seq::<char>::empty());
        lemma_digit_char_value(n as int);
        assert(spec_digits_value(s.drop_last()) == 0);
        assert(s.last() == spec_digit_char(n as int));
        assert(spec_digits_value(s) == 0 * 10 + spec_char_digit(spec_digit_char(n as int)));
        assert(spec_digits_value(s) == n);
    } else {
        lemma_dec_digits_value(n / 10);
        lemma_digit_char_value((n % 10) as int);
        let s = spec_dec_digits(n);
        assert(s.drop_last() =~= spec_dec_digits(n / 10));
        assert(spec_digits_value(s) == (n / 10) * 10 + (n % 10));
        vstd::arithmetic::div_mod::lemma_fundamental_div_mod(n as int, 10);
    }
}

pub proof fn lemma_dec_digits_canonical(n: nat)
    ensures
        spec_canonical_digits(spec_dec_digits(n)),
        n >= 1 ==> spec_dec_digits(n)[0] != '0',
        spec_dec_digits(n).len() >= 1,
    decreases n,
{
    if n < 10 {
    } else {
        lemma_dec_digits_canonical(n / 10);
        let p = spec_dec_digits(n / 10);
        let s = spec_dec_digits(n);
        assert(s[0] == p[0]);
        assert forall|i: int| 0 <= i < s.len() implies spec_char_is_digit(#[trigger] s[i]) by {
            if i < p.len() {
                assert(s[i] == p[i]);
            }
        }
    }
}

/// Distinct ids render to distinct cursor strings.
pub proof fn lemma_cursor_injective(a: u128, b: u128)
    ensures
        spec_dec_digits(a as nat) == spec_dec_digits(b as nat) ==> a == b,
{
    if spec_dec_digits(a as nat) == spec_dec_digits(b as nat) {
        lemma_cursor_roundtrip(a);
        lemma_cursor_roundtrip(b);
    }
}

} // verus!
