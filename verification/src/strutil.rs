//! Verified text helpers: character access, decimal number conversion,
//! case mapping and joining.

use vstd::prelude::*;

verus! {

/// Relies on `str::chars`: the characters of the text, in order.
#[verifier::external_body]
pub fn chars_of(s: &str) -> (r: Vec<char>)
    ensures
        r@ == s@,
{
    s.chars().collect()
}

/// Relies on `String::from_iter` over characters: the text with exactly
/// the given characters, in order.
#[verifier::external_body]
pub fn string_from_chars(v: &Vec<char>) -> (r: String)
    ensures
        r@ == v@,
{
    v.iter().collect()
}

/// Whether the character is a decimal digit.
pub open spec fn is_dec_digit(c: char) -> bool {
    48 <= c as u32 && c as u32 <= 57
}

/// The value of a decimal digit character.
pub open spec fn dec_digit_val(c: char) -> int {
    c as u32 - 48
}

/// Whether every character of the sequence is a decimal digit.
pub open spec fn all_dec_digits(s: Seq<char>) -> bool {
    forall|i: int| 0 <= i < s.len() ==> is_dec_digit(#[trigger] s[i])
}

/// The number that a sequence of decimal digits denotes.
pub open spec fn dec_val(s: Seq<char>) -> int
    decreases s.len(),
{
    if s.len() == 0 {
        0
    } else {
        dec_val(s.drop_last()) * 10 + dec_digit_val(s.last())
    }
}

/// A digit sequence denotes a value no smaller than zero.
pub proof fn lemma_dec_val_nonneg(s: Seq<char>)
    requires
        all_dec_digits(s),
    ensures
        dec_val(s) >= 0,
    decreases s.len(),
{
    if s.len() > 0 {
        assert(all_dec_digits(s.drop_last()));
        lemma_dec_val_nonneg(s.drop_last());
    }
}

/// A prefix of a digit sequence denotes no more than the whole.
pub proof fn lemma_dec_val_prefix(s: Seq<char>, i: int)
    requires
        all_dec_digits(s),
        0 <= i <= s.len(),
    ensures
        dec_val(s.take(i)) <= dec_val(s),
    decreases s.len() - i,
{
    if i == s.len() {
        assert(s.take(i) =~= s);
    } else {
        lemma_dec_val_prefix(s, i + 1);
        assert(s.take(i + 1).drop_last() =~= s.take(i));
        assert(s.take(i + 1).last() == s[i]);
        assert(all_dec_digits(s.take(i)));
        lemma_dec_val_nonneg(s.take(i));
        assert(dec_val(s.take(i)) <= dec_val(s.take(i + 1)));
    }
}

/// The character for a decimal digit value.
pub open spec fn dec_digit_char(d: int) -> char {
    ((d + 48) as u8) as char
}

/// The decimal digits of a number, most significant first.
pub open spec fn dec_digits_of(n: int) -> Seq<char>
    decreases n,
{
    if n < 10 {
        seq![dec_digit_char(n)]
    } else {
        dec_digits_of(n / 10).push(dec_digit_char(n % 10))
    }
}

/// The decimal text of a signed number: a minus sign for negative values,
/// then the digits of its magnitude.
pub open spec fn dec_int_text(v: int) -> Seq<char> {
    if v < 0 {
        seq!['-'] + dec_digits_of(-v)
    } else {
        dec_digits_of(v)
    }
}

/// What parsing a decimal integer yields: an optional sign followed by at
/// least one digit, whose value must fit the signed 64-bit range.
pub open spec fn parse_i64_spec(s: Seq<char>) -> Option<i64> {
    let digits = if s.len() > 0 && (s[0] == '-' || s[0] == '+') {
        s.skip(1)
    } else {
        s
    };
    let negative = s.len() > 0 && s[0] == '-';
    if digits.len() == 0 || !all_dec_digits(digits) {
        None
    } else if negative && -dec_val(digits) >= i64::MIN {
        Some((-dec_val(digits)) as i64)
    } else if !negative && dec_val(digits) <= i64::MAX {
        Some(dec_val(digits) as i64)
    } else {
        None
    }
}

/// Parses a decimal integer: an optional `+` or `-` sign, then one or more
/// digits; rejects anything else and values outside the 64-bit range.
#[verifier::loop_isolation(false)]
pub fn parse_i64(chars: &Vec<char>) -> (r: Option<i64>)
    ensures
        r == parse_i64_spec(chars@),
{
    let n = chars.len();
    let mut start: usize = 0;
    let mut negative = false;
    if n > 0 && (chars[0] == '-' || chars[0] == '+') {
        start = 1;
        negative = chars[0] == '-';
    }
    let ghost digits = if start == 1 {
        chars@.skip(1)
    } else {
        chars@
    };
    if start == n {
        return None;
    }
    let mut acc: u128 = 0;
    let mut i = start;
    while i < n
        invariant
            start <= i <= n,
            n == chars@.len(),
            start == 0 || start == 1,
            start < n,
            digits == chars@.skip(start as int),
            all_dec_digits(digits.take(i - start)),
            acc == dec_val(digits.take(i - start)),
            acc <= 0x8000_0000_0000_0000u128,
        decreases n - i,
    {
        let c = chars[i];
        let u = c as u32;
        if u < 48 || u > 57 {
            proof {
                assert(digits[i - start] == chars@[i as int]);
                assert(!is_dec_digit(digits[i - start]));
            }
            return None;
        }
        let d = (u - 48) as u128;
        proof {
            assert(digits.take(i + 1 - start).drop_last() =~= digits.take(i - start));
            assert(digits.take(i + 1 - start).last() == digits[i - start]);
            assert(digits[i - start] == chars@[i as int]);
        }
        if 10 * acc + d > 0x8000_0000_0000_0000u128 {
            // the value can only grow with further digits, so it cannot fit
            proof {
                lemma_dec_val_nonneg(digits.take(i + 1 - start));
                if all_dec_digits(digits) {
                    lemma_dec_val_prefix(digits, i + 1 - start);
                    assert(dec_val(digits) > 0x8000_0000_0000_0000);
                }
            }
            return None;
        }
        acc = 10 * acc + d;
        i += 1;
    }
    proof {
        assert(digits.take(n - start) =~= digits);
    }
    if negative {
        proof {
            lemma_dec_val_nonneg(digits);
        }
        if acc == 0x8000_0000_0000_0000u128 {
            Some(i64::MIN)
        } else {
            Some(-((acc as i64)))
        }
    } else {
        if acc == 0x8000_0000_0000_0000u128 {
            None
        } else {
            Some(acc as i64)
        }
    }
}

/// Renders a number's magnitude as decimal digit characters, most
/// significant first.
#[verifier::loop_isolation(false)]
fn format_magnitude(m0: u64) -> (r: Vec<char>)
    ensures
        r@ == dec_digits_of(m0 as int),
{
    let mut rev: Vec<char> = Vec::new();
    let mut m = m0;
    while m >= 10
        invariant
            dec_digits_of(m0 as int) =~= dec_digits_of(m as int) + rev@.reverse(),
        decreases m,
    {
        let ghost rev_before = rev@;
        let d = (m % 10) as u8;
        rev.push((d + 48) as char);
        proof {
            assert(rev@.drop_last() =~= rev_before);
        }
        m = m / 10;
    }
    let d = m as u8;
    let mut out: Vec<char> = Vec::new();
    out.push((d + 48) as char);
    proof {
        assert(out@ =~= seq![dec_digit_char(m as int)]);
        assert(out@ =~= dec_digits_of(m as int));
    }
    let rn = rev.len();
    let mut j: usize = 0;
    while j < rn
        invariant
            rn == rev@.len(),
            j <= rn,
            out@ =~= dec_digits_of(m as int) + rev@.reverse().take(j as int),
        decreases rn - j,
    {
        out.push(rev[rn - 1 - j]);
        proof {
            assert(rev@.reverse()[j as int] == rev@[rn - 1 - j]);
            assert(out@ =~= dec_digits_of(m as int) + rev@.reverse().take(j + 1));
        }
        j += 1;
    }
    proof {
        assert(rev@.reverse().take(rn as int) =~= rev@.reverse());
    }
    out
}

/// Renders a signed number as decimal text.
#[verifier::loop_isolation(false)]
pub fn i64_to_string(v: i64) -> (r: String)
    ensures
        r@ == dec_int_text(v as int),
{
    let m: u64 = if v >= 0 {
        v as u64
    } else {
        (-(v as i128)) as u64
    };
    let digits = format_magnitude(m);
    if v < 0 {
        let mut chars: Vec<char> = Vec::new();
        chars.push('-');
        let dn = digits.len();
        let mut i: usize = 0;
        while i < dn
            invariant
                dn == digits@.len(),
                i <= dn,
                chars@ =~= seq!['-'] + digits@.take(i as int),
            decreases dn - i,
        {
            chars.push(digits[i]);
            proof {
                assert(chars@ =~= seq!['-'] + digits@.take(i + 1));
            }
            i += 1;
        }
        proof {
            assert(digits@.take(dn as int) =~= digits@);
        }
        string_from_chars(&chars)
    } else {
        string_from_chars(&digits)
    }
}

/// Renders a boolean as `true` or `false`.
pub fn bool_text(b: bool) -> (r: String)
    ensures
        r@ == if b {
            "true"@
        } else {
            "false"@
        },
{
    if b {
        "true".to_owned()
    } else {
        "false".to_owned()
    }
}

/// The character with uppercase ASCII letters lowered.
pub open spec fn ascii_lower_char(c: char) -> char {
    if 65 <= c as u32 && c as u32 <= 90 {
        ((c as u32 + 32) as u8) as char
    } else {
        c
    }
}

/// The character with lowercase ASCII letters raised.
pub open spec fn ascii_upper_char(c: char) -> char {
    if 97 <= c as u32 && c as u32 <= 122 {
        ((c as u32 - 32) as u8) as char
    } else {
        c
    }
}

/// Lowers the uppercase ASCII letters of a character sequence.
pub open spec fn ascii_lower(s: Seq<char>) -> Seq<char> {
    s.map_values(|c: char| ascii_lower_char(c))
}

/// Lowercases ASCII letters in the given characters.
#[verifier::loop_isolation(false)]
pub fn to_ascii_lower(chars: &Vec<char>) -> (r: Vec<char>)
    ensures
        r@ == ascii_lower(chars@),
{
    let n = chars.len();
    let mut out: Vec<char> = Vec::new();
    let mut i: usize = 0;
    while i < n
        invariant
            n == chars@.len(),
            i <= n,
            out@ =~= ascii_lower(chars@).take(i as int),
        decreases n - i,
    {
        let c = chars[i];
        let u = c as u32;
        if 65 <= u && u <= 90 {
            out.push(((u + 32) as u8) as char);
        } else {
            out.push(c);
        }
        proof {
            assert(out@ =~= ascii_lower(chars@).take(i + 1));
        }
        i += 1;
    }
    proof {
        assert(ascii_lower(chars@).take(n as int) =~= ascii_lower(chars@));
    }
    out
}

/// The texts of a list of key-value string pairs.
pub open spec fn kv_view(s: Seq<(String, String)>) -> Seq<(Seq<char>, Seq<char>)>
    decreases s,
{
    if s.len() == 0 {
        Seq::empty()
    } else {
        kv_view(s.drop_last()).push((s.last().0@, s.last().1@))
    }
}

/// The texts of a pair list are its pairs' texts, elementwise.
pub proof fn lemma_kv_view_index(s: Seq<(String, String)>)
    ensures
        kv_view(s).len() == s.len(),
        forall|i: int|
            0 <= i < s.len() ==> kv_view(s)[i] == ((#[trigger] s[i]).0@, s[i].1@),
    decreases s.len(),
{
    if s.len() > 0 {
        lemma_kv_view_index(s.drop_last());
        assert forall|i: int|
            0 <= i < s.len() implies kv_view(s)[i] == ((#[trigger] s[i]).0@, s[i].1@) by {
            if i < s.len() - 1 {
                assert(s.drop_last()[i] == s[i]);
                assert(kv_view(s)[i] == kv_view(s.drop_last())[i]);
            } else {
                assert(s[i] == s.last());
            }
        }
    }
}

/// The texts of a concatenation are the concatenated texts.
pub proof fn lemma_kv_view_concat(a: Seq<(String, String)>, b: Seq<(String, String)>)
    ensures
        kv_view(a + b) == kv_view(a) + kv_view(b),
    decreases b.len(),
{
    if b.len() == 0 {
        assert(a + b =~= a);
        assert(kv_view(a) + kv_view(b) =~= kv_view(a));
    } else {
        lemma_kv_view_concat(a, b.drop_last());
        assert((a + b).drop_last() =~= a + b.drop_last());
        assert((a + b).last() == b.last());
        assert(kv_view(a + b) =~= kv_view(a) + kv_view(b));
    }
}

/// The value under a key in a pair list, where a later entry wins over an
/// earlier one.
pub open spec fn kv_lookup(pairs: Seq<(Seq<char>, Seq<char>)>, key: Seq<char>) -> Option<
    Seq<char>,
>
    decreases pairs.len(),
{
    if pairs.len() == 0 {
        None
    } else if pairs.last().0 == key {
        Some(pairs.last().1)
    } else {
        kv_lookup(pairs.drop_last(), key)
    }
}

/// Looks a key up in a pair list; the latest entry for the key wins.
#[verifier::loop_isolation(false)]
pub fn kv_get(pairs: &Vec<(String, String)>, key: &str) -> (r: Option<String>)
    ensures
        match r {
            Some(s) => kv_lookup(kv_view(pairs@), key@) == Some(s@),
            None => kv_lookup(kv_view(pairs@), key@) is None,
        },
{
    proof {
        lemma_kv_view_index(pairs@);
    }
    let key_owned = key.to_owned();
    let n = pairs.len();
    proof {
        assert(kv_view(pairs@).take(n as int) =~= kv_view(pairs@));
    }
    let mut i: usize = n;
    while i > 0
        invariant
            i <= n,
            key_owned@ == key@,
            kv_lookup(kv_view(pairs@), key@) == kv_lookup(
                kv_view(pairs@).take(i as int),
                key@,
            ),
        decreases i,
    {
        i -= 1;
        proof {
            assert(kv_view(pairs@).take(i + 1).drop_last() =~= kv_view(pairs@).take(i as int));
            assert(kv_view(pairs@).take(i + 1).last() == kv_view(pairs@)[i as int]);
        }
        if pairs[i].0 == key_owned {
            return Some(pairs[i].1.clone());
        }
    }
    proof {
        assert(kv_view(pairs@).take(0) =~= Seq::<(Seq<char>, Seq<char>)>::empty());
    }
    None
}

} // verus!
