//! A verified parser for line-oriented properties text.
//!
//! Blank lines and lines beginning with `#` or `!` are ignored; on every
//! other line the first `=` or `:` splits the key from the value, both
//! sides are trimmed, and the value's escape sequences `\n`, `\t`, `\r`
//! and `\\` are unescaped in one pass.

use vstd::prelude::*;
use crate::strutil::{chars_of, kv_view, string_from_chars};

verus! {

/// Whether the character is blank space a property line is trimmed of.
pub open spec fn is_ws(c: char) -> bool {
    c == ' ' || c == '\t' || c == '\r' || c == '\n'
}

/// Whether the character separates a key from a value.
pub open spec fn is_sep(c: char) -> bool {
    c == '=' || c == ':'
}

/// How many blank characters the sequence begins with.
pub open spec fn ws_prefix_len(s: Seq<char>) -> int
    decreases s.len(),
{
    if s.len() > 0 && is_ws(s[0]) {
        1 + ws_prefix_len(s.drop_first())
    } else {
        0
    }
}

/// How many blank characters the sequence ends with.
pub open spec fn ws_suffix_len(s: Seq<char>) -> int
    decreases s.len(),
{
    if s.len() > 0 && is_ws(s.last()) {
        1 + ws_suffix_len(s.drop_last())
    } else {
        0
    }
}

/// The sequence with leading and trailing blank space removed.
pub open spec fn trim_spec(s: Seq<char>) -> Seq<char> {
    let rest = s.skip(ws_prefix_len(s));
    rest.take(rest.len() - ws_suffix_len(rest))
}

/// The number of leading blanks is the position of the first non-blank.
proof fn lemma_ws_prefix_char(s: Seq<char>, k: int)
    requires
        0 <= k <= s.len(),
        forall|i: int| 0 <= i < k ==> is_ws(#[trigger] s[i]),
        k == s.len() || !is_ws(s[k]),
    ensures
        ws_prefix_len(s) == k,
    decreases k,
{
    if k == 0 {
    } else {
        assert(is_ws(s[0]));
        let rest = s.drop_first();
        assert(forall|i: int| 0 <= i < k - 1 ==> is_ws(#[trigger] rest[i]));
        assert(k - 1 == rest.len() || !is_ws(rest[k - 1]));
        lemma_ws_prefix_char(rest, k - 1);
    }
}

/// The number of trailing blanks is the distance from the last non-blank.
proof fn lemma_ws_suffix_char(s: Seq<char>, m: int)
    requires
        0 <= m <= s.len(),
        forall|j: int| m <= j < s.len() ==> is_ws(#[trigger] s[j]),
        m == 0 || !is_ws(s[m - 1]),
    ensures
        ws_suffix_len(s) == s.len() - m,
    decreases s.len() - m,
{
    if m == s.len() {
    } else {
        assert(is_ws(s.last()));
        let rest = s.drop_last();
        assert(forall|j: int| m <= j < rest.len() ==> is_ws(#[trigger] rest[j]));
        lemma_ws_suffix_char(rest, m);
    }
}

/// Copies a range of characters.
#[verifier::loop_isolation(false)]
pub fn sub_chars(v: &Vec<char>, a: usize, b: usize) -> (r: Vec<char>)
    requires
        a <= b <= v@.len(),
    ensures
        r@ == v@.subrange(a as int, b as int),
{
    let mut out: Vec<char> = Vec::new();
    let mut i = a;
    while i < b
        invariant
            a <= i <= b,
            out@ =~= v@.subrange(a as int, i as int),
        decreases b - i,
    {
        out.push(v[i]);
        proof {
            assert(out@ =~= v@.subrange(a as int, i + 1));
        }
        i += 1;
    }
    out
}

/// Trims leading and trailing blank space from the characters.
#[verifier::loop_isolation(false)]
pub fn trim_chars(v: &Vec<char>) -> (r: Vec<char>)
    ensures
        r@ == trim_spec(v@),
{
    let n = v.len();
    let mut lo: usize = 0;
    while lo < n && (v[lo] == ' ' || v[lo] == '\t' || v[lo] == '\r' || v[lo] == '\n')
        invariant
            lo <= n,
            forall|i: int| 0 <= i < lo ==> is_ws(#[trigger] v@[i]),
        decreases n - lo,
    {
        lo += 1;
    }
    proof {
        lemma_ws_prefix_char(v@, lo as int);
    }
    let mut hi: usize = n;
    while hi > lo && (v[hi - 1] == ' ' || v[hi - 1] == '\t' || v[hi - 1] == '\r' || v[hi - 1]
        == '\n')
        invariant
            lo <= hi <= n,
            forall|j: int| hi <= j < n ==> is_ws(#[trigger] v@[j]),
        decreases hi,
    {
        hi -= 1;
    }
    proof {
        let rest = v@.skip(lo as int);
        assert(forall|j: int|
            hi - lo <= j < rest.len() ==> is_ws(#[trigger] rest[j]));
        if hi > lo {
            assert(!is_ws(rest[hi - lo - 1]));
        }
        lemma_ws_suffix_char(rest, hi - lo);
        assert(rest.take(rest.len() - ws_suffix_len(rest)) =~= v@.subrange(lo as int, hi as int));
    }
    sub_chars(v, lo, hi)
}

/// The character an escape code denotes.
pub open spec fn esc_char(c: char) -> char {
    if c == 'n' {
        '\n'
    } else if c == 't' {
        '\t'
    } else if c == 'r' {
        '\r'
    } else {
        c
    }
}

/// Whether a character forms an escape sequence after a backslash.
pub open spec fn is_escapable(c: char) -> bool {
    c == 'n' || c == 't' || c == 'r' || c == '\\'
}

/// The text with its escape sequences unescaped in one left-to-right pass;
/// a backslash before any other character is kept as it stands.
pub open spec fn unescape_spec(s: Seq<char>) -> Seq<char>
    decreases s.len(),
{
    if s.len() == 0 {
        Seq::empty()
    } else if s[0] == '\\' && s.len() >= 2 && is_escapable(s[1]) {
        seq![esc_char(s[1])] + unescape_spec(s.skip(2))
    } else {
        seq![s[0]] + unescape_spec(s.skip(1))
    }
}

/// Unescapes `\n`, `\t`, `\r` and `\\` in the characters, left to right.
#[verifier::loop_isolation(false)]
pub fn unescape_chars(v: &Vec<char>) -> (r: Vec<char>)
    ensures
        r@ == unescape_spec(v@),
{
    let n = v.len();
    let mut out: Vec<char> = Vec::new();
    let mut i: usize = 0;
    proof {
        assert(v@.skip(0) =~= v@);
    }
    while i < n
        invariant
            i <= n,
            unescape_spec(v@) == out@ + unescape_spec(v@.skip(i as int)),
        decreases n - i,
    {
        let ghost rem = v@.skip(i as int);
        proof {
            assert(rem[0] == v@[i as int]);
        }
        if v[i] == '\\' && i + 1 < n && (v[i + 1] == 'n' || v[i + 1] == 't' || v[i + 1] == 'r'
            || v[i + 1] == '\\') {
            proof {
                assert(rem[1] == v@[i + 1]);
                assert(rem.skip(2) =~= v@.skip(i + 2));
            }
            let c = v[i + 1];
            if c == 'n' {
                out.push('\n');
            } else if c == 't' {
                out.push('\t');
            } else if c == 'r' {
                out.push('\r');
            } else {
                out.push('\\');
            }
            proof {
                assert(out@ + unescape_spec(v@.skip(i + 2)) =~= unescape_spec(v@));
            }
            i += 2;
        } else {
            proof {
                if rem.len() >= 2 {
                    assert(rem[1] == v@[i + 1]);
                }
                assert(rem.skip(1) =~= v@.skip(i + 1));
            }
            out.push(v[i]);
            proof {
                assert(out@ + unescape_spec(v@.skip(i + 1)) =~= unescape_spec(v@));
            }
            i += 1;
        }
    }
    proof {
        assert(v@.skip(n as int) =~= Seq::<char>::empty());
        assert(out@ =~= unescape_spec(v@));
    }
    out
}

/// The position of the first key-value separator at or after `i`, if any.
pub open spec fn find_sep_from(s: Seq<char>, i: int) -> Option<int>
    decreases s.len() - i,
{
    if i < 0 || i >= s.len() {
        None
    } else if is_sep(s[i]) {
        Some(i)
    } else {
        find_sep_from(s, i + 1)
    }
}

/// The position of the first line break at or after `i`, or the length.
pub open spec fn find_nl_from(s: Seq<char>, i: int) -> int
    decreases s.len() - i,
{
    if i < 0 || i >= s.len() {
        s.len() as int
    } else if s[i] == '\n' {
        i
    } else {
        find_nl_from(s, i + 1)
    }
}

/// The entry one line contributes: nothing for a blank line, a comment
/// line, or a line without a separator; otherwise the trimmed key before
/// the first separator and the trimmed, unescaped value after it.
pub open spec fn prop_of_line(line: Seq<char>) -> Option<(Seq<char>, Seq<char>)> {
    let t = trim_spec(line);
    if t.len() == 0 || t[0] == '#' || t[0] == '!' {
        None
    } else {
        match find_sep_from(t, 0) {
            Some(p) => Some(
                (trim_spec(t.take(p)), unescape_spec(trim_spec(t.skip(p + 1)))),
            ),
            None => None,
        }
    }
}

/// The entries of a properties text, line by line, in order.
pub open spec fn props_of(s: Seq<char>) -> Seq<(Seq<char>, Seq<char>)>
    decreases s.len(),
{
    if s.len() == 0 {
        Seq::empty()
    } else {
        let k = find_nl_from(s, 0);
        let line = s.take(k);
        let rest = if 0 <= k && k < s.len() {
            s.skip(k + 1)
        } else {
            Seq::empty()
        };
        (match prop_of_line(line) {
            Some(e) => seq![e],
            None => Seq::empty(),
        }) + props_of(rest)
    }
}

/// Parses one line's characters into its entry, if it has one.
#[verifier::loop_isolation(false)]
fn parse_line(line: &Vec<char>) -> (r: Option<(String, String)>)
    ensures
        match r {
            Some(e) => prop_of_line(line@) matches Some(p) && p.0 == e.0@ && p.1 == e.1@,
            None => prop_of_line(line@) is None,
        },
{
    let t = trim_chars(line);
    let tn = t.len();
    if tn == 0 || t[0] == '#' || t[0] == '!' {
        return None;
    }
    let mut p: usize = 0;
    while p < tn && t[p] != '=' && t[p] != ':'
        invariant
            p <= tn,
            tn == t@.len(),
            find_sep_from(t@, 0) == find_sep_from(t@, p as int),
        decreases tn - p,
    {
        p += 1;
    }
    if p == tn {
        return None;
    }
    let key_chars = sub_chars(&t, 0, p);
    let key_trimmed = trim_chars(&key_chars);
    let val_chars = sub_chars(&t, p + 1, tn);
    let val_trimmed = trim_chars(&val_chars);
    let val_unescaped = unescape_chars(&val_trimmed);
    proof {
        assert(t@.subrange(0, p as int) =~= t@.take(p as int));
        assert(t@.subrange(p + 1, tn as int) =~= t@.skip(p + 1));
    }
    Some((string_from_chars(&key_trimmed), string_from_chars(&val_unescaped)))
}

/// Parses properties text into its entries, in line order.
#[verifier::loop_isolation(false)]
pub fn parse_properties(content: &str) -> (r: Vec<(String, String)>)
    ensures
        kv_view(r@) == props_of(content@),
{
    let cs = chars_of(content);
    let n = cs.len();
    let mut out: Vec<(String, String)> = Vec::new();
    let mut pos: usize = 0;
    proof {
        assert(cs@.skip(0) =~= cs@);
        assert(kv_view(out@) =~= Seq::<(Seq<char>, Seq<char>)>::empty());
    }
    while pos < n
        invariant
            pos <= n,
            n == cs@.len(),
            cs@ == content@,
            props_of(content@) == kv_view(out@) + props_of(cs@.skip(pos as int)),
        decreases n - pos,
    {
        let ghost rem = cs@.skip(pos as int);
        let mut k = pos;
        while k < n && cs[k] != '\n'
            invariant
                pos <= k <= n,
                forall|j: int| pos <= j < k ==> cs@[j] != '\n',
            decreases n - k,
        {
            k += 1;
        }
        proof {
            // the local scan finds the first line break of the remainder
            assert forall|j: int| 0 <= j < k - pos implies rem[j] != '\n' by {
                assert(rem[j] == cs@[pos + j]);
            }
            lemma_find_nl(rem, k - pos);
        }
        let line = sub_chars(&cs, pos, k);
        proof {
            assert(line@ =~= rem.take(k - pos));
        }
        let entry = parse_line(&line);
        let ghost before = out@;
        match entry {
            Some(e) => {
                out.push(e);
                proof {
                    assert(out@.drop_last() =~= before);
                }
            },
            None => {},
        }
        if k == n {
            proof {
                assert(rem.take(k - pos) =~= rem);
                assert(kv_view(out@) + props_of(Seq::<char>::empty()) =~= kv_view(out@));
                assert(props_of(content@) == kv_view(out@) + props_of(
                    Seq::<char>::empty(),
                ));
            }
            pos = n;
        } else {
            proof {
                assert(rem[k - pos] == cs@[k as int]);
                assert(rem.skip(k - pos + 1) =~= cs@.skip(k + 1));
            }
            pos = k + 1;
        }
    }
    proof {
        assert(cs@.skip(n as int) =~= Seq::<char>::empty());
    }
    out
}

/// A scan that passes no line break and stops at one, or at the end,
/// finds the first line break position.
proof fn lemma_find_nl(s: Seq<char>, k: int)
    requires
        0 <= k <= s.len(),
        forall|j: int| 0 <= j < k ==> s[j] != '\n',
        k == s.len() || s[k] == '\n',
    ensures
        find_nl_from(s, 0) == k,
{
    lemma_find_nl_from(s, 0, k);
}

/// The same scan property, from any starting point.
proof fn lemma_find_nl_from(s: Seq<char>, i: int, k: int)
    requires
        0 <= i <= k <= s.len(),
        forall|j: int| i <= j < k ==> s[j] != '\n',
        k == s.len() || s[k] == '\n',
    ensures
        find_nl_from(s, i) == k,
    decreases k - i,
{
    if i < k {
        lemma_find_nl_from(s, i + 1, k);
    }
}

} // verus!
