//! Character-level helpers shared by the whole crate: whitespace and digit
//! classification, ASCII case folding, scanning, and conversions between
//! `String` and `Vec<char>`.

use vstd::prelude::*;

verus! {

/// The characters Rust's `char::is_whitespace` accepts (the Unicode
/// `White_Space` property).
pub open spec fn is_ws_char(c: char) -> bool {
    ||| c == ' '
    ||| c == '\t'
    ||| c == '\n'
    ||| c == '\r'
    ||| c == '\u{b}'
    ||| c == '\u{c}'
    ||| c == '\u{85}'
    ||| c == '\u{a0}'
    ||| c == '\u{1680}'
    ||| (c as u32 >= 0x2000 && c as u32 <= 0x200a)
    ||| c == '\u{2028}'
    ||| c == '\u{2029}'
    ||| c == '\u{202f}'
    ||| c == '\u{205f}'
    ||| c == '\u{3000}'
}

pub fn ws_char(c: char) -> (r: bool)
    ensures
        r == is_ws_char(c),
{
    c == ' ' || c == '\t' || c == '\n' || c == '\r' || c == '\u{b}' || c == '\u{c}'
        || c == '\u{85}' || c == '\u{a0}' || c == '\u{1680}' || (c as u32 >= 0x2000 && c as u32
        <= 0x200a) || c == '\u{2028}' || c == '\u{2029}' || c == '\u{202f}' || c == '\u{205f}' || c
        == '\u{3000}'
}

pub open spec fn is_digit_char(c: char) -> bool {
    c as u32 >= 0x30 && c as u32 <= 0x39
}

pub fn digit_char(c: char) -> (r: bool)
    ensures
        r == is_digit_char(c),
{
    c as u32 >= 0x30 && c as u32 <= 0x39
}

/// ASCII upper-casing of a single character; other characters are unchanged.
pub open spec fn upper_char(c: char) -> char {
    if c == 'a' {
        'A'
    } else if c == 'b' {
        'B'
    } else if c == 'c' {
        'C'
    } else if c == 'd' {
        'D'
    } else if c == 'e' {
        'E'
    } else if c == 'f' {
        'F'
    } else if c == 'g' {
        'G'
    } else if c == 'h' {
        'H'
    } else if c == 'i' {
        'I'
    } else if c == 'j' {
        'J'
    } else if c == 'k' {
        'K'
    } else if c == 'l' {
        'L'
    } else if c == 'm' {
        'M'
    } else if c == 'n' {
        'N'
    } else if c == 'o' {
        'O'
    } else if c == 'p' {
        'P'
    } else if c == 'q' {
        'Q'
    } else if c == 'r' {
        'R'
    } else if c == 's' {
        'S'
    } else if c == 't' {
        'T'
    } else if c == 'u' {
        'U'
    } else if c == 'v' {
        'V'
    } else if c == 'w' {
        'W'
    } else if c == 'x' {
        'X'
    } else if c == 'y' {
        'Y'
    } else if c == 'z' {
        'Z'
    } else {
        c
    }
}

/// ASCII lower-casing of a single character; other characters are unchanged.
pub open spec fn lower_char(c: char) -> char {
    if c == 'A' {
        'a'
    } else if c == 'B' {
        'b'
    } else if c == 'C' {
        'c'
    } else if c == 'D' {
        'd'
    } else if c == 'E' {
        'e'
    } else if c == 'F' {
        'f'
    } else if c == 'G' {
        'g'
    } else if c == 'H' {
        'h'
    } else if c == 'I' {
        'i'
    } else if c == 'J' {
        'j'
    } else if c == 'K' {
        'k'
    } else if c == 'L' {
        'l'
    } else if c == 'M' {
        'm'
    } else if c == 'N' {
        'n'
    } else if c == 'O' {
        'o'
    } else if c == 'P' {
        'p'
    } else if c == 'Q' {
        'q'
    } else if c == 'R' {
        'r'
    } else if c == 'S' {
        's'
    } else if c == 'T' {
        't'
    } else if c == 'U' {
        'u'
    } else if c == 'V' {
        'v'
    } else if c == 'W' {
        'w'
    } else if c == 'X' {
        'x'
    } else if c == 'Y' {
        'y'
    } else if c == 'Z' {
        'z'
    } else {
        c
    }
}

pub fn to_upper_char(c: char) -> (r: char)
    ensures
        r == upper_char(c),
{
    match c {
        'a' => 'A',
        'b' => 'B',
        'c' => 'C',
        'd' => 'D',
        'e' => 'E',
        'f' => 'F',
        'g' => 'G',
        'h' => 'H',
        'i' => 'I',
        'j' => 'J',
        'k' => 'K',
        'l' => 'L',
        'm' => 'M',
        'n' => 'N',
        'o' => 'O',
        'p' => 'P',
        'q' => 'Q',
        'r' => 'R',
        's' => 'S',
        't' => 'T',
        'u' => 'U',
        'v' => 'V',
        'w' => 'W',
        'x' => 'X',
        'y' => 'Y',
        'z' => 'Z',
        _ => c,
    }
}

pub fn to_lower_char(c: char) -> (r: char)
    ensures
        r == lower_char(c),
{
    match c {
        'A' => 'a',
        'B' => 'b',
        'C' => 'c',
        'D' => 'd',
        'E' => 'e',
        'F' => 'f',
        'G' => 'g',
        'H' => 'h',
        'I' => 'i',
        'J' => 'j',
        'K' => 'k',
        'L' => 'l',
        'M' => 'm',
        'N' => 'n',
        'O' => 'o',
        'P' => 'p',
        'Q' => 'q',
        'R' => 'r',
        'S' => 's',
        'T' => 't',
        'U' => 'u',
        'V' => 'v',
        'W' => 'w',
        'X' => 'x',
        'Y' => 'y',
        'Z' => 'z',
        _ => c,
    }
}

pub open spec fn upper_seq(s: Seq<char>) -> Seq<char> {
    s.map_values(|c: char| upper_char(c))
}

pub open spec fn lower_seq(s: Seq<char>) -> Seq<char> {
    s.map_values(|c: char| lower_char(c))
}

/// Length of the longest prefix of `s` whose characters all satisfy `p`.
pub open spec fn take_while_len(s: Seq<char>, p: spec_fn(char) -> bool) -> int
    decreases s.len(),
{
    if s.len() == 0 || !p(s[0]) {
        0
    } else {
        1 + take_while_len(s.drop_first(), p)
    }
}

/// Length of the longest suffix of `s` whose characters all satisfy `p`.
pub open spec fn rtake_while_len(s: Seq<char>, p: spec_fn(char) -> bool) -> int
    decreases s.len(),
{
    if s.len() == 0 || !p(s.last()) {
        0
    } else {
        1 + rtake_while_len(s.drop_last(), p)
    }
}

pub proof fn lemma_take_while_len(s: Seq<char>, p: spec_fn(char) -> bool)
    ensures
        0 <= take_while_len(s, p) <= s.len(),
        forall|j: int| 0 <= j < take_while_len(s, p) ==> p(s[j]),
        take_while_len(s, p) < s.len() ==> !p(s[take_while_len(s, p)]),
    decreases s.len(),
{
    if s.len() == 0 || !p(s[0]) {
    } else {
        lemma_take_while_len(s.drop_first(), p);
        assert forall|j: int| 0 <= j < take_while_len(s, p) implies p(s[j]) by {
            if j > 0 {
                assert(p(s.drop_first()[j - 1]));
            }
        }
    }
}

/// Pins `take_while_len` down from a pointwise description of the prefix.
pub proof fn lemma_take_while_len_at(s: Seq<char>, p: spec_fn(char) -> bool, i: int)
    requires
        0 <= i <= s.len(),
        forall|j: int| 0 <= j < i ==> p(s[j]),
        i < s.len() ==> !p(s[i]),
    ensures
        take_while_len(s, p) == i,
    decreases s.len(),
{
    if i == 0 {
    } else {
        assert(p(s[0]));
        lemma_take_while_len_at(s.drop_first(), p, i - 1);
    }
}

pub proof fn lemma_rtake_while_len(s: Seq<char>, p: spec_fn(char) -> bool)
    ensures
        0 <= rtake_while_len(s, p) <= s.len(),
        forall|j: int| s.len() - rtake_while_len(s, p) <= j < s.len() ==> p(s[j]),
        rtake_while_len(s, p) < s.len() ==> !p(s[s.len() - rtake_while_len(s, p) - 1]),
    decreases s.len(),
{
    if s.len() == 0 || !p(s.last()) {
    } else {
        lemma_rtake_while_len(s.drop_last(), p);
        assert forall|j: int| s.len() - rtake_while_len(s, p) <= j < s.len() implies p(s[j]) by {
            if j < s.len() - 1 {
                assert(p(s.drop_last()[j]));
            }
        }
    }
}

/// Pins `rtake_while_len` down from a pointwise description of the suffix.
pub proof fn lemma_rtake_while_len_at(s: Seq<char>, p: spec_fn(char) -> bool, i: int)
    requires
        0 <= i <= s.len(),
        forall|j: int| s.len() - i <= j < s.len() ==> p(s[j]),
        i < s.len() ==> !p(s[s.len() - i - 1]),
    ensures
        rtake_while_len(s, p) == i,
    decreases s.len(),
{
    if i == 0 {
    } else {
        assert(p(s.last()));
        assert(forall|j: int| s.drop_last().len() - (i - 1) <= j < s.drop_last().len()
            ==> p(s.drop_last()[j]));
        lemma_rtake_while_len_at(s.drop_last(), p, i - 1);
    }
}

/// Number of whitespace characters at the start of `s`.
pub open spec fn ws_prefix_len(s: Seq<char>) -> int {
    take_while_len(s, |c: char| is_ws_char(c))
}

/// Number of whitespace characters at the end of `s`.
pub open spec fn ws_suffix_len(s: Seq<char>) -> int {
    rtake_while_len(s, |c: char| is_ws_char(c))
}

/// `s` with its leading whitespace removed.
pub open spec fn trim_start_spec(s: Seq<char>) -> Seq<char> {
    s.skip(ws_prefix_len(s))
}

/// `s` with its trailing whitespace removed.
pub open spec fn trim_end_spec(s: Seq<char>) -> Seq<char> {
    s.take(s.len() - ws_suffix_len(s))
}

/// `s` with leading and trailing whitespace removed.
pub open spec fn trim_spec(s: Seq<char>) -> Seq<char> {
    trim_end_spec(trim_start_spec(s))
}

pub fn trim_start_chars(v: &Vec<char>) -> (r: Vec<char>)
    ensures
        r@ == trim_start_spec(v@),
{
    let n = v.len();
    let mut i: usize = 0;
    while i < n && ws_char(v[i])
        invariant
            n == v@.len(),
            i <= n,
            forall|j: int| 0 <= j < i ==> is_ws_char(v@[j]),
        decreases n - i,
    {
        i += 1;
    }
    proof {
        lemma_take_while_len_at(v@, |c: char| is_ws_char(c), i as int);
    }
    subvec(v, i, n)
}

pub fn trim_end_chars(v: &Vec<char>) -> (r: Vec<char>)
    ensures
        r@ == trim_end_spec(v@),
{
    let n = v.len();
    let mut j: usize = n;
    while j > 0 && ws_char(v[j - 1])
        invariant
            n == v@.len(),
            j <= n,
            forall|k: int| j <= k < n ==> is_ws_char(v@[k]),
        decreases j,
    {
        j -= 1;
    }
    proof {
        lemma_rtake_while_len_at(v@, |c: char| is_ws_char(c), n - j);
    }
    subvec(v, 0, j)
}

pub fn trim_chars(v: &Vec<char>) -> (r: Vec<char>)
    ensures
        r@ == trim_spec(v@),
{
    let t = trim_start_chars(v);
    trim_end_chars(&t)
}

/// Converts a string to the vector of its characters.
pub fn chars_of(s: &str) -> (r: Vec<char>)
    ensures
        r@ == s@,
{
    let n = s.unicode_len();
    let mut r: Vec<char> = Vec::new();
    let mut i: usize = 0;
    while i < n
        invariant
            n == s@.len(),
            i <= n,
            r@ == s@.take(i as int),
        decreases n - i,
    {
        r.push(s.get_char(i));
        i += 1;
        assert(r@ =~= s@.take(i as int));
    }
    assert(r@ =~= s@);
    r
}

/// Builds the string whose characters are exactly `v`.
///
/// Relies on `String`'s `FromIterator<char>` implementation: collecting an
/// iterator of characters yields the string of those characters in order.
#[verifier::external_body]
pub fn string_of(v: &Vec<char>) -> (r: String)
    ensures
        r@ == v@,
{
    v.iter().collect()
}

/// Copies `v[from..to]` into a fresh vector.
pub fn subvec(v: &Vec<char>, from: usize, to: usize) -> (r: Vec<char>)
    requires
        from <= to <= v@.len(),
    ensures
        r@ == v@.subrange(from as int, to as int),
{
    let mut r: Vec<char> = Vec::new();
    let mut i: usize = from;
    while i < to
        invariant
            from <= i <= to <= v@.len(),
            r@ == v@.subrange(from as int, i as int),
        decreases to - i,
    {
        r.push(v[i]);
        i += 1;
        assert(r@ =~= v@.subrange(from as int, i as int));
    }
    r
}

/// Appends all characters of `src` to `dst`.
pub fn append_chars(dst: &mut Vec<char>, src: &Vec<char>)
    ensures
        final(dst)@ == old(dst)@ + src@,
{
    let mut i: usize = 0;
    while i < src.len()
        invariant
            i <= src@.len(),
            dst@ == old(dst)@ + src@.take(i as int),
        decreases src@.len() - i,
    {
        dst.push(src[i]);
        i += 1;
        assert(dst@ =~= old(dst)@ + src@.take(i as int));
    }
    assert(dst@ =~= old(dst)@ + src@);
}

/// Decides equality of two strings by comparing their characters.
pub fn str_eq_str(a: &str, b: &str) -> (r: bool)
    ensures
        r == (a@ == b@),
{
    let na = a.unicode_len();
    let nb = b.unicode_len();
    if na != nb {
        assert(a@ != b@) by {
            assert(a@.len() != b@.len());
        }
        false
    } else {
        let mut i: usize = 0;
        let mut eq: bool = true;
        while i < na
            invariant
                na == a@.len(),
                na == b@.len(),
                i <= na,
                eq ==> a@.take(i as int) == b@.take(i as int),
                !eq ==> a@ != b@,
            decreases na - i,
        {
            let ca = a.get_char(i);
            let cb = b.get_char(i);
            if ca != cb {
                assert(a@[i as int] != b@[i as int]);
                eq = false;
                i = na;
            } else {
                proof {
                    if eq {
                        assert(a@.take(i + 1) =~= a@.take(i as int).push(a@[i as int]));
                        assert(b@.take(i + 1) =~= b@.take(i as int).push(b@[i as int]));
                    }
                }
                i += 1;
            }
        }
        if eq {
            assert(a@ =~= b@) by {
                assert(a@.take(na as int) == b@.take(na as int));
                assert(a@.take(na as int) =~= a@);
                assert(b@.take(na as int) =~= b@);
            }
        }
        eq
    }
}

/// Decides whether the characters of `a` and the string `b` are equal up to
/// ASCII case.
pub fn eq_ignore_ascii_case_str(a: &str, b: &str) -> (r: bool)
    ensures
        r == (upper_seq(a@) == upper_seq(b@)),
{
    let na = a.unicode_len();
    let nb = b.unicode_len();
    if na != nb {
        assert(upper_seq(a@) != upper_seq(b@)) by {
            assert(upper_seq(a@).len() != upper_seq(b@).len());
        }
        false
    } else {
        let mut i: usize = 0;
        let mut eq: bool = true;
        while i < na
            invariant
                na == a@.len(),
                na == b@.len(),
                i <= na,
                eq ==> upper_seq(a@).take(i as int) == upper_seq(b@).take(i as int),
                !eq ==> upper_seq(a@) != upper_seq(b@),
            decreases na - i,
        {
            let ca = to_upper_char(a.get_char(i));
            let cb = to_upper_char(b.get_char(i));
            if ca != cb {
                assert(upper_seq(a@)[i as int] != upper_seq(b@)[i as int]);
                eq = false;
                i = na;
            } else {
                proof {
                    if eq {
                        assert(upper_seq(a@).take(i + 1) =~= upper_seq(a@).take(i as int).push(
                            upper_seq(a@)[i as int],
                        ));
                        assert(upper_seq(b@).take(i + 1) =~= upper_seq(b@).take(i as int).push(
                            upper_seq(b@)[i as int],
                        ));
                    }
                }
                i += 1;
            }
        }
        if eq {
            assert(upper_seq(a@) =~= upper_seq(b@)) by {
                assert(upper_seq(a@).take(na as int) == upper_seq(b@).take(na as int));
                assert(upper_seq(a@).take(na as int) =~= upper_seq(a@));
                assert(upper_seq(b@).take(na as int) =~= upper_seq(b@));
            }
        }
        eq
    }
}

} // verus!

verus! {

/// Whether `n` occurs as a contiguous subsequence of `h`.
pub open spec fn contains_seq(h: Seq<char>, n: Seq<char>) -> bool {
    exists|i: int| 0 <= i <= h.len() - n.len() && #[trigger] h.subrange(i, i + n.len()) == n
}

/// Decides whether `needle` occurs contiguously inside `h`.
#[verifier::loop_isolation(false)]
pub fn contains_chars(h: &Vec<char>, needle: &Vec<char>) -> (r: bool)
    ensures
        r == contains_seq(h@, needle@),
{
    let hn = h.len();
    let nn = needle.len();
    if nn > hn {
        return false;
    }
    if nn == 0 {
        proof {
            assert(h@.subrange(0, 0 + needle@.len() as int) =~= needle@);
        }
        return true;
    }
    let mut i: usize = 0;
    while i <= hn - nn
        invariant
            forall|k: int|
                0 <= k < i ==> #[trigger] h@.subrange(k, k + needle@.len()) != needle@,
        decreases hn - nn - i + 1,
    {
        let mut j: usize = 0;
        let mut all: bool = true;
        while j < nn
            invariant
                i + nn <= hn,
                j <= nn,
                all ==> forall|k: int| 0 <= k < j ==> h@[i + k] == needle@[k],
                !all ==> h@.subrange(i as int, i + needle@.len()) != needle@,
            decreases nn - j,
        {
            if h[i + j] != needle[j] {
                proof {
                    assert(h@.subrange(i as int, i + needle@.len())[j as int] != needle@[j as int]);
                }
                all = false;
                j = nn;
            } else {
                j += 1;
            }
        }
        if all {
            proof {
                assert(h@.subrange(i as int, i + needle@.len()) =~= needle@);
            }
            return true;
        }
        i += 1;
    }
    proof {
        assert forall|k: int| 0 <= k <= h@.len() - needle@.len() implies #[trigger] h@.subrange(
            k,
            k + needle@.len(),
        ) != needle@ by {
            assert(k < i);
        }
    }
    false
}

} // verus!
