//! String utilities and HTML tag-name classification used throughout the
//! conversion: whitespace collapsing, newline trimming, attribute cleaning,
//! and the fixed sets of block, void and meaningful-when-blank elements.

use vstd::prelude::*;

use crate::text::chars_of;
use crate::text::eq_ignore_ascii_case_str;
use crate::text::is_ws_char;
use crate::text::lemma_rtake_while_len_at;
use crate::text::lemma_take_while_len;
use crate::text::lemma_take_while_len_at;
use crate::text::string_of;
use crate::text::take_while_len;
use crate::text::trim_spec;
use crate::text::upper_seq;
use crate::text::ws_char;

verus! {

/// Number of `'\n'` characters at the start of `s`.
pub open spec fn nl_prefix_len(s: Seq<char>) -> int {
    take_while_len(s, |c: char| c == '\n')
}

/// Number of `'\n'` characters at the end of `s`.
pub open spec fn nl_suffix_len(s: Seq<char>) -> int {
    crate::text::rtake_while_len(s, |c: char| c == '\n')
}

pub open spec fn trim_leading_newlines_spec(s: Seq<char>) -> Seq<char> {
    s.skip(nl_prefix_len(s))
}

pub open spec fn trim_trailing_newlines_spec(s: Seq<char>) -> Seq<char> {
    s.take(s.len() - nl_suffix_len(s))
}

pub open spec fn trim_newlines_spec(s: Seq<char>) -> Seq<char> {
    trim_trailing_newlines_spec(trim_leading_newlines_spec(s))
}

/// Trims leading newlines from a string.
pub fn trim_leading_newlines(s: &str) -> (r: &str)
    ensures
        r@ == trim_leading_newlines_spec(s@),
{
    let n = s.unicode_len();
    let mut i: usize = 0;
    while i < n && s.get_char(i) == '\n'
        invariant
            n == s@.len(),
            i <= n,
            forall|j: int| 0 <= j < i ==> s@[j] == '\n',
        decreases n - i,
    {
        i += 1;
    }
    proof {
        lemma_take_while_len_at(s@, |c: char| c == '\n', i as int);
    }
    let r = s.substring_char(i, n);
    assert(r@ =~= s@.skip(i as int));
    r
}

/// Trims trailing newlines from a string.
pub fn trim_trailing_newlines(s: &str) -> (r: &str)
    ensures
        r@ == trim_trailing_newlines_spec(s@),
{
    let n = s.unicode_len();
    let mut j: usize = n;
    while j > 0 && s.get_char(j - 1) == '\n'
        invariant
            n == s@.len(),
            j <= n,
            forall|k: int| j <= k < n ==> s@[k] == '\n',
        decreases j,
    {
        j -= 1;
    }
    proof {
        lemma_rtake_while_len_at(s@, |c: char| c == '\n', n - j);
    }
    let r = s.substring_char(0, j);
    assert(r@ =~= s@.take(j as int));
    r
}

/// Trims both leading and trailing newlines.
pub fn trim_newlines(s: &str) -> (r: &str)
    ensures
        r@ == trim_newlines_spec(s@),
{
    trim_trailing_newlines(trim_leading_newlines(s))
}

/// The character `c` repeated `n` times.
pub open spec fn repeat_char(c: char, n: nat) -> Seq<char> {
    Seq::new(n, |i: int| c)
}

/// Repeats a character `count` times.
pub fn repeat(ch: char, count: usize) -> (r: String)
    ensures
        r@ == repeat_char(ch, count as nat),
{
    let mut v: Vec<char> = Vec::new();
    let mut i: usize = 0;
    while i < count
        invariant
            i <= count,
            v@ == repeat_char(ch, i as nat),
        decreases count - i,
    {
        v.push(ch);
        i += 1;
        assert(v@ =~= repeat_char(ch, i as nat));
    }
    string_of(&v)
}

/// `s` with every maximal whitespace run replaced by a single space.
pub open spec fn squash_ws(s: Seq<char>) -> Seq<char>
    decreases s.len(),
    when s.len() >= 0
    via squash_ws_decreases
{
    if s.len() == 0 {
        Seq::empty()
    } else if is_ws_char(s[0]) {
        seq![' '] + squash_ws(s.skip(take_while_len(s, |c: char| is_ws_char(c))))
    } else {
        seq![s[0]] + squash_ws(s.drop_first())
    }
}

#[via_fn]
proof fn squash_ws_decreases(s: Seq<char>) {
    if s.len() > 0 && is_ws_char(s[0]) {
        lemma_take_while_len(s, |c: char| is_ws_char(c));
    }
}

/// The attribute-cleaning transform: whitespace runs collapse to single
/// spaces and the result is trimmed at both ends.
pub open spec fn clean_attribute_spec(s: Seq<char>) -> Seq<char> {
    trim_spec(squash_ws(s))
}

/// Cleans an HTML attribute value: all whitespace runs become single spaces
/// and the ends are trimmed; an absent attribute cleans to the empty string.
pub fn clean_attribute(attribute: Option<&str>) -> (r: String)
    ensures
        attribute matches Some(a) ==> r@ == clean_attribute_spec(a@),
        attribute is None ==> r@ == Seq::<char>::empty(),
{
    match attribute {
        Some(attr) => {
            let v = chars_of(attr);
            let n = v.len();
            let mut acc: Vec<char> = Vec::new();
            let mut i: usize = 0;
            proof {
                assert(v@.skip(0) =~= v@);
                assert(squash_ws(v@) =~= acc@ + squash_ws(v@.skip(0)));
            }
            while i < n
                invariant
                    n == v@.len(),
                    i <= n,
                    squash_ws(v@) == acc@ + squash_ws(v@.skip(i as int)),
                decreases n - i,
            {
                let ghost pre = acc@;
                let ghost rest = v@.skip(i as int);
                if ws_char(v[i]) {
                    let mut j: usize = i;
                    while j < n && ws_char(v[j])
                        invariant
                            n == v@.len(),
                            i <= j <= n,
                            forall|k: int| i <= k < j ==> is_ws_char(v@[k]),
                        decreases n - j,
                    {
                        j += 1;
                    }
                    proof {
                        let p = |c: char| is_ws_char(c);
                        assert(forall|k: int| 0 <= k < j - i ==> p(rest[k]));
                        lemma_take_while_len_at(rest, p, j - i);
                        assert(rest.skip(take_while_len(rest, p)) =~= v@.skip(j as int));
                        assert(squash_ws(rest) == seq![' '] + squash_ws(v@.skip(j as int)));
                    }
                    acc.push(' ');
                    proof {
                        assert(acc@ + squash_ws(v@.skip(j as int)) =~= pre + squash_ws(rest));
                    }
                    i = j;
                } else {
                    proof {
                        assert(rest.drop_first() =~= v@.skip(i + 1));
                        assert(squash_ws(rest) == seq![v@[i as int]] + squash_ws(v@.skip(i + 1)));
                    }
                    acc.push(v[i]);
                    proof {
                        assert(acc@ + squash_ws(v@.skip(i + 1)) =~= pre + squash_ws(rest));
                    }
                    i += 1;
                }
            }
            proof {
                assert(v@.skip(n as int) =~= Seq::<char>::empty());
                assert(squash_ws(v@) =~= acc@);
            }
            let trimmed = crate::text::trim_chars(&acc);
            string_of(&trimmed)
        },
        None => {
            let r = String::new();
            r
        },
    }
}

/// Non-newline whitespace: what the collapsing scan skips inside a run.
pub open spec fn is_inline_ws(c: char) -> bool {
    is_ws_char(c) && c != '\n'
}

/// One step of the whitespace-collapsing scan, starting at position `i` with
/// the output built so far in `acc`.
///
/// A newline followed (across non-newline whitespace) by another newline is a
/// blank line and stays as a newline pair; a lone newline or any other
/// whitespace run becomes a single space, never doubling a space or trailing
/// a newline; other characters are copied.
pub open spec fn cw_step(s: Seq<char>, i: int, acc: Seq<char>) -> Seq<char>
    decreases s.len() - i,
    when 0 <= i
    via cw_step_decreases
{
    if i >= s.len() {
        acc
    } else {
        let c = s[i];
        if c == '\n' {
            let j = i + 1 + take_while_len(s.skip(i + 1), |c: char| is_inline_ws(c));
            if j < s.len() && s[j] == '\n' {
                cw_step(s, j + 1, acc + seq!['\n', '\n'])
            } else {
                let acc2 = if acc.len() > 0 && acc.last() != ' ' {
                    acc + seq![' ']
                } else {
                    acc
                };
                cw_step(s, j, acc2)
            }
        } else if is_ws_char(c) {
            let j = i + 1 + take_while_len(s.skip(i + 1), |c: char| is_inline_ws(c));
            let acc2 = if acc.len() > 0 && (acc.last() == ' ' || acc.last() == '\n') {
                acc
            } else {
                acc + seq![' ']
            };
            cw_step(s, j, acc2)
        } else {
            cw_step(s, i + 1, acc + seq![c])
        }
    }
}

#[via_fn]
proof fn cw_step_decreases(s: Seq<char>, i: int, acc: Seq<char>) {
    if 0 <= i < s.len() {
        lemma_take_while_len(s.skip(i + 1), |c: char| is_inline_ws(c));
    }
}

/// The whole whitespace-collapsing transform; an all-whitespace result
/// collapses to the empty string.
pub open spec fn collapse_whitespace_spec(s: Seq<char>) -> Seq<char> {
    let r = cw_step(s, 0, Seq::empty());
    if trim_spec(r).len() == 0 {
        Seq::empty()
    } else {
        r
    }
}

/// Collapses whitespace following HTML text rules: runs of whitespace become
/// a single space, but a blank line (two newlines separated only by other
/// whitespace) is kept as exactly two newlines.
pub fn collapse_whitespace(s: &str) -> (r: String)
    ensures
        r@ == collapse_whitespace_spec(s@),
{
    let v = chars_of(s);
    let n = v.len();
    let mut acc: Vec<char> = Vec::new();
    let mut i: usize = 0;
    proof {
        assert(cw_step(v@, 0, acc@) == cw_step(v@, 0, Seq::empty()));
    }
    while i < n
        invariant
            n == v@.len(),
            i <= n,
            cw_step(v@, i as int, acc@) == cw_step(v@, 0, Seq::empty()),
        decreases n - i,
    {
        let ghost acc0 = acc@;
        let c = v[i];
        if c == '\n' || ws_char(c) {
            let mut j: usize = i + 1;
            while j < n && ws_char(v[j]) && v[j] != '\n'
                invariant
                    n == v@.len(),
                    i + 1 <= j <= n,
                    forall|k: int| i + 1 <= k < j ==> is_inline_ws(v@[k]),
                decreases n - j,
            {
                j += 1;
            }
            proof {
                let rest = v@.skip(i + 1);
                let p = |c: char| is_inline_ws(c);
                assert(forall|k: int| 0 <= k < j - i - 1 ==> p(rest[k]));
                assert(j - i - 1 < rest.len() ==> !p(rest[j - i - 1]));
                lemma_take_while_len_at(rest, p, j - i - 1);
            }
            if c == '\n' {
                if j < n && v[j] == '\n' {
                    acc.push('\n');
                    acc.push('\n');
                    proof {
                        assert(acc@ =~= acc0 + seq!['\n', '\n']);
                        assert(cw_step(v@, (j + 1) as int, acc@) == cw_step(v@, i as int, acc0));
                    }
                    i = j + 1;
                } else {
                    if acc.len() > 0 && *acc.last().unwrap() != ' ' {
                        acc.push(' ');
                        proof {
                            assert(acc@ =~= acc0 + seq![' ']);
                        }
                    }
                    proof {
                        assert(cw_step(v@, j as int, acc@) == cw_step(v@, i as int, acc0));
                    }
                    i = j;
                }
            } else {
                let push_space = if acc.len() > 0 {
                    let last = *acc.last().unwrap();
                    !(last == ' ' || last == '\n')
                } else {
                    true
                };
                if push_space {
                    acc.push(' ');
                    proof {
                        assert(acc@ =~= acc0 + seq![' ']);
                    }
                }
                proof {
                    assert(cw_step(v@, j as int, acc@) == cw_step(v@, i as int, acc0));
                }
                i = j;
            }
        } else {
            acc.push(c);
            proof {
                assert(acc@ =~= acc0 + seq![c]);
                assert(cw_step(v@, i + 1, acc@) == cw_step(v@, i as int, acc0));
            }
            i += 1;
        }
    }
    let trimmed = crate::text::trim_chars(&acc);
    proof {
        assert(cw_step(v@, n as int, acc@) == acc@);
    }
    if trimmed.len() == 0 {
        let r = String::new();
        r
    } else {
        string_of(&acc)
    }
}

/// Membership in the fixed set of block-level element names, up to ASCII
/// case.
pub open spec fn is_block_name(name: Seq<char>) -> bool {
    let u = upper_seq(name);
    ||| u == upper_seq("ADDRESS"@)
    ||| u == upper_seq("ARTICLE"@)
    ||| u == upper_seq("ASIDE"@)
    ||| u == upper_seq("AUDIO"@)
    ||| u == upper_seq("BLOCKQUOTE"@)
    ||| u == upper_seq("BODY"@)
    ||| u == upper_seq("CANVAS"@)
    ||| u == upper_seq("CENTER"@)
    ||| u == upper_seq("DD"@)
    ||| u == upper_seq("DIR"@)
    ||| u == upper_seq("DIV"@)
    ||| u == upper_seq("DL"@)
    ||| u == upper_seq("DT"@)
    ||| u == upper_seq("FIELDSET"@)
    ||| u == upper_seq("FIGCAPTION"@)
    ||| u == upper_seq("FIGURE"@)
    ||| u == upper_seq("FOOTER"@)
    ||| u == upper_seq("FORM"@)
    ||| u == upper_seq("FRAMESET"@)
    ||| u == upper_seq("H1"@)
    ||| u == upper_seq("H2"@)
    ||| u == upper_seq("H3"@)
    ||| u == upper_seq("H4"@)
    ||| u == upper_seq("H5"@)
    ||| u == upper_seq("H6"@)
    ||| u == upper_seq("HEADER"@)
    ||| u == upper_seq("HGROUP"@)
    ||| u == upper_seq("HR"@)
    ||| u == upper_seq("HTML"@)
    ||| u == upper_seq("ISINDEX"@)
    ||| u == upper_seq("LI"@)
    ||| u == upper_seq("MAIN"@)
    ||| u == upper_seq("MENU"@)
    ||| u == upper_seq("NAV"@)
    ||| u == upper_seq("NOFRAMES"@)
    ||| u == upper_seq("NOSCRIPT"@)
    ||| u == upper_seq("OL"@)
    ||| u == upper_seq("OUTPUT"@)
    ||| u == upper_seq("P"@)
    ||| u == upper_seq("PRE"@)
    ||| u == upper_seq("SECTION"@)
    ||| u == upper_seq("TABLE"@)
    ||| u == upper_seq("TBODY"@)
    ||| u == upper_seq("TD"@)
    ||| u == upper_seq("TFOOT"@)
    ||| u == upper_seq("TH"@)
    ||| u == upper_seq("THEAD"@)
    ||| u == upper_seq("TR"@)
    ||| u == upper_seq("UL"@)
}

/// Checks if a node name is a block element.
pub fn is_block(tag_name: &str) -> (r: bool)
    ensures
        r == is_block_name(tag_name@),
{
    eq_ignore_ascii_case_str(tag_name, "ADDRESS") || eq_ignore_ascii_case_str(tag_name, "ARTICLE")
        || eq_ignore_ascii_case_str(tag_name, "ASIDE") || eq_ignore_ascii_case_str(
        tag_name,
        "AUDIO",
    ) || eq_ignore_ascii_case_str(tag_name, "BLOCKQUOTE") || eq_ignore_ascii_case_str(
        tag_name,
        "BODY",
    ) || eq_ignore_ascii_case_str(tag_name, "CANVAS") || eq_ignore_ascii_case_str(
        tag_name,
        "CENTER",
    ) || eq_ignore_ascii_case_str(tag_name, "DD") || eq_ignore_ascii_case_str(tag_name, "DIR")
        || eq_ignore_ascii_case_str(tag_name, "DIV") || eq_ignore_ascii_case_str(tag_name, "DL")
        || eq_ignore_ascii_case_str(tag_name, "DT") || eq_ignore_ascii_case_str(
        tag_name,
        "FIELDSET",
    ) || eq_ignore_ascii_case_str(tag_name, "FIGCAPTION") || eq_ignore_ascii_case_str(
        tag_name,
        "FIGURE",
    ) || eq_ignore_ascii_case_str(tag_name, "FOOTER") || eq_ignore_ascii_case_str(tag_name, "FORM")
        || eq_ignore_ascii_case_str(tag_name, "FRAMESET") || eq_ignore_ascii_case_str(
        tag_name,
        "H1",
    ) || eq_ignore_ascii_case_str(tag_name, "H2") || eq_ignore_ascii_case_str(tag_name, "H3")
        || eq_ignore_ascii_case_str(tag_name, "H4") || eq_ignore_ascii_case_str(tag_name, "H5")
        || eq_ignore_ascii_case_str(tag_name, "H6") || eq_ignore_ascii_case_str(tag_name, "HEADER")
        || eq_ignore_ascii_case_str(tag_name, "HGROUP") || eq_ignore_ascii_case_str(tag_name, "HR")
        || eq_ignore_ascii_case_str(tag_name, "HTML") || eq_ignore_ascii_case_str(
        tag_name,
        "ISINDEX",
    ) || eq_ignore_ascii_case_str(tag_name, "LI") || eq_ignore_ascii_case_str(tag_name, "MAIN")
        || eq_ignore_ascii_case_str(tag_name, "MENU") || eq_ignore_ascii_case_str(tag_name, "NAV")
        || eq_ignore_ascii_case_str(tag_name, "NOFRAMES") || eq_ignore_ascii_case_str(
        tag_name,
        "NOSCRIPT",
    ) || eq_ignore_ascii_case_str(tag_name, "OL") || eq_ignore_ascii_case_str(tag_name, "OUTPUT")
        || eq_ignore_ascii_case_str(tag_name, "P") || eq_ignore_ascii_case_str(tag_name, "PRE")
        || eq_ignore_ascii_case_str(tag_name, "SECTION") || eq_ignore_ascii_case_str(
        tag_name,
        "TABLE",
    ) || eq_ignore_ascii_case_str(tag_name, "TBODY") || eq_ignore_ascii_case_str(tag_name, "TD")
        || eq_ignore_ascii_case_str(tag_name, "TFOOT") || eq_ignore_ascii_case_str(tag_name, "TH")
        || eq_ignore_ascii_case_str(tag_name, "THEAD") || eq_ignore_ascii_case_str(tag_name, "TR")
        || eq_ignore_ascii_case_str(tag_name, "UL")
}

/// Membership in the fixed set of void (self-closing) element names, up to
/// ASCII case.
pub open spec fn is_void_name(name: Seq<char>) -> bool {
    let u = upper_seq(name);
    ||| u == upper_seq("AREA"@)
    ||| u == upper_seq("BASE"@)
    ||| u == upper_seq("BR"@)
    ||| u == upper_seq("COL"@)
    ||| u == upper_seq("COMMAND"@)
    ||| u == upper_seq("EMBED"@)
    ||| u == upper_seq("HR"@)
    ||| u == upper_seq("IMG"@)
    ||| u == upper_seq("INPUT"@)
    ||| u == upper_seq("KEYGEN"@)
    ||| u == upper_seq("LINK"@)
    ||| u == upper_seq("META"@)
    ||| u == upper_seq("PARAM"@)
    ||| u == upper_seq("SOURCE"@)
    ||| u == upper_seq("TRACK"@)
    ||| u == upper_seq("WBR"@)
}

/// Checks if a node name is a void element.
pub fn is_void(tag_name: &str) -> (r: bool)
    ensures
        r == is_void_name(tag_name@),
{
    eq_ignore_ascii_case_str(tag_name, "AREA") || eq_ignore_ascii_case_str(tag_name, "BASE")
        || eq_ignore_ascii_case_str(tag_name, "BR") || eq_ignore_ascii_case_str(tag_name, "COL")
        || eq_ignore_ascii_case_str(tag_name, "COMMAND") || eq_ignore_ascii_case_str(
        tag_name,
        "EMBED",
    ) || eq_ignore_ascii_case_str(tag_name, "HR") || eq_ignore_ascii_case_str(tag_name, "IMG")
        || eq_ignore_ascii_case_str(tag_name, "INPUT") || eq_ignore_ascii_case_str(
        tag_name,
        "KEYGEN",
    ) || eq_ignore_ascii_case_str(tag_name, "LINK") || eq_ignore_ascii_case_str(tag_name, "META")
        || eq_ignore_ascii_case_str(tag_name, "PARAM") || eq_ignore_ascii_case_str(
        tag_name,
        "SOURCE",
    ) || eq_ignore_ascii_case_str(tag_name, "TRACK") || eq_ignore_ascii_case_str(tag_name, "WBR")
}

/// Membership in the fixed set of element names that stay meaningful even
/// with no content, up to ASCII case.
pub open spec fn is_meaningful_when_blank_name(name: Seq<char>) -> bool {
    let u = upper_seq(name);
    ||| u == upper_seq("A"@)
    ||| u == upper_seq("TABLE"@)
    ||| u == upper_seq("THEAD"@)
    ||| u == upper_seq("TBODY"@)
    ||| u == upper_seq("TFOOT"@)
    ||| u == upper_seq("TH"@)
    ||| u == upper_seq("TD"@)
    ||| u == upper_seq("IFRAME"@)
    ||| u == upper_seq("SCRIPT"@)
    ||| u == upper_seq("AUDIO"@)
    ||| u == upper_seq("VIDEO"@)
}

/// Checks if a node name is meaningful when blank.
pub fn is_meaningful_when_blank(tag_name: &str) -> (r: bool)
    ensures
        r == is_meaningful_when_blank_name(tag_name@),
{
    eq_ignore_ascii_case_str(tag_name, "A") || eq_ignore_ascii_case_str(tag_name, "TABLE")
        || eq_ignore_ascii_case_str(tag_name, "THEAD") || eq_ignore_ascii_case_str(
        tag_name,
        "TBODY",
    ) || eq_ignore_ascii_case_str(tag_name, "TFOOT") || eq_ignore_ascii_case_str(tag_name, "TH")
        || eq_ignore_ascii_case_str(tag_name, "TD") || eq_ignore_ascii_case_str(tag_name, "IFRAME")
        || eq_ignore_ascii_case_str(tag_name, "SCRIPT") || eq_ignore_ascii_case_str(
        tag_name,
        "AUDIO",
    ) || eq_ignore_ascii_case_str(tag_name, "VIDEO")
}

/// Whitespace information flanking an inline element's content.
#[derive(Debug)]
pub struct FlankingWhitespace {
    pub leading: String,
    pub trailing: String,
}

impl FlankingWhitespace {
    pub fn new(leading: String, trailing: String) -> (r: FlankingWhitespace)
        ensures
            r.leading@ == leading@,
            r.trailing@ == trailing@,
    {
        FlankingWhitespace { leading, trailing }
    }
}

/// Whether the pattern is a well-formed regular expression.
pub uninterp spec fn regex_valid(pattern: Seq<char>) -> bool;

/// Whether the regular expression given by `pattern` matches somewhere in
/// `text`.
pub uninterp spec fn regex_match(pattern: Seq<char>, text: Seq<char>) -> bool;

/// Relies on `regex::Regex::new` and `regex::Regex::is_match`: whether a
/// pattern compiles, and whether a compiled pattern matches a haystack, are
/// functions of the pattern and the haystack alone. A pattern that does not
/// compile matches nothing.
#[verifier::external_body]
fn pattern_is_match(pattern: &str, text: &str) -> (r: bool)
    ensures
        r == (regex_valid(pattern@) && regex_match(pattern@, text@)),
{
    match regex::Regex::new(pattern) {
        Ok(re) => re.is_match(text),
        Err(_) => false,
    }
}

/// What the tracking-image test returns: an empty alternative text counts as
/// tracking when such stripping is on; otherwise the pattern, when present
/// and well formed, decides by matching the source URL.
pub open spec fn is_tracking_image_spec(
    src: Seq<char>,
    alt: Seq<char>,
    pattern: Option<Seq<char>>,
    strip_without_alt: bool,
) -> bool {
    if strip_without_alt && trim_spec(alt).len() == 0 {
        true
    } else {
        match pattern {
            Some(p) => regex_valid(p) && regex_match(p, src),
            None => false,
        }
    }
}

/// Checks if an image is likely a tracking pixel based on its URL and
/// alternative text.
pub fn is_tracking_image(
    src: &str,
    alt: &str,
    tracking_pattern: Option<&str>,
    strip_without_alt: bool,
) -> (r: bool)
    ensures
        r == is_tracking_image_spec(
            src@,
            alt@,
            match tracking_pattern {
                Some(p) => Some(p@),
                None => None,
            },
            strip_without_alt,
        ),
{
    if strip_without_alt {
        let alt_chars = chars_of(alt);
        let alt_trimmed = crate::text::trim_chars(&alt_chars);
        if alt_trimmed.len() == 0 {
            return true;
        }
    }
    match tracking_pattern {
        Some(pattern) => pattern_is_match(pattern, src),
        None => false,
    }
}

} // verus!
