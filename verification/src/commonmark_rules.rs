//! The built-in rule set: one replacement transform per Markdown construct,
//! the dispatcher that applies a selected replacement, and the table of
//! default rules.

use vstd::prelude::*;

use crate::node::attr_lookup;
use crate::node::outer_html_spec;
use crate::node::Node;
use crate::rules::FilterPredicate;
use crate::rules::Replacement;
use crate::rules::Rule;
use crate::rules::RuleFilter;
use crate::text::chars_of;
use crate::text::contains_seq;
use crate::text::is_digit_char;
use crate::text::lemma_take_while_len_at;
use crate::text::string_of;
use crate::text::subvec;
use crate::text::take_while_len;
use crate::text::trim_chars;
use crate::text::trim_end_chars;
use crate::text::trim_end_spec;
use crate::text::trim_spec;
use crate::turndown::HeadingStyle;
use crate::turndown::LinkReferenceStyle;
use crate::turndown::ListContext;
use crate::turndown::ListKind;
use crate::turndown::Options;
use crate::utilities::is_block_name;
use crate::utilities::is_tracking_image_spec;
use crate::utilities::repeat_char;
use crate::utilities::trim_newlines_spec;

verus! {

/// `s` wrapped in one blank line on each side.
pub open spec fn blank_wrap(s: Seq<char>) -> Seq<char> {
    seq!['\n', '\n'] + s + seq!['\n', '\n']
}

/// The heading level encoded in a tag name such as `H2`: the digit in
/// second position, or 1 when there is none.
pub open spec fn heading_level(name: Seq<char>) -> nat {
    if name.len() >= 2 && is_digit_char(name[1]) {
        (name[1] as u32 - 0x30) as nat
    } else {
        1
    }
}

/// The decimal digits of `n`, most significant first.
pub open spec fn dec_seq(n: nat) -> Seq<char>
    decreases n,
{
    if n < 10 {
        seq![digit_char_of(n)]
    } else {
        dec_seq(n / 10) + seq![digit_char_of(n % 10)]
    }
}

/// The character for a single decimal digit.
pub open spec fn digit_char_of(d: nat) -> char {
    if d == 0 {
        '0'
    } else if d == 1 {
        '1'
    } else if d == 2 {
        '2'
    } else if d == 3 {
        '3'
    } else if d == 4 {
        '4'
    } else if d == 5 {
        '5'
    } else if d == 6 {
        '6'
    } else if d == 7 {
        '7'
    } else if d == 8 {
        '8'
    } else {
        '9'
    }
}

/// Length of the first line of `s`: the characters before the first
/// newline.
pub open spec fn first_line_len(s: Seq<char>) -> int {
    take_while_len(s, |c: char| c != '\n')
}

/// A line with a single trailing carriage return stripped.
pub open spec fn strip_cr(l: Seq<char>) -> Seq<char> {
    if l.len() > 0 && l.last() == '\r' {
        l.drop_last()
    } else {
        l
    }
}

/// The lines of `s`, split at newlines, without a final empty line for a
/// trailing newline, each stripped of one trailing carriage return.
pub open spec fn split_lines(s: Seq<char>) -> Seq<Seq<char>>
    decreases s.len(),
    when s.len() >= 0
    via split_lines_decreases
{
    if s.len() == 0 {
        Seq::empty()
    } else {
        let k = first_line_len(s);
        let line = strip_cr(s.take(k));
        if k >= s.len() {
            seq![line]
        } else {
            seq![line] + split_lines(s.skip(k + 1))
        }
    }
}

#[via_fn]
proof fn split_lines_decreases(s: Seq<char>) {
    if s.len() > 0 {
        crate::text::lemma_take_while_len(s, |c: char| c != '\n');
    }
}

/// `parts` joined with `sep` between consecutive parts.
pub open spec fn join_with(parts: Seq<Seq<char>>, sep: Seq<char>) -> Seq<char> {
    if parts.len() == 0 {
        Seq::empty()
    } else {
        parts[0] + join_rest(parts.drop_first(), sep)
    }
}

/// The tail of a join: each part preceded by the separator.
pub open spec fn join_rest(parts: Seq<Seq<char>>, sep: Seq<char>) -> Seq<char>
    decreases parts.len(),
{
    if parts.len() == 0 {
        Seq::empty()
    } else {
        sep + parts[0] + join_rest(parts.drop_first(), sep)
    }
}

/// Lines trimmed of surrounding whitespace, with blank lines dropped.
pub open spec fn nonblank_trimmed(lines: Seq<Seq<char>>) -> Seq<Seq<char>>
    decreases lines.len(),
{
    if lines.len() == 0 {
        Seq::empty()
    } else {
        let t = trim_spec(lines[0]);
        if t.len() == 0 {
            nonblank_trimmed(lines.drop_first())
        } else {
            seq![t] + nonblank_trimmed(lines.drop_first())
        }
    }
}

/// `s` with every `(` and `)` backslash-escaped.
pub open spec fn esc_parens(s: Seq<char>) -> Seq<char>
    decreases s.len(),
{
    if s.len() == 0 {
        Seq::empty()
    } else {
        (if s[0] == '(' {
            seq!['\\', '(']
        } else if s[0] == ')' {
            seq!['\\', ')']
        } else {
            seq![s[0]]
        }) + esc_parens(s.drop_first())
    }
}

/// `s` with every double quote backslash-escaped.
pub open spec fn esc_quotes(s: Seq<char>) -> Seq<char>
    decreases s.len(),
{
    if s.len() == 0 {
        Seq::empty()
    } else {
        (if s[0] == '"' {
            seq!['\\', '"']
        } else {
            seq![s[0]]
        }) + esc_quotes(s.drop_first())
    }
}

/// `s` with every carriage-return/newline pair replaced by a space.
pub open spec fn crlf_to_space(s: Seq<char>) -> Seq<char>
    decreases s.len(),
{
    if s.len() == 0 {
        Seq::empty()
    } else if s[0] == '\r' && s.len() >= 2 && s[1] == '\n' {
        seq![' '] + crlf_to_space(s.skip(2))
    } else {
        seq![s[0]] + crlf_to_space(s.drop_first())
    }
}

/// `s` with every remaining carriage return or newline replaced by a
/// space.
pub open spec fn breaks_to_space(s: Seq<char>) -> Seq<char> {
    s.map_values(
        |c: char|
            if c == '\r' || c == '\n' {
                ' '
            } else {
                c
            },
    )
}

/// The attribute's value, or the empty string when it is absent.
pub open spec fn attr_or_empty(node: Node, name: Seq<char>) -> Seq<char> {
    match attr_lookup(node.attributes@, name) {
        Some(v) => v,
        None => Seq::empty(),
    }
}

/// What the paragraph rule renders: blank-line wrapped, except inline when
/// the paragraph sits in a list item.
pub open spec fn paragraph_spec(content: Seq<char>, list: Option<ListContext>) -> Seq<char> {
    if list is Some {
        content
    } else {
        blank_wrap(content)
    }
}

/// What the line-break rule renders: the configured marker and a newline.
pub open spec fn line_break_spec(opts: Options) -> Seq<char> {
    opts.br@ + seq!['\n']
}

/// What the heading rule renders: setext underlining for levels 1 and 2
/// under the setext style, ATX `#` prefixes otherwise, blank-line wrapped.
pub open spec fn heading_spec(content: Seq<char>, node: Node, opts: Options) -> Seq<char> {
    let level = heading_level(node.node_name@);
    if opts.heading_style == HeadingStyle::Setext && level < 3 {
        let underline = repeat_char(
            if level == 1 {
                '='
            } else {
                '-'
            },
            content.len(),
        );
        seq!['\n', '\n'] + content + seq!['\n'] + underline + seq!['\n', '\n']
    } else {
        seq!['\n', '\n'] + repeat_char('#', level) + seq![' '] + content + seq!['\n', '\n']
    }
}

/// What the blockquote rule renders: every line of the newline-trimmed
/// content prefixed with `> `, blank-line wrapped.
pub open spec fn blockquote_spec(content: Seq<char>) -> Seq<char> {
    let lines = split_lines(trim_newlines_spec(content));
    let quoted = join_with(lines.map_values(|l: Seq<char>| seq!['>', ' '] + l), seq!['\n']);
    blank_wrap(quoted)
}

/// What the list rule renders: the content blank-line wrapped.
pub open spec fn list_spec(content: Seq<char>) -> Seq<char> {
    blank_wrap(content)
}

/// What the list-item rule renders: `N.  ` prefixes inside ordered lists,
/// the configured bullet otherwise, with the item's own trailing whitespace
/// trimmed and a newline appended.
pub open spec fn list_item_spec(
    content: Seq<char>,
    list: Option<ListContext>,
    opts: Options,
) -> Seq<char> {
    match list {
        Some(lc) => {
            if lc.kind == ListKind::Ordered {
                dec_seq(lc.index as nat) + seq!['.', ' ', ' '] + trim_end_spec(content)
                    + seq!['\n']
            } else {
                opts.bullet_list_marker@ + seq![' '] + trim_end_spec(content) + seq!['\n']
            }
        },
        None => opts.bullet_list_marker@ + seq![' '] + trim_end_spec(content) + seq!['\n'],
    }
}

/// What the indented-style code-block rule renders: the raw content
/// blank-line wrapped.
pub open spec fn indented_code_spec(content: Seq<char>) -> Seq<char> {
    blank_wrap(content)
}

/// What the fenced-style code-block rule renders: the trailing-trimmed
/// content between two lines of three fence characters, blank-line wrapped.
pub open spec fn fenced_code_spec(content: Seq<char>, opts: Options) -> Seq<char> {
    let fence_char = if opts.fence@.len() > 0 {
        opts.fence@[0]
    } else {
        '`'
    };
    let fence = repeat_char(fence_char, 3);
    seq!['\n', '\n'] + fence + seq!['\n'] + trim_end_spec(content) + seq!['\n'] + fence + seq![
        '\n',
        '\n',
    ]
}

/// What the horizontal-rule rule renders: the configured marker,
/// blank-line wrapped.
pub open spec fn horizontal_rule_spec(opts: Options) -> Seq<char> {
    blank_wrap(opts.hr@)
}

/// The link text normalized for inline links: lines of the trimmed content
/// are themselves trimmed, blank ones dropped, and the rest joined with
/// single spaces.
pub open spec fn normalized_link_content(content: Seq<char>) -> Seq<char> {
    join_with(nonblank_trimmed(split_lines(trim_spec(content))), seq![' '])
}

/// What the inline-link rule renders: `[text](href "title")` with
/// parentheses in the destination and quotes in the title escaped; content
/// that already reads as a Markdown link passes through unchanged.
pub open spec fn inline_link_spec(content: Seq<char>, node: Node) -> Seq<char> {
    let normalized = normalized_link_content(content);
    if normalized.len() > 0 && normalized[0] == '[' && contains_seq(normalized, seq![']', '(']) {
        normalized
    } else {
        let href = esc_parens(attr_or_empty(node, "href"@));
        let title = attr_or_empty(node, "title"@);
        let title_part = if title.len() > 0 {
            seq![' ', '"'] + esc_quotes(title) + seq!['"']
        } else {
            Seq::<char>::empty()
        };
        seq!['['] + normalized + seq![']', '('] + href + title_part + seq![')']
    }
}

/// What the reference-link rule renders, by the configured reference style.
pub open spec fn reference_link_spec(content: Seq<char>, opts: Options) -> Seq<char> {
    match opts.link_reference_style {
        LinkReferenceStyle::Collapsed => content + seq!['[', ']'],
        LinkReferenceStyle::Shortcut => seq!['['] + content + seq![']'],
        LinkReferenceStyle::Full => seq!['['] + content + seq![']', '[', '1', ']'],
    }
}

/// What the emphasis rule renders: the configured delimiter on both sides,
/// or nothing for all-whitespace content.
pub open spec fn emphasis_spec(content: Seq<char>, opts: Options) -> Seq<char> {
    if trim_spec(content).len() == 0 {
        Seq::empty()
    } else {
        opts.em_delimiter@ + content + opts.em_delimiter@
    }
}

/// What the strong rule renders: the configured delimiter on both sides,
/// or nothing for all-whitespace content.
pub open spec fn strong_spec(content: Seq<char>, opts: Options) -> Seq<char> {
    if trim_spec(content).len() == 0 {
        Seq::empty()
    } else {
        opts.strong_delimiter@ + content + opts.strong_delimiter@
    }
}

/// What the inline-code rule renders: nothing when empty; otherwise
/// literal carriage returns and newlines collapse to spaces and the
/// content sits in single backticks, or double backticks when it contains
/// a backtick itself.
pub open spec fn inline_code_spec(content: Seq<char>) -> Seq<char> {
    if content.len() == 0 {
        Seq::empty()
    } else {
        let normalized = breaks_to_space(crlf_to_space(content));
        if exists|i: int| 0 <= i < normalized.len() && normalized[i] == '`' {
            seq!['`', '`', ' '] + normalized + seq![' ', '`', '`']
        } else {
            seq!['`'] + normalized + seq!['`']
        }
    }
}

/// What the image rule renders: nothing for a 1-by-1 image without
/// alternative text, nothing for a stripped tracking image or a missing
/// source, and `![alt](src "title")` otherwise.
pub open spec fn image_spec(node: Node, opts: Options) -> Seq<char> {
    let alt = attr_or_empty(node, "alt"@);
    let src = attr_or_empty(node, "src"@);
    let title = attr_or_empty(node, "title"@);
    let width = attr_or_empty(node, "width"@);
    let height = attr_or_empty(node, "height"@);
    if trim_spec(alt).len() == 0 && width == seq!['1'] && height == seq!['1'] {
        Seq::empty()
    } else if opts.strip_tracking_images && is_tracking_image_spec(
        src,
        alt,
        match opts.tracking_image_pattern {
            Some(p) => Some(p@),
            None => None,
        },
        opts.strip_images_without_alt,
    ) {
        Seq::empty()
    } else {
        let title_part = if title.len() > 0 {
            seq![' ', '"'] + title + seq!['"']
        } else {
            Seq::<char>::empty()
        };
        if src.len() > 0 {
            seq!['!', '['] + alt + seq![']', '('] + src + title_part + seq![')']
        } else {
            Seq::empty()
        }
    }
}

/// What the superscript rule renders: the trimmed content in a raw
/// `<sup>` pair, with a trailing space when non-empty.
pub open spec fn superscript_spec(content: Seq<char>) -> Seq<char> {
    let t = trim_spec(content);
    if t.len() == 0 {
        seq!['<', 's', 'u', 'p', '>', '<', '/', 's', 'u', 'p', '>']
    } else {
        seq!['<', 's', 'u', 'p', '>'] + t + seq!['<', '/', 's', 'u', 'p', '>', ' ']
    }
}

/// What the subscript rule renders: the trimmed content in a raw
/// `<sub>` pair, with a trailing space when non-empty.
pub open spec fn subscript_spec(content: Seq<char>) -> Seq<char> {
    let t = trim_spec(content);
    if t.len() == 0 {
        seq!['<', 's', 'u', 'b', '>', '<', '/', 's', 'u', 'b', '>']
    } else {
        seq!['<', 's', 'u', 'b', '>'] + t + seq!['<', '/', 's', 'u', 'b', '>', ' ']
    }
}

/// What the hidden-preheader rule renders: the trimmed content inline,
/// with no block wrapping.
pub open spec fn hidden_preheader_spec(content: Seq<char>) -> Seq<char> {
    trim_spec(content)
}

/// What the keep band renders: the node's raw markup, blank-line wrapped.
pub open spec fn keep_markup_spec(node: Node) -> Seq<char> {
    blank_wrap(outer_html_spec(node))
}

/// What the synthetic blank rule renders: a blank line for block
/// elements, nothing for inline ones.
pub open spec fn blank_node_spec(node: Node) -> Seq<char> {
    if is_block_name(node.node_name@) {
        seq!['\n', '\n']
    } else {
        Seq::empty()
    }
}

/// What the catch-all rule renders: block elements blank-line wrapped,
/// inline content passed through.
pub open spec fn fallback_spec(content: Seq<char>, node: Node) -> Seq<char> {
    if is_block_name(node.node_name@) {
        blank_wrap(content)
    } else {
        content
    }
}

/// The text a selected replacement renders, as a function of the rendered
/// child content, the node, the list context, and the options.
pub open spec fn apply_spec(
    rep: Replacement,
    content: Seq<char>,
    node: Node,
    list: Option<ListContext>,
    opts: Options,
) -> Seq<char> {
    match rep {
        Replacement::Paragraph => paragraph_spec(content, list),
        Replacement::LineBreak => line_break_spec(opts),
        Replacement::Heading => heading_spec(content, node, opts),
        Replacement::Blockquote => blockquote_spec(content),
        Replacement::List => list_spec(content),
        Replacement::ListItem => list_item_spec(content, list, opts),
        Replacement::IndentedCodeBlock => indented_code_spec(content),
        Replacement::FencedCodeBlock => fenced_code_spec(content, opts),
        Replacement::HorizontalRule => horizontal_rule_spec(opts),
        Replacement::InlineLink => inline_link_spec(content, node),
        Replacement::ReferenceLink => reference_link_spec(content, opts),
        Replacement::Emphasis => emphasis_spec(content, opts),
        Replacement::Strong => strong_spec(content, opts),
        Replacement::InlineCode => inline_code_spec(content),
        Replacement::Image => image_spec(node, opts),
        Replacement::Superscript => superscript_spec(content),
        Replacement::Subscript => subscript_spec(content),
        Replacement::HiddenPreheader => hidden_preheader_spec(content),
        Replacement::DropContent => Seq::empty(),
        Replacement::KeepMarkup => keep_markup_spec(node),
        Replacement::BlankNode => blank_node_spec(node),
        Replacement::Fallback => fallback_spec(content, node),
    }
}


/// Wraps content in one blank line on each side.
fn blank_wrap_exec(content: &Vec<char>) -> (r: Vec<char>)
    ensures
        r@ == blank_wrap(content@),
{
    let mut out: Vec<char> = Vec::new();
    out.push('\n');
    out.push('\n');
    crate::text::append_chars(&mut out, content);
    out.push('\n');
    out.push('\n');
    assert(out@ =~= blank_wrap(content@));
    out
}

fn digit_char_exec(d: usize) -> (r: char)
    requires
        d < 10,
    ensures
        r == digit_char_of(d as nat),
{
    match d {
        0 => '0',
        1 => '1',
        2 => '2',
        3 => '3',
        4 => '4',
        5 => '5',
        6 => '6',
        7 => '7',
        8 => '8',
        _ => '9',
    }
}

/// The decimal digits of `n`, most significant first.
fn dec_chars(n: usize) -> (r: Vec<char>)
    ensures
        r@ == dec_seq(n as nat),
    decreases n,
{
    if n < 10 {
        let mut out: Vec<char> = Vec::new();
        out.push(digit_char_exec(n));
        assert(out@ =~= dec_seq(n as nat));
        out
    } else {
        let mut out = dec_chars(n / 10);
        out.push(digit_char_exec(n % 10));
        assert(out@ =~= dec_seq((n / 10) as nat) + seq![digit_char_of((n % 10) as nat)]);
        out
    }
}

/// Splits text into lines the way the blockquote and link rules need.
#[verifier::loop_isolation(false)]
fn split_lines_exec(v: &Vec<char>) -> (r: Vec<Vec<char>>)
    ensures
        r@.map_values(|l: Vec<char>| l@) == split_lines(v@),
{
    let n = v.len();
    let mut r: Vec<Vec<char>> = Vec::new();
    let mut i: usize = 0;
    proof {
        assert(v@.skip(0) =~= v@);
    }
    while i < n
        invariant
            i <= n,
            split_lines(v@) == r@.map_values(|l: Vec<char>| l@) + split_lines(v@.skip(i as int)),
        decreases n - i,
    {
        let ghost rest = v@.skip(i as int);
        let ghost rmap0 = r@.map_values(|l: Vec<char>| l@);
        let mut j: usize = i;
        while j < n && v[j] != '\n'
            invariant
                i <= j <= n,
                forall|k: int| i <= k < j ==> v@[k] != '\n',
            decreases n - j,
        {
            j += 1;
        }
        proof {
            let p = |c: char| c != '\n';
            assert(forall|k: int| 0 <= k < j - i ==> p(rest[k]));
            lemma_take_while_len_at(rest, p, j - i);
        }
        let mut line = subvec(v, i, j);
        assert(line@ =~= rest.take(j - i));
        if line.len() > 0 && *line.last().unwrap() == '\r' {
            let _ = line.pop();
        }
        assert(line@ == strip_cr(rest.take(j - i)));
        r.push(line);
        proof {
            assert(r@.map_values(|l: Vec<char>| l@) =~= rmap0.push(line@));
        }
        if j >= n {
            proof {
                assert(first_line_len(rest) == j - i);
                assert(j - i >= rest.len());
                assert(split_lines(rest) == seq![strip_cr(rest.take(j - i))]);
                assert(rmap0.push(line@) =~= rmap0 + seq![line@]);
                assert(v@.skip(n as int) =~= Seq::<char>::empty());
                assert(split_lines(v@.skip(n as int)) =~= Seq::<Seq<char>>::empty());
                assert(r@.map_values(|l: Vec<char>| l@) + split_lines(v@.skip(n as int)) =~= rmap0
                    + split_lines(rest));
            }
            i = n;
        } else {
            proof {
                assert(first_line_len(rest) == j - i);
                assert(j - i < rest.len());
                assert(split_lines(rest) == seq![strip_cr(rest.take(j - i))] + split_lines(
                    rest.skip(j - i + 1),
                ));
                assert(rest.skip(j - i + 1) =~= v@.skip(j + 1));
                assert(r@.map_values(|l: Vec<char>| l@) + split_lines(v@.skip(j + 1)) =~= rmap0
                    + split_lines(rest));
            }
            i = j + 1;
        }
    }
    proof {
        assert(v@.skip(n as int) =~= Seq::<char>::empty());
        assert(split_lines(v@.skip(n as int)) =~= Seq::<Seq<char>>::empty());
        assert(r@.map_values(|l: Vec<char>| l@) =~= r@.map_values(|l: Vec<char>| l@)
            + split_lines(v@.skip(n as int)));
    }
    r
}

/// Joins line vectors with a separator, prefixing each line first.
#[verifier::loop_isolation(false)]
fn join_mapped(lines: &Vec<Vec<char>>, prefix: &Vec<char>, sep: &Vec<char>) -> (r: Vec<char>)
    ensures
        r@ == join_with(
            lines@.map_values(|l: Vec<char>| l@).map_values(|l: Seq<char>| prefix@ + l),
            sep@,
        ),
{
    let ghost mapped = lines@.map_values(|l: Vec<char>| l@).map_values(|l: Seq<char>| prefix@ + l);
    let n = lines.len();
    let mut out: Vec<char> = Vec::new();
    let mut k: usize = 0;
    while k < n
        invariant
            k <= n,
            n == lines@.len(),
            mapped.len() == n,
            k == 0 ==> out@ == Seq::<char>::empty(),
            k > 0 ==> join_with(mapped, sep@) == out@ + join_rest(mapped.skip(k as int), sep@),
        decreases n - k,
    {
        let ghost out0 = out@;
        if k > 0 {
            crate::text::append_chars(&mut out, sep);
        }
        crate::text::append_chars(&mut out, prefix);
        crate::text::append_chars(&mut out, &lines[k]);
        proof {
            assert(mapped[k as int] == prefix@ + lines@[k as int]@);
            if k == 0 {
                assert(out@ =~= mapped[0]);
                assert(mapped.drop_first() =~= mapped.skip(1));
                assert(join_with(mapped, sep@) == mapped[0] + join_rest(mapped.skip(1), sep@));
            } else {
                assert(out@ =~= out0 + (sep@ + mapped[k as int]));
                assert(mapped.skip(k as int)[0] == mapped[k as int]);
                assert(mapped.skip(k as int).drop_first() =~= mapped.skip(k + 1));
                assert(join_rest(mapped.skip(k as int), sep@) == sep@ + mapped[k as int]
                    + join_rest(mapped.skip(k + 1), sep@));
                assert(join_with(mapped, sep@) =~= out@ + join_rest(mapped.skip(k + 1), sep@));
            }
        }
        k += 1;
    }
    proof {
        if n == 0 {
            assert(join_with(mapped, sep@) =~= Seq::<char>::empty());
        } else {
            assert(mapped.skip(n as int) =~= Seq::<Seq<char>>::empty());
            assert(join_rest(mapped.skip(n as int), sep@) == Seq::<char>::empty());
            assert(join_with(mapped, sep@) =~= out@);
        }
    }
    out
}

/// Keeps the non-blank lines, trimmed.
#[verifier::loop_isolation(false)]
fn nonblank_trimmed_exec(lines: &Vec<Vec<char>>) -> (r: Vec<Vec<char>>)
    ensures
        r@.map_values(|l: Vec<char>| l@) == nonblank_trimmed(
            lines@.map_values(|l: Vec<char>| l@),
        ),
{
    let ghost ms = lines@.map_values(|l: Vec<char>| l@);
    let n = lines.len();
    let mut out: Vec<Vec<char>> = Vec::new();
    let mut k: usize = 0;
    proof {
        assert(ms.skip(0) =~= ms);
    }
    while k < n
        invariant
            k <= n,
            n == lines@.len(),
            ms.len() == n,
            nonblank_trimmed(ms) == out@.map_values(|l: Vec<char>| l@) + nonblank_trimmed(
                ms.skip(k as int),
            ),
        decreases n - k,
    {
        let ghost omap0 = out@.map_values(|l: Vec<char>| l@);
        let t = trim_chars(&lines[k]);
        proof {
            assert(ms.skip(k as int)[0] == ms[k as int]);
            assert(ms.skip(k as int).drop_first() =~= ms.skip(k + 1));
        }
        if t.len() > 0 {
            out.push(t);
            proof {
                assert(out@.map_values(|l: Vec<char>| l@) =~= omap0.push(
                    trim_spec(ms[k as int]),
                ));
                assert(omap0.push(trim_spec(ms[k as int])) =~= omap0 + seq![
                    trim_spec(ms[k as int]),
                ]);
            }
        }
        k += 1;
    }
    proof {
        assert(ms.skip(n as int) =~= Seq::<Seq<char>>::empty());
    }
    out
}

/// Escapes parentheses in a link destination.
#[verifier::loop_isolation(false)]
fn esc_parens_exec(v: &Vec<char>) -> (r: Vec<char>)
    ensures
        r@ == esc_parens(v@),
{
    let n = v.len();
    let mut out: Vec<char> = Vec::new();
    let mut i: usize = 0;
    proof {
        assert(v@.skip(0) =~= v@);
    }
    while i < n
        invariant
            i <= n,
            esc_parens(v@) == out@ + esc_parens(v@.skip(i as int)),
        decreases n - i,
    {
        let ghost out0 = out@;
        let ghost rest = v@.skip(i as int);
        let c = v[i];
        if c == '(' {
            out.push('\\');
            out.push('(');
            assert(out@ =~= out0 + seq!['\\', '(']);
        } else if c == ')' {
            out.push('\\');
            out.push(')');
            assert(out@ =~= out0 + seq!['\\', ')']);
        } else {
            out.push(c);
            assert(out@ =~= out0 + seq![c]);
        }
        proof {
            assert(rest.drop_first() =~= v@.skip(i + 1));
        }
        i += 1;
    }
    proof {
        assert(v@.skip(n as int) =~= Seq::<char>::empty());
    }
    out
}

/// Escapes double quotes in a link title.
#[verifier::loop_isolation(false)]
fn esc_quotes_exec(v: &Vec<char>) -> (r: Vec<char>)
    ensures
        r@ == esc_quotes(v@),
{
    let n = v.len();
    let mut out: Vec<char> = Vec::new();
    let mut i: usize = 0;
    proof {
        assert(v@.skip(0) =~= v@);
    }
    while i < n
        invariant
            i <= n,
            esc_quotes(v@) == out@ + esc_quotes(v@.skip(i as int)),
        decreases n - i,
    {
        let ghost out0 = out@;
        let ghost rest = v@.skip(i as int);
        let c = v[i];
        if c == '"' {
            out.push('\\');
            out.push('"');
            assert(out@ =~= out0 + seq!['\\', '"']);
        } else {
            out.push(c);
            assert(out@ =~= out0 + seq![c]);
        }
        proof {
            assert(rest.drop_first() =~= v@.skip(i + 1));
        }
        i += 1;
    }
    proof {
        assert(v@.skip(n as int) =~= Seq::<char>::empty());
    }
    out
}

/// Collapses carriage returns and newlines to spaces.
#[verifier::loop_isolation(false)]
fn normalize_breaks_exec(v: &Vec<char>) -> (r: Vec<char>)
    ensures
        r@ == breaks_to_space(crlf_to_space(v@)),
{
    let n = v.len();
    let mut mid: Vec<char> = Vec::new();
    let mut i: usize = 0;
    proof {
        assert(v@.skip(0) =~= v@);
    }
    while i < n
        invariant
            i <= n,
            crlf_to_space(v@) == mid@ + crlf_to_space(v@.skip(i as int)),
        decreases n - i,
    {
        let ghost mid0 = mid@;
        let ghost rest = v@.skip(i as int);
        if v[i] == '\r' && i + 1 < n && v[i + 1] == '\n' {
            mid.push(' ');
            proof {
                assert(mid@ =~= mid0 + seq![' ']);
                assert(rest.skip(2) =~= v@.skip(i + 2));
            }
            i += 2;
        } else {
            mid.push(v[i]);
            proof {
                assert(mid@ =~= mid0 + seq![v@[i as int]]);
                assert(rest.drop_first() =~= v@.skip(i + 1));
            }
            i += 1;
        }
    }
    proof {
        assert(v@.skip(n as int) =~= Seq::<char>::empty());
        assert(mid@ =~= crlf_to_space(v@));
    }
    let m = mid.len();
    let mut out: Vec<char> = Vec::new();
    let mut j: usize = 0;
    while j < m
        invariant
            j <= m,
            m == mid@.len(),
            out@ == breaks_to_space(mid@).take(j as int),
        decreases m - j,
    {
        let c = mid[j];
        if c == '\r' || c == '\n' {
            out.push(' ');
        } else {
            out.push(c);
        }
        j += 1;
        assert(out@ =~= breaks_to_space(mid@).take(j as int));
    }
    assert(breaks_to_space(mid@).take(m as int) =~= breaks_to_space(mid@));
    out
}

/// Whether the text holds a backtick.
fn has_backtick(v: &Vec<char>) -> (r: bool)
    ensures
        r == exists|i: int| 0 <= i < v@.len() && v@[i] == '`',
{
    let n = v.len();
    let mut i: usize = 0;
    while i < n
        invariant
            i <= n,
            n == v@.len(),
            forall|j: int| 0 <= j < i ==> v@[j] != '`',
        decreases n - i,
    {
        if v[i] == '`' {
            return true;
        }
        i += 1;
    }
    false
}

/// Applies a selected replacement to rendered content, producing the text
/// the rule renders.
pub fn apply_replacement(
    rep: Replacement,
    content: &Vec<char>,
    node: &Node,
    list: Option<ListContext>,
    options: &Options,
) -> (r: Vec<char>)
    ensures
        r@ == apply_spec(rep, content@, *node, list, *options),
{
    match rep {
        Replacement::Paragraph => {
            if list.is_some() {
                subvec(content, 0, content.len())
            } else {
                blank_wrap_exec(content)
            }
        },
        Replacement::LineBreak => {
            let mut out = chars_of(options.br.as_str());
            out.push('\n');
            assert(out@ =~= line_break_spec(*options));
            out
        },
        Replacement::Heading => heading_apply(content, node, options),
        Replacement::Blockquote => blockquote_apply(content),
        Replacement::List => blank_wrap_exec(content),
        Replacement::ListItem => list_item_apply(content, list, options),
        Replacement::IndentedCodeBlock => blank_wrap_exec(content),
        Replacement::FencedCodeBlock => fenced_code_apply(content, options),
        Replacement::HorizontalRule => {
            let hr = chars_of(options.hr.as_str());
            blank_wrap_exec(&hr)
        },
        Replacement::InlineLink => inline_link_apply(content, node),
        Replacement::ReferenceLink => reference_link_apply(content, options),
        Replacement::Emphasis => {
            let t = trim_chars(content);
            if t.len() == 0 {
                Vec::new()
            } else {
                let mut out = chars_of(options.em_delimiter.as_str());
                crate::text::append_chars(&mut out, content);
                let d = chars_of(options.em_delimiter.as_str());
                crate::text::append_chars(&mut out, &d);
                assert(out@ =~= emphasis_spec(content@, *options));
                out
            }
        },
        Replacement::Strong => {
            let t = trim_chars(content);
            if t.len() == 0 {
                Vec::new()
            } else {
                let mut out = chars_of(options.strong_delimiter.as_str());
                crate::text::append_chars(&mut out, content);
                let d = chars_of(options.strong_delimiter.as_str());
                crate::text::append_chars(&mut out, &d);
                assert(out@ =~= strong_spec(content@, *options));
                out
            }
        },
        Replacement::InlineCode => inline_code_apply(content),
        Replacement::Image => image_apply(node, options),
        Replacement::Superscript => {
            let t = trim_chars(content);
            let mut out: Vec<char> = Vec::new();
            out.push('<');
            out.push('s');
            out.push('u');
            out.push('p');
            out.push('>');
            if t.len() == 0 {
                out.push('<');
                out.push('/');
                out.push('s');
                out.push('u');
                out.push('p');
                out.push('>');
                assert(out@ =~= superscript_spec(content@));
            } else {
                crate::text::append_chars(&mut out, &t);
                out.push('<');
                out.push('/');
                out.push('s');
                out.push('u');
                out.push('p');
                out.push('>');
                out.push(' ');
                assert(out@ =~= superscript_spec(content@));
            }
            out
        },
        Replacement::Subscript => {
            let t = trim_chars(content);
            let mut out: Vec<char> = Vec::new();
            out.push('<');
            out.push('s');
            out.push('u');
            out.push('b');
            out.push('>');
            if t.len() == 0 {
                out.push('<');
                out.push('/');
                out.push('s');
                out.push('u');
                out.push('b');
                out.push('>');
                assert(out@ =~= subscript_spec(content@));
            } else {
                crate::text::append_chars(&mut out, &t);
                out.push('<');
                out.push('/');
                out.push('s');
                out.push('u');
                out.push('b');
                out.push('>');
                out.push(' ');
                assert(out@ =~= subscript_spec(content@));
            }
            out
        },
        Replacement::HiddenPreheader => trim_chars(content),
        Replacement::DropContent => Vec::new(),
        Replacement::KeepMarkup => {
            let html = node.to_outer_html();
            let hv = chars_of(html.as_str());
            blank_wrap_exec(&hv)
        },
        Replacement::BlankNode => {
            if node.is_block() {
                let mut out: Vec<char> = Vec::new();
                out.push('\n');
                out.push('\n');
                assert(out@ =~= blank_node_spec(*node));
                out
            } else {
                Vec::new()
            }
        },
        Replacement::Fallback => {
            if node.is_block() {
                blank_wrap_exec(content)
            } else {
                subvec(content, 0, content.len())
            }
        },
    }
}

fn heading_apply(content: &Vec<char>, node: &Node, options: &Options) -> (r: Vec<char>)
    ensures
        r@ == heading_spec(content@, *node, *options),
{
    let name = chars_of(node.node_name.as_str());
    let level: usize = if name.len() >= 2 && crate::text::digit_char(name[1]) {
        (name[1] as u32 - 0x30) as usize
    } else {
        1
    };
    assert(level as nat == heading_level(node.node_name@));
    let mut out: Vec<char> = Vec::new();
    out.push('\n');
    out.push('\n');
    if options.heading_style == HeadingStyle::Setext && level < 3 {
        crate::text::append_chars(&mut out, content);
        out.push('\n');
        let u: char = if level == 1 {
            '='
        } else {
            '-'
        };
        let mut k: usize = 0;
        let ghost out1 = out@;
        while k < content.len()
            invariant
                k <= content@.len(),
                out@ == out1 + repeat_char(u, k as nat),
            decreases content@.len() - k,
        {
            out.push(u);
            k += 1;
            assert(out@ =~= out1 + repeat_char(u, k as nat));
        }
        out.push('\n');
        out.push('\n');
        assert(out@ =~= heading_spec(content@, *node, *options));
    } else {
        let mut k: usize = 0;
        let ghost out1 = out@;
        while k < level
            invariant
                k <= level,
                out@ == out1 + repeat_char('#', k as nat),
            decreases level - k,
        {
            out.push('#');
            k += 1;
            assert(out@ =~= out1 + repeat_char('#', k as nat));
        }
        out.push(' ');
        crate::text::append_chars(&mut out, content);
        out.push('\n');
        out.push('\n');
        assert(out@ =~= heading_spec(content@, *node, *options));
    }
    out
}

fn blockquote_apply(content: &Vec<char>) -> (r: Vec<char>)
    ensures
        r@ == blockquote_spec(content@),
{
    let s = string_of(content);
    let trimmed = crate::utilities::trim_newlines(s.as_str());
    let tv = chars_of(trimmed);
    let lines = split_lines_exec(&tv);
    let mut prefix: Vec<char> = Vec::new();
    prefix.push('>');
    prefix.push(' ');
    let mut sep: Vec<char> = Vec::new();
    sep.push('\n');
    let quoted = join_mapped(&lines, &prefix, &sep);
    proof {
        assert(prefix@ =~= seq!['>', ' ']);
        assert(sep@ =~= seq!['\n']);
        assert(lines@.map_values(|l: Vec<char>| l@).map_values(|l: Seq<char>| prefix@ + l)
            =~= split_lines(trim_newlines_spec(content@)).map_values(
            |l: Seq<char>| seq!['>', ' '] + l,
        ));
    }
    blank_wrap_exec(&quoted)
}

fn list_item_apply(content: &Vec<char>, list: Option<ListContext>, options: &Options) -> (r: Vec<
    char,
>)
    ensures
        r@ == list_item_spec(content@, list, *options),
{
    let ordered_index: Option<usize> = match list {
        Some(lc) => {
            if lc.kind == ListKind::Ordered {
                Some(lc.index)
            } else {
                None
            }
        },
        None => None,
    };
    match ordered_index {
        Some(index) => {
            let mut out = dec_chars(index);
            out.push('.');
            out.push(' ');
            out.push(' ');
            let t = trim_end_chars(content);
            crate::text::append_chars(&mut out, &t);
            out.push('\n');
            assert(out@ =~= list_item_spec(content@, list, *options));
            out
        },
        None => {
            let mut out = chars_of(options.bullet_list_marker.as_str());
            out.push(' ');
            let t = trim_end_chars(content);
            crate::text::append_chars(&mut out, &t);
            out.push('\n');
            assert(out@ =~= list_item_spec(content@, list, *options));
            out
        },
    }
}

fn fenced_code_apply(content: &Vec<char>, options: &Options) -> (r: Vec<char>)
    ensures
        r@ == fenced_code_spec(content@, *options),
{
    let fv = chars_of(options.fence.as_str());
    let fence_char: char = if fv.len() > 0 {
        fv[0]
    } else {
        '`'
    };
    let mut out: Vec<char> = Vec::new();
    out.push('\n');
    out.push('\n');
    out.push(fence_char);
    out.push(fence_char);
    out.push(fence_char);
    out.push('\n');
    let t = trim_end_chars(content);
    crate::text::append_chars(&mut out, &t);
    out.push('\n');
    out.push(fence_char);
    out.push(fence_char);
    out.push(fence_char);
    out.push('\n');
    out.push('\n');
    proof {
        assert(repeat_char(fence_char, 3) =~= seq![fence_char, fence_char, fence_char]);
        assert(out@ =~= fenced_code_spec(content@, *options));
    }
    out
}

fn inline_link_apply(content: &Vec<char>, node: &Node) -> (r: Vec<char>)
    ensures
        r@ == inline_link_spec(content@, *node),
{
    let trimmed = trim_chars(content);
    let lines = split_lines_exec(&trimmed);
    let kept = nonblank_trimmed_exec(&lines);
    let empty_prefix: Vec<char> = Vec::new();
    let mut sep: Vec<char> = Vec::new();
    sep.push(' ');
    let normalized = join_mapped(&kept, &empty_prefix, &sep);
    proof {
        assert(sep@ =~= seq![' ']);
        assert(kept@.map_values(|l: Vec<char>| l@).map_values(|l: Seq<char>| empty_prefix@ + l)
            =~= nonblank_trimmed(split_lines(trim_spec(content@))));
        assert(normalized@ == normalized_link_content(content@));
    }
    let mut needle: Vec<char> = Vec::new();
    needle.push(']');
    needle.push('(');
    assert(needle@ =~= seq![']', '(']);
    if normalized.len() > 0 && normalized[0] == '[' && crate::text::contains_chars(
        &normalized,
        &needle,
    ) {
        normalized
    } else {
        let href_s = match node.get_attribute("href") {
            Some(h) => h,
            None => String::new(),
        };
        let href = chars_of(href_s.as_str());
        assert(href@ == attr_or_empty(*node, "href"@));
        let href_escaped = esc_parens_exec(&href);
        let title_s = match node.get_attribute("title") {
            Some(t) => t,
            None => String::new(),
        };
        let title = chars_of(title_s.as_str());
        assert(title@ == attr_or_empty(*node, "title"@));
        let mut out: Vec<char> = Vec::new();
        out.push('[');
        crate::text::append_chars(&mut out, &normalized);
        out.push(']');
        out.push('(');
        crate::text::append_chars(&mut out, &href_escaped);
        if title.len() > 0 {
            out.push(' ');
            out.push('"');
            let tq = esc_quotes_exec(&title);
            crate::text::append_chars(&mut out, &tq);
            out.push('"');
        }
        out.push(')');
        assert(out@ =~= inline_link_spec(content@, *node));
        out
    }
}

fn reference_link_apply(content: &Vec<char>, options: &Options) -> (r: Vec<char>)
    ensures
        r@ == reference_link_spec(content@, *options),
{
    let mut out: Vec<char> = Vec::new();
    match options.link_reference_style {
        LinkReferenceStyle::Collapsed => {
            crate::text::append_chars(&mut out, content);
            out.push('[');
            out.push(']');
        },
        LinkReferenceStyle::Shortcut => {
            out.push('[');
            crate::text::append_chars(&mut out, content);
            out.push(']');
        },
        LinkReferenceStyle::Full => {
            out.push('[');
            crate::text::append_chars(&mut out, content);
            out.push(']');
            out.push('[');
            out.push('1');
            out.push(']');
        },
    }
    assert(out@ =~= reference_link_spec(content@, *options));
    out
}

fn inline_code_apply(content: &Vec<char>) -> (r: Vec<char>)
    ensures
        r@ == inline_code_spec(content@),
{
    if content.len() == 0 {
        Vec::new()
    } else {
        let normalized = normalize_breaks_exec(content);
        let mut out: Vec<char> = Vec::new();
        if has_backtick(&normalized) {
            out.push('`');
            out.push('`');
            out.push(' ');
            crate::text::append_chars(&mut out, &normalized);
            out.push(' ');
            out.push('`');
            out.push('`');
        } else {
            out.push('`');
            crate::text::append_chars(&mut out, &normalized);
            out.push('`');
        }
        assert(out@ =~= inline_code_spec(content@));
        out
    }
}

fn image_apply(node: &Node, options: &Options) -> (r: Vec<char>)
    ensures
        r@ == image_spec(*node, *options),
{
    let alt_s = match node.get_attribute("alt") {
        Some(v) => v,
        None => String::new(),
    };
    let src_s = match node.get_attribute("src") {
        Some(v) => v,
        None => String::new(),
    };
    let title_s = match node.get_attribute("title") {
        Some(v) => v,
        None => String::new(),
    };
    let width_s = match node.get_attribute("width") {
        Some(v) => v,
        None => String::new(),
    };
    let height_s = match node.get_attribute("height") {
        Some(v) => v,
        None => String::new(),
    };
    let alt = chars_of(alt_s.as_str());
    let src = chars_of(src_s.as_str());
    let title = chars_of(title_s.as_str());
    let width = chars_of(width_s.as_str());
    let height = chars_of(height_s.as_str());
    assert(alt@ == attr_or_empty(*node, "alt"@));
    assert(src@ == attr_or_empty(*node, "src"@));
    assert(title@ == attr_or_empty(*node, "title"@));
    assert(width@ == attr_or_empty(*node, "width"@));
    assert(height@ == attr_or_empty(*node, "height"@));
    let alt_trimmed = trim_chars(&alt);
    let one_by_one = alt_trimmed.len() == 0 && width.len() == 1 && width[0] == '1' && height.len()
        == 1 && height[0] == '1';
    proof {
        if width@.len() == 1 && width@[0] == '1' {
            assert(width@ =~= seq!['1']);
        }
        if height@.len() == 1 && height@[0] == '1' {
            assert(height@ =~= seq!['1']);
        }
        if width@ == seq!['1'] {
            assert(width@.len() == 1 && width@[0] == '1');
        }
        if height@ == seq!['1'] {
            assert(height@.len() == 1 && height@[0] == '1');
        }
    }
    if one_by_one {
        return Vec::new();
    }
    if options.strip_tracking_images {
        let pattern: Option<&str> = match &options.tracking_image_pattern {
            Some(p) => Some(p.as_str()),
            None => None,
        };
        if crate::utilities::is_tracking_image(
            src_s.as_str(),
            alt_s.as_str(),
            pattern,
            options.strip_images_without_alt,
        ) {
            return Vec::new();
        }
    }
    if src.len() == 0 {
        return Vec::new();
    }
    let mut out: Vec<char> = Vec::new();
    out.push('!');
    out.push('[');
    crate::text::append_chars(&mut out, &alt);
    out.push(']');
    out.push('(');
    crate::text::append_chars(&mut out, &src);
    if title.len() > 0 {
        out.push(' ');
        out.push('"');
        crate::text::append_chars(&mut out, &title);
        out.push('"');
    }
    out.push(')');
    assert(out@ =~= image_spec(*node, *options));
    out
}


/// A rule filtering on one exact tag, rendering with `rep`.
pub open spec fn is_tag_rule(r: Rule, tag: Seq<char>, rep: Replacement) -> bool {
    &&& r.replacement == rep
    &&& r.filter matches RuleFilter::Tag(s) && s@ == tag
}

/// A rule filtering on a pair of tags, rendering with `rep`.
pub open spec fn is_tag2_rule(r: Rule, t1: Seq<char>, t2: Seq<char>, rep: Replacement) -> bool {
    &&& r.replacement == rep
    &&& r.filter matches RuleFilter::TagList(v) && v@.len() == 2 && v@[0]@ == t1 && v@[1]@ == t2
}

/// A rule filtering with a built-in predicate, rendering with `rep`.
pub open spec fn is_pred_rule(r: Rule, p: FilterPredicate, rep: Replacement) -> bool {
    &&& r.replacement == rep
    &&& r.filter matches RuleFilter::Pred(q) && q == p
}

/// The heading rule: the six heading tags, rendering with the heading
/// replacement.
pub open spec fn is_heading_rule(r: Rule) -> bool {
    &&& r.replacement == Replacement::Heading
    &&& r.filter matches RuleFilter::TagList(v) && v@.len() == 6 && v@[0]@ == "h1"@ && v@[1]@
        == "h2"@ && v@[2]@ == "h3"@ && v@[3]@ == "h4"@ && v@[4]@ == "h5"@ && v@[5]@ == "h6"@
}

/// The content of the built-in rule table, entry by entry.
pub open spec fn default_rules_table(r: Seq<(String, Rule)>) -> bool {
    &&& r.len() == 22
    &&& r[0].0@ == "paragraph"@ && is_tag_rule(r[0].1, "p"@, Replacement::Paragraph)
    &&& r[1].0@ == "lineBreak"@ && is_tag_rule(r[1].1, "br"@, Replacement::LineBreak)
    &&& r[2].0@ == "heading"@ && is_heading_rule(r[2].1)
    &&& r[3].0@ == "blockquote"@ && is_tag_rule(r[3].1, "blockquote"@, Replacement::Blockquote)
    &&& r[4].0@ == "list"@ && is_tag2_rule(r[4].1, "ul"@, "ol"@, Replacement::List)
    &&& r[5].0@ == "listItem"@ && is_tag_rule(r[5].1, "li"@, Replacement::ListItem)
    &&& r[6].0@ == "indentedCodeBlock"@ && is_pred_rule(
        r[6].1,
        FilterPredicate::IndentedPre,
        Replacement::IndentedCodeBlock,
    )
    &&& r[7].0@ == "fencedCodeBlock"@ && is_pred_rule(
        r[7].1,
        FilterPredicate::FencedPre,
        Replacement::FencedCodeBlock,
    )
    &&& r[8].0@ == "horizontalRule"@ && is_tag_rule(r[8].1, "hr"@, Replacement::HorizontalRule)
    &&& r[9].0@ == "inlineLink"@ && is_pred_rule(
        r[9].1,
        FilterPredicate::InlineAnchor,
        Replacement::InlineLink,
    )
    &&& r[10].0@ == "referenceLink"@ && is_pred_rule(
        r[10].1,
        FilterPredicate::ReferenceAnchor,
        Replacement::ReferenceLink,
    )
    &&& r[11].0@ == "emphasis"@ && is_tag2_rule(r[11].1, "em"@, "i"@, Replacement::Emphasis)
    &&& r[12].0@ == "strong"@ && is_tag2_rule(r[12].1, "strong"@, "b"@, Replacement::Strong)
    &&& r[13].0@ == "code"@ && is_pred_rule(
        r[13].1,
        FilterPredicate::CodeOutsidePre,
        Replacement::InlineCode,
    )
    &&& r[14].0@ == "image"@ && is_tag_rule(r[14].1, "img"@, Replacement::Image)
    &&& r[15].0@ == "comment"@ && is_pred_rule(
        r[15].1,
        FilterPredicate::CommentNode,
        Replacement::DropContent,
    )
    &&& r[16].0@ == "processingInstruction"@ && is_pred_rule(
        r[16].1,
        FilterPredicate::ProcessingInstructionNode,
        Replacement::DropContent,
    )
    &&& r[17].0@ == "style"@ && is_tag_rule(r[17].1, "style"@, Replacement::DropContent)
    &&& r[18].0@ == "script"@ && is_tag_rule(r[18].1, "script"@, Replacement::DropContent)
    &&& r[19].0@ == "hiddenPreheader"@ && is_pred_rule(
        r[19].1,
        FilterPredicate::HiddenPreheaderDiv,
        Replacement::HiddenPreheader,
    )
    &&& r[20].0@ == "superscript"@ && is_tag_rule(r[20].1, "sup"@, Replacement::Superscript)
    &&& r[21].0@ == "subscript"@ && is_tag_rule(r[21].1, "sub"@, Replacement::Subscript)
}

/// Builds the table of built-in rules, in their fixed order.
pub fn get_rules() -> (r: Vec<(String, Rule)>)
    ensures
        default_rules_table(r@),
        r@.len() == 22,
        r@[0].0@ == "paragraph"@ && is_tag_rule(r@[0].1, "p"@, Replacement::Paragraph),
        r@[1].0@ == "lineBreak"@ && is_tag_rule(r@[1].1, "br"@, Replacement::LineBreak),
        r@[2].0@ == "heading"@ && is_heading_rule(r@[2].1),
        r@[3].0@ == "blockquote"@ && is_tag_rule(r@[3].1, "blockquote"@, Replacement::Blockquote),
        r@[4].0@ == "list"@ && is_tag2_rule(r@[4].1, "ul"@, "ol"@, Replacement::List),
        r@[5].0@ == "listItem"@ && is_tag_rule(r@[5].1, "li"@, Replacement::ListItem),
        r@[6].0@ == "indentedCodeBlock"@ && is_pred_rule(
            r@[6].1,
            FilterPredicate::IndentedPre,
            Replacement::IndentedCodeBlock,
        ),
        r@[7].0@ == "fencedCodeBlock"@ && is_pred_rule(
            r@[7].1,
            FilterPredicate::FencedPre,
            Replacement::FencedCodeBlock,
        ),
        r@[8].0@ == "horizontalRule"@ && is_tag_rule(r@[8].1, "hr"@, Replacement::HorizontalRule),
        r@[9].0@ == "inlineLink"@ && is_pred_rule(
            r@[9].1,
            FilterPredicate::InlineAnchor,
            Replacement::InlineLink,
        ),
        r@[10].0@ == "referenceLink"@ && is_pred_rule(
            r@[10].1,
            FilterPredicate::ReferenceAnchor,
            Replacement::ReferenceLink,
        ),
        r@[11].0@ == "emphasis"@ && is_tag2_rule(r@[11].1, "em"@, "i"@, Replacement::Emphasis),
        r@[12].0@ == "strong"@ && is_tag2_rule(r@[12].1, "strong"@, "b"@, Replacement::Strong),
        r@[13].0@ == "code"@ && is_pred_rule(
            r@[13].1,
            FilterPredicate::CodeOutsidePre,
            Replacement::InlineCode,
        ),
        r@[14].0@ == "image"@ && is_tag_rule(r@[14].1, "img"@, Replacement::Image),
        r@[15].0@ == "comment"@ && is_pred_rule(
            r@[15].1,
            FilterPredicate::CommentNode,
            Replacement::DropContent,
        ),
        r@[16].0@ == "processingInstruction"@ && is_pred_rule(
            r@[16].1,
            FilterPredicate::ProcessingInstructionNode,
            Replacement::DropContent,
        ),
        r@[17].0@ == "style"@ && is_tag_rule(r@[17].1, "style"@, Replacement::DropContent),
        r@[18].0@ == "script"@ && is_tag_rule(r@[18].1, "script"@, Replacement::DropContent),
        r@[19].0@ == "hiddenPreheader"@ && is_pred_rule(
            r@[19].1,
            FilterPredicate::HiddenPreheaderDiv,
            Replacement::HiddenPreheader,
        ),
        r@[20].0@ == "superscript"@ && is_tag_rule(r@[20].1, "sup"@, Replacement::Superscript),
        r@[21].0@ == "subscript"@ && is_tag_rule(r@[21].1, "sub"@, Replacement::Subscript),
{
    let mut rules: Vec<(String, Rule)> = Vec::new();
    rules.push(
        (
            String::from_str("paragraph"),
            Rule {
                filter: RuleFilter::Tag(String::from_str("p")),
                replacement: Replacement::Paragraph,
            },
        ),
    );
    rules.push(
        (
            String::from_str("lineBreak"),
            Rule {
                filter: RuleFilter::Tag(String::from_str("br")),
                replacement: Replacement::LineBreak,
            },
        ),
    );
    let mut headings: Vec<String> = Vec::new();
    headings.push(String::from_str("h1"));
    headings.push(String::from_str("h2"));
    headings.push(String::from_str("h3"));
    headings.push(String::from_str("h4"));
    headings.push(String::from_str("h5"));
    headings.push(String::from_str("h6"));
    rules.push(
        (
            String::from_str("heading"),
            Rule { filter: RuleFilter::TagList(headings), replacement: Replacement::Heading },
        ),
    );
    rules.push(
        (
            String::from_str("blockquote"),
            Rule {
                filter: RuleFilter::Tag(String::from_str("blockquote")),
                replacement: Replacement::Blockquote,
            },
        ),
    );
    let mut lists: Vec<String> = Vec::new();
    lists.push(String::from_str("ul"));
    lists.push(String::from_str("ol"));
    rules.push(
        (
            String::from_str("list"),
            Rule { filter: RuleFilter::TagList(lists), replacement: Replacement::List },
        ),
    );
    rules.push(
        (
            String::from_str("listItem"),
            Rule {
                filter: RuleFilter::Tag(String::from_str("li")),
                replacement: Replacement::ListItem,
            },
        ),
    );
    rules.push(
        (
            String::from_str("indentedCodeBlock"),
            Rule {
                filter: RuleFilter::Pred(FilterPredicate::IndentedPre),
                replacement: Replacement::IndentedCodeBlock,
            },
        ),
    );
    rules.push(
        (
            String::from_str("fencedCodeBlock"),
            Rule {
                filter: RuleFilter::Pred(FilterPredicate::FencedPre),
                replacement: Replacement::FencedCodeBlock,
            },
        ),
    );
    rules.push(
        (
            String::from_str("horizontalRule"),
            Rule {
                filter: RuleFilter::Tag(String::from_str("hr")),
                replacement: Replacement::HorizontalRule,
            },
        ),
    );
    rules.push(
        (
            String::from_str("inlineLink"),
            Rule {
                filter: RuleFilter::Pred(FilterPredicate::InlineAnchor),
                replacement: Replacement::InlineLink,
            },
        ),
    );
    rules.push(
        (
            String::from_str("referenceLink"),
            Rule {
                filter: RuleFilter::Pred(FilterPredicate::ReferenceAnchor),
                replacement: Replacement::ReferenceLink,
            },
        ),
    );
    let mut ems: Vec<String> = Vec::new();
    ems.push(String::from_str("em"));
    ems.push(String::from_str("i"));
    rules.push(
        (
            String::from_str("emphasis"),
            Rule { filter: RuleFilter::TagList(ems), replacement: Replacement::Emphasis },
        ),
    );
    let mut strongs: Vec<String> = Vec::new();
    strongs.push(String::from_str("strong"));
    strongs.push(String::from_str("b"));
    rules.push(
        (
            String::from_str("strong"),
            Rule { filter: RuleFilter::TagList(strongs), replacement: Replacement::Strong },
        ),
    );
    rules.push(
        (
            String::from_str("code"),
            Rule {
                filter: RuleFilter::Pred(FilterPredicate::CodeOutsidePre),
                replacement: Replacement::InlineCode,
            },
        ),
    );
    rules.push(
        (
            String::from_str("image"),
            Rule {
                filter: RuleFilter::Tag(String::from_str("img")),
                replacement: Replacement::Image,
            },
        ),
    );
    rules.push(
        (
            String::from_str("comment"),
            Rule {
                filter: RuleFilter::Pred(FilterPredicate::CommentNode),
                replacement: Replacement::DropContent,
            },
        ),
    );
    rules.push(
        (
            String::from_str("processingInstruction"),
            Rule {
                filter: RuleFilter::Pred(FilterPredicate::ProcessingInstructionNode),
                replacement: Replacement::DropContent,
            },
        ),
    );
    rules.push(
        (
            String::from_str("style"),
            Rule {
                filter: RuleFilter::Tag(String::from_str("style")),
                replacement: Replacement::DropContent,
            },
        ),
    );
    rules.push(
        (
            String::from_str("script"),
            Rule {
                filter: RuleFilter::Tag(String::from_str("script")),
                replacement: Replacement::DropContent,
            },
        ),
    );
    rules.push(
        (
            String::from_str("hiddenPreheader"),
            Rule {
                filter: RuleFilter::Pred(FilterPredicate::HiddenPreheaderDiv),
                replacement: Replacement::HiddenPreheader,
            },
        ),
    );
    rules.push(
        (
            String::from_str("superscript"),
            Rule {
                filter: RuleFilter::Tag(String::from_str("sup")),
                replacement: Replacement::Superscript,
            },
        ),
    );
    rules.push(
        (
            String::from_str("subscript"),
            Rule {
                filter: RuleFilter::Tag(String::from_str("sub")),
                replacement: Replacement::Subscript,
            },
        ),
    );
    rules
}

} // verus!
