//! The conversion engine: configuration options, the recursive tree walk
//! that renders nodes through the rule table, Markdown escaping, the
//! newline-aware fragment join, and the final post-processing pass.

use vstd::prelude::*;

use crate::commonmark_rules::apply_replacement;
use crate::commonmark_rules::apply_spec;
use crate::commonmark_rules::default_rules_table;
use crate::commonmark_rules::get_rules;
use crate::node::flanking_leading_spec;
use crate::node::flanking_trailing_spec;
use crate::node::Node;
use crate::node::NodeType;
use crate::rules::for_node_spec;
use crate::rules::rule_like;
use crate::rules::Rule;
use crate::rules::RuleFilter;
use crate::rules::Rules;
use crate::text::chars_of;
use crate::text::lemma_rtake_while_len_at;
use crate::text::lemma_take_while_len_at;
use crate::text::rtake_while_len;
use crate::text::string_of;
use crate::text::subvec;
use crate::text::take_while_len;
use crate::text::trim_chars;
use crate::text::trim_spec;
use crate::text::trim_start_chars;
use crate::text::trim_start_spec;
use crate::text::str_eq_str;
use crate::utilities::is_block_name;
use crate::utilities::nl_prefix_len;
use crate::utilities::nl_suffix_len;
use crate::utilities::trim_leading_newlines_spec;
use crate::utilities::trim_trailing_newlines_spec;

verus! {

/// Style for rendering headings.
#[derive(Clone, Copy, Debug, PartialEq, Eq, Structural)]
pub enum HeadingStyle {
    Setext,
    Atx,
}

/// Style for rendering code blocks.
#[derive(Clone, Copy, Debug, PartialEq, Eq, Structural)]
pub enum CodeBlockStyle {
    Indented,
    Fenced,
}

/// Style for rendering links.
#[derive(Clone, Copy, Debug, PartialEq, Eq, Structural)]
pub enum LinkStyle {
    Inlined,
    Referenced,
}

/// Sub-style for reference links.
#[derive(Clone, Copy, Debug, PartialEq, Eq, Structural)]
pub enum LinkReferenceStyle {
    Full,
    Collapsed,
    Shortcut,
}

/// The kind of list an item belongs to.
#[derive(Clone, Copy, Debug, PartialEq, Eq, Structural)]
pub enum ListKind {
    Ordered,
    Unordered,
}

/// The list context threaded through the walk: the kind of the nearest
/// enclosing list and the 1-based index of the current item in it.
#[derive(Clone, Copy, Debug, PartialEq, Eq, Structural)]
pub struct ListContext {
    pub kind: ListKind,
    pub index: usize,
}

/// Configuration options for one conversion run, consumed read-only.
#[derive(Debug)]
pub struct Options {
    /// The conversion rules, in precedence order.
    pub rules: Vec<(String, Rule)>,
    /// Style for rendering headings (default: atx).
    pub heading_style: HeadingStyle,
    /// Text used to render horizontal rules (default: `* * *`).
    pub hr: String,
    /// Marker used for bullet lists (default: `*`).
    pub bullet_list_marker: String,
    /// Style for rendering code blocks (default: fenced).
    pub code_block_style: CodeBlockStyle,
    /// Delimiter used for fenced code blocks (default: three backticks).
    pub fence: String,
    /// Delimiter used for emphasis (default: `_`).
    pub em_delimiter: String,
    /// Delimiter used for strong emphasis (default: `**`).
    pub strong_delimiter: String,
    /// Style for rendering links (default: inlined).
    pub link_style: LinkStyle,
    /// Sub-style for reference links (default: full).
    pub link_reference_style: LinkReferenceStyle,
    /// Text used for line breaks (default: two spaces).
    pub br: String,
    /// Whether tracking images are stripped (default: off).
    pub strip_tracking_images: bool,
    /// Pattern identifying tracking images; comes with a built-in default.
    pub tracking_image_pattern: Option<String>,
    /// Whether images without alternative text are stripped (default: off).
    pub strip_images_without_alt: bool,
}

pub type TurndownOptions = Options;

/// The built-in pattern that heuristically identifies tracking-image URLs.
pub open spec fn default_tracking_pattern() -> Seq<char> {
    "(?i)(pixel|beacon|\\.com/ts|splash.tools/o/|tr/op|track|klclick.com/o/|ho\\.gif|transp|msg_del_|analytics|spacer|tagpixel|emimp/ip_|utm_|/open\\?|\\.gif\\?|1x1|/tr/|/track\\.)"@
}

/// The documented default configuration: atx headings, `* * *` rules, `*`
/// bullets, fenced code with backticks, `_` and `**` delimiters, inlined
/// links with full references, two-space line breaks, and tracking-image
/// stripping off with the built-in pattern ready.
pub open spec fn is_default_options(o: Options) -> bool {
    &&& default_rules_table(o.rules@)
    &&& o.heading_style == HeadingStyle::Atx
    &&& o.hr@ == "* * *"@
    &&& o.bullet_list_marker@ == "*"@
    &&& o.code_block_style == CodeBlockStyle::Fenced
    &&& o.fence@ == "```"@
    &&& o.em_delimiter@ == "_"@
    &&& o.strong_delimiter@ == "**"@
    &&& o.link_style == LinkStyle::Inlined
    &&& o.link_reference_style == LinkReferenceStyle::Full
    &&& o.br@ == "  "@
    &&& !o.strip_tracking_images
    &&& o.tracking_image_pattern matches Some(p) && p@ == default_tracking_pattern()
    &&& !o.strip_images_without_alt
}

impl Default for Options {
    /// The default options, as the documentation states them.
    fn default() -> (r: Options)
        ensures
            is_default_options(r),
    {
        Options {
            rules: get_rules(),
            heading_style: HeadingStyle::Atx,
            hr: String::from_str("* * *"),
            bullet_list_marker: String::from_str("*"),
            code_block_style: CodeBlockStyle::Fenced,
            fence: String::from_str("```"),
            em_delimiter: String::from_str("_"),
            strong_delimiter: String::from_str("**"),
            link_style: LinkStyle::Inlined,
            link_reference_style: LinkReferenceStyle::Full,
            br: String::from_str("  "),
            strip_tracking_images: false,
            tracking_image_pattern: Some(
                String::from_str(
                    "(?i)(pixel|beacon|\\.com/ts|splash.tools/o/|tr/op|track|klclick.com/o/|ho\\.gif|transp|msg_del_|analytics|spacer|tagpixel|emimp/ip_|utm_|/open\\?|\\.gif\\?|1x1|/tr/|/track\\.)",
                ),
            ),
            strip_images_without_alt: false,
        }
    }
}

/// One escaping pass: a backslash inserted before every occurrence of `c`.
pub open spec fn esc_all(s: Seq<char>, c: char) -> Seq<char>
    decreases s.len(),
{
    if s.len() == 0 {
        Seq::empty()
    } else {
        (if s[0] == c {
            seq!['\\', c]
        } else {
            seq![s[0]]
        }) + esc_all(s.drop_first(), c)
    }
}

/// A backslash prepended when the text starts with a dash.
pub open spec fn esc_lead_dash(s: Seq<char>) -> Seq<char> {
    if s.len() > 0 && s[0] == '-' {
        seq!['\\'] + s
    } else {
        s
    }
}

/// A backslash prepended when the text starts with `+ `.
pub open spec fn esc_lead_plus(s: Seq<char>) -> Seq<char> {
    if s.len() >= 2 && s[0] == '+' && s[1] == ' ' {
        seq!['\\'] + s
    } else {
        s
    }
}

/// A backslash prepended when the text starts with an equals-sign run.
pub open spec fn esc_lead_eq(s: Seq<char>) -> Seq<char> {
    if s.len() > 0 && s[0] == '=' {
        seq!['\\'] + s
    } else {
        s
    }
}

/// A backslash prepended when the text starts with one to six `#`
/// characters followed by a space.
pub open spec fn esc_lead_atx(s: Seq<char>) -> Seq<char> {
    let h = take_while_len(s, |c: char| c == '#');
    if 1 <= h <= 6 && h < s.len() && s[h] == ' ' {
        seq!['\\'] + s
    } else {
        s
    }
}

/// A backslash prepended when the text starts with three tildes.
pub open spec fn esc_lead_tilde(s: Seq<char>) -> Seq<char> {
    if s.len() >= 3 && s[0] == '~' && s[1] == '~' && s[2] == '~' {
        seq!['\\'] + s
    } else {
        s
    }
}

/// A backslash prepended when the text starts with `>`.
pub open spec fn esc_lead_gt(s: Seq<char>) -> Seq<char> {
    if s.len() > 0 && s[0] == '>' {
        seq!['\\'] + s
    } else {
        s
    }
}

/// A backslash inserted before the period when the text starts like an
/// ordered-list item: digits, a period, a space.
pub open spec fn esc_lead_ordered(s: Seq<char>) -> Seq<char> {
    let d = take_while_len(s, |c: char| crate::text::is_digit_char(c));
    if d >= 1 && d + 1 < s.len() && s[d] == '.' && s[d + 1] == ' ' {
        s.take(d) + seq!['\\'] + s.skip(d)
    } else {
        s
    }
}

/// The whole escaping transform: the ordered, sequential substitutions
/// that protect Markdown's special characters in plain text.
pub open spec fn escape_text(s: Seq<char>) -> Seq<char> {
    let e1 = esc_all(s, '\\');
    let e2 = esc_all(e1, '*');
    let e3 = esc_lead_dash(e2);
    let e4 = esc_lead_plus(e3);
    let e5 = esc_lead_eq(e4);
    let e6 = esc_lead_atx(e5);
    let e7 = esc_all(e6, '`');
    let e8 = esc_lead_tilde(e7);
    let e9 = esc_all(e8, '[');
    let e10 = esc_all(e9, ']');
    let e11 = esc_lead_gt(e10);
    let e12 = esc_all(e11, '_');
    esc_lead_ordered(e12)
}

/// One escaping pass over a character vector.
#[verifier::loop_isolation(false)]
fn esc_all_exec(v: &Vec<char>, c: char) -> (r: Vec<char>)
    ensures
        r@ == esc_all(v@, c),
{
    let n = v.len();
    let mut out: Vec<char> = Vec::new();
    let mut i: usize = 0;
    proof {
        assert(v@.skip(0) =~= v@);
    }
    while i < n
        invariant
            i <= n,
            esc_all(v@, c) == out@ + esc_all(v@.skip(i as int), c),
        decreases n - i,
    {
        let ghost out0 = out@;
        let ghost rest = v@.skip(i as int);
        if v[i] == c {
            out.push('\\');
            out.push(c);
            assert(out@ =~= out0 + seq!['\\', c]);
        } else {
            out.push(v[i]);
            assert(out@ =~= out0 + seq![v@[i as int]]);
        }
        proof {
            assert(rest.drop_first() =~= v@.skip(i + 1));
        }
        i += 1;
    }
    proof {
        assert(v@.skip(n as int) =~= Seq::<char>::empty());
    }
    out
}

/// A fresh vector holding a backslash followed by all of `v`.
fn prepend_backslash(v: Vec<char>) -> (r: Vec<char>)
    ensures
        r@ == seq!['\\'] + v@,
{
    let mut out: Vec<char> = Vec::new();
    out.push('\\');
    crate::text::append_chars(&mut out, &v);
    assert(out@ =~= seq!['\\'] + v@);
    out
}

/// The whole escaping transform over a character vector.
fn escape_chars(v: &Vec<char>) -> (r: Vec<char>)
    ensures
        r@ == escape_text(v@),
{
    let e1 = esc_all_exec(v, '\\');
    let e2 = esc_all_exec(&e1, '*');
    let e3 = if e2.len() > 0 && e2[0] == '-' {
        prepend_backslash(e2)
    } else {
        e2
    };
    let e4 = if e3.len() >= 2 && e3[0] == '+' && e3[1] == ' ' {
        prepend_backslash(e3)
    } else {
        e3
    };
    let e5 = if e4.len() > 0 && e4[0] == '=' {
        prepend_backslash(e4)
    } else {
        e4
    };
    let mut h: usize = 0;
    while h < e5.len() && e5[h] == '#'
        invariant
            h <= e5@.len(),
            forall|j: int| 0 <= j < h ==> e5@[j] == '#',
        decreases e5@.len() - h,
    {
        h += 1;
    }
    proof {
        lemma_take_while_len_at(e5@, |c: char| c == '#', h as int);
    }
    let e6 = if 1 <= h && h <= 6 && h < e5.len() && e5[h] == ' ' {
        prepend_backslash(e5)
    } else {
        e5
    };
    let e7 = esc_all_exec(&e6, '`');
    let e8 = if e7.len() >= 3 && e7[0] == '~' && e7[1] == '~' && e7[2] == '~' {
        prepend_backslash(e7)
    } else {
        e7
    };
    let e9 = esc_all_exec(&e8, '[');
    let e10 = esc_all_exec(&e9, ']');
    let e11 = if e10.len() > 0 && e10[0] == '>' {
        prepend_backslash(e10)
    } else {
        e10
    };
    let e12 = esc_all_exec(&e11, '_');
    let mut d: usize = 0;
    while d < e12.len() && crate::text::digit_char(e12[d])
        invariant
            d <= e12@.len(),
            forall|j: int| 0 <= j < d ==> crate::text::is_digit_char(e12@[j]),
        decreases e12@.len() - d,
    {
        d += 1;
    }
    proof {
        lemma_take_while_len_at(e12@, |c: char| crate::text::is_digit_char(c), d as int);
    }
    if 1 <= d && d < e12.len() && e12[d] == '.' && d + 1 < e12.len() && e12[d + 1] == ' ' {
        let mut out = subvec(&e12, 0, d);
        out.push('\\');
        let tail = subvec(&e12, d, e12.len());
        crate::text::append_chars(&mut out, &tail);
        assert(out@ =~= e12@.take(d as int) + seq!['\\'] + e12@.skip(d as int));
        out
    } else {
        e12
    }
}

/// How two rendered fragments join: trailing newlines of the left and
/// leading newlines of the right collapse into at most one blank line.
pub open spec fn join_spec(a: Seq<char>, b: Seq<char>) -> Seq<char> {
    let s1 = trim_trailing_newlines_spec(a);
    let s2 = trim_leading_newlines_spec(b);
    let nls = if nl_suffix_len(a) >= nl_prefix_len(b) {
        nl_suffix_len(a)
    } else {
        nl_prefix_len(b)
    };
    let sep = if nls >= 2 {
        seq!['\n', '\n']
    } else if nls == 1 {
        seq!['\n']
    } else {
        Seq::<char>::empty()
    };
    s1 + sep + s2
}

/// Joins two rendered fragments with the appropriate newlines.
#[verifier::loop_isolation(false)]
fn join_chars(a: &Vec<char>, b: &Vec<char>) -> (r: Vec<char>)
    ensures
        r@ == join_spec(a@, b@),
{
    let an = a.len();
    let mut i: usize = an;
    while i > 0 && a[i - 1] == '\n'
        invariant
            i <= an,
            forall|k: int| i <= k < an ==> a@[k] == '\n',
        decreases i,
    {
        i -= 1;
    }
    proof {
        lemma_rtake_while_len_at(a@, |c: char| c == '\n', an - i);
    }
    let bn = b.len();
    let mut j: usize = 0;
    while j < bn && b[j] == '\n'
        invariant
            j <= bn,
            forall|k: int| 0 <= k < j ==> b@[k] == '\n',
        decreases bn - j,
    {
        j += 1;
    }
    proof {
        lemma_take_while_len_at(b@, |c: char| c == '\n', j as int);
    }
    let trailing = an - i;
    let leading = j;
    let nls = if trailing >= leading {
        trailing
    } else {
        leading
    };
    let mut out = subvec(a, 0, i);
    if nls >= 2 {
        out.push('\n');
        out.push('\n');
    } else if nls == 1 {
        out.push('\n');
    }
    let tail = subvec(b, j, bn);
    crate::text::append_chars(&mut out, &tail);
    proof {
        assert(a@.subrange(0, i as int) =~= trim_trailing_newlines_spec(a@));
        assert(b@.subrange(j as int, bn as int) =~= trim_leading_newlines_spec(b@));
        assert(out@ =~= join_spec(a@, b@));
    }
    out
}

/// One step of the newline-collapsing scan: `count` newlines seen in the
/// current run, spaces and tabs and carriage returns passing through
/// without resetting it.
pub open spec fn collapse_step(s: Seq<char>, i: int, count: int, acc: Seq<char>) -> Seq<char>
    decreases s.len() - i,
{
    if i < 0 || i >= s.len() {
        acc
    } else {
        let c = s[i];
        if c == '\n' {
            if count + 1 <= 2 {
                collapse_step(s, i + 1, count + 1, acc + seq![c])
            } else {
                collapse_step(s, i + 1, count + 1, acc)
            }
        } else if c == ' ' || c == '\t' || c == '\r' {
            collapse_step(s, i + 1, count, acc + seq![c])
        } else {
            collapse_step(s, i + 1, 0, acc + seq![c])
        }
    }
}

/// Runs of three or more newlines collapse down to two.
pub open spec fn collapse_newlines_spec(s: Seq<char>) -> Seq<char> {
    collapse_step(s, 0, 0, Seq::empty())
}

/// The final pass over a rendered document: newline runs collapse to blank
/// lines, then stray whitespace at the two ends is trimmed away.
pub open spec fn post_process_spec(s: Seq<char>) -> Seq<char> {
    let c = collapse_newlines_spec(s);
    let t1 = c.skip(take_while_len(c, |ch: char| ch == '\t' || ch == '\r' || ch == '\n'));
    t1.take(
        t1.len() - rtake_while_len(
            t1,
            |ch: char| ch == '\t' || ch == '\r' || ch == '\n' || ch == ' ',
        ),
    )
}

/// Collapses newline runs and trims the ends of the final output.
#[verifier::loop_isolation(false)]
fn post_process_chars(v: &Vec<char>) -> (r: Vec<char>)
    ensures
        r@ == post_process_spec(v@),
{
    let n = v.len();
    let mut acc: Vec<char> = Vec::new();
    let mut count: usize = 0;
    let mut i: usize = 0;
    while i < n
        invariant
            i <= n,
            count <= i,
            collapse_step(v@, i as int, count as int, acc@) == collapse_step(
                v@,
                0,
                0,
                Seq::empty(),
            ),
        decreases n - i,
    {
        let ghost acc0 = acc@;
        let c = v[i];
        if c == '\n' {
            if count + 1 <= 2 {
                acc.push(c);
                assert(acc@ =~= acc0 + seq![c]);
            }
            count += 1;
        } else if c == ' ' || c == '\t' || c == '\r' {
            acc.push(c);
            assert(acc@ =~= acc0 + seq![c]);
        } else {
            count = 0;
            acc.push(c);
            assert(acc@ =~= acc0 + seq![c]);
        }
        i += 1;
    }
    proof {
        assert(collapse_step(v@, n as int, count as int, acc@) == acc@);
    }
    let m = acc.len();
    let mut s: usize = 0;
    while s < m && (acc[s] == '\t' || acc[s] == '\r' || acc[s] == '\n')
        invariant
            s <= m,
            forall|k: int| 0 <= k < s ==> (acc@[k] == '\t' || acc@[k] == '\r' || acc@[k] == '\n'),
        decreases m - s,
    {
        s += 1;
    }
    proof {
        lemma_take_while_len_at(
            acc@,
            |ch: char| ch == '\t' || ch == '\r' || ch == '\n',
            s as int,
        );
    }
    let t1 = subvec(&acc, s, m);
    assert(t1@ =~= acc@.skip(s as int));
    let tm = t1.len();
    let mut e: usize = tm;
    while e > 0 && (t1[e - 1] == '\t' || t1[e - 1] == '\r' || t1[e - 1] == '\n' || t1[e - 1]
        == ' ')
        invariant
            e <= tm,
            forall|k: int|
                e <= k < tm ==> (t1@[k] == '\t' || t1@[k] == '\r' || t1@[k] == '\n' || t1@[k]
                    == ' '),
        decreases e,
    {
        e -= 1;
    }
    proof {
        lemma_rtake_while_len_at(
            t1@,
            |ch: char| ch == '\t' || ch == '\r' || ch == '\n' || ch == ' ',
            tm - e,
        );
    }
    let r = subvec(&t1, 0, e);
    assert(r@ =~= t1@.take(e as int));
    r
}

/// The list context the children of `node` see: a fresh context at a list
/// boundary, the surrounding one otherwise.
pub open spec fn inner_list_ctx(node: Node, list: Option<ListContext>) -> Option<ListContext> {
    if node.node_name@ == "OL"@ {
        Some(ListContext { kind: ListKind::Ordered, index: 0 })
    } else if node.node_name@ == "UL"@ {
        Some(ListContext { kind: ListKind::Unordered, index: 0 })
    } else {
        list
    }
}

/// The main conversion state: the rule collection, which carries the
/// options of the run.
pub struct Turndown {
    pub rules: Rules,
}

/// What the walk renders for the children of `node` from index `i` on,
/// with `counter` list items already numbered and `acc` the output built
/// so far: text children are escaped unless marked as code, element
/// children render through their selected rule, list items advance the
/// item counter, and fragments join with newline-aware separators.
pub open spec fn walk(
    t: Turndown,
    node: Node,
    ilist: Option<ListContext>,
    ipre: bool,
    i: int,
    counter: int,
    acc: Seq<char>,
) -> Seq<char>
    decreases node, node.children@.len() - i, 0int,
{
    if i < 0 || i >= node.children@.len() {
        acc
    } else {
        let child = node.children@[i];
        if child.node_type == NodeType::Text {
            let rep = if child.is_code {
                child.node_value@
            } else {
                escape_text(child.node_value@)
            };
            walk(t, node, ilist, ipre, i + 1, counter, join_spec(acc, rep))
        } else if child.node_type == NodeType::Element {
            if child.node_name@ == "LI"@ && ilist is Some {
                let lc = ListContext { kind: ilist->0.kind, index: (counter + 1) as usize };
                let rep = node_output(t, child, Some(lc), ipre);
                walk(t, node, ilist, ipre, i + 1, counter + 1, join_spec(acc, rep))
            } else {
                let rep = node_output(t, child, ilist, ipre);
                walk(t, node, ilist, ipre, i + 1, counter, join_spec(acc, rep))
            }
        } else {
            walk(t, node, ilist, ipre, i + 1, counter, join_spec(acc, Seq::empty()))
        }
    }
}

/// What rendering the children of `node` produces: the walk from the
/// start, under the list context and preformatted flag the node
/// establishes for its children.
pub open spec fn children_output(
    t: Turndown,
    node: Node,
    list: Option<ListContext>,
    in_pre: bool,
) -> Seq<char>
    decreases node, node.children@.len() + 1, 0int,
{
    walk(
        t,
        node,
        inner_list_ctx(node, list),
        in_pre || node.node_name@ == "PRE"@,
        0,
        0,
        Seq::empty(),
    )
}

/// What rendering one element produces: its children's output, trimmed and
/// stripped of flanking whitespace as block or inline position demands,
/// passed to the selected rule, with the stripped whitespace re-attached
/// around the rule's output.
pub open spec fn node_output(
    t: Turndown,
    node: Node,
    list: Option<ListContext>,
    in_pre: bool,
) -> Seq<char>
    decreases node, node.children@.len() + 2, 0int,
{
    let new_in_pre = in_pre || node.node_name@ == "PRE"@;
    let content0 = children_output(t, node, list, new_in_pre);
    let ws_lead = flanking_leading_spec(node);
    let ws_trail = flanking_trailing_spec(node);
    let is_cell = node.node_name@ == "TD"@ || node.node_name@ == "TH"@;
    let is_blk = is_block_name(node.node_name@);
    let c1 = if is_blk {
        trim_start_spec(content0)
    } else {
        content0
    };
    let lead = if is_cell || is_blk {
        Seq::<char>::empty()
    } else {
        ws_lead
    };
    let trail = if is_cell || is_blk {
        Seq::<char>::empty()
    } else {
        ws_trail
    };
    let c2 = if ws_lead.len() > 0 || ws_trail.len() > 0 {
        trim_spec(c1)
    } else {
        c1
    };
    let rep = for_node_spec(t.rules, node, new_in_pre);
    lead + apply_spec(rep, c2, node, list, t.rules.options) + trail
}

/// What one whole conversion produces: the root's children rendered and
/// post-processed.
pub open spec fn convert_spec(t: Turndown, root: Node) -> Seq<char> {
    post_process_spec(children_output(t, root, None, false))
}

impl Default for Turndown {
    /// A converter with the default options.
    fn default() -> (r: Turndown)
        ensures
            is_default_options(r.rules.options),
            r.rules.array@.len() == r.rules.options.rules@.len(),
            forall|i: int|
                0 <= i < r.rules.array@.len() ==> rule_like(
                    #[trigger] r.rules.array@[i],
                    r.rules.options.rules@[i].1,
                ),
            r.rules.keep@.len() == 0,
            r.rules.remove@.len() == 0,
    {
        Turndown::new()
    }
}

impl Turndown {
    /// Creates a converter with the default options.
    pub fn new() -> (r: Turndown)
        ensures
            is_default_options(r.rules.options),
            r.rules.array@.len() == r.rules.options.rules@.len(),
            forall|i: int|
                0 <= i < r.rules.array@.len() ==> rule_like(
                    #[trigger] r.rules.array@[i],
                    r.rules.options.rules@[i].1,
                ),
            r.rules.keep@.len() == 0,
            r.rules.remove@.len() == 0,
    {
        Self::with_options(Options::default())
    }

    /// Creates a converter with the given options.
    pub fn with_options(options: Options) -> (r: Turndown)
        ensures
            r.rules.options == options,
            r.rules.array@.len() == options.rules@.len(),
            forall|i: int|
                0 <= i < r.rules.array@.len() ==> rule_like(
                    #[trigger] r.rules.array@[i],
                    options.rules@[i].1,
                ),
            r.rules.keep@.len() == 0,
            r.rules.remove@.len() == 0,
    {
        Turndown { rules: Rules::new(options) }
    }

    /// The options of this conversion run.
    pub fn options(&self) -> (r: &Options)
        ensures
            *r == self.rules.options,
    {
        &self.rules.options
    }

    /// Converts a parsed node tree to Markdown text.
    pub fn convert(&self, root: &Node) -> (r: String)
        ensures
            r@ == convert_spec(*self, *root),
    {
        let out = self.process_node(root, None, false);
        let cooked = post_process_chars(&out);
        string_of(&cooked)
    }

    /// Renders the children of a node under the given context.
    #[verifier::loop_isolation(false)]
    fn process_node(&self, node: &Node, list: Option<ListContext>, in_pre: bool) -> (r: Vec<char>)
        ensures
            r@ == children_output(*self, *node, list, in_pre),
        decreases *node, node.children@.len() + 1, 0int,
    {
        let ilist: Option<ListContext> = if str_eq_str(node.node_name.as_str(), "OL") {
            Some(ListContext { kind: ListKind::Ordered, index: 0 })
        } else if str_eq_str(node.node_name.as_str(), "UL") {
            Some(ListContext { kind: ListKind::Unordered, index: 0 })
        } else {
            list
        };
        let ipre = in_pre || str_eq_str(node.node_name.as_str(), "PRE");
        assert(ilist == inner_list_ctx(*node, list));
        assert(ipre == (in_pre || node.node_name@ == "PRE"@));
        let n = node.children.len();
        let mut acc: Vec<char> = Vec::new();
        let mut counter: usize = 0;
        let mut i: usize = 0;
        while i < n
            invariant
                i <= n,
                counter <= i,
                walk(*self, *node, ilist, ipre, i as int, counter as int, acc@) == walk(
                    *self,
                    *node,
                    ilist,
                    ipre,
                    0,
                    0,
                    Seq::empty(),
                ),
            decreases n - i,
        {
            let ghost acc0 = acc@;
            let ghost counter0 = counter;
            let child = &node.children[i];
            let rep: Vec<char> = if child.node_type == NodeType::Text {
                let value = chars_of(child.node_value.as_str());
                if child.is_code {
                    value
                } else {
                    escape_chars(&value)
                }
            } else if child.node_type == NodeType::Element {
                if str_eq_str(child.node_name.as_str(), "LI") && ilist.is_some() {
                    counter += 1;
                    let kind = match ilist {
                        Some(lc) => lc.kind,
                        None => ListKind::Unordered,
                    };
                    self.replacement_for_node(
                        child,
                        Some(ListContext { kind, index: counter }),
                        ipre,
                    )
                } else {
                    self.replacement_for_node(child, ilist, ipre)
                }
            } else {
                Vec::new()
            };
            let joined = join_chars(&acc, &rep);
            acc = joined;
            proof {
                assert(walk(*self, *node, ilist, ipre, i + 1, counter as int, acc@) == walk(
                    *self,
                    *node,
                    ilist,
                    ipre,
                    i as int,
                    counter0 as int,
                    acc0,
                ));
            }
            i += 1;
        }
        acc
    }

    /// Renders one element node under the given context.
    fn replacement_for_node(&self, node: &Node, list: Option<ListContext>, in_pre: bool) -> (r:
        Vec<char>)
        ensures
            r@ == node_output(*self, *node, list, in_pre),
        decreases *node, node.children@.len() + 2, 0int,
    {
        let new_in_pre = in_pre || str_eq_str(node.node_name.as_str(), "PRE");
        assert(new_in_pre == (in_pre || node.node_name@ == "PRE"@));
        let content0 = self.process_node(node, list, new_in_pre);
        let ws = node.flanking_whitespace();
        let is_cell = str_eq_str(node.node_name.as_str(), "TD") || str_eq_str(
            node.node_name.as_str(),
            "TH",
        );
        let is_blk = node.is_block();
        let c1 = if is_blk {
            trim_start_chars(&content0)
        } else {
            content0
        };
        let has_flank = !ws.leading.as_str().is_empty() || !ws.trailing.as_str().is_empty();
        let c2 = if has_flank {
            trim_chars(&c1)
        } else {
            c1
        };
        let rep = self.rules.for_node(node, new_in_pre);
        let body = apply_replacement(rep, &c2, node, list, &self.rules.options);
        let mut out: Vec<char> = Vec::new();
        if !(is_cell || is_blk) {
            let lead = chars_of(ws.leading.as_str());
            crate::text::append_chars(&mut out, &lead);
        }
        crate::text::append_chars(&mut out, &body);
        if !(is_cell || is_blk) {
            let trail = chars_of(ws.trailing.as_str());
            crate::text::append_chars(&mut out, &trail);
        }
        proof {
            assert(out@ =~= node_output(*self, *node, list, in_pre));
        }
        out
    }

    /// Escapes Markdown special characters in plain text.
    pub fn escape(&self, string: &str) -> (r: String)
        ensures
            r@ == escape_text(string@),
    {
        let v = chars_of(string);
        let escaped = escape_chars(&v);
        string_of(&escaped)
    }

    /// Adds a custom rule at the highest precedence.
    pub fn add_rule(&mut self, key: String, rule: Rule)
        ensures
            final(self).rules.array@ == seq![rule] + old(self).rules.array@,
            final(self).rules.keep@ == old(self).rules.keep@,
            final(self).rules.remove@ == old(self).rules.remove@,
            final(self).rules.options == old(self).rules.options,
    {
        self.rules.add(key, rule);
    }

    /// Keeps nodes matching a filter as raw markup.
    pub fn keep(&mut self, filter: RuleFilter)
        ensures
            final(self).rules.keep@ == old(self).rules.keep@.push(
                Rule { filter, replacement: crate::rules::Replacement::KeepMarkup },
            ),
            final(self).rules.array@ == old(self).rules.array@,
            final(self).rules.remove@ == old(self).rules.remove@,
            final(self).rules.options == old(self).rules.options,
    {
        self.rules.keep(filter);
    }

    /// Removes nodes matching a filter entirely.
    pub fn remove(&mut self, filter: RuleFilter)
        ensures
            final(self).rules.remove@ == old(self).rules.remove@.push(
                Rule { filter, replacement: crate::rules::Replacement::DropContent },
            ),
            final(self).rules.array@ == old(self).rules.array@,
            final(self).rules.keep@ == old(self).rules.keep@,
            final(self).rules.options == old(self).rules.options,
    {
        self.rules.remove(filter);
    }
}


} // verus!
