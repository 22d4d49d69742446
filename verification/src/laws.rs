//! Properties of the conversion, stated and proved over the specification
//! functions that the executable contracts use.

use vstd::prelude::*;

use crate::commonmark_rules::apply_spec;
use crate::node::is_blank_spec;
use crate::node::Node;
use crate::rules::for_node_spec;
use crate::rules::Replacement;
use crate::rules::Rules;
use crate::text::is_digit_char;
use crate::text::rtake_while_len;
use crate::text::take_while_len;
use crate::node::NodeType;
use crate::rules::Rule;
use crate::turndown::collapse_newlines_spec;
use crate::turndown::join_spec;
use crate::turndown::node_output;
use crate::turndown::walk;
use crate::turndown::Turndown;
use crate::turndown::collapse_step;
use crate::turndown::post_process_spec;
use crate::turndown::HeadingStyle;
use crate::turndown::ListContext;
use crate::turndown::Options;
use crate::utilities::is_block_name;
use crate::utilities::repeat_char;

verus! {

broadcast use vstd::string::group_string_axioms;

/// A node classified blank renders through the synthetic blank rule — to a
/// blank line when it is block-level, to nothing otherwise — whatever other
/// rules the collection holds and whatever content was rendered for it.
pub proof fn lemma_blank_node_rendering(
    rules: Rules,
    node: Node,
    in_pre: bool,
    content: Seq<char>,
    list: Option<ListContext>,
    opts: Options,
)
    requires
        is_blank_spec(node),
    ensures
        for_node_spec(rules, node, in_pre) == Replacement::BlankNode,
        apply_spec(for_node_spec(rules, node, in_pre), content, node, list, opts) == (
        if is_block_name(node.node_name@) {
            seq!['\n', '\n']
        } else {
            Seq::<char>::empty()
        }),
{
}

/// Under the atx heading style, a heading of level 1 through 6 renders as
/// that many `#` characters, one space, and the content, with one blank
/// line on each side.
pub proof fn lemma_atx_heading_shape(
    content: Seq<char>,
    node: Node,
    list: Option<ListContext>,
    opts: Options,
    level: nat,
)
    requires
        opts.heading_style == HeadingStyle::Atx,
        1 <= level <= 6,
        node.node_name@.len() == 2,
        is_digit_char(node.node_name@[1]),
        node.node_name@[1] as u32 - 0x30 == level,
    ensures
        apply_spec(Replacement::Heading, content, node, list, opts) == seq!['\n', '\n']
            + repeat_char('#', level) + seq![' '] + content + seq!['\n', '\n'],
{
}

/// A 1-by-1 image without alternative text renders to nothing, whatever
/// the options say about tracking-image stripping.
pub proof fn lemma_pixel_image_omitted(
    content: Seq<char>,
    node: Node,
    list: Option<ListContext>,
    opts: Options,
)
    requires
        crate::text::trim_spec(crate::commonmark_rules::attr_or_empty(node, "alt"@)).len() == 0,
        crate::commonmark_rules::attr_or_empty(node, "width"@) == seq!['1'],
        crate::commonmark_rules::attr_or_empty(node, "height"@) == seq!['1'],
    ensures
        apply_spec(Replacement::Image, content, node, list, opts) == Seq::<char>::empty(),
{
}

/// No three consecutive newlines anywhere in `s`.
pub open spec fn no_triple_newline(s: Seq<char>) -> bool {
    forall|i: int|
        0 <= i && i + 2 < s.len() ==> !(s[i] == '\n' && s[i + 1] == '\n' && #[trigger] s[i + 2]
            == '\n')
}

proof fn lemma_append_keeps_no_triple(acc: Seq<char>, c: char)
    requires
        no_triple_newline(acc),
        c == '\n' ==> !(acc.len() >= 2 && acc[acc.len() - 1] == '\n' && acc[acc.len() - 2] == '\n'),
    ensures
        no_triple_newline(acc + seq![c]),
{
    let r = acc + seq![c];
    assert forall|i: int|
        0 <= i && i + 2 < r.len() implies !(r[i] == '\n' && r[i + 1] == '\n' && #[trigger] r[i + 2]
        == '\n') by {
        if i + 2 < acc.len() {
            assert(!(acc[i] == '\n' && acc[i + 1] == '\n' && acc[i + 2] == '\n'));
        } else {
            assert(i + 2 == acc.len());
            assert(r[i] == acc[i] && r[i + 1] == acc[i + 1] && r[i + 2] == c);
        }
    }
}

proof fn lemma_collapse_step_no_triple(s: Seq<char>, i: int, count: int, acc: Seq<char>)
    requires
        0 <= i,
        0 <= count,
        no_triple_newline(acc),
        (acc.len() >= 1 && acc[acc.len() - 1] == '\n') ==> count >= 1,
        (acc.len() >= 2 && acc[acc.len() - 1] == '\n' && acc[acc.len() - 2] == '\n') ==> count
            >= 2,
    ensures
        no_triple_newline(collapse_step(s, i, count, acc)),
    decreases s.len() - i,
{
    if i >= s.len() {
    } else {
        let c = s[i];
        if c == '\n' {
            if count + 1 <= 2 {
                let acc2 = acc + seq![c];
                lemma_append_keeps_no_triple(acc, c);
                assert(acc2[acc2.len() - 1] == '\n');
                if acc2.len() >= 2 && acc2[acc2.len() - 2] == '\n' {
                    assert(acc[acc.len() - 1] == '\n');
                }
                lemma_collapse_step_no_triple(s, i + 1, count + 1, acc2);
            } else {
                lemma_collapse_step_no_triple(s, i + 1, count + 1, acc);
            }
        } else if c == ' ' || c == '\t' || c == '\r' {
            let acc2 = acc + seq![c];
            lemma_append_keeps_no_triple(acc, c);
            assert(acc2[acc2.len() - 1] != '\n');
            lemma_collapse_step_no_triple(s, i + 1, count, acc2);
        } else {
            let acc2 = acc + seq![c];
            lemma_append_keeps_no_triple(acc, c);
            assert(acc2[acc2.len() - 1] != '\n');
            lemma_collapse_step_no_triple(s, i + 1, 0, acc2);
        }
    }
}

proof fn lemma_subrange_keeps_no_triple(s: Seq<char>, a: int, b: int)
    requires
        0 <= a <= b <= s.len(),
        no_triple_newline(s),
    ensures
        no_triple_newline(s.subrange(a, b)),
{
    let r = s.subrange(a, b);
    assert forall|i: int|
        0 <= i && i + 2 < r.len() implies !(r[i] == '\n' && r[i + 1] == '\n' && #[trigger] r[i + 2]
        == '\n') by {
        assert(r[i] == s[a + i] && r[i + 1] == s[a + i + 1] && r[i + 2] == s[a + i + 2]);
        assert(!(s[a + i] == '\n' && s[a + i + 1] == '\n' && s[a + i + 2] == '\n'));
    }
}

/// Whatever text reaches the final pass, the published result never holds
/// a run of three or more consecutive newlines: every such run has been
/// reduced to a single blank line.
pub proof fn lemma_post_process_no_triple_newline(s: Seq<char>)
    ensures
        no_triple_newline(post_process_spec(s)),
{
    lemma_collapse_step_no_triple(s, 0, 0, Seq::empty());
    let c = collapse_newlines_spec(s);
    let p1 = |ch: char| ch == '\t' || ch == '\r' || ch == '\n';
    crate::text::lemma_take_while_len(c, p1);
    let k = take_while_len(c, p1);
    let t1 = c.skip(k);
    assert(t1 =~= c.subrange(k, c.len() as int));
    lemma_subrange_keeps_no_triple(c, k, c.len() as int);
    let p2 = |ch: char| ch == '\t' || ch == '\r' || ch == '\n' || ch == ' ';
    crate::text::lemma_rtake_while_len(t1, p2);
    let m = rtake_while_len(t1, p2);
    assert(t1.take(t1.len() - m) =~= t1.subrange(0, t1.len() - m));
    lemma_subrange_keeps_no_triple(t1, 0, t1.len() - m);
}


/// Every occurrence of `d` in `s` sits right after a backslash; when
/// `allow0` holds, an occurrence at the very start is tolerated too.
pub open spec fn escaped_at(s: Seq<char>, d: char, allow0: bool) -> bool {
    forall|i: int|
        0 <= i < s.len() && #[trigger] s[i] == d ==> (i > 0 && s[i - 1] == '\\') || (i == 0
            && allow0)
}

proof fn lemma_esc_all_escapes(s: Seq<char>, c: char)
    requires
        c != '\\',
    ensures
        escaped_at(crate::turndown::esc_all(s, c), c, false),
    decreases s.len(),
{
    if s.len() == 0 {
    } else {
        let r = crate::turndown::esc_all(s, c);
        let rest = crate::turndown::esc_all(s.drop_first(), c);
        lemma_esc_all_escapes(s.drop_first(), c);
        if s[0] == c {
            let head = seq!['\\', c];
            assert(r == head + rest);
            assert forall|i: int| 0 <= i < r.len() && #[trigger] r[i] == c implies (i > 0 && r[i
                - 1] == '\\') || (i == 0 && false) by {
                if i >= 2 {
                    assert(r[i] == rest[i - 2]);
                    assert(i - 2 > 0 && rest[i - 3] == '\\');
                    assert(r[i - 1] == rest[i - 3]);
                }
            }
        } else {
            let head = seq![s[0]];
            assert(r == head + rest);
            assert forall|i: int| 0 <= i < r.len() && #[trigger] r[i] == c implies (i > 0 && r[i
                - 1] == '\\') || (i == 0 && false) by {
                assert(i >= 1);
                assert(r[i] == rest[i - 1]);
                assert(i - 1 > 0 && rest[i - 2] == '\\');
                assert(r[i - 1] == rest[i - 2]);
            }
        }
    }
}

proof fn lemma_esc_all_preserves(s: Seq<char>, c: char, d: char, allow0: bool)
    requires
        c != d,
        c != '\\',
        d != '\\',
        escaped_at(s, d, allow0),
    ensures
        escaped_at(crate::turndown::esc_all(s, c), d, allow0),
    decreases s.len(),
{
    if s.len() == 0 {
    } else {
        let r = crate::turndown::esc_all(s, c);
        let tail = s.drop_first();
        let rest = crate::turndown::esc_all(tail, c);
        if s[0] == '\\' {
            assert(escaped_at(tail, d, true)) by {
                assert forall|j: int| 0 <= j < tail.len() && #[trigger] tail[j] == d implies (j > 0
                    && tail[j - 1] == '\\') || (j == 0 && true) by {
                    if j > 0 {
                        assert(s[j + 1] == d);
                        assert(s[j] == '\\');
                        assert(tail[j - 1] == s[j]);
                    }
                }
            }
            lemma_esc_all_preserves(tail, c, d, true);
            let head = seq![s[0]];
            assert(r == head + rest);
            assert forall|i: int| 0 <= i < r.len() && #[trigger] r[i] == d implies (i > 0 && r[i
                - 1] == '\\') || (i == 0 && allow0) by {
                assert(i >= 1);
                assert(r[i] == rest[i - 1]);
                if i == 1 {
                    assert(r[0] == '\\');
                } else {
                    assert(i - 1 > 0 && rest[i - 2] == '\\');
                    assert(r[i - 1] == rest[i - 2]);
                }
            }
        } else if s[0] == c {
            assert(escaped_at(tail, d, false)) by {
                assert forall|j: int| 0 <= j < tail.len() && #[trigger] tail[j] == d implies (j > 0
                    && tail[j - 1] == '\\') || (j == 0 && false) by {
                    assert(s[j + 1] == d);
                    assert(s[j] == '\\');
                    assert(j > 0);
                    assert(tail[j - 1] == s[j]);
                }
            }
            lemma_esc_all_preserves(tail, c, d, false);
            let head = seq!['\\', c];
            assert(r == head + rest);
            assert forall|i: int| 0 <= i < r.len() && #[trigger] r[i] == d implies (i > 0 && r[i
                - 1] == '\\') || (i == 0 && allow0) by {
                assert(i >= 2);
                assert(r[i] == rest[i - 2]);
                assert(i - 2 > 0 && rest[i - 3] == '\\');
                assert(r[i - 1] == rest[i - 3]);
            }
        } else {
            assert(escaped_at(tail, d, false)) by {
                assert forall|j: int| 0 <= j < tail.len() && #[trigger] tail[j] == d implies (j > 0
                    && tail[j - 1] == '\\') || (j == 0 && false) by {
                    assert(s[j + 1] == d);
                    assert(s[j] == '\\');
                    assert(j > 0);
                    assert(tail[j - 1] == s[j]);
                }
            }
            lemma_esc_all_preserves(tail, c, d, false);
            let head = seq![s[0]];
            assert(r == head + rest);
            assert forall|i: int| 0 <= i < r.len() && #[trigger] r[i] == d implies (i > 0 && r[i
                - 1] == '\\') || (i == 0 && allow0) by {
                if i == 0 {
                    assert(s[0] == d);
                } else {
                    assert(r[i] == rest[i - 1]);
                    assert(i - 1 > 0 && rest[i - 2] == '\\');
                    assert(r[i - 1] == rest[i - 2]);
                }
            }
        }
    }
}

/// Preservation through a pass that either leaves the text alone or
/// prepends one backslash.
proof fn lemma_prepend_case(x: Seq<char>, y: Seq<char>, d: char)
    requires
        d != '\\',
        y == x || y == seq!['\\'] + x,
        escaped_at(x, d, false),
    ensures
        escaped_at(y, d, false),
{
    if y == seq!['\\'] + x {
        assert forall|i: int| 0 <= i < y.len() && #[trigger] y[i] == d implies (i > 0 && y[i - 1]
            == '\\') || (i == 0 && false) by {
            assert(i >= 1);
            assert(y[i] == x[i - 1]);
            assert(i - 1 > 0 && x[i - 2] == '\\');
            assert(y[i - 1] == x[i - 2]);
        }
    }
}

proof fn lemma_ordered_insert_preserves(x: Seq<char>, d: char)
    requires
        d != '\\',
        !is_digit_char(d),
        d != '.',
        escaped_at(x, d, false),
    ensures
        escaped_at(crate::turndown::esc_lead_ordered(x), d, false),
{
    let y = crate::turndown::esc_lead_ordered(x);
    let k = take_while_len(x, |c: char| is_digit_char(c));
    crate::text::lemma_take_while_len(x, |c: char| is_digit_char(c));
    if k >= 1 && k + 1 < x.len() && x[k] == '.' && x[k + 1] == ' ' {
        assert(y == x.take(k) + seq!['\\'] + x.skip(k));
        assert forall|i: int| 0 <= i < y.len() && #[trigger] y[i] == d implies (i > 0 && y[i - 1]
            == '\\') || (i == 0 && false) by {
            if i < k {
                assert(y[i] == x[i]);
                assert(is_digit_char(x[i]));
            } else if i == k {
                assert(y[i] == '\\');
            } else {
                assert(y[i] == x[i - 1]);
                assert(i - 1 > 0 && x[i - 2] == '\\');
                if i - 1 == k {
                    assert(x[k] == '.');
                } else {
                    assert(i - 2 >= k);
                    assert(y[i - 1] == x[i - 2]);
                }
            }
        }
    }
}

/// In escaped plain text, every asterisk, underscore, backtick or square
/// bracket sits right after a backslash.
pub proof fn lemma_escape_escapes_special(s: Seq<char>, d: char)
    requires
        d == '*' || d == '_' || d == '`' || d == '[' || d == ']',
    ensures
        escaped_at(crate::turndown::escape_text(s), d, false),
{
    let e1 = crate::turndown::esc_all(s, '\\');
    let e2 = crate::turndown::esc_all(e1, '*');
    let e3 = crate::turndown::esc_lead_dash(e2);
    let e4 = crate::turndown::esc_lead_plus(e3);
    let e5 = crate::turndown::esc_lead_eq(e4);
    let e6 = crate::turndown::esc_lead_atx(e5);
    let e7 = crate::turndown::esc_all(e6, '`');
    let e8 = crate::turndown::esc_lead_tilde(e7);
    let e9 = crate::turndown::esc_all(e8, '[');
    let e10 = crate::turndown::esc_all(e9, ']');
    let e11 = crate::turndown::esc_lead_gt(e10);
    let e12 = crate::turndown::esc_all(e11, '_');
    if d == '*' {
        lemma_esc_all_escapes(e1, '*');
        lemma_prepend_case(e2, e3, d);
        lemma_prepend_case(e3, e4, d);
        lemma_prepend_case(e4, e5, d);
        lemma_prepend_case(e5, e6, d);
        lemma_esc_all_preserves(e6, '`', d, false);
        lemma_prepend_case(e7, e8, d);
        lemma_esc_all_preserves(e8, '[', d, false);
        lemma_esc_all_preserves(e9, ']', d, false);
        lemma_prepend_case(e10, e11, d);
        lemma_esc_all_preserves(e11, '_', d, false);
        lemma_ordered_insert_preserves(e12, d);
    } else if d == '`' {
        lemma_esc_all_escapes(e6, '`');
        lemma_prepend_case(e7, e8, d);
        lemma_esc_all_preserves(e8, '[', d, false);
        lemma_esc_all_preserves(e9, ']', d, false);
        lemma_prepend_case(e10, e11, d);
        lemma_esc_all_preserves(e11, '_', d, false);
        lemma_ordered_insert_preserves(e12, d);
    } else if d == '[' {
        lemma_esc_all_escapes(e8, '[');
        lemma_esc_all_preserves(e9, ']', d, false);
        lemma_prepend_case(e10, e11, d);
        lemma_esc_all_preserves(e11, '_', d, false);
        lemma_ordered_insert_preserves(e12, d);
    } else if d == ']' {
        lemma_esc_all_escapes(e9, ']');
        lemma_prepend_case(e10, e11, d);
        lemma_esc_all_preserves(e11, '_', d, false);
        lemma_ordered_insert_preserves(e12, d);
    } else {
        lemma_esc_all_escapes(e11, '_');
        lemma_ordered_insert_preserves(e12, d);
    }
}


/// The number of list-item element children among the first `i` children.
pub open spec fn li_count(children: Seq<Node>, i: int) -> int
    decreases i,
{
    if i <= 0 {
        0
    } else {
        li_count(children, i - 1) + (if 0 <= i - 1 < children.len() && children[i
            - 1].node_type == NodeType::Element && children[i - 1].node_name@ == "LI"@ {
            1int
        } else {
            0int
        })
    }
}

proof fn lemma_li_count_bounds(children: Seq<Node>, i: int)
    requires
        0 <= i,
    ensures
        0 <= li_count(children, i) <= i,
    decreases i,
{
    if i > 0 {
        lemma_li_count_bounds(children, i - 1);
    }
}

/// The fragment one child contributes to the walk: text escaped unless
/// marked as code, a list-item element rendered with the 1-based count of
/// the list items before it, any other element rendered under the ambient
/// context.
pub open spec fn child_fragment(
    t: Turndown,
    node: Node,
    ilist: Option<ListContext>,
    ipre: bool,
    j: int,
) -> Seq<char> {
    let child = node.children@[j];
    if child.node_type == NodeType::Text {
        if child.is_code {
            child.node_value@
        } else {
            crate::turndown::escape_text(child.node_value@)
        }
    } else if child.node_type == NodeType::Element {
        if child.node_name@ == "LI"@ && ilist is Some {
            node_output(
                t,
                child,
                Some(
                    ListContext {
                        kind: ilist->0.kind,
                        index: (li_count(node.children@, j) + 1) as usize,
                    },
                ),
                ipre,
            )
        } else {
            node_output(t, child, ilist, ipre)
        }
    } else {
        Seq::empty()
    }
}

/// The walk restated fragment by fragment.
pub open spec fn fold_fragments(
    t: Turndown,
    node: Node,
    ilist: Option<ListContext>,
    ipre: bool,
    i: int,
    acc: Seq<char>,
) -> Seq<char>
    decreases node.children@.len() - i,
{
    if i < 0 || i >= node.children@.len() {
        acc
    } else {
        fold_fragments(
            t,
            node,
            ilist,
            ipre,
            i + 1,
            join_spec(acc, child_fragment(t, node, ilist, ipre, i)),
        )
    }
}

/// The walk numbers list items by position: starting it at index `i` with
/// the count of the list items seen so far is the same as joining the
/// per-child fragments, in which each list item carries the 1-based count
/// of the list items before it.
pub proof fn lemma_walk_fragments(
    t: Turndown,
    node: Node,
    ilist: Option<ListContext>,
    ipre: bool,
    i: int,
    acc: Seq<char>,
)
    requires
        0 <= i,
        ilist is Some,
    ensures
        walk(t, node, ilist, ipre, i, li_count(node.children@, i), acc) == fold_fragments(
            t,
            node,
            ilist,
            ipre,
            i,
            acc,
        ),
    decreases node.children@.len() - i,
{
    let children = node.children@;
    if i >= children.len() {
    } else {
        let child = children[i];
        assert(li_count(children, i + 1) == li_count(children, i) + (if child.node_type
            == NodeType::Element && child.node_name@ == "LI"@ {
            1int
        } else {
            0int
        }));
        let frag = child_fragment(t, node, ilist, ipre, i);
        if child.node_type == NodeType::Element && child.node_name@ == "LI"@ && ilist is Some {
            lemma_walk_fragments(t, node, ilist, ipre, i + 1, join_spec(acc, frag));
        } else {
            lemma_walk_fragments(t, node, ilist, ipre, i + 1, join_spec(acc, frag));
        }
    }
}

/// Skipping rules whose filters reject the node does not change the
/// selected rule.
proof fn lemma_find_first_skip(
    rules: Seq<Rule>,
    node: Node,
    in_pre: bool,
    opts: Options,
    k: int,
)
    requires
        0 <= k <= rules.len(),
        forall|j: int| 0 <= j < k ==> !crate::rules::filter_matches(rules[j].filter, node, in_pre, opts),
    ensures
        crate::rules::find_first(rules, node, in_pre, opts) == crate::rules::find_first(
            rules.skip(k),
            node,
            in_pre,
            opts,
        ),
    decreases k,
{
    if k == 0 {
        assert(rules.skip(0) =~= rules);
    } else {
        assert(!crate::rules::filter_matches(rules[0].filter, node, in_pre, opts));
        assert(rules.drop_first() =~= rules.skip(1));
        lemma_find_first_skip(rules.skip(1), node, in_pre, opts, k - 1);
        assert(rules.skip(1).skip(k - 1) =~= rules.skip(k));
    }
}

/// The content a list item's own rule receives: its children's output,
/// trimmed at the start as block content, and fully trimmed when the item
/// carries flanking whitespace.
pub open spec fn item_inner_content(
    t: Turndown,
    child: Node,
    lc: ListContext,
    ipre: bool,
) -> Seq<char> {
    let content0 = crate::turndown::children_output(t, child, Some(lc), ipre);
    let c1 = crate::text::trim_start_spec(content0);
    if crate::node::flanking_leading_spec(child).len() > 0 || crate::node::flanking_trailing_spec(
        child,
    ).len() > 0 {
        crate::text::trim_spec(c1)
    } else {
        c1
    }
}

/// The children of a list element render item by item, with every
/// list-item element child numbered by its position: whatever rule table,
/// options and surrounding context are in force, the k-th list item
/// (1-based, counting list-item elements only) renders under list index k,
/// as `child_fragment` spells out.
pub proof fn lemma_list_items_numbered_by_position(
    t: Turndown,
    node: Node,
    list: Option<ListContext>,
    in_pre: bool,
)
    requires
        node.node_name@ == "OL"@ || node.node_name@ == "UL"@,
    ensures
        crate::turndown::children_output(t, node, list, in_pre) == fold_fragments(
            t,
            node,
            crate::turndown::inner_list_ctx(node, list),
            in_pre || node.node_name@ == "PRE"@,
            0,
            Seq::empty(),
        ),
        crate::turndown::inner_list_ctx(node, list) is Some,
{
    reveal_strlit("OL");
    reveal_strlit("UL");
    reveal_strlit("PRE");
    assert(node.node_name@ != "PRE"@) by {
        assert(("OL"@).len() == 2);
        assert(("UL"@).len() == 2);
        assert(("PRE"@).len() == 3);
    }
    let ictx = crate::turndown::inner_list_ctx(node, list);
    let ipre = in_pre || node.node_name@ == "PRE"@;
    lemma_walk_fragments(t, node, ictx, ipre, 0, Seq::empty());
    assert(li_count(node.children@, 0) == 0);
}

/// Under the built-in rules, a non-blank list-item element child of an
/// ordered list contributes the fragment `N.  ` followed by its trimmed
/// content and a newline, where `N` is one more than the number of list
/// items before it — whatever numbering the source suggested. A blank item
/// (for example an empty `<li></li>`) is excluded: it renders through the
/// synthetic blank rule as a blank line, not with a numbered prefix, and a
/// rule table other than the built-in one may render items arbitrarily.
pub proof fn lemma_ordered_item_fragment(
    t: Turndown,
    node: Node,
    list: Option<ListContext>,
    in_pre: bool,
    j: int,
)
    requires
        crate::commonmark_rules::default_rules_table(t.rules.options.rules@),
        t.rules.array@.len() == t.rules.options.rules@.len(),
        forall|i: int|
            0 <= i < t.rules.array@.len() ==> crate::rules::rule_like(
                #[trigger] t.rules.array@[i],
                t.rules.options.rules@[i].1,
            ),
        node.node_name@ == "OL"@,
        0 <= j < node.children@.len(),
        node.children@[j].node_type == NodeType::Element,
        node.children@[j].node_name@ == "LI"@,
        !is_blank_spec(node.children@[j]),
    ensures
        crate::turndown::children_output(t, node, list, in_pre) == fold_fragments(
            t,
            node,
            Some(ListContext { kind: crate::turndown::ListKind::Ordered, index: 0 }),
            in_pre,
            0,
            Seq::empty(),
        ),
        child_fragment(
            t,
            node,
            Some(ListContext { kind: crate::turndown::ListKind::Ordered, index: 0 }),
            in_pre,
            j,
        ) == crate::commonmark_rules::dec_seq((li_count(node.children@, j) + 1) as nat) + seq![
            '.',
            ' ',
            ' ',
        ] + crate::text::trim_end_spec(
            item_inner_content(
                t,
                node.children@[j],
                ListContext {
                    kind: crate::turndown::ListKind::Ordered,
                    index: (li_count(node.children@, j) + 1) as usize,
                },
                in_pre,
            ),
        ) + seq!['\n'],
{
    let children = node.children@;
    let child = children[j];
    let ilist = Some(ListContext { kind: crate::turndown::ListKind::Ordered, index: 0 });
    reveal_strlit("OL");
    reveal_strlit("UL");
    reveal_strlit("PRE");
    reveal_strlit("LI");
    reveal_strlit("li");
    reveal_strlit("TD");
    reveal_strlit("TH");
    reveal_strlit("p");
    reveal_strlit("br");
    reveal_strlit("h1");
    reveal_strlit("h2");
    reveal_strlit("h3");
    reveal_strlit("h4");
    reveal_strlit("h5");
    reveal_strlit("h6");
    reveal_strlit("blockquote");
    reveal_strlit("ul");
    reveal_strlit("ol");
    // The list node opens a fresh ordered context and is no preformatted
    // block, so its children walk under that context.
    assert(node.node_name@ != "UL"@) by {
        assert(("OL"@)[0] == 'O');
        assert(("UL"@)[0] == 'U');
    }
    assert(node.node_name@ != "PRE"@) by {
        assert(("OL"@).len() == 2);
        assert(("PRE"@).len() == 3);
    }
    assert(crate::turndown::inner_list_ctx(node, list) == ilist);
    lemma_walk_fragments(t, node, ilist, in_pre, 0, Seq::empty());
    assert(li_count(children, 0) == 0);
    assert(crate::turndown::children_output(t, node, list, in_pre) == fold_fragments(
        t,
        node,
        ilist,
        in_pre,
        0,
        Seq::empty(),
    ));
    // The fragment of the list-item child renders through its own rule.
    lemma_li_count_bounds(children, j);
    vstd::std_specs::vec::axiom_spec_len(&node.children);
    let k = (li_count(children, j) + 1) as usize;
    assert(k as int == li_count(children, j) + 1);
    let lc = ListContext { kind: crate::turndown::ListKind::Ordered, index: k };
    assert(child_fragment(t, node, ilist, in_pre, j) == node_output(t, child, Some(lc), in_pre));
    // Inside the item's rendering: a list item is block-level, carries no
    // flanking whitespace outward, and is no preformatted block.
    assert(child.node_name@ != "PRE"@);
    assert(crate::utilities::is_block_name(child.node_name@)) by {
        assert(crate::text::upper_seq(child.node_name@) == crate::text::upper_seq("LI"@));
    }
    assert(child.node_name@ != "TD"@ && child.node_name@ != "TH"@) by {
        assert(("LI"@)[0] == 'L');
        assert(("TD"@)[0] == 'T');
        assert(("TH"@)[0] == 'T');
    }
    assert(child.node_name@ != "PRE"@) by {
        assert(("LI"@).len() == 2);
        assert(("PRE"@).len() == 3);
    }
    // The built-in table selects the list-item rule for this child.
    let a = t.rules.array@;
    let opts = t.rules.options;
    assert forall|i: int| 0 <= i < 5 implies !crate::rules::filter_matches(
        a[i].filter,
        child,
        in_pre,
        opts,
    ) by {
        crate::rules::lemma_filter_like_matches(
            a[i].filter,
            opts.rules@[i].1.filter,
            child,
            in_pre,
            opts,
        );
        let u = crate::text::upper_seq(child.node_name@);
        assert(u.len() == 2);
        assert(u[0] == crate::text::upper_char('L'));
        assert(u[1] == crate::text::upper_char('I'));
        if i == 0 {
            assert(crate::text::upper_seq("p"@).len() == 1);
        } else if i == 1 {
            assert(crate::text::upper_seq("br"@)[0] == crate::text::upper_char('b'));
        } else if i == 2 {
            let f = opts.rules@[2].1.filter;
            match f {
                crate::rules::RuleFilter::TagList(v) => {
                    assert forall|m: int| 0 <= m < v@.len() implies crate::text::upper_seq(
                        child.node_name@,
                    ) != crate::text::upper_seq(#[trigger] v@[m]@) by {
                        if m == 0 {
                            assert(crate::text::upper_seq(v@[0]@)[0] == crate::text::upper_char(
                                'h',
                            ));
                        } else if m == 1 {
                            assert(crate::text::upper_seq(v@[1]@)[0] == crate::text::upper_char(
                                'h',
                            ));
                        } else if m == 2 {
                            assert(crate::text::upper_seq(v@[2]@)[0] == crate::text::upper_char(
                                'h',
                            ));
                        } else if m == 3 {
                            assert(crate::text::upper_seq(v@[3]@)[0] == crate::text::upper_char(
                                'h',
                            ));
                        } else if m == 4 {
                            assert(crate::text::upper_seq(v@[4]@)[0] == crate::text::upper_char(
                                'h',
                            ));
                        } else {
                            assert(crate::text::upper_seq(v@[5]@)[0] == crate::text::upper_char(
                                'h',
                            ));
                        }
                    }
                },
                _ => {
                    assert(false);
                },
            }
        } else if i == 3 {
            assert(crate::text::upper_seq("blockquote"@).len() == 10);
        } else {
            let f = opts.rules@[4].1.filter;
            match f {
                crate::rules::RuleFilter::TagList(v) => {
                    assert forall|m: int| 0 <= m < v@.len() implies crate::text::upper_seq(
                        child.node_name@,
                    ) != crate::text::upper_seq(#[trigger] v@[m]@) by {
                        if m == 0 {
                            assert(crate::text::upper_seq(v@[0]@)[0] == crate::text::upper_char(
                                'u',
                            ));
                        } else {
                            assert(crate::text::upper_seq(v@[1]@)[0] == crate::text::upper_char(
                                'o',
                            ));
                        }
                    }
                },
                _ => {
                    assert(false);
                },
            }
        }
    }
    lemma_find_first_skip(a, child, in_pre, opts, 5);
    assert(a.skip(5)[0] == a[5]);
    assert(crate::rules::filter_matches(a[5].filter, child, in_pre, opts)) by {
        crate::rules::lemma_filter_like_matches(
            a[5].filter,
            opts.rules@[5].1.filter,
            child,
            in_pre,
            opts,
        );
        assert(crate::text::upper_seq(child.node_name@) =~= crate::text::upper_seq("li"@));
    }
    assert(crate::rules::find_first(a.skip(5), child, in_pre, opts) == Some(a[5].replacement));
    assert(a[5].replacement == Replacement::ListItem);
    assert(crate::rules::for_node_spec(t.rules, child, in_pre) == Replacement::ListItem);
    // Assemble the item's fragment.
    let content2 = item_inner_content(t, child, lc, in_pre);
    assert(apply_spec(Replacement::ListItem, content2, child, Some(lc), opts)
        == crate::commonmark_rules::dec_seq(k as nat) + seq!['.', ' ', ' ']
        + crate::text::trim_end_spec(content2) + seq!['\n']);
    assert(node_output(t, child, Some(lc), in_pre) == Seq::<char>::empty() + apply_spec(
        Replacement::ListItem,
        content2,
        child,
        Some(lc),
        opts,
    ) + Seq::<char>::empty());
    assert(Seq::<char>::empty() + apply_spec(
        Replacement::ListItem,
        content2,
        child,
        Some(lc),
        opts,
    ) + Seq::<char>::empty() =~= apply_spec(
        Replacement::ListItem,
        content2,
        child,
        Some(lc),
        opts,
    ));
}


/// An empty document tree converts to the empty string.
pub proof fn lemma_empty_tree_converts_to_empty(t: Turndown, root: Node)
    requires
        root.children@.len() == 0,
    ensures
        crate::turndown::convert_spec(t, root) == Seq::<char>::empty(),
{
    let e = Seq::<char>::empty();
    assert(crate::turndown::children_output(t, root, None, false) == e);
    assert(collapse_newlines_spec(e) == e);
    let p1 = |ch: char| ch == '\t' || ch == '\r' || ch == '\n';
    let p2 = |ch: char| ch == '\t' || ch == '\r' || ch == '\n' || ch == ' ';
    assert(take_while_len(e, p1) == 0);
    assert(e.skip(0) =~= e);
    assert(rtake_while_len(e, p2) == 0);
    assert(e.take(0) =~= e);
}

} // verus!
