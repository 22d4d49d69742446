//! The rule table: filters that match nodes, replacement kinds that name the
//! text transform to apply, and the ordered collection with its three
//! precedence bands (primary rules, keep rules, remove rules).

use vstd::prelude::*;

use crate::node::attr_lookup;
use crate::node::is_blank_spec;
use crate::node::Node;
use crate::node::NodeType;
use crate::text::chars_of;
use crate::text::contains_chars;
use crate::text::contains_seq;
use crate::text::eq_ignore_ascii_case_str;
use crate::text::str_eq_str;
use crate::text::upper_seq;
use crate::turndown::CodeBlockStyle;
use crate::turndown::LinkStyle;
use crate::turndown::Options;

verus! {

/// The built-in predicates a rule filter can use beyond tag names.
#[derive(Clone, Copy, Debug, PartialEq, Eq, Structural)]
pub enum FilterPredicate {
    /// A comment node.
    CommentNode,
    /// A processing-instruction node.
    ProcessingInstructionNode,
    /// A `DIV` marked as a hidden email preheader, by attribute or by a
    /// hide-via-CSS convention.
    HiddenPreheaderDiv,
    /// A `PRE` element under the indented code-block style.
    IndentedPre,
    /// A `PRE` element under the fenced code-block style.
    FencedPre,
    /// An anchor with a destination, under the inlined link style.
    InlineAnchor,
    /// An anchor with a destination, under the referenced link style.
    ReferenceAnchor,
    /// A `CODE` element that is not inside a preformatted block.
    CodeOutsidePre,
}

/// The replacement transforms a rule can render with; each names one
/// text-producing behavior of the conversion.
#[derive(Clone, Copy, Debug, PartialEq, Eq, Structural)]
pub enum Replacement {
    Paragraph,
    LineBreak,
    Heading,
    Blockquote,
    List,
    ListItem,
    IndentedCodeBlock,
    FencedCodeBlock,
    HorizontalRule,
    InlineLink,
    ReferenceLink,
    Emphasis,
    Strong,
    InlineCode,
    Image,
    Superscript,
    Subscript,
    HiddenPreheader,
    /// Renders to nothing (comments, scripts, styles, removed nodes).
    DropContent,
    /// Renders the node back as raw markup, blank-line wrapped.
    KeepMarkup,
    /// The synthetic rule for nodes classified blank.
    BlankNode,
    /// The catch-all: blank-line wraps block elements, passes inline
    /// content through.
    Fallback,
}

/// A filter for matching nodes: an exact tag, a set of tags, or one of the
/// built-in predicates.
#[derive(Debug)]
pub enum RuleFilter {
    Tag(String),
    TagList(Vec<String>),
    Pred(FilterPredicate),
}

/// A conversion rule: a filter paired with the replacement it renders with.
#[derive(Debug)]
pub struct Rule {
    pub filter: RuleFilter,
    pub replacement: Replacement,
}

/// What a predicate filter accepts.
pub open spec fn pred_matches(
    p: FilterPredicate,
    node: Node,
    in_pre: bool,
    opts: Options,
) -> bool {
    match p {
        FilterPredicate::CommentNode => node.node_type == NodeType::Comment,
        FilterPredicate::ProcessingInstructionNode => node.node_type
            == NodeType::ProcessingInstruction,
        FilterPredicate::HiddenPreheaderDiv => {
            &&& node.node_name@ == "DIV"@
            &&& {
                ||| attr_lookup(node.attributes@, "data-email-preheader"@) is Some
                ||| {
                    &&& match attr_lookup(node.attributes@, "style"@) {
                        Some(s) => contains_seq(s, "visibility:hidden"@) && contains_seq(
                            s,
                            "height:0"@,
                        ),
                        None => false,
                    }
                    &&& match attr_lookup(node.attributes@, "class"@) {
                        Some(c) => contains_seq(c, "h-0"@) && contains_seq(c, "opacity-0"@),
                        None => false,
                    }
                }
            }
        },
        FilterPredicate::IndentedPre => opts.code_block_style == CodeBlockStyle::Indented
            && node.node_name@ == "PRE"@,
        FilterPredicate::FencedPre => opts.code_block_style == CodeBlockStyle::Fenced
            && node.node_name@ == "PRE"@,
        FilterPredicate::InlineAnchor => opts.link_style == LinkStyle::Inlined && node.node_name@
            == "A"@ && attr_lookup(node.attributes@, "href"@) is Some,
        FilterPredicate::ReferenceAnchor => opts.link_style == LinkStyle::Referenced
            && node.node_name@ == "A"@ && attr_lookup(node.attributes@, "href"@) is Some,
        FilterPredicate::CodeOutsidePre => upper_seq(node.node_name@) == upper_seq("CODE"@)
            && !in_pre,
    }
}

/// What a filter accepts: tag filters compare names ASCII
/// case-insensitively, predicate filters ask their predicate.
pub open spec fn filter_matches(f: RuleFilter, node: Node, in_pre: bool, opts: Options) -> bool {
    match f {
        RuleFilter::Tag(s) => upper_seq(node.node_name@) == upper_seq(s@),
        RuleFilter::TagList(v) => exists|i: int|
            0 <= i < v@.len() && upper_seq(node.node_name@) == upper_seq(#[trigger] v@[i]@),
        RuleFilter::Pred(p) => pred_matches(p, node, in_pre, opts),
    }
}

impl RuleFilter {
    /// Checks if a node matches this filter; `in_pre` says whether the node
    /// sits inside a preformatted block.
    #[verifier::loop_isolation(false)]
    pub fn matches(&self, node: &Node, in_pre: bool, options: &Options) -> (r: bool)
        ensures
            r == filter_matches(*self, *node, in_pre, *options),
    {
        match self {
            RuleFilter::Tag(s) => eq_ignore_ascii_case_str(node.node_name.as_str(), s.as_str()),
            RuleFilter::TagList(v) => {
                let n = v.len();
                let mut i: usize = 0;
                while i < n
                    invariant
                        n == v@.len(),
                        i <= n,
                        forall|j: int|
                            0 <= j < i ==> upper_seq(node.node_name@) != upper_seq(
                                #[trigger] v@[j]@,
                            ),
                    decreases n - i,
                {
                    if eq_ignore_ascii_case_str(node.node_name.as_str(), v[i].as_str()) {
                        assert(upper_seq(node.node_name@) == upper_seq(v@[i as int]@));
                        return true;
                    }
                    i += 1;
                }
                false
            },
            RuleFilter::Pred(p) => {
                match p {
                    FilterPredicate::CommentNode => node.node_type == NodeType::Comment,
                    FilterPredicate::ProcessingInstructionNode => node.node_type
                        == NodeType::ProcessingInstruction,
                    FilterPredicate::HiddenPreheaderDiv => {
                        if !str_eq_str(node.node_name.as_str(), "DIV") {
                            return false;
                        }
                        if node.get_attribute("data-email-preheader").is_some() {
                            return true;
                        }
                        let style_hides = match node.get_attribute("style") {
                            Some(s) => {
                                let sc = chars_of(s.as_str());
                                contains_chars(&sc, &chars_of("visibility:hidden"))
                                    && contains_chars(&sc, &chars_of("height:0"))
                            },
                            None => false,
                        };
                        let class_hides = match node.get_attribute("class") {
                            Some(c) => {
                                let cc = chars_of(c.as_str());
                                contains_chars(&cc, &chars_of("h-0")) && contains_chars(
                                    &cc,
                                    &chars_of("opacity-0"),
                                )
                            },
                            None => false,
                        };
                        style_hides && class_hides
                    },
                    FilterPredicate::IndentedPre => options.code_block_style
                        == CodeBlockStyle::Indented && str_eq_str(node.node_name.as_str(), "PRE"),
                    FilterPredicate::FencedPre => options.code_block_style
                        == CodeBlockStyle::Fenced && str_eq_str(node.node_name.as_str(), "PRE"),
                    FilterPredicate::InlineAnchor => options.link_style == LinkStyle::Inlined
                        && str_eq_str(node.node_name.as_str(), "A") && node.get_attribute(
                        "href",
                    ).is_some(),
                    FilterPredicate::ReferenceAnchor => options.link_style == LinkStyle::Referenced
                        && str_eq_str(node.node_name.as_str(), "A") && node.get_attribute(
                        "href",
                    ).is_some(),
                    FilterPredicate::CodeOutsidePre => eq_ignore_ascii_case_str(
                        node.node_name.as_str(),
                        "CODE",
                    ) && !in_pre,
                }
            },
        }
    }
}

/// Two filters with the same content: equal tags, equal tag lists, or the
/// same predicate.
pub open spec fn filter_like(a: RuleFilter, b: RuleFilter) -> bool {
    match (a, b) {
        (RuleFilter::Tag(s1), RuleFilter::Tag(s2)) => s1@ == s2@,
        (RuleFilter::TagList(v1), RuleFilter::TagList(v2)) => v1@.map_values(|s: String| s@)
            == v2@.map_values(|s: String| s@),
        (RuleFilter::Pred(p1), RuleFilter::Pred(p2)) => p1 == p2,
        _ => false,
    }
}

/// Two rules with the same content.
pub open spec fn rule_like(a: Rule, b: Rule) -> bool {
    filter_like(a.filter, b.filter) && a.replacement == b.replacement
}

/// Filters with the same content accept the same nodes.
pub proof fn lemma_filter_like_matches(
    a: RuleFilter,
    b: RuleFilter,
    node: Node,
    in_pre: bool,
    opts: Options,
)
    requires
        filter_like(a, b),
    ensures
        filter_matches(a, node, in_pre, opts) == filter_matches(b, node, in_pre, opts),
{
    match (a, b) {
        (RuleFilter::TagList(v1), RuleFilter::TagList(v2)) => {
            let m1 = v1@.map_values(|s: String| s@);
            let m2 = v2@.map_values(|s: String| s@);
            assert(m1.len() == v1@.len());
            assert(m2.len() == v2@.len());
            if filter_matches(a, node, in_pre, opts) {
                let i = choose|i: int|
                    0 <= i < v1@.len() && upper_seq(node.node_name@) == upper_seq(
                        #[trigger] v1@[i]@,
                    );
                assert(m1[i] == v1@[i]@);
                assert(m2[i] == v2@[i]@);
                assert(upper_seq(node.node_name@) == upper_seq(v2@[i]@));
            }
            if filter_matches(b, node, in_pre, opts) {
                let i = choose|i: int|
                    0 <= i < v2@.len() && upper_seq(node.node_name@) == upper_seq(
                        #[trigger] v2@[i]@,
                    );
                assert(m1[i] == v1@[i]@);
                assert(m2[i] == v2@[i]@);
                assert(upper_seq(node.node_name@) == upper_seq(v1@[i]@));
            }
        },
        _ => {},
    }
}

/// Duplicates a filter, preserving its content.
pub fn clone_filter(f: &RuleFilter) -> (c: RuleFilter)
    ensures
        filter_like(c, *f),
{
    match f {
        RuleFilter::Tag(s) => RuleFilter::Tag(s.clone()),
        RuleFilter::TagList(v) => {
            let n = v.len();
            let mut out: Vec<String> = Vec::new();
            let mut i: usize = 0;
            while i < n
                invariant
                    n == v@.len(),
                    i <= n,
                    out@ == v@.take(i as int),
                decreases n - i,
            {
                out.push(v[i].clone());
                i += 1;
                assert(out@ =~= v@.take(i as int));
            }
            assert(v@.take(n as int) =~= v@);
            RuleFilter::TagList(out)
        },
        RuleFilter::Pred(p) => RuleFilter::Pred(*p),
    }
}

/// Duplicates a rule, preserving its content.
pub fn clone_rule(r: &Rule) -> (c: Rule)
    ensures
        rule_like(c, *r),
{
    Rule { filter: clone_filter(&r.filter), replacement: r.replacement }
}

/// The first replacement among `rules` whose filter accepts the node.
pub open spec fn find_first(
    rules: Seq<Rule>,
    node: Node,
    in_pre: bool,
    opts: Options,
) -> Option<Replacement>
    decreases rules.len(),
{
    if rules.len() == 0 {
        None
    } else if filter_matches(rules[0].filter, node, in_pre, opts) {
        Some(rules[0].replacement)
    } else {
        find_first(rules.drop_first(), node, in_pre, opts)
    }
}

/// Manages the ordered rule collection and its precedence bands.
pub struct Rules {
    pub array: Vec<Rule>,
    pub keep: Vec<Rule>,
    pub remove: Vec<Rule>,
    pub options: Options,
}

/// The replacement selected for a node, highest precedence first: the
/// synthetic blank rule, the primary rules, the keep rules, the remove
/// rules, and last the catch-all.
pub open spec fn for_node_spec(rules: Rules, node: Node, in_pre: bool) -> Replacement {
    if is_blank_spec(node) {
        Replacement::BlankNode
    } else {
        match find_first(rules.array@, node, in_pre, rules.options) {
            Some(r) => r,
            None => match find_first(rules.keep@, node, in_pre, rules.options) {
                Some(r) => r,
                None => match find_first(rules.remove@, node, in_pre, rules.options) {
                    Some(r) => r,
                    None => Replacement::Fallback,
                },
            },
        }
    }
}

impl Rules {
    /// Creates a new collection holding the rules listed in the options.
    pub fn new(options: Options) -> (r: Rules)
        ensures
            r.array@.len() == options.rules@.len(),
            forall|i: int|
                0 <= i < r.array@.len() ==> rule_like(#[trigger] r.array@[i], options.rules@[i].1),
            r.keep@.len() == 0,
            r.remove@.len() == 0,
            r.options == options,
    {
        let n = options.rules.len();
        let mut array: Vec<Rule> = Vec::new();
        let mut i: usize = 0;
        while i < n
            invariant
                n == options.rules@.len(),
                i <= n,
                array@.len() == i,
                forall|j: int|
                    0 <= j < i ==> rule_like(#[trigger] array@[j], options.rules@[j].1),
            decreases n - i,
        {
            array.push(clone_rule(&options.rules[i].1));
            i += 1;
        }
        Rules { array, keep: Vec::new(), remove: Vec::new(), options }
    }

    /// Adds a new rule at the front of the primary rules, where it takes
    /// precedence over the rules already present.
    pub fn add(&mut self, _key: String, rule: Rule)
        ensures
            final(self).array@ == seq![rule] + old(self).array@,
            final(self).keep@ == old(self).keep@,
            final(self).remove@ == old(self).remove@,
            final(self).options == old(self).options,
    {
        self.array.insert(0, rule);
        assert(self.array@ =~= seq![rule] + old(self).array@);
    }

    /// Marks a filter whose nodes are kept as raw markup.
    pub fn keep(&mut self, filter: RuleFilter)
        ensures
            final(self).keep@ == old(self).keep@.push(
                Rule { filter, replacement: Replacement::KeepMarkup },
            ),
            final(self).array@ == old(self).array@,
            final(self).remove@ == old(self).remove@,
            final(self).options == old(self).options,
    {
        self.keep.push(Rule { filter, replacement: Replacement::KeepMarkup });
    }

    /// Marks a filter whose nodes are removed entirely.
    pub fn remove(&mut self, filter: RuleFilter)
        ensures
            final(self).remove@ == old(self).remove@.push(
                Rule { filter, replacement: Replacement::DropContent },
            ),
            final(self).array@ == old(self).array@,
            final(self).keep@ == old(self).keep@,
            final(self).options == old(self).options,
    {
        self.remove.push(Rule { filter, replacement: Replacement::DropContent });
    }

    /// Selects the replacement for a node; `in_pre` says whether the node
    /// sits inside a preformatted block.
    pub fn for_node(&self, node: &Node, in_pre: bool) -> (r: Replacement)
        ensures
            r == for_node_spec(*self, *node, in_pre),
    {
        if node.is_blank() {
            return Replacement::BlankNode;
        }
        match Self::find_rule(&self.array, node, in_pre, &self.options) {
            Some(r) => r,
            None => match Self::find_rule(&self.keep, node, in_pre, &self.options) {
                Some(r) => r,
                None => match Self::find_rule(&self.remove, node, in_pre, &self.options) {
                    Some(r) => r,
                    None => Replacement::Fallback,
                },
            },
        }
    }

    /// The number of primary rules.
    pub fn len(&self) -> (n: usize)
        ensures
            n == self.array@.len(),
    {
        self.array.len()
    }

    /// The primary rule at position `i`, front (highest precedence) first;
    /// `None` past the end. Walking indices 0 up to `len()` visits every
    /// primary rule in precedence order.
    pub fn rule_at(&self, i: usize) -> (r: Option<&Rule>)
        ensures
            match r {
                Some(rule) => i < self.array@.len() && *rule == self.array@[i as int],
                None => i >= self.array@.len(),
            },
    {
        if i < self.array.len() {
            Some(&self.array[i])
        } else {
            None
        }
    }

    /// Finds the first rule in `rules` that matches the node.
    #[verifier::loop_isolation(false)]
    fn find_rule(rules: &Vec<Rule>, node: &Node, in_pre: bool, options: &Options) -> (r: Option<
        Replacement,
    >)
        ensures
            r == find_first(rules@, *node, in_pre, *options),
    {
        let n = rules.len();
        let mut i: usize = 0;
        proof {
            assert(rules@.skip(0) =~= rules@);
        }
        while i < n
            invariant
                i <= n,
                find_first(rules@, *node, in_pre, *options) == find_first(
                    rules@.skip(i as int),
                    *node,
                    in_pre,
                    *options,
                ),
            decreases n - i,
        {
            let ghost rest = rules@.skip(i as int);
            if rules[i].filter.matches(node, in_pre, options) {
                proof {
                    assert(rest[0] == rules@[i as int]);
                }
                return Some(rules[i].replacement);
            }
            proof {
                assert(rest[0] == rules@[i as int]);
                assert(rest.drop_first() =~= rules@.skip(i + 1));
            }
            i += 1;
        }
        proof {
            assert(rules@.skip(n as int) =~= Seq::<Rule>::empty());
        }
        None
    }
}

} // verus!
