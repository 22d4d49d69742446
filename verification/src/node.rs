//! The document tree: typed nodes with a tag name, an attribute list with
//! unique keys, ordered children, and the classification helpers the
//! conversion rules depend on.

use vstd::prelude::*;

use crate::text::chars_of;
use crate::text::lemma_rtake_while_len_at;
use crate::text::lemma_take_while_len_at;
use crate::text::lower_seq;
use crate::text::string_of;
use crate::text::subvec;
use crate::text::to_lower_char;
use crate::text::to_upper_char;
use crate::text::trim_chars;
use crate::text::trim_spec;
use crate::text::upper_seq;
use crate::text::ws_char;
use crate::text::ws_prefix_len;
use crate::text::ws_suffix_len;
use crate::utilities::is_block_name;
use crate::utilities::is_meaningful_when_blank_name;
use crate::utilities::is_void_name;
use crate::utilities::FlankingWhitespace;

verus! {

/// The kinds of DOM nodes the conversion distinguishes.
#[derive(Clone, Copy, Debug, PartialEq, Eq, Structural)]
pub enum NodeType {
    Element,
    Text,
    Comment,
    Document,
    ProcessingInstruction,
}

/// An HTML/DOM node with minimal stored state; classification is derived
/// from the node name on demand.
#[derive(Debug)]
pub struct Node {
    pub node_type: NodeType,
    pub node_name: String,
    pub node_value: String,
    pub children: Vec<Node>,
    pub attributes: Vec<(String, String)>,
    pub is_code: bool,
}

/// The value stored under `name`, scanning the attribute list front to back.
pub open spec fn attr_lookup(attrs: Seq<(String, String)>, name: Seq<char>) -> Option<Seq<char>>
    decreases attrs.len(),
{
    if attrs.len() == 0 {
        None
    } else if attrs[0].0@ == name {
        Some(attrs[0].1@)
    } else {
        attr_lookup(attrs.drop_first(), name)
    }
}

pub proof fn lemma_attr_lookup_first(attrs: Seq<(String, String)>, name: Seq<char>, i: int)
    requires
        0 <= i < attrs.len(),
        forall|j: int| 0 <= j < i ==> attrs[j].0@ != name,
        attrs[i].0@ == name,
    ensures
        attr_lookup(attrs, name) == Some(attrs[i].1@),
    decreases i,
{
    if i > 0 {
        lemma_attr_lookup_first(attrs.drop_first(), name, i - 1);
    }
}

pub proof fn lemma_attr_lookup_none(attrs: Seq<(String, String)>, name: Seq<char>)
    requires
        forall|j: int| 0 <= j < attrs.len() ==> attrs[j].0@ != name,
    ensures
        attr_lookup(attrs, name) is None,
    decreases attrs.len(),
{
    if attrs.len() > 0 {
        lemma_attr_lookup_none(attrs.drop_first(), name);
    }
}

pub proof fn lemma_attr_lookup_update_other(
    attrs: Seq<(String, String)>,
    i: int,
    pair: (String, String),
    n: Seq<char>,
)
    requires
        0 <= i < attrs.len(),
        attrs[i].0@ == pair.0@,
        n != pair.0@,
    ensures
        attr_lookup(attrs.update(i, pair), n) == attr_lookup(attrs, n),
    decreases i,
{
    let updated = attrs.update(i, pair);
    if i == 0 {
        assert(updated.drop_first() =~= attrs.drop_first());
    } else {
        assert(updated[0] == attrs[0]);
        assert(updated.drop_first() =~= attrs.drop_first().update(i - 1, pair));
        lemma_attr_lookup_update_other(attrs.drop_first(), i - 1, pair, n);
    }
}

pub proof fn lemma_attr_lookup_push(
    attrs: Seq<(String, String)>,
    pair: (String, String),
    n: Seq<char>,
)
    ensures
        attr_lookup(attrs.push(pair), n) == (if attr_lookup(attrs, n) is Some {
            attr_lookup(attrs, n)
        } else if pair.0@ == n {
            Some(pair.1@)
        } else {
            None::<Seq<char>>
        }),
    decreases attrs.len(),
{
    if attrs.len() == 0 {
        assert(attrs.push(pair)[0] == pair);
        assert(attrs.push(pair).drop_first() =~= Seq::<(String, String)>::empty());
        assert(attr_lookup(attrs, n) is None);
        if pair.0@ == n {
            assert(attr_lookup(attrs.push(pair), n) == Some(pair.1@));
        } else {
            assert(attr_lookup(attrs.push(pair), n) == attr_lookup(
                attrs.push(pair).drop_first(),
                n,
            ));
            assert(attr_lookup(attrs.push(pair), n) is None);
        }
    } else {
        assert(attrs.push(pair)[0] == attrs[0]);
        assert(attrs.push(pair).drop_first() =~= attrs.drop_first().push(pair));
        lemma_attr_lookup_push(attrs.drop_first(), pair, n);
        if attrs[0].0@ == n {
            assert(attr_lookup(attrs.push(pair), n) == Some(attrs[0].1@));
            assert(attr_lookup(attrs, n) == Some(attrs[0].1@));
        } else {
            assert(attr_lookup(attrs.push(pair), n) == attr_lookup(
                attrs.drop_first().push(pair),
                n,
            ));
            assert(attr_lookup(attrs, n) == attr_lookup(attrs.drop_first(), n));
        }
    }
}

/// A void element that renders something of its own: it carries a `src` or
/// `data` attribute, or is a line break or horizontal rule.
pub open spec fn is_meaningful_void(child: Node) -> bool {
    &&& child.node_type == NodeType::Element
    &&& is_void_name(child.node_name@)
    &&& {
        ||| attr_lookup(child.attributes@, "src"@) is Some
        ||| attr_lookup(child.attributes@, "data"@) is Some
        ||| child.node_name@ == "BR"@
        ||| child.node_name@ == "HR"@
    }
}

/// A void element with nothing of its own to render.
pub open spec fn is_empty_void(child: Node) -> bool {
    &&& child.node_type == NodeType::Element
    &&& is_void_name(child.node_name@)
    &&& !(attr_lookup(child.attributes@, "src"@) is Some)
    &&& !(attr_lookup(child.attributes@, "data"@) is Some)
    &&& child.node_name@ != "BR"@
    &&& child.node_name@ != "HR"@
}

/// A node with no meaningful rendered content: not meaningful-when-blank,
/// not a meaningful void element, no non-whitespace text child, no
/// meaningful void child, and every child (if any) an empty void element.
pub open spec fn is_blank_spec(node: Node) -> bool {
    if is_meaningful_when_blank_name(node.node_name@) {
        false
    } else if is_void_name(node.node_name@) && {
        ||| attr_lookup(node.attributes@, "src"@) is Some
        ||| attr_lookup(node.attributes@, "data"@) is Some
        ||| node.node_name@ == "BR"@
        ||| node.node_name@ == "HR"@
    } {
        false
    } else {
        let cs = node.children@;
        let has_text = exists|i: int|
            0 <= i < cs.len() && cs[i].node_type == NodeType::Text && trim_spec(
                cs[i].node_value@,
            ).len() != 0;
        let has_meaningful_void = exists|i: int| 0 <= i < cs.len() && is_meaningful_void(cs[i]);
        let only_empty_void = forall|i: int| 0 <= i < cs.len() ==> is_empty_void(cs[i]);
        !has_text && !has_meaningful_void && (only_empty_void || cs.len() == 0)
    }
}

/// The whitespace prefix of an element's first child, when that child is a
/// text node.
pub open spec fn flanking_leading_spec(node: Node) -> Seq<char> {
    if node.node_type != NodeType::Element {
        Seq::empty()
    } else if node.children@.len() > 0 && node.children@[0].node_type == NodeType::Text {
        let t = node.children@[0].node_value@;
        t.take(ws_prefix_len(t))
    } else {
        Seq::empty()
    }
}

/// The whitespace suffix of an element's last child, when that child is a
/// text node.
pub open spec fn flanking_trailing_spec(node: Node) -> Seq<char> {
    if node.node_type != NodeType::Element {
        Seq::empty()
    } else if node.children@.len() > 0 && node.children@.last().node_type == NodeType::Text {
        let t = node.children@.last().node_value@;
        t.skip(t.len() - ws_suffix_len(t))
    } else {
        Seq::empty()
    }
}

/// The concatenated text of a node: its own text for text nodes, its
/// children's text for elements and documents, nothing for the rest.
pub open spec fn text_content_spec(node: Node) -> Seq<char>
    decreases node, node.children@.len() + 1,
{
    match node.node_type {
        NodeType::Text => node.node_value@,
        NodeType::Element => text_contents_from(node, 0),
        NodeType::Document => text_contents_from(node, 0),
        _ => Seq::empty(),
    }
}

/// The concatenated text of `node`'s children from index `i` on.
pub open spec fn text_contents_from(node: Node, i: int) -> Seq<char>
    decreases node, node.children@.len() - i,
{
    if i < 0 || i >= node.children@.len() {
        Seq::empty()
    } else {
        text_content_spec(node.children@[i]) + text_contents_from(node, i + 1)
    }
}

/// The serialized form of an attribute list: ` key="value"` for each entry.
pub open spec fn attrs_html_spec(attrs: Seq<(String, String)>) -> Seq<char>
    decreases attrs.len(),
{
    if attrs.len() == 0 {
        Seq::empty()
    } else {
        seq![' '] + attrs[0].0@ + seq!['=', '"'] + attrs[0].1@ + seq!['"'] + attrs_html_spec(
            attrs.drop_first(),
        )
    }
}

/// The raw markup a node serializes back to.
pub open spec fn outer_html_spec(node: Node) -> Seq<char>
    decreases node, node.children@.len() + 1,
{
    match node.node_type {
        NodeType::Element => seq!['<'] + lower_seq(node.node_name@) + attrs_html_spec(
            node.attributes@,
        ) + seq!['>'] + outer_htmls_from(node, 0) + (if !is_void_name(node.node_name@) {
            seq!['<', '/'] + lower_seq(node.node_name@) + seq!['>']
        } else {
            Seq::empty()
        }),
        NodeType::Text => node.node_value@,
        NodeType::Comment => "<!--"@ + node.node_value@ + "-->"@,
        NodeType::Document => outer_htmls_from(node, 0),
        NodeType::ProcessingInstruction => Seq::empty(),
    }
}

/// The concatenated serialized markup of `node`'s children from index `i`.
pub open spec fn outer_htmls_from(node: Node, i: int) -> Seq<char>
    decreases node, node.children@.len() - i,
{
    if i < 0 || i >= node.children@.len() {
        Seq::empty()
    } else {
        outer_html_spec(node.children@[i]) + outer_htmls_from(node, i + 1)
    }
}

impl Node {
    /// Creates a new element node; the tag name is stored ASCII-uppercased.
    pub fn new_element(name: &str) -> (r: Node)
        ensures
            r.node_type == NodeType::Element,
            r.node_name@ == upper_seq(name@),
            r.node_value@ == Seq::<char>::empty(),
            r.children@ == Seq::<Node>::empty(),
            r.attributes@ == Seq::<(String, String)>::empty(),
            !r.is_code,
    {
        let v = chars_of(name);
        let mut u: Vec<char> = Vec::new();
        let mut i: usize = 0;
        while i < v.len()
            invariant
                i <= v@.len(),
                u@ == upper_seq(v@.take(i as int)),
            decreases v@.len() - i,
        {
            u.push(to_upper_char(v[i]));
            i += 1;
            assert(u@ =~= upper_seq(v@.take(i as int)));
        }
        assert(v@.take(v@.len() as int) =~= v@);
        Node {
            node_type: NodeType::Element,
            node_name: string_of(&u),
            node_value: String::new(),
            children: Vec::new(),
            attributes: Vec::new(),
            is_code: false,
        }
    }

    /// Creates a new text node.
    pub fn new_text(value: &str) -> (r: Node)
        ensures
            r.node_type == NodeType::Text,
            r.node_name@ == "#text"@,
            r.node_value@ == value@,
            r.children@ == Seq::<Node>::empty(),
            r.attributes@ == Seq::<(String, String)>::empty(),
            !r.is_code,
    {
        Node {
            node_type: NodeType::Text,
            node_name: String::from_str("#text"),
            node_value: value.to_owned(),
            children: Vec::new(),
            attributes: Vec::new(),
            is_code: false,
        }
    }

    /// Creates a new document node.
    pub fn new_document() -> (r: Node)
        ensures
            r.node_type == NodeType::Document,
            r.node_name@ == "#document"@,
            r.node_value@ == Seq::<char>::empty(),
            r.children@ == Seq::<Node>::empty(),
            r.attributes@ == Seq::<(String, String)>::empty(),
            !r.is_code,
    {
        Node {
            node_type: NodeType::Document,
            node_name: String::from_str("#document"),
            node_value: String::new(),
            children: Vec::new(),
            attributes: Vec::new(),
            is_code: false,
        }
    }

    /// Creates a new comment node.
    pub fn new_comment(value: &str) -> (r: Node)
        ensures
            r.node_type == NodeType::Comment,
            r.node_name@ == "#comment"@,
            r.node_value@ == value@,
            r.children@ == Seq::<Node>::empty(),
            r.attributes@ == Seq::<(String, String)>::empty(),
            !r.is_code,
    {
        Node {
            node_type: NodeType::Comment,
            node_name: String::from_str("#comment"),
            node_value: value.to_owned(),
            children: Vec::new(),
            attributes: Vec::new(),
            is_code: false,
        }
    }

    /// Checks if this node's name is a block-level element name.
    pub fn is_block(&self) -> (r: bool)
        ensures
            r == is_block_name(self.node_name@),
    {
        crate::utilities::is_block(self.node_name.as_str())
    }

    /// Checks if this node's name is a void element name.
    pub fn is_void(&self) -> (r: bool)
        ensures
            r == is_void_name(self.node_name@),
    {
        crate::utilities::is_void(self.node_name.as_str())
    }

    /// Checks if this node's name is meaningful when blank.
    pub fn is_meaningful_when_blank(&self) -> (r: bool)
        ensures
            r == is_meaningful_when_blank_name(self.node_name@),
    {
        crate::utilities::is_meaningful_when_blank(self.node_name.as_str())
    }

    /// Gets an attribute value.
    pub fn get_attribute(&self, name: &str) -> (r: Option<String>)
        ensures
            match r {
                Some(v) => attr_lookup(self.attributes@, name@) == Some(v@),
                None => attr_lookup(self.attributes@, name@) is None,
            },
    {
        let n = self.attributes.len();
        let mut i: usize = 0;
        while i < n
            invariant
                n == self.attributes@.len(),
                i <= n,
                forall|j: int| 0 <= j < i ==> self.attributes@[j].0@ != name@,
            decreases n - i,
        {
            if crate::text::str_eq_str(self.attributes[i].0.as_str(), name) {
                proof {
                    lemma_attr_lookup_first(self.attributes@, name@, i as int);
                }
                return Some(self.attributes[i].1.clone());
            }
            i += 1;
        }
        proof {
            lemma_attr_lookup_none(self.attributes@, name@);
        }
        None
    }

    /// Sets an attribute value, replacing any value stored under the same
    /// key; other attributes keep their values.
    #[verifier::loop_isolation(false)]
    pub fn set_attribute(&mut self, name: &str, value: &str)
        ensures
            final(self).node_type == old(self).node_type,
            final(self).node_name@ == old(self).node_name@,
            final(self).node_value@ == old(self).node_value@,
            final(self).children@ == old(self).children@,
            final(self).is_code == old(self).is_code,
            attr_lookup(final(self).attributes@, name@) == Some(value@),
            forall|n: Seq<char>|
                n != name@ ==> attr_lookup(final(self).attributes@, n) == attr_lookup(
                    old(self).attributes@,
                    n,
                ),
    {
        let pair = (name.to_owned(), value.to_owned());
        let ghost gpair = pair;
        assert(gpair.0@ == name@ && gpair.1@ == value@);
        let n = self.attributes.len();
        let mut i: usize = 0;
        while i < n
            invariant
                n == self.attributes@.len(),
                i <= n,
                *self == *old(self),
                forall|j: int| 0 <= j < i ==> self.attributes@[j].0@ != name@,
            decreases n - i,
        {
            if crate::text::str_eq_str(self.attributes[i].0.as_str(), name) {
                let ghost attrs0 = self.attributes@;
                let _ = self.attributes.remove(i);
                let ghost attrs1 = self.attributes@;
                assert(attrs1 == attrs0.remove(i as int));
                self.attributes.insert(i, pair);
                assert(self.attributes@ == attrs1.insert(i as int, gpair));
                proof {
                    assert(self.attributes@ =~= attrs0.update(i as int, gpair));
                    assert(self.attributes@[i as int].0@ == name@);
                    lemma_attr_lookup_first(self.attributes@, name@, i as int);
                    assert forall|nm: Seq<char>| nm != name@ implies attr_lookup(
                        self.attributes@,
                        nm,
                    ) == attr_lookup(attrs0, nm) by {
                        lemma_attr_lookup_update_other(attrs0, i as int, gpair, nm);
                    }
                }
                return ;
            }
            i += 1;
        }
        let ghost attrs0 = self.attributes@;
        self.attributes.push(pair);
        proof {
            lemma_attr_lookup_none(attrs0, name@);
            lemma_attr_lookup_push(attrs0, gpair, name@);
            assert forall|nm: Seq<char>| nm != name@ implies attr_lookup(self.attributes@, nm)
                == attr_lookup(attrs0, nm) by {
                lemma_attr_lookup_push(attrs0, gpair, nm);
            }
        }
    }

    /// Adds a child node.
    pub fn add_child(&mut self, child: Node)
        ensures
            final(self).node_type == old(self).node_type,
            final(self).node_name@ == old(self).node_name@,
            final(self).node_value@ == old(self).node_value@,
            final(self).attributes@ == old(self).attributes@,
            final(self).is_code == old(self).is_code,
            final(self).children@ == old(self).children@.push(child),
    {
        self.children.push(child);
    }

    /// Checks if this node has any children.
    pub fn has_children(&self) -> (r: bool)
        ensures
            r == (self.children@.len() > 0),
    {
        self.children.len() > 0
    }

    /// Calculates if the node is blank: empty but for whitespace text and
    /// void elements that render nothing.
    pub fn is_blank(&self) -> (r: bool)
        ensures
            r == is_blank_spec(*self),
    {
        if self.is_meaningful_when_blank() {
            return false;
        }
        if self.is_void() {
            if self.get_attribute("src").is_some() || self.get_attribute("data").is_some()
                || crate::text::str_eq_str(self.node_name.as_str(), "BR")
                || crate::text::str_eq_str(self.node_name.as_str(), "HR") {
                return false;
            }
        }
        let n = self.children.len();
        let mut has_text: bool = false;
        let mut has_meaningful_void: bool = false;
        let mut only_empty_void: bool = true;
        let mut i: usize = 0;
        while i < n
            invariant
                n == self.children@.len(),
                i <= n,
                has_text == exists|j: int|
                    0 <= j < i && self.children@[j].node_type == NodeType::Text && trim_spec(
                        self.children@[j].node_value@,
                    ).len() != 0,
                has_meaningful_void == exists|j: int|
                    0 <= j < i && is_meaningful_void(self.children@[j]),
                only_empty_void == forall|j: int| 0 <= j < i ==> is_empty_void(self.children@[j]),
            decreases n - i,
        {
            let child = &self.children[i];
            if child.node_type == NodeType::Text {
                let value_chars = chars_of(child.node_value.as_str());
                let trimmed = trim_chars(&value_chars);
                if trimmed.len() > 0 {
                    has_text = true;
                }
            }
            let child_meaningful = child.node_type == NodeType::Element && child.is_void() && (
            child.get_attribute("src").is_some() || child.get_attribute("data").is_some()
                || crate::text::str_eq_str(child.node_name.as_str(), "BR")
                || crate::text::str_eq_str(child.node_name.as_str(), "HR"));
            if child_meaningful {
                has_meaningful_void = true;
            }
            let child_empty_void = child.node_type == NodeType::Element && child.is_void()
                && child.get_attribute("src").is_none() && child.get_attribute("data").is_none()
                && !crate::text::str_eq_str(child.node_name.as_str(), "BR")
                && !crate::text::str_eq_str(child.node_name.as_str(), "HR");
            if !child_empty_void {
                only_empty_void = false;
            }
            i += 1;
        }
        !has_text && !has_meaningful_void && (only_empty_void || n == 0)
    }

    /// Gets the whitespace flanking this element's content: the whitespace
    /// prefix of a leading text child and the whitespace suffix of a
    /// trailing text child.
    pub fn flanking_whitespace(&self) -> (r: FlankingWhitespace)
        ensures
            r.leading@ == flanking_leading_spec(*self),
            r.trailing@ == flanking_trailing_spec(*self),
    {
        if self.node_type != NodeType::Element {
            return FlankingWhitespace::new(String::new(), String::new());
        }
        let n = self.children.len();
        let mut leading = String::new();
        let mut trailing = String::new();
        if n > 0 {
            let first = &self.children[0];
            if first.node_type == NodeType::Text {
                let t = chars_of(first.node_value.as_str());
                let tn = t.len();
                let mut i: usize = 0;
                while i < tn && ws_char(t[i])
                    invariant
                        tn == t@.len(),
                        i <= tn,
                        forall|j: int| 0 <= j < i ==> crate::text::is_ws_char(t@[j]),
                    decreases tn - i,
                {
                    i += 1;
                }
                proof {
                    lemma_take_while_len_at(t@, |c: char| crate::text::is_ws_char(c), i as int);
                }
                let lead = subvec(&t, 0, i);
                assert(lead@ =~= t@.take(i as int));
                leading = string_of(&lead);
            }
            let last = &self.children[n - 1];
            if last.node_type == NodeType::Text {
                let t = chars_of(last.node_value.as_str());
                let tn = t.len();
                let mut j: usize = tn;
                while j > 0 && ws_char(t[j - 1])
                    invariant
                        tn == t@.len(),
                        j <= tn,
                        forall|k: int| j <= k < tn ==> crate::text::is_ws_char(t@[k]),
                    decreases j,
                {
                    j -= 1;
                }
                proof {
                    lemma_rtake_while_len_at(t@, |c: char| crate::text::is_ws_char(c), tn - j);
                }
                let trail = subvec(&t, j, tn);
                assert(trail@ =~= t@.skip(j as int));
                trailing = string_of(&trail);
            }
            assert(self.children@.last() == self.children@[n - 1]);
        }
        FlankingWhitespace::new(leading, trailing)
    }

    /// Gets the text content recursively.
    pub fn text_content(&self) -> (r: String)
        ensures
            r@ == text_content_spec(*self),
    {
        let v = self.text_content_chars();
        string_of(&v)
    }

    fn text_content_chars(&self) -> (r: Vec<char>)
        ensures
            r@ == text_content_spec(*self),
        decreases *self, self.children@.len() + 1,
    {
        match self.node_type {
            NodeType::Text => chars_of(self.node_value.as_str()),
            NodeType::Element | NodeType::Document => {
                let n = self.children.len();
                let mut acc: Vec<char> = Vec::new();
                let mut i: usize = 0;
                while i < n
                    invariant
                        n == self.children@.len(),
                        i <= n,
                        acc@ + text_contents_from(*self, i as int) == text_contents_from(*self, 0),
                    decreases n - i,
                {
                    let ghost acc0 = acc@;
                    let part = self.children[i].text_content_chars();
                    crate::text::append_chars(&mut acc, &part);
                    proof {
                        assert(acc@ + text_contents_from(*self, i + 1) =~= acc0
                            + text_contents_from(*self, i as int));
                    }
                    i += 1;
                }
                acc
            },
            _ => Vec::new(),
        }
    }

    /// Converts the node back to its outer HTML markup.
    pub fn to_outer_html(&self) -> (r: String)
        ensures
            r@ == outer_html_spec(*self),
    {
        let v = self.outer_html_chars();
        string_of(&v)
    }

    fn outer_html_chars(&self) -> (r: Vec<char>)
        ensures
            r@ == outer_html_spec(*self),
        decreases *self, self.children@.len() + 2,
    {
        match self.node_type {
            NodeType::Element => {
                let mut out: Vec<char> = Vec::new();
                out.push('<');
                let name = chars_of(self.node_name.as_str());
                let mut i: usize = 0;
                while i < name.len()
                    invariant
                        i <= name@.len(),
                        out@ == seq!['<'] + lower_seq(name@.take(i as int)),
                    decreases name@.len() - i,
                {
                    out.push(to_lower_char(name[i]));
                    i += 1;
                    assert(out@ =~= seq!['<'] + lower_seq(name@.take(i as int)));
                }
                assert(name@.take(name@.len() as int) =~= name@);
                let na = self.attributes.len();
                let mut j: usize = 0;
                proof {
                    assert(self.attributes@.skip(0) =~= self.attributes@);
                }
                while j < na
                    invariant
                        na == self.attributes@.len(),
                        j <= na,
                        out@ == seq!['<'] + lower_seq(self.node_name@) + attrs_html_spec(
                            self.attributes@,
                        ).take(attrs_html_spec(self.attributes@).len() - attrs_html_spec(
                            self.attributes@.skip(j as int),
                        ).len()),
                        attrs_html_spec(self.attributes@.skip(j as int)).len() <= attrs_html_spec(
                            self.attributes@,
                        ).len(),
                        attrs_html_spec(self.attributes@) == out@.skip(
                            1 + self.node_name@.len() as int,
                        ) + attrs_html_spec(self.attributes@.skip(j as int)),
                    decreases na - j,
                {
                    let ghost out0 = out@;
                    let ghost rest = self.attributes@.skip(j as int);
                    out.push(' ');
                    let key = chars_of(self.attributes[j].0.as_str());
                    crate::text::append_chars(&mut out, &key);
                    out.push('=');
                    out.push('"');
                    let val = chars_of(self.attributes[j].1.as_str());
                    crate::text::append_chars(&mut out, &val);
                    out.push('"');
                    proof {
                        assert(rest[0] == self.attributes@[j as int]);
                        assert(rest.drop_first() =~= self.attributes@.skip(j + 1));
                        assert(out@ =~= out0 + (seq![' '] + self.attributes@[j as int].0@ + seq![
                            '=',
                            '"',
                        ] + self.attributes@[j as int].1@ + seq!['"']));
                        assert(attrs_html_spec(rest) == seq![' '] + rest[0].0@ + seq!['=', '"']
                            + rest[0].1@ + seq!['"'] + attrs_html_spec(rest.drop_first()));
                        assert(attrs_html_spec(self.attributes@) =~= out@.skip(
                            1 + self.node_name@.len() as int,
                        ) + attrs_html_spec(self.attributes@.skip(j + 1)));
                        assert(out@ =~= seq!['<'] + lower_seq(self.node_name@) + attrs_html_spec(
                            self.attributes@,
                        ).take(attrs_html_spec(self.attributes@).len() - attrs_html_spec(
                            self.attributes@.skip(j + 1),
                        ).len()));
                    }
                    j += 1;
                }
                proof {
                    assert(self.attributes@.skip(na as int) =~= Seq::<(String, String)>::empty());
                    assert(out@ =~= seq!['<'] + lower_seq(self.node_name@) + attrs_html_spec(
                        self.attributes@,
                    ));
                }
                out.push('>');
                let n = self.children.len();
                let ghost head = out@;
                let mut k: usize = 0;
                while k < n
                    invariant
                        n == self.children@.len(),
                        k <= n,
                        out@ + outer_htmls_from(*self, k as int) == head + outer_htmls_from(
                            *self,
                            0,
                        ),
                    decreases n - k,
                {
                    let ghost out0 = out@;
                    let part = self.children[k].outer_html_chars();
                    crate::text::append_chars(&mut out, &part);
                    proof {
                        assert(out@ + outer_htmls_from(*self, k + 1) =~= out0 + outer_htmls_from(
                            *self,
                            k as int,
                        ));
                    }
                    k += 1;
                }
                proof {
                    assert(outer_htmls_from(*self, n as int) =~= Seq::<char>::empty());
                    assert(out@ =~= head + outer_htmls_from(*self, 0));
                }
                if !self.is_void() {
                    out.push('<');
                    out.push('/');
                    let name2 = chars_of(self.node_name.as_str());
                    let ghost out1 = out@;
                    let mut m: usize = 0;
                    while m < name2.len()
                        invariant
                            m <= name2@.len(),
                            out@ == out1 + lower_seq(name2@.take(m as int)),
                        decreases name2@.len() - m,
                    {
                        out.push(to_lower_char(name2[m]));
                        m += 1;
                        assert(out@ =~= out1 + lower_seq(name2@.take(m as int)));
                    }
                    assert(name2@.take(name2@.len() as int) =~= name2@);
                    out.push('>');
                    proof {
                        assert(out@ =~= outer_html_spec(*self));
                    }
                } else {
                    proof {
                        assert(out@ =~= outer_html_spec(*self));
                    }
                }
                out
            },
            NodeType::Text => chars_of(self.node_value.as_str()),
            NodeType::Comment => {
                let mut out = chars_of("<!--");
                let val = chars_of(self.node_value.as_str());
                crate::text::append_chars(&mut out, &val);
                let tail = chars_of("-->");
                crate::text::append_chars(&mut out, &tail);
                out
            },
            NodeType::Document => {
                let n = self.children.len();
                let mut out: Vec<char> = Vec::new();
                let mut k: usize = 0;
                while k < n
                    invariant
                        n == self.children@.len(),
                        k <= n,
                        out@ + outer_htmls_from(*self, k as int) == outer_htmls_from(*self, 0),
                    decreases n - k,
                {
                    let ghost out0 = out@;
                    let part = self.children[k].outer_html_chars();
                    crate::text::append_chars(&mut out, &part);
                    proof {
                        assert(out@ + outer_htmls_from(*self, k + 1) =~= out0 + outer_htmls_from(
                            *self,
                            k as int,
                        ));
                    }
                    k += 1;
                }
                proof {
                    assert(out@ =~= outer_htmls_from(*self, 0));
                }
                out
            },
            NodeType::ProcessingInstruction => Vec::new(),
        }
    }
}

} // verus!
