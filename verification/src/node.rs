//! The content node model: a closed set of element kinds plus attributes
//! and encryption tags.

use vstd::prelude::*;

use crate::tag::Tag;
use crate::text::{chars_of, is_ws_char, string_from, trim_chars, trim_spec};

verus! {

/// Inline style kinds.
#[derive(Debug, PartialEq, Eq, Structural, Clone, Copy)]
pub enum Style {
    Bold,
    Italic,
    Strikethrough,
}

/// Attributes are an ordered association list of name/value pairs; keys are
/// unique and keep insertion order, standing in for an unordered mapping.
pub type Attrs = Vec<(String, String)>;

/// One node of a document tree: an element plus its HTML attributes and its
/// encryption tags.
#[derive(Debug, PartialEq, Eq)]
pub struct Node {
    pub attributes: Attrs,
    pub tags: Vec<Tag>,
    pub element: El,
}

/// The element kinds a node can carry.
#[derive(Debug, PartialEq, Eq)]
pub enum El {
    Empty,
    /// Grouping wrapper rendered on its own line: `(tag, children)`.
    Block(String, Vec<Node>),
    /// Grouping wrapper rendered inline: `(tag, children)`.
    Inline(String, Vec<Node>),
    Code(String),
    /// `(language, code)`.
    Codeblock(Option<String>, String),
    /// `(summary, details)`.
    Details(Vec<Node>, Vec<Node>),
    /// `(level, children)`.
    Heading(u8, Vec<Node>),
    /// `(alt text, url)`.
    Image(String, String),
    Item(Vec<Node>),
    /// `(text, url)`.
    Link(String, String),
    List(Vec<Node>),
    Style(Style, Vec<Node>),
    /// Rows of columns of cell contents.
    Table(Vec<Vec<Vec<Node>>>),
    Text(String),
}

/// Emptiness of a node: containers are empty when every child is, text-like
/// nodes when their trimmed content is, a link when its text is, and an
/// image when its URL is.
pub open spec fn node_empty(n: Node) -> bool
    decreases n,
{
    el_empty(n.element)
}

pub open spec fn nodes_all_empty(ns: Seq<Node>) -> bool
    decreases ns,
{
    forall|i: int| 0 <= i < ns.len() ==> node_empty(#[trigger] ns[i])
}

pub open spec fn cell_all_empty(cols: Seq<Vec<Node>>) -> bool
    decreases cols,
{
    forall|i: int| 0 <= i < cols.len() ==> nodes_all_empty(#[trigger] cols[i]@)
}

pub open spec fn rows_all_empty(rows: Seq<Vec<Vec<Node>>>) -> bool
    decreases rows,
{
    forall|i: int| 0 <= i < rows.len() ==> cell_all_empty(#[trigger] rows[i]@)
}

pub open spec fn el_empty(e: El) -> bool
    decreases e,
{
    match e {
        El::Empty => true,
        El::Image(_, url) => url@.len() == 0,
        El::Link(text, _) => text@.len() == 0,
        El::Block(_, children) => nodes_all_empty(children@),
        El::Inline(_, children) => nodes_all_empty(children@),
        El::Style(_, children) => nodes_all_empty(children@),
        El::Heading(_, children) => nodes_all_empty(children@),
        El::Item(children) => nodes_all_empty(children@),
        El::List(children) => nodes_all_empty(children@),
        El::Details(summary, details) => nodes_all_empty(summary@) && nodes_all_empty(details@),
        El::Code(s) => trim_spec(s@).len() == 0,
        El::Codeblock(_, s) => trim_spec(s@).len() == 0,
        El::Text(s) => trim_spec(s@).len() == 0,
        El::Table(rows) => rows_all_empty(rows@),
    }
}

/// A node carrying no attributes and no tags anywhere, itself and all
/// its descendants: what the parser produces.
pub open spec fn node_plain(n: Node) -> bool
    decreases n,
{
    n.attributes@.len() == 0 && n.tags@.len() == 0 && el_plain(n.element)
}

pub open spec fn nodes_plain(ns: Seq<Node>) -> bool
    decreases ns,
{
    forall|k: int| 0 <= k < ns.len() ==> node_plain(#[trigger] ns[k])
}

pub open spec fn cell_all_plain(cols: Seq<Vec<Node>>) -> bool
    decreases cols,
{
    forall|k: int| 0 <= k < cols.len() ==> nodes_plain(#[trigger] cols[k]@)
}

pub open spec fn rows_all_plain(rows: Seq<Vec<Vec<Node>>>) -> bool
    decreases rows,
{
    forall|k: int| 0 <= k < rows.len() ==> cell_all_plain(#[trigger] rows[k]@)
}

pub open spec fn el_plain(e: El) -> bool
    decreases e,
{
    match e {
        El::Block(_, c) => nodes_plain(c@),
        El::Inline(_, c) => nodes_plain(c@),
        El::Style(_, c) => nodes_plain(c@),
        El::Heading(_, c) => nodes_plain(c@),
        El::Item(c) => nodes_plain(c@),
        El::List(c) => nodes_plain(c@),
        El::Details(a, b) => nodes_plain(a@) && nodes_plain(b@),
        El::Table(rows) => rows_all_plain(rows@),
        _ => true,
    }
}

/// No tags on the node or anywhere below it.
pub open spec fn node_untagged(n: Node) -> bool
    decreases n,
{
    n.tags@.len() == 0 && el_untagged(n.element)
}

pub open spec fn nodes_untagged(ns: Seq<Node>) -> bool
    decreases ns,
{
    forall|k: int| 0 <= k < ns.len() ==> node_untagged(#[trigger] ns[k])
}

/// No tags on any rendered node below the element.
pub open spec fn el_untagged(e: El) -> bool
    decreases e,
{
    match e {
        El::Block(_, c) => nodes_untagged(c@),
        El::Inline(_, c) => nodes_untagged(c@),
        El::Style(_, c) => nodes_untagged(c@),
        El::Heading(_, c) => nodes_untagged(c@),
        El::Item(c) => nodes_untagged(c@),
        El::List(c) => nodes_untagged(c@),
        El::Details(a, b) => nodes_untagged(a@) && nodes_untagged(b@),
        _ => true,
    }
}

/// A node with no attributes and no tags whose element is plain text with
/// the given content.
pub open spec fn is_plain_text_node(n: Node, content: Seq<char>) -> bool {
    &&& n.attributes@.len() == 0
    &&& n.tags@.len() == 0
    &&& n.element matches El::Text(t) && t@ == content
}

/// Text accumulation: appends a trimmed fragment to a buffer with a single
/// separating space.
pub open spec fn add_text_view(buf: Seq<char>, fragment: Seq<char>) -> Seq<char> {
    if buf.len() == 0 {
        trim_spec(fragment)
    } else {
        buf.push(' ') + trim_spec(fragment)
    }
}

impl Node {
    fn new(element: El) -> (n: Node)
        ensures
            n.element == element,
            n.attributes@.len() == 0,
            n.tags@.len() == 0,
    {
        Node { attributes: Vec::new(), tags: Vec::new(), element }
    }

    pub fn code(code: &str) -> (n: Node)
        ensures
            n.element matches El::Code(c) && c@ == trim_spec(code@),
            n.attributes@.len() == 0,
            n.tags@.len() == 0,
    {
        let v = chars_of(code);
        Self::new(El::Code(string_from(&trim_chars(&v))))
    }

    pub fn codeblock(lang: Option<&str>, code: &str) -> (n: Node)
        ensures
            n.element matches El::Codeblock(l, c) && c@ == trim_spec(code@) && (match lang {
                Some(s) => l matches Some(ls) && ls@ == s@,
                None => l is None,
            }),
            n.attributes@.len() == 0,
            n.tags@.len() == 0,
    {
        let l: Option<String> = match lang {
            Some(s) => Some(s.to_owned()),
            None => None,
        };
        let v = chars_of(code);
        Self::new(El::Codeblock(l, string_from(&trim_chars(&v))))
    }

    pub fn image(alt: &str, url: &str) -> (n: Node)
        ensures
            n.element matches El::Image(a, u) && a@ == trim_spec(alt@) && u@ == trim_spec(url@),
            n.attributes@.len() == 0,
            n.tags@.len() == 0,
    {
        let a = chars_of(alt);
        let u = chars_of(url);
        Self::new(El::Image(string_from(&trim_chars(&a)), string_from(&trim_chars(&u))))
    }

    pub fn link(text: &str, url: &str) -> (n: Node)
        ensures
            n.element matches El::Link(t, u) && t@ == trim_spec(text@) && u@ == trim_spec(url@),
            n.attributes@.len() == 0,
            n.tags@.len() == 0,
    {
        let t = chars_of(text);
        let u = chars_of(url);
        Self::new(El::Link(string_from(&trim_chars(&t)), string_from(&trim_chars(&u))))
    }

    pub fn text(text: &str) -> (n: Node)
        ensures
            is_plain_text_node(n, trim_spec(text@)),
    {
        let v = chars_of(text);
        Self::new(El::Text(string_from(&trim_chars(&v))))
    }

    pub fn style(style: Style, children: Vec<Node>) -> (n: Node)
        ensures
            n.element == El::Style(style, children),
            n.attributes@.len() == 0,
            n.tags@.len() == 0,
    {
        Self::new(El::Style(style, children))
    }

    pub fn heading(size: u8, children: Vec<Node>) -> (n: Node)
        ensures
            n.element == El::Heading(size, children),
            n.attributes@.len() == 0,
            n.tags@.len() == 0,
    {
        Self::new(El::Heading(size, children))
    }

    pub fn item(children: Vec<Node>) -> (n: Node)
        ensures
            n.element == El::Item(children),
            n.attributes@.len() == 0,
            n.tags@.len() == 0,
    {
        Self::new(El::Item(children))
    }

    /// Creates a list node. Each child that is not already an item is
    /// wrapped in one.
    pub fn list(children: Vec<Node>) -> (n: Node)
        ensures
            n.element matches El::List(items) && items@.len() == children@.len() && (forall|i: int|
                0 <= i < children@.len() ==> if children@[i].element is Item {
                    #[trigger] items@[i] == children@[i]
                } else {
                    &&& items@[i].attributes@.len() == 0
                    &&& items@[i].tags@.len() == 0
                    &&& items@[i].element matches El::Item(inner) && inner@.len() == 1 && inner@[0]
                        == children@[i]
                }),
            n.attributes@.len() == 0,
            n.tags@.len() == 0,
    {
        let mut items: Vec<Node> = Vec::new();
        let mut rest = children;
        let ghost all = rest@;
        let n: usize = rest.len();
        let mut i: usize = 0;
        while rest.len() > 0
            invariant
                all.len() == n,
                i + rest@.len() == all.len(),
                items@.len() == i,
                rest@ == all.subrange(i as int, all.len() as int),
                forall|j: int|
                    0 <= j < i ==> if all[j].element is Item {
                        #[trigger] items@[j] == all[j]
                    } else {
                        &&& items@[j].attributes@.len() == 0
                        &&& items@[j].tags@.len() == 0
                        &&& items@[j].element matches El::Item(inner) && inner@.len() == 1
                            && inner@[0] == all[j]
                    },
            decreases rest@.len(),
    {
            let node = rest.remove(0);
            assert(node == all[i as int]);
            if matches!(node.element, El::Item(_)) {
                items.push(node);
            } else {
                items.push(Self::item(vec![node]));
            }
            i = i + 1;
            proof {
                assert(rest@ =~= all.subrange(i as int, all.len() as int));
            }
        }
        Self::new(El::List(items))
    }

    pub fn table(children: Vec<Vec<Vec<Node>>>) -> (n: Node)
        ensures
            n.element == El::Table(children),
            n.attributes@.len() == 0,
            n.tags@.len() == 0,
    {
        Self::new(El::Table(children))
    }

    /// A block-level grouping wrapper with the given HTML tag.
    pub fn block(tag: &str, children: Vec<Node>) -> (n: Node)
        ensures
            n.element matches El::Block(t, c) && t@ == tag@ && c == children,
            n.attributes@.len() == 0,
            n.tags@.len() == 0,
    {
        Self::new(El::Block(tag.to_owned(), children))
    }

    /// An inline grouping wrapper with the given HTML tag.
    pub fn inline(tag: &str, children: Vec<Node>) -> (n: Node)
        ensures
            n.element matches El::Inline(t, c) && t@ == tag@ && c == children,
            n.attributes@.len() == 0,
            n.tags@.len() == 0,
    {
        Self::new(El::Inline(tag.to_owned(), children))
    }

    pub fn div(children: Vec<Node>) -> (n: Node)
        ensures
            n.element matches El::Block(t, c) && t@ == "div"@ && c == children,
            n.attributes@.len() == 0,
            n.tags@.len() == 0,
    {
        Self::block("div", children)
    }

    pub fn span(children: Vec<Node>) -> (n: Node)
        ensures
            n.element matches El::Inline(t, c) && t@ == "span"@ && c == children,
            n.attributes@.len() == 0,
            n.tags@.len() == 0,
    {
        Self::inline("span", children)
    }

    pub fn empty() -> (n: Node)
        ensures
            n.element == El::Empty,
            n.attributes@.len() == 0,
            n.tags@.len() == 0,
    {
        Self::new(El::Empty)
    }

    pub fn details(summary: Vec<Node>, details: Vec<Node>) -> (n: Node)
        ensures
            n.element == El::Details(summary, details),
            n.attributes@.len() == 0,
            n.tags@.len() == 0,
    {
        Self::new(El::Details(summary, details))
    }

    /// Index of the attribute with the given key, or -1.
    pub open spec fn spec_attr_index(self, key: Seq<char>) -> int {
        crate::node::attr_index(self.attributes@, key)
    }

    /// Sets an attribute: replaces the value of an existing key, appends a
    /// new pair otherwise. Key and value are trimmed.
    pub fn attr(&mut self, key: &str, value: &str)
        ensures
            final(self).element == old(self).element,
            final(self).tags == old(self).tags,
            ({
                let i = old(self).spec_attr_index(trim_spec(key@));
                if i == -1 {
                    &&& final(self).attributes@.len() == old(self).attributes@.len() + 1
                    &&& final(self).attributes@.subrange(0, old(self).attributes@.len() as int)
                        == old(self).attributes@
                    &&& final(self).attributes@.last().0@ == trim_spec(key@)
                    &&& final(self).attributes@.last().1@ == trim_spec(value@)
                } else {
                    &&& final(self).attributes@.len() == old(self).attributes@.len()
                    &&& forall|j: int|
                        0 <= j < old(self).attributes@.len() && j != i
                            ==> final(self).attributes@[j] == old(self).attributes@[j]
                    &&& final(self).attributes@[i].0 == old(self).attributes@[i].0
                    &&& final(self).attributes@[i].1@ == trim_spec(value@)
                }
            }),
    {
        let kc = chars_of(key);
        let k = string_from(&trim_chars(&kc));
        let vc = chars_of(value);
        let v = string_from(&trim_chars(&vc));
        let mut i: usize = 0;
        while i < self.attributes.len()
            invariant
                i <= self.attributes@.len(),
                *self == *old(self),
                k@ == trim_spec(key@),
                v@ == trim_spec(value@),
                forall|j: int| 0 <= j < i ==> #[trigger] self.attributes@[j].0@ != k@,
            decreases self.attributes@.len() - i,
        {
            if self.attributes[i].0 == k {
                proof {
                    lemma_attr_index_found(self.attributes@, k@, i as int);
                }
                let old_pair_key = self.attributes.remove(i);
                self.attributes.insert(i, (old_pair_key.0, v));
                proof {
                    assert(final(self).attributes@.len() == old(self).attributes@.len());
                }
                return ;
            }
            i = i + 1;
        }
        proof {
            lemma_attr_index_missing(self.attributes@, k@);
        }
        self.attributes.push((k, v));
    }

    /// Returns the node with the attribute set, for chained construction.
    pub fn with_attr(self, key: &str, value: &str) -> (n: Node)
        ensures
            ({
                n.element == self.element && n.tags == self.tags && {
                    let i = self.spec_attr_index(trim_spec(key@));
                    if i == -1 {
                        &&& n.attributes@.len() == self.attributes@.len() + 1
                        &&& n.attributes@.subrange(0, self.attributes@.len() as int)
                            == self.attributes@
                        &&& n.attributes@.last().0@ == trim_spec(key@)
                        &&& n.attributes@.last().1@ == trim_spec(value@)
                    } else {
                        &&& n.attributes@.len() == self.attributes@.len()
                        &&& forall|j: int|
                            0 <= j < self.attributes@.len() && j != i ==> n.attributes@[j]
                                == self.attributes@[j]
                        &&& n.attributes@[i].0 == self.attributes@[i].0
                        &&& n.attributes@[i].1@ == trim_spec(value@)
                    }
                }
            }),
    {
        let mut n = self;
        n.attr(key, value);
        n
    }

    /// Returns the node with the given tags attached.
    pub fn with_tags(self, tags: Vec<Tag>) -> (n: Node)
        ensures
            n.element == self.element,
            n.attributes == self.attributes,
            n.tags == tags,
    {
        Node { attributes: self.attributes, tags, element: self.element }
    }

    pub fn attrs(&self) -> (r: &Attrs)
        ensures
            r == &self.attributes,
    {
        &self.attributes
    }

    pub fn tags(&self) -> (r: &Vec<Tag>)
        ensures
            r == &self.tags,
    {
        &self.tags
    }

    pub fn el(&self) -> (r: &El)
        ensures
            r == &self.element,
    {
        &self.element
    }

    /// Mutable access to the element, for in-place edits.
    pub fn el_mut(&mut self) -> (r: &mut El)
        ensures
            *r == old(self).element,
            final(self).element == *final(r),
            final(self).attributes == old(self).attributes,
            final(self).tags == old(self).tags,
    {
        &mut self.element
    }

    pub fn into_el(self) -> (r: El)
        ensures
            r == self.element,
    {
        self.element
    }

    /// Looks up an attribute value by exact key.
    pub fn get_attr(&self, key: &str) -> (r: Option<&String>)
        ensures
            ({
                let i = attr_index(self.attributes@, key@);
                if i == -1 {
                    r is None
                } else {
                    r matches Some(v) && *v == self.attributes@[i].1
                }
            }),
    {
        let k = crate::text::string_from(&crate::text::chars_of(key));
        let mut i: usize = 0;
        while i < self.attributes.len()
            invariant
                i <= self.attributes@.len(),
                k@ == key@,
                forall|j: int| 0 <= j < i ==> #[trigger] self.attributes@[j].0@ != key@,
            decreases self.attributes@.len() - i,
        {
            if self.attributes[i].0 == k {
                proof {
                    lemma_attr_index_found(self.attributes@, key@, i as int);
                }
                return Some(&self.attributes[i].1);
            }
            i = i + 1;
        }
        proof {
            lemma_attr_index_missing(self.attributes@, key@);
        }
        None
    }

    /// Accumulates a text fragment into this node, as `El::add_text` of the
    /// element describes.
    pub fn add_text(&mut self, text: &str)
        ensures
            final(self).attributes == old(self).attributes,
            final(self).tags == old(self).tags,
            el_add_text_post(old(self).element, final(self).element, text@),
    {
        self.element.add_text(text);
    }

    pub fn is_empty(&self) -> (r: bool)
        ensures
            r == node_empty(*self),
        decreases *self,
    {
        self.element.is_empty()
    }

    /// The text content of a leaf element, if it has one.
    pub fn el_text(&self) -> (r: Option<&str>)
        ensures
            match self.element {
                El::Code(ref t) => r matches Some(s) && s@ == t@,
                El::Codeblock(_, ref t) => r matches Some(s) && s@ == t@,
                El::Image(ref t, _) => r matches Some(s) && s@ == t@,
                El::Link(ref t, _) => r matches Some(s) && s@ == t@,
                El::Text(ref t) => r matches Some(s) && s@ == t@,
                _ => r is None,
            },
    {
        match &self.element {
            El::Code(t) => Some(t.as_str()),
            El::Codeblock(_, t) => Some(t.as_str()),
            El::Image(t, _) => Some(t.as_str()),
            El::Link(t, _) => Some(t.as_str()),
            El::Text(t) => Some(t.as_str()),
            _ => None,
        }
    }

    /// The URL of a link or image element.
    pub fn el_url(&self) -> (r: Option<&str>)
        ensures
            match self.element {
                El::Image(_, ref u) => r matches Some(s) && s@ == u@,
                El::Link(_, ref u) => r matches Some(s) && s@ == u@,
                _ => r is None,
            },
    {
        match &self.element {
            El::Image(_, u) => Some(u.as_str()),
            El::Link(_, u) => Some(u.as_str()),
            _ => None,
        }
    }
}

/// What `El::add_text` leaves behind: text-like elements extend their
/// buffer, containers gain a text child, leaves with fixed content are
/// unchanged.
pub open spec fn el_add_text_post(before: El, after: El, text: Seq<char>) -> bool {
    match before {
        El::Empty => after == before,
        El::Image(_, _) => after == before,
        El::Link(_, _) => after == before,
        El::Table(_) => after == before,
        El::Code(s) => after matches El::Code(s2) && s2@ == add_text_view(s@, text),
        El::Codeblock(l, s) => after matches El::Codeblock(l2, s2) && l2 == l && s2@
            == add_text_view(s@, text),
        El::Text(s) => after matches El::Text(s2) && s2@ == add_text_view(s@, text),
        El::Block(t, c) => after matches El::Block(t2, c2) && t2 == t && pushed_text(c@, c2@, text),
        El::Inline(t, c) => after matches El::Inline(t2, c2) && t2 == t && pushed_text(
            c@,
            c2@,
            text,
        ),
        El::Style(k, c) => after matches El::Style(k2, c2) && k2 == k && pushed_text(c@, c2@, text),
        El::Heading(n, c) => after matches El::Heading(n2, c2) && n2 == n && pushed_text(
            c@,
            c2@,
            text,
        ),
        El::Item(c) => after matches El::Item(c2) && pushed_text(c@, c2@, text),
        El::List(c) => after matches El::List(c2) && pushed_text(c@, c2@, text),
        El::Details(s, d) => after matches El::Details(s2, d2) && s2 == s && pushed_text(
            d@,
            d2@,
            text,
        ),
    }
}

/// `after` is `before` with one plain text node holding the trimmed
/// fragment appended.
pub open spec fn pushed_text(before: Seq<Node>, after: Seq<Node>, text: Seq<char>) -> bool {
    &&& after.len() == before.len() + 1
    &&& after.subrange(0, before.len() as int) == before
    &&& is_plain_text_node(after.last(), trim_spec(text))
}

impl El {
    pub fn add_text(&mut self, text: &str)
        ensures
            el_add_text_post(*old(self), *final(self), text@),
    {
        match self {
            El::Empty => (),
            El::Image(..) => (),
            El::Link(..) => (),
            El::Table(..) => (),
            El::Block(_, children) => push_text_child(children, text),
            El::Inline(_, children) => push_text_child(children, text),
            El::Style(_, children) => push_text_child(children, text),
            El::Heading(_, children) => push_text_child(children, text),
            El::Item(children) => push_text_child(children, text),
            El::List(children) => push_text_child(children, text),
            El::Details(_, children) => push_text_child(children, text),
            El::Code(string) => append_text(string, text),
            El::Codeblock(_, string) => append_text(string, text),
            El::Text(string) => append_text(string, text),
        }
    }

    pub fn is_empty(&self) -> (r: bool)
        ensures
            r == el_empty(*self),
        decreases *self,
    {
        match self {
            El::Empty => true,
            El::Image(_, url) => url.unicode_len() == 0,
            El::Link(text, _) => text.unicode_len() == 0,
            El::Block(_, children)
            | El::Inline(_, children)
            | El::Style(_, children)
            | El::Heading(_, children)
            | El::Item(children)
            | El::List(children) => all_empty(children),
            El::Details(summary, details) => all_empty(summary) && all_empty(details),
            El::Code(s) | El::Codeblock(_, s) | El::Text(s) => {
                let v = chars_of(s.as_str());
                let t = trim_chars(&v);
                t.len() == 0
            },
            El::Table(rows) => table_rows_empty(rows),
        }
    }
}

fn table_rows_empty(rows: &Vec<Vec<Vec<Node>>>) -> (r: bool)
    ensures
        r == rows_all_empty(rows@),
    decreases rows,
{
    let mut i: usize = 0;
    while i < rows.len()
        invariant
            i <= rows@.len(),
            forall|j: int| 0 <= j < i ==> cell_all_empty(#[trigger] rows@[j]@),
        decreases rows@.len() - i,
    {
        proof {
            assert(decreases_to!(*rows => rows@[i as int]));
        }
        if !row_empty(&rows[i]) {
            assert(!rows_all_empty(rows@));
            return false;
        }
        i = i + 1;
    }
    true
}

fn push_text_child(children: &mut Vec<Node>, text: &str)
    ensures
        pushed_text(old(children)@, final(children)@, text@),
{
    let ghost before = children@;
    children.push(Node::text(text));
    proof {
        assert(children@.subrange(0, before.len() as int) =~= before);
    }
}

fn append_text(string: &mut String, text: &str)
    ensures
        final(string)@ == add_text_view(old(string)@, text@),
{
    let v = chars_of(text);
    let t = trim_chars(&v);
    if string.unicode_len() != 0 {
        string.push(' ');
    }
    let frag = string_from(&t);
    string.append(frag.as_str());
}

fn row_empty(cols: &Vec<Vec<Node>>) -> (r: bool)
    ensures
        r == cell_all_empty(cols@),
    decreases cols,
{
    let mut i: usize = 0;
    while i < cols.len()
        invariant
            i <= cols@.len(),
            forall|j: int| 0 <= j < i ==> nodes_all_empty(#[trigger] cols@[j]@),
        decreases cols@.len() - i,
    {
        proof {
            assert(decreases_to!(*cols => cols@[i as int]));
        }
        if !all_empty(&cols[i]) {
            assert(!cell_all_empty(cols@));
            return false;
        }
        i = i + 1;
    }
    true
}

/// Whether every node in the vector is empty.
pub fn all_empty(nodes: &Vec<Node>) -> (r: bool)
    ensures
        r == nodes_all_empty(nodes@),
    decreases nodes,
{
    let mut i: usize = 0;
    while i < nodes.len()
        invariant
            i <= nodes@.len(),
            forall|j: int| 0 <= j < i ==> node_empty(#[trigger] nodes@[j]),
        decreases nodes@.len() - i,
    {
        proof {
            assert(decreases_to!(*nodes => nodes@[i as int]));
        }
        if !nodes[i].is_empty() {
            assert(!nodes_all_empty(nodes@));
            return false;
        }
        i = i + 1;
    }
    true
}

/// Index of the first pair in `attrs` whose key reads `key`, or -1.
pub open spec fn attr_index(attrs: Seq<(String, String)>, key: Seq<char>) -> int
    decreases attrs.len(),
{
    if attrs.len() == 0 {
        -1
    } else if attrs[0].0@ == key {
        0
    } else {
        let rest = attr_index(attrs.drop_first(), key);
        if rest == -1 {
            -1
        } else {
            rest + 1
        }
    }
}

/// An empty attribute list holds no key.
pub proof fn lemma_attr_index_empty(attrs: Seq<(String, String)>, key: Seq<char>)
    requires
        attrs.len() == 0,
    ensures
        attr_index(attrs, key) == -1,
{
}

proof fn lemma_attr_index_found(attrs: Seq<(String, String)>, key: Seq<char>, i: int)
    requires
        0 <= i < attrs.len(),
        attrs[i].0@ == key,
        forall|j: int| 0 <= j < i ==> #[trigger] attrs[j].0@ != key,
    ensures
        attr_index(attrs, key) == i,
    decreases i,
{
    if i > 0 {
        lemma_attr_index_found(attrs.drop_first(), key, i - 1);
    }
}

proof fn lemma_attr_index_missing(attrs: Seq<(String, String)>, key: Seq<char>)
    requires
        forall|j: int| 0 <= j < attrs.len() ==> #[trigger] attrs[j].0@ != key,
    ensures
        attr_index(attrs, key) == -1,
    decreases attrs.len(),
{
    if attrs.len() > 0 {
        lemma_attr_index_missing(attrs.drop_first(), key);
    }
}

} // verus!
