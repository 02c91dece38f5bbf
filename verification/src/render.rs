//! The HTML renderer: per-node serialization, root-level paragraph
//! grouping, and section-scoped encryption gating.

use vstd::prelude::*;

use crate::aes::encrypt;
use crate::config::Config;
use crate::css::{floating_menu, with_class, with_id};
use crate::doc::Doc;
use crate::html::{
    escape, hview, indent, st_attr, st_close, st_closel, st_finish, st_lclose, st_lclosel,
    st_lopen, st_lopenl, st_open, st_push_str, st_rtrim, st_sin, st_singleton, st_space, st_start,
    st_text, Html, SState, TABSIZE,
};
use crate::node::{Attrs, El, Node, Style};
use crate::tag::{tags_contains, Tag};
use crate::wiki::{WikiPage, WikiTree};

verus! {

/// The name of a synthesized directory index file.
pub const INDEX_FILE: &'static str = "index.html";

/// The extension of generated pages.
pub const OUTPUT_EXT: &'static str = "html";

/// The structural size of a node, for termination of the render walk.
pub open spec fn node_size(n: Node) -> nat
    decreases n,
{
    1 + el_size(n.element)
}

pub open spec fn el_size(e: El) -> nat
    decreases e,
{
    match e {
        El::Block(_, c) => seq_size(c@),
        El::Inline(_, c) => seq_size(c@),
        El::Style(_, c) => seq_size(c@),
        El::Heading(_, c) => seq_size(c@),
        El::Item(c) => seq_size(c@),
        El::List(c) => seq_size(c@),
        El::Details(a, b) => seq_size(a@) + seq_size(b@),
        _ => 0,
    }
}

pub open spec fn seq_size(s: Seq<Node>) -> nat
    decreases s,
{
    if s.len() == 0 {
        0
    } else {
        node_size(s[0]) + seq_size(s.drop_first())
    }
}

/// The size of the range `[from, to)` of a node list.
pub open spec fn range_size(s: Seq<Node>, from: int, to: int) -> nat
    decreases to - from,
{
    if from < 0 || from >= to || to > s.len() {
        0
    } else {
        node_size(s[from]) + range_size(s, from + 1, to)
    }
}

proof fn lemma_range_size_elem(s: Seq<Node>, from: int, to: int, i: int)
    requires
        0 <= from <= i < to <= s.len(),
    ensures
        node_size(s[i]) <= range_size(s, from, to),
        range_size(s, i, to) <= range_size(s, from, to),
    decreases i - from,
{
    if from < i {
        lemma_range_size_elem(s, from + 1, to, i);
    }
}

proof fn lemma_range_size_prefix(s: Seq<Node>, from: int, mid: int, to: int)
    requires
        0 <= from <= mid <= to <= s.len(),
    ensures
        range_size(s, from, mid) <= range_size(s, from, to),
    decreases mid - from,
{
    if from < mid {
        lemma_range_size_prefix(s, from + 1, mid, to);
    }
}

proof fn lemma_node_le_seq(s: Seq<Node>, i: int)
    requires
        0 <= i < s.len(),
    ensures
        node_size(s[i]) <= seq_size(s),
{
    lemma_seq_size_range(s, 0);
    assert(s.subrange(0, s.len() as int) =~= s);
    lemma_range_size_elem(s, 0, s.len() as int, i);
}

proof fn lemma_seq_size_range(s: Seq<Node>, from: int)
    requires
        0 <= from <= s.len(),
    ensures
        range_size(s, from, s.len() as int) == seq_size(s.subrange(from, s.len() as int)),
    decreases s.len() - from,
{
    if from < s.len() {
        lemma_seq_size_range(s, from + 1);
        assert(s.subrange(from, s.len() as int).drop_first() =~= s.subrange(
            from + 1,
            s.len() as int,
        ));
    } else {
        assert(s.subrange(from, s.len() as int) =~= Seq::<Node>::empty());
    }
}

/// Node kinds that belong inside a paragraph at root level.
pub open spec fn wants_paragraph(e: El) -> bool {
    e is Text || e is Code || e is Link || e is Style
}

/// Node kinds that end any open paragraph.
pub open spec fn closes_paragraph(e: El) -> bool {
    e is Block || e is Inline || e is Codeblock || e is Details || e is Heading || e is Image
        || e is List || e is Table
}

/// Whether the paragraph machine closes an open paragraph before this
/// node: block-level kinds always do; a text node does only after another
/// text node (a blank line in the source); inline kinds never do.
pub open spec fn breaks_paragraph(cur: El, prev_is_text: bool) -> bool {
    (cur is Text && prev_is_text) || closes_paragraph(cur)
}

/// Law: an inline node — a link, inline code, or a styled span — never
/// closes an open paragraph, and always belongs inside one: it stays in
/// the same paragraph as the text before it, whatever that text was.
pub proof fn lemma_inline_keeps_paragraph(cur: El, prev_is_text: bool)
    requires
        cur is Link || cur is Code || cur is Style,
    ensures
        !breaks_paragraph(cur, prev_is_text),
        wants_paragraph(cur),
{
}

/// One step of the paragraph machine: whether the open paragraph closes
/// first, and whether a fresh one opens for this node.
fn paragraph_step(cur: &El, prev_is_text: bool, open: bool) -> (r: (bool, bool))
    ensures
        r.0 == (open && breaks_paragraph(*cur, prev_is_text)),
        r.1 == (wants_paragraph(*cur) && (!open || r.0)),
{
    let wants = match cur {
        El::Text(_) => true,
        El::Code(_) => true,
        El::Link(_, _) => true,
        El::Style(_, _) => true,
        _ => false,
    };
    let closes = match cur {
        El::Block(_, _) => true,
        El::Inline(_, _) => true,
        El::Codeblock(_, _) => true,
        El::Details(_, _) => true,
        El::Heading(_, _) => true,
        El::Image(_, _) => true,
        El::List(_) => true,
        El::Table(_) => true,
        _ => false,
    };
    let is_text = matches!(cur, El::Text(_));
    let close_first = open && ((is_text && prev_is_text) || closes);
    let opens = wants && (!open || close_first);
    (close_first, opens)
}

/// Everything a render pass reads: the configuration, the site tree, and
/// the page being rendered.
struct Rctx<'a> {
    config: &'a Config,
    tree: &'a WikiTree,
    page: &'a WikiPage,
}

spec fn rctx_ok(c: Rctx) -> bool {
    &&& c.tree.wf()
    &&& c.page.path@.len() >= 1
    &&& c.page.path@[0] == 0
}

/// The decimal digits of a byte value.
pub open spec fn spec_dec_digits(n: int) -> Seq<char>
    decreases n,
{
    if n < 0 {
        Seq::empty()
    } else if n < 10 {
        seq![digit_char(n)]
    } else {
        spec_dec_digits(n / 10) + seq![digit_char(n % 10)]
    }
}

pub open spec fn digit_char(d: int) -> char {
    if d == 0 {
        '0'
    } else if d == 1 {
        '1'
    } else if d == 2 {
        '2'
    } else if d == 3 {
        '3'
    } else if d == 4 {
        '4'
    } else if d == 5 {
        '5'
    } else if d == 6 {
        '6'
    } else if d == 7 {
        '7'
    } else if d == 8 {
        '8'
    } else {
        '9'
    }
}

fn digit_exec(d: u8) -> (r: char)
    requires
        d < 10,
    ensures
        r == digit_char(d as int),
{
    match d {
        0 => '0',
        1 => '1',
        2 => '2',
        3 => '3',
        4 => '4',
        5 => '5',
        6 => '6',
        7 => '7',
        8 => '8',
        _ => '9',
    }
}

/// The HTML tag of a heading: `h` followed by the level in decimal.
fn heading_tag(level: u8) -> (r: String)
    ensures
        r@ == seq!['h'] + spec_dec_digits(level as int),
{
    proof {
        reveal_with_fuel(spec_dec_digits, 4);
    }
    let mut s = String::new();
    s.push('h');
    if level >= 100 {
        s.push(digit_exec(level / 100));
        s.push(digit_exec((level / 10) % 10));
        s.push(digit_exec(level % 10));
        proof {
            assert(s@ =~= seq!['h'] + spec_dec_digits(level as int));
        }
    } else if level >= 10 {
        s.push(digit_exec(level / 10));
        s.push(digit_exec(level % 10));
        proof {
            assert(s@ =~= seq!['h'] + spec_dec_digits(level as int));
        }
    } else {
        s.push(digit_exec(level));
        proof {
            assert(s@ =~= seq!['h'] + spec_dec_digits(level as int));
        }
    }
    s
}

/// Resolves an empty link or image URL against the page tree, when the
/// configuration enables it; a URL already present is returned unchanged.
fn handle_empty_url(ctx: &Rctx, text: &str, ext: &str, url: &str) -> (r: String)
    requires
        rctx_ok(*ctx),
    ensures
        url@.len() > 0 ==> r@ == url@,
        !ctx.config.empty_links ==> r@ == url@,
{
    if url.unicode_len() == 0 && ctx.config.empty_links {
        match ctx.tree.find_link_target(text, ext, ctx.page) {
            Some(target) => {
                return String::from_str(target.url());
            },
            None => {
                // An unresolved reference degrades to an empty URL.
            },
        }
    }
    String::from_str(url)
}

/// The label-and-password views of a pair list.
pub open spec fn pairs_view(ps: Seq<(Tag, String)>) -> Seq<(Seq<char>, Seq<char>)>
    decreases ps,
{
    if ps.len() == 0 {
        Seq::empty()
    } else {
        seq![(ps[0].0.spec_name(), ps[0].1@)] + pairs_view(ps.drop_first())
    }
}

proof fn lemma_pairs_view_push(ps: Seq<(Tag, String)>, p: (Tag, String))
    ensures
        pairs_view(ps.push(p)) == pairs_view(ps).push((p.0.spec_name(), p.1@)),
    decreases ps,
{
    let q = ps.push(p);
    assert(pairs_view(q) == seq![(q[0].0.spec_name(), q[0].1@)] + pairs_view(q.drop_first()));
    if ps.len() == 0 {
        assert(q.drop_first() =~= Seq::<(Tag, String)>::empty());
        assert(q[0] == p);
        assert(pairs_view(q) =~= pairs_view(ps).push((p.0.spec_name(), p.1@)));
    } else {
        assert(q.drop_first() =~= ps.drop_first().push(p));
        assert(q[0] == ps[0]);
        lemma_pairs_view_push(ps.drop_first(), p);
        assert(pairs_view(ps) == seq![(ps[0].0.spec_name(), ps[0].1@)] + pairs_view(
            ps.drop_first(),
        ));
        assert(pairs_view(q) =~= pairs_view(ps).push((p.0.spec_name(), p.1@)));
    }
}

/// The configured pairs whose tag occurs in `tags`, among the first
/// `upto` entries, in configuration order, as label/password views.
proof fn lemma_pairs_view_index(ps: Seq<(Tag, String)>, k: int)
    requires
        0 <= k < ps.len(),
    ensures
        pairs_view(ps).len() == ps.len(),
        pairs_view(ps)[k] == (ps[k].0.spec_name(), ps[k].1@),
    decreases ps,
{
    lemma_pairs_view_len(ps);
    if k > 0 {
        lemma_pairs_view_index(ps.drop_first(), k - 1);
    }
}

pub open spec fn matching_pairs(
    keys: Seq<(Tag, String)>,
    tags: Seq<Tag>,
    upto: int,
) -> Seq<(Seq<char>, Seq<char>)>
    decreases upto,
{
    if upto <= 0 {
        Seq::empty()
    } else {
        let rest = matching_pairs(keys, tags, upto - 1);
        if 0 <= upto - 1 < keys.len() && crate::tag::tags_contain(tags, keys[upto - 1].0) {
            rest.push((keys[upto - 1].0.spec_name(), keys[upto - 1].1@))
        } else {
            rest
        }
    }
}

/// The configured `(tag, password)` pairs whose tag occurs in the given
/// set, in configuration order; nothing exactly when no configured tag
/// occurs there.
pub(crate) fn encryption_pairs(config: &Config, tags: &Vec<Tag>) -> (r: Option<Vec<(Tag, String)>>)
    ensures
        r matches Some(ps) ==> ps@.len() > 0 && tags@.len() > 0,
        tags@.len() == 0 ==> r is None,
        config.tag_keys@.len() == 0 ==> r is None,
        r is Some <==> (tags@.len() > 0 && matching_pairs(
            config.tag_keys@,
            tags@,
            config.tag_keys@.len() as int,
        ).len() > 0),
        r matches Some(ps) ==> pairs_view(ps@) == matching_pairs(
            config.tag_keys@,
            tags@,
            config.tag_keys@.len() as int,
        ),
{
    if tags.len() == 0 {
        proof {
            lemma_matching_empty_tags(config.tag_keys@, tags@, config.tag_keys@.len() as int);
        }
        return None;
    }
    let mut ps: Vec<(Tag, String)> = Vec::new();
    let mut i: usize = 0;
    while i < config.tag_keys.len()
        invariant
            i <= config.tag_keys@.len(),
            config.tag_keys@.len() == 0 ==> ps@.len() == 0,
            pairs_view(ps@) == matching_pairs(config.tag_keys@, tags@, i as int),
        decreases config.tag_keys@.len() - i,
    {
        if tags_contains(tags, &config.tag_keys[i].0) {
            let p = (config.tag_keys[i].0.clone(), config.tag_keys[i].1.clone());
            proof {
                lemma_pairs_view_push(ps@, p);
            }
            ps.push(p);
        }
        i = i + 1;
    }
    proof {
        lemma_pairs_view_len(ps@);
    }
    if ps.len() == 0 {
        None
    } else {
        Some(ps)
    }
}

proof fn lemma_pairs_view_len(ps: Seq<(Tag, String)>)
    ensures
        pairs_view(ps).len() == ps.len(),
    decreases ps,
{
    if ps.len() > 0 {
        lemma_pairs_view_len(ps.drop_first());
    }
}

/// No tag matches against an empty tag set.
proof fn lemma_matching_empty_tags(keys: Seq<(Tag, String)>, tags: Seq<Tag>, upto: int)
    requires
        tags.len() == 0,
    ensures
        matching_pairs(keys, tags, upto).len() == 0,
    decreases upto,
{
    if upto > 0 {
        lemma_matching_empty_tags(keys, tags, upto - 1);
    }
}

/// The views of a string list joined with `;` from position `i` on.
pub open spec fn spec_join_semi(items: Seq<String>, i: int) -> Seq<char>
    decreases items.len() - i,
{
    if i < 0 || i >= items.len() {
        Seq::empty()
    } else if i == items.len() - 1 {
        items[i]@
    } else {
        items[i]@ + seq![';'] + spec_join_semi(items, i + 1)
    }
}

fn join_semi(items: &Vec<String>) -> (r: String)
    ensures
        r@ == spec_join_semi(items@, 0),
{
    let mut out = String::new();
    let mut i: usize = 0;
    while i < items.len()
        invariant
            i <= items@.len(),
            out@ + spec_join_semi(items@, i as int) == spec_join_semi(items@, 0),
            i == items@.len() ==> out@ == spec_join_semi(items@, 0),
        decreases items@.len() - i,
    {
        let ghost pre = out@;
        out.append(items[i].as_str());
        if i + 1 < items.len() {
            out.push(';');
            proof {
                assert(pre + (items@[i as int]@ + seq![';'] + spec_join_semi(items@, i + 1)) =~= out@
                    + spec_join_semi(items@, i + 1));
            }
        } else {
            proof {
                assert(out@ =~= pre + items@[i as int]@);
                assert(spec_join_semi(items@, i + 1) =~= Seq::<char>::empty());
                assert(out@ + spec_join_semi(items@, i + 1) =~= out@);
            }
        }
        i = i + 1;
    }
    proof {
        if items@.len() == 0 {
            assert(out@ =~= spec_join_semi(items@, 0));
        }
    }
    out
}

/// The shape of the replacement for an encrypted section: a single inline
/// span whose only child is plain ciphertext text.
pub open spec fn is_secret_node(n: Node) -> bool {
    &&& n.element matches El::Inline(t, c) && t@ == "span"@ && c@.len() == 1 && c@[0].element
        is Text && c@[0].attributes@.len() == 0
    &&& n.tags@.len() == 0
}

/// The node's single text child is a ciphertext of the plaintext under
/// the given password, for some nonce recorded alongside it.
pub open spec fn holds_ciphertext_of(n: Node, plaintext: Seq<char>, password: Seq<char>) -> bool {
    n.element matches El::Inline(_, c) && c@.len() == 1 && (c@[0].element matches El::Text(ct)
        && exists|ns: Seq<char>| #[trigger] crate::aes::encryption_ok(plaintext, password, ns, ct@))
}

/// The node's single text child is either empty (every cipher call was
/// refused) or a genuine ciphertext of some plaintext under one of the
/// given pairs' passwords.
pub open spec fn secret_node_genuine(n: Node, pairs: Seq<(Tag, String)>) -> bool {
    n.element matches El::Inline(_, c) && c@.len() == 1 && (c@[0].element matches El::Text(ct) && (
    ct@ == Seq::<char>::empty() || exists|pt: Seq<char>, j: int, ns: Seq<char>|
        0 <= j < pairs.len() && #[trigger] crate::aes::encryption_ok(pt, pairs[j].1@, ns, ct@)))
}

/// The attributes the replacement node records: its `secret` class, the
/// matched tag labels joined by `;`, and the matching nonces joined by
/// `;`, of which the last opens the stored text under the last password.
pub open spec fn secret_attrs_recorded(
    n: Node,
    pairs: Seq<(Tag, String)>,
    plaintext: Seq<char>,
) -> bool {
    &&& n.attributes@.len() == 3
    &&& n.attributes@[0].0@ == crate::text::trim_spec("class"@) && n.attributes@[0].1@
        == crate::text::trim_spec("secret"@)
    &&& n.attributes@[1].0@ == crate::text::trim_spec("tags"@)
    &&& n.attributes@[2].0@ == crate::text::trim_spec("nonces"@)
    &&& exists|names: Seq<String>, nonces: Seq<String>|
        #![trigger spec_join_semi(names, 0), spec_join_semi(nonces, 0)]
        {
            &&& names.len() == pairs.len() && nonces.len() == pairs.len()
            &&& (forall|k: int|
                0 <= k < names.len() ==> (#[trigger] names[k])@ == pairs[k].0.spec_name())
            &&& n.attributes@[1].1@ == crate::text::trim_spec(spec_join_semi(names, 0))
            &&& n.attributes@[2].1@ == crate::text::trim_spec(spec_join_semi(nonces, 0))
            &&& (n.element matches El::Inline(_, c) && c@.len() == 1 && (c@[0].element
                matches El::Text(ct) && crate::aes::encryption_ok(
                plaintext,
                pairs[pairs.len() - 1].1@,
                nonces[pairs.len() - 1]@,
                ct@,
            )))
        }
}

/// Builds the ciphertext replacement node: a `span` of class `secret`
/// holding the ciphertext of the last pair processed, with the matched
/// tags and their nonces joined by `;` in its attributes. Every pair is
/// encrypted independently; earlier pairs' ciphertexts are discarded, and
/// for plaintext within the cipher's size limit the kept text is a true
/// ciphertext of the plaintext under the last pair's password.
fn encrypt_text(pairs: &Vec<(Tag, String)>, plaintext: &str) -> (n: Node)
    ensures
        is_secret_node(n),
        secret_node_genuine(n, pairs@),
        (pairs@.len() > 0 && vstd::utf8::encode_utf8(plaintext@).len() <= 0x1000000000)
            ==> holds_ciphertext_of(n, plaintext@, pairs@[pairs@.len() - 1].1@),
        (pairs@.len() > 0 && vstd::utf8::encode_utf8(plaintext@).len() <= 0x1000000000)
            ==> secret_attrs_recorded(n, pairs@, plaintext@),
{
    let mut names: Vec<String> = Vec::new();
    let mut nonces: Vec<String> = Vec::new();
    let mut ciphertext = String::new();
    let ghost mut last_ns: Seq<char> = Seq::empty();
    let ghost mut last_j: int = 0;
    let mut i: usize = 0;
    while i < pairs.len()
        invariant
            i <= pairs@.len(),
            (i > 0 && vstd::utf8::encode_utf8(plaintext@).len() <= 0x1000000000)
                ==> crate::aes::encryption_ok(plaintext@, pairs@[i - 1].1@, last_ns, ciphertext@),
            ciphertext@ == Seq::<char>::empty() || (0 <= last_j < i && crate::aes::encryption_ok(
                plaintext@,
                pairs@[last_j].1@,
                last_ns,
                ciphertext@,
            )),
            names@.len() == nonces@.len(),
            vstd::utf8::encode_utf8(plaintext@).len() <= 0x1000000000 ==> ({
                &&& names@.len() == i
                &&& (forall|k: int|
                    0 <= k < i ==> (#[trigger] names@[k])@ == pairs@[k].0.spec_name())
                &&& (i > 0 ==> nonces@[i - 1]@ == last_ns)
            }),
        decreases pairs@.len() - i,
    {
        match encrypt(plaintext, pairs[i].1.as_str()) {
            Ok((nonce, enc)) => {
                proof {
                    assert(crate::aes::encryption_ok(
                        plaintext@,
                        pairs@[i as int].1@,
                        nonce@,
                        enc@,
                    ));
                }
                names.push(String::from_str(pairs[i].0.as_ref()));
                proof {
                    last_ns = nonce@;
                    last_j = i as int;
                }
                nonces.push(nonce);
                ciphertext = enc;
            },
            Err(_) => {
                // A failing pair contributes nothing and is skipped; within
                // the cipher's size limit this does not happen.
                proof {
                    if vstd::utf8::encode_utf8(plaintext@).len() <= 0x1000000000 {
                        assert(false);
                    }
                }
            },
        }
        i = i + 1;
    }
    // The ciphertext is base64 text; it is stored verbatim.
    let ghost ct_view = ciphertext@;
    let inner = Node { attributes: Vec::new(), tags: Vec::new(), element: El::Text(ciphertext) };
    let span = Node::span(vec![inner]);
    let classed = with_class(span, "secret");
    let tagged = classed.with_attr("tags", join_semi(&names).as_str());
    let result = tagged.with_attr("nonces", join_semi(&nonces).as_str());
    proof {
        assert(result.element == span.element);
        assert(span.element matches El::Inline(t, c) && c@.len() == 1 && c@[0] == inner);
        assert(inner.element matches El::Text(ct) && ct@ == ct_view);
        reveal_strlit("class");
        reveal_strlit("secret");
        reveal_strlit("tags");
        reveal_strlit("nonces");
        crate::text::lemma_trim_solid("class"@);
        crate::text::lemma_trim_solid("tags"@);
        crate::text::lemma_trim_solid("nonces"@);
        let a1 = classed.attributes@;
        assert(a1.len() == 1);
        assert(a1[0].0@ == crate::text::trim_spec("class"@));
        assert(a1[0].1@ == crate::text::trim_spec("secret"@));
        assert("class"@.len() == 5 && "tags"@.len() == 4 && "nonces"@.len() == 6);
        assert(a1[0].0@ != crate::text::trim_spec("tags"@));
        assert(a1.drop_first().len() == 0);
        assert(crate::node::attr_index(a1.drop_first(), crate::text::trim_spec("tags"@)) == -1);
        assert(crate::node::attr_index(a1, crate::text::trim_spec("tags"@)) == -1);
        let a2 = tagged.attributes@;
        assert(a2.len() == 2);
        assert(a2.subrange(0, 1) == a1);
        assert(a2[0] == a2.subrange(0, 1)[0]);
        assert(a2[0] == a1[0]);
        assert(a2[1].0@ == crate::text::trim_spec("tags"@));
        assert(a2[1].1@ == crate::text::trim_spec(spec_join_semi(names@, 0)));
        assert(a2[0].0@ != crate::text::trim_spec("nonces"@));
        assert(a2[1].0@ != crate::text::trim_spec("nonces"@));
        assert(a2.drop_first().drop_first().len() == 0);
        assert(crate::node::attr_index(
            a2.drop_first().drop_first(),
            crate::text::trim_spec("nonces"@),
        ) == -1);
        assert(a2.drop_first()[0] == a2[1]);
        assert(crate::node::attr_index(a2.drop_first(), crate::text::trim_spec("nonces"@)) == -1);
        assert(crate::node::attr_index(a2, crate::text::trim_spec("nonces"@)) == -1);
        let a3 = result.attributes@;
        assert(a3.len() == 3);
        assert(a3.subrange(0, 2) == a2);
        assert(a3[0] == a3.subrange(0, 2)[0] && a3[1] == a3.subrange(0, 2)[1]);
        assert(a3[2].0@ == crate::text::trim_spec("nonces"@));
        assert(a3[2].1@ == crate::text::trim_spec(spec_join_semi(nonces@, 0)));
        if pairs@.len() > 0 && vstd::utf8::encode_utf8(plaintext@).len() <= 0x1000000000 {
            assert(crate::aes::encryption_ok(
                plaintext@,
                pairs@[pairs@.len() - 1].1@,
                last_ns,
                ct_view,
            ));
            assert(holds_ciphertext_of(result, plaintext@, pairs@[pairs@.len() - 1].1@));
            assert(nonces@[pairs@.len() - 1]@ == last_ns);
            assert(crate::aes::encryption_ok(
                plaintext@,
                pairs@[pairs@.len() - 1].1@,
                nonces@[pairs@.len() - 1]@,
                ct_view,
            ));
            assert(secret_attrs_recorded(result, pairs@, plaintext@));
        }
        if ct_view != Seq::<char>::empty() {
            assert(crate::aes::encryption_ok(plaintext@, pairs@[last_j].1@, last_ns, ct_view));
        }
        assert(secret_node_genuine(result, pairs@));
    }
    result
}

/// Renders the ciphertext replacement node: an inline span of text.
fn render_secret_node(html: &mut Html, node: &Node)
    requires
        is_secret_node(*node),
    ensures
        final(html).stack@ == old(html).stack@,
        final(html).indent_adjust == old(html).indent_adjust,
        hview(*final(html)) == sr_node(*node, hview(*old(html))),
{
    html.space_if_needed();
    if let El::Inline(tag, children) = &node.element {
        let t = String::from_str(tag.as_str());
        html.open(t.as_str(), &node.attributes);
        let ghost st1 = hview(*html);
        let mut i: usize = 0;
        while i < children.len()
            invariant
                i <= children@.len(),
                children@.len() == 1,
                children@[0].element is Text,
                html.stack@.len() == old(html).stack@.len() + 1,
                html.stack@.drop_last() == old(html).stack@,
                html.indent_adjust == old(html).indent_adjust,
                sr_nodes(children@, 0, children@.len() as int, st1) == sr_nodes(
                    children@,
                    i as int,
                    children@.len() as int,
                    hview(*html),
                ),
            decreases children@.len() - i,
        {
            let ghost pre = hview(*html);
            proof {
                lemma_range_size_elem(children@, 0, children@.len() as int, i as int);
                lemma_node_le_seq(children@, i as int);
            }
            if let El::Text(text) = &children[i].element {
                render_text_inline(html, text.as_str());
            }
            proof {
                assert(hview(*html) == sr_node(children@[i as int], pre));
                assert(sr_nodes(children@, i as int, children@.len() as int, pre) == sr_nodes(
                    children@,
                    i + 1,
                    children@.len() as int,
                    hview(*html),
                ));
            }
            i = i + 1;
        }
        html.close();
        proof {
            assert(node_size(*node) == 1 + seq_size(children@));
            assert(hview(*html) == sr_node(*node, hview(*old(html))));
        }
    } else {
        proof {
            assert(false);
        }
    }
}


/// A configuration under which serialization is a pure function of the
/// node tree: no link resolution and no encryption keys.
pub open spec fn plain_config(c: Config) -> bool {
    !c.empty_links && c.tag_keys@.len() == 0
}

/// Serialization is a pure function of the node: no link resolution is
/// configured, and no encryption replacement can fire at or below it —
/// either no keys are configured, or the caller already sits inside an
/// encrypted section (`skip`) and nothing below the node is tagged.
pub open spec fn sr_exact_node(c: Config, skip: bool, n: Node) -> bool {
    &&& !c.empty_links
    &&& (c.tag_keys@.len() == 0 || ((skip || n.tags@.len() == 0)
        && crate::node::el_untagged(n.element)))
}

/// `sr_exact_node` over the range `[from, to)` of a node list.
pub open spec fn sr_exact_range(c: Config, skip: bool, nodes: Seq<Node>, from: int, to: int) -> bool {
    &&& !c.empty_links
    &&& (c.tag_keys@.len() == 0 || (forall|k: int|
        from <= k < to ==> ((skip || (#[trigger] nodes[k]).tags@.len() == 0)
            && crate::node::el_untagged(nodes[k].element))))
}

/// The serialization of one node, for a plain configuration.
pub open spec fn sr_node(node: Node, st: SState) -> SState
    decreases node_size(node), 0int, 1int,
{
    match node.element {
        El::Empty => st,
        El::Block(tag, c) => if seq_size(c@) < node_size(node) {
            st_lclose(sr_nodes(c@, 0, c@.len() as int, st_lopenl(st, tag@, node.attributes@)))
        } else {
            st
        },
        El::Inline(tag, c) => if seq_size(c@) < node_size(node) {
            st_close(sr_nodes(c@, 0, c@.len() as int, st_open(st_sin(st), tag@, node.attributes@)))
        } else {
            st
        },
        El::Code(t) => st_close(
            st_push_str(
                st_open(st, "code"@, node.attributes@),
                crate::html::spec_escape_from(t@, 0),
            ),
        ),
        El::Codeblock(_, t) => {
            let st1 = st_lopenl(st, "pre"@, node.attributes@);
            st_lclosel(
                st_push_str(
                    st1,
                    crate::html::spec_indent(
                        crate::html::spec_escape_from(t@, 0),
                        st1.stack.len() as int,
                    ),
                ),
            )
        },
        El::Details(sm, d) => if seq_size(sm@) + seq_size(d@) < node_size(node) {
            let st1 = st_lopen(
                st_lopenl(st, "details"@, node.attributes@),
                "summary"@,
                Seq::empty(),
            );
            st_lclosel(sr_nodes(d@, 0, d@.len() as int, st_close(sr_nodes(sm@, 0, sm@.len() as int, st1))))
        } else {
            st
        },
        El::Heading(lv, c) => if seq_size(c@) < node_size(node) {
            st_closel(
                sr_nodes(
                    c@,
                    0,
                    c@.len() as int,
                    st_lopen(st, seq!['h'] + spec_dec_digits(lv as int), node.attributes@),
                ),
            )
        } else {
            st
        },
        El::Image(a, u) => st_finish(
            st_attr(
                st_attr(
                    st_singleton(st_sin(st), "img"@),
                    "src"@,
                    crate::html::spec_escape_from(u@, 0),
                ),
                "alt"@,
                a@,
            ),
            node.attributes@,
        ),
        El::Item(c) => if seq_size(c@) < node_size(node) {
            st_close(sr_nodes(c@, 0, c@.len() as int, st_lopen(st, "li"@, node.attributes@)))
        } else {
            st
        },
        El::Link(t, u) => st_close(
            st_push_str(
                st_finish(
                    st_attr(
                        st_start(st_sin(st), "a"@),
                        "href"@,
                        crate::html::spec_escape_from(u@, 0),
                    ),
                    node.attributes@,
                ),
                t@,
            ),
        ),
        El::List(c) => if seq_size(c@) < node_size(node) {
            st_lclosel(sr_nodes(c@, 0, c@.len() as int, st_lopen(st, "ul"@, node.attributes@)))
        } else {
            st
        },
        El::Style(sty, c) => if seq_size(c@) < node_size(node) {
            let tag: Seq<char> = match sty {
                Style::Bold => "b"@,
                Style::Italic => "i"@,
                Style::Strikethrough => "s"@,
            };
            st_space(st_close(st_rtrim(sr_nodes(c@, 0, c@.len() as int, st_open(st_sin(st), tag, node.attributes@)))))
        } else {
            st
        },
        El::Table(_) => st,
        El::Text(t) => st_text(st, t@),
    }
}

/// The serialization of the node range `[i, to)`, for a plain
/// configuration.
pub open spec fn sr_nodes(nodes: Seq<Node>, i: int, to: int, st: SState) -> SState
    decreases seq_size(nodes), 2int, to - i,
{
    if !(0 <= i < to <= nodes.len()) {
        st
    } else if node_size(nodes[i]) <= seq_size(nodes) {
        sr_nodes(nodes, i + 1, to, sr_node(nodes[i], st))
    } else {
        st
    }
}

/// One step of the root-level paragraph machine over the serializer.
pub open spec fn sr_root_loop(
    nodes: Seq<Node>,
    i: int,
    to: int,
    st: SState,
    open: bool,
    prev_text: bool,
) -> (SState, bool)
    decreases seq_size(nodes), 4int, to - i,
{
    if !(0 <= i < to <= nodes.len()) {
        (st, open)
    } else {
        let cf = open && breaks_paragraph(nodes[i].element, prev_text);
        let st1 = if cf {
            st_lclosel(st)
        } else {
            st
        };
        let open1 = open && !cf;
        let open_new = wants_paragraph(nodes[i].element) && !open1;
        let st2 = if open_new {
            st_lopenl(st1, "p"@, Seq::empty())
        } else {
            st1
        };
        let st3 = if node_size(nodes[i]) <= seq_size(nodes) {
            sr_node(nodes[i], st2)
        } else {
            st2
        };
        sr_root_loop(nodes, i + 1, to, st3, open1 || open_new, nodes[i].element is Text)
    }
}

/// The root-level rendering of a node range at a given depth, for a plain
/// configuration: paragraph grouping applied over a fresh buffer.
pub open spec fn sr_root(nodes: Seq<Node>, from: int, to: int, depth: int) -> Seq<char> {
    let st0 = SState { content: Seq::empty(), stack: Seq::empty(), jc: None, adjust: depth };
    let r = sr_root_loop(nodes, from, to, st0, false, false);
    if r.1 {
        st_lclose(r.0).content
    } else {
        r.0.content
    }
}

/// Emits plain text, spacing it off preceding inline content when it
/// begins with a letter, a digit, or a slash.
fn render_text_inline(html: &mut Html, text: &str)
    ensures
        final(html).stack@ == old(html).stack@,
        final(html).indent_adjust == old(html).indent_adjust,
        hview(*final(html)) == st_text(hview(*old(html)), text@),
{
    let v = crate::text::chars_of(text);
    if v.len() > 0 && (crate::parse::is_alnum_exec(v[0]) || v[0] == '/') {
        html.space_if_needed();
    }
    html.push_str(text);
}

/// Serializes one node, gating it through encryption first unless the
/// caller is already inside an encrypted section.
#[verifier::rlimit(100)]
fn render(ctx: &Rctx, html: &mut Html, node: &Node, skip_encryption: bool)
    requires
        rctx_ok(*ctx),
    ensures
        final(html).stack@ == old(html).stack@,
        final(html).indent_adjust == old(html).indent_adjust,
        sr_exact_node(*ctx.config, skip_encryption, *node) ==> hview(*final(html)) == sr_node(*node, hview(*old(html))),
        (!skip_encryption && node.tags@.len() > 0 && matching_pairs(
            ctx.config.tag_keys@,
            node.tags@,
            ctx.config.tag_keys@.len() as int,
        ).len() > 0) ==> secret_replaces_node(
            *ctx.config,
            *node,
            hview(*old(html)),
            hview(*final(html)),
        ),
    decreases node_size(*node), (if skip_encryption { 0int } else { 1int }), 5int,
{
    if !skip_encryption && handle_encryption_node(ctx, html, node) {
        return ;
    }
    let empty_attrs: Attrs = Vec::new();
    match &node.element {
        El::Empty => {},
        El::Block(tag, children) => {
            let t = String::from_str(tag.as_str());
            html.lopenl(t.as_str(), &node.attributes);
            proof {
                lemma_seq_size_range(children@, 0);
                assert(children@.subrange(0, children@.len() as int) =~= children@);
            }
            render_nodes(ctx, html, children, 0, children.len(), false);
            html.lclose();
            proof {
                assert(node_size(*node) == 1 + seq_size(children@));
                if sr_exact_node(*ctx.config, skip_encryption, *node) {
                    assert(hview(*html) == sr_node(*node, hview(*old(html))));
                }
            }
        },
        El::Inline(tag, children) => {
            let t = String::from_str(tag.as_str());
            html.space_if_needed();
            html.open(t.as_str(), &node.attributes);
            proof {
                lemma_seq_size_range(children@, 0);
                assert(children@.subrange(0, children@.len() as int) =~= children@);
            }
            render_nodes(ctx, html, children, 0, children.len(), false);
            html.close();
            proof {
                assert(node_size(*node) == 1 + seq_size(children@));
                if sr_exact_node(*ctx.config, skip_encryption, *node) {
                    assert(hview(*html) == sr_node(*node, hview(*old(html))));
                }
            }
        },
        El::Code(code) => {
            html.open("code", &node.attributes);
            let e = escape(code.as_str());
            html.push_str(e.as_str());
            html.close();
            proof {
                if sr_exact_node(*ctx.config, skip_encryption, *node) {
                    assert(hview(*html) == sr_node(*node, hview(*old(html))));
                }
            }
        },
        El::Codeblock(_lang, code) => {
            html.lopenl("pre", &node.attributes);
            proof {
                crate::html::lemma_stack_views_len(html.stack@);
            }
            let indent_size = html.stack.len();
            let e = escape(code.as_str());
            let ind = indent(e.as_str(), indent_size);
            html.push_str(ind.as_str());
            html.lclosel();
            proof {
                if sr_exact_node(*ctx.config, skip_encryption, *node) {
                    assert(hview(*html) == sr_node(*node, hview(*old(html))));
                }
            }
        },
        El::Details(summary, details) => {
            html.lopenl("details", &node.attributes);
            html.lopen("summary", &empty_attrs);
            proof {
                lemma_seq_size_range(summary@, 0);
                assert(summary@.subrange(0, summary@.len() as int) =~= summary@);
            }
            render_nodes(ctx, html, summary, 0, summary.len(), false);
            html.close();
            proof {
                lemma_seq_size_range(details@, 0);
                assert(details@.subrange(0, details@.len() as int) =~= details@);
            }
            render_nodes(ctx, html, details, 0, details.len(), false);
            html.lclosel();
            proof {
                assert(node_size(*node) == 1 + seq_size(summary@) + seq_size(details@));
                if sr_exact_node(*ctx.config, skip_encryption, *node) {
                    assert(empty_attrs@ =~= Seq::<(String, String)>::empty());
                    assert(hview(*html) == sr_node(*node, hview(*old(html))));
                }
            }
        },
        El::Heading(level, children) => {
            let t = heading_tag(*level);
            html.lopen(t.as_str(), &node.attributes);
            proof {
                lemma_seq_size_range(children@, 0);
                assert(children@.subrange(0, children@.len() as int) =~= children@);
            }
            render_nodes(ctx, html, children, 0, children.len(), false);
            html.closel();
            proof {
                assert(node_size(*node) == 1 + seq_size(children@));
                if sr_exact_node(*ctx.config, skip_encryption, *node) {
                    assert(hview(*html) == sr_node(*node, hview(*old(html))));
                }
            }
        },
        El::Image(text, url) => {
            let mut u = String::from_str(url.as_str());
            if u.as_str().unicode_len() == 0 {
                u = handle_empty_url(ctx, text.as_str(), "jpg", u.as_str());
            }
            if u.as_str().unicode_len() == 0 {
                u = handle_empty_url(ctx, text.as_str(), "jpeg", u.as_str());
            }
            if u.as_str().unicode_len() == 0 {
                u = handle_empty_url(ctx, text.as_str(), "png", u.as_str());
            }
            html.space_if_needed();
            html.singleton("img");
            let ue = escape(u.as_str());
            html.attr("src", ue.as_str());
            html.attr("alt", text.as_str());
            html.finish(&node.attributes);
            proof {
                if sr_exact_node(*ctx.config, skip_encryption, *node) {
                    assert(u@ == url@);
                    assert(hview(*html) == sr_node(*node, hview(*old(html))));
                }
            }
        },
        El::Item(children) => {
            html.lopen("li", &node.attributes);
            proof {
                lemma_seq_size_range(children@, 0);
                assert(children@.subrange(0, children@.len() as int) =~= children@);
            }
            render_nodes(ctx, html, children, 0, children.len(), false);
            html.close();
            proof {
                assert(node_size(*node) == 1 + seq_size(children@));
                if sr_exact_node(*ctx.config, skip_encryption, *node) {
                    assert(hview(*html) == sr_node(*node, hview(*old(html))));
                }
            }
        },
        El::Link(text, url) => {
            let u = handle_empty_url(ctx, text.as_str(), OUTPUT_EXT, url.as_str());
            html.space_if_needed();
            html.start("a");
            let ue = escape(u.as_str());
            html.attr("href", ue.as_str());
            html.finish(&node.attributes);
            html.push_str(text.as_str());
            html.close();
            proof {
                if sr_exact_node(*ctx.config, skip_encryption, *node) {
                    assert(u@ == url@);
                    assert(hview(*html) == sr_node(*node, hview(*old(html))));
                }
            }
        },
        El::List(children) => {
            html.lopen("ul", &node.attributes);
            proof {
                lemma_seq_size_range(children@, 0);
                assert(children@.subrange(0, children@.len() as int) =~= children@);
            }
            render_nodes(ctx, html, children, 0, children.len(), false);
            html.lclosel();
            proof {
                assert(node_size(*node) == 1 + seq_size(children@));
                if sr_exact_node(*ctx.config, skip_encryption, *node) {
                    assert(hview(*html) == sr_node(*node, hview(*old(html))));
                }
            }
        },
        El::Style(style, children) => {
            let tag: &str = match style {
                Style::Bold => "b",
                Style::Italic => "i",
                Style::Strikethrough => "s",
            };
            html.space_if_needed();
            html.open(tag, &node.attributes);
            proof {
                lemma_seq_size_range(children@, 0);
                assert(children@.subrange(0, children@.len() as int) =~= children@);
            }
            render_nodes(ctx, html, children, 0, children.len(), false);
            html.trim_end();
            html.close();
            html.space();
            proof {
                assert(node_size(*node) == 1 + seq_size(children@));
                if sr_exact_node(*ctx.config, skip_encryption, *node) {
                    assert(hview(*html) == sr_node(*node, hview(*old(html))));
                }
            }
        },
        El::Table(_rows) => {
            // Table rendering is modelled but has no enabled serializer.
        },
        El::Text(text) => {
            render_text_inline(html, text.as_str());
        },
    }
}

/// Serializes the range `[from, to)` of a node list, letting encrypted
/// sections consume their following siblings.
fn render_nodes(
    ctx: &Rctx,
    html: &mut Html,
    nodes: &Vec<Node>,
    from: usize,
    to: usize,
    skip_encryption: bool,
)
    requires
        rctx_ok(*ctx),
        from <= to <= nodes@.len(),
    ensures
        final(html).stack@ == old(html).stack@,
        final(html).indent_adjust == old(html).indent_adjust,
        sr_exact_range(*ctx.config, skip_encryption, nodes@, from as int, to as int) ==> hview(*final(html)) == sr_nodes(
            nodes@,
            from as int,
            to as int,
            hview(*old(html)),
        ),
    decreases range_size(nodes@, from as int, to as int), (if skip_encryption {
        0int
    } else {
        1int
    }), 7int,
{
    let mut skip_n: usize = 0;
    let mut i: usize = from;
    while i < to
        invariant
            rctx_ok(*ctx),
            from <= i <= to <= nodes@.len(),
            html.stack@ == old(html).stack@,
            html.indent_adjust == old(html).indent_adjust,
            sr_exact_range(*ctx.config, skip_encryption, nodes@, from as int, to as int) ==> skip_n == 0,
            sr_exact_range(*ctx.config, skip_encryption, nodes@, from as int, to as int) ==> sr_nodes(
                nodes@,
                from as int,
                to as int,
                hview(*old(html)),
            ) == sr_nodes(nodes@, i as int, to as int, hview(*html)),
        decreases to - i,
    {
        if skip_n > 0 {
            skip_n = skip_n - 1;
            i = i + 1;
            continue ;
        }
        proof {
            lemma_range_size_elem(nodes@, from as int, to as int, i as int);
            lemma_node_le_seq(nodes@, i as int);
        }
        let ghost pre = hview(*html);
        if skip_encryption {
            render(ctx, html, &nodes[i], true);
        } else {
            match handle_encryption_section(ctx, html, nodes, i, to, false) {
                Some(n) => {
                    skip_n = n;
                },
                None => {
                    render(ctx, html, &nodes[i], false);
                },
            }
        }
        proof {
            if sr_exact_range(*ctx.config, skip_encryption, nodes@, from as int, to as int) {
                assert(sr_exact_node(*ctx.config, skip_encryption, nodes@[i as int]));
                assert(hview(*html) == sr_node(nodes@[i as int], pre));
                assert(sr_nodes(nodes@, i as int, to as int, pre) == sr_nodes(
                    nodes@,
                    i + 1,
                    to as int,
                    hview(*html),
                ));
            }
        }
        i = i + 1;
    }
    proof {
        if sr_exact_range(*ctx.config, skip_encryption, nodes@, from as int, to as int) {
            assert(sr_nodes(nodes@, i as int, to as int, hview(*html)) == hview(*html));
        }
    }
}

/// Some ciphertext span is serialized in the node's place: the state
/// moves from `st0` to `st1` by rendering a secret span instead of the
/// node, and — when nothing below the node is tagged, links need no
/// resolution, and the plaintext is within the cipher's size limit — the
/// span's text is the ciphertext of the node's own rendering under the
/// last matching password.
pub open spec fn secret_replaces_node(c: Config, n: Node, st0: SState, st1: SState) -> bool {
    exists|secret: Node|
        {
            &&& #[trigger] sr_node(secret, st0) == st1
            &&& is_secret_node(secret)
            &&& ((!c.empty_links && crate::node::el_untagged(n.element)
                && vstd::utf8::encode_utf8(node_plaintext(n)).len() <= 0x1000000000)
                ==> holds_ciphertext_of(
                secret,
                node_plaintext(n),
                matching_pairs(c.tag_keys@, n.tags@, c.tag_keys@.len() as int).last().1,
            ))
        }
}

/// Replaces a tagged node by its ciphertext, when its tags are configured
/// for encryption; reports whether it did.
fn handle_encryption_node(ctx: &Rctx, html: &mut Html, node: &Node) -> (r: bool)
    requires
        rctx_ok(*ctx),
    ensures
        final(html).stack@ == old(html).stack@,
        final(html).indent_adjust == old(html).indent_adjust,
        ctx.config.tag_keys@.len() == 0 ==> !r && *final(html) == *old(html),
        node.tags@.len() == 0 ==> !r && *final(html) == *old(html),
        (node.tags@.len() > 0 && matching_pairs(
            ctx.config.tag_keys@,
            node.tags@,
            ctx.config.tag_keys@.len() as int,
        ).len() > 0) ==> r,
        r ==> secret_replaces_node(*ctx.config, *node, hview(*old(html)), hview(*final(html))),
    decreases node_size(*node), 1int, 4int,
{
    match encryption_pairs(ctx.config, &node.tags) {
        Some(pairs) => {
            let enc = encrypt_single(ctx, &pairs, node);
            render_secret_node(html, &enc);
            proof {
                let mp = matching_pairs(
                    ctx.config.tag_keys@,
                    node.tags@,
                    ctx.config.tag_keys@.len() as int,
                );
                lemma_pairs_view_index(pairs@, pairs@.len() - 1);
                assert(pairs@[pairs@.len() - 1].1@ == mp.last().1);
                assert(sr_node(enc, hview(*old(html))) == hview(*html));
            }
            true
        },
        None => false,
    }
}

/// The exact plaintext an encrypted single node is the ciphertext of.
pub open spec fn node_plaintext(n: Node) -> Seq<char> {
    crate::text::trim_spec(
        sr_node(
            n,
            (SState { content: Seq::empty(), stack: Seq::empty(), jc: None, adjust: 0 }),
        ).content,
    )
}

/// The exact plaintext an encrypted section is the ciphertext of: its own
/// rendering, with paragraph grouping at root level.
pub open spec fn section_plaintext(
    nodes: Seq<Node>,
    from: int,
    to: int,
    depth: int,
    at_root: bool,
) -> Seq<char> {
    if at_root {
        sr_root(nodes, from, to, depth)
    } else {
        crate::text::trim_spec(
            sr_nodes(
                nodes,
                from,
                to,
                (SState { content: Seq::empty(), stack: Seq::empty(), jc: None, adjust: 0 }),
            ).content,
        )
    }
}

/// Encrypts the plaintext rendering of one node under each pair.
fn encrypt_single(ctx: &Rctx, pairs: &Vec<(Tag, String)>, node: &Node) -> (n: Node)
    requires
        rctx_ok(*ctx),
    ensures
        is_secret_node(n),
        secret_node_genuine(n, pairs@),
        (sr_exact_node(*ctx.config, true, *node) && pairs@.len() > 0
            && vstd::utf8::encode_utf8(node_plaintext(*node)).len() <= 0x1000000000)
            ==> holds_ciphertext_of(n, node_plaintext(*node), pairs@[pairs@.len() - 1].1@),
    decreases node_size(*node), 1int, 3int,
{
    let mut h = Html::new();
    let ghost st0 = hview(h);
    proof {
        assert(st0.stack =~= Seq::<Seq<char>>::empty());
        assert(st0.content =~= Seq::<char>::empty());
        assert(st0.jc is None && st0.adjust == 0);
        assert(st0 =~= (SState {
            content: Seq::empty(),
            stack: Seq::empty(),
            jc: None,
            adjust: 0,
        }));
    }
    render(ctx, &mut h, node, true);
    let raw = h.take_string();
    let plaintext = crate::text::trim_string(raw.as_str());
    let result = encrypt_text(pairs, plaintext.as_str());
    proof {
        if sr_exact_node(*ctx.config, true, *node) {
            assert(plaintext@ == node_plaintext(*node));
        }
    }
    result
}

/// Encrypts the plaintext rendering of the section `[from, to)` under each
/// pair, at root level or inline.
pub fn encrypt_nodes(
    config: &Config,
    tree: &WikiTree,
    page: &WikiPage,
    depth: usize,
    pairs: &Vec<(Tag, String)>,
    nodes: &Vec<Node>,
    from: usize,
    to: usize,
    at_root: bool,
) -> (n: Node)
    requires
        tree.wf(),
        page.path@.len() >= 1,
        page.path@[0] == 0,
        from <= to <= nodes@.len(),
    ensures
        is_secret_node(n),
        secret_node_genuine(n, pairs@),
        (sr_exact_range(*config, true, nodes@, from as int, to as int) && pairs@.len() > 0
            && vstd::utf8::encode_utf8(
            section_plaintext(nodes@, from as int, to as int, depth as int, at_root),
        ).len() <= 0x1000000000) ==> holds_ciphertext_of(
            n,
            section_plaintext(nodes@, from as int, to as int, depth as int, at_root),
            pairs@[pairs@.len() - 1].1@,
        ),
    decreases range_size(nodes@, from as int, to as int), 1int, 3int,
{
    let ctx = Rctx { config, tree, page };
    let plaintext = if at_root {
        render_root_range(&ctx, depth, nodes, from, to, true)
    } else {
        let mut h = Html::new();
        let ghost st0 = hview(h);
        proof {
            assert(st0.stack =~= Seq::<Seq<char>>::empty());
            assert(st0.content =~= Seq::<char>::empty());
            assert(st0.jc is None && st0.adjust == 0);
            assert(st0 =~= (SState {
                content: Seq::empty(),
                stack: Seq::empty(),
                jc: None,
                adjust: 0,
            }));
        }
        render_nodes(&ctx, &mut h, nodes, from, to, true);
        let raw = h.take_string();
        crate::text::trim_string(raw.as_str())
    };
    let result = encrypt_text(pairs, plaintext.as_str());
    proof {
        if sr_exact_range(*config, true, nodes@, from as int, to as int) {
            assert(plaintext@ == section_plaintext(
                nodes@,
                from as int,
                to as int,
                depth as int,
                at_root,
            ));
        }
    }
    result
}

/// The position of the next heading of the given level in `[j, to)`, or
/// `to` when none follows.
pub open spec fn find_heading(nodes: Seq<Node>, j: int, to: int, level: u8) -> int
    decreases to - j,
{
    if 0 <= j < to <= nodes.len() {
        if nodes[j].element matches El::Heading(l, _) && l == level {
            j
        } else {
            find_heading(nodes, j + 1, to, level)
        }
    } else {
        to
    }
}

/// The extent of the encrypted section headed by `nodes[i]`, as the
/// exclusive end and the count of consumed siblings: a heading takes its
/// following siblings up to the next heading of the same level, or — when
/// none closes it — all but the final one; any other node stands alone.
pub open spec fn spec_section_end(nodes: Seq<Node>, i: int, to: int) -> (int, int) {
    match nodes[i].element {
        El::Heading(level, _) => {
            let j = find_heading(nodes, i + 1, to, level);
            if j < to {
                (j, j - i - 1)
            } else if to - 1 >= i + 1 {
                (to - 1, to - i - 1)
            } else {
                (i, to - i - 1)
            }
        },
        _ => (i + 1, 0),
    }
}

/// Some ciphertext span is serialized in the section's place, and — when
/// nothing in the section is tagged below the top level, links need no
/// resolution, and the plaintext fits the cipher — its text is the
/// ciphertext of the section's own rendering under the last matching
/// password.
pub open spec fn secret_replaces_section(
    c: Config,
    nodes: Seq<Node>,
    i: int,
    to: int,
    at_root: bool,
    st0: SState,
    st1: SState,
) -> bool {
    exists|secret: Node|
        {
            &&& #[trigger] sr_node(secret, st0) == st1
            &&& is_secret_node(secret)
            &&& ({
                let end = spec_section_end(nodes, i, to).0;
                let pt = section_plaintext(nodes, i, end, st0.stack.len() as int, at_root);
                (sr_exact_range(c, true, nodes, i, end) && vstd::utf8::encode_utf8(pt).len()
                    <= 0x1000000000 && matching_pairs(
                    c.tag_keys@,
                    nodes[i].tags@,
                    c.tag_keys@.len() as int,
                ).len() > 0) ==> holds_ciphertext_of(
                    secret,
                    pt,
                    matching_pairs(c.tag_keys@, nodes[i].tags@, c.tag_keys@.len() as int).last().1,
                )
            })
        }
}

/// Encryption gating for the node at `i` in `[from, to)`-style rendering:
/// when the node's tags are configured, the section it heads — the node
/// itself, or a heading together with its following siblings up to the
/// next heading of the same level — is rendered once as plaintext,
/// encrypted under every matching pair, and replaced by a single
/// ciphertext node. Returns how many following siblings were consumed.
fn handle_encryption_section(
    ctx: &Rctx,
    html: &mut Html,
    nodes: &Vec<Node>,
    i: usize,
    to: usize,
    at_root: bool,
) -> (r: Option<usize>)
    requires
        rctx_ok(*ctx),
        i < to <= nodes@.len(),
    ensures
        final(html).stack@ == old(html).stack@,
        final(html).indent_adjust == old(html).indent_adjust,
        ctx.config.tag_keys@.len() == 0 ==> r is None && *final(html) == *old(html),
        nodes@[i as int].tags@.len() == 0 ==> r is None && *final(html) == *old(html),
        (nodes@[i as int].tags@.len() > 0 && matching_pairs(
            ctx.config.tag_keys@,
            nodes@[i as int].tags@,
            ctx.config.tag_keys@.len() as int,
        ).len() > 0) ==> r is Some,
        r matches Some(skip) ==> skip == spec_section_end(nodes@, i as int, to as int).1
            && secret_replaces_section(
            *ctx.config,
            nodes@,
            i as int,
            to as int,
            at_root,
            hview(*old(html)),
            hview(*final(html)),
        ),
    decreases range_size(nodes@, i as int, to as int), 1int, 4int,
{
    let pairs = match encryption_pairs(ctx.config, &nodes[i].tags) {
        Some(p) => p,
        None => {
            return None;
        },
    };
    let mut skip: usize = 0;
    let mut end: usize = i + 1;
    if let El::Heading(nt, _) = &nodes[i].element {
        let level = *nt;
        let mut j = i + 1;
        let mut found: bool = false;
        while !found && j < to
            invariant
                i + 1 <= j <= to <= nodes@.len(),
                (nodes@[i as int].element matches El::Heading(l, _) && l == level),
                !found ==> find_heading(nodes@, i + 1, to as int, level) == find_heading(
                    nodes@,
                    j as int,
                    to as int,
                    level,
                ),
                found ==> (j as int) < to as int && find_heading(nodes@, i + 1, to as int, level)
                    == j as int,
            decreases to - j + (if found {
                0int
            } else {
                1int
            }),
        {
            let is_same = match &nodes[j].element {
                El::Heading(t2, _) => *t2 == level,
                _ => false,
            };
            if is_same {
                found = true;
                proof {
                    assert(find_heading(nodes@, j as int, to as int, level) == j as int);
                }
            } else {
                proof {
                    assert(find_heading(nodes@, j as int, to as int, level) == find_heading(
                        nodes@,
                        j + 1,
                        to as int,
                        level,
                    ));
                }
                j = j + 1;
            }
        }
        proof {
            if !found {
                assert(find_heading(nodes@, j as int, to as int, level) == to as int);
            }
        }
        if found {
            // The section runs up to, but excludes, the next heading of
            // the same level.
            end = j;
            skip = j - i - 1;
        } else {
            // No later heading closes the section: the boundary falls one
            // short of the end, leaving the final sibling out.
            end = if to - i >= 1 {
                to - 1
            } else {
                i
            };
            if end < i + 1 {
                end = i;
            }
            skip = to - i - 1;
        }
        proof {
            assert(end as int == spec_section_end(nodes@, i as int, to as int).0);
            assert(skip as int == spec_section_end(nodes@, i as int, to as int).1);
        }
    } else {
        proof {
            assert(end as int == spec_section_end(nodes@, i as int, to as int).0);
            assert(skip as int == spec_section_end(nodes@, i as int, to as int).1);
        }
    }
    let depth = html.stack.len();
    proof {
        lemma_range_size_prefix(nodes@, i as int, end as int, to as int);
        crate::html::lemma_stack_views_len(html.stack@);
    }
    let enc = encrypt_nodes(
        ctx.config,
        ctx.tree,
        ctx.page,
        depth,
        &pairs,
        nodes,
        i,
        end,
        at_root,
    );
    render_secret_node(html, &enc);
    proof {
        let mp = matching_pairs(
            ctx.config.tag_keys@,
            nodes@[i as int].tags@,
            ctx.config.tag_keys@.len() as int,
        );
        lemma_pairs_view_index(pairs@, pairs@.len() - 1);
        assert(pairs@[pairs@.len() - 1].1@ == mp.last().1);
        assert(depth as int == hview(*old(html)).stack.len() as int);
        assert(sr_node(enc, hview(*old(html))) == hview(*html));
    }
    Some(skip)
}

/// Renders a top-level range with paragraph grouping: inline runs are
/// wrapped in `<p>` blocks, block-level nodes close them, and two adjacent
/// text nodes — a blank line in the source — start a fresh paragraph.
fn render_root_range(
    ctx: &Rctx,
    depth: usize,
    nodes: &Vec<Node>,
    from: usize,
    to: usize,
    skip_encryption: bool,
) -> (r: String)
    requires
        rctx_ok(*ctx),
        from <= to <= nodes@.len(),
    ensures
        sr_exact_range(*ctx.config, skip_encryption, nodes@, from as int, to as int) ==> r@ == sr_root(
            nodes@,
            from as int,
            to as int,
            depth as int,
        ),
    decreases range_size(nodes@, from as int, to as int), (if skip_encryption {
        0int
    } else {
        1int
    }), 8int,
{
    let mut html = Html::new();
    html.indent_adjust = depth;
    let ghost st0 = hview(html);
    proof {
        assert(st0.stack =~= Seq::<Seq<char>>::empty());
        assert(st0.content =~= Seq::<char>::empty());
    }
    let empty_attrs: Attrs = Vec::new();
    let mut skip_n: usize = 0;
    let mut paragraph_open: bool = false;
    let mut prev_is_text: bool = false;
    let mut i: usize = from;
    while i < to
        invariant
            rctx_ok(*ctx),
            from <= i <= to <= nodes@.len(),
            empty_attrs@.len() == 0,
            sr_exact_range(*ctx.config, skip_encryption, nodes@, from as int, to as int) ==> skip_n == 0,
            sr_exact_range(*ctx.config, skip_encryption, nodes@, from as int, to as int) ==> sr_root_loop(
                nodes@,
                from as int,
                to as int,
                st0,
                false,
                false,
            ) == sr_root_loop(
                nodes@,
                i as int,
                to as int,
                hview(html),
                paragraph_open,
                prev_is_text,
            ),
        decreases to - i,
    {
        if skip_n > 0 {
            skip_n = skip_n - 1;
            i = i + 1;
            continue ;
        }
        proof {
            lemma_range_size_elem(nodes@, from as int, to as int, i as int);
            lemma_node_le_seq(nodes@, i as int);
        }
        if !skip_encryption {
            match handle_encryption_section(ctx, &mut html, nodes, i, to, true) {
                Some(n) => {
                    skip_n = n;
                    i = i + 1;
                    continue ;
                },
                None => {},
            }
        }
        let ghost pre = hview(html);
        let ghost open0 = paragraph_open;
        let (close_first, open_new) = paragraph_step(
            &nodes[i].element,
            prev_is_text,
            paragraph_open,
        );
        if close_first {
            html.lclosel();
            paragraph_open = false;
        }
        if open_new {
            html.lopenl("p", &empty_attrs);
            paragraph_open = true;
        }
        render(ctx, &mut html, &nodes[i], skip_encryption);
        proof {
            if sr_exact_range(*ctx.config, skip_encryption, nodes@, from as int, to as int) {
                assert(sr_exact_node(*ctx.config, skip_encryption, nodes@[i as int]));
                assert(empty_attrs@ =~= Seq::<(String, String)>::empty());
                assert(sr_root_loop(nodes@, i as int, to as int, pre, open0, prev_is_text)
                    == sr_root_loop(
                    nodes@,
                    i + 1,
                    to as int,
                    hview(html),
                    paragraph_open,
                    nodes@[i as int].element is Text,
                ));
            }
        }
        prev_is_text = matches!(nodes[i].element, El::Text(_));
        i = i + 1;
    }
    if paragraph_open {
        html.lclose();
    }
    let r = html.take_string();
    proof {
        if sr_exact_range(*ctx.config, skip_encryption, nodes@, from as int, to as int) {
            assert(r@ == sr_root(nodes@, from as int, to as int, depth as int));
        }
    }
    r
}

/// Renders a node list alone, without the document scaffold.
pub fn render_nodes_only(
    config: &Config,
    tree: &WikiTree,
    page: &WikiPage,
    nodes: &Vec<Node>,
    skip_encryption: bool,
) -> (r: String)
    requires
        tree.wf(),
        page.path@.len() >= 1,
        page.path@[0] == 0,
    ensures
        r@ == crate::text::trim_spec(r@),
        plain_config(*config) ==> r@ == crate::text::trim_spec(
            sr_nodes(
                nodes@,
                0,
                nodes@.len() as int,
                (SState { content: Seq::empty(), stack: Seq::empty(), jc: None, adjust: 0 }),
            ).content,
        ),
{
    let ctx = Rctx { config, tree, page };
    let mut h = Html::new();
    proof {
        assert(hview(h).stack =~= Seq::<Seq<char>>::empty());
        assert(hview(h).content =~= Seq::<char>::empty());
    }
    render_nodes(&ctx, &mut h, nodes, 0, nodes.len(), skip_encryption);
    let raw = h.take_string();
    crate::text::trim_string(raw.as_str())
}

/// Renders a single node alone.
pub fn render_node_only(config: &Config, tree: &WikiTree, page: &WikiPage, node: &Node) -> (r:
    String)
    requires
        tree.wf(),
        page.path@.len() >= 1,
        page.path@[0] == 0,
    ensures
        r@ == crate::text::trim_spec(r@),
        plain_config(*config) ==> r@ == crate::text::trim_spec(
            sr_node(
                *node,
                (SState { content: Seq::empty(), stack: Seq::empty(), jc: None, adjust: 0 }),
            ).content,
        ),
        (node.tags@.len() > 0 && matching_pairs(
            config.tag_keys@,
            node.tags@,
            config.tag_keys@.len() as int,
        ).len() > 0) ==> (exists|secret: Node|
            (#[trigger] is_secret_node(secret)) && r@ == crate::text::trim_spec(
                sr_node(
                    secret,
                    (SState { content: Seq::empty(), stack: Seq::empty(), jc: None, adjust: 0 }),
                ).content,
            ) && ((!config.empty_links && crate::node::el_untagged(node.element)
                && vstd::utf8::encode_utf8(node_plaintext(*node)).len() <= 0x1000000000)
                ==> holds_ciphertext_of(
                secret,
                node_plaintext(*node),
                matching_pairs(
                    config.tag_keys@,
                    node.tags@,
                    config.tag_keys@.len() as int,
                ).last().1,
            ))),
{
    let ctx = Rctx { config, tree, page };
    let mut h = Html::new();
    let ghost st0 = hview(h);
    proof {
        assert(st0.stack =~= Seq::<Seq<char>>::empty());
        assert(st0.content =~= Seq::<char>::empty());
        assert(st0.jc is None && st0.adjust == 0);
        assert(st0 =~= (SState {
            content: Seq::empty(),
            stack: Seq::empty(),
            jc: None,
            adjust: 0,
        }));
    }
    render(&ctx, &mut h, node, false);
    let raw = h.take_string();
    let out = crate::text::trim_string(raw.as_str());
    proof {
        if node.tags@.len() > 0 && matching_pairs(
            config.tag_keys@,
            node.tags@,
            config.tag_keys@.len() as int,
        ).len() > 0 {
            let st1 = hview(h);
            assert(secret_replaces_node(*config, *node, st0, st1));
            let secret = choose|secret: Node|
                {
                    &&& #[trigger] sr_node(secret, st0) == st1
                    &&& is_secret_node(secret)
                    &&& ((!config.empty_links && crate::node::el_untagged(node.element)
                        && vstd::utf8::encode_utf8(node_plaintext(*node)).len() <= 0x1000000000)
                        ==> holds_ciphertext_of(
                        secret,
                        node_plaintext(*node),
                        matching_pairs(
                            config.tag_keys@,
                            node.tags@,
                            config.tag_keys@.len() as int,
                        ).last().1,
                    ))
                };
            assert(sr_node(secret, st0) == st1);
            assert(out@ == crate::text::trim_spec(sr_node(secret, st0).content));
            assert(is_secret_node(secret));
        }
    }
    out
}

/// Renders a single node against a throwaway one-page site, for tests and
/// tooling.
pub fn render_node(node: &Node) -> (r: String)
    ensures
        r@ == crate::text::trim_spec(r@),
        r@ == crate::text::trim_spec(
            sr_node(
                *node,
                (SState { content: Seq::empty(), stack: Seq::empty(), jc: None, adjust: 0 }),
            ).content,
        ),
{
    let mut tree = WikiTree::new();
    proof {
        assert(crate::wiki::page_wf(tree.spec_pages(), 0));
    }
    let ghost root_path = tree.spec_pages()[0].path@;
    let id = tree.add_doc(WikiTree::ROOT, "document.html", "Document", Doc::empty());
    let config = Config::none();
    let page = match tree.get(id) {
        Some(p) => p,
        None => {
            return String::new();
        },
    };
    proof {
        assert(root_path =~= seq![0usize]);
        assert(page.path@ =~= root_path.push(1usize));
        assert(page.path@.len() >= 2);
        assert(page.path@[0] == 0);
    }
    render_node_only(&config, &tree, page, node)
}

/// The shape of the page head: a `title` of the page title over `style`
/// and `script` blocks holding the re-indented assets.
pub open spec fn is_header_node(n: Node, title: Seq<char>, style: Seq<char>, script: Seq<char>) -> bool {
    &&& n.attributes@.len() == 0
    &&& n.tags@.len() == 0
    &&& n.element matches El::Block(t, c) && t@ == "head"@ && c@.len() == 3 && ({
        &&& c@[0].attributes@.len() == 0 && c@[0].tags@.len() == 0
        &&& (c@[0].element matches El::Inline(t0, cc) && t0@ == "title"@ && cc@.len() == 1
            && crate::node::is_plain_text_node(cc@[0], crate::text::trim_spec(title)))
        &&& c@[1].attributes@.len() == 0 && c@[1].tags@.len() == 0
        &&& (c@[1].element matches El::Block(t1, sc) && t1@ == "style"@ && sc@.len() == 1
            && crate::node::is_plain_text_node(
            sc@[0],
            crate::text::trim_spec(crate::html::spec_indent(style, 3)),
        ))
        &&& c@[2].attributes@.len() == 0 && c@[2].tags@.len() == 0
        &&& (c@[2].element matches El::Block(t2, jc) && t2@ == "script"@ && jc@.len() == 1
            && crate::node::is_plain_text_node(
            jc@[0],
            crate::text::trim_spec(crate::html::spec_indent(script, 3)),
        ))
    })
}

/// The fixed head of every page: the title plus the configured style and
/// script assets, re-indented to sit three levels deep.
fn header(config: &Config, title: &str) -> (n: Node)
    ensures
        n.element is Block,
        is_header_node(n, title@, config.head_style@, config.head_script@),
{
    let style_text = indent(config.head_style.as_str(), 3);
    let script_text = indent(config.head_script.as_str(), 3);
    Node::block(
        "head",
        vec![
            Node::inline("title", vec![Node::text(title)]),
            Node::block("style", vec![Node::text(style_text.as_str())]),
            Node::block("script", vec![Node::text(script_text.as_str())]),
        ],
    )
}

/// What serializing the head emits, for a plain configuration.
pub open spec fn sr_head(st: SState, title: Seq<char>, style: Seq<char>, script: Seq<char>) -> SState {
    let h1 = st_lopenl(st, "head"@, Seq::empty());
    let h2 = st_close(
        st_text(
            st_open(st_sin(h1), "title"@, Seq::empty()),
            crate::text::trim_spec(title),
        ),
    );
    let h3 = st_lclose(
        st_text(
            st_lopenl(h2, "style"@, Seq::empty()),
            crate::text::trim_spec(crate::html::spec_indent(style, 3)),
        ),
    );
    let h4 = st_lclose(
        st_text(
            st_lopenl(h3, "script"@, Seq::empty()),
            crate::text::trim_spec(crate::html::spec_indent(script, 3)),
        ),
    );
    st_lclose(h4)
}

/// Rendering the head node emits exactly the head serialization.
#[verifier::rlimit(100)]
#[verifier::spinoff_prover]
proof fn lemma_sr_header(n: Node, st: SState, title: Seq<char>, style: Seq<char>, script: Seq<char>)
    requires
        is_header_node(n, title, style, script),
    ensures
        sr_node(n, st) == sr_head(st, title, style, script),
{
    if let El::Block(t, c) = n.element {
        assert(n.attributes@ =~= Seq::<(String, String)>::empty());
        assert(node_size(n) == 1 + seq_size(c@));
        let h1 = st_lopenl(st, "head"@, Seq::empty());
        assert(sr_node(n, st) == st_lclose(sr_nodes(c@, 0, 3, h1)));
        lemma_node_le_seq(c@, 0);
        lemma_node_le_seq(c@, 1);
        lemma_node_le_seq(c@, 2);
        // The title line.
        let n0 = c@[0];
        assert(n0.attributes@ =~= Seq::<(String, String)>::empty());
        if let El::Inline(t0, cc) = n0.element {
            assert(node_size(n0) == 1 + seq_size(cc@));
            lemma_node_le_seq(cc@, 0);
            let x0 = st_open(st_sin(h1), "title"@, Seq::empty());
            assert(sr_node(cc@[0], x0) == st_text(x0, crate::text::trim_spec(title)));
            assert(sr_nodes(cc@, 0, 1, x0) == sr_nodes(
                cc@,
                1,
                1,
                st_text(x0, crate::text::trim_spec(title)),
            ));
            assert(sr_nodes(cc@, 1, 1, st_text(x0, crate::text::trim_spec(title))) == st_text(
                x0,
                crate::text::trim_spec(title),
            ));
            assert(sr_node(n0, h1) == st_close(
                st_text(
                    st_open(st_sin(h1), "title"@, Seq::empty()),
                    crate::text::trim_spec(title),
                ),
            ));
        }
        let h2 = st_close(
            st_text(st_open(st_sin(h1), "title"@, Seq::empty()), crate::text::trim_spec(title)),
        );
        // The style block.
        let n1 = c@[1];
        assert(n1.attributes@ =~= Seq::<(String, String)>::empty());
        if let El::Block(t1, sc) = n1.element {
            assert(node_size(n1) == 1 + seq_size(sc@));
            lemma_node_le_seq(sc@, 0);
            let x1 = st_lopenl(h2, "style"@, Seq::empty());
            let sty = crate::text::trim_spec(crate::html::spec_indent(style, 3));
            assert(sr_node(sc@[0], x1) == st_text(x1, sty));
            assert(sr_nodes(sc@, 0, 1, x1) == sr_nodes(sc@, 1, 1, st_text(x1, sty)));
            assert(sr_nodes(sc@, 1, 1, st_text(x1, sty)) == st_text(x1, sty));
            assert(sr_node(n1, h2) == st_lclose(
                st_text(
                    st_lopenl(h2, "style"@, Seq::empty()),
                    crate::text::trim_spec(crate::html::spec_indent(style, 3)),
                ),
            ));
        }
        let h3 = st_lclose(
            st_text(
                st_lopenl(h2, "style"@, Seq::empty()),
                crate::text::trim_spec(crate::html::spec_indent(style, 3)),
            ),
        );
        // The script block.
        let n2 = c@[2];
        assert(n2.attributes@ =~= Seq::<(String, String)>::empty());
        if let El::Block(t2, jc) = n2.element {
            assert(node_size(n2) == 1 + seq_size(jc@));
            lemma_node_le_seq(jc@, 0);
            let x2 = st_lopenl(h3, "script"@, Seq::empty());
            let scr = crate::text::trim_spec(crate::html::spec_indent(script, 3));
            assert(sr_node(jc@[0], x2) == st_text(x2, scr));
            assert(sr_nodes(jc@, 0, 1, x2) == sr_nodes(jc@, 1, 1, st_text(x2, scr)));
            assert(sr_nodes(jc@, 1, 1, st_text(x2, scr)) == st_text(x2, scr));
            assert(sr_node(n2, h3) == st_lclose(
                st_text(
                    st_lopenl(h3, "script"@, Seq::empty()),
                    crate::text::trim_spec(crate::html::spec_indent(script, 3)),
                ),
            ));
        }
        let h4 = st_lclose(
            st_text(
                st_lopenl(h3, "script"@, Seq::empty()),
                crate::text::trim_spec(crate::html::spec_indent(script, 3)),
            ),
        );
        assert(sr_nodes(c@, 0, 3, h1) == sr_nodes(c@, 1, 3, h2));
        assert(sr_nodes(c@, 1, 3, h2) == sr_nodes(c@, 2, 3, h3));
        assert(sr_nodes(c@, 2, 3, h3) == sr_nodes(c@, 3, 3, h4));
        assert(sr_nodes(c@, 3, 3, h4) == h4);
    }
}

/// The document nodes a page carries.
pub open spec fn page_doc_nodes(page: WikiPage) -> Seq<Node> {
    match page.inner {
        crate::wiki::WikiPageInner::Document(d) => d.0@,
        crate::wiki::WikiPageInner::Index(d) => d.0@,
        _ => Seq::empty(),
    }
}

/// A configuration under which a whole page render is a pure function of
/// the page: plain serialization with every optional widget off.
pub open spec fn bare_config(c: Config) -> bool {
    &&& plain_config(c)
    &&& !c.nav_tree
    &&& !c.page_heading
    &&& !c.add_breadcrumbs
}

/// The whole page a bare configuration renders: head, body, the content
/// division, and the paragraph-grouped document body.
pub open spec fn sr_document(config: Config, title: Seq<char>, doc_nodes: Seq<Node>) -> Seq<
    char,
> {
    let st0 = SState { content: Seq::empty(), stack: Seq::empty(), jc: None, adjust: 0 };
    let st1 = st_lopenl(st0, "html"@, Seq::empty());
    let st2 = sr_head(st1, title, config.head_style@, config.head_script@);
    let st3 = st_lopenl(st2, "body"@, Seq::empty());
    let st4 = st_lopen(
        st_finish(st_attr(st_start(st3, "div"@), "id"@, "content"@), Seq::empty()),
        "main"@,
        Seq::empty(),
    );
    let body = sr_root(doc_nodes, 0, doc_nodes.len() as int, st4.stack.len() as int);
    let st5 = st_push_str(st4, body);
    st_lclose(st_lclose(st_lclose(st_lclose(st5)))).content
}

/// One entry of the key widget: an item holding the tag's label, a
/// password input, a clear button, and a self-test ciphertext of the
/// literal `correct` under the pair's password.
pub open spec fn tag_entry_ok(item: Node, pair: (Tag, String)) -> bool {
    item.element matches El::Item(cs) && cs@.len() == 4 && ({
        &&& (cs@[0].element matches El::Inline(t0, lc) && t0@ == "span"@ && lc@.len() == 1
            && crate::node::is_plain_text_node(
            lc@[0],
            crate::text::trim_spec(pair.0.spec_name()),
        ))
        &&& (cs@[1].element matches El::Inline(t1, ic) && t1@ == "input"@ && ic@.len() == 0)
        &&& (cs@[2].element matches El::Inline(t2, bc) && t2@ == "button"@ && bc@.len() == 1
            && crate::node::is_plain_text_node(bc@[0], crate::text::trim_spec("Clear"@)))
        &&& holds_ciphertext_of(cs@[3], "correct"@, pair.1@)
    })
}

/// The floating widget listing one password entry per configured tag,
/// each holding a password input, a clear button, and a self-test
/// ciphertext of the literal `correct` under that tag's password.
fn make_tag_key_menu(config: &Config) -> (n: Node)
    ensures
        (n.element matches El::Block(dt, dc) && dt@ == "div"@ && dc@.len() == 1 && (
        dc@[0].element matches El::Details(_, db) && db@.len() == 1 && (
        db@[0].element matches El::List(items) && items@.len() == config.tag_keys@.len() && forall|
            k: int,
        | 0 <= k < items@.len() ==> tag_entry_ok(#[trigger] items@[k], config.tag_keys@[k])))),
{
    proof {
        reveal_strlit("correct");
        assert(vstd::utf8::encode_utf8("correct"@).len() <= 0x1000000000) by {
            assert(vstd::utf8::is_ascii_chars("correct"@));
            vstd::utf8::is_ascii_chars_encode_utf8("correct"@);
        }
    }
    let mut tag_entrys: Vec<Node> = Vec::new();
    let mut i: usize = 0;
    while i < config.tag_keys.len()
        invariant
            i <= config.tag_keys@.len(),
            tag_entrys@.len() == i,
            vstd::utf8::encode_utf8("correct"@).len() <= 0x1000000000,
            forall|k: int|
                0 <= k < i ==> tag_entry_ok(#[trigger] tag_entrys@[k], config.tag_keys@[k]),
        decreases config.tag_keys@.len() - i,
    {
        let tag = &config.tag_keys[i].0;
        let key = &config.tag_keys[i].1;
        let mut single: Vec<(Tag, String)> = Vec::new();
        single.push((tag.clone(), key.clone()));
        let test_node = encrypt_text(&single, "correct").with_attr("class", "tag-keys-test");
        let entry = Node::item(
            vec![
                with_class(Node::span(vec![Node::text(tag.as_ref())]), "tag-keys-label"),
                Node::inline("input", Vec::new()).with_attr("type", "password").with_attr(
                    "autocomplete",
                    "off",
                ),
                Node::inline("button", vec![Node::text("Clear")]),
                test_node,
            ],
        );
        proof {
            assert(tag_entry_ok(entry, config.tag_keys@[i as int]));
        }
        tag_entrys.push(entry);
        i = i + 1;
    }
    let node = Node::div(
        vec![
            Node::details(
                vec![with_class(Node::span(vec![Node::text("Keys")]), "title")],
                vec![Node::list(tag_entrys)],
            ),
        ],
    );
    with_id(floating_menu(node), "tag-keys-menu")
}

/// Renders a full page: head, body, optional navigation widgets, and the
/// paragraph-grouped document content with encryption gating. Fails
/// exactly when the page carries no document; under a bare configuration
/// the output is exactly the document serialization.
#[verifier::rlimit(100)]
#[verifier::spinoff_prover]
pub fn render_document(config: &Config, tree: &WikiTree, page: &WikiPage) -> (r: Result<
    String,
    (),
>)
    requires
        tree.wf(),
        page.path@.len() >= 1,
        page.path@[0] == 0,
    ensures
        r is Ok <==> (page.inner is Document || page.inner is Index),
        r matches Ok(html) ==> html@ == crate::text::trim_spec(html@),
        (bare_config(*config) && (page.inner is Document || page.inner is Index)) ==> (
        r matches Ok(out) && out@ == crate::text::trim_spec(
            sr_document(*config, page.title@, page_doc_nodes(*page)),
        )),
{
    let doc = match page.document() {
        Some(d) => d,
        None => {
            return Err(());
        },
    };
    let ghost dnodes = page_doc_nodes(*page);
    proof {
        assert(doc.0@ == dnodes);
    }
    let ctx = Rctx { config, tree, page };
    let mut html = Html::new();
    let empty_attrs: Attrs = Vec::new();
    let ghost st0 = hview(html);
    proof {
        assert(st0.content =~= Seq::<char>::empty());
        assert(st0.stack =~= Seq::<Seq<char>>::empty());
        assert(empty_attrs@ =~= Seq::<(String, String)>::empty());
    }

    html.lopenl("html", &empty_attrs);
    let ghost st1 = st_lopenl(st0, "html"@, Seq::empty());
    proof {
        assert(hview(html) == st1);
    }
    let head = header(config, page.title());
    render(&ctx, &mut html, &head, true);
    proof {
        if bare_config(*config) {
            lemma_sr_header(head, st1, page.title@, config.head_style@, config.head_script@);
            assert(hview(html) == sr_head(
                st1,
                page.title@,
                config.head_style@,
                config.head_script@,
            ));
        }
    }
    let ghost st2 = sr_head(st1, page.title@, config.head_style@, config.head_script@);

    html.lopenl("body", &empty_attrs);
    let ghost st3 = st_lopenl(st2, "body"@, Seq::empty());

    if config.nav_tree {
        let nav = crate::nav::make_nav_tree(tree, page, config);
        render(&ctx, &mut html, &nav, false);
    }
    if config.tag_keys.len() > 0 {
        let menu = make_tag_key_menu(config);
        render(&ctx, &mut html, &menu, true);
    }

    html.start("div");
    html.attr("id", "content");
    html.finish(&empty_attrs);
    html.lopen("main", &empty_attrs);
    let ghost st4 = st_lopen(
        st_finish(st_attr(st_start(st3, "div"@), "id"@, "content"@), Seq::empty()),
        "main"@,
        Seq::empty(),
    );
    proof {
        if bare_config(*config) {
            assert(hview(html) == st4);
        }
    }

    if config.page_heading {
        let h = Node::heading(1, vec![Node::text(page.title())]);
        render(&ctx, &mut html, &h, false);
    }
    if config.add_breadcrumbs {
        let crumb = crate::nav::make_nav_breadcrumb(tree, page, config);
        render(&ctx, &mut html, &crumb, false);
    }

    proof {
        crate::html::lemma_stack_views_len(html.stack@);
    }
    let depth = html.stack.len();
    let content = render_root_range(
        &ctx,
        depth,
        doc.nodes(),
        0,
        doc.nodes().len(),
        config.tag_keys.len() == 0,
    );
    html.push_str(content.as_str());
    proof {
        if bare_config(*config) {
            assert(depth as int == st4.stack.len() as int);
            assert(content@ == sr_root(dnodes, 0, dnodes.len() as int, st4.stack.len() as int));
            assert(hview(html) == st_push_str(
                st4,
                sr_root(dnodes, 0, dnodes.len() as int, st4.stack.len() as int),
            ));
        }
    }

    html.lclose();
    html.lclose();
    html.lclose();
    html.lclose();

    let raw = html.take_string();
    proof {
        if bare_config(*config) {
            assert(raw@ == sr_document(*config, page.title@, dnodes));
        }
    }
    Ok(crate::text::trim_string(raw.as_str()))
}

} // verus!
