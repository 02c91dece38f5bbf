//! Navigation synthesis: the site-wide navigation tree, breadcrumbs, and
//! generated directory indexes.

use vstd::prelude::*;

use crate::config::Config;
use crate::css::{with_class, with_id};
use crate::doc::Doc;
use crate::node::{El, Node};
use crate::render::{encrypt_nodes, INDEX_FILE};
use crate::tag::Tag;
use crate::wiki::{page_wf, Id, WikiPage, WikiTree};

verus! {

/// A link to a page, titled with the page's title.
fn make_page_link(page: &WikiPage) -> (n: Node)
    ensures
        n.element matches El::Link(t, u) && t@ == crate::text::trim_spec(page.title@) && u@
            == crate::text::trim_spec(page.url@),
        n.attributes@.len() == 0,
        n.tags@.len() == 0,
{
    Node::link(page.title(), page.url())
}

/// Replaces a navigation node by its ciphertext when the page it points
/// to is gated by a configured tag.
fn page_encryption(config: &Config, tree: &WikiTree, viewed: &WikiPage, page: &WikiPage, node: Node) -> (r: Node)
    requires
        tree.wf(),
        viewed.path@.len() >= 1,
        viewed.path@[0] == 0,
    ensures
        r == node || crate::render::is_secret_node(r),
        config.tag_keys@.len() == 0 ==> r == node,
{
    let tags = page.tags();
    let pairs = match crate::render::encryption_pairs(config, &tags) {
        Some(p) => p,
        None => {
            return node;
        },
    };
    let mut single: Vec<Node> = Vec::new();
    single.push(node);
    encrypt_nodes(config, tree, viewed, 0, &pairs, &single, 0, 1, false)
}

/// Builds the navigation subtree rooted at one page: an index child
/// stands in for its directory, non-empty child lists fold into an
/// auto-opened `details` block along the viewed page's ancestry, childless
/// pages become bulleted leaves, and media pages are left out.
fn make_nav_subtree(config: &Config, tree: &WikiTree, viewed: &WikiPage, current_id: Id) -> (n:
    Node)
    requires
        tree.wf(),
        viewed.path@.len() >= 1,
        viewed.path@[0] == 0,
        (current_id as int) < tree.spec_pages().len(),
    ensures
        n.element is Empty || n.element is Details || n.element is Item
            || crate::render::is_secret_node(n),
        exists|cur: int|
            #![trigger tree.spec_pages()[cur]]
            0 <= cur < tree.spec_pages().len() && (cur == current_id as int || (
            tree.spec_pages()[cur].spec_parent() == Some(current_id)
                && tree.spec_pages()[cur].inner is Index)) && ({
                let entry = tree.spec_pages()[cur];
                &&& (n.element matches El::Details(sm, dt) ==> sm@.len() == 1 && (sm@[0].element
                    matches El::Link(t, u) && t@ == crate::text::trim_spec(entry.title@) && u@
                    == crate::text::trim_spec(entry.url@)) && dt@.len() == 1 && dt@[0].element
                    is List)
                &&& (n.element matches El::Item(c) ==> c@.len() == 2 && (c@[1].element
                    matches El::Link(t, u) && t@ == crate::text::trim_spec(entry.title@) && u@
                    == crate::text::trim_spec(entry.url@)))
            }),
    decreases tree.spec_pages().len() - current_id,
{
    proof {
        assert(page_wf(tree.spec_pages(), current_id as int));
    }
    let current = match tree.get(current_id) {
        Some(p) => p,
        None => {
            return Node::empty();
        },
    };
    if current.is_media() {
        return Node::empty();
    }
    let mut cur: Id = current_id;
    let mut children_nodes: Vec<Node> = Vec::new();
    let kid_ids = tree.children_ids(current_id);
    let mut k: usize = 0;
    while k < kid_ids.len()
        invariant
            tree.wf(),
            viewed.path@.len() >= 1,
            viewed.path@[0] == 0,
            (current_id as int) < tree.spec_pages().len(),
            (cur as int) < tree.spec_pages().len(),
            cur as int == current_id as int || (tree.spec_pages()[cur as int].spec_parent()
                == Some(current_id) && tree.spec_pages()[cur as int].inner is Index),
            k <= kid_ids@.len(),
            crate::wiki::ids_are_children(tree.spec_pages(), current_id, kid_ids@),
        decreases kid_ids@.len() - k,
    {
        let kid = kid_ids[k];
        proof {
            assert(tree.spec_pages()[kid as int].spec_parent() == Some(current_id));
            assert(page_wf(tree.spec_pages(), kid as int));
        }
        let kid_page = match tree.get(kid) {
            Some(p) => p,
            None => {
                k = k + 1;
                continue ;
            },
        };
        if kid_page.is_index() {
            cur = kid;
        } else {
            let sub = make_nav_subtree(config, tree, viewed, kid);
            if !sub.is_empty() {
                children_nodes.push(sub);
            }
        }
        k = k + 1;
    }
    let cur_page = match tree.get(cur) {
        Some(p) => p,
        None => {
            return Node::empty();
        },
    };
    proof {
        assert(page_wf(tree.spec_pages(), cur as int));
    }
    let mut link = make_page_link(cur_page);
    if cur_page.id() == page_id(viewed) {
        link = with_class(link, "nav-tree-selected");
    }
    let node: Node = if children_nodes.len() > 0 {
        let mut sv: Vec<Node> = Vec::new();
        sv.push(link);
        let mut dv: Vec<Node> = Vec::new();
        dv.push(Node::list(children_nodes));
        let mut node = Node::details(sv, dv);
        let open = viewed.is_descendent_of(cur_page.id()) || (cur_page.is_index() && (
        match cur_page.parent() {
            Some(p) => viewed.is_descendent_of(p),
            None => false,
        }));
        if open {
            node.attr("open", "");
        }
        node
    } else if !cur_page.is_dir() {
        let mut iv: Vec<Node> = Vec::new();
        iv.push(with_class(Node::span(Vec::new()), "nav-tree-bullet"));
        iv.push(link);
        Node::item(iv)
    } else {
        Node::empty()
    };
    let out = page_encryption(config, tree, viewed, cur_page, node);
    proof {
        assert(tree.spec_pages()[cur as int] == *cur_page);
    }
    out
}

fn page_id(page: &WikiPage) -> (r: Id)
    requires
        page.path@.len() >= 1,
    ensures
        r == page.spec_id(),
{
    page.id()
}

/// Builds the site navigation tree: one subtree per top-level page, in a
/// list carrying the `nav-tree` id; empty subtrees are pruned.
pub fn make_nav_tree(tree: &WikiTree, page: &WikiPage, config: &Config) -> (n: Node)
    requires
        tree.wf(),
        page.path@.len() >= 1,
        page.path@[0] == 0,
    ensures
        n.element is List,
        n.attributes@.len() == 1,
        n.attributes@[0].0@ == crate::text::trim_spec("id"@),
        n.attributes@[0].1@ == crate::text::trim_spec("nav-tree"@),
        n.element matches El::List(items) ==> forall|k: int|
            0 <= k < items@.len() ==> !crate::node::node_empty(#[trigger] items@[k]) && (
            items@[k].element is Details || items@[k].element is Item || crate::render::is_secret_node(
                items@[k],
            )),
{
    let mut items: Vec<Node> = Vec::new();
    let kid_ids = tree.children_ids(WikiTree::ROOT);
    let mut k: usize = 0;
    while k < kid_ids.len()
        invariant
            tree.wf(),
            page.path@.len() >= 1,
            page.path@[0] == 0,
            k <= kid_ids@.len(),
            crate::wiki::ids_are_children(tree.spec_pages(), 0, kid_ids@),
            forall|j: int|
                0 <= j < items@.len() ==> !crate::node::node_empty(#[trigger] items@[j]) && (
                items@[j].element is Details || items@[j].element is Item
                    || crate::render::is_secret_node(items@[j])),
        decreases kid_ids@.len() - k,
    {
        proof {
            assert(tree.spec_pages()[kid_ids@[k as int] as int].spec_parent() == Some(0usize));
        }
        let subtree = make_nav_subtree(config, tree, page, kid_ids[k]);
        if !subtree.is_empty() {
            items.push(subtree);
        }
        k = k + 1;
    }
    let listed = Node::list(items);
    proof {
        crate::node::lemma_attr_index_empty(listed.attributes@, crate::text::trim_spec("id"@));
    }
    with_id(listed, "nav-tree")
}

/// The ancestor a breadcrumb hop lands on, from a page known to sit in
/// the arena: an index page is treated as its directory, so the walk
/// skips both in one step.
fn next_breadcrumb_of(tree: &WikiTree, c: Id) -> (r: Option<Id>)
    requires
        tree.wf(),
        (c as int) < tree.spec_pages().len(),
    ensures
        r matches Some(p) ==> (p as int) < c as int,
        r == spec_next_crumb(tree.spec_pages(), c),
{
    proof {
        assert(page_wf(tree.spec_pages(), c as int));
    }
    let entry = match tree.get(c) {
        Some(p) => p,
        None => {
            return None;
        },
    };
    if entry.is_index() {
        match tree.get_parent(entry) {
            Some(parent) => {
                proof {
                    match entry.spec_parent() {
                        Some(pp) => {
                            assert(page_wf(tree.spec_pages(), pp as int));
                        },
                        None => {},
                    }
                }
                parent.parent()
            },
            None => None,
        }
    } else {
        entry.parent()
    }
}

pub open spec fn opt_id_measure(o: Option<Id>) -> int {
    match o {
        Some(c) => c as int + 1,
        None => 0,
    }
}

/// The breadcrumb hop from arena slot `c`: the parent, with an index page
/// skipping over its owning directory in one step.
pub open spec fn spec_next_crumb(nodes: Seq<WikiPage>, c: Id) -> Option<Id> {
    if (c as int) < nodes.len() {
        if nodes[c as int].inner is Index {
            match nodes[c as int].spec_parent() {
                Some(pp) => if (pp as int) < nodes.len() {
                    nodes[pp as int].spec_parent()
                } else {
                    None
                },
                None => None,
            }
        } else {
            nodes[c as int].spec_parent()
        }
    } else {
        None
    }
}

/// The first breadcrumb hop from the viewed page itself.
pub open spec fn spec_first_crumb(nodes: Seq<WikiPage>, page: WikiPage) -> Option<Id> {
    if page.inner is Index {
        match page.spec_parent() {
            Some(pp) => if (pp as int) < nodes.len() {
                nodes[pp as int].spec_parent()
            } else {
                None
            },
            None => None,
        }
    } else {
        page.spec_parent()
    }
}

/// The ancestors the breadcrumb lists, nearest first, as title and URL
/// views; the walk stops at the root or outside the arena.
pub open spec fn spec_crumbs(nodes: Seq<WikiPage>, cur: Option<Id>) -> Seq<(Seq<char>, Seq<char>)>
    decreases opt_id_measure(cur),
{
    match cur {
        None => Seq::empty(),
        Some(c) => if (c as int) < nodes.len() && c != 0 {
            let nxt = spec_next_crumb(nodes, c);
            let entry = (nodes[c as int].title@, nodes[c as int].url@);
            if opt_id_measure(nxt) < opt_id_measure(Some(c)) {
                seq![entry] + spec_crumbs(nodes, nxt)
            } else {
                seq![entry]
            }
        } else {
            Seq::empty()
        },
    }
}

/// A breadcrumb entry as rendered under any configuration: an inline
/// span, or its ciphertext replacement.
pub open spec fn crumb_span_shape(span: Node) -> bool {
    (span.element matches El::Inline(t, _) && t@ == "span"@) || crate::render::is_secret_node(
        span,
    )
}

/// One breadcrumb span: a link to the ancestor followed by a separating
/// slash.
pub open spec fn crumb_span_ok(span: Node, entry: (Seq<char>, Seq<char>)) -> bool {
    span.element matches El::Inline(t, c) && t@ == "span"@ && c@.len() == 2 && ({
        &&& (c@[0].element matches El::Link(lt, lu) && lt@ == crate::text::trim_spec(entry.0)
            && lu@ == crate::text::trim_spec(entry.1))
        &&& crate::node::is_plain_text_node(c@[1], crate::text::trim_spec("/"@))
    })
}

/// Builds the breadcrumb trail: links for the page's ancestors, nearest
/// first in the walk and re-ordered ancestor-first in the output, each
/// followed by a `/`, wrapped in a heading carrying the `nav-breadcrumb`
/// id; nothing when the page sits at the root.
pub fn make_nav_breadcrumb(tree: &WikiTree, page: &WikiPage, config: &Config) -> (n: Node)
    requires
        tree.wf(),
        page.path@.len() >= 1,
        page.path@[0] == 0,
    ensures
        n.element is Empty || (n.element matches El::Heading(level, _) && level == 3),
        ({
            let crumbs = spec_crumbs(
                tree.spec_pages(),
                spec_first_crumb(tree.spec_pages(), *page),
            );
            &&& (n.element is Empty <==> crumbs.len() == 0)
            &&& (crumbs.len() > 0 ==> (n.element matches El::Heading(level, spans) && level == 3
                && spans@.len() == crumbs.len() && (forall|k: int|
                0 <= k < spans@.len() ==> crumb_span_shape(#[trigger] spans@[k]))
                && n.attributes@.len() == 1
                && n.attributes@[0].0@ == crate::text::trim_spec("id"@) && n.attributes@[0].1@
                == crate::text::trim_spec("nav-breadcrumb"@) && (config.tag_keys@.len() == 0
                ==> (forall|k: int|
                0 <= k < spans@.len() ==> crumb_span_ok(
                    #[trigger] spans@[k],
                    crumbs[crumbs.len() - 1 - k],
                )))))
        }),
{
    let mut nodes: Vec<Node> = Vec::new();
    let first: Option<Id> = if page.is_index() {
        match page.parent() {
            Some(pp) => match tree.get(pp) {
                Some(parent) => parent.parent(),
                None => None,
            },
            None => None,
        }
    } else {
        page.parent()
    };
    let ghost pages = tree.spec_pages();
    let ghost target = spec_crumbs(pages, spec_first_crumb(pages, *page));
    proof {
        assert(first == spec_first_crumb(pages, *page));
    }
    let mut current: Option<Id> = first;
    while current.is_some()
        invariant
            tree.wf(),
            page.path@.len() >= 1,
            page.path@[0] == 0,
            pages == tree.spec_pages(),
            target == spec_crumbs(pages, spec_first_crumb(pages, *page)),
            nodes@.len() <= target.len(),
            spec_crumbs(pages, current) == target.skip(nodes@.len() as int),
            forall|k: int| 0 <= k < nodes@.len() ==> crumb_span_shape(#[trigger] nodes@[k]),
            config.tag_keys@.len() == 0 ==> (forall|k: int|
                0 <= k < nodes@.len() ==> crumb_span_ok(#[trigger] nodes@[k], target[k])),
        ensures
            nodes@.len() == target.len(),
        decreases opt_id_measure(current),
    {
        let c = match current {
            Some(c) => c,
            None => {
                break ;
            },
        };
        let entry = match tree.get(c) {
            Some(p) => p,
            None => {
                proof {
                    assert(spec_crumbs(pages, current) =~= Seq::<(Seq<char>, Seq<char>)>::empty());
                    assert(nodes@.len() == target.len());
                }
                break ;
            },
        };
        proof {
            assert(page_wf(tree.spec_pages(), c as int));
        }
        if entry.is_root() {
            proof {
                assert(spec_crumbs(pages, current) =~= Seq::<(Seq<char>, Seq<char>)>::empty());
                assert(nodes@.len() == target.len());
            }
            break ;
        }
        let link = make_page_link(entry);
        let slash = Node::text("/");
        let mut span_children: Vec<Node> = Vec::new();
        span_children.push(link);
        span_children.push(slash);
        let node = Node::span(span_children);
        let ghost n0: int = nodes@.len() as int;
        nodes.push(page_encryption(config, tree, page, entry, node));
        let next = next_breadcrumb_of(tree, c);
        proof {
            let nxt = spec_next_crumb(pages, c);
            assert(opt_id_measure(nxt) < opt_id_measure(Some(c)));
            let entry_view = (pages[c as int].title@, pages[c as int].url@);
            assert(spec_crumbs(pages, Some(c)) == seq![entry_view] + spec_crumbs(pages, nxt));
            let rest = spec_crumbs(pages, nxt);
            assert(target.skip(n0).len() == target.len() - n0);
            assert(target.skip(n0)[0] == target[n0]);
            assert(target[n0] == entry_view);
            assert forall|i: int| 0 <= i < rest.len() implies target.skip(n0 + 1)[i] == rest[i] by {
                assert(target.skip(n0 + 1)[i] == target[n0 + 1 + i]);
                assert(target.skip(n0)[1 + i] == target[n0 + 1 + i]);
                assert((seq![entry_view] + rest)[1 + i] == rest[i]);
            }
            assert(spec_crumbs(pages, nxt) =~= target.skip(n0 + 1));
            assert(crumb_span_shape(nodes@[n0]));
            assert(config.tag_keys@.len() == 0 ==> crumb_span_ok(nodes@[n0], target[n0]));
        }
        current = next;
    }
    let ghost full = nodes@;
    let mut rev: Vec<Node> = Vec::new();
    while nodes.len() > 0
        invariant
            nodes@ == full.take(nodes@.len() as int),
            rev@.len() + nodes@.len() == full.len(),
            forall|k: int| 0 <= k < rev@.len() ==> rev@[k] == full[full.len() - 1 - k],
        ensures
            rev@.len() == full.len(),
            forall|k: int| 0 <= k < rev@.len() ==> rev@[k] == full[full.len() - 1 - k],
        decreases nodes@.len(),
    {
        match nodes.pop() {
            Some(n) => rev.push(n),
            None => {
                proof {
                    assert(false);
                }
                break ;
            },
        }
    }
    proof {
        assert(rev@.len() == full.len());
        assert(full.len() == target.len());
    }
    if rev.len() == 0 {
        Node::empty()
    } else {
        let headed = Node::heading(3, rev);
        proof {
            crate::node::lemma_attr_index_empty(
                headed.attributes@,
                crate::text::trim_spec("id"@),
            );
        }
        let out = with_id(headed, "nav-breadcrumb");
        proof {
            assert(out.element matches El::Heading(level, spans) && level == 3 && spans@ == rev@);
            assert(out.attributes@.len() == 1);
            assert(out.attributes@[0].0@ == crate::text::trim_spec("id"@));
            assert(out.attributes@[0].1@ == crate::text::trim_spec("nav-breadcrumb"@));
            assert forall|k: int| 0 <= k < rev@.len() implies crumb_span_shape(
                #[trigger] rev@[k],
            ) by {
                assert(rev@[k] == full[full.len() - 1 - k]);
                assert(crumb_span_shape(full[full.len() - 1 - k]));
            }
            if config.tag_keys@.len() == 0 {
                assert forall|k: int| 0 <= k < rev@.len() implies crumb_span_ok(
                    #[trigger] rev@[k],
                    target[target.len() - 1 - k],
                ) by {
                    assert(rev@[k] == full[full.len() - 1 - k]);
                    assert(crumb_span_ok(full[full.len() - 1 - k], target[full.len() - 1 - k]));
                }
            }
        }
        out
    }
}

/// The synthesized index for a directory: a heading of its title over a
/// flat list of links to its children.
pub fn create_index(page: &WikiPage, children: &Vec<&WikiPage>) -> (d: Doc)
    ensures
        d.0@.len() == 2,
        (d.0@[0].element matches El::Heading(level, hc) && level == 1 && hc@.len() == 1
            && crate::node::is_plain_text_node(
            hc@[0],
            crate::text::trim_spec(page.title@),
        )),
        (d.0@[1].element matches El::List(items) && items@.len() == children@.len() && (forall|
            k: int,
        |
            0 <= k < items@.len() ==> index_entry_for(#[trigger] items@[k], *children@[k]))),
{
    let mut links: Vec<Node> = Vec::new();
    let mut i: usize = 0;
    while i < children.len()
        invariant
            i <= children@.len(),
            links@.len() == i,
            forall|k: int|
                0 <= k < i ==> (#[trigger] links@[k].element matches El::Link(t, u) && t@
                    == crate::text::trim_spec(children@[k].title@) && u@ == crate::text::trim_spec(
                    children@[k].url@,
                )) && links@[k].element is Link && links@[k].attributes@.len() == 0
                    && links@[k].tags@.len() == 0,
        decreases children@.len() - i,
    {
        links.push(Node::link(children[i].title(), children[i].url()));
        i = i + 1;
    }
    let mut nodes: Vec<Node> = Vec::new();
    nodes.push(Node::heading(1, vec![Node::text(page.title())]));
    nodes.push(Node::list(links));
    Doc(nodes)
}

/// One synthesized index entry: an item wrapping a link titled with the
/// child's title and pointing at its URL.
pub open spec fn index_entry_for(item: Node, child: WikiPage) -> bool {
    item.element matches El::Item(inner) && inner@.len() == 1 && (inner@[0].element
        matches El::Link(t, u) && t@ == crate::text::trim_spec(child.title@) && u@
        == crate::text::trim_spec(child.url@))
}

/// The post-pass synthesizing missing directory indexes: every directory
/// that has children but no index among them gains one, built from a
/// snapshot of the directory list taken before any insertion.
pub fn add_indexes(tree: &mut WikiTree)
    requires
        old(tree).wf(),
    ensures
        final(tree).wf(),
        final(tree).spec_pages().len() >= old(tree).spec_pages().len(),
        final(tree).spec_pages().subrange(0, old(tree).spec_pages().len() as int) == old(
            tree,
        ).spec_pages(),
        forall|i: int|
            old(tree).spec_pages().len() <= i < final(tree).spec_pages().len()
                ==> (#[trigger] final(tree).spec_pages()[i].inner) is Index,
        forall|pid: Id|
            (pid as int) < old(tree).spec_pages().len() && old(tree).spec_pages()[pid as int].inner
                is Directory && #[trigger] crate::wiki::has_child_of(old(tree).spec_pages(), pid)
                ==> crate::wiki::has_index_child(final(tree).spec_pages(), pid),
{
    let mut directories: Vec<Id> = Vec::new();
    let pages = tree.pages();
    let mut i: usize = 0;
    while i < pages.len()
        invariant
            tree.wf(),
            i <= pages@.len(),
            pages@ == tree.spec_pages(),
            forall|t: int|
                0 <= t < directories@.len() ==> (#[trigger] directories@[t] as int)
                    < tree.spec_pages().len(),
            forall|j: int|
                0 <= j < i && (#[trigger] pages@[j].inner) is Directory ==> (exists|t: int|
                    0 <= t < directories@.len() && directories@[t] as int == j),
        decreases pages@.len() - i,
    {
        if pages[i].is_dir() {
            proof {
                assert(page_wf(tree.spec_pages(), i as int));
            }
            let ghost dirs0 = directories@;
            directories.push(pages[i].id());
            proof {
                assert(pages[i as int].spec_id() as int == i as int);
                assert(directories@[directories@.len() - 1] as int == i as int);
                assert forall|j: int|
                    0 <= j < i + 1 && (#[trigger] pages@[j].inner) is Directory implies (exists|
                    t: int,
                |
                    0 <= t < directories@.len() && directories@[t] as int == j) by {
                    if j < i {
                        let t = choose|t: int| 0 <= t < dirs0.len() && dirs0[t] as int == j;
                        assert(directories@[t] as int == j);
                    } else {
                        assert(directories@[directories@.len() - 1] as int == j);
                    }
                }
            }
        }
        i = i + 1;
    }
    let ghost base = tree.spec_pages();
    let mut d: usize = 0;
    while d < directories.len()
        invariant
            tree.wf(),
            d <= directories@.len(),
            base == old(tree).spec_pages(),
            tree.spec_pages().len() >= base.len(),
            tree.spec_pages().subrange(0, base.len() as int) == base,
            forall|i: int|
                base.len() <= i < tree.spec_pages().len() ==> (#[trigger] tree.spec_pages()[i].inner)
                    is Index,
            forall|t: int|
                0 <= t < directories@.len() ==> (#[trigger] directories@[t] as int) < base.len(),
            forall|j: int|
                0 <= j < base.len() && (#[trigger] base[j].inner) is Directory ==> (exists|t: int|
                    0 <= t < directories@.len() && directories@[t] as int == j),
            forall|t: int|
                0 <= t < d && crate::wiki::has_child_of(base, #[trigger] directories@[t])
                    ==> crate::wiki::has_index_child(tree.spec_pages(), directories@[t]),
        decreases directories@.len() - d,
    {
        let id = directories[d];
        let children = tree.children(id);
        let ghost cids = choose|ids: Seq<Id>|
            #[trigger] crate::wiki::ids_are_children(tree.spec_pages(), id, ids) && children@.len() == ids.len()
                && (forall|j: int|
                0 <= j < ids.len() ==> *(#[trigger] children@[j])
                    == tree.spec_pages()[ids[j] as int]);
        let mut has_index: bool = false;
        let mut k: usize = 0;
        while k < children.len()
            invariant
                k <= children@.len(),
                crate::wiki::ids_are_children(tree.spec_pages(), id, cids),
                children@.len() == cids.len(),
                forall|j: int|
                    0 <= j < cids.len() ==> *(#[trigger] children@[j])
                        == tree.spec_pages()[cids[j] as int],
                has_index ==> crate::wiki::has_index_child(tree.spec_pages(), id),
            decreases children@.len() - k,
        {
            if children[k].is_index() {
                proof {
                    assert(tree.spec_pages()[cids[k as int] as int].spec_parent() == Some(id));
                    assert(tree.spec_pages()[cids[k as int] as int].inner is Index);
                }
                has_index = true;
            }
            k = k + 1;
        }
        if children.len() > 0 && !has_index {
            let (title, document) = match tree.get(id) {
                Some(dir) => {
                    let t = String::from_str(dir.title());
                    let doc = create_index(dir, &children);
                    (t, doc)
                },
                None => {
                    proof {
                        assert(false);
                    }
                    d = d + 1;
                    continue ;
                },
            };
            let ghost pre = tree.spec_pages();
            tree.add_index(id, INDEX_FILE, title.as_str(), document);
            proof {
                assert(tree.spec_pages().subrange(0, pre.len() as int) =~= pre);
                assert(tree.spec_pages().subrange(0, base.len() as int) =~= pre.subrange(
                    0,
                    base.len() as int,
                ));
                assert forall|i: int|
                    base.len() <= i < tree.spec_pages().len() implies (#[trigger] tree.spec_pages()[i].inner)
                    is Index by {
                    if i < pre.len() {
                        assert(tree.spec_pages()[i] == tree.spec_pages().subrange(
                            0,
                            pre.len() as int,
                        )[i]);
                        assert(tree.spec_pages()[i] == pre[i]);
                    }
                }
                assert(page_wf(pre, id as int));
                let np = tree.spec_pages()[pre.len() as int];
                assert(np.path@ =~= pre[id as int].path@.push(pre.len() as usize));
                assert(np.path@[np.path@.len() - 2] == pre[id as int].path@[pre[id as int].path@.len()
                    - 1]);
                assert(np.spec_parent() == Some(id));
                assert(crate::wiki::has_index_child(tree.spec_pages(), id));
                assert forall|t: int|
                    0 <= t < d && crate::wiki::has_child_of(
                        base,
                        #[trigger] directories@[t],
                    ) implies crate::wiki::has_index_child(
                    tree.spec_pages(),
                    directories@[t],
                ) by {
                    let pid = directories@[t];
                    let j = choose|j: int|
                        0 <= j < pre.len() && (#[trigger] pre[j].spec_parent()) == Some(pid)
                            && pre[j].inner is Index;
                    assert(tree.spec_pages()[j] == tree.spec_pages().subrange(
                        0,
                        pre.len() as int,
                    )[j]);
                    assert(tree.spec_pages()[j] == pre[j]);
                    assert(tree.spec_pages()[j].spec_parent() == Some(pid));
                }
            }
        }
        proof {
            let pid = directories@[d as int];
            if crate::wiki::has_child_of(base, pid) && children@.len() == 0 {
                let j = choose|j: int|
                    0 <= j < base.len() && (#[trigger] base[j].spec_parent()) == Some(pid);
                assert(tree.spec_pages()[j] == tree.spec_pages().subrange(0, base.len() as int)[j]);
                assert(tree.spec_pages()[j].spec_parent() == Some(pid));
                assert(cids.contains(j as usize));
                assert(false);
            }
        }
        d = d + 1;
    }
    proof {
        assert forall|pid: Id|
            (pid as int) < base.len() && base[pid as int].inner is Directory
                && #[trigger] crate::wiki::has_child_of(base, pid) implies crate::wiki::has_index_child(
            tree.spec_pages(),
            pid,
        ) by {
            let t = choose|t: int|
                0 <= t < directories@.len() && directories@[t] as int == pid as int;
            assert(directories@[t] == pid);
            assert(crate::wiki::has_child_of(base, directories@[t]));
        }
    }
}

} // verus!
