//! The site hierarchy: an append-only arena of pages addressed by integer
//! id, where each page records the full path of ancestor ids down to itself.

use vstd::prelude::*;

use crate::doc::Doc;
use crate::tag::Tag;
use crate::text::{
    capitalise, chars_of, eq_ignore_case, lower_char, replace_char, replace_char_spec,
    spec_capitalise, string_from,
};

verus! {

pub type Id = usize;

#[derive(Debug)]
pub enum WikiPageInner {
    Document(Doc),
    Directory,
    Index(Doc),
    /// A binary asset, carrying its source file path.
    Media(String),
}

#[derive(Debug)]
pub struct WikiPage {
    pub inner: WikiPageInner,
    /// Ancestor ids ending in this page's own id; never empty.
    pub path: Vec<Id>,
    pub title: String,
    pub url: String,
}

/// Index of the last `/` strictly before position `i`, or -1.
pub open spec fn last_slash(s: Seq<char>, i: int) -> int
    decreases i,
{
    if i <= 0 || i > s.len() {
        -1
    } else if s[i - 1] == '/' {
        i - 1
    } else {
        last_slash(s, i - 1)
    }
}

/// What follows the last `/` of a URL, or nothing when it has none.
pub open spec fn spec_filename(s: Seq<char>) -> Seq<char> {
    let k = last_slash(s, s.len() as int);
    if k == -1 {
        Seq::empty()
    } else {
        s.subrange(k + 1, s.len() as int)
    }
}

proof fn lemma_last_slash_bounds(s: Seq<char>, i: int)
    requires
        0 <= i <= s.len(),
    ensures
        -1 <= last_slash(s, i) < i,
        last_slash(s, i) >= 0 ==> s[last_slash(s, i)] == '/',
        forall|j: int| last_slash(s, i) < j < i ==> s[j] != '/',
    decreases i,
{
    if i > 0 && s[i - 1] != '/' {
        lemma_last_slash_bounds(s, i - 1);
    }
}

impl WikiPage {
    /// The page's own id: the last entry of its path.
    pub open spec fn spec_id(self) -> Id {
        self.path@.last()
    }

    /// The id of the page's parent, absent only for the root.
    pub open spec fn spec_parent(self) -> Option<Id> {
        if self.path@.len() >= 2 {
            Some(self.path@[self.path@.len() - 2])
        } else {
            None
        }
    }

    pub fn id(&self) -> (r: Id)
        requires
            self.path@.len() >= 1,
        ensures
            r == self.spec_id(),
    {
        self.path[self.path.len() - 1]
    }

    pub fn parent(&self) -> (r: Option<Id>)
        ensures
            r == self.spec_parent(),
    {
        let n = self.path.len();
        if n >= 2 {
            Some(self.path[n - 2])
        } else {
            None
        }
    }

    pub fn url(&self) -> (r: &str)
        ensures
            r@ == self.url@,
    {
        self.url.as_str()
    }

    /// The final segment of the page's URL.
    pub fn filename(&self) -> (r: String)
        ensures
            r@ == spec_filename(self.url@),
    {
        let v = chars_of(self.url.as_str());
        proof {
            lemma_last_slash_bounds(v@, v@.len() as int);
        }
        let mut i: usize = v.len();
        while i > 0 && v[i - 1] != '/'
            invariant
                0 <= i <= v@.len(),
                last_slash(v@, v@.len() as int) == last_slash(v@, i as int),
            decreases i,
        {
            i = i - 1;
        }
        if i == 0 {
            String::new()
        } else {
            crate::text::string_range(&v, i, v.len())
        }
    }

    pub fn title(&self) -> (r: &str)
        ensures
            r@ == self.title@,
    {
        self.title.as_str()
    }

    /// The source path of a media page.
    pub fn file(&self) -> (r: Option<&str>)
        ensures
            match self.inner {
                WikiPageInner::Media(ref p) => r matches Some(s) && s@ == p@,
                _ => r is None,
            },
    {
        match &self.inner {
            WikiPageInner::Media(p) => Some(p.as_str()),
            _ => None,
        }
    }

    pub fn document(&self) -> (r: Option<&Doc>)
        ensures
            match self.inner {
                WikiPageInner::Document(ref d) => r == Some(d),
                WikiPageInner::Index(ref d) => r == Some(d),
                _ => r is None,
            },
    {
        match &self.inner {
            WikiPageInner::Document(d) => Some(d),
            WikiPageInner::Index(d) => Some(d),
            _ => None,
        }
    }

    pub fn is_descendent_of(&self, ancestor: Id) -> (r: bool)
        ensures
            r == self.path@.contains(ancestor),
    {
        let mut i: usize = 0;
        while i < self.path.len()
            invariant
                i <= self.path@.len(),
                forall|j: int| 0 <= j < i ==> self.path@[j] != ancestor,
            decreases self.path@.len() - i,
        {
            if self.path[i] == ancestor {
                return true;
            }
            i = i + 1;
        }
        false
    }

    pub fn is_root(&self) -> (r: bool)
        requires
            self.path@.len() >= 1,
        ensures
            r == (self.spec_id() == 0),
    {
        self.id() == WikiTree::ROOT
    }

    pub fn is_doc(&self) -> (r: bool)
        ensures
            r == (self.inner is Document),
    {
        matches!(self.inner, WikiPageInner::Document(..))
    }

    pub fn is_dir(&self) -> (r: bool)
        ensures
            r == (self.inner is Directory),
    {
        matches!(self.inner, WikiPageInner::Directory)
    }

    pub fn is_index(&self) -> (r: bool)
        ensures
            r == (self.inner is Index),
    {
        matches!(self.inner, WikiPageInner::Index(..))
    }

    pub fn is_media(&self) -> (r: bool)
        ensures
            r == (self.inner is Media),
    {
        matches!(self.inner, WikiPageInner::Media(..))
    }

    /// The tag set of the page's document, or nothing for pages without one.
    pub fn tags(&self) -> (r: Vec<Tag>)
        ensures
            match self.inner {
                WikiPageInner::Document(ref d) => tags_match_doc(r@, *d),
                WikiPageInner::Index(ref d) => tags_match_doc(r@, *d),
                _ => r@.len() == 0,
            },
    {
        match self.document() {
            Some(d) => d.tags(),
            None => Vec::new(),
        }
    }
}

/// `tags` reads label for label as the tag set of `d`'s first node.
pub open spec fn tags_match_doc(tags: Seq<Tag>, d: Doc) -> bool {
    if d.0@.len() > 0 {
        tags.len() == d.0@[0].tags@.len() && forall|i: int|
            0 <= i < tags.len() ==> crate::tag::tag_matches(#[trigger] tags[i], d.0@[0].tags@[i])
    } else {
        tags.len() == 0
    }
}

/// Well-formedness of one arena slot: the path ends in the slot's own
/// index, the root alone has a single-entry path, and every other page's
/// path extends its parent's by one.
pub open spec fn page_wf(nodes: Seq<WikiPage>, i: int) -> bool {
    let p = nodes[i].path@;
    &&& p.len() >= 1
    &&& p.last() as int == i
    &&& (i == 0 ==> p =~= seq![0usize])
    &&& (i > 0 ==> p.len() >= 2 && 0 <= p[p.len() - 2] < i && nodes[p[p.len() - 2] as int].path@
        =~= p.drop_last())
}

/// Well-formedness of the whole arena.
pub open spec fn tree_wf(nodes: Seq<WikiPage>) -> bool {
    &&& 1 <= nodes.len()
    &&& forall|i: int| 0 <= i < nodes.len() ==> page_wf(nodes, i)
}

/// Facts that follow from `tree_wf` along one page's path: every entry is a
/// valid id whose own path is the corresponding prefix, entries strictly
/// increase, and the path starts at the root.
pub proof fn lemma_path_wf(nodes: Seq<WikiPage>, i: int)
    requires
        tree_wf(nodes),
        0 <= i < nodes.len(),
    ensures
        forall|k: int|
            0 <= k < nodes[i].path@.len() ==> 0 <= #[trigger] nodes[i].path@[k] < nodes.len()
                && nodes[nodes[i].path@[k] as int].path@ =~= nodes[i].path@.subrange(0, k + 1),
        forall|k1: int, k2: int|
            0 <= k1 < k2 < nodes[i].path@.len() ==> nodes[i].path@[k1] < nodes[i].path@[k2],
        nodes[i].path@[0] == 0,
        nodes[i].path@.last() as int == i,
    decreases i,
{
    assert(page_wf(nodes, i));
    let p = nodes[i].path@;
    if i == 0 {
        assert(p =~= seq![0usize]);
    } else {
        let pa = p[p.len() - 2] as int;
        lemma_path_wf(nodes, pa);
        let q = nodes[pa].path@;
        assert(q =~= p.drop_last());
        assert forall|k: int| 0 <= k < p.len() implies 0 <= #[trigger] p[k] < nodes.len() && nodes[p[k] as int].path@
            =~= p.subrange(0, k + 1) by {
            if k < p.len() - 1 {
                assert(q[k] == p[k]);
                assert(nodes[p[k] as int].path@ =~= q.subrange(0, k + 1));
                assert(q.subrange(0, k + 1) =~= p.subrange(0, k + 1));
            } else {
                assert(p[k] as int == i);
                assert(p.subrange(0, k + 1) =~= p);
            }
        }
        assert forall|k1: int, k2: int| 0 <= k1 < k2 < p.len() implies p[k1] < p[k2] by {
            if k2 < p.len() - 1 {
                assert(q[k1] == p[k1] && q[k2] == p[k2]);
            } else {
                // p[k2] == i; p[k1] is an entry of the parent's path, all of
                // which are at most pa < i.
                if k1 < p.len() - 2 {
                    assert(q[k1] < q[q.len() - 1]);
                    assert(q.last() as int == pa);
                }
            }
        }
    }
}

/// `d` lies strictly below `a`: `a` is on `d`'s path and is not `d` itself.
pub open spec fn strict_desc(nodes: Seq<WikiPage>, d: int, a: Id) -> bool {
    &&& 0 <= d < nodes.len()
    &&& nodes[d].path@.contains(a)
    &&& d != a as int
}

/// `ids` lists, in strictly increasing order, exactly the pages whose
/// parent is `parent`.
pub open spec fn ids_are_children(nodes: Seq<WikiPage>, parent: Id, ids: Seq<Id>) -> bool {
    &&& forall|k: int|
        0 <= k < ids.len() ==> (#[trigger] ids[k] as int) < nodes.len() && nodes[ids[k] as int].spec_parent()
            == Some(parent)
    &&& forall|pid: int|
        0 <= pid < nodes.len() && nodes[pid].spec_parent() == Some(parent) ==> ids.contains(
            pid as usize,
        )
    &&& forall|k1: int, k2: int| 0 <= k1 < k2 < ids.len() ==> ids[k1] < ids[k2]
}

/// Whether some page of the arena names `pid` as its parent.
pub open spec fn has_child_of(nodes: Seq<WikiPage>, pid: Id) -> bool {
    exists|j: int| 0 <= j < nodes.len() && (#[trigger] nodes[j].spec_parent()) == Some(pid)
}

/// Whether some index page of the arena names `pid` as its parent.
pub open spec fn has_index_child(nodes: Seq<WikiPage>, pid: Id) -> bool {
    exists|j: int|
        0 <= j < nodes.len() && (#[trigger] nodes[j].spec_parent()) == Some(pid)
            && nodes[j].inner is Index
}

pub struct WikiTree {
    nodes: Vec<WikiPage>,
}

impl WikiTree {
    pub const ROOT: Id = 0;

    pub closed spec fn spec_pages(self) -> Seq<WikiPage> {
        self.nodes@
    }

    pub open spec fn wf(self) -> bool {
        tree_wf(self.spec_pages())
    }

    pub fn new() -> (t: WikiTree)
        ensures
            t.wf(),
            t.spec_pages().len() == 1,
            t.spec_pages()[0].inner is Directory,
            t.spec_pages()[0].title@ == "Index"@,
            t.spec_pages()[0].url@ == Seq::<char>::empty(),
    {
        let root = WikiPage {
            inner: WikiPageInner::Directory,
            path: vec![0usize],
            title: String::from_str("Index"),
            url: String::new(),
        };
        let t = WikiTree { nodes: vec![root] };
        proof {
            assert(t.spec_pages()[0].path@ =~= seq![0usize]);
            assert(forall|i: int| 0 <= i < t.spec_pages().len() ==> page_wf(t.spec_pages(), i));
        }
        t
    }

    #[verifier::rlimit(50)]
    fn add(&mut self, inner: WikiPageInner, parent: Id, filename: &str, title: &str) -> (id: Id)
        requires
            old(self).wf(),
        ensures
            final(self).wf(),
            id == old(self).spec_pages().len(),
            final(self).spec_pages().len() == id + 1,
            final(self).spec_pages().subrange(0, id as int) =~= old(self).spec_pages(),
            added_page_ok(old(self).spec_pages(), final(self).spec_pages()[id as int], parent, filename@, title@),
            final(self).spec_pages()[id as int].inner == inner,
    {
        let id = self.nodes.len();
        let pa: Id = if parent < self.nodes.len() {
            parent
        } else {
            Self::ROOT
        };
        let mut path = copy_ids(&self.nodes[pa].path);
        path.push(id);
        let mut url = String::from_str(self.nodes[pa].url.as_str());
        url.push('/');
        url.append(filename);
        let page = WikiPage { inner, path, title: String::from_str(title), url };
        proof {
            assert(page.path@.drop_last() =~= old(self).spec_pages()[pa as int].path@);
        }
        self.nodes.push(page);
        proof {
            let nodes = self.nodes@;
            let prev = old(self).nodes@;
            assert(nodes.subrange(0, id as int) =~= prev);
            assert forall|i: int| 0 <= i < nodes.len() implies page_wf(nodes, i) by {
                if i < id {
                    assert(page_wf(prev, i));
                    assert(nodes[i] == prev[i]);
                    if i > 0 {
                        let p = nodes[i].path@;
                        assert(nodes[p[p.len() - 2] as int] == prev[p[p.len() - 2] as int]);
                    }
                } else {
                    assert(page_wf(prev, pa as int));
                    let p = nodes[i].path@;
                    assert(p.last() as int == i);
                    assert(p[p.len() - 2] as int == pa as int);
                    assert(nodes[pa as int] == prev[pa as int]);
                }
            }
            assert(url@ =~= prev[pa as int].url@ + seq!['/'] + filename@);
        }
        id
    }

    pub fn add_doc(&mut self, parent: Id, filename: &str, title: &str, document: Doc) -> (id: Id)
        requires
            old(self).wf(),
        ensures
            final(self).wf(),
            id == old(self).spec_pages().len(),
            final(self).spec_pages().len() == id + 1,
            final(self).spec_pages().subrange(0, id as int) =~= old(self).spec_pages(),
            added_page_ok(old(self).spec_pages(), final(self).spec_pages()[id as int], parent, filename@, title@),
            final(self).spec_pages()[id as int].inner == WikiPageInner::Document(document),
    {
        self.add(WikiPageInner::Document(document), parent, filename, title)
    }

    /// Adds a directory page; its title is derived from the directory name.
    pub fn add_dir(&mut self, parent: Id, filename: &str) -> (id: Id)
        requires
            old(self).wf(),
        ensures
            final(self).wf(),
            id == old(self).spec_pages().len(),
            final(self).spec_pages().len() == id + 1,
            final(self).spec_pages().subrange(0, id as int) =~= old(self).spec_pages(),
            added_page_ok(old(self).spec_pages(), final(self).spec_pages()[id as int], parent, filename@, spec_capitalise(replace_char_spec(filename@, '-', ' '))),
            final(self).spec_pages()[id as int].inner is Directory,
    {
        let v = chars_of(filename);
        let spaced = string_from(&replace_char(&v, '-', ' '));
        let title = capitalise(spaced.as_str());
        self.add(WikiPageInner::Directory, parent, filename, title.as_str())
    }

    pub fn add_index(&mut self, parent: Id, filename: &str, title: &str, document: Doc) -> (id: Id)
        requires
            old(self).wf(),
        ensures
            final(self).wf(),
            id == old(self).spec_pages().len(),
            final(self).spec_pages().len() == id + 1,
            final(self).spec_pages().subrange(0, id as int) =~= old(self).spec_pages(),
            added_page_ok(old(self).spec_pages(), final(self).spec_pages()[id as int], parent, filename@, title@),
            final(self).spec_pages()[id as int].inner == WikiPageInner::Index(document),
    {
        self.add(WikiPageInner::Index(document), parent, filename, title)
    }

    pub fn add_media(&mut self, parent: Id, filename: &str, title: &str, path: &str) -> (id: Id)
        requires
            old(self).wf(),
        ensures
            final(self).wf(),
            id == old(self).spec_pages().len(),
            final(self).spec_pages().len() == id + 1,
            final(self).spec_pages().subrange(0, id as int) =~= old(self).spec_pages(),
            added_page_ok(old(self).spec_pages(), final(self).spec_pages()[id as int], parent, filename@, title@),
            final(self).spec_pages()[id as int].inner matches WikiPageInner::Media(mp) && mp@ == path@,
    {
        self.add(WikiPageInner::Media(path.to_owned()), parent, filename, title)
    }

    pub fn get(&self, id: Id) -> (r: Option<&WikiPage>)
        ensures
            (id as int) < self.spec_pages().len() ==> (r matches Some(p) && *p
                == self.spec_pages()[id as int]),
            (id as int) >= self.spec_pages().len() ==> r is None,
    {
        if id < self.nodes.len() {
            Some(&self.nodes[id])
        } else {
            None
        }
    }

    pub fn get_parent(&self, node: &WikiPage) -> (r: Option<&WikiPage>)
        ensures
            match node.spec_parent() {
                Some(pid) => if (pid as int) < self.spec_pages().len() {
                    r matches Some(p) && *p == self.spec_pages()[pid as int]
                } else {
                    r is None
                },
                None => r is None,
            },
    {
        match node.parent() {
            Some(pid) => self.get(pid),
            None => None,
        }
    }

    /// Ids of the pages whose parent is `id`, in arena order.
    #[verifier::rlimit(50)]
    pub fn children_ids(&self, id: Id) -> (r: Vec<Id>)
        ensures
            ids_are_children(self.spec_pages(), id, r@),
            r@ == spec_kids(self.spec_pages(), id),
    {
        let mut r: Vec<Id> = Vec::new();
        let mut pid: usize = 0;
        while pid < self.nodes.len()
            invariant
                pid <= self.spec_pages().len(),
                r@ == kids_upto(self.spec_pages(), id, pid as int),
                forall|k: int|
                    0 <= k < r@.len() ==> (#[trigger] r@[k] as int) < pid
                        && self.spec_pages()[r@[k] as int].spec_parent() == Some(id),
                forall|q: int|
                    0 <= q < pid && self.spec_pages()[q].spec_parent() == Some(id) ==> r@.contains(
                        q as usize,
                    ),
                forall|k1: int, k2: int| 0 <= k1 < k2 < r@.len() ==> r@[k1] < r@[k2],
            decreases self.spec_pages().len() - pid,
        {
            let is_child = match self.nodes[pid].parent() {
                Some(p) => p == id,
                None => false,
            };
            let ghost pre = r@;
            if is_child {
                r.push(pid);
            }
            proof {
                assert forall|q: int|
                    0 <= q < pid + 1 && self.spec_pages()[q].spec_parent() == Some(id)
                    implies r@.contains(q as usize) by {
                    if q < pid {
                        let w = choose|w: int| 0 <= w < pre.len() && pre[w] == q as usize;
                        assert(r@[w] == q as usize);
                    } else {
                        assert(r@[r@.len() - 1] == pid);
                    }
                }
            }
            pid = pid + 1;
        }
        r
    }

    /// The pages whose parent is `id`, in arena order.
    pub fn children(&self, id: Id) -> (r: Vec<&WikiPage>)
        ensures
            exists|ids: Seq<Id>|
                #[trigger] ids_are_children(self.spec_pages(), id, ids) && r@.len() == ids.len()
                    && (forall|j: int|
                    0 <= j < ids.len() ==> *(#[trigger] r@[j]) == self.spec_pages()[ids[j] as int]),
    {
        let ids = self.children_ids(id);
        let mut r: Vec<&WikiPage> = Vec::new();
        let mut k: usize = 0;
        while k < ids.len()
            invariant
                k <= ids@.len(),
                r@.len() == k,
                ids_are_children(self.spec_pages(), id, ids@),
                forall|j: int|
                    0 <= j < k ==> *(#[trigger] r@[j]) == self.spec_pages()[ids@[j] as int],
            decreases ids@.len() - k,
        {
            r.push(&self.nodes[ids[k]]);
            k = k + 1;
        }
        proof {
            let idsg = ids@;
            assert(ids_are_children(self.spec_pages(), id, idsg) && r@.len() == idsg.len() && (
            forall|j: int|
                0 <= j < idsg.len() ==> *(#[trigger] r@[j])
                    == self.spec_pages()[idsg[j] as int]));
        }
        r
    }

    pub fn pages(&self) -> (r: &Vec<WikiPage>)
        ensures
            r@ == self.spec_pages(),
    {
        &self.nodes
    }

    pub fn into_pages(self) -> (r: Vec<WikiPage>)
        ensures
            r@ == self.spec_pages(),
    {
        self.nodes
    }
}

/// The shape of a freshly inserted page: its path extends the parent's (or
/// the root's, when the parent id was invalid), its URL appends `/filename`
/// to the parent's, and it carries the given payload and title.
pub open spec fn added_page_ok(
    prev: Seq<WikiPage>,
    page: WikiPage,
    parent: Id,
    filename: Seq<char>,
    title: Seq<char>,
) -> bool {
    let pa: int = if (parent as int) < prev.len() {
        parent as int
    } else {
        0
    };
    &&& page.path@ =~= prev[pa].path@.push(prev.len() as usize)
    &&& page.title@ == title
    &&& page.url@ == prev[pa].url@ + seq!['/'] + filename
}

/// ASCII lower-casing of a character sequence. The candidate filename of
/// a link deliberately folds ASCII letters only; non-ASCII characters are
/// kept as written, on both sides of the comparison.
pub open spec fn lower_seq(s: Seq<char>) -> Seq<char> {
    Seq::new(s.len(), |i: int| lower_char(s[i]))
}

/// The candidate filename a link title resolves to: the title lower-cased,
/// spaces turned into hyphens, plus a dot and the extension.
pub open spec fn spec_link_filename(title: Seq<char>, ext: Seq<char>) -> Seq<char> {
    replace_char_spec(lower_seq(title), ' ', '-') + seq!['.'] + ext
}

/// A page answers a link query when its filename equals the derived
/// candidate, or its title equals the query title up to ASCII case.
pub open spec fn page_matches(p: WikiPage, title: Seq<char>, ext: Seq<char>) -> bool {
    matches_f(p, spec_link_filename(title, ext), title)
}

/// The same match, phrased over the precomputed candidate filename.
pub open spec fn matches_f(p: WikiPage, fname: Seq<char>, title: Seq<char>) -> bool {
    spec_filename(p.url@) == fname || eq_ignore_case(p.title@, title)
}

/// Some strict descendant of `a` answers the query.
pub open spec fn subtree_has_match(
    nodes: Seq<WikiPage>,
    a: Id,
    title: Seq<char>,
    ext: Seq<char>,
) -> bool {
    exists|pid: int| strict_desc(nodes, pid, a) && page_matches(nodes[pid], title, ext)
}

/// The children of `v` among the first `upto` arena slots, in order.
pub open spec fn kids_upto(nodes: Seq<WikiPage>, v: Id, upto: int) -> Seq<Id>
    decreases upto,
{
    if upto <= 0 {
        Seq::empty()
    } else {
        let rest = kids_upto(nodes, v, upto - 1);
        if 0 <= upto - 1 < nodes.len() && nodes[upto - 1].spec_parent() == Some(v) {
            rest.push((upto - 1) as Id)
        } else {
            rest
        }
    }
}

/// The children of `v`, in arena order.
pub open spec fn spec_kids(nodes: Seq<WikiPage>, v: Id) -> Seq<Id> {
    kids_upto(nodes, v, nodes.len() as int)
}

/// The breadth-first search from position `i` of the frontier: the first
/// match wins; on a miss the candidate's children join the frontier's
/// end. The fuel only bounds the recursion; the search never runs out.
pub open spec fn spec_bfs(
    nodes: Seq<WikiPage>,
    f: Seq<Id>,
    i: int,
    fuel: nat,
    fname: Seq<char>,
    title: Seq<char>,
) -> Option<Id>
    decreases fuel,
{
    if fuel == 0 {
        None
    } else if !(0 <= i < f.len()) {
        None
    } else if (f[i] as int) < nodes.len() && matches_f(nodes[f[i] as int], fname, title) {
        Some(f[i])
    } else {
        spec_bfs(nodes, f + spec_kids(nodes, f[i]), i + 1, (fuel - 1) as nat, fname, title)
    }
}

/// The search of one scope: a breadth-first walk seeded with the scope's
/// children.
pub open spec fn spec_search(
    nodes: Seq<WikiPage>,
    scope: Id,
    fname: Seq<char>,
    title: Seq<char>,
) -> Option<Id> {
    spec_bfs(nodes, spec_kids(nodes, scope), 0, (nodes.len() + 1) as nat, fname, title)
}

/// The full resolver: the scopes are the entries of the page's path, own
/// id first, walking up to the root; the first scope with a match wins.
pub open spec fn spec_resolve(
    nodes: Seq<WikiPage>,
    path: Seq<Id>,
    k: int,
    fname: Seq<char>,
    title: Seq<char>,
) -> Option<Id>
    decreases k,
{
    if k <= 0 || k > path.len() {
        None
    } else {
        match spec_search(nodes, path[k - 1], fname, title) {
            Some(p) => Some(p),
            None => spec_resolve(nodes, path, k - 1, fname, title),
        }
    }
}

/// Where a frontier element can have come from: its parent is the search
/// scope itself, or an element already processed (index below `bound`).
pub open spec fn provenance(nodes: Seq<WikiPage>, f: Seq<Id>, scope: Id, bound: int, k: int) -> bool {
    let par = nodes[f[k] as int].spec_parent();
    par == Some(scope) || (exists|j: int| 0 <= j < bound && j < k && par == Some(f[j]))
}

/// A child sits strictly below its parent in the arena order, and strictly
/// below everything on the parent's path.
proof fn lemma_child_desc(nodes: Seq<WikiPage>, c: int, v: Id)
    requires
        tree_wf(nodes),
        0 <= c < nodes.len(),
        nodes[c].spec_parent() == Some(v),
    ensures
        (v as int) < c,
        nodes[c].path@.contains(v),
        nodes[v as int].path@ =~= nodes[c].path@.drop_last(),
        forall|a: Id| nodes[v as int].path@.contains(a) ==> nodes[c].path@.contains(a) && a < c,
{
    assert(page_wf(nodes, c));
    let p = nodes[c].path@;
    assert(p[p.len() - 2] == v);
    lemma_path_wf(nodes, c);
    assert forall|a: Id| nodes[v as int].path@.contains(a) implies nodes[c].path@.contains(a) && a
        < c by {
        let k = choose|k: int|
            0 <= k < nodes[v as int].path@.len() && nodes[v as int].path@[k] == a;
        assert(p[k] == a);
        assert(p[k] < p[p.len() - 1]);
    }
    assert(p[p.len() - 2] == v && 0 <= p.len() - 2 < p.len());
}

/// A sequence of distinct ids below `n` has at most `n` entries.
proof fn lemma_distinct_bounded(f: Seq<Id>, n: int)
    requires
        f.no_duplicates(),
        forall|k: int| 0 <= k < f.len() ==> (#[trigger] f[k] as int) < n,
        0 <= n,
    ensures
        f.len() <= n,
{
    let fi = f.map_values(|x: Id| x as int);
    assert(fi.no_duplicates());
    fi.unique_seq_to_set();
    assert(fi.to_set().subset_of(vstd::set_lib::set_int_range(0, n))) by {
        assert forall|e: int| fi.to_set().contains(e) implies vstd::set_lib::set_int_range(
            0,
            n,
        ).contains(e) by {
            let k = choose|k: int| 0 <= k < fi.len() && fi[k] == e;
            assert((f[k] as int) < n);
        }
    }
    vstd::set_lib::lemma_int_range(0, n);
    vstd::set_lib::lemma_len_subset(fi.to_set(), vstd::set_lib::set_int_range(0, n));
}

/// After the queue is exhausted, every strict descendant of the scope has
/// been listed: the frontier is closed under taking children.
proof fn lemma_frontier_complete(nodes: Seq<WikiPage>, f: Seq<Id>, scope: Id, pid: int)
    requires
        tree_wf(nodes),
        strict_desc(nodes, pid, scope),
        forall|q: int|
            0 <= q < nodes.len() && nodes[q].spec_parent() == Some(scope) ==> f.contains(
                q as usize,
            ),
        forall|q: int, j: int|
            #![trigger nodes[q].spec_parent(), f[j]]
            0 <= q < nodes.len() && 0 <= j < f.len() && nodes[q].spec_parent() == Some(
                f[j],
            ) ==> f.contains(q as usize),
    ensures
        f.contains(pid as usize),
    decreases nodes[pid].path@.len(),
{
    assert(page_wf(nodes, pid));
    let p = nodes[pid].path@;
    if pid == 0 {
        assert(nodes[0].path@ =~= seq![0usize]);
        assert(p[0] == 0);
        let k = choose|k: int| 0 <= k < p.len() && p[k] == scope;
        assert(false);
    }
    let pa = p[p.len() - 2];
    assert(nodes[pid].spec_parent() == Some(pa));
    if pa == scope {
        assert(f.contains(pid as usize));
    } else {
        // The scope lies on the parent's path too.
        let k = choose|k: int| 0 <= k < p.len() && p[k] == scope;
        assert(k != p.len() - 1);
        assert(nodes[pa as int].path@ =~= p.drop_last());
        assert(p.drop_last()[k] == scope);
        assert(strict_desc(nodes, pa as int, scope));
        lemma_frontier_complete(nodes, f, scope, pa as int);
        let j = choose|j: int| 0 <= j < f.len() && f[j] == pa;
        assert(nodes[pid].spec_parent() == Some(f[j]));
        assert(f.contains(pid as usize));
    }
}

fn append_ids(dst: &mut Vec<Id>, src: &Vec<Id>)
    ensures
        final(dst)@ == old(dst)@ + src@,
{
    let mut t: usize = 0;
    while t < src.len()
        invariant
            t <= src@.len(),
            dst@ == old(dst)@ + src@.subrange(0, t as int),
        decreases src@.len() - t,
    {
        dst.push(src[t]);
        assert(dst@ =~= old(dst)@ + src@.subrange(0, t + 1 as int));
        t = t + 1;
    }
    proof {
        assert(dst@ =~= old(dst)@ + src@);
    }
}

fn matches_query(p: &WikiPage, fname: &String, title_chars: &Vec<char>) -> (r: bool)
    ensures
        r == matches_f(*p, fname@, title_chars@),
{
    let pf = p.filename();
    if pf == *fname {
        return true;
    }
    let pt = chars_of(p.title.as_str());
    crate::text::chars_eq_ignore_case(&pt, title_chars)
}

impl WikiTree {
    /// The filename a link title is expected to resolve to.
    fn link_target_filename(title: &str, ext: &str) -> (r: String)
        ensures
            r@ == spec_link_filename(title@, ext@),
    {
        let tv = chars_of(title);
        let mut low: Vec<char> = Vec::new();
        let mut i: usize = 0;
        while i < tv.len()
            invariant
                i <= tv@.len(),
                low@.len() == i,
                forall|j: int| 0 <= j < i ==> low@[j] == lower_char(tv@[j]),
            decreases tv@.len() - i,
        {
            low.push(crate::text::to_lower(tv[i]));
            i = i + 1;
        }
        proof {
            assert(low@ =~= lower_seq(title@));
        }
        let dashed = replace_char(&low, ' ', '-');
        let mut out = string_from(&dashed);
        out.push('.');
        out.append(ext);
        proof {
            assert(out@ =~= spec_link_filename(title@, ext@));
        }
        out
    }

    /// Breadth-first search of the strict descendants of `scope`, in queue
    /// order, for a page answering the query.
    #[verifier::rlimit(80)]
    fn search_subtree(&self, scope: Id, fname: &String, title_chars: &Vec<char>) -> (r: Option<Id>)
        requires
            self.wf(),
        ensures
            r == spec_search(self.spec_pages(), scope, fname@, title_chars@),
            match r {
                Some(pid) => strict_desc(self.spec_pages(), pid as int, scope) && matches_f(
                    self.spec_pages()[pid as int],
                    fname@,
                    title_chars@,
                ),
                None => forall|pid: int|
                    strict_desc(self.spec_pages(), pid, scope) ==> !matches_f(
                        self.spec_pages()[pid],
                        fname@,
                        title_chars@,
                    ),
            },
    {
        let ghost nodes = self.spec_pages();
        let n_bound = self.nodes.len();
        proof {
            assert(nodes.len() == n_bound as int);
        }
        let mut frontier: Vec<Id> = self.children_ids(scope);
        proof {
            assert forall|k: int| 0 <= k < frontier@.len() implies strict_desc(
                nodes,
                #[trigger] frontier@[k] as int,
                scope,
            ) by {
                lemma_child_desc(nodes, frontier@[k] as int, scope);
                assert((scope as int) < nodes.len());
                lemma_path_wf(nodes, scope as int);
                assert(nodes[scope as int].path@.contains(scope));
            }
            assert(frontier@.no_duplicates());
            lemma_distinct_bounded(frontier@, nodes.len() as int);
        }
        let mut i: usize = 0;
        while i < frontier.len()
            invariant
                self.wf(),
                nodes == self.spec_pages(),
                i <= frontier@.len(),
                frontier@.len() <= nodes.len(),
                frontier@.no_duplicates(),
                forall|k: int|
                    0 <= k < frontier@.len() ==> strict_desc(
                        nodes,
                        #[trigger] frontier@[k] as int,
                        scope,
                    ),
                forall|k: int|
                    0 <= k < frontier@.len() ==> provenance(
                        nodes,
                        frontier@,
                        scope,
                        i as int,
                        k,
                    ),
                forall|q: int|
                    0 <= q < nodes.len() && nodes[q].spec_parent() == Some(scope)
                        ==> frontier@.contains(q as usize),
                forall|q: int, j: int|
                    #![trigger nodes[q].spec_parent(), frontier@[j]]
                    0 <= q < nodes.len() && 0 <= j < i && nodes[q].spec_parent() == Some(
                        frontier@[j],
                    ) ==> frontier@.contains(q as usize),
                forall|j: int|
                    0 <= j < i ==> !matches_f(
                        nodes[#[trigger] frontier@[j] as int],
                        fname@,
                        title_chars@,
                    ),
                spec_search(nodes, scope, fname@, title_chars@) == spec_bfs(
                    nodes,
                    frontier@,
                    i as int,
                    (nodes.len() + 1 - i) as nat,
                    fname@,
                    title_chars@,
                ),
            decreases nodes.len() - i,
        {
            let v = frontier[i];
            if matches_query(&self.nodes[v], fname, title_chars) {
                proof {
                    assert(spec_search(nodes, scope, fname@, title_chars@) == Some(v));
                }
                return Some(v);
            }
            let kids = self.children_ids(v);
            let ghost pre = frontier@;
            proof {
                // New children are strict descendants below `v`, and none of
                // them can already sit in the queue.
                assert forall|t: int| 0 <= t < kids@.len() implies strict_desc(
                    nodes,
                    #[trigger] kids@[t] as int,
                    scope,
                ) && (v as int) < kids@[t] by {
                    lemma_child_desc(nodes, kids@[t] as int, v);
                }
                assert(kids@.no_duplicates());
                assert forall|a: int, b: int|
                    0 <= a < pre.len() && 0 <= b < kids@.len() implies pre[a] != kids@[b] by {
                    if pre[a] == kids@[b] {
                        assert(nodes[pre[a] as int].spec_parent() == Some(v));
                        assert(provenance(nodes, pre, scope, i as int, a));
                        if nodes[pre[a] as int].spec_parent() == Some(scope) {
                            assert(v == scope);
                            assert(strict_desc(nodes, frontier@[i as int] as int, scope));
                        } else {
                            let j = choose|j: int|
                                0 <= j < i && j < a && nodes[pre[a] as int].spec_parent() == Some(
                                    pre[j],
                                );
                            assert(pre[j] == v && pre[i as int] == v);
                        }
                    }
                }
                vstd::seq_lib::lemma_no_dup_in_concat(pre, kids@);
            }
            append_ids(&mut frontier, &kids);
            proof {
                assert forall|k: int| 0 <= k < frontier@.len() implies #[trigger] provenance(
                    nodes,
                    frontier@,
                    scope,
                    i + 1,
                    k,
                ) by {
                    if k < pre.len() {
                        assert(provenance(nodes, pre, scope, i as int, k));
                        if nodes[pre[k] as int].spec_parent() != Some(scope) {
                            let j = choose|j: int|
                                0 <= j < i && j < k && nodes[pre[k] as int].spec_parent() == Some(
                                    pre[j],
                                );
                            assert(frontier@[j] == pre[j]);
                        }
                    } else {
                        assert(nodes[frontier@[k] as int].spec_parent() == Some(v));
                        assert(frontier@[i as int] == v);
                    }
                }
                lemma_distinct_bounded(frontier@, nodes.len() as int);
                assert(frontier@ == pre + spec_kids(nodes, v));
                assert(spec_bfs(
                    nodes,
                    pre,
                    i as int,
                    (nodes.len() + 1 - i) as nat,
                    fname@,
                    title_chars@,
                ) == spec_bfs(
                    nodes,
                    frontier@,
                    i + 1,
                    (nodes.len() - i) as nat,
                    fname@,
                    title_chars@,
                ));
                assert forall|q: int|
                    0 <= q < nodes.len() && nodes[q].spec_parent() == Some(scope)
                    implies frontier@.contains(q as usize) by {
                    let w = choose|w: int| 0 <= w < pre.len() && pre[w] == q as usize;
                    assert(frontier@[w] == q as usize);
                }
                assert forall|q: int, j: int|
                    #![trigger nodes[q].spec_parent(), frontier@[j]]
                    0 <= q < nodes.len() && 0 <= j < i + 1 && nodes[q].spec_parent() == Some(
                        frontier@[j],
                    ) implies frontier@.contains(q as usize) by {
                    if j < i {
                        assert(pre[j] == frontier@[j]);
                        assert(pre.contains(q as usize));
                        let w = choose|w: int| 0 <= w < pre.len() && pre[w] == q as usize;
                        assert(frontier@[w] == q as usize);
                    } else {
                        assert(frontier@[j] == pre[i as int]);
                        assert(pre[i as int] == v);
                        assert(kids@.contains(q as usize));
                        let t = choose|t: int| 0 <= t < kids@.len() && kids@[t] == q as usize;
                        assert(frontier@[pre.len() + t] == q as usize);
                    }
                }
            }
            i = i + 1;
        }
        proof {
            assert(spec_search(nodes, scope, fname@, title_chars@) is None);
            assert forall|pid: int| strict_desc(nodes, pid, scope) implies !matches_f(
                nodes[pid],
                fname@,
                title_chars@,
            ) by {
                lemma_frontier_complete(nodes, frontier@, scope, pid);
                assert(0 <= pid < n_bound as int);
                let j = choose|j: int| 0 <= j < frontier@.len() && frontier@[j] == pid as usize;
                assert(frontier@[j] as int == pid);
                assert(!matches_f(nodes[frontier@[j] as int], fname@, title_chars@));
            }
        }
        None
    }

    /// Resolves a link title to a page: searches the subtree below the
    /// current page, then below each ancestor in turn up to the root,
    /// breadth first within each subtree; the closest scope wins.
    #[verifier::rlimit(100)]
    #[verifier::spinoff_prover]
    pub fn find_link_target<'a>(&'a self, title: &str, ext: &str, from: &WikiPage) -> (r: Option<
        &'a WikiPage,
    >)
        requires
            self.wf(),
            from.path@.len() >= 1,
            from.path@[0] == 0,
        ensures
            ({
                let res = spec_resolve(
                    self.spec_pages(),
                    from.path@,
                    from.path@.len() as int,
                    spec_link_filename(title@, ext@),
                    title@,
                );
                match r {
                    Some(p) => (res matches Some(pid) && (pid as int) < self.spec_pages().len()
                        && *p == self.spec_pages()[pid as int]),
                    None => res is None,
                }
            }),
            match r {
                Some(p) => exists|pid: int, k: int|
                    #![trigger self.spec_pages()[pid], from.path@[k]]
                    {
                        &&& 0 <= pid < self.spec_pages().len()
                        &&& 0 <= k < from.path@.len()
                        &&& *p == self.spec_pages()[pid]
                        &&& strict_desc(self.spec_pages(), pid, from.path@[k])
                        &&& page_matches(self.spec_pages()[pid], title@, ext@)
                        &&& forall|k2: int|
                            k < k2 < from.path@.len() ==> !subtree_has_match(
                                self.spec_pages(),
                                #[trigger] from.path@[k2],
                                title@,
                                ext@,
                            )
                    },
                None => forall|pid: int|
                    1 <= pid < self.spec_pages().len() ==> !page_matches(
                        self.spec_pages()[pid],
                        title@,
                        ext@,
                    ),
            },
    {
        let ghost nodes = self.spec_pages();
        let fname = Self::link_target_filename(title, ext);
        let title_chars = chars_of(title);
        let mut k: usize = from.path.len();
        while k > 0
            invariant
                self.wf(),
                nodes == self.spec_pages(),
                from.path@.len() >= 1,
                from.path@[0] == 0,
                k <= from.path@.len(),
                fname@ == spec_link_filename(title@, ext@),
                title_chars@ == title@,
                forall|k2: int|
                    k <= k2 < from.path@.len() ==> !subtree_has_match(
                        nodes,
                        #[trigger] from.path@[k2],
                        title@,
                        ext@,
                    ),
                spec_resolve(
                    nodes,
                    from.path@,
                    from.path@.len() as int,
                    spec_link_filename(title@, ext@),
                    title@,
                ) == spec_resolve(
                    nodes,
                    from.path@,
                    k as int,
                    spec_link_filename(title@, ext@),
                    title@,
                ),
            decreases k,
        {
            let scope = from.path[k - 1];
            match self.search_subtree(scope, &fname, &title_chars) {
                Some(pid) => {
                    proof {
                        assert(spec_resolve(
                            nodes,
                            from.path@,
                            k as int,
                            spec_link_filename(title@, ext@),
                            title@,
                        ) == Some(pid));
                        assert(strict_desc(nodes, pid as int, scope));
                        assert(page_matches(nodes[pid as int], title@, ext@));
                        assert({
                            &&& 0 <= (pid as int) < self.spec_pages().len()
                            &&& 0 <= k - 1 < from.path@.len()
                            &&& strict_desc(
                                self.spec_pages(),
                                pid as int,
                                from.path@[k - 1],
                            )
                            &&& page_matches(self.spec_pages()[pid as int], title@, ext@)
                        });
                    }
                    return Some(&self.nodes[pid]);
                },
                None => {
                    proof {
                        assert(spec_resolve(
                            nodes,
                            from.path@,
                            k as int,
                            spec_link_filename(title@, ext@),
                            title@,
                        ) == spec_resolve(
                            nodes,
                            from.path@,
                            k - 1,
                            spec_link_filename(title@, ext@),
                            title@,
                        ));
                        assert forall|pid: int|
                            strict_desc(nodes, pid, scope) implies !page_matches(
                            nodes[pid],
                            title@,
                            ext@,
                        ) by {}
                        assert(!subtree_has_match(nodes, from.path@[k - 1], title@, ext@));
                    }
                },
            }
            k = k - 1;
        }
        proof {
            assert(from.path@[0] == 0);
            assert forall|pid: int| 1 <= pid < nodes.len() implies !page_matches(
                nodes[pid],
                title@,
                ext@,
            ) by {
                assert(page_wf(nodes, pid));
                lemma_path_wf(nodes, pid);
                assert(nodes[pid].path@.len() >= 1);
                assert(nodes[pid].path@[0] == 0);
                assert(nodes[pid].path@.contains(0usize)) by {
                    assert(nodes[pid].path@[0] == 0usize);
                }
                assert(strict_desc(nodes, pid, 0usize));
                assert(!subtree_has_match(nodes, from.path@[0], title@, ext@));
            }
        }
        None
    }
}

fn copy_ids(v: &Vec<Id>) -> (r: Vec<Id>)
    ensures
        r@ == v@,
{
    let mut r: Vec<Id> = Vec::new();
    let mut i: usize = 0;
    while i < v.len()
        invariant
            i <= v@.len(),
            r@ == v@.subrange(0, i as int),
        decreases v@.len() - i,
    {
        r.push(v[i]);
        assert(r@ =~= v@.subrange(0, i + 1 as int));
        i = i + 1;
    }
    proof {
        assert(r@ =~= v@);
    }
    r
}

} // verus!
