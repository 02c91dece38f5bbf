//! A bare filesystem-shaped tree: the same append-only arena pattern as the
//! wiki tree, without document payloads.

use vstd::prelude::*;

verus! {

#[derive(Debug)]
pub enum NodeType {
    File,
    Directory,
    Index,
}

#[derive(Debug)]
pub struct FsNode {
    pub ty: NodeType,
    /// Ancestor ids ending in this node's own id; never empty.
    pub path: Vec<usize>,
    pub title: String,
    pub url: String,
}

impl FsNode {
    pub open spec fn spec_id(self) -> usize {
        self.path@.last()
    }

    pub open spec fn spec_parent(self) -> Option<usize> {
        if self.path@.len() >= 2 {
            Some(self.path@[self.path@.len() - 2])
        } else {
            None
        }
    }

    pub fn id(&self) -> (r: usize)
        requires
            self.path@.len() >= 1,
        ensures
            r == self.spec_id(),
    {
        self.path[self.path.len() - 1]
    }

    pub fn parent(&self) -> (r: Option<usize>)
        ensures
            r == self.spec_parent(),
    {
        let n = self.path.len();
        if n >= 2 {
            Some(self.path[n - 2])
        } else {
            None
        }
    }

    pub fn is_descendent_of(&self, ancestor: usize) -> (r: bool)
        ensures
            r == self.path@.contains(ancestor),
    {
        let mut i: usize = 0;
        while i < self.path.len()
            invariant
                i <= self.path@.len(),
                forall|j: int| 0 <= j < i ==> self.path@[j] != ancestor,
            decreases self.path@.len() - i,
        {
            if self.path[i] == ancestor {
                return true;
            }
            i = i + 1;
        }
        false
    }

    pub fn url(&self) -> (r: &str)
        ensures
            r@ == self.url@,
    {
        self.url.as_str()
    }

    pub fn path(&self) -> (r: &Vec<usize>)
        ensures
            r == &self.path,
    {
        &self.path
    }

    pub fn title(&self) -> (r: &str)
        ensures
            r@ == self.title@,
    {
        self.title.as_str()
    }

    pub fn is_dir(&self) -> (r: bool)
        ensures
            r == (self.ty is Directory),
    {
        matches!(self.ty, NodeType::Directory)
    }

    pub fn is_root(&self) -> (r: bool)
        requires
            self.path@.len() >= 1,
        ensures
            r == (self.spec_id() == 0),
    {
        self.id() == FsTree::ROOT
    }

    pub fn is_index(&self) -> (r: bool)
        ensures
            r == (self.ty is Index),
    {
        matches!(self.ty, NodeType::Index)
    }
}

/// Well-formedness of one slot, as for the wiki arena.
pub open spec fn fs_node_wf(nodes: Seq<FsNode>, i: int) -> bool {
    let p = nodes[i].path@;
    &&& p.len() >= 1
    &&& p.last() as int == i
    &&& (i == 0 ==> p =~= seq![0usize])
    &&& (i > 0 ==> p.len() >= 2 && 0 <= p[p.len() - 2] < i && nodes[p[p.len() - 2] as int].path@
        =~= p.drop_last())
}

pub open spec fn fs_tree_wf(nodes: Seq<FsNode>) -> bool {
    &&& 1 <= nodes.len()
    &&& forall|i: int| 0 <= i < nodes.len() ==> fs_node_wf(nodes, i)
}

pub struct FsTree {
    nodes: Vec<FsNode>,
}

/// The shape of a freshly inserted node, as for the wiki arena.
pub open spec fn fs_added_ok(
    prev: Seq<FsNode>,
    node: FsNode,
    parent: usize,
    filename: Seq<char>,
    title: Seq<char>,
) -> bool {
    let pa: int = if (parent as int) < prev.len() {
        parent as int
    } else {
        0
    };
    &&& node.path@ =~= prev[pa].path@.push(prev.len() as usize)
    &&& node.title@ == title
    &&& node.url@ == prev[pa].url@ + seq!['/'] + filename
}

impl FsTree {
    pub const ROOT: usize = 0;

    pub closed spec fn spec_nodes(self) -> Seq<FsNode> {
        self.nodes@
    }

    pub open spec fn wf(self) -> bool {
        fs_tree_wf(self.spec_nodes())
    }

    pub fn new() -> (t: FsTree)
        ensures
            t.wf(),
            t.spec_nodes().len() == 1,
            t.spec_nodes()[0].ty is Directory,
            t.spec_nodes()[0].title@ == "Index"@,
            t.spec_nodes()[0].url@ == Seq::<char>::empty(),
    {
        let root = FsNode {
            ty: NodeType::Directory,
            path: vec![0usize],
            title: String::from_str("Index"),
            url: String::new(),
        };
        let t = FsTree { nodes: vec![root] };
        proof {
            assert(t.spec_nodes()[0].path@ =~= seq![0usize]);
            assert(forall|i: int| 0 <= i < t.spec_nodes().len() ==> fs_node_wf(t.spec_nodes(), i));
        }
        t
    }

    #[verifier::rlimit(50)]
    fn add(&mut self, ty: NodeType, parent: usize, filename: &str, title: &str) -> (id: usize)
        requires
            old(self).wf(),
        ensures
            final(self).wf(),
            id == old(self).spec_nodes().len(),
            final(self).spec_nodes().len() == id + 1,
            final(self).spec_nodes().subrange(0, id as int) =~= old(self).spec_nodes(),
            fs_added_ok(
                old(self).spec_nodes(),
                final(self).spec_nodes()[id as int],
                parent,
                filename@,
                title@,
            ),
            final(self).spec_nodes()[id as int].ty == ty,
    {
        let id = self.nodes.len();
        let pa: usize = if parent < self.nodes.len() {
            parent
        } else {
            Self::ROOT
        };
        let mut path = copy_usizes(&self.nodes[pa].path);
        path.push(id);
        let mut url = String::from_str(self.nodes[pa].url.as_str());
        url.push('/');
        url.append(filename);
        let node = FsNode { ty, path, title: String::from_str(title), url };
        proof {
            assert(node.path@.drop_last() =~= old(self).spec_nodes()[pa as int].path@);
        }
        self.nodes.push(node);
        proof {
            let nodes = self.nodes@;
            let prev = old(self).nodes@;
            assert(nodes.subrange(0, id as int) =~= prev);
            assert forall|i: int| 0 <= i < nodes.len() implies fs_node_wf(nodes, i) by {
                if i < id {
                    assert(fs_node_wf(prev, i));
                    assert(nodes[i] == prev[i]);
                    if i > 0 {
                        let p = nodes[i].path@;
                        assert(nodes[p[p.len() - 2] as int] == prev[p[p.len() - 2] as int]);
                    }
                } else {
                    assert(fs_node_wf(prev, pa as int));
                    let p = nodes[i].path@;
                    assert(p.last() as int == i);
                    assert(p[p.len() - 2] as int == pa as int);
                    assert(nodes[pa as int] == prev[pa as int]);
                }
            }
            assert(url@ =~= prev[pa as int].url@ + seq!['/'] + filename@);
        }
        id
    }

    pub fn add_file(&mut self, parent: usize, filename: &str, title: &str) -> (id: usize)
        requires
            old(self).wf(),
        ensures
            final(self).wf(),
            id == old(self).spec_nodes().len(),
            final(self).spec_nodes().len() == id + 1,
            final(self).spec_nodes().subrange(0, id as int) =~= old(self).spec_nodes(),
            fs_added_ok(
                old(self).spec_nodes(),
                final(self).spec_nodes()[id as int],
                parent,
                filename@,
                title@,
            ),
            final(self).spec_nodes()[id as int].ty is File,
    {
        self.add(NodeType::File, parent, filename, title)
    }

    /// Adds a directory node; its title is the directory name itself.
    pub fn add_dir(&mut self, parent: usize, filename: &str) -> (id: usize)
        requires
            old(self).wf(),
        ensures
            final(self).wf(),
            id == old(self).spec_nodes().len(),
            final(self).spec_nodes().len() == id + 1,
            final(self).spec_nodes().subrange(0, id as int) =~= old(self).spec_nodes(),
            fs_added_ok(
                old(self).spec_nodes(),
                final(self).spec_nodes()[id as int],
                parent,
                filename@,
                filename@,
            ),
            final(self).spec_nodes()[id as int].ty is Directory,
    {
        self.add(NodeType::Directory, parent, filename, filename)
    }

    pub fn add_index(&mut self, parent: usize, filename: &str, title: &str) -> (id: usize)
        requires
            old(self).wf(),
        ensures
            final(self).wf(),
            id == old(self).spec_nodes().len(),
            final(self).spec_nodes().len() == id + 1,
            final(self).spec_nodes().subrange(0, id as int) =~= old(self).spec_nodes(),
            fs_added_ok(
                old(self).spec_nodes(),
                final(self).spec_nodes()[id as int],
                parent,
                filename@,
                title@,
            ),
            final(self).spec_nodes()[id as int].ty is Index,
    {
        self.add(NodeType::Index, parent, filename, title)
    }

    pub fn get(&self, id: usize) -> (r: Option<&FsNode>)
        ensures
            (id as int) < self.spec_nodes().len() ==> (r matches Some(p) && *p
                == self.spec_nodes()[id as int]),
            (id as int) >= self.spec_nodes().len() ==> r is None,
    {
        if id < self.nodes.len() {
            Some(&self.nodes[id])
        } else {
            None
        }
    }

    pub fn get_parent(&self, node: &FsNode) -> (r: Option<&FsNode>)
        ensures
            match node.spec_parent() {
                Some(pid) => if (pid as int) < self.spec_nodes().len() {
                    r matches Some(p) && *p == self.spec_nodes()[pid as int]
                } else {
                    r is None
                },
                None => r is None,
            },
    {
        match node.parent() {
            Some(pid) => self.get(pid),
            None => None,
        }
    }

    /// The nodes whose parent is `id`, in arena order.
    pub fn children(&self, id: usize) -> (r: Vec<&FsNode>)
        ensures
            forall|j: int|
                0 <= j < r@.len() ==> (*#[trigger] r@[j]).spec_parent() == Some(id) && (exists|
                    pid: int,
                |
                    0 <= pid < self.spec_nodes().len() && *r@[j] == self.spec_nodes()[pid]),
    {
        let mut r: Vec<&FsNode> = Vec::new();
        let mut pid: usize = 0;
        while pid < self.nodes.len()
            invariant
                pid <= self.spec_nodes().len(),
                forall|j: int|
                    0 <= j < r@.len() ==> (*#[trigger] r@[j]).spec_parent() == Some(id) && (exists|
                        q: int,
                    |
                        0 <= q < self.spec_nodes().len() && *r@[j] == self.spec_nodes()[q]),
            decreases self.spec_nodes().len() - pid,
        {
            let is_child = match self.nodes[pid].parent() {
                Some(p) => p == id,
                None => false,
            };
            if is_child {
                r.push(&self.nodes[pid]);
            }
            pid = pid + 1;
        }
        r
    }

    pub fn nodes(&self) -> (r: &Vec<FsNode>)
        ensures
            r@ == self.spec_nodes(),
    {
        &self.nodes
    }
}

fn copy_usizes(v: &Vec<usize>) -> (r: Vec<usize>)
    ensures
        r@ == v@,
{
    let mut r: Vec<usize> = Vec::new();
    let mut i: usize = 0;
    while i < v.len()
        invariant
            i <= v@.len(),
            r@ == v@.subrange(0, i as int),
        decreases v@.len() - i,
    {
        r.push(v[i]);
        assert(r@ =~= v@.subrange(0, i + 1 as int));
        i = i + 1;
    }
    proof {
        assert(r@ =~= v@);
    }
    r
}

} // verus!
