use vstd::prelude::*;

use crate::leaf::{Leaf, LeafV};
use crate::path::{find_slash, has_slash, lemma_first_slash_bounds, rest_of, seg_of};
use crate::require::Format;

verus! {

/// An in-memory, lazily expanded mirror of one on-disk directory level.
///
/// `directory` and `file` hold the child entries as of the last (re)load,
/// split by kind. `node` is the child-directory cache: `None` until the
/// first descent through this level, then one child `Node` per entry of
/// `directory`, in the same order, kept for the lifetime of this `Node`.
pub struct Node {
    pub name: String,
    pub path: String,
    pub block_idx: usize,
    pub directory: Vec<Leaf>,
    pub file: Vec<Leaf>,
    pub node: Option<Vec<Node>>,
}

/// Tree-resolution failure.
#[derive(Debug)]
pub enum NodeError {
    NoFile(String),
    NoDirectory(String),
    ExpendErr,
}

/// Either carrier handed out by tree queries.
pub enum ItemType {
    Leaf(Leaf),
    Node(Node),
}

/// Pointwise view equality of two leaf lists.
pub open spec fn leaves_like(a: Seq<Leaf>, b: Seq<Leaf>) -> bool {
    a.len() == b.len() && forall|i: int| 0 <= i < a.len() ==> (#[trigger] a[i])@ == b[i]@
}

/// The directory-kind entries of `s`, in order.
pub open spec fn dirs_of(s: Seq<Leaf>) -> Seq<Leaf>
    decreases s.len(),
{
    if s.len() == 0 {
        s
    } else {
        let rest = dirs_of(s.drop_last());
        if s.last()@.ltype is Directory {
            rest.push(s.last())
        } else {
            rest
        }
    }
}

/// The file-kind entries of `s`, in order.
pub open spec fn files_of(s: Seq<Leaf>) -> Seq<Leaf>
    decreases s.len(),
{
    if s.len() == 0 {
        s
    } else {
        let rest = files_of(s.drop_last());
        if s.last()@.ltype is File {
            rest.push(s.last())
        } else {
            rest
        }
    }
}

/// Index of the first leaf of `leaves` named `name`, or -1 when none is.
pub open spec fn named_idx(leaves: Seq<Leaf>, name: Seq<char>) -> int
    decreases leaves.len(),
{
    if leaves.len() == 0 {
        -1
    } else if leaves[0]@.name == name {
        0
    } else {
        let t = named_idx(leaves.drop_first(), name);
        if t == -1 {
            -1
        } else {
            1 + t
        }
    }
}

/// `named_idx` finds exactly the first leaf with the given name.
pub proof fn lemma_named_idx(leaves: Seq<Leaf>, name: Seq<char>)
    ensures
        named_idx(leaves, name) == -1 ==> forall|j: int|
            0 <= j < leaves.len() ==> (#[trigger] leaves[j])@.name != name,
        named_idx(leaves, name) != -1 ==> 0 <= named_idx(leaves, name) < leaves.len()
            && leaves[named_idx(leaves, name)]@.name == name && forall|j: int|
            0 <= j < named_idx(leaves, name) ==> (#[trigger] leaves[j])@.name != name,
    decreases leaves.len(),
{
    if leaves.len() > 0 && leaves[0]@.name != name {
        let t = leaves.drop_first();
        lemma_named_idx(t, name);
        assert(forall|j: int| 1 <= j < leaves.len() ==> (#[trigger] leaves[j]) == t[j - 1]);
    }
}

/// The first index holding `name` determines `named_idx`.
pub proof fn lemma_named_idx_at(leaves: Seq<Leaf>, name: Seq<char>, i: int)
    requires
        0 <= i < leaves.len(),
        leaves[i]@.name == name,
        forall|j: int| 0 <= j < i ==> (#[trigger] leaves[j])@.name != name,
    ensures
        named_idx(leaves, name) == i,
    decreases i,
{
    if i > 0 {
        let t = leaves.drop_first();
        assert(forall|j: int| 0 <= j < t.len() ==> t[j] == leaves[j + 1]);
        lemma_named_idx_at(t, name, i - 1);
    }
}

/// No leaf of `leaves` is named `name`, so `named_idx` reports -1.
pub proof fn lemma_named_idx_none(leaves: Seq<Leaf>, name: Seq<char>)
    requires
        forall|j: int| 0 <= j < leaves.len() ==> (#[trigger] leaves[j])@.name != name,
    ensures
        named_idx(leaves, name) == -1,
    decreases leaves.len(),
{
    if leaves.len() > 0 {
        let t = leaves.drop_first();
        assert(forall|j: int| 0 <= j < t.len() ==> t[j] == leaves[j + 1]);
        lemma_named_idx_none(t, name);
    }
}

/// Well-formedness of a cached tree level: the leaf lists are split by
/// kind, and an expanded child cache lines up with the directory list,
/// one well-formed child per entry, carrying that entry's name and block.
///
/// The child cache is keyed by position, not by name, so its keys are
/// distinct by construction even when the decoder hands back two entries
/// under one name; every lookup then goes through the first entry with a
/// given name, and the list and the cache can never disagree about which
/// child that is. Name-uniqueness itself is not demanded here: the leaf
/// lists hold whatever the decoder returned.
pub open spec fn node_wf(n: Node) -> bool
    decreases n,
{
    &&& (forall|i: int|
        0 <= i < n.directory@.len() ==> (#[trigger] n.directory@[i])@.ltype is Directory)
    &&& (forall|i: int| 0 <= i < n.file@.len() ==> (#[trigger] n.file@[i])@.ltype is File)
    &&& match n.node {
        None => true,
        Some(cs) => cs@.len() == n.directory@.len() && forall|i: int|
            0 <= i < cs@.len() ==> {
                let c = #[trigger] cs@[i];
                c.name@ == n.directory@[i]@.name && c.block_idx == n.directory@[i]@.block_idx
                    && node_wf(c)
            },
    }
}

/// Observational equality of two cached trees: equal up to the views of
/// every reachable field, with the same expansion state everywhere.
pub open spec fn node_like(a: Node, b: Node) -> bool
    decreases a,
{
    &&& a.name@ == b.name@
    &&& a.path@ == b.path@
    &&& a.block_idx == b.block_idx
    &&& leaves_like(a.directory@, b.directory@)
    &&& leaves_like(a.file@, b.file@)
    &&& match (a.node, b.node) {
        (Option::None, Option::None) => true,
        (Option::Some(ca), Option::Some(cb)) => ca@.len() == cb@.len() && forall|i: int|
            0 <= i < ca@.len() ==> node_like(#[trigger] ca@[i], cb@[i]),
        _ => false,
    }
}

/// Result of resolving a path to a terminal leaf in a cached tree.
pub ghost enum LeafLookup {
    /// The path names this entry.
    Found(LeafV),
    /// Resolution stopped with this remaining path unmatched.
    Missing(Seq<char>),
    /// Descent hit a directory level whose child cache is absent.
    Blocked,
}

/// Result of resolving a path to a directory level in a cached tree.
pub ghost enum NodeLookup {
    /// The path names this level.
    Found(Node),
    /// Resolution stopped with this remaining path unmatched.
    Missing(Seq<char>),
    /// Descent hit a directory level whose child cache is absent.
    Blocked,
}

/// Resolve a `/`-separated relative path to the terminal `Leaf` it names,
/// in the tree as currently cached. A path without separators is looked up
/// in this level's own lists, directory entries before file entries;
/// otherwise the first segment selects a child directory to descend into.
pub open spec fn lookup_leaf(n: Node, path: Seq<char>) -> LeafLookup
    decreases path.len(),
    via lookup_leaf_dec
{
    if !has_slash(path) {
        let di = named_idx(n.directory@, path);
        let fi = named_idx(n.file@, path);
        if di != -1 {
            LeafLookup::Found(n.directory@[di]@)
        } else if fi != -1 {
            LeafLookup::Found(n.file@[fi]@)
        } else {
            LeafLookup::Missing(path)
        }
    } else {
        let di = named_idx(n.directory@, seg_of(path));
        if di == -1 {
            LeafLookup::Missing(path)
        } else {
            match n.node {
                None => LeafLookup::Blocked,
                Some(cs) => if cs@.len() == n.directory@.len() {
                    lookup_leaf(cs@[di], rest_of(path))
                } else {
                    LeafLookup::Blocked
                },
            }
        }
    }
}

#[via_fn]
proof fn lookup_leaf_dec(n: Node, path: Seq<char>) {
    lemma_first_slash_bounds(path);
}

/// Resolve a path to the directory level it names: the empty path names
/// this level; otherwise the first segment selects a child to descend
/// into, a missing trailing separator being read as an empty remainder.
pub open spec fn lookup_node(n: Node, path: Seq<char>) -> NodeLookup
    decreases path.len(),
    via lookup_node_dec
{
    if path.len() == 0 {
        NodeLookup::Found(n)
    } else {
        let di = named_idx(n.directory@, seg_of(path));
        if di == -1 {
            NodeLookup::Missing(path)
        } else {
            match n.node {
                None => NodeLookup::Blocked,
                Some(cs) => if cs@.len() == n.directory@.len() {
                    lookup_node(cs@[di], rest_of(path))
                } else {
                    NodeLookup::Blocked
                },
            }
        }
    }
}

#[via_fn]
proof fn lookup_node_dec(n: Node, path: Seq<char>) {
    lemma_first_slash_bounds(path);
}

/// Whether resolving a leaf along `path` finds every needed child cache
/// already built, so that the search will not touch the decoder.
pub open spec fn leaf_ready(n: Node, path: Seq<char>) -> bool
    decreases path.len(),
    via leaf_ready_dec
{
    if !has_slash(path) {
        true
    } else {
        let di = named_idx(n.directory@, seg_of(path));
        if di == -1 {
            true
        } else {
            match n.node {
                None => false,
                Some(cs) => cs@.len() == n.directory@.len() && leaf_ready(
                    cs@[di],
                    rest_of(path),
                ),
            }
        }
    }
}

#[via_fn]
proof fn leaf_ready_dec(n: Node, path: Seq<char>) {
    lemma_first_slash_bounds(path);
}

/// Whether resolving a directory level along `path`, target included,
/// finds every needed child cache already built.
pub open spec fn node_ready(n: Node, path: Seq<char>) -> bool
    decreases path.len(),
    via node_ready_dec
{
    if path.len() == 0 {
        n.node is Some
    } else {
        let di = named_idx(n.directory@, seg_of(path));
        if di == -1 {
            true
        } else {
            match n.node {
                None => false,
                Some(cs) => cs@.len() == n.directory@.len() && node_ready(
                    cs@[di],
                    rest_of(path),
                ),
            }
        }
    }
}

#[via_fn]
proof fn node_ready_dec(n: Node, path: Seq<char>) {
    lemma_first_slash_bounds(path);
}

/// View-equal leaf lists agree on where a name first occurs.
pub proof fn lemma_named_idx_like(a: Seq<Leaf>, b: Seq<Leaf>, name: Seq<char>)
    requires
        leaves_like(a, b),
    ensures
        named_idx(a, name) == named_idx(b, name),
    decreases a.len(),
{
    if a.len() > 0 {
        let ta = a.drop_first();
        let tb = b.drop_first();
        assert(forall|j: int| 0 <= j < ta.len() ==> ta[j] == a[j + 1]);
        assert(forall|j: int| 0 <= j < tb.len() ==> tb[j] == b[j + 1]);
        assert(leaves_like(ta, tb));
        lemma_named_idx_like(ta, tb, name);
    }
}

/// Observationally equal trees resolve a path to the same leaf view, the
/// same missing remainder, or the same blocked descent.
pub proof fn lemma_lookup_leaf_like(a: Node, b: Node, path: Seq<char>)
    requires
        node_like(a, b),
    ensures
        lookup_leaf(a, path) == lookup_leaf(b, path),
    decreases path.len(),
{
    lemma_first_slash_bounds(path);
    lemma_named_idx_like(a.directory@, b.directory@, path);
    lemma_named_idx_like(a.file@, b.file@, path);
    lemma_named_idx_like(a.directory@, b.directory@, seg_of(path));
    if !has_slash(path) {
        let di = named_idx(a.directory@, path);
        let fi = named_idx(a.file@, path);
        if di != -1 {
            lemma_named_idx(a.directory@, path);
        } else if fi != -1 {
            lemma_named_idx(a.file@, path);
        }
    } else {
        let di = named_idx(a.directory@, seg_of(path));
        if di != -1 {
            lemma_named_idx(a.directory@, seg_of(path));
            match (a.node, b.node) {
                (Option::Some(ca), Option::Some(cb)) => {
                    if ca@.len() == a.directory@.len() {
                        lemma_lookup_leaf_like(ca@[di], cb@[di], rest_of(path));
                    }
                },
                _ => {},
            }
        }
    }
}

/// Observationally equal trees resolve a path to observationally equal
/// directory levels, the same missing remainder, or the same blocked
/// descent.
pub proof fn lemma_lookup_node_like(a: Node, b: Node, path: Seq<char>)
    requires
        node_like(a, b),
    ensures
        match lookup_node(a, path) {
            NodeLookup::Found(t) => lookup_node(b, path) matches NodeLookup::Found(u)
                && node_like(t, u),
            NodeLookup::Missing(p) => lookup_node(b, path) == NodeLookup::Missing(p),
            NodeLookup::Blocked => lookup_node(b, path) is Blocked,
        },
    decreases path.len(),
{
    lemma_first_slash_bounds(path);
    lemma_named_idx_like(a.directory@, b.directory@, seg_of(path));
    if path.len() > 0 {
        let di = named_idx(a.directory@, seg_of(path));
        if di != -1 {
            lemma_named_idx(a.directory@, seg_of(path));
            match (a.node, b.node) {
                (Option::Some(ca), Option::Some(cb)) => {
                    if ca@.len() == a.directory@.len() {
                        lemma_lookup_node_like(ca@[di], cb@[di], rest_of(path));
                    }
                },
                _ => {},
            }
        }
    }
}

/// Idempotence of lazy expansion: once a leaf resolution has completed —
/// found its entry or reported the path missing — every child cache that
/// the descent passed through stands built, so `leaf_ready` holds and, by
/// `search_leaf`'s contract, a repeated descent through the same
/// directories asks the decoder for nothing and leaves the tree
/// unchanged.
pub proof fn lemma_leaf_lookup_complete_ready(n: Node, path: Seq<char>)
    requires
        !(lookup_leaf(n, path) is Blocked),
    ensures
        leaf_ready(n, path),
    decreases path.len(),
{
    lemma_first_slash_bounds(path);
    if has_slash(path) {
        let di = named_idx(n.directory@, seg_of(path));
        if di != -1 {
            lemma_named_idx(n.directory@, seg_of(path));
            match n.node {
                None => {},
                Some(cs) => {
                    if cs@.len() == n.directory@.len() {
                        lemma_leaf_lookup_complete_ready(cs@[di], rest_of(path));
                    }
                },
            }
        }
    }
}

/// `node_like` is reflexive.
pub proof fn lemma_node_like_refl(n: Node)
    ensures
        node_like(n, n),
    decreases n,
{
    match n.node {
        Option::None => {},
        Option::Some(cs) => {
            assert forall|i: int| 0 <= i < cs@.len() implies node_like(
                #[trigger] cs@[i],
                cs@[i],
            ) by {
                lemma_node_like_refl(cs@[i]);
            }
        },
    }
}

/// Clone a leaf list, entry by entry.
fn clone_leaves(v: &Vec<Leaf>) -> (r: Vec<Leaf>)
    ensures
        leaves_like(r@, v@),
{
    let mut r: Vec<Leaf> = Vec::new();
    let mut i: usize = 0;
    while i < v.len()
        invariant
            i <= v@.len(),
            r@.len() == i,
            forall|k: int| 0 <= k < i ==> (#[trigger] r@[k])@ == v@[k]@,
        decreases v@.len() - i,
    {
        r.push(v[i].clone());
        i = i + 1;
    }
    r
}

impl Node {
    /// Build one directory level from a freshly decoded leaf list,
    /// partitioning it into directory-kind and file-kind entries; the
    /// child cache starts absent.
    pub fn new(name: String, path: String, block_idx: usize, leaf: Vec<Leaf>) -> (r: Self)
        ensures
            r.name@ == name@,
            r.path@ == path@,
            r.block_idx == block_idx,
            r.node is None,
            leaves_like(r.directory@, dirs_of(leaf@)),
            leaves_like(r.file@, files_of(leaf@)),
            node_wf(r),
    {
        let mut directory: Vec<Leaf> = Vec::new();
        let mut file: Vec<Leaf> = Vec::new();
        let mut i: usize = 0;
        while i < leaf.len()
            invariant
                i <= leaf@.len(),
                leaves_like(directory@, dirs_of(leaf@.take(i as int))),
                leaves_like(file@, files_of(leaf@.take(i as int))),
                forall|k: int|
                    0 <= k < directory@.len() ==> (#[trigger] directory@[k])@.ltype is Directory,
                forall|k: int| 0 <= k < file@.len() ==> (#[trigger] file@[k])@.ltype is File,
            decreases leaf@.len() - i,
        {
            proof {
                assert(leaf@.take(i + 1).drop_last() =~= leaf@.take(i as int));
                assert(leaf@.take(i + 1).last() == leaf@[i as int]);
            }
            let l = &leaf[i];
            if l.is_directory() {
                directory.push(l.clone());
            } else {
                file.push(l.clone());
            }
            i = i + 1;
        }
        proof {
            assert(leaf@.take(leaf@.len() as int) =~= leaf@);
        }
        Node { name, path, block_idx, directory, file, node: None }
    }

    /// Build the child cache once: decode every child directory's block and
    /// key a fresh child level by it. Already-built caches are left
    /// untouched, and a level without child directories still gets an
    /// empty-but-present cache. `ExpendErr` reports only a decoder failure,
    /// and leaves the cache absent.
    pub fn expend<F: Format>(&mut self, format: &F) -> (r: Result<(), NodeError>)
        requires
            node_wf(*old(self)),
        ensures
            node_wf(*final(self)),
            final(self).name == old(self).name,
            final(self).path == old(self).path,
            final(self).block_idx == old(self).block_idx,
            final(self).directory == old(self).directory,
            final(self).file == old(self).file,
            old(self).node is Some ==> *final(self) == *old(self) && r is Ok,
            match r {
                Ok(()) => final(self).node is Some,
                Err(e) => e is ExpendErr && *final(self) == *old(self) && old(self).node is None,
            },
            r is Ok && old(self).node is None ==> (final(self).node matches Some(cs)
                && (forall|k: int|
                    0 <= k < cs@.len() ==> {
                        let c = #[trigger] cs@[k];
                        c.node is None && c.path@ == old(self).path@ + old(self).directory@[k]@.name
                            + seq!['/']
                    })),
    {
        if self.node.is_some() {
            return Ok(());
        }
        let mut children: Vec<Node> = Vec::new();
        let mut i: usize = 0;
        while i < self.directory.len()
            invariant
                node_wf(*self),
                *self == *old(self),
                self.node is None,
                i <= self.directory@.len(),
                children@.len() == i,
                forall|k: int|
                    0 <= k < i ==> {
                        let c = #[trigger] children@[k];
                        let d = self.directory@[k];
                        c.name@ == d@.name && c.block_idx == d@.block_idx && node_wf(c)
                            && c.node is None && c.path@ == self.path@ + d@.name + seq!['/']
                    },
            decreases self.directory@.len() - i,
        {
            let d = &self.directory[i];
            match format.parse_node(d.block_idx) {
                Ok(ls) => {
                    let mut cpath = self.path.clone();
                    cpath.append(d.name.as_str());
                    cpath.append("/");
                    proof {
                        reveal_strlit("/");
                        assert("/"@ =~= seq!['/']);
                    }
                    let child = Node::new(d.name.clone(), cpath, d.block_idx, ls);
                    children.push(child);
                },
                Err(_) => {
                    return Err(NodeError::ExpendErr);
                },
            }
            i = i + 1;
        }
        self.node = Some(children);
        Ok(())
    }

    /// Index of the first child-directory entry named `name`.
    fn find_dir(&self, name: &String) -> (r: Option<usize>)
        ensures
            match r {
                Some(i) => i < self.directory@.len() && named_idx(self.directory@, name@)
                    == i as int,
                None => named_idx(self.directory@, name@) == -1,
            },
    {
        let mut i: usize = 0;
        while i < self.directory.len()
            invariant
                i <= self.directory@.len(),
                forall|j: int| 0 <= j < i ==> (#[trigger] self.directory@[j])@.name != name@,
            decreases self.directory@.len() - i,
        {
            if self.directory[i].name == *name {
                proof {
                    lemma_named_idx_at(self.directory@, name@, i as int);
                }
                return Some(i);
            }
            i = i + 1;
        }
        proof {
            lemma_named_idx_none(self.directory@, name@);
        }
        None
    }

    /// Resolve a `/`-separated relative path to the terminal `Leaf` it
    /// names, without materializing it as a child level. Descent lazily
    /// builds the child caches it passes through; a level whose caches are
    /// already built is traversed without touching the decoder and without
    /// changing the tree. The error carries the remaining path that failed
    /// to match; `ExpendErr` reports a decoder failure during expansion.
    #[verifier::loop_isolation(false)]
    pub fn search_leaf<F: Format>(&mut self, path: String, format: &F) -> (r: Result<
        Leaf,
        NodeError,
    >)
        requires
            node_wf(*old(self)),
        ensures
            node_wf(*final(self)),
            final(self).name == old(self).name,
            final(self).path == old(self).path,
            final(self).block_idx == old(self).block_idx,
            final(self).directory == old(self).directory,
            final(self).file == old(self).file,
            match r {
                Ok(l) => lookup_leaf(*final(self), path@) == LeafLookup::Found(l@),
                Err(NodeError::NoDirectory(p)) => lookup_leaf(*final(self), path@)
                    == LeafLookup::Missing(p@),
                Err(NodeError::ExpendErr) => lookup_leaf(*final(self), path@)
                    is Blocked,
                Err(NodeError::NoFile(_)) => false,
            },
            leaf_ready(*old(self), path@) ==> node_like(*old(self), *final(self)),
        decreases path@.len(),
    {
        match find_slash(path.as_str()) {
            None => {
                let mut i: usize = 0;
                while i < self.directory.len()
                    invariant
                        i <= self.directory@.len(),
                        forall|j: int|
                            0 <= j < i ==> (#[trigger] self.directory@[j])@.name != path@,
                    decreases self.directory@.len() - i,
                {
                    if self.directory[i].name == path {
                        proof {
                            lemma_named_idx_at(self.directory@, path@, i as int);
                            lemma_node_like_refl(*self);
                        }
                        return Ok(self.directory[i].clone());
                    }
                    i = i + 1;
                }
                proof {
                    lemma_named_idx_none(self.directory@, path@);
                }
                let mut k: usize = 0;
                while k < self.file.len()
                    invariant
                        k <= self.file@.len(),
                        forall|j: int| 0 <= j < k ==> (#[trigger] self.file@[j])@.name != path@,
                    decreases self.file@.len() - k,
                {
                    if self.file[k].name == path {
                        proof {
                            lemma_named_idx_at(self.file@, path@, k as int);
                            lemma_node_like_refl(*self);
                        }
                        return Ok(self.file[k].clone());
                    }
                    k = k + 1;
                }
                proof {
                    lemma_named_idx_none(self.file@, path@);
                    lemma_node_like_refl(*self);
                }
                Err(NodeError::NoDirectory(path))
            },
            Some(j) => {
                let n = path.as_str().unicode_len();
                let name = String::from_str(path.as_str().substring_char(0, j));
                let rest = String::from_str(path.as_str().substring_char(j + 1, n));
                proof {
                    assert(name@ =~= seg_of(path@));
                    assert(rest@ =~= rest_of(path@));
                }
                match self.find_dir(&name) {
                    None => {
                        proof {
                            lemma_node_like_refl(*self);
                        }
                        Err(NodeError::NoDirectory(path))
                    },
                    Some(i) => {
                        match self.expend(format) {
                            Err(e) => {
                                return Err(e);
                            },
                            Ok(()) => {},
                        }
                        let ghost pre = *self;
                        let res;
                        match &mut self.node {
                            Some(cs) => {
                                let child = &mut cs[i];
                                res = child.search_leaf(rest, format);
                            },
                            None => {
                                proof {
                                    assert(false);
                                }
                                res = Err(NodeError::ExpendErr);
                            },
                        }
                        proof {
                            let ocs = pre.node->Some_0;
                            let fcs = self.node->Some_0;
                            assert(fcs@.len() == self.directory@.len());
                            if leaf_ready(*old(self), path@) {
                                assert(old(self).node is Some);
                                assert(*old(self) == pre);
                                assert forall|q: int|
                                    0 <= q < ocs@.len() implies node_like(
                                    #[trigger] ocs@[q],
                                    fcs@[q],
                                ) by {
                                    if q != i as int {
                                        lemma_node_like_refl(ocs@[q]);
                                    }
                                }
                                assert(node_like(*old(self), *self));
                            }
                        }
                        res
                    },
                }
            },
        }
    }

    /// Resolve a path to the directory level it names and hand back a
    /// detached snapshot: a clone of the target with its own child cache
    /// cleared, so the snapshot is self-contained and re-expands
    /// independently if descended into later. The empty path names this
    /// level itself; a path without a trailing separator is read as if one
    /// stood there.
    #[verifier::loop_isolation(false)]
    pub fn search_node<F: Format>(&mut self, path: String, format: &F) -> (r: Result<
        Node,
        NodeError,
    >)
        requires
            node_wf(*old(self)),
        ensures
            node_wf(*final(self)),
            final(self).name == old(self).name,
            final(self).path == old(self).path,
            final(self).block_idx == old(self).block_idx,
            final(self).directory == old(self).directory,
            final(self).file == old(self).file,
            match r {
                Ok(nd) => (lookup_node(*final(self), path@) matches NodeLookup::Found(t)
                    && nd.name@ == t.name@ && nd.path@ == t.path@ && nd.block_idx == t.block_idx
                    && leaves_like(nd.directory@, t.directory@) && leaves_like(
                    nd.file@,
                    t.file@,
                ) && nd.node is None && node_wf(nd) && t.node is Some),
                Err(NodeError::NoDirectory(p)) => lookup_node(*final(self), path@)
                    == NodeLookup::Missing(p@),
                Err(NodeError::ExpendErr) => !node_ready(*old(self), path@),
                Err(NodeError::NoFile(_)) => false,
            },
            node_ready(*old(self), path@) ==> node_like(*old(self), *final(self)),
        decreases path@.len(),
    {
        if path.as_str().unicode_len() == 0 {
            match self.expend(format) {
                Err(e) => {
                    return Err(e);
                },
                Ok(()) => {},
            }
            proof {
                if node_ready(*old(self), path@) {
                    lemma_node_like_refl(*self);
                }
            }
            Ok(
                Node {
                    name: self.name.clone(),
                    path: self.path.clone(),
                    block_idx: self.block_idx,
                    directory: clone_leaves(&self.directory),
                    file: clone_leaves(&self.file),
                    node: None,
                },
            )
        } else {
            let n = path.as_str().unicode_len();
            let (name, rest) = match find_slash(path.as_str()) {
                Some(j) => (
                    String::from_str(path.as_str().substring_char(0, j)),
                    String::from_str(path.as_str().substring_char(j + 1, n)),
                ),
                None => (path.clone(), String::new()),
            };
            proof {
                assert(name@ =~= seg_of(path@));
                assert(rest@ =~= rest_of(path@));
            }
            match self.find_dir(&name) {
                None => {
                    proof {
                        lemma_node_like_refl(*self);
                    }
                    Err(NodeError::NoDirectory(path))
                },
                Some(i) => {
                    match self.expend(format) {
                        Err(e) => {
                            return Err(e);
                        },
                        Ok(()) => {},
                    }
                    let ghost pre = *self;
                    let res;
                    match &mut self.node {
                        Some(cs) => {
                            let child = &mut cs[i];
                            res = child.search_node(rest, format);
                        },
                        None => {
                            proof {
                                assert(false);
                            }
                            res = Err(NodeError::ExpendErr);
                        },
                    }
                    proof {
                        let ocs = pre.node->Some_0;
                        let fcs = self.node->Some_0;
                        assert(fcs@.len() == self.directory@.len());
                        if node_ready(*old(self), path@) {
                            assert(old(self).node is Some);
                            assert(*old(self) == pre);
                            assert forall|q: int| 0 <= q < ocs@.len() implies node_like(
                                #[trigger] ocs@[q],
                                fcs@[q],
                            ) by {
                                if q != i as int {
                                    lemma_node_like_refl(ocs@[q]);
                                }
                            }
                            assert(node_like(*old(self), *self));
                        }
                    }
                    res
                },
            }
        }
    }

    /// Reload the directory level at `path` from the decoder, discarding
    /// the cached expansion below that point; used after an external
    /// mutation of the on-disk tree. Levels on the way are expanded as a
    /// search would expand them.
    #[verifier::loop_isolation(false)]
    pub fn refresh<F: Format>(&mut self, path: String, format: &F) -> (r: Result<(), NodeError>)
        requires
            node_wf(*old(self)),
        ensures
            node_wf(*final(self)),
            final(self).name == old(self).name,
            final(self).path == old(self).path,
            final(self).block_idx == old(self).block_idx,
            path@.len() > 0 ==> final(self).directory == old(self).directory && final(self).file
                == old(self).file,
            path@.len() > 0 && named_idx(old(self).directory@, seg_of(path@)) == -1 ==> (
            r matches Err(NodeError::NoDirectory(p)) && p@ == path@),
            match r {
                Ok(()) => (lookup_node(*final(self), path@) matches NodeLookup::Found(t)
                    && t.node is None),
                Err(NodeError::NoDirectory(p)) => lookup_node(*final(self), path@)
                    == NodeLookup::Missing(p@),
                Err(NodeError::ExpendErr) => true,
                Err(NodeError::NoFile(_)) => false,
            },
        decreases path@.len(),
    {
        if path.as_str().unicode_len() == 0 {
            match self.reset(format) {
                Err(_) => Err(NodeError::ExpendErr),
                Ok(()) => Ok(()),
            }
        } else {
            let n = path.as_str().unicode_len();
            let (name, rest) = match find_slash(path.as_str()) {
                Some(j) => (
                    String::from_str(path.as_str().substring_char(0, j)),
                    String::from_str(path.as_str().substring_char(j + 1, n)),
                ),
                None => (path.clone(), String::new()),
            };
            proof {
                assert(name@ =~= seg_of(path@));
                assert(rest@ =~= rest_of(path@));
            }
            match self.find_dir(&name) {
                None => Err(NodeError::NoDirectory(path)),
                Some(i) => {
                    match self.expend(format) {
                        Err(e) => {
                            return Err(e);
                        },
                        Ok(()) => {},
                    }
                    let res;
                    match &mut self.node {
                        Some(cs) => {
                            let child = &mut cs[i];
                            res = child.refresh(rest, format);
                        },
                        None => {
                            proof {
                                assert(false);
                            }
                            res = Err(NodeError::ExpendErr);
                        },
                    }
                    proof {
                        let fcs = self.node->Some_0;
                        assert(fcs@.len() == self.directory@.len());
                    }
                    res
                },
            }
        }
    }

    /// Reload this level's own leaf lists from the decoder and clear the
    /// child cache, so the next expansion is rebuilt from fresh leaves.
    /// The lists are cleared before repopulating, never appended to. A
    /// decoder failure leaves the level untouched.
    pub fn reset<F: Format>(&mut self, format: &F) -> (r: Result<(), NodeError>)
        ensures
            final(self).name == old(self).name,
            final(self).path == old(self).path,
            final(self).block_idx == old(self).block_idx,
            match r {
                Ok(()) => node_wf(*final(self)) && final(self).node is None,
                Err(e) => e is ExpendErr && *final(self) == *old(self),
            },
    {
        match format.parse_node(self.block_idx) {
            Err(_) => Err(NodeError::ExpendErr),
            Ok(ls) => {
                let nd = Node::new(self.name.clone(), self.path.clone(), self.block_idx, ls);
                self.directory = nd.directory;
                self.file = nd.file;
                self.node = None;
                Ok(())
            },
        }
    }

    /// First population of a freshly built level: append the decoder's
    /// entries for this level's own block to its leaf lists, split by
    /// kind — on success the old lists are kept as prefixes and the
    /// appended suffixes are exactly one decoded list's kind-partition.
    /// A decoder failure leaves the level untouched.
    #[verifier::loop_isolation(false)]
    pub fn init<F: Format>(&mut self, format: &F) -> (r: Result<(), NodeError>)
        requires
            old(self).node is None,
            node_wf(*old(self)),
        ensures
            node_wf(*final(self)),
            final(self).name == old(self).name,
            final(self).path == old(self).path,
            final(self).block_idx == old(self).block_idx,
            final(self).node is None,
            match r {
                Ok(()) => final(self).directory@.len() >= old(self).directory@.len()
                    && final(self).file@.len() >= old(self).file@.len()
                    && (forall|k: int|
                        0 <= k < old(self).directory@.len()
                            ==> final(self).directory@[k] == old(self).directory@[k])
                    && (forall|k: int|
                        0 <= k < old(self).file@.len()
                            ==> final(self).file@[k] == old(self).file@[k])
                    && (exists|ls: Seq<Leaf>|
                        leaves_like(
                            final(self).directory@.skip(old(self).directory@.len() as int),
                            dirs_of(ls),
                        ) && leaves_like(
                            final(self).file@.skip(old(self).file@.len() as int),
                            files_of(ls),
                        )),
                Err(e) => e is ExpendErr && *final(self) == *old(self),
            },
    {
        let ghost dlen = old(self).directory@.len() as int;
        let ghost flen = old(self).file@.len() as int;
        match format.parse_node(self.block_idx) {
            Err(_) => Err(NodeError::ExpendErr),
            Ok(ls) => {
                let mut i: usize = 0;
                while i < ls.len()
                    invariant
                        i <= ls@.len(),
                        node_wf(*self),
                        self.node is None,
                        self.name == old(self).name,
                        self.path == old(self).path,
                        self.block_idx == old(self).block_idx,
                        self.directory@.len() >= dlen,
                        self.file@.len() >= flen,
                        forall|k: int| 0 <= k < dlen ==> self.directory@[k] == old(
                            self,
                        ).directory@[k],
                        forall|k: int| 0 <= k < flen ==> self.file@[k] == old(self).file@[k],
                        leaves_like(self.directory@.skip(dlen), dirs_of(ls@.take(i as int))),
                        leaves_like(self.file@.skip(flen), files_of(ls@.take(i as int))),
                    decreases ls@.len() - i,
                {
                    proof {
                        assert(ls@.take(i + 1).drop_last() =~= ls@.take(i as int));
                        assert(ls@.take(i + 1).last() == ls@[i as int]);
                    }
                    let ghost pd = self.directory@;
                    let ghost pf = self.file@;
                    let l = &ls[i];
                    if l.is_directory() {
                        self.directory.push(l.clone());
                        proof {
                            assert(self.directory@.skip(dlen) =~= pd.skip(dlen).push(
                                self.directory@.last(),
                            ));
                        }
                    } else {
                        self.file.push(l.clone());
                        proof {
                            assert(self.file@.skip(flen) =~= pf.skip(flen).push(
                                self.file@.last(),
                            ));
                        }
                    }
                    i = i + 1;
                }
                proof {
                    assert(ls@.take(ls@.len() as int) =~= ls@);
                }
                Ok(())
            },
        }
    }
}

} // verus!
