//! The filesystem tree: nodes in an arena, linked by their places in it.

use vstd::prelude::*;
use crate::chunk::NodeChunk;
use crate::context::RafsVersion;
use crate::error::BuildError;
use crate::generator::Generator;

verus! {

/// The identity and the sizes of a filesystem object.
#[derive(Clone, Copy, Debug, PartialEq, Eq, Structural)]
pub struct Inode {
    pub version: RafsVersion,
    pub ino: u64,
    pub uid: u32,
    pub gid: u32,
    pub projid: u32,
    pub mode: u32,
    pub nlink: u32,
    pub name_size: u16,
    pub rdev: u32,
    pub blocks: u64,
    pub size: u64,
    pub child_count: u32,
}

/// Where a node came from and where it goes.
#[derive(Debug, PartialEq, Eq)]
pub struct NodeInfo {
    pub explicit_uidgid: bool,
    pub src_dev: u64,
    pub src_ino: u64,
    pub rdev: u64,
    pub source: String,
    pub path: String,
    pub target: String,
    pub v6_force_extended_inode: bool,
}

/// One node of the tree.
#[derive(Debug, PartialEq, Eq)]
pub struct Node {
    pub inode: Inode,
    pub info: NodeInfo,
    /// The blob table index of the layer that holds the node's content.
    pub layer_idx: u16,
    /// The chunks of the node's content, in file order.
    pub chunks: Vec<NodeChunk>,
    /// The places of the node's children in the arena.
    pub children: Vec<usize>,
}

/// A filesystem tree. The node at place 0 is the root.
#[derive(Debug, PartialEq, Eq)]
pub struct Tree {
    pub nodes: Vec<Node>,
}

/// The links of `nodes` run forward: every child of a node stands behind the
/// node in the arena. Such links can close no circle.
pub open spec fn links_forward(nodes: Seq<Node>) -> bool {
    forall|i: int, j: int|
        0 <= i < nodes.len() && 0 <= j < nodes[i].children@.len() ==> i < #[trigger] nodes[i].children@[j]
            < nodes.len()
}

/// The node at place `i` and, behind it, the subtrees of its first `upto`
/// children, each in depth-first pre-order.
pub open spec fn preorder_upto(nodes: Seq<Node>, i: int, upto: nat) -> Seq<usize>
    decreases nodes.len() - i, upto,
{
    if upto == 0 {
        seq![i as usize]
    } else {
        let child = nodes[i].children@[upto - 1] as int;
        preorder_upto(nodes, i, (upto - 1) as nat) + if 0 <= i < child < nodes.len() {
            preorder(nodes, child)
        } else {
            Seq::<usize>::empty()
        }
    }
}

/// The nodes of the subtree at place `i`, in depth-first pre-order: the node
/// itself, then the subtrees of its children in their order.
pub open spec fn preorder(nodes: Seq<Node>, i: int) -> Seq<usize>
    decreases nodes.len() - i, nodes[i].children@.len() + 1,
{
    preorder_upto(nodes, i, nodes[i].children@.len())
}

impl Tree {
    /// The tree has a root, and its links run forward.
    pub open spec fn wf(&self) -> bool {
        self.nodes@.len() > 0 && links_forward(self.nodes@)
    }

    /// Whether the tree has a root and its links run forward.
    pub fn is_well_formed(&self) -> (good: bool)
        ensures
            good == self.wf(),
    {
        if self.nodes.len() == 0 {
            return false;
        }
        let mut i: usize = 0;
        while i < self.nodes.len()
            invariant
                i <= self.nodes@.len(),
                forall|a: int, b: int|
                    0 <= a < i && 0 <= b < self.nodes@[a].children@.len() ==> a < #[trigger] self.nodes@[a].children@[b]
                        < self.nodes@.len(),
            decreases self.nodes@.len() - i,
        {
            let mut j: usize = 0;
            while j < self.nodes[i].children.len()
                invariant
                    i < self.nodes@.len(),
                    j <= self.nodes@[i as int].children@.len(),
                    forall|b: int|
                        0 <= b < j ==> i < #[trigger] self.nodes@[i as int].children@[b] < self.nodes@.len(),
                decreases self.nodes@[i as int].children@.len() - j,
            {
                let child = self.nodes[i].children[j];
                if child <= i || child >= self.nodes.len() {
                    return false;
                }
                j += 1;
            }
            i += 1;
        }
        true
    }

    /// Appends, to `order`, the nodes of the subtree at place `i` in
    /// depth-first pre-order.
    fn walk_dfs_pre(&self, i: usize, order: &mut Vec<usize>)
        requires
            self.wf(),
            i < self.nodes@.len(),
        ensures
            final(order)@ == old(order)@ + preorder(self.nodes@, i as int),
        decreases self.nodes@.len() - i,
    {
        order.push(i);
        let mut j: usize = 0;
        assert(order@ =~= old(order)@ + preorder_upto(self.nodes@, i as int, 0));
        while j < self.nodes[i].children.len()
            invariant
                self.wf(),
                i < self.nodes@.len(),
                j <= self.nodes@[i as int].children@.len(),
                order@ == old(order)@ + preorder_upto(self.nodes@, i as int, j as nat),
            decreases self.nodes@[i as int].children@.len() - j,
        {
            let child = self.nodes[i].children[j];
            self.walk_dfs_pre(child, order);
            assert(order@ =~= old(order)@ + preorder_upto(self.nodes@, i as int, (j + 1) as nat));
            j += 1;
        }
    }
}

impl Generator {
    /// Validates the links of a tree and walks it. Returns the places of the
    /// nodes in depth-first pre-order from the root, or reports that the
    /// links of the tree do not all run forward within the arena.
    pub fn validate_tree(tree: &Tree) -> (walked: Result<Vec<usize>, BuildError>)
        ensures
            match walked {
                Ok(order) => tree.wf() && order@ == preorder(tree.nodes@, 0),
                Err(e) => !tree.wf() && e == BuildError::MalformedTree,
            },
    {
        if !tree.is_well_formed() {
            return Err(BuildError::MalformedTree);
        }
        let mut order: Vec<usize> = Vec::new();
        tree.walk_dfs_pre(0, &mut order);
        assert(order@ =~= preorder(tree.nodes@, 0));
        Ok(order)
    }
}

} // verus!
