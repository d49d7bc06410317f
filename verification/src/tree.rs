//! Syntax trees.
//!
//! A tree lives in an arena: its nodes stand in one vector in the order in
//! which they were made, the root first, and name each other by position.
//! A `TreeNode` is such a tree together with the node that it points at.

use vstd::prelude::*;
use vstd::string::StringExecFns;
use crate::tokens::{Token, Tokens};

verus! {

/// The mathematical value of a node: its token, the positions of its
/// children in the order in which they were added, and the position of its
/// parent.
pub ghost struct NodeModel {
    pub value: Token,
    pub children: Seq<int>,
    pub parent: Option<int>,
}

/// The mathematical value of a tree with a node pointed at.
pub ghost struct TreeModel {
    pub nodes: Seq<NodeModel>,
    pub at: int,
}

/// The parent of node `i` was made before it; the root alone has none.
pub open spec fn parent_ok(nodes: Seq<NodeModel>, i: int) -> bool {
    match nodes[i].parent {
        Some(p) => 0 <= p < i,
        None => i == 0,
    }
}

/// The child at place `j` of node `p` was made after `p`, names `p` as its
/// parent, and was made after the children before it.
pub open spec fn child_ok(nodes: Seq<NodeModel>, p: int, j: int) -> bool {
    let c = nodes[p].children[j];
    &&& p < c < nodes.len()
    &&& nodes[c].parent == Some(p)
    &&& j > 0 ==> nodes[p].children[j - 1] < c
}

/// The nodes of a tree: the root is the one node without a parent, every
/// other node has a parent that was made before it, and the children of a
/// node are nodes that name it as their parent, in the order in which they
/// were made.
pub open spec fn nodes_wf(nodes: Seq<NodeModel>) -> bool {
    &&& nodes.len() > 0
    &&& forall|i: int| 0 <= i < nodes.len() ==> #[trigger] parent_ok(nodes, i)
    &&& forall|p: int, j: int|
        0 <= p < nodes.len() && 0 <= j < nodes[p].children.len() ==> #[trigger] child_ok(
            nodes,
            p,
            j,
        )
}

impl TreeModel {
    /// A tree is well formed when its nodes are and it points at one of them.
    pub open spec fn wf(self) -> bool {
        &&& nodes_wf(self.nodes)
        &&& 0 <= self.at < self.nodes.len()
    }

    /// The tree of one node.
    pub open spec fn single(t: Token) -> TreeModel {
        TreeModel {
            nodes: seq![NodeModel { value: t, children: Seq::empty(), parent: None }],
            at: 0,
        }
    }

    /// The node pointed at.
    pub open spec fn here(self) -> NodeModel {
        self.nodes[self.at]
    }

    /// The token of the node pointed at.
    pub open spec fn value(self) -> Token {
        self.here().value
    }

    /// The tree with a new node as the last child of the node pointed at.
    pub open spec fn add(self, t: Token) -> TreeModel {
        let n = self.nodes.len() as int;
        TreeModel {
            nodes: self.nodes.update(
                self.at,
                NodeModel { children: self.here().children.push(n), ..self.here() },
            ).push(NodeModel { value: t, children: Seq::empty(), parent: Some(self.at) }),
            at: self.at,
        }
    }

    /// The tree with a new node as the last child of the node pointed at,
    /// pointing at the new node.
    pub open spec fn add_and_set(self, t: Token) -> TreeModel {
        TreeModel { at: self.nodes.len() as int, ..self.add(t) }
    }

    /// Whether the node pointed at has a parent.
    pub open spec fn has_parent(self) -> bool {
        self.here().parent is Some
    }

    /// The tree, pointing at the parent of the node pointed at.
    pub open spec fn back_to_parent(self) -> TreeModel {
        TreeModel { at: self.here().parent->0, ..self }
    }

    /// The tree, pointing at its root.
    pub open spec fn at_root(self) -> TreeModel {
        TreeModel { at: 0, ..self }
    }

    /// The tree, pointing at the child at place `j` of the node pointed at.
    pub open spec fn descend(self, j: int) -> TreeModel {
        TreeModel { at: self.here().children[j], ..self }
    }
}

/// The descriptions of the children of a node from place `j` on, each
/// followed by a line break and two tabs.
pub open spec fn children_text(nodes: Seq<NodeModel>, kids: Seq<int>, j: int) -> Seq<char>
    decreases kids.len() - j,
{
    if j < 0 || j >= kids.len() {
        Seq::empty()
    } else {
        nodes[kids[j]].value.describe() + "\n\t\t"@ + children_text(nodes, kids, j + 1)
    }
}

/// The description of node `i`: its token, those of its children and that of
/// its parent.
pub open spec fn node_text(nodes: Seq<NodeModel>, i: int) -> Seq<char> {
    "AST Node Containing: "@ + "\n\tToken: "@ + nodes[i].value.describe() + "\n\tChildren: \n\t"@
        + (if nodes[i].children.len() == 0 {
        "\tNo children."@
    } else {
        children_text(nodes, nodes[i].children, 0)
    }) + "\n\tParent: "@ + (match nodes[i].parent {
        Some(p) => nodes[p].value.describe(),
        None => "No parent."@,
    })
}

/// One entry of a reading of a tree: the number of a node, the number of its
/// parent, and its token.
pub ghost struct ReaderEntry {
    pub id: nat,
    pub parent: Option<nat>,
    pub value: Token,
}

/// `acc` followed by the reading of the subtree of node `i`, whose parent
/// has the number `parent`: the node, then the subtrees of its children in
/// order. A node's number is its place in the reading.
pub open spec fn read_node(
    nodes: Seq<NodeModel>,
    i: int,
    parent: Option<nat>,
    acc: Seq<ReaderEntry>,
) -> Seq<ReaderEntry>
    decreases nodes.len() - i, nodes[i].children.len() + 1,
{
    if 0 <= i < nodes.len() {
        read_children(
            nodes,
            i,
            0,
            acc.len(),
            acc.push(ReaderEntry { id: acc.len(), parent, value: nodes[i].value }),
        )
    } else {
        acc
    }
}

/// `acc` followed by the readings of the subtrees of the children of node
/// `i` from place `j` on; `id` is the number of node `i`.
pub open spec fn read_children(
    nodes: Seq<NodeModel>,
    i: int,
    j: int,
    id: nat,
    acc: Seq<ReaderEntry>,
) -> Seq<ReaderEntry>
    decreases nodes.len() - i, nodes[i].children.len() - j,
{
    if 0 <= i < nodes.len() && 0 <= j < nodes[i].children.len() {
        let c = nodes[i].children[j];
        if i < c < nodes.len() {
            read_children(nodes, i, j + 1, id, read_node(nodes, c, Some(id), acc))
        } else {
            acc
        }
    } else {
        acc
    }
}

/// The descriptions of the nodes `kids` from place `j` on.
pub open spec fn texts_from(nodes: Seq<NodeModel>, kids: Seq<int>, j: int) -> Seq<Seq<char>>
    decreases kids.len() - j,
{
    if j < 0 || j >= kids.len() {
        Seq::empty()
    } else {
        seq![node_text(nodes, kids[j])] + texts_from(nodes, kids, j + 1)
    }
}

/// The descriptions of the nodes `kids` from place `j` on, each followed by
/// the descriptions of its children.
pub open spec fn kin_from(nodes: Seq<NodeModel>, kids: Seq<int>, j: int) -> Seq<Seq<char>>
    decreases kids.len() - j,
{
    if j < 0 || j >= kids.len() {
        Seq::empty()
    } else {
        seq![node_text(nodes, kids[j])] + texts_from(nodes, nodes[kids[j]].children, 0) + kin_from(
            nodes,
            kids,
            j + 1,
        )
    }
}

impl TreeModel {
    /// The description of the node pointed at.
    pub open spec fn describe(self) -> Seq<char> {
        node_text(self.nodes, self.at)
    }

    /// The descriptions of the children of the node pointed at, each followed
    /// by the descriptions of its own children.
    pub open spec fn describe_kin(self) -> Seq<Seq<char>> {
        kin_from(self.nodes, self.here().children, 0)
    }

    /// The reading of the subtree of the node pointed at, in preorder.
    pub open spec fn preorder(self) -> Seq<ReaderEntry> {
        read_node(self.nodes, self.at, None, Seq::empty())
    }
}

/// Adding a node keeps a tree well formed.
pub proof fn lemma_add_wf(m: TreeModel, t: Token)
    requires
        m.wf(),
    ensures
        m.add(t).wf(),
        m.add_and_set(t).wf(),
{
    let r = m.add(t).nodes;
    let n = m.nodes.len() as int;
    assert forall|i: int| 0 <= i < r.len() implies #[trigger] parent_ok(r, i) by {
        if i < n {
            assert(parent_ok(m.nodes, i));
        }
    }
    assert forall|p: int, j: int|
        0 <= p < r.len() && 0 <= j < r[p].children.len() implies #[trigger] child_ok(r, p, j) by {
        if p == m.at {
            if j < m.here().children.len() {
                assert(child_ok(m.nodes, p, j));
            } else if j > 0 {
                assert(child_ok(m.nodes, p, j - 1));
            }
        } else {
            assert(child_ok(m.nodes, p, j));
        }
    }
}

/// The node reached from node `i` by following parent links `steps` times,
/// or the root where that is reached before.
pub open spec fn climb(nodes: Seq<NodeModel>, i: int, steps: nat) -> int
    decreases steps,
{
    if steps == 0 {
        i
    } else {
        match nodes[i].parent {
            Some(p) => climb(nodes, p, (steps - 1) as nat),
            None => i,
        }
    }
}

/// The number of parent links between node `i` and the root.
pub open spec fn depth(nodes: Seq<NodeModel>, i: int) -> nat
    decreases i,
{
    match nodes[i].parent {
        Some(p) => if 0 <= p < i {
            1 + depth(nodes, p)
        } else {
            0
        },
        None => 0,
    }
}

/// A tree has no cycle. Following the parent links from any node of a well
/// formed tree reaches the root, which has no parent, after as many steps as
/// the node is deep, and every step leads to a node made earlier, so that no
/// node is met twice.
pub proof fn lemma_parents_reach_root(m: TreeModel, i: int)
    requires
        m.wf(),
        0 <= i < m.nodes.len(),
    ensures
        depth(m.nodes, i) <= i,
        climb(m.nodes, i, depth(m.nodes, i)) == 0,
        m.nodes[0].parent is None,
        forall|a: nat, b: nat|
            a < b <= depth(m.nodes, i) ==> #[trigger] climb(m.nodes, i, a) > #[trigger] climb(
                m.nodes,
                i,
                b,
            ),
    decreases i,
{
    assert(parent_ok(m.nodes, 0));
    assert(parent_ok(m.nodes, i));
    match m.nodes[i].parent {
        Some(p) => {
            lemma_parents_reach_root(m, p);
            assert forall|a: nat, b: nat| a < b <= depth(m.nodes, i) implies #[trigger] climb(
                m.nodes,
                i,
                a,
            ) > #[trigger] climb(m.nodes, i, b) by {
                let b1 = (b - 1) as nat;
                assert(climb(m.nodes, i, b) == climb(m.nodes, p, b1));
                if a == 0 {
                    if b1 > 0 {
                        assert(climb(m.nodes, p, 0) > climb(m.nodes, p, b1));
                    }
                } else {
                    let a1 = (a - 1) as nat;
                    assert(climb(m.nodes, i, a) == climb(m.nodes, p, a1));
                    assert(climb(m.nodes, p, a1) > climb(m.nodes, p, b1));
                }
            }
        },
        None => {},
    }
}

/// A node of the arena.
#[derive(Debug, PartialEq)]
struct Node {
    value: Tokens,
    children: Vec<usize>,
    parent: Option<usize>,
}

/// A tree and the node of it that is pointed at: a new tree points at its
/// root, and the functions that add a node or move say where the result
/// points.
#[derive(Debug, PartialEq)]
pub struct TreeNode {
    nodes: Vec<Node>,
    at: usize,
}

spec fn node_model(n: Node) -> NodeModel {
    NodeModel {
        value: n.value@,
        children: Seq::new(n.children@.len(), |j: int| n.children@[j] as int),
        parent: match n.parent {
            Some(p) => Some(p as int),
            None => None,
        },
    }
}

spec fn models(s: Seq<Node>) -> Seq<NodeModel> {
    Seq::new(s.len(), |i: int| node_model(s[i]))
}

impl Node {
    fn copy(&self) -> (r: Self)
        ensures
            node_model(r) == node_model(*self),
    {
        let mut children: Vec<usize> = Vec::new();
        let mut j: usize = 0;
        while j < self.children.len()
            invariant
                j <= self.children.len(),
                children@ == self.children@.take(j as int),
            decreases self.children.len() - j,
        {
            children.push(self.children[j]);
            assert(self.children@.take(j + 1) =~= self.children@.take(j as int).push(
                self.children@[j as int],
            ));
            j += 1;
        }
        assert(children@ =~= self.children@);
        Node { value: self.value.clone(), children, parent: self.parent }
    }
}

impl View for TreeNode {
    type V = TreeModel;

    closed spec fn view(&self) -> TreeModel {
        TreeModel { nodes: models(self.nodes@), at: self.at as int }
    }
}

impl Clone for TreeNode {
    fn clone(&self) -> (r: Self)
        ensures
            r@ == self@,
    {
        proof {
            use_type_invariant(self);
        }
        let mut nodes: Vec<Node> = Vec::new();
        let mut i: usize = 0;
        while i < self.nodes.len()
            invariant
                i <= self.nodes.len(),
                models(nodes@) == models(self.nodes@).take(i as int),
            decreases self.nodes.len() - i,
        {
            let ghost before = models(nodes@);
            let n = self.nodes[i].copy();
            nodes.push(n);
            assert(models(nodes@) =~= before.push(node_model(n)));
            assert(models(self.nodes@).take(i + 1) =~= models(self.nodes@).take(i as int).push(
                node_model(self.nodes@[i as int]),
            ));
            i += 1;
        }
        assert(models(nodes@) =~= models(self.nodes@));
        TreeNode { nodes, at: self.at }
    }
}

impl TreeNode {
    #[verifier::type_invariant]
    spec fn inv(self) -> bool {
        self@.wf()
    }

    /// A tree of one node that holds `token`.
    pub fn new(token: Tokens) -> (r: TreeNode)
        ensures
            r@ == TreeModel::single(token@),
            r@.wf(),
    {
        let mut nodes: Vec<Node> = Vec::new();
        nodes.push(Node { value: token, children: Vec::new(), parent: None });
        assert(models(nodes@) =~= TreeModel::single(token@).nodes) by {
            assert(models(nodes@)[0].children =~= Seq::<int>::empty());
        }
        assert(parent_ok(models(nodes@), 0));
        TreeNode { nodes, at: 0 }
    }

    /// Adds a node that holds `token` as the last child of the node pointed
    /// at. The tree still points at the same node.
    pub fn add(token: Tokens, existing_tree: TreeNode) -> (r: TreeNode)
        ensures
            r@ == existing_tree@.add(token@),
            r@.wf(),
    {
        proof {
            use_type_invariant(&existing_tree);
            lemma_add_wf(existing_tree@, token@);
        }
        let ghost before = existing_tree@;
        let TreeNode { nodes, at } = existing_tree;
        let mut nodes = nodes;
        let n = nodes.len();
        nodes[at].children.push(n);
        nodes.push(Node { value: token, children: Vec::new(), parent: Some(at) });
        assert(models(nodes@) =~= before.add(token@).nodes) by {
            let now = models(nodes@);
            assert(now[n as int].children =~= Seq::<int>::empty());
            assert(now[at as int].children =~= before.here().children.push(n as int));
            assert forall|i: int| 0 <= i < n && i != at implies now[i] == before.nodes[i] by {
                assert(now[i].children =~= before.nodes[i].children);
            }
        }
        TreeNode { nodes, at }
    }

    /// Adds a node that holds `token` as the last child of the node pointed
    /// at, and points at the new node.
    pub fn add_and_set(token: Tokens, existing_tree: TreeNode) -> (r: TreeNode)
        ensures
            r@ == existing_tree@.add_and_set(token@),
            r@.wf(),
    {
        proof {
            use_type_invariant(&existing_tree);
        }
        let grown = TreeNode::add(token, existing_tree);
        let ghost g = grown@;
        let TreeNode { nodes, at } = grown;
        assert(models(nodes@) == g.nodes);
        assert(g.nodes.len() == existing_tree@.nodes.len() + 1);
        let last = nodes.len() - 1;
        TreeNode { nodes, at: last }
    }

    /// Whether the node pointed at has a parent.
    pub fn has_parent(&self) -> (r: bool)
        ensures
            r == self@.has_parent(),
    {
        proof {
            use_type_invariant(self);
        }
        self.nodes[self.at].parent.is_some()
    }

    /// Points at the parent of the node pointed at.
    pub fn back_to_parent(existing_tree: TreeNode) -> (r: TreeNode)
        requires
            existing_tree@.has_parent(),
        ensures
            r@ == existing_tree@.back_to_parent(),
            r@.wf(),
    {
        proof {
            use_type_invariant(&existing_tree);
            assert(parent_ok(existing_tree@.nodes, existing_tree@.at));
        }
        let TreeNode { nodes, at } = existing_tree;
        let up = match nodes[at].parent {
            Some(p) => p,
            None => at,
        };
        TreeNode { nodes, at: up }
    }

    /// Walks from the node pointed at up to the root.
    pub fn to_root(existing_tree: TreeNode) -> (r: TreeNode)
        ensures
            r@ == existing_tree@.at_root(),
            r@.wf(),
    {
        let mut tree = existing_tree;
        proof {
            use_type_invariant(&tree);
        }
        while tree.has_parent()
            invariant
                tree@.nodes == existing_tree@.nodes,
                tree@.wf(),
            decreases tree@.at,
        {
            proof {
                assert(parent_ok(tree@.nodes, tree@.at));
            }
            tree = TreeNode::back_to_parent(tree);
        }
        proof {
            assert(parent_ok(tree@.nodes, tree@.at));
        }
        tree
    }

    /// The token of the node pointed at.
    pub fn value(&self) -> (r: &Tokens)
        ensures
            r@ == self@.value(),
    {
        proof {
            use_type_invariant(self);
        }
        &self.nodes[self.at].value
    }

    /// The number of children of the node pointed at.
    pub fn children_len(&self) -> (r: usize)
        ensures
            r == self@.here().children.len(),
    {
        proof {
            use_type_invariant(self);
        }
        self.nodes[self.at].children.len()
    }

    /// Points at the child at place `j` of the node pointed at; `None` where
    /// the node has no such child.
    pub fn descend(existing_tree: TreeNode, j: usize) -> (r: Option<TreeNode>)
        ensures
            j < existing_tree@.here().children.len() ==> r is Some && r->0@
                == existing_tree@.descend(j as int) && r->0@.wf(),
            j >= existing_tree@.here().children.len() ==> r is None,
    {
        proof {
            use_type_invariant(&existing_tree);
        }
        let TreeNode { nodes, at } = existing_tree;
        if j < nodes[at].children.len() {
            let down = nodes[at].children[j];
            proof {
                assert(child_ok(existing_tree@.nodes, at as int, j as int));
            }
            Some(TreeNode { nodes, at: down })
        } else {
            None
        }
    }
}

/// One entry of a reading of a tree: the number of a node, the number of its
/// parent, and its token.
#[derive(Debug, PartialEq)]
pub struct ReaderTuple(pub usize, pub Option<usize>, pub Tokens);

impl View for ReaderTuple {
    type V = ReaderEntry;

    open spec fn view(&self) -> ReaderEntry {
        ReaderEntry {
            id: self.0 as nat,
            parent: match self.1 {
                Some(p) => Some(p as nat),
                None => None,
            },
            value: self.2@,
        }
    }
}

/// The texts of a sequence of strings.
pub open spec fn strings(s: Seq<String>) -> Seq<Seq<char>> {
    Seq::new(s.len(), |i: int| s[i]@)
}

/// The values of a sequence of entries.
pub open spec fn entries(s: Seq<ReaderTuple>) -> Seq<ReaderEntry> {
    Seq::new(s.len(), |i: int| s[i]@)
}

impl TreeNode {
    fn describe_at(&self, i: usize) -> (r: String)
        requires
            i < self@.nodes.len(),
        ensures
            r@ == node_text(self@.nodes, i as int),
    {
        proof {
            use_type_invariant(self);
        }
        let node = &self.nodes[i];
        let mut r = String::from_str("AST Node Containing: ");
        r.append("\n\tToken: ");
        r.append(node.value.print().as_str());
        r.append("\n\tChildren: \n\t");
        if node.children.len() == 0 {
            r.append("\tNo children.");
        } else {
            let ghost head = r@;
            let ghost kids = self@.nodes[i as int].children;
            let mut j: usize = 0;
            assert(children_text(self@.nodes, kids, 0) =~= Seq::<char>::empty() + children_text(
                self@.nodes,
                kids,
                0,
            ));
            let mut t = String::new();
            while j < node.children.len()
                invariant
                    j <= node.children.len(),
                    self@.wf(),
                    i < self@.nodes.len(),
                    *node == self.nodes@[i as int],
                    kids == self@.nodes[i as int].children,
                    t@ + children_text(self@.nodes, kids, j as int) == children_text(
                        self@.nodes,
                        kids,
                        0,
                    ),
                decreases node.children.len() - j,
            {
                let c = node.children[j];
                proof {
                    assert(child_ok(self@.nodes, i as int, j as int));
                    assert(kids[j as int] == c);
                }
                let ghost before = t@;
                let ghost d = self@.nodes[c as int].value.describe();
                t.append(self.nodes[c].value.print().as_str());
                t.append("\n\t\t");
                assert(before + (d + "\n\t\t"@ + children_text(self@.nodes, kids, j + 1)) =~= (
                before + d + "\n\t\t"@) + children_text(self@.nodes, kids, j + 1));
                j += 1;
            }
            assert(t@ + Seq::<char>::empty() =~= t@);
            r.append(t.as_str());
        }
        r.append("\n\tParent: ");
        match node.parent {
            Some(p) => {
                proof {
                    assert(parent_ok(self@.nodes, i as int));
                }
                r.append(self.nodes[p].value.print().as_str());
            },
            None => {
                r.append("No parent.");
            },
        }
        r
    }

    /// Describes the node pointed at: its token, the tokens of its children
    /// and the token of its parent.
    pub fn print(&self) -> (r: String)
        ensures
            r@ == self@.describe(),
    {
        proof {
            use_type_invariant(self);
        }
        self.describe_at(self.at)
    }

    fn describe_children(&self, i: usize, out: &mut Vec<String>)
        requires
            i < self@.nodes.len(),
        ensures
            strings(final(out)@) == strings(old(out)@) + texts_from(
                self@.nodes,
                self@.nodes[i as int].children,
                0,
            ),
    {
        proof {
            use_type_invariant(self);
        }
        let ghost kids = self@.nodes[i as int].children;
        let ghost start = strings(out@);
        let mut j: usize = 0;
        while j < self.nodes[i].children.len()
            invariant
                j <= self.nodes@[i as int].children.len(),
                self@.wf(),
                i < self@.nodes.len(),
                kids == self@.nodes[i as int].children,
                strings(out@) + texts_from(self@.nodes, kids, j as int) == start + texts_from(
                    self@.nodes,
                    kids,
                    0,
                ),
            decreases self.nodes@[i as int].children.len() - j,
        {
            let c = self.nodes[i].children[j];
            proof {
                assert(child_ok(self@.nodes, i as int, j as int));
                assert(kids[j as int] == c);
            }
            let ghost before = strings(out@);
            let line = self.describe_at(c);
            out.push(line);
            assert(strings(out@) =~= before.push(line@));
            assert(before + (seq![line@] + texts_from(self@.nodes, kids, j + 1)) =~= before.push(
                line@,
            ) + texts_from(self@.nodes, kids, j + 1));
            j += 1;
        }
        assert(strings(out@) + Seq::<Seq<char>>::empty() =~= strings(out@));
    }

    /// Describes the children of the node pointed at, each followed by its
    /// own children.
    pub fn print_kin(&self) -> (r: Vec<String>)
        ensures
            strings(r@) == self@.describe_kin(),
    {
        proof {
            use_type_invariant(self);
        }
        let i = self.at;
        let ghost kids = self@.nodes[i as int].children;
        let mut out: Vec<String> = Vec::new();
        assert(strings(out@) =~= Seq::<Seq<char>>::empty());
        let mut j: usize = 0;
        while j < self.nodes[i].children.len()
            invariant
                j <= self.nodes@[i as int].children.len(),
                self@.wf(),
                i < self@.nodes.len(),
                kids == self@.nodes[i as int].children,
                strings(out@) + kin_from(self@.nodes, kids, j as int) == kin_from(
                    self@.nodes,
                    kids,
                    0,
                ),
            decreases self.nodes@[i as int].children.len() - j,
        {
            let c = self.nodes[i].children[j];
            proof {
                assert(child_ok(self@.nodes, i as int, j as int));
                assert(kids[j as int] == c);
            }
            let ghost before = strings(out@);
            let line = self.describe_at(c);
            out.push(line);
            assert(strings(out@) =~= before.push(line@));
            self.describe_children(c, &mut out);
            let ghost own = texts_from(self@.nodes, self@.nodes[c as int].children, 0);
            assert(before + (seq![line@] + own + kin_from(self@.nodes, kids, j + 1)) =~= (
            before.push(line@) + own) + kin_from(self@.nodes, kids, j + 1));
            j += 1;
        }
        assert(strings(out@) + Seq::<Seq<char>>::empty() =~= strings(out@));
        out
    }

    fn read_node(&self, i: usize, parent: Option<usize>, acc: &mut Vec<ReaderTuple>)
        requires
            i < self@.nodes.len(),
        ensures
            entries(final(acc)@) == read_node(
                self@.nodes,
                i as int,
                match parent {
                    Some(p) => Some(p as nat),
                    None => None,
                },
                entries(old(acc)@),
            ),
        decreases self@.nodes.len() - i, self@.nodes[i as int].children.len() + 1,
    {
        let id = acc.len();
        let ghost before = entries(acc@);
        acc.push(ReaderTuple(id, parent, self.nodes[i].value.clone()));
        assert(entries(acc@) =~= before.push(
            ReaderEntry {
                id: id as nat,
                parent: match parent {
                    Some(p) => Some(p as nat),
                    None => None,
                },
                value: self@.nodes[i as int].value,
            },
        ));
        self.read_children(i, 0, id, acc);
    }

    fn read_children(&self, i: usize, j: usize, id: usize, acc: &mut Vec<ReaderTuple>)
        requires
            i < self@.nodes.len(),
            j <= self@.nodes[i as int].children.len(),
        ensures
            entries(final(acc)@) == read_children(
                self@.nodes,
                i as int,
                j as int,
                id as nat,
                entries(old(acc)@),
            ),
        decreases self@.nodes.len() - i, self@.nodes[i as int].children.len() - j,
    {
        proof {
            use_type_invariant(self);
        }
        if j < self.nodes[i].children.len() {
            let c = self.nodes[i].children[j];
            proof {
                assert(child_ok(self@.nodes, i as int, j as int));
            }
            self.read_node(c, Some(id), acc);
            self.read_children(i, j + 1, id, acc);
        }
    }

    /// Reads the subtree of the node pointed at in preorder: each node with
    /// its number, which is its place in the reading, and the number of its
    /// parent.
    pub fn preorder_read(&self) -> (r: Vec<ReaderTuple>)
        ensures
            entries(r@) == self@.preorder(),
    {
        proof {
            use_type_invariant(self);
        }
        let mut acc: Vec<ReaderTuple> = Vec::new();
        assert(entries(acc@) =~= Seq::<ReaderEntry>::empty());
        self.read_node(self.at, None, &mut acc);
        acc
    }
}

/// An item of the intermediate representation: a tree and what it stands
/// for.
#[derive(Debug, PartialEq)]
pub enum IrElements {
    TypeDeclaration(TreeNode),
    TypeExpression(TreeNode),
    RawText(TreeNode),
}

/// The mathematical value of an item of the intermediate representation.
pub ghost enum IrModel {
    TypeDeclaration(TreeModel),
    TypeExpression(TreeModel),
    RawText(TreeModel),
}

impl IrModel {
    /// The tree of the item.
    pub open spec fn tree(self) -> TreeModel {
        match self {
            IrModel::TypeDeclaration(t) => t,
            IrModel::TypeExpression(t) => t,
            IrModel::RawText(t) => t,
        }
    }
}

impl View for IrElements {
    type V = IrModel;

    open spec fn view(&self) -> IrModel {
        match self {
            IrElements::TypeDeclaration(t) => IrModel::TypeDeclaration(t@),
            IrElements::TypeExpression(t) => IrModel::TypeExpression(t@),
            IrElements::RawText(t) => IrModel::RawText(t@),
        }
    }
}

/// The values of a sequence of items.
pub open spec fn items(s: Seq<IrElements>) -> Seq<IrModel> {
    Seq::new(s.len(), |i: int| s[i]@)
}

impl IrElements {
    /// The tree of the item, borrowed.
    pub fn tree(&self) -> (r: &TreeNode)
        ensures
            r@ == self@.tree(),
    {
        match self {
            IrElements::TypeDeclaration(t) => t,
            IrElements::TypeExpression(t) => t,
            IrElements::RawText(t) => t,
        }
    }

    /// Describes the root of the item.
    pub fn print(&self) -> (r: String)
        ensures
            r@ == self@.tree().describe(),
    {
        match self {
            IrElements::TypeDeclaration(t) => t.print(),
            IrElements::TypeExpression(t) => t.print(),
            IrElements::RawText(t) => t.print(),
        }
    }

    /// Describes the children of the root of the item, each followed by its
    /// own children.
    pub fn print_kin(&self) -> (r: Vec<String>)
        ensures
            strings(r@) == self@.tree().describe_kin(),
    {
        match self {
            IrElements::TypeDeclaration(t) => t.print_kin(),
            IrElements::TypeExpression(t) => t.print_kin(),
            IrElements::RawText(t) => t.print_kin(),
        }
    }

    /// The tree of the item.
    pub fn unwrap(self) -> (r: Option<TreeNode>)
        ensures
            r is Some,
            r->0@ == self@.tree(),
            r->0@.wf(),
    {
        match self {
            IrElements::TypeDeclaration(t) => {
                proof {
                    use_type_invariant(&t);
                }
                Some(t)
            },
            IrElements::TypeExpression(t) => {
                proof {
                    use_type_invariant(&t);
                }
                Some(t)
            },
            IrElements::RawText(t) => {
                proof {
                    use_type_invariant(&t);
                }
                Some(t)
            },
        }
    }
}

} // verus!
