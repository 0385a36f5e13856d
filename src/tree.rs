//! Syntax trees as plain data, their nodes, and cursors that walk them.
use crate::language::{Point, Range};
use crate::text::str_from_utf8;
use vstd::prelude::*;
use vstd::slice::slice_subrange;
use vstd::utf8::{decode_utf8, valid_utf8};

verus! {

/// One node of a tree: its kind, the field it fills in its parent, its span
/// of text, and the positions of its children in the tree's node list.
pub struct NodeData {
    pub kind_id: u16,
    pub field_id: Option<u16>,
    pub start_byte: usize,
    pub end_byte: usize,
    pub start_position: Point,
    pub end_position: Point,
    pub children: Vec<usize>,
}

/// A syntax tree whose nodes are kept in a list; the first node is the root,
/// and each node lists the positions of its children.
pub struct Tree {
    nodes: Vec<NodeData>,
}

/// Whether a list of nodes can be walked from its first node: there is a
/// first node, every child reference is in range and every span is ordered.
/// Shared children and cycles are not ruled out; a cursor only follows child
/// links, so every path it takes stays within the list.
pub open spec fn nodes_wf(nodes: Seq<NodeData>) -> bool {
    &&& nodes.len() > 0
    &&& forall|i: int| 0 <= i < nodes.len() ==> #[trigger] nodes[i].start_byte <= nodes[i].end_byte
    &&& forall|i: int, j: int|
        0 <= i < nodes.len() && 0 <= j < nodes[i].children@.len() ==> #[trigger] nodes[i].children@[j]
            < nodes.len()
}

/// Whether every node's span lies within a text of `len` bytes.
pub open spec fn spans_within(nodes: Seq<NodeData>, len: nat) -> bool {
    forall|i: int| 0 <= i < nodes.len() ==> #[trigger] nodes[i].end_byte <= len
}

impl Tree {
    pub closed spec fn nodes(&self) -> Seq<NodeData> {
        self.nodes@
    }

    pub open spec fn wf(&self) -> bool {
        nodes_wf(self.nodes())
    }

    /// The tree made of the given nodes, or `None` when the list is empty, a
    /// child reference is out of range or a span ends before it starts.
    pub fn new(nodes: Vec<NodeData>) -> (r: Option<Tree>)
        ensures
            r is Some <==> nodes_wf(nodes@),
            r matches Some(t) ==> t.nodes() == nodes@,
    {
        if nodes.len() == 0 {
            return None;
        }
        let mut i: usize = 0;
        while i < nodes.len()
            invariant
                i <= nodes@.len(),
                forall|a: int| 0 <= a < i ==> #[trigger] nodes@[a].start_byte <= nodes@[a].end_byte,
                forall|a: int, b: int|
                    0 <= a < i && 0 <= b < nodes@[a].children@.len() ==> #[trigger] nodes@[a].children@[b]
                        < nodes@.len(),
            decreases nodes@.len() - i,
        {
            if nodes[i].start_byte > nodes[i].end_byte {
                return None;
            }
            let mut j: usize = 0;
            while j < nodes[i].children.len()
                invariant
                    i < nodes@.len(),
                    j <= nodes@[i as int].children@.len(),
                    forall|b: int| 0 <= b < j ==> #[trigger] nodes@[i as int].children@[b] < nodes@.len(),
                decreases nodes@[i as int].children@.len() - j,
            {
                if nodes[i].children[j] >= nodes.len() {
                    return None;
                }
                j += 1;
            }
            i += 1;
        }
        Some(Tree { nodes })
    }

    pub fn root_node(&self) -> (r: Node<'_>)
        requires
            self.wf(),
        ensures
            r.tree() == *self,
            r.id() == 0,
    {
        Node { tree: self, id: 0 }
    }

    pub fn walk(&self) -> (r: TreeCursor<'_>)
        requires
            self.wf(),
        ensures
            r.wf(),
            r.tree() == *self,
            r.path() == seq![(0usize, 0usize)],
    {
        self.root_node().walk()
    }
}

/// A node of a tree, by its position in the tree's node list.
#[derive(Clone, Copy)]
pub struct Node<'a> {
    tree: &'a Tree,
    id: usize,
}

impl<'a> Node<'a> {
    #[verifier::type_invariant]
    spec fn inv(&self) -> bool {
        self.tree.wf() && self.id < self.tree.nodes@.len()
    }

    pub closed spec fn tree(&self) -> Tree {
        *self.tree
    }

    pub closed spec fn id(&self) -> nat {
        self.id as nat
    }

    pub open spec fn data(&self) -> NodeData {
        self.tree().nodes()[self.id() as int]
    }

    /// The node at position `id` of the tree, if there is one.
    pub fn new(tree: &'a Tree, id: usize) -> (r: Option<Node<'a>>)
        requires
            tree.wf(),
        ensures
            r is Some <==> id < tree.nodes().len(),
            r matches Some(n) ==> n.tree() == *tree && n.id() == id,
    {
        if id < tree.nodes.len() {
            Some(Node { tree, id })
        } else {
            None
        }
    }

    pub fn kind_id(&self) -> (r: u16)
        ensures
            r == self.data().kind_id,
    {
        proof {
            use_type_invariant(self);
        }
        self.tree.nodes[self.id].kind_id
    }

    /// Whether this node stands for a syntax error: its kind id is the largest one.
    pub fn is_error(&self) -> (r: bool)
        ensures
            r == (self.data().kind_id == u16::MAX),
    {
        self.kind_id() == u16::MAX
    }

    pub fn start_byte(&self) -> (r: usize)
        ensures
            r == self.data().start_byte,
    {
        proof {
            use_type_invariant(self);
        }
        self.tree.nodes[self.id].start_byte
    }

    pub fn end_byte(&self) -> (r: usize)
        ensures
            r == self.data().end_byte,
            self.data().start_byte <= r,
    {
        proof {
            use_type_invariant(self);
        }
        self.tree.nodes[self.id].end_byte
    }

    pub fn byte_range(&self) -> (r: core::ops::Range<usize>)
        ensures
            r.start == self.data().start_byte,
            r.end == self.data().end_byte,
    {
        core::ops::Range { start: self.start_byte(), end: self.end_byte() }
    }

    pub fn start_position(&self) -> (r: Point)
        ensures
            r == self.data().start_position,
    {
        proof {
            use_type_invariant(self);
        }
        self.tree.nodes[self.id].start_position
    }

    pub fn end_position(&self) -> (r: Point)
        ensures
            r == self.data().end_position,
    {
        proof {
            use_type_invariant(self);
        }
        self.tree.nodes[self.id].end_position
    }

    pub fn range(&self) -> (r: Range)
        ensures
            r.start_byte == self.data().start_byte,
            r.end_byte == self.data().end_byte,
            r.start_point == self.data().start_position,
            r.end_point == self.data().end_position,
    {
        Range {
            start_byte: self.start_byte(),
            end_byte: self.end_byte(),
            start_point: self.start_position(),
            end_point: self.end_position(),
        }
    }

    pub fn child_count(&self) -> (r: usize)
        ensures
            r == self.data().children@.len(),
    {
        proof {
            use_type_invariant(self);
        }
        self.tree.nodes[self.id].children.len()
    }

    /// The child at position `i` among this node's children, if there is one.
    pub fn child(&self, i: usize) -> (r: Option<Node<'a>>)
        ensures
            r is Some <==> i < self.data().children@.len(),
            r matches Some(c) ==> c.tree() == self.tree() && c.id() == self.data().children@[i as int],
    {
        proof {
            use_type_invariant(self);
        }
        if i < self.tree.nodes[self.id].children.len() {
            let id = self.tree.nodes[self.id].children[i];
            Some(Node { tree: self.tree, id })
        } else {
            None
        }
    }

    /// All children of this node, in order.
    pub fn children(&self) -> (r: Vec<Node<'a>>)
        ensures
            r@.len() == self.data().children@.len(),
            forall|i: int|
                0 <= i < r@.len() ==> (#[trigger] r@[i]).tree() == self.tree() && r@[i].id()
                    == self.data().children@[i],
    {
        let count = self.child_count();
        let mut result: Vec<Node<'a>> = Vec::new();
        let mut i: usize = 0;
        while i < count
            invariant
                count == self.data().children@.len(),
                i <= count,
                result@.len() == i,
                forall|j: int|
                    0 <= j < i ==> (#[trigger] result@[j]).tree() == self.tree() && result@[j].id()
                        == self.data().children@[j],
            decreases count - i,
        {
            match self.child(i) {
                Some(c) => result.push(c),
                None => {},
            }
            i += 1;
        }
        result
    }

    /// This node's text, decoded from `source` as UTF-8.
    pub fn utf8_text<'s>(&self, source: &'s [u8]) -> (r: Result<&'s str, core::str::Utf8Error>)
        requires
            self.data().end_byte <= source@.len(),
        ensures
            r is Ok <==> valid_utf8(
                source@.subrange(self.data().start_byte as int, self.data().end_byte as int),
            ),
            r matches Ok(s) ==> s@ == decode_utf8(
                source@.subrange(self.data().start_byte as int, self.data().end_byte as int),
            ),
    {
        let start = self.start_byte();
        let end = self.end_byte();
        str_from_utf8(slice_subrange(source, start, end))
    }

    /// The code units of `source` within this node's span.
    pub fn utf16_text<'s>(&self, source: &'s [u16]) -> (r: &'s [u16])
        requires
            self.data().end_byte <= source@.len(),
        ensures
            r@ == source@.subrange(self.data().start_byte as int, self.data().end_byte as int),
    {
        let start = self.start_byte();
        let end = self.end_byte();
        slice_subrange(source, start, end)
    }

    /// A cursor that starts at this node.
    pub fn walk(&self) -> (r: TreeCursor<'a>)
        ensures
            r.wf(),
            r.tree() == self.tree(),
            r.path() == seq![(self.id() as usize, 0usize)],
    {
        proof {
            use_type_invariant(self);
        }
        TreeCursor { tree: self.tree, path: vec![(self.id, 0)] }
    }
}

/// A cursor over a tree. It holds the path from the node it started at down
/// to the current node: each entry is a node's position in the tree and its
/// index among its parent's children.
pub struct TreeCursor<'a> {
    tree: &'a Tree,
    path: Vec<(usize, usize)>,
}

/// Whether `path` leads from its first node down to its last through child links.
pub open spec fn path_wf(nodes: Seq<NodeData>, path: Seq<(usize, usize)>) -> bool {
    &&& path.len() > 0
    &&& forall|k: int| 0 <= k < path.len() ==> (#[trigger] path[k]).0 < nodes.len()
    &&& forall|k: int|
        0 < k < path.len() ==> {
            let parent = nodes[path[k - 1].0 as int];
            &&& (#[trigger] path[k]).1 < parent.children@.len()
            &&& parent.children@[path[k].1 as int] == path[k].0
        }
}

impl<'a> TreeCursor<'a> {
    pub open spec fn wf(&self) -> bool {
        self.tree().wf() && path_wf(self.tree().nodes(), self.path())
    }

    pub closed spec fn tree(&self) -> Tree {
        *self.tree
    }

    pub closed spec fn path(&self) -> Seq<(usize, usize)> {
        self.path@
    }

    /// The data of the node the cursor is on.
    pub open spec fn current(&self) -> NodeData {
        self.tree().nodes()[self.path().last().0 as int]
    }

    /// The field the current node fills in its parent; none at the start node.
    pub open spec fn spec_field_id(&self) -> Option<u16> {
        if self.path().len() > 1 {
            self.current().field_id
        } else {
            None
        }
    }

    pub fn node(&self) -> (r: Node<'a>)
        requires
            self.wf(),
        ensures
            r.tree() == self.tree(),
            r.id() == self.path().last().0,
            self.tree().wf(),
            path_wf(self.tree().nodes(), self.path()),
    {
        let last = self.path.len() - 1;
        Node { tree: self.tree, id: self.path[last].0 }
    }

    pub fn field_id(&self) -> (r: Option<u16>)
        requires
            self.wf(),
        ensures
            r == self.spec_field_id(),
    {
        if self.path.len() > 1 {
            let last = self.path.len() - 1;
            self.tree.nodes[self.path[last].0].field_id
        } else {
            None
        }
    }

    pub fn goto_first_child(&mut self) -> (r: bool)
        requires
            old(self).wf(),
        ensures
            final(self).wf(),
            final(self).tree() == old(self).tree(),
            r == (old(self).current().children@.len() > 0),
            r ==> final(self).path() == old(self).path().push(
                (old(self).current().children@[0], 0usize),
            ),
            !r ==> final(self).path() == old(self).path(),
    {
        let last = self.path.len() - 1;
        let id = self.path[last].0;
        if self.tree.nodes[id].children.len() > 0 {
            let child = self.tree.nodes[id].children[0];
            self.path.push((child, 0));
            true
        } else {
            false
        }
    }

    pub fn goto_next_sibling(&mut self) -> (r: bool)
        requires
            old(self).wf(),
        ensures
            final(self).wf(),
            final(self).tree() == old(self).tree(),
            r == (old(self).path().len() > 1 && old(self).path().last().1 + 1 < old(
                self,
            ).tree().nodes()[old(self).path()[old(self).path().len() - 2].0 as int].children@.len()),
            r ==> final(self).path() == old(self).path().drop_last().push(
                (
                    old(self).tree().nodes()[old(self).path()[old(self).path().len()
                        - 2].0 as int].children@[old(self).path().last().1 + 1],
                    (old(self).path().last().1 + 1) as usize,
                ),
            ),
            r ==> old(self).path().last().1 < usize::MAX,
            !r ==> final(self).path() == old(self).path(),
    {
        let len = self.path.len();
        if len < 2 {
            return false;
        }
        let parent = self.path[len - 2].0;
        let index = self.path[len - 1].1;
        assert(self.path@[len - 1].1 < self.tree().nodes()[parent as int].children@.len());
        let count = self.tree.nodes[parent].children.len();
        if index + 1 < count {
            let sibling = self.tree.nodes[parent].children[index + 1];
            self.path.pop();
            self.path.push((sibling, index + 1));
            true
        } else {
            false
        }
    }

    pub fn goto_parent(&mut self) -> (r: bool)
        requires
            old(self).wf(),
        ensures
            final(self).wf(),
            final(self).tree() == old(self).tree(),
            r == (old(self).path().len() > 1),
            r ==> final(self).path() == old(self).path().drop_last(),
            !r ==> final(self).path() == old(self).path(),
    {
        if self.path.len() > 1 {
            self.path.pop();
            true
        } else {
            false
        }
    }

    /// Moves the cursor to `node`, which becomes its start node.
    pub fn reset(&mut self, node: Node<'a>)
        ensures
            final(self).wf(),
            final(self).tree() == node.tree(),
            final(self).path() == seq![(node.id() as usize, 0usize)],
    {
        proof {
            use_type_invariant(&node);
        }
        self.tree = node.tree;
        self.path = vec![(node.id, 0)];
    }
}

} // verus!
