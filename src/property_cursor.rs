//! A cursor that walks a tree while running a property sheet's state machine,
//! so that each node it visits gets the property set of the state it reaches.
use crate::property_sheet::{lemma_lookup_ok, transition_ok, transitions_ok, PropertySheet, PropertyTransition};
use crate::text::{regex_search, str_from_utf8};
use crate::tree::{path_wf, spans_within, Node, NodeData, Tree, TreeCursor};
use vstd::prelude::*;
use vstd::slice::slice_subrange;
use vstd::utf8::{decode_utf8, valid_utf8};

verus! {

/// The bytes of `source` that a node spans.
pub open spec fn node_text(source: Seq<u8>, n: NodeData) -> Seq<u8> {
    source.subrange(n.start_byte as int, n.end_byte as int)
}

/// Whether a transition applies to a node of kind `kind` that is child number
/// `child_index` of its parent and has the text `text`. A regex condition
/// never holds of a text that is not valid UTF-8.
pub open spec fn transition_accepts(
    t: PropertyTransition,
    patterns: Seq<Seq<char>>,
    kind: u16,
    child_index: usize,
    text: Seq<u8>,
) -> bool {
    &&& t.node_kind_id matches Some(k) ==> k == kind
    &&& t.text_regex_index matches Some(r) ==> valid_utf8(text) && regex_search(
        patterns[r as int],
        decode_utf8(text),
    )
    &&& t.child_index matches Some(c) ==> c == child_index
}

/// The target of the first transition in `ts` that applies.
pub open spec fn first_accepted(
    ts: Seq<PropertyTransition>,
    patterns: Seq<Seq<char>>,
    kind: u16,
    child_index: usize,
    text: Seq<u8>,
) -> Option<usize>
    decreases ts.len(),
{
    if ts.len() == 0 {
        None
    } else if transition_accepts(ts[0], patterns, kind, child_index, text) {
        Some(ts[0].state_id)
    } else {
        first_accepted(ts.drop_first(), patterns, kind, child_index, text)
    }
}

/// The state reached from state `s` at a node: the first transition of `s`
/// that applies, else the first of state 0 that applies, else the default
/// next state of `s`.
pub open spec fn next_state_spec<P>(
    sheet: PropertySheet<P>,
    s: usize,
    field: Option<u16>,
    kind: u16,
    child_index: usize,
    text: Seq<u8>,
) -> usize {
    let state = sheet.states()[s as int];
    let patterns = sheet.patterns();
    match first_accepted(state.spec_lookup(field, kind), patterns, kind, child_index, text) {
        Some(id) => id,
        None => if s == 0 {
            state.spec_default_next_state_id()
        } else {
            match first_accepted(
                sheet.states()[0].spec_lookup(field, kind),
                patterns,
                kind,
                child_index,
                text,
            ) {
                Some(id) => id,
                None => state.spec_default_next_state_id(),
            }
        },
    }
}

/// The field a node on a cursor's path fills, as the cursor reports it there.
pub open spec fn field_on_path(nodes: Seq<NodeData>, path: Seq<(usize, usize)>, k: int) -> Option<u16> {
    if k > 0 {
        nodes[path[k].0 as int].field_id
    } else {
        None
    }
}

/// Whether `states` are the states a sheet reaches along `path`: entry 0 is
/// state 0, and each next entry is the state reached from the one before at
/// the node of that depth, which is child number `child_indices[k]`.
#[verifier::opaque]
pub open spec fn states_along<P>(
    sheet: PropertySheet<P>,
    nodes: Seq<NodeData>,
    source: Seq<u8>,
    path: Seq<(usize, usize)>,
    states: Seq<usize>,
    child_indices: Seq<usize>,
) -> bool {
    &&& states.len() == path.len() + 1
    &&& child_indices.len() == path.len()
    &&& states[0] == 0
    &&& forall|k: int| 0 <= k < path.len() ==> #[trigger] child_indices[k] == path[k].1
    &&& forall|k: int|
        0 <= k < path.len() ==> #[trigger] states[k + 1] == next_state_spec(
            sheet,
            states[k],
            field_on_path(nodes, path, k),
            nodes[path[k].0 as int].kind_id,
            child_indices[k],
            node_text(source, nodes[path[k].0 as int]),
        )
}

/// A tree cursor that also tracks the property sheet's state at each depth.
pub struct TreePropertyCursor<'a, P> {
    cursor: TreeCursor<'a>,
    state_stack: Vec<usize>,
    child_index_stack: Vec<usize>,
    property_sheet: &'a PropertySheet<P>,
    source: &'a [u8],
}

impl<'a, P> TreePropertyCursor<'a, P> {
    pub closed spec fn sheet(&self) -> PropertySheet<P> {
        *self.property_sheet
    }

    pub closed spec fn tree(&self) -> Tree {
        self.cursor.tree()
    }

    pub closed spec fn path(&self) -> Seq<(usize, usize)> {
        self.cursor.path()
    }

    pub closed spec fn spec_source(&self) -> Seq<u8> {
        self.source@
    }

    /// The active states: state 0, then one per depth from the start node down.
    pub closed spec fn state_stack(&self) -> Seq<usize> {
        self.state_stack@
    }

    /// Each node's index among its siblings, from the start node down.
    pub closed spec fn child_index_stack(&self) -> Seq<usize> {
        self.child_index_stack@
    }

    #[verifier::opaque]
    pub closed spec fn wf(&self) -> bool {
        &&& self.cursor.wf()
        &&& self.property_sheet.wf()
        &&& spans_within(self.tree().nodes(), self.source@.len())
        &&& self.state_stack@.len() == self.path().len() + 1
        &&& self.child_index_stack@.len() == self.path().len()
        &&& forall|k: int| 0 <= k < self.state_stack@.len() ==> #[trigger] self.state_stack@[k]
            < self.sheet().states().len()
        &&& states_along(
            self.sheet(),
            self.tree().nodes(),
            self.source@,
            self.path(),
            self.state_stack@,
            self.child_index_stack@,
        )
    }

    proof fn lemma_wf_parts(&self)
        requires
            self.wf(),
        ensures
            self.cursor.wf(),
            self.property_sheet.wf(),
            spans_within(self.tree().nodes(), self.source@.len()),
            self.state_stack@.len() == self.path().len() + 1,
            self.child_index_stack@.len() == self.path().len(),
            forall|k: int| 0 <= k < self.state_stack@.len() ==> #[trigger] self.state_stack@[k]
                < self.sheet().states().len(),
            forall|k: int| 0 <= k < self.path().len() ==> #[trigger] self.child_index_stack@[k] == self.path()[k].1,
            states_along(
                self.sheet(),
                self.tree().nodes(),
                self.source@,
                self.path(),
                self.state_stack@,
                self.child_index_stack@,
            ),
    {
        reveal(TreePropertyCursor::wf);
        reveal(states_along);
    }

    /// The stacks match the path: it is never empty, the state stack holds
    /// state 0 and one state per node on the path, and the child-index stack
    /// one index per node on the path.
    pub open spec fn shape_ok(&self) -> bool {
        &&& self.path().len() >= 1
        &&& self.state_stack().len() == self.path().len() + 1
        &&& self.child_index_stack().len() == self.path().len()
        &&& self.state_stack()[0] == 0
        &&& forall|k: int|
            0 <= k < self.path().len() ==> #[trigger] self.child_index_stack()[k] == self.path()[k].1
        &&& forall|k: int|
            0 <= k < self.state_stack().len() ==> #[trigger] self.state_stack()[k]
                < self.sheet().states().len()
    }

    /// A well-formed cursor's stacks match its path.
    pub proof fn lemma_wf_shape(&self)
        requires
            self.wf(),
        ensures
            self.shape_ok(),
            self.sheet().wf(),
            self.tree().wf(),
            path_wf(self.tree().nodes(), self.path()),
            spans_within(self.tree().nodes(), self.spec_source().len()),
    {
        self.lemma_wf_parts();
        reveal(states_along);
    }

    /// The data of the node the cursor is on.
    pub open spec fn current(&self) -> NodeData {
        self.tree().nodes()[self.path().last().0 as int]
    }

    /// A cursor on the root of `tree`, in the state reached from state 0 there.
    pub fn new(tree: &'a Tree, property_sheet: &'a PropertySheet<P>, source: &'a [u8]) -> (r: Self)
        requires
            tree.wf(),
            property_sheet.wf(),
            spans_within(tree.nodes(), source@.len()),
        ensures
            r.wf(),
            r.shape_ok(),
            r.sheet() == *property_sheet,
            r.tree() == *tree,
            r.spec_source() == source@,
            r.path() == seq![(0usize, 0usize)],
            r.child_index_stack() == seq![0usize],
            r.state_stack() == seq![
                0usize,
                next_state_spec(
                    *property_sheet,
                    0,
                    None,
                    tree.nodes()[0].kind_id,
                    0,
                    node_text(source@, tree.nodes()[0]),
                ),
            ],
    {
        let mut result = TreePropertyCursor {
            cursor: tree.walk(),
            child_index_stack: vec![0],
            state_stack: vec![0],
            property_sheet,
            source,
        };
        let state = result.resolve_state(0);
        result.state_stack.push(state);
        assert(result.state_stack@ =~= seq![0usize, state]);
        proof {
            reveal(states_along);
            reveal(TreePropertyCursor::wf);
            result.lemma_wf_shape();
        }
        result
    }

    pub fn node(&self) -> (r: Node<'a>)
        requires
            self.wf(),
        ensures
            r.tree() == self.tree(),
            r.id() == self.path().last().0,
    {
        proof {
            self.lemma_wf_parts();
        }
        self.cursor.node()
    }

    /// The property set of the current state.
    pub fn node_properties(&self) -> (r: &'a P)
        requires
            self.wf(),
        ensures
            *r == self.sheet().property_sets()[self.sheet().states()[self.state_stack().last() as int].spec_property_set_id() as int],
    {
        proof {
            self.lemma_wf_parts();
        }
        let sheet: &'a PropertySheet<P> = self.property_sheet;
        let s = self.state_stack[self.state_stack.len() - 1];
        assert(self.state_stack@[self.state_stack@.len() - 1] < self.sheet().states().len());
        let id = sheet.state(s).property_set_id();
        sheet.property_set(id)
    }

    pub fn source(&self) -> (r: &'a [u8])
        ensures
            r@ == self.spec_source(),
    {
        self.source
    }

    /// Moves to the first child of the current node, if it has one, and
    /// pushes the state reached there from the current state.
    pub fn goto_first_child(&mut self) -> (r: bool)
        requires
            old(self).wf(),
        ensures
            final(self).wf(),
            old(self).shape_ok(),
            final(self).shape_ok(),
            final(self).sheet() == old(self).sheet(),
            final(self).tree() == old(self).tree(),
            final(self).spec_source() == old(self).spec_source(),
            r == (old(self).current().children@.len() > 0),
            r ==> final(self).path() == old(self).path().push((old(self).current().children@[0], 0usize)),
            r ==> final(self).child_index_stack() == old(self).child_index_stack().push(0),
            r ==> final(self).state_stack() == old(self).state_stack().push(
                next_state_spec(
                    old(self).sheet(),
                    old(self).state_stack().last(),
                    final(self).tree().nodes()[final(self).path().last().0 as int].field_id,
                    final(self).current().kind_id,
                    0,
                    node_text(old(self).spec_source(), final(self).current()),
                ),
            ),
            !r ==> final(self).path() == old(self).path(),
            !r ==> final(self).state_stack() == old(self).state_stack(),
            !r ==> final(self).child_index_stack() == old(self).child_index_stack(),
    {
        let ghost old_self = *self;
        proof {
            self.lemma_wf_parts();
            self.lemma_wf_shape();
        }
        if self.cursor.goto_first_child() {
            let next_state_id = self.resolve_state(0);
            self.state_stack.push(next_state_id);
            self.child_index_stack.push(0);
            proof {
                self.lemma_push_keeps_states_along(old_self);
            }
            proof {
                self.lemma_wf_shape();
            }
            true
        } else {
            proof {
                self.lemma_same_views(old_self);
            }
            proof {
                self.lemma_wf_shape();
            }
            false
        }
    }

    /// Moves to the next sibling of the current node, if it has one, and
    /// replaces the current state by the one reached there from the parent's state.
    pub fn goto_next_sibling(&mut self) -> (r: bool)
        requires
            old(self).wf(),
        ensures
            final(self).wf(),
            old(self).shape_ok(),
            final(self).shape_ok(),
            final(self).sheet() == old(self).sheet(),
            final(self).tree() == old(self).tree(),
            final(self).spec_source() == old(self).spec_source(),
            r == (old(self).path().len() > 1 && old(self).path().last().1 + 1 < old(
                self,
            ).tree().nodes()[old(self).path()[old(self).path().len() - 2].0 as int].children@.len()),
            r ==> final(self).path().len() == old(self).path().len(),
            r ==> final(self).path().drop_last() == old(self).path().drop_last(),
            r ==> final(self).path().last() == (
                old(self).tree().nodes()[old(self).path()[old(self).path().len() - 2].0 as int].children@[old(self).path().last().1 + 1],
                (old(self).path().last().1 + 1) as usize,
            ),
            r ==> final(self).child_index_stack() == old(self).child_index_stack().drop_last().push(
                (old(self).child_index_stack().last() + 1) as usize,
            ),
            r ==> final(self).state_stack() == old(self).state_stack().drop_last().push(
                next_state_spec(
                    old(self).sheet(),
                    old(self).state_stack()[old(self).state_stack().len() - 2],
                    final(self).current().field_id,
                    final(self).current().kind_id,
                    (old(self).child_index_stack().last() + 1) as usize,
                    node_text(old(self).spec_source(), final(self).current()),
                ),
            ),
            !r ==> final(self).path() == old(self).path(),
            !r ==> final(self).state_stack() == old(self).state_stack(),
            !r ==> final(self).child_index_stack() == old(self).child_index_stack(),
    {
        let ghost old_self = *self;
        proof {
            self.lemma_wf_parts();
            self.lemma_wf_shape();
        }
        if self.cursor.goto_next_sibling() {
            let child_index = self.child_index_stack.pop().unwrap() + 1;
            self.state_stack.pop();
            let next_state_id = self.resolve_state(child_index);
            self.state_stack.push(next_state_id);
            self.child_index_stack.push(child_index);
            proof {
                self.lemma_push_keeps_states_along(old_self);
            }
            proof {
                self.lemma_wf_shape();
            }
            true
        } else {
            proof {
                self.lemma_same_views(old_self);
            }
            proof {
                self.lemma_wf_shape();
            }
            false
        }
    }

    /// Moves to the parent of the current node, unless the cursor is on its
    /// start node, and pops the current state.
    pub fn goto_parent(&mut self) -> (r: bool)
        requires
            old(self).wf(),
        ensures
            final(self).wf(),
            old(self).shape_ok(),
            final(self).shape_ok(),
            final(self).sheet() == old(self).sheet(),
            final(self).tree() == old(self).tree(),
            final(self).spec_source() == old(self).spec_source(),
            r == (old(self).path().len() > 1),
            r ==> final(self).path() == old(self).path().drop_last(),
            r ==> final(self).state_stack() == old(self).state_stack().drop_last(),
            r ==> final(self).child_index_stack() == old(self).child_index_stack().drop_last(),
            !r ==> final(self).path() == old(self).path(),
            !r ==> final(self).state_stack() == old(self).state_stack(),
            !r ==> final(self).child_index_stack() == old(self).child_index_stack(),
    {
        let ghost old_self = *self;
        proof {
            self.lemma_wf_parts();
            self.lemma_wf_shape();
        }
        if self.cursor.goto_parent() {
            self.state_stack.pop();
            self.child_index_stack.pop();
            proof {
                self.lemma_pop_keeps_states_along(old_self);
            }
            proof {
                self.lemma_wf_shape();
            }
            true
        } else {
            proof {
                self.lemma_same_views(old_self);
            }
            proof {
                self.lemma_wf_shape();
            }
            false
        }
    }

    /// After the cursor moved up one level and both stacks were popped, the
    /// stacks still follow the path.
    proof fn lemma_pop_keeps_states_along(&self, old_self: Self)
        requires
            old_self.wf(),
            self.cursor.wf(),
            self.property_sheet == old_self.property_sheet,
            self.tree() == old_self.tree(),
            self.source@ == old_self.source@,
            old_self.path().len() > 1,
            self.path() == old_self.path().drop_last(),
            self.state_stack@ == old_self.state_stack@.drop_last(),
            self.child_index_stack@ == old_self.child_index_stack@.drop_last(),
        ensures
            self.wf(),
    {
        reveal(states_along);
        reveal(TreePropertyCursor::wf);
        let s = *self;
        assert forall|k: int| 0 <= k < s.path().len() implies #[trigger] s.state_stack@[k + 1] == next_state_spec(
            s.sheet(),
            s.state_stack@[k],
            field_on_path(s.tree().nodes(), s.path(), k),
            s.tree().nodes()[s.path()[k].0 as int].kind_id,
            s.child_index_stack@[k],
            node_text(s.source@, s.tree().nodes()[s.path()[k].0 as int]),
        ) by {
            assert(old_self.state_stack@[k + 1] == next_state_spec(
                old_self.sheet(),
                old_self.state_stack@[k],
                field_on_path(old_self.tree().nodes(), old_self.path(), k),
                old_self.tree().nodes()[old_self.path()[k].0 as int].kind_id,
                old_self.child_index_stack@[k],
                node_text(old_self.source@, old_self.tree().nodes()[old_self.path()[k].0 as int]),
            ));
        }
        assert forall|k: int| 0 <= k < s.path().len() implies #[trigger] s.child_index_stack@[k] == s.path()[k].1 by {
            assert(old_self.child_index_stack@[k] == old_self.path()[k].1);
        }
        assert forall|k: int| 0 <= k < s.state_stack@.len() implies #[trigger] s.state_stack@[k]
            < s.sheet().states().len() by {
            assert(old_self.state_stack@[k] < old_self.sheet().states().len());
        }
    }

    /// After the cursor moved to a node one level below the top of
    /// `state_stack` in `old_self`, and the state reached there was pushed,
    /// the stacks still follow the path.
    proof fn lemma_push_keeps_states_along(&self, old_self: Self)
        requires
            old_self.wf(),
            self.cursor.wf(),
            self.property_sheet.wf(),
            self.sheet() == old_self.sheet(),
            self.tree() == old_self.tree(),
            self.source@ == old_self.source@,
            spans_within(self.tree().nodes(), self.source@.len()),
            self.path().len() >= 1,
            self.path().len() <= old_self.path().len() + 1,
            self.state_stack@.len() == self.path().len() + 1,
            self.child_index_stack@.len() == self.path().len(),
            forall|k: int| 0 <= k < self.path().len() - 1 ==> #[trigger] self.path()[k] == old_self.path()[k],
            forall|k: int| 0 <= k < self.path().len() ==> #[trigger] self.state_stack@[k] == old_self.state_stack@[k],
            forall|k: int| 0 <= k < self.path().len() - 1 ==> #[trigger] self.child_index_stack@[k] == old_self.child_index_stack@[k],
            self.child_index_stack@.last() == self.path().last().1,
            self.state_stack@.last() < self.sheet().states().len(),
            self.state_stack@.last() == next_state_spec(
                self.sheet(),
                self.state_stack@[self.path().len() - 1],
                field_on_path(self.tree().nodes(), self.path(), self.path().len() - 1),
                self.tree().nodes()[self.path().last().0 as int].kind_id,
                self.child_index_stack@.last(),
                node_text(self.source@, self.tree().nodes()[self.path().last().0 as int]),
            ),
        ensures
            self.wf(),
    {
        reveal(states_along);
        reveal(TreePropertyCursor::wf);
        let n = self.path().len();
        assert forall|k: int| 0 <= k < self.state_stack@.len() implies #[trigger] self.state_stack@[k]
            < self.sheet().states().len() by {
            if k < n {
                assert(self.state_stack@[k] == old_self.state_stack@[k]);
                assert(old_self.state_stack@[k] < old_self.sheet().states().len());
            }
        }
        assert(self.state_stack@[0] == old_self.state_stack@[0]);
        assert forall|k: int| 0 <= k < n implies #[trigger] self.child_index_stack@[k] == self.path()[k].1 by {
            if k < n - 1 {
                assert(self.child_index_stack@[k] == old_self.child_index_stack@[k]);
                assert(self.path()[k] == old_self.path()[k]);
                assert(old_self.child_index_stack@[k] == old_self.path()[k].1);
            }
        }
        assert forall|k: int| 0 <= k < n implies #[trigger] self.state_stack@[k + 1] == next_state_spec(
            self.sheet(),
            self.state_stack@[k],
            field_on_path(self.tree().nodes(), self.path(), k),
            self.tree().nodes()[self.path()[k].0 as int].kind_id,
            self.child_index_stack@[k],
            node_text(self.source@, self.tree().nodes()[self.path()[k].0 as int]),
        ) by {
            if k < n - 1 {
                assert(self.state_stack@[k + 1] == old_self.state_stack@[k + 1]);
                assert(self.state_stack@[k] == old_self.state_stack@[k]);
                assert(self.child_index_stack@[k] == old_self.child_index_stack@[k]);
                assert(self.path()[k] == old_self.path()[k]);
                assert(old_self.state_stack@[k + 1] == next_state_spec(
                    old_self.sheet(),
                    old_self.state_stack@[k],
                    field_on_path(old_self.tree().nodes(), old_self.path(), k),
                    old_self.tree().nodes()[old_self.path()[k].0 as int].kind_id,
                    old_self.child_index_stack@[k],
                    node_text(old_self.source@, old_self.tree().nodes()[old_self.path()[k].0 as int]),
                ));
            }
        }
    }

    /// A cursor whose views equal those of a well-formed one is well-formed.
    proof fn lemma_same_views(&self, other: Self)
        requires
            other.wf(),
            self.cursor.wf(),
            self.sheet() == other.sheet(),
            self.tree() == other.tree(),
            self.path() == other.path(),
            self.source@ == other.source@,
            self.state_stack@ == other.state_stack@,
            self.child_index_stack@ == other.child_index_stack@,
        ensures
            self.wf(),
    {
        reveal(TreePropertyCursor::wf);
    }

    /// Whether transition `t` applies to the current node.
    fn accepts(&self, t: &PropertyTransition, kind: u16, child_index: usize, text: &[u8]) -> (r: bool)
        requires
            t.text_regex_index matches Some(i) ==> i < self.sheet().patterns().len(),
        ensures
            r == transition_accepts(*t, self.sheet().patterns(), kind, child_index, text@),
    {
        let text_matches = match t.text_regex_index {
            Some(i) => match str_from_utf8(text) {
                Ok(s) => self.property_sheet.text_regex(i).is_match(s),
                Err(_) => false,
            },
            None => true,
        };
        t.applies(kind, child_index, text_matches)
    }

    /// The target of the first transition of state `s` that applies to the current node.
    fn find_transition(&self, s: usize, field: Option<u16>, kind: u16, child_index: usize, text: &[u8]) -> (r: Option<usize>)
        requires
            self.property_sheet.wf(),
            s < self.sheet().states().len(),
        ensures
            r == first_accepted(
                self.sheet().states()[s as int].spec_lookup(field, kind),
                self.sheet().patterns(),
                kind,
                child_index,
                text@,
            ),
            r matches Some(id) ==> id < self.sheet().states().len(),
    {
        let ghost patterns = self.sheet().patterns();
        let state = self.property_sheet.state(s);
        proof {
            lemma_lookup_ok(
                *state,
                self.sheet().states().len(),
                self.sheet().property_sets().len(),
                patterns.len(),
                field,
                kind,
            );
        }
        let ts = match state.lookup(field, kind) {
            Some(ts) => ts,
            None => return None,
        };
        let mut i: usize = 0;
        assert(ts@.subrange(0, ts@.len() as int) =~= ts@);
        while i < ts.len()
            invariant
                i <= ts@.len(),
                patterns == self.sheet().patterns(),
                ts@ == self.sheet().states()[s as int].spec_lookup(field, kind),
                transitions_ok(ts@, self.sheet().states().len(), patterns.len()),
                first_accepted(ts@, patterns, kind, child_index, text@) == first_accepted(
                    ts@.subrange(i as int, ts@.len() as int),
                    patterns,
                    kind,
                    child_index,
                    text@,
                ),
            decreases ts@.len() - i,
        {
            let ghost rest = ts@.subrange(i as int, ts@.len() as int);
            assert(rest.drop_first() =~= ts@.subrange(i + 1, ts@.len() as int));
            assert(rest[0] == ts@[i as int]);
            assert(transition_ok(ts@[i as int], self.sheet().states().len(), patterns.len()));
            if self.accepts(&ts[i], kind, child_index, text) {
                return Some(ts[i].state_id);
            }
            i += 1;
        }
        None
    }

    /// The state reached at the current node from the state on top of the
    /// stack, were the node child number `node_child_index` of its parent.
    pub fn next_state(&self, node_child_index: usize) -> (r: usize)
        requires
            self.wf(),
        ensures
            r == next_state_spec(
                self.sheet(),
                self.state_stack().last(),
                if self.path().len() > 1 {
                    self.current().field_id
                } else {
                    None
                },
                self.current().kind_id,
                node_child_index,
                node_text(self.spec_source(), self.current()),
            ),
            r < self.sheet().states().len(),
    {
        proof {
            self.lemma_wf_parts();
            self.lemma_wf_shape();
        }
        self.resolve_state(node_child_index)
    }

    /// The state reached at the current node from the state on top of the stack.
    fn resolve_state(&self, node_child_index: usize) -> (r: usize)
        requires
            self.cursor.wf(),
            self.property_sheet.wf(),
            spans_within(self.tree().nodes(), self.source@.len()),
            self.state_stack@.len() > 0,
            self.state_stack@.last() < self.sheet().states().len(),
        ensures
            r == next_state_spec(
                self.sheet(),
                self.state_stack@.last(),
                self.cursor.spec_field_id(),
                self.current().kind_id,
                node_child_index,
                node_text(self.source@, self.current()),
            ),
            r < self.sheet().states().len(),
    {
        reveal(next_state_spec);
        let current = self.state_stack[self.state_stack.len() - 1];
        let field = self.cursor.field_id();
        let node = self.cursor.node();
        let kind = node.kind_id();
        let start = node.start_byte();
        let end = node.end_byte();
        assert(self.current().end_byte <= self.source@.len());
        let text = slice_subrange(self.source, start, end);
        if let Some(id) = self.find_transition(current, field, kind, node_child_index, text) {
            return id;
        }
        if current != 0 {
            if let Some(id) = self.find_transition(0, field, kind, node_child_index, text) {
                return id;
            }
        }
        assert(self.sheet().states()[current as int].spec_default_next_state_id() < self.sheet().states().len());
        self.property_sheet.state(current).default_next_state_id()
    }
}

impl Tree {
    /// A property cursor on the root of this tree.
    pub fn walk_with_properties<'a, P>(&'a self, property_sheet: &'a PropertySheet<P>, source: &'a [u8]) -> (r: TreePropertyCursor<'a, P>)
        requires
            self.wf(),
            property_sheet.wf(),
            spans_within(self.nodes(), source@.len()),
        ensures
            r.wf(),
            r.sheet() == *property_sheet,
            r.tree() == *self,
            r.spec_source() == source@,
            r.path() == seq![(0usize, 0usize)],
    {
        TreePropertyCursor::new(self, property_sheet, source)
    }
}

proof fn lemma_first_accepted_in(
    ts: Seq<PropertyTransition>,
    patterns: Seq<Seq<char>>,
    kind: u16,
    child_index: usize,
    text: Seq<u8>,
    n_states: nat,
    n_regexes: nat,
)
    requires
        transitions_ok(ts, n_states, n_regexes),
    ensures
        first_accepted(ts, patterns, kind, child_index, text) matches Some(id) ==> id < n_states,
    decreases ts.len(),
{
    if ts.len() > 0 {
        assert(transition_ok(ts[0], n_states, n_regexes));
        assert forall|i: int| 0 <= i < ts.drop_first().len() implies transition_ok(#[trigger] ts.drop_first()[i], n_states, n_regexes) by {
            assert(transition_ok(ts[i + 1], n_states, n_regexes));
        }
        lemma_first_accepted_in(ts.drop_first(), patterns, kind, child_index, text, n_states, n_regexes);
    }
}

/// State 0 is always the fallback, and the walk never reaches an undefined
/// state: from any state of a well-formed sheet the next state is a state of
/// the sheet, and when no transition of the current state or of state 0
/// applies it is the current state's default next state.
pub proof fn lemma_next_state_defined<P>(
    sheet: PropertySheet<P>,
    s: usize,
    field: Option<u16>,
    kind: u16,
    child_index: usize,
    text: Seq<u8>,
)
    requires
        sheet.wf(),
        s < sheet.states().len(),
    ensures
        next_state_spec(sheet, s, field, kind, child_index, text) < sheet.states().len(),
        first_accepted(sheet.states()[s as int].spec_lookup(field, kind), sheet.patterns(), kind, child_index, text) is None
            && first_accepted(sheet.states()[0].spec_lookup(field, kind), sheet.patterns(), kind, child_index, text) is None
            ==> next_state_spec(sheet, s, field, kind, child_index, text)
            == sheet.states()[s as int].spec_default_next_state_id(),
{
    reveal(next_state_spec);
    let n = sheet.states().len();
    let m = sheet.property_sets().len();
    let r = sheet.patterns().len();
    assert(crate::property_sheet::state_ok(sheet.states()[s as int], n, m, r));
    assert(crate::property_sheet::state_ok(sheet.states()[0], n, m, r));
    lemma_lookup_ok(sheet.states()[s as int], n, m, r, field, kind);
    lemma_lookup_ok(sheet.states()[0], n, m, r, field, kind);
    lemma_first_accepted_in(sheet.states()[s as int].spec_lookup(field, kind), sheet.patterns(), kind, child_index, text, n, r);
    lemma_first_accepted_in(sheet.states()[0].spec_lookup(field, kind), sheet.patterns(), kind, child_index, text, n, r);
}

proof fn lemma_states_along_unique<P>(
    sheet: PropertySheet<P>,
    nodes: Seq<NodeData>,
    source: Seq<u8>,
    path: Seq<(usize, usize)>,
    s1: Seq<usize>,
    c1: Seq<usize>,
    s2: Seq<usize>,
    c2: Seq<usize>,
    k: int,
)
    requires
        states_along(sheet, nodes, source, path, s1, c1),
        states_along(sheet, nodes, source, path, s2, c2),
        0 <= k <= path.len(),
    ensures
        s1.take(k + 1) == s2.take(k + 1),
    decreases k,
{
    reveal(states_along);
    if k > 0 {
        lemma_states_along_unique(sheet, nodes, source, path, s1, c1, s2, c2, k - 1);
        assert(s1[k - 1] == s1.take(k)[k - 1]);
        assert(s2[k - 1] == s2.take(k)[k - 1]);
        assert(c1[k - 1] == c2[k - 1]);
        assert(s1[k] == s2[k]);
        assert(s1.take(k + 1) =~= s1.take(k).push(s1[k]));
        assert(s2.take(k + 1) =~= s2.take(k).push(s2[k]));
    } else {
        assert(s1.take(1) =~= seq![s1[0]]);
        assert(s2.take(1) =~= seq![s2[0]]);
    }
}

/// The stacks of a property cursor depend only on where it stands: two
/// cursors over the same sheet, tree and text, on the same path, have the
/// same state stack and child-index stack. So a traversal whose moves
/// balance out (each descent undone by an ascent) returns both stacks to
/// their earlier depth and contents.
pub proof fn lemma_stacks_follow_path<'a, P>(c1: TreePropertyCursor<'a, P>, c2: TreePropertyCursor<'a, P>)
    requires
        c1.wf(),
        c2.wf(),
        c1.sheet() == c2.sheet(),
        c1.tree() == c2.tree(),
        c1.spec_source() == c2.spec_source(),
        c1.path() == c2.path(),
    ensures
        c1.state_stack() == c2.state_stack(),
        c1.child_index_stack() == c2.child_index_stack(),
{
    c1.lemma_wf_parts();
    c2.lemma_wf_parts();
    let n = c1.path().len();
    lemma_states_along_unique(
        c1.sheet(),
        c1.tree().nodes(),
        c1.spec_source(),
        c1.path(),
        c1.state_stack(),
        c1.child_index_stack(),
        c2.state_stack(),
        c2.child_index_stack(),
        n as int,
    );
    assert(c1.state_stack().take((n + 1) as int) =~= c1.state_stack());
    assert(c2.state_stack().take((n + 1) as int) =~= c2.state_stack());
    assert(c1.child_index_stack() =~= c2.child_index_stack());
}

} // verus!
