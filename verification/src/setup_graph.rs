//! Graph nodes and their edges, for a retained setup graph.
//!
//! A node is identified by an interned label. Edges come in two kinds:
//! a slot edge connects a numbered output slot of one node to a numbered
//! input slot of another, and a node edge only orders two nodes. Each
//! node keeps its own edge lists; a node is fully connected when every
//! one of its slots has a matching slot edge.

use vstd::prelude::*;

verus! {

/// An interned node label: a stable numeric identity.
pub type InternedRenderLabel = u64;

/// An edge between two nodes, ordering them and possibly connecting two
/// slots.
#[derive(Clone, Copy, PartialEq, Eq, Structural, Debug)]
pub enum Edge {
    SlotEdge {
        input_node: InternedRenderLabel,
        input_index: usize,
        output_node: InternedRenderLabel,
        output_index: usize,
    },
    NodeEdge { input_node: InternedRenderLabel, output_node: InternedRenderLabel },
}

impl Edge {
    /// The node this edge leads into.
    pub open spec fn input_node_s(self) -> InternedRenderLabel {
        match self {
            Edge::SlotEdge { input_node, .. } => input_node,
            Edge::NodeEdge { input_node, .. } => input_node,
        }
    }

    /// The node this edge comes out of.
    pub open spec fn output_node_s(self) -> InternedRenderLabel {
        match self {
            Edge::SlotEdge { output_node, .. } => output_node,
            Edge::NodeEdge { output_node, .. } => output_node,
        }
    }

    /// The node this edge leads into.
    pub fn get_input_node(&self) -> (r: InternedRenderLabel)
        ensures
            r == self.input_node_s(),
    {
        match self {
            Edge::SlotEdge { input_node, .. } => *input_node,
            Edge::NodeEdge { input_node, .. } => *input_node,
        }
    }

    /// The node this edge comes out of.
    pub fn get_output_node(&self) -> (r: InternedRenderLabel)
        ensures
            r == self.output_node_s(),
    {
        match self {
            Edge::SlotEdge { output_node, .. } => *output_node,
            Edge::NodeEdge { output_node, .. } => *output_node,
        }
    }

    /// Whether this is a slot edge into input slot `index`.
    pub open spec fn is_input_slot(self, index: usize) -> bool {
        match self {
            Edge::SlotEdge { input_index, .. } => input_index == index,
            Edge::NodeEdge { .. } => false,
        }
    }

    /// Whether this is a slot edge out of output slot `index`.
    pub open spec fn is_output_slot(self, index: usize) -> bool {
        match self {
            Edge::SlotEdge { output_index, .. } => output_index == index,
            Edge::NodeEdge { .. } => false,
        }
    }
}

/// A mistake in how the graph was wired.
#[derive(Clone, Copy, PartialEq, Eq, Structural, Debug)]
pub enum SetupGraphError {
    InvalidNode(InternedRenderLabel),
    InvalidOutputNodeSlot(usize),
    InvalidInputNodeSlot(usize),
    EdgeAlreadyExists(Edge),
    EdgeDoesNotExist(Edge),
    UnconnectedNodeInputSlot { input_slot: usize, node: InternedRenderLabel },
    UnconnectedNodeOutputSlot { output_slot: usize, node: InternedRenderLabel },
    NodeInputSlotAlreadyOccupied {
        node: InternedRenderLabel,
        input_slot: usize,
        occupied_by_node: InternedRenderLabel,
    },
    MismatchedNodeSlots {
        output_node: InternedRenderLabel,
        output_slot: usize,
        input_node: InternedRenderLabel,
        input_slot: usize,
    },
    WrongNodeType,
}

/// A failure while a node runs.
#[derive(Clone, Copy, PartialEq, Eq, Structural, Debug)]
pub enum SetupRunError {
    InputSlotError,
    OutputSlotError,
    RunSubGraphError,
}

/// The edges of one node: those going in and those going out.
pub struct Edges {
    pub label: InternedRenderLabel,
    pub input_edges: Vec<Edge>,
    pub output_edges: Vec<Edge>,
}

impl Edges {
    /// The sequence of input edges.
    pub open spec fn input_s(self) -> Seq<Edge> {
        self.input_edges@
    }

    /// The sequence of output edges.
    pub open spec fn output_s(self) -> Seq<Edge> {
        self.output_edges@
    }

    /// The node's label.
    pub open spec fn label_s(self) -> InternedRenderLabel {
        self.label
    }

    /// Fresh edge lists for a node.
    pub fn new(label: InternedRenderLabel) -> (r: Edges)
        ensures
            r.label_s() == label,
            r.input_s().len() == 0,
            r.output_s().len() == 0,
    {
        Edges { label, input_edges: Vec::new(), output_edges: Vec::new() }
    }

    /// All edges going into this node.
    pub fn input_edges(&self) -> (r: &Vec<Edge>)
        ensures
            r@ == self.input_s(),
    {
        &self.input_edges
    }

    /// All edges going out of this node.
    pub fn output_edges(&self) -> (r: &Vec<Edge>)
        ensures
            r@ == self.output_s(),
    {
        &self.output_edges
    }

    /// This node's label.
    pub fn label(&self) -> (r: InternedRenderLabel)
        ensures
            r == self.label_s(),
    {
        self.label
    }

    /// Whether the input edge already exists.
    pub fn has_input_edge(&self, edge: &Edge) -> (r: bool)
        ensures
            r == self.input_s().contains(*edge),
    {
        contains_edge(&self.input_edges, edge)
    }

    /// Whether the output edge already exists.
    pub fn has_output_edge(&self, edge: &Edge) -> (r: bool)
        ensures
            r == self.output_s().contains(*edge),
    {
        contains_edge(&self.output_edges, edge)
    }

    /// Add an input edge unless it already exists.
    pub fn add_input_edge(&mut self, edge: Edge) -> (r: Result<(), SetupGraphError>)
        ensures
            old(self).input_s().contains(edge) ==> r == Err::<(), SetupGraphError>(
                SetupGraphError::EdgeAlreadyExists(edge),
            ) && *final(self) == *old(self),
            !old(self).input_s().contains(edge) ==> r is Ok && final(self).input_s() == old(self).input_s().push(edge) && final(self).output_s() == old(self).output_s() && final(self).label_s() == old(self).label_s(),
    {
        if self.has_input_edge(&edge) {
            return Err(SetupGraphError::EdgeAlreadyExists(edge));
        }
        self.input_edges.push(edge);
        Ok(())
    }

    /// Remove an input edge if it exists; the last edge takes its place.
    pub fn remove_input_edge(&mut self, edge: Edge) -> (r: Result<(), SetupGraphError>)
        ensures
            !old(self).input_s().contains(edge) ==> r == Err::<(), SetupGraphError>(
                SetupGraphError::EdgeDoesNotExist(edge),
            ) && *final(self) == *old(self),
            old(self).input_s().contains(edge) ==> r is Ok && (exists|i: int|
                0 <= i < old(self).input_s().len() && old(self).input_s()[i] == edge && final(self).input_s() == old(self).input_s().update(
                    i,
                    old(self).input_s().last(),
                ).drop_last()) && final(self).output_s() == old(self).output_s() && final(self).label_s() == old(self).label_s(),
    {
        match position_of(&self.input_edges, &edge) {
            Some(i) => {
                self.input_edges.swap_remove(i);
                Ok(())
            },
            None => Err(SetupGraphError::EdgeDoesNotExist(edge)),
        }
    }

    /// Add an output edge unless it already exists.
    pub fn add_output_edge(&mut self, edge: Edge) -> (r: Result<(), SetupGraphError>)
        ensures
            old(self).output_s().contains(edge) ==> r == Err::<(), SetupGraphError>(
                SetupGraphError::EdgeAlreadyExists(edge),
            ) && *final(self) == *old(self),
            !old(self).output_s().contains(edge) ==> r is Ok && final(self).output_s() == old(self).output_s().push(edge) && final(self).input_s() == old(self).input_s() && final(self).label_s() == old(self).label_s(),
    {
        if self.has_output_edge(&edge) {
            return Err(SetupGraphError::EdgeAlreadyExists(edge));
        }
        self.output_edges.push(edge);
        Ok(())
    }

    /// Remove an output edge if it exists; the last edge takes its
    /// place.
    pub fn remove_output_edge(&mut self, edge: Edge) -> (r: Result<(), SetupGraphError>)
        ensures
            !old(self).output_s().contains(edge) ==> r == Err::<(), SetupGraphError>(
                SetupGraphError::EdgeDoesNotExist(edge),
            ) && *final(self) == *old(self),
            old(self).output_s().contains(edge) ==> r is Ok && (exists|i: int|
                0 <= i < old(self).output_s().len() && old(self).output_s()[i] == edge && final(self).output_s() == old(self).output_s().update(
                    i,
                    old(self).output_s().last(),
                ).drop_last()) && final(self).input_s() == old(self).input_s() && final(self).label_s() == old(self).label_s(),
    {
        match position_of(&self.output_edges, &edge) {
            Some(i) => {
                self.output_edges.swap_remove(i);
                Ok(())
            },
            None => Err(SetupGraphError::EdgeDoesNotExist(edge)),
        }
    }

    /// The first slot edge feeding input slot `index`, or the error
    /// naming the unconnected slot.
    pub fn get_input_slot_edge(&self, index: usize) -> (r: Result<&Edge, SetupGraphError>)
        ensures
            (exists|i: int|
                0 <= i < self.input_s().len() && (#[trigger] self.input_s()[i]).is_input_slot(
                    index,
                )) <==> r is Ok,
            r matches Ok(e) ==> exists|i: int|
                {
                    &&& 0 <= i < self.input_s().len()
                    &&& *e == #[trigger] self.input_s()[i]
                    &&& e.is_input_slot(index)
                    &&& forall|j: int| 0 <= j < i ==> !(#[trigger] self.input_s()[j]).is_input_slot(
                        index,
                    )
                },
            r matches Err(err) ==> err == (SetupGraphError::UnconnectedNodeInputSlot {
                input_slot: index,
                node: self.label_s(),
            }),
    {
        let n = self.input_edges.len();
        let mut k: usize = 0;
        while k < n
            invariant
                n == self.input_s().len(),
                forall|j: int| 0 <= j < k ==> !(#[trigger] self.input_s()[j]).is_input_slot(index),
            decreases n - k,
        {
            let hit = match self.input_edges[k] {
                Edge::SlotEdge { input_index, .. } => input_index == index,
                Edge::NodeEdge { .. } => false,
            };
            if hit {
                return Ok(&self.input_edges[k]);
            }
            k += 1;
        }
        Err(SetupGraphError::UnconnectedNodeInputSlot { input_slot: index, node: self.label })
    }

    /// The first slot edge leaving output slot `index`, or the error
    /// naming the unconnected slot.
    pub fn get_output_slot_edge(&self, index: usize) -> (r: Result<&Edge, SetupGraphError>)
        ensures
            (exists|i: int|
                0 <= i < self.output_s().len() && (#[trigger] self.output_s()[i]).is_output_slot(
                    index,
                )) <==> r is Ok,
            r matches Ok(e) ==> exists|i: int|
                {
                    &&& 0 <= i < self.output_s().len()
                    &&& *e == #[trigger] self.output_s()[i]
                    &&& e.is_output_slot(index)
                    &&& forall|j: int| 0 <= j < i ==> !(#[trigger] self.output_s()[j]).is_output_slot(
                        index,
                    )
                },
            r matches Err(err) ==> err == (SetupGraphError::UnconnectedNodeOutputSlot {
                output_slot: index,
                node: self.label_s(),
            }),
    {
        let n = self.output_edges.len();
        let mut k: usize = 0;
        while k < n
            invariant
                n == self.output_s().len(),
                forall|j: int| 0 <= j < k ==> !(#[trigger] self.output_s()[j]).is_output_slot(index),
            decreases n - k,
        {
            let hit = match self.output_edges[k] {
                Edge::SlotEdge { output_index, .. } => output_index == index,
                Edge::NodeEdge { .. } => false,
            };
            if hit {
                return Ok(&self.output_edges[k]);
            }
            k += 1;
        }
        Err(SetupGraphError::UnconnectedNodeOutputSlot { output_slot: index, node: self.label })
    }
}

/// Input slot `s` is fed by some slot edge in the list.
pub open spec fn input_slot_connected(edges: Seq<Edge>, s: usize) -> bool {
    exists|i: int| 0 <= i < edges.len() && (#[trigger] edges[i]).is_input_slot(s)
}

/// Output slot `s` leaves by some slot edge in the list.
pub open spec fn output_slot_connected(edges: Seq<Edge>, s: usize) -> bool {
    exists|i: int| 0 <= i < edges.len() && (#[trigger] edges[i]).is_output_slot(s)
}

/// A slot's value kind; two connected slots must agree on it.
pub type SlotType = u32;

/// A graph node: something that declares the slot types it consumes and
/// produces.
pub trait Setup: Sized {
    /// The slot types the node consumes.
    spec fn input_s(&self) -> Seq<SlotType>;

    /// The slot types the node produces.
    spec fn output_s(&self) -> Seq<SlotType>;

    fn input(&self) -> (r: Vec<SlotType>)
        ensures
            r@ == self.input_s(),
    ;

    fn output(&self) -> (r: Vec<SlotType>)
        ensures
            r@ == self.output_s(),
    ;
}

/// A node that declares no slots and does nothing.
#[derive(Clone, Copy, PartialEq, Eq, Structural, Debug)]
pub struct EmptyNode;

impl Setup for EmptyNode {
    open spec fn input_s(&self) -> Seq<SlotType> {
        Seq::empty()
    }

    open spec fn output_s(&self) -> Seq<SlotType> {
        Seq::empty()
    }

    fn input(&self) -> (r: Vec<SlotType>) {
        Vec::new()
    }

    fn output(&self) -> (r: Vec<SlotType>) {
        Vec::new()
    }
}

/// The input node of a graph: it declares the graph's input slots and
/// passes each straight through, so its outputs mirror its inputs.
pub struct GraphInputSetup {
    pub inputs: Vec<SlotType>,
}

impl Setup for GraphInputSetup {
    open spec fn input_s(&self) -> Seq<SlotType> {
        self.inputs@
    }

    open spec fn output_s(&self) -> Seq<SlotType> {
        self.inputs@
    }

    fn input(&self) -> (r: Vec<SlotType>) {
        clone_slots(&self.inputs)
    }

    fn output(&self) -> (r: Vec<SlotType>) {
        clone_slots(&self.inputs)
    }
}

/// Copy a slot-type list.
fn clone_slots(slots: &Vec<SlotType>) -> (r: Vec<SlotType>)
    ensures
        r@ == slots@,
{
    let mut out: Vec<SlotType> = Vec::new();
    let mut k: usize = 0;
    while k < slots.len()
        invariant
            k <= slots@.len(),
            out@ == slots@.subrange(0, k as int),
        decreases slots@.len() - k,
    {
        out.push(slots[k]);
        assert(out@ =~= slots@.subrange(0, k + 1));
        k += 1;
    }
    assert(out@ =~= slots@);
    out
}

/// A node together with its slot lists and its edges.
pub struct NodeState<T> {
    pub label: InternedRenderLabel,
    pub node: T,
    pub input_slots: Vec<SlotType>,
    pub output_slots: Vec<SlotType>,
    pub edges: Edges,
}

impl<T: Setup> NodeState<T> {
    /// Wrap a node without edges; the slot lists come from the node,
    /// which is stored as given.
    pub fn new(label: InternedRenderLabel, node: T) -> (r: NodeState<T>)
        ensures
            r.label == label,
            r.node == node,
            r.input_slots@ == node.input_s(),
            r.output_slots@ == node.output_s(),
            r.edges.label_s() == label,
            r.edges.input_s().len() == 0,
            r.edges.output_s().len() == 0,
    {
        let input_slots = node.input();
        let output_slots = node.output();
        NodeState { label, node, input_slots, output_slots, edges: Edges::new(label) }
    }

    /// Every input slot is fed by some slot edge, or the error names the
    /// first slot that is not.
    pub fn validate_input_slots(&self) -> (r: Result<(), SetupGraphError>)
        ensures
            r is Ok <==> forall|s: usize|
                s < self.input_slots@.len() ==> #[trigger] input_slot_connected(
                    self.edges.input_s(),
                    s,
                ),
            r matches Err(err) ==> exists|s: usize|
                {
                    &&& s < self.input_slots@.len()
                    &&& !(#[trigger] input_slot_connected(self.edges.input_s(), s))
                    &&& forall|s2: usize|
                        s2 < s ==> #[trigger] input_slot_connected(self.edges.input_s(), s2)
                    &&& err == (SetupGraphError::UnconnectedNodeInputSlot {
                        input_slot: s,
                        node: self.edges.label_s(),
                    })
                },
    {
        let n = self.input_slots.len();
        let mut s: usize = 0;
        while s < n
            invariant
                n == self.input_slots@.len(),
                forall|s2: usize|
                    s2 < s ==> #[trigger] input_slot_connected(self.edges.input_s(), s2),
            decreases n - s,
        {
            match self.edges.get_input_slot_edge(s) {
                Ok(_) => {
                    proof {
                        assert(input_slot_connected(self.edges.input_s(), s));
                    }
                },
                Err(e) => {
                    proof {
                        assert(!input_slot_connected(self.edges.input_s(), s));
                    }
                    return Err(e);
                },
            }
            s += 1;
        }
        Ok(())
    }

    /// Every output slot leaves by some slot edge, or the error names
    /// the first slot that does not.
    pub fn validate_output_slots(&self) -> (r: Result<(), SetupGraphError>)
        ensures
            r is Ok <==> forall|s: usize|
                s < self.output_slots@.len() ==> #[trigger] output_slot_connected(
                    self.edges.output_s(),
                    s,
                ),
            r matches Err(err) ==> exists|s: usize|
                {
                    &&& s < self.output_slots@.len()
                    &&& !(#[trigger] output_slot_connected(self.edges.output_s(), s))
                    &&& forall|s2: usize|
                        s2 < s ==> #[trigger] output_slot_connected(self.edges.output_s(), s2)
                    &&& err == (SetupGraphError::UnconnectedNodeOutputSlot {
                        output_slot: s,
                        node: self.edges.label_s(),
                    })
                },
    {
        let n = self.output_slots.len();
        let mut s: usize = 0;
        while s < n
            invariant
                n == self.output_slots@.len(),
                forall|s2: usize|
                    s2 < s ==> #[trigger] output_slot_connected(self.edges.output_s(), s2),
            decreases n - s,
        {
            match self.edges.get_output_slot_edge(s) {
                Ok(_) => {
                    proof {
                        assert(output_slot_connected(self.edges.output_s(), s));
                    }
                },
                Err(e) => {
                    proof {
                        assert(!output_slot_connected(self.edges.output_s(), s));
                    }
                    return Err(e);
                },
            }
            s += 1;
        }
        Ok(())
    }
}


/// Whether an edge is expected to exist already when it is validated.
#[derive(Clone, Copy, PartialEq, Eq, Structural, Debug)]
pub enum EdgeExistence {
    Exists,
    DoesNotExist,
}

/// The retained setup graph: its nodes, each carrying its own edges.
/// An edge is present when both of its endpoints record it.
pub struct SetupGraph<T> {
    pub nodes: Vec<NodeState<T>>,
}

impl<T: Setup> SetupGraph<T> {
    /// A node with this label exists.
    pub open spec fn has_node(self, label: InternedRenderLabel) -> bool {
        exists|i: int| 0 <= i < self.nodes@.len() && (#[trigger] self.nodes@[i]).label == label
    }

    /// The position of the node with this label.
    pub open spec fn node_index_of(self, label: InternedRenderLabel) -> int {
        choose|i: int| 0 <= i < self.nodes@.len() && (#[trigger] self.nodes@[i]).label == label
    }

    /// Node labels are distinct, and each node's edge lists carry its
    /// own label.
    pub open spec fn well_formed(self) -> bool {
        &&& forall|i: int, j: int|
            0 <= i < j < self.nodes@.len() ==> (#[trigger] self.nodes@[i]).label != (
            #[trigger] self.nodes@[j]).label
        &&& forall|i: int|
            0 <= i < self.nodes@.len() ==> (#[trigger] self.nodes@[i]).edges.label_s()
                == self.nodes@[i].label
    }

    /// Both endpoints exist and both record the edge.
    pub open spec fn edge_present(self, e: Edge) -> bool {
        &&& self.has_node(e.output_node_s())
        &&& self.has_node(e.input_node_s())
        &&& self.nodes@[self.node_index_of(e.output_node_s())].edges.output_s().contains(e)
        &&& self.nodes@[self.node_index_of(e.input_node_s())].edges.input_s().contains(e)
    }

    /// A slot edge names existing nodes, slots in range, and equal slot
    /// types at both ends.
    pub open spec fn slot_edge_ok(self, e: Edge) -> bool {
        match e {
            Edge::SlotEdge { input_node, input_index, output_node, output_index } => {
                &&& self.has_node(output_node)
                &&& self.has_node(input_node)
                &&& output_index < self.nodes@[self.node_index_of(
                    output_node,
                )].output_slots@.len()
                &&& input_index < self.nodes@[self.node_index_of(input_node)].input_slots@.len()
                &&& self.nodes@[self.node_index_of(output_node)].output_slots@[output_index as int]
                    == self.nodes@[self.node_index_of(input_node)].input_slots@[input_index as int]
            },
            Edge::NodeEdge { input_node, output_node } => {
                &&& self.has_node(output_node)
                &&& self.has_node(input_node)
            },
        }
    }

    /// No slot edge feeds this input slot of this node yet.
    pub open spec fn input_slot_free(self, label: InternedRenderLabel, index: usize) -> bool {
        !input_slot_connected(self.nodes@[self.node_index_of(label)].edges.input_s(), index)
    }

    pub fn new() -> (r: SetupGraph<T>)
        ensures
            r.well_formed(),
            r.nodes@.len() == 0,
    {
        SetupGraph { nodes: Vec::new() }
    }

    /// Find a node's position by label.
    fn find_node(&self, label: InternedRenderLabel) -> (r: Option<usize>)
        requires
            self.well_formed(),
        ensures
            match r {
                Some(i) => i < self.nodes@.len() && self.nodes@[i as int].label == label
                    && self.node_index_of(label) == i,
                None => !self.has_node(label),
            },
    {
        let n = self.nodes.len();
        let mut i: usize = 0;
        while i < n
            invariant
                n == self.nodes@.len(),
                self.well_formed(),
                forall|j: int| 0 <= j < i ==> (#[trigger] self.nodes@[j]).label != label,
            decreases n - i,
        {
            if self.nodes[i].label == label {
                proof {
                    let j = self.node_index_of(label);
                    if j != i {
                        assert(self.nodes@[j].label != self.nodes@[i as int].label);
                    }
                }
                return Some(i);
            }
            i += 1;
        }
        None
    }

    /// Add a node under a fresh label, with no edges yet.
    pub fn add_node(&mut self, label: InternedRenderLabel, node: T)
        requires
            old(self).well_formed(),
            !old(self).has_node(label),
        ensures
            final(self).well_formed(),
            final(self).nodes@.len() == old(self).nodes@.len() + 1,
            forall|i: int|
                0 <= i < old(self).nodes@.len() ==> final(self).nodes@[i] == old(self).nodes@[i],
            final(self).nodes@.last().label == label,
            final(self).nodes@.last().edges.input_s().len() == 0,
            final(self).nodes@.last().edges.output_s().len() == 0,
            final(self).has_node(label),
    {
        self.nodes.push(NodeState::new(label, node));
        proof {
            assert(self.nodes@.last().label == label);
        }
    }

    /// The node state under this label, or the invalid-node error.
    pub fn get_node_state(&self, label: InternedRenderLabel) -> (r: Result<
        &NodeState<T>,
        SetupGraphError,
    >)
        requires
            self.well_formed(),
        ensures
            self.has_node(label) ==> (r matches Ok(n) && *n == self.nodes@[self.node_index_of(
                label,
            )]),
            !self.has_node(label) ==> r == Err::<&NodeState<T>, SetupGraphError>(
                SetupGraphError::InvalidNode(label),
            ),
    {
        match self.find_node(label) {
            Some(i) => Ok(&self.nodes[i]),
            None => Err(SetupGraphError::InvalidNode(label)),
        }
    }

    /// Whether the edge is recorded at both of its endpoints.
    pub fn has_edge(&self, edge: &Edge) -> (r: bool)
        requires
            self.well_formed(),
        ensures
            r == self.edge_present(*edge),
    {
        let oi = match self.find_node(edge.get_output_node()) {
            Some(i) => i,
            None => {
                return false;
            },
        };
        let ii = match self.find_node(edge.get_input_node()) {
            Some(i) => i,
            None => {
                return false;
            },
        };
        if !self.nodes[oi].edges.has_output_edge(edge) {
            return false;
        }
        if !self.nodes[ii].edges.has_input_edge(edge) {
            return false;
        }
        true
    }

    /// Verify that the edge's existence matches the expectation and
    /// that a slot edge is wired to valid, type-matching, free slots.
    pub fn validate_edge(&self, edge: &Edge, should_exist: EdgeExistence) -> (r: Result<
        (),
        SetupGraphError,
    >)
        requires
            self.well_formed(),
        ensures
            should_exist == EdgeExistence::Exists && !self.edge_present(*edge) ==> r == Err::<
                (),
                SetupGraphError,
            >(SetupGraphError::EdgeDoesNotExist(*edge)),
            should_exist == EdgeExistence::DoesNotExist && self.edge_present(*edge) ==> r == Err::<
                (),
                SetupGraphError,
            >(SetupGraphError::EdgeAlreadyExists(*edge)),
            r is Ok <==> {
                &&& (should_exist == EdgeExistence::Exists ==> self.edge_present(*edge))
                &&& (should_exist == EdgeExistence::DoesNotExist ==> !self.edge_present(*edge))
                &&& self.slot_edge_ok(*edge)
                &&& (should_exist == EdgeExistence::DoesNotExist ==> (*edge matches Edge::SlotEdge {
                    input_node,
                    input_index,
                    ..
                } ==> self.input_slot_free(input_node, input_index)))
            },
    {
        let present = self.has_edge(edge);
        if should_exist == EdgeExistence::Exists && !present {
            return Err(SetupGraphError::EdgeDoesNotExist(*edge));
        }
        if should_exist == EdgeExistence::DoesNotExist && present {
            return Err(SetupGraphError::EdgeAlreadyExists(*edge));
        }
        match *edge {
            Edge::SlotEdge { output_node, output_index, input_node, input_index } => {
                let oi = match self.find_node(output_node) {
                    Some(i) => i,
                    None => {
                        return Err(SetupGraphError::InvalidNode(output_node));
                    },
                };
                let ii = match self.find_node(input_node) {
                    Some(i) => i,
                    None => {
                        return Err(SetupGraphError::InvalidNode(input_node));
                    },
                };
                if output_index >= self.nodes[oi].output_slots.len() {
                    return Err(SetupGraphError::InvalidOutputNodeSlot(output_index));
                }
                if input_index >= self.nodes[ii].input_slots.len() {
                    return Err(SetupGraphError::InvalidInputNodeSlot(input_index));
                }
                if should_exist == EdgeExistence::DoesNotExist {
                    match self.nodes[ii].edges.get_input_slot_edge(input_index) {
                        Ok(existing) => {
                            return Err(SetupGraphError::NodeInputSlotAlreadyOccupied {
                                node: input_node,
                                input_slot: input_index,
                                occupied_by_node: existing.get_output_node(),
                            });
                        },
                        Err(_) => {
                            proof {
                                assert(self.input_slot_free(input_node, input_index));
                            }
                        },
                    }
                }
                if self.nodes[oi].output_slots[output_index]
                    != self.nodes[ii].input_slots[input_index] {
                    return Err(SetupGraphError::MismatchedNodeSlots {
                        output_node,
                        output_slot: output_index,
                        input_node,
                        input_slot: input_index,
                    });
                }
            },
            Edge::NodeEdge { output_node, input_node } => {
                if self.find_node(output_node).is_none() {
                    return Err(SetupGraphError::InvalidNode(output_node));
                }
                if self.find_node(input_node).is_none() {
                    return Err(SetupGraphError::InvalidNode(input_node));
                }
            },
        }
        Ok(())
    }

    /// Connect an output slot to an input slot, recording the edge at
    /// both endpoints; the output node then runs before the input node.
    /// On any error the graph is unchanged.
    pub fn try_add_slot_edge(
        &mut self,
        output_node: InternedRenderLabel,
        output_slot: usize,
        input_node: InternedRenderLabel,
        input_slot: usize,
    ) -> (r: Result<(), SetupGraphError>)
        requires
            old(self).well_formed(),
        ensures
            final(self).well_formed(),
            r is Err ==> *final(self) == *old(self),
            r is Ok ==> {
                let e = Edge::SlotEdge {
                    output_node,
                    output_index: output_slot,
                    input_node,
                    input_index: input_slot,
                };
                &&& !old(self).edge_present(e)
                &&& final(self).edge_present(e)
                &&& final(self).nodes@.len() == old(self).nodes@.len()
                &&& forall|i: int|
                    0 <= i < old(self).nodes@.len() && i != old(self).node_index_of(output_node)
                        && i != old(self).node_index_of(input_node) ==> final(self).nodes@[i]
                        == old(self).nodes@[i]
                &&& final(self).nodes@[old(self).node_index_of(output_node)].edges.output_s()
                    == old(self).nodes@[old(self).node_index_of(output_node)].edges.output_s().push(
                    e,
                )
                &&& final(self).nodes@[old(self).node_index_of(input_node)].edges.input_s() == old(
                    self,
                ).nodes@[old(self).node_index_of(input_node)].edges.input_s().push(e)
            },
    {
        let edge = Edge::SlotEdge {
            output_node,
            output_index: output_slot,
            input_node,
            input_index: input_slot,
        };
        match self.validate_edge(&edge, EdgeExistence::DoesNotExist) {
            Ok(()) => {},
            Err(e) => {
                return Err(e);
            },
        }
        let oi = match self.find_node(output_node) {
            Some(i) => i,
            None => {
                proof {
                    assert(false);
                }
                return Err(SetupGraphError::InvalidNode(output_node));
            },
        };
        let ii = match self.find_node(input_node) {
            Some(i) => i,
            None => {
                proof {
                    assert(false);
                }
                return Err(SetupGraphError::InvalidNode(input_node));
            },
        };
        if self.nodes[oi].edges.has_output_edge(&edge) {
            return Err(SetupGraphError::EdgeAlreadyExists(edge));
        }
        if self.nodes[ii].edges.has_input_edge(&edge) {
            return Err(SetupGraphError::EdgeAlreadyExists(edge));
        }
        let r1 = self.nodes[oi].edges.add_output_edge(edge);
        proof {
            assert(r1 is Ok);
        }
        let r2 = self.nodes[ii].edges.add_input_edge(edge);
        proof {
            assert(r2 is Ok);
            assert(final(self).nodes@[ii as int].edges.input_s().contains(edge)) by {
                assert(self.nodes@[ii as int].edges.input_s().last() == edge);
            }
            assert(self.nodes@[oi as int].edges.output_s().contains(edge)) by {
                let s = self.nodes@[oi as int].edges.output_s();
                if oi != ii {
                    assert(s.last() == edge);
                } else {
                    assert(s.last() == edge);
                }
            }
        }
        Ok(())
    }

    /// Order two nodes: record a node edge at both endpoints. On any
    /// error the graph is unchanged.
    pub fn try_add_node_edge(
        &mut self,
        output_node: InternedRenderLabel,
        input_node: InternedRenderLabel,
    ) -> (r: Result<(), SetupGraphError>)
        requires
            old(self).well_formed(),
        ensures
            final(self).well_formed(),
            r is Err ==> *final(self) == *old(self),
            r is Ok ==> {
                let e = Edge::NodeEdge { output_node, input_node };
                &&& !old(self).edge_present(e)
                &&& final(self).edge_present(e)
                &&& final(self).nodes@.len() == old(self).nodes@.len()
                &&& forall|i: int|
                    0 <= i < old(self).nodes@.len() && i != old(self).node_index_of(output_node)
                        && i != old(self).node_index_of(input_node) ==> final(self).nodes@[i]
                        == old(self).nodes@[i]
                &&& final(self).nodes@[old(self).node_index_of(output_node)].edges.output_s()
                    == old(self).nodes@[old(self).node_index_of(output_node)].edges.output_s().push(
                    e,
                )
                &&& final(self).nodes@[old(self).node_index_of(input_node)].edges.input_s() == old(
                    self,
                ).nodes@[old(self).node_index_of(input_node)].edges.input_s().push(e)
            },
    {
        let edge = Edge::NodeEdge { output_node, input_node };
        match self.validate_edge(&edge, EdgeExistence::DoesNotExist) {
            Ok(()) => {},
            Err(e) => {
                return Err(e);
            },
        }
        let oi = match self.find_node(output_node) {
            Some(i) => i,
            None => {
                proof {
                    assert(false);
                }
                return Err(SetupGraphError::InvalidNode(output_node));
            },
        };
        let ii = match self.find_node(input_node) {
            Some(i) => i,
            None => {
                proof {
                    assert(false);
                }
                return Err(SetupGraphError::InvalidNode(input_node));
            },
        };
        if self.nodes[oi].edges.has_output_edge(&edge) {
            return Err(SetupGraphError::EdgeAlreadyExists(edge));
        }
        if self.nodes[ii].edges.has_input_edge(&edge) {
            return Err(SetupGraphError::EdgeAlreadyExists(edge));
        }
        let r1 = self.nodes[oi].edges.add_output_edge(edge);
        proof {
            assert(r1 is Ok);
        }
        let r2 = self.nodes[ii].edges.add_input_edge(edge);
        proof {
            assert(r2 is Ok);
            assert(self.nodes@[ii as int].edges.input_s().last() == edge);
            assert(self.nodes@[oi as int].edges.output_s().last() == edge);
        }
        Ok(())
    }

    /// Disconnect an output slot from an input slot: the edge leaves
    /// both endpoints. On any error the graph is unchanged.
    pub fn remove_slot_edge(
        &mut self,
        output_node: InternedRenderLabel,
        output_slot: usize,
        input_node: InternedRenderLabel,
        input_slot: usize,
    ) -> (r: Result<(), SetupGraphError>)
        requires
            old(self).well_formed(),
        ensures
            final(self).well_formed(),
            r is Err ==> *final(self) == *old(self),
            r is Ok ==> {
                let e = Edge::SlotEdge {
                    output_node,
                    output_index: output_slot,
                    input_node,
                    input_index: input_slot,
                };
                &&& old(self).edge_present(e)
                &&& final(self).nodes@.len() == old(self).nodes@.len()
                &&& forall|i: int|
                    0 <= i < old(self).nodes@.len() && i != old(self).node_index_of(output_node)
                        && i != old(self).node_index_of(input_node) ==> final(self).nodes@[i]
                        == old(self).nodes@[i]
            },
    {
        let edge = Edge::SlotEdge {
            output_node,
            output_index: output_slot,
            input_node,
            input_index: input_slot,
        };
        self.remove_edge(edge, output_node, input_node)
    }

    /// Remove the ordering edge between two nodes. On any error the
    /// graph is unchanged.
    pub fn remove_node_edge(
        &mut self,
        output_node: InternedRenderLabel,
        input_node: InternedRenderLabel,
    ) -> (r: Result<(), SetupGraphError>)
        requires
            old(self).well_formed(),
        ensures
            final(self).well_formed(),
            r is Err ==> *final(self) == *old(self),
            r is Ok ==> {
                let e = Edge::NodeEdge { output_node, input_node };
                &&& old(self).edge_present(e)
                &&& final(self).nodes@.len() == old(self).nodes@.len()
                &&& forall|i: int|
                    0 <= i < old(self).nodes@.len() && i != old(self).node_index_of(output_node)
                        && i != old(self).node_index_of(input_node) ==> final(self).nodes@[i]
                        == old(self).nodes@[i]
            },
    {
        let edge = Edge::NodeEdge { output_node, input_node };
        self.remove_edge(edge, output_node, input_node)
    }

    /// Shared removal: validate the edge exists, then drop it from both
    /// endpoints.
    fn remove_edge(
        &mut self,
        edge: Edge,
        output_node: InternedRenderLabel,
        input_node: InternedRenderLabel,
    ) -> (r: Result<(), SetupGraphError>)
        requires
            old(self).well_formed(),
            edge.output_node_s() == output_node,
            edge.input_node_s() == input_node,
        ensures
            final(self).well_formed(),
            r is Err ==> *final(self) == *old(self),
            r is Ok ==> {
                &&& old(self).edge_present(edge)
                &&& final(self).nodes@.len() == old(self).nodes@.len()
                &&& forall|i: int|
                    0 <= i < old(self).nodes@.len() && i != old(self).node_index_of(output_node)
                        && i != old(self).node_index_of(input_node) ==> final(self).nodes@[i]
                        == old(self).nodes@[i]
            },
    {
        match self.validate_edge(&edge, EdgeExistence::Exists) {
            Ok(()) => {},
            Err(e) => {
                return Err(e);
            },
        }
        let oi = match self.find_node(output_node) {
            Some(i) => i,
            None => {
                proof {
                    assert(false);
                }
                return Err(SetupGraphError::InvalidNode(output_node));
            },
        };
        let ii = match self.find_node(input_node) {
            Some(i) => i,
            None => {
                proof {
                    assert(false);
                }
                return Err(SetupGraphError::InvalidNode(input_node));
            },
        };
        let r1 = self.nodes[oi].edges.remove_output_edge(edge);
        proof {
            assert(r1 is Ok);
        }
        let r2 = self.nodes[ii].edges.remove_input_edge(edge);
        proof {
            assert(r2 is Ok);
        }
        Ok(())
    }
}


impl Edge {
    /// Whether this edge touches the node with this label.
    pub open spec fn references(self, label: InternedRenderLabel) -> bool {
        self.input_node_s() == label || self.output_node_s() == label
    }
}

/// `after` holds exactly the edges of `before` that do not touch
/// `label`.
pub open spec fn edges_stripped(
    before: Seq<Edge>,
    after: Seq<Edge>,
    label: InternedRenderLabel,
) -> bool {
    &&& forall|m: int|
        0 <= m < after.len() ==> before.contains(#[trigger] after[m]) && !after[m].references(
            label,
        )
    &&& forall|j: int|
        0 <= j < before.len() && !(#[trigger] before[j]).references(label) ==> after.contains(
            before[j],
        )
}

/// Drop every edge touching `label` from the list: what stays is
/// exactly the edges that did not touch it.
fn strip_edges(edges: &mut Vec<Edge>, label: InternedRenderLabel)
    ensures
        forall|m: int|
            0 <= m < final(edges)@.len() ==> old(edges)@.contains(#[trigger] final(edges)@[m])
                && !final(edges)@[m].references(label),
        forall|j: int|
            0 <= j < old(edges)@.len() && !(#[trigger] old(edges)@[j]).references(label)
                ==> final(edges)@.contains(old(edges)@[j]),
{
    let n = edges.len();
    let mut out: Vec<Edge> = Vec::new();
    let mut k: usize = 0;
    while k < n
        invariant
            n == edges@.len(),
            k <= n,
            edges@ == old(edges)@,
            forall|m: int|
                0 <= m < out@.len() ==> old(edges)@.contains(#[trigger] out@[m])
                    && !out@[m].references(label),
            forall|j: int|
                0 <= j < k && !(#[trigger] old(edges)@[j]).references(label) ==> out@.contains(
                    old(edges)@[j],
                ),
        decreases n - k,
    {
        let e = edges[k];
        let keep = e.get_input_node() != label && e.get_output_node() != label;
        let ghost out0 = out@;
        if keep {
            out.push(e);
        }
        proof {
            assert forall|j: int|
                0 <= j < k + 1 && !(#[trigger] old(edges)@[j]).references(label)
                implies out@.contains(old(edges)@[j]) by {
                if j < k {
                    let m = choose|m: int| 0 <= m < out0.len() && #[trigger] out0[m] == old(
                        edges,
                    )@[j];
                    assert(out@[m] == old(edges)@[j]);
                } else {
                    assert(out@.last() == e);
                }
            }
        }
        k += 1;
    }
    *edges = out;
}

impl<T: Setup> SetupGraph<T> {
    /// Remove a node and every edge that touched it, wherever that edge
    /// was recorded. On an unknown label the graph is unchanged.
    pub fn remove_node(&mut self, label: InternedRenderLabel) -> (r: Result<(), SetupGraphError>)
        requires
            old(self).well_formed(),
        ensures
            final(self).well_formed(),
            r is Err ==> *final(self) == *old(self) && !old(self).has_node(label) && r == Err::<
                (),
                SetupGraphError,
            >(SetupGraphError::InvalidNode(label)),
            r is Ok ==> {
                &&& old(self).has_node(label)
                &&& !final(self).has_node(label)
                &&& final(self).nodes@.len() == old(self).nodes@.len() - 1
                &&& forall|l2: InternedRenderLabel|
                    l2 != label ==> (final(self).has_node(l2) <==> old(self).has_node(l2))
                &&& forall|i: int|
                    0 <= i < final(self).nodes@.len() ==> {
                        let before = old(self).nodes@[old(self).node_index_of(
                            (#[trigger] final(self).nodes@[i]).label,
                        )];
                        &&& edges_stripped(
                            before.edges.input_s(),
                            final(self).nodes@[i].edges.input_s(),
                            label,
                        )
                        &&& edges_stripped(
                            before.edges.output_s(),
                            final(self).nodes@[i].edges.output_s(),
                            label,
                        )
                    }
            },
    {
        let i = match self.find_node(label) {
            Some(i) => i,
            None => {
                return Err(SetupGraphError::InvalidNode(label));
            },
        };
        let ghost g0 = *old(self);
        self.nodes.remove(i);
        proof {
            assert forall|j: int|
                0 <= j < self.nodes@.len() implies #[trigger] self.nodes@[j] == if j < i {
                g0.nodes@[j]
            } else {
                g0.nodes@[j + 1]
            } by {}
            assert forall|j: int|
                0 <= j < self.nodes@.len() implies (#[trigger] self.nodes@[j]).label != label by {
                if j < i {
                } else {
                    assert(g0.nodes@[j + 1].label != g0.nodes@[i as int].label);
                }
            }
        }
        let ghost g1 = *self;
        let n = self.nodes.len();
        let mut k: usize = 0;
        while k < n
            invariant
                n == self.nodes@.len(),
                k <= n,
                g1.well_formed(),
                self.nodes@.len() == g1.nodes@.len(),
                forall|j: int|
                    0 <= j < self.nodes@.len() ==> {
                        &&& (#[trigger] self.nodes@[j]).label == g1.nodes@[j].label
                        &&& self.nodes@[j].edges.label_s() == g1.nodes@[j].edges.label_s()
                    },
                forall|j: int|
                    k <= j < self.nodes@.len() ==> #[trigger] self.nodes@[j] == g1.nodes@[j],
                forall|j: int|
                    0 <= j < k ==> {
                        &&& edges_stripped(
                            g1.nodes@[j].edges.input_s(),
                            (#[trigger] self.nodes@[j]).edges.input_s(),
                            label,
                        )
                        &&& edges_stripped(
                            g1.nodes@[j].edges.output_s(),
                            self.nodes@[j].edges.output_s(),
                            label,
                        )
                    },
            decreases n - k,
        {
            strip_edges(&mut self.nodes[k].edges.input_edges, label);
            strip_edges(&mut self.nodes[k].edges.output_edges, label);
            k += 1;
        }
        proof {
            let g2 = *self;
            assert(g2.well_formed());
            assert(!g2.has_node(label)) by {
                if g2.has_node(label) {
                    let j = g2.node_index_of(label);
                    assert(g2.nodes@[j].label == g1.nodes@[j].label);
                }
            }
            assert forall|l2: InternedRenderLabel| l2 != label implies (g2.has_node(l2)
                <==> g0.has_node(l2)) by {
                if g2.has_node(l2) {
                    let j = g2.node_index_of(l2);
                    assert(g1.nodes@[j].label == l2);
                    if j < i {
                        assert(g0.nodes@[j].label == l2);
                    } else {
                        assert(g0.nodes@[j + 1].label == l2);
                    }
                }
                if g0.has_node(l2) {
                    let j = g0.node_index_of(l2);
                    assert(g0.nodes@[j].label == l2);
                    assert(j != i);
                    if j < i {
                        assert(g2.nodes@[j].label == l2);
                    } else {
                        assert(g2.nodes@[j - 1].label == l2);
                    }
                }
            }
            assert forall|j: int| 0 <= j < g2.nodes@.len() implies {
                let before = g0.nodes@[g0.node_index_of((#[trigger] g2.nodes@[j]).label)];
                &&& edges_stripped(before.edges.input_s(), g2.nodes@[j].edges.input_s(), label)
                &&& edges_stripped(before.edges.output_s(), g2.nodes@[j].edges.output_s(), label)
            } by {
                let l2 = g2.nodes@[j].label;
                let oj: int = if j < i { j } else { j + 1 };
                assert(g0.nodes@[oj].label == l2);
                assert(g1.nodes@[j] == g0.nodes@[oj]);
                let oi2 = g0.node_index_of(l2);
                if oi2 != oj {
                    assert(g0.nodes@[oi2].label != g0.nodes@[oj].label);
                }
            }
        }
        Ok(())
    }
}

impl<T: Setup> Default for SetupGraph<T> {
    /// An empty graph.
    fn default() -> (r: SetupGraph<T>)
        ensures
            r.well_formed(),
            r.nodes@.len() == 0,
    {
        SetupGraph::new()
    }
}

/// Whether the list holds this edge.
fn contains_edge(edges: &Vec<Edge>, edge: &Edge) -> (r: bool)
    ensures
        r == edges@.contains(*edge),
{
    let n = edges.len();
    let mut k: usize = 0;
    while k < n
        invariant
            n == edges@.len(),
            forall|j: int| 0 <= j < k ==> edges@[j] != *edge,
        decreases n - k,
    {
        if edges[k] == *edge {
            return true;
        }
        k += 1;
    }
    false
}

/// The first position of this edge in the list.
fn position_of(edges: &Vec<Edge>, edge: &Edge) -> (r: Option<usize>)
    ensures
        match r {
            Some(i) => i < edges@.len() && edges@[i as int] == *edge,
            None => !edges@.contains(*edge),
        },
{
    let n = edges.len();
    let mut k: usize = 0;
    while k < n
        invariant
            n == edges@.len(),
            forall|j: int| 0 <= j < k ==> edges@[j] != *edge,
        decreases n - k,
    {
        if edges[k] == *edge {
            return Some(k);
        }
        k += 1;
    }
    None
}

} // verus!
