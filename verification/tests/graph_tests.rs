use ecs_core::index_handle::IndexHandle;
use ecs_core::setup_graph::{
    Edge, EdgeExistence, Edges, EmptyNode, GraphInputSetup, NodeState, Setup, SetupGraph,
    SetupGraphError,
};

fn slot_edge(from: u64, out_slot: usize, to: u64, in_slot: usize) -> Edge {
    Edge::SlotEdge {
        input_node: to,
        input_index: in_slot,
        output_node: from,
        output_index: out_slot,
    }
}

#[test]
fn edges_add_remove_and_lookup() {
    let mut edges = Edges::new(7);
    assert_eq!(edges.label(), 7);
    let e1 = slot_edge(1, 0, 7, 0);
    let e2 = Edge::NodeEdge {
        input_node: 7,
        output_node: 2,
    };

    assert!(edges.add_input_edge(e1).is_ok());
    assert!(edges.has_input_edge(&e1));
    assert_eq!(
        edges.add_input_edge(e1),
        Err(SetupGraphError::EdgeAlreadyExists(e1))
    );
    assert!(edges.add_input_edge(e2).is_ok());
    assert_eq!(edges.input_edges().len(), 2);

    let found = edges.get_input_slot_edge(0).unwrap();
    assert_eq!(*found, e1);
    assert_eq!(
        edges.get_input_slot_edge(1),
        Err(SetupGraphError::UnconnectedNodeInputSlot {
            input_slot: 1,
            node: 7,
        })
    );

    assert!(edges.remove_input_edge(e1).is_ok());
    assert!(!edges.has_input_edge(&e1));
    assert_eq!(
        edges.remove_input_edge(e1),
        Err(SetupGraphError::EdgeDoesNotExist(e1))
    );

    let out = slot_edge(7, 0, 3, 1);
    assert!(edges.add_output_edge(out).is_ok());
    assert!(edges.has_output_edge(&out));
    assert_eq!(*edges.get_output_slot_edge(0).unwrap(), out);
    assert!(edges.remove_output_edge(out).is_ok());
    assert_eq!(edges.output_edges().len(), 0);
}

struct TwoSlotNode;

impl Setup for TwoSlotNode {
    fn input_s(&self) -> vstd::seq::Seq<u32> {
        panic!()
    }

    fn output_s(&self) -> vstd::seq::Seq<u32> {
        panic!()
    }

    fn input(&self) -> Vec<u32> {
        vec![0, 0]
    }

    fn output(&self) -> Vec<u32> {
        vec![0]
    }
}

#[test]
fn node_state_validates_slots() {
    let mut state = NodeState::new(9, TwoSlotNode);
    assert_eq!(
        state.validate_input_slots(),
        Err(SetupGraphError::UnconnectedNodeInputSlot {
            input_slot: 0,
            node: 9,
        })
    );
    state.edges.add_input_edge(slot_edge(1, 0, 9, 0)).unwrap();
    state.edges.add_input_edge(slot_edge(2, 0, 9, 1)).unwrap();
    assert!(state.validate_input_slots().is_ok());

    assert_eq!(
        state.validate_output_slots(),
        Err(SetupGraphError::UnconnectedNodeOutputSlot {
            output_slot: 0,
            node: 9,
        })
    );
    state.edges.add_output_edge(slot_edge(9, 0, 3, 0)).unwrap();
    assert!(state.validate_output_slots().is_ok());
}

#[test]
fn empty_node_declares_no_slots() {
    let state = NodeState::new(1, EmptyNode);
    assert!(state.validate_input_slots().is_ok());
    assert!(state.validate_output_slots().is_ok());
}

#[test]
fn index_handles() {
    let h: IndexHandle<u32> = IndexHandle::new(3);
    assert_eq!(h.index(), 3);
    assert!(h.is_valid());
    let bad: IndexHandle<u32> = IndexHandle::invalid();
    assert!(!bad.is_valid());
    let def: IndexHandle<u32> = Default::default();
    assert!(!def.is_valid());
    assert!(h == h.clone());
    assert!(!(h == bad));
}

struct TypedNode {
    inputs: Vec<u32>,
    outputs: Vec<u32>,
}

impl Setup for TypedNode {
    fn input_s(&self) -> vstd::seq::Seq<u32> {
        panic!()
    }

    fn output_s(&self) -> vstd::seq::Seq<u32> {
        panic!()
    }

    fn input(&self) -> Vec<u32> {
        self.inputs.clone()
    }

    fn output(&self) -> Vec<u32> {
        self.outputs.clone()
    }
}

#[test]
fn setup_graph_slot_edges() {
    let mut graph: SetupGraph<TypedNode> = SetupGraph::default();
    graph.add_node(
        1,
        TypedNode {
            inputs: vec![],
            outputs: vec![5, 6],
        },
    );
    graph.add_node(
        2,
        TypedNode {
            inputs: vec![5, 7],
            outputs: vec![],
        },
    );

    // Wiring output slot 0 (type 5) into input slot 0 (type 5) works.
    assert!(graph.try_add_slot_edge(1, 0, 2, 0).is_ok());
    let edge = Edge::SlotEdge {
        output_node: 1,
        output_index: 0,
        input_node: 2,
        input_index: 0,
    };
    assert!(graph.has_edge(&edge));
    assert!(graph.validate_edge(&edge, EdgeExistence::Exists).is_ok());

    // The same edge again is refused; so is a second edge into the
    // occupied input slot.
    assert_eq!(
        graph.try_add_slot_edge(1, 0, 2, 0),
        Err(SetupGraphError::EdgeAlreadyExists(edge))
    );

    // Mismatched slot types are refused: output slot 1 has type 6,
    // input slot 1 has type 7.
    assert_eq!(
        graph.try_add_slot_edge(1, 1, 2, 1),
        Err(SetupGraphError::MismatchedNodeSlots {
            output_node: 1,
            output_slot: 1,
            input_node: 2,
            input_slot: 1,
        })
    );

    // Out-of-range slots and missing nodes are reported.
    assert_eq!(
        graph.try_add_slot_edge(1, 9, 2, 1),
        Err(SetupGraphError::InvalidOutputNodeSlot(9))
    );
    assert_eq!(
        graph.try_add_slot_edge(3, 0, 2, 1),
        Err(SetupGraphError::InvalidNode(3))
    );

    // Removal takes the edge out of both endpoints.
    assert!(graph.remove_slot_edge(1, 0, 2, 0).is_ok());
    assert!(!graph.has_edge(&edge));
    assert_eq!(
        graph.remove_slot_edge(1, 0, 2, 0),
        Err(SetupGraphError::EdgeDoesNotExist(edge))
    );
}

#[test]
fn setup_graph_node_edges() {
    let mut graph: SetupGraph<EmptyNode> = SetupGraph::new();
    graph.add_node(10, EmptyNode);
    graph.add_node(20, EmptyNode);
    assert!(graph.try_add_node_edge(10, 20).is_ok());
    let edge = Edge::NodeEdge {
        output_node: 10,
        input_node: 20,
    };
    assert!(graph.has_edge(&edge));
    assert_eq!(
        graph.try_add_node_edge(10, 20),
        Err(SetupGraphError::EdgeAlreadyExists(edge))
    );
    assert!(graph.get_node_state(10).is_ok());
    assert_eq!(
        graph.get_node_state(99).err(),
        Some(SetupGraphError::InvalidNode(99))
    );
    assert!(graph.remove_node_edge(10, 20).is_ok());
    assert!(!graph.has_edge(&edge));
}

#[test]
fn remove_node_strips_its_edges() {
    let mut graph: SetupGraph<EmptyNode> = SetupGraph::new();
    graph.add_node(1, EmptyNode);
    graph.add_node(2, EmptyNode);
    graph.add_node(3, EmptyNode);
    graph.try_add_node_edge(1, 2).unwrap();
    graph.try_add_node_edge(2, 3).unwrap();
    graph.try_add_node_edge(1, 3).unwrap();

    assert!(graph.remove_node(2).is_ok());
    assert!(graph.get_node_state(2).is_err());
    assert!(!graph.has_edge(&Edge::NodeEdge {
        output_node: 1,
        input_node: 2,
    }));
    assert!(graph.has_edge(&Edge::NodeEdge {
        output_node: 1,
        input_node: 3,
    }));
    assert_eq!(
        graph.remove_node(2),
        Err(SetupGraphError::InvalidNode(2))
    );
}

#[test]
fn graph_input_mirrors_slots() {
    let input = GraphInputSetup {
        inputs: vec![5, 6, 7],
    };
    assert_eq!(input.input(), vec![5, 6, 7]);
    assert_eq!(input.output(), vec![5, 6, 7]);
    let state = NodeState::new(0, input);
    assert_eq!(state.input_slots, state.output_slots);
}
