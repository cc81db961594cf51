use redstone_java::compiled::draft_order::EdgeDraft;
use redstone_java::compiled::network::{
    NetworkInputKind, NetworkInputPort, NetworkInputPower, NetworkNode, NetworkNodeId,
    NetworkNodeKind, NetworkWireId,
};
use redstone_java::compiled::passes::{
    clamp_edges, compile_input_ports, deduplicate_edges, fold_constants,
};
use redstone_java::position::{BlockPos, BlockStateId};

fn draft(source: u32, target: u32, kind: NetworkInputKind, attenuation: u8) -> EdgeDraft {
    EdgeDraft {
        source: NetworkNodeId(source),
        target: NetworkNodeId(target),
        kind,
        attenuation,
        source_wire: None,
        target_wire: None,
    }
}

fn node(index: u32, constant_output: Option<u8>) -> NetworkNode {
    NetworkNode::new(
        NetworkNodeId(index),
        BlockPos::new(index as i32, 0, 0),
        BlockStateId(0),
        NetworkNodeKind::Lever,
        0,
        constant_output,
        NetworkInputPower::zero(),
        None,
        false,
    )
}

#[test]
fn clamping_drops_edges_that_lose_the_whole_signal() {
    let mut edges = vec![
        draft(0, 1, NetworkInputKind::Default, 14),
        draft(0, 2, NetworkInputKind::Default, 15),
        draft(1, 2, NetworkInputKind::Side, 0),
        draft(2, 0, NetworkInputKind::Default, 200),
    ];
    clamp_edges(&mut edges);
    assert_eq!(
        edges,
        [
            draft(0, 1, NetworkInputKind::Default, 14),
            draft(1, 2, NetworkInputKind::Side, 0),
        ]
    );
}

#[test]
fn duplicate_wire_paths_keep_the_lowest_attenuation() {
    let mut edges = vec![
        draft(1, 0, NetworkInputKind::Default, 5),
        draft(0, 2, NetworkInputKind::Side, 3),
        draft(1, 0, NetworkInputKind::Default, 2),
        draft(1, 0, NetworkInputKind::Side, 9),
        draft(1, 0, NetworkInputKind::Default, 7),
    ];
    deduplicate_edges(&mut edges);
    assert_eq!(
        edges,
        [
            draft(0, 2, NetworkInputKind::Side, 3),
            draft(1, 0, NetworkInputKind::Default, 2),
            draft(1, 0, NetworkInputKind::Side, 9),
        ]
    );
}

#[test]
fn immutable_inputs_are_folded_into_constant_inputs() {
    let mut nodes = vec![node(0, Some(15)), node(1, None), node(2, Some(4))];
    let mut edges = vec![
        draft(0, 1, NetworkInputKind::Default, 3),
        draft(1, 2, NetworkInputKind::Default, 0),
        draft(2, 1, NetworkInputKind::Side, 1),
        draft(0, 1, NetworkInputKind::Default, 1),
        draft(2, 1, NetworkInputKind::Default, 9),
    ];
    fold_constants(&mut nodes, &mut edges);
    assert_eq!(edges, [draft(1, 2, NetworkInputKind::Default, 0)]);
    assert_eq!(nodes[1].constant_input, NetworkInputPower { default: 14, side: 3 });
    assert_eq!(nodes[0].constant_input, NetworkInputPower::zero());
    assert_eq!(nodes[2].constant_input, NetworkInputPower::zero());
}

#[test]
fn input_ports_are_grouped_by_target_without_duplicates() {
    let mut wired = draft(0, 1, NetworkInputKind::Default, 6);
    wired.source_wire = Some(NetworkWireId(4));
    wired.target_wire = Some(NetworkWireId(7));
    let edges = vec![
        draft(2, 1, NetworkInputKind::Side, 1),
        wired,
        draft(2, 0, NetworkInputKind::Default, 0),
        draft(2, 1, NetworkInputKind::Side, 1),
        draft(0, 1, NetworkInputKind::Default, 2),
    ];
    let (offsets, ports) = compile_input_ports(3, &edges);
    assert_eq!(offsets, [0, 1, 4, 4]);
    assert_eq!(
        ports,
        [
            NetworkInputPort::node(NetworkNodeId(2), NetworkInputKind::Default, 0),
            NetworkInputPort::node(NetworkNodeId(0), NetworkInputKind::Default, 2),
            NetworkInputPort::node(NetworkNodeId(2), NetworkInputKind::Side, 1),
            NetworkInputPort::wire(NetworkWireId(7), NetworkInputKind::Default),
        ]
    );
    assert_eq!(ports[3].wire_id(), Some(NetworkWireId(7)));
}
