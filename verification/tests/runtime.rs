use dozer_runtime::channel::{Channel, ChannelError};
use dozer_runtime::dag::{Dag, Edge, Endpoint, GraphError, NodeDecl, NodeRole, validate};
use dozer_runtime::executor::{apply_control, build_plan, close_all};
use dozer_runtime::node::{ChannelForwarder, ForwardError, NextStep};
use dozer_runtime::types::{Commit, IngestionMessage, Operation};

fn node(role: NodeRole) -> NodeDecl {
    NodeDecl { role, input_ports: None, output_ports: None }
}

fn edge(from: usize, to: usize) -> Edge {
    Edge {
        from: Endpoint { node: from, port: 0 },
        to: Endpoint { node: to, port: 0 },
    }
}

fn op(id: u64) -> Operation {
    Operation { id, payload: vec![id as u8] }
}

#[test]
fn plan_has_one_unit_per_stage_and_one_channel_per_edge() {
    let d = Dag {
        nodes: vec![node(NodeRole::Source), node(NodeRole::Processor), node(NodeRole::Sink)],
        edges: vec![edge(0, 1), edge(1, 2)],
    };
    let plan = build_plan(&d, 16).unwrap();
    assert_eq!(plan.units.len(), 3);
    assert_eq!(plan.channels.len(), 2);
    for (i, unit) in plan.units.iter().enumerate() {
        assert_eq!(unit.node, i);
        assert!(unit.subscribed);
    }
    for c in &plan.channels {
        assert_eq!(c.len(), 0);
        assert!(c.can_send());
    }
}

#[test]
fn cyclic_declaration_fails_before_initialization() {
    let d = Dag {
        nodes: vec![node(NodeRole::Processor), node(NodeRole::Processor)],
        edges: vec![edge(0, 1), edge(1, 0)],
    };
    assert_eq!(build_plan(&d, 16).err(), Some(GraphError::Cycle));
    // a self-loop is the smallest cycle
    let d = Dag { nodes: vec![node(NodeRole::Processor)], edges: vec![edge(0, 0)] };
    assert_eq!(validate(&d).err(), Some(GraphError::Cycle));
}

#[test]
fn duplicate_handle_is_rejected() {
    let d = Dag {
        nodes: vec![NodeDecl {
            role: NodeRole::Source,
            input_ports: None,
            output_ports: Some(vec![1, 1]),
        }],
        edges: vec![],
    };
    assert_eq!(validate(&d).err(), Some(GraphError::DuplicateHandle(0)));
}

#[test]
fn dangling_port_is_rejected() {
    // the edge names an undeclared output port
    let d = Dag {
        nodes: vec![node(NodeRole::Source), node(NodeRole::Sink)],
        edges: vec![Edge {
            from: Endpoint { node: 0, port: 5 },
            to: Endpoint { node: 1, port: 0 },
        }],
    };
    assert_eq!(validate(&d).err(), Some(GraphError::DanglingPort(0)));
    // the edge names a missing node
    let d = Dag { nodes: vec![node(NodeRole::Source)], edges: vec![edge(0, 3)] };
    assert_eq!(validate(&d).err(), Some(GraphError::DanglingPort(0)));
    // roles must be compatible: nothing flows out of a sink
    let d = Dag { nodes: vec![node(NodeRole::Sink), node(NodeRole::Sink)], edges: vec![edge(0, 1)] };
    assert_eq!(validate(&d).err(), Some(GraphError::DanglingPort(0)));
}

#[test]
fn channel_is_fifo_per_edge() {
    let mut c = Channel::new(8);
    let m1 = IngestionMessage::Begin();
    let m2 = IngestionMessage::OperationEvent(op(1));
    let m3 = IngestionMessage::Commit(Commit { source_sequence: 1, transaction_id: 1 });
    c.send(m1.clone()).unwrap();
    c.send(m2.clone()).unwrap();
    c.send(m3.clone()).unwrap();
    assert_eq!(c.recv(), Some(m1));
    assert_eq!(c.recv(), Some(m2));
    assert_eq!(c.recv(), Some(m3));
    assert_eq!(c.recv(), None);
}

#[test]
fn full_channel_applies_backpressure() {
    let mut c = Channel::new(2);
    c.send(IngestionMessage::Begin()).unwrap();
    c.send(IngestionMessage::Begin()).unwrap();
    assert!(!c.can_send());
    c.recv().unwrap();
    assert!(c.can_send());
}

#[test]
fn closed_channel_refuses_sends_but_drains() {
    let mut c = Channel::new(4);
    c.send(IngestionMessage::Begin()).unwrap();
    c.close();
    assert_eq!(c.send(IngestionMessage::Begin()), Err(ChannelError::Closed));
    assert_eq!(c.recv(), Some(IngestionMessage::Begin()));
    assert_eq!(c.recv(), None);
}

#[test]
fn broadcast_delivers_one_copy_per_edge() {
    let mut fw = ChannelForwarder::new();
    fw.add_edge(1, 16);
    fw.add_edge(2, 16);
    for i in 0..3 {
        fw.send(IngestionMessage::OperationEvent(op(i)), None).unwrap();
    }
    assert_eq!(fw.channels[0].len(), 3);
    assert_eq!(fw.channels[1].len(), 3);
    for k in 0..2 {
        for i in 0..3 {
            assert_eq!(
                fw.channels[k].recv(),
                Some(IngestionMessage::OperationEvent(op(i)))
            );
        }
    }
}

#[test]
fn targeted_send_reaches_only_the_named_port() {
    let mut fw = ChannelForwarder::new();
    fw.add_edge(1, 16);
    fw.add_edge(2, 16);
    fw.send(IngestionMessage::OperationEvent(op(9)), Some(2)).unwrap();
    assert_eq!(fw.channels[0].len(), 0);
    assert_eq!(fw.channels[1].len(), 1);
    assert_eq!(
        fw.send(IngestionMessage::Begin(), Some(7)),
        Err(ForwardError::UndeclaredPort(7))
    );
}

#[test]
fn stop_signal_unsubscribes_the_unit() {
    let d = Dag { nodes: vec![node(NodeRole::Source)], edges: vec![] };
    let mut plan = build_plan(&d, 4).unwrap();
    apply_control(&mut plan.units[0], NextStep::Continue);
    assert!(plan.units[0].subscribed);
    apply_control(&mut plan.units[0], NextStep::Stop);
    assert!(!plan.units[0].subscribed);
    apply_control(&mut plan.units[0], NextStep::Continue);
    assert!(!plan.units[0].subscribed);
}

#[test]
fn fatal_error_closes_every_channel() {
    let d = Dag {
        nodes: vec![node(NodeRole::Source), node(NodeRole::Processor), node(NodeRole::Sink)],
        edges: vec![edge(0, 1), edge(1, 2)],
    };
    let mut plan = build_plan(&d, 4).unwrap();
    plan.channels[0].send(IngestionMessage::Begin()).unwrap();
    close_all(&mut plan.channels);
    for c in plan.channels.iter_mut() {
        assert!(!c.can_send());
    }
    // buffered messages still drain after the close
    assert_eq!(plan.channels[0].recv(), Some(IngestionMessage::Begin()));
}
