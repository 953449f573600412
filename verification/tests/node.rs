use gossip_node::error::ProtocolError;
use gossip_node::message::{Body, Message};
use gossip_node::payload::{Event, InjectedPayload, Payload, Topology};
use gossip_node::state::Node;
use std::collections::HashSet;

fn text(s: &str) -> String {
    s.to_string()
}

fn names(list: &[&str]) -> Vec<String> {
    list.iter().map(|s| s.to_string()).collect()
}

fn values(list: &[usize]) -> HashSet<usize> {
    list.iter().copied().collect()
}

fn node_named(name: &str, members: &[&str]) -> Node {
    Node::from_init(text(name), names(members)).expect("a well-formed init starts a node")
}

fn from_client(id: usize, payload: Payload) -> Event<Payload> {
    Event::Message(Message {
        src: text("c7"),
        dest: text("n1"),
        body: Body { id: Some(id), in_reply_to: None, payload },
    })
}

fn gossip_from(peer: &str, seen: &[usize]) -> Event<Payload> {
    Event::Message(Message {
        src: text(peer),
        dest: text("n1"),
        body: Body { id: None, in_reply_to: None, payload: Payload::Gossip { seen: values(seen) } },
    })
}

fn topology_of(entries: &[(&str, &[&str])]) -> Topology {
    let mut topology = Topology::new();
    for (node, peers) in entries {
        topology.insert(text(node), names(peers));
    }
    topology
}

#[test]
fn from_init_starts_with_counter_one_and_nothing_learned() {
    let node = node_named("n1", &["n1", "n2", "n3"]);
    assert_eq!(node.id(), 1);
    assert_eq!(node.node_id(), "n1");
    assert_eq!(node.known_nodes(), &names(&["n1", "n2", "n3"]));
    assert!(node.messages().is_empty());
    assert!(node.neighbourhood().is_empty());
}

#[test]
fn from_init_keeps_each_member_once() {
    let node = node_named("n2", &["n1", "n2", "n1", "n3", "n2"]);
    assert_eq!(node.known_nodes(), &names(&["n1", "n2", "n3"]));
}

#[test]
fn from_init_accepts_an_empty_membership() {
    let node = node_named("n1", &[]);
    assert!(node.known_nodes().is_empty());
}

#[test]
fn from_init_refuses_an_empty_node_id() {
    let made = Node::from_init(text(""), names(&["n1"]));
    assert_eq!(made.err(), Some(ProtocolError::EmptyNodeId));
}

#[test]
fn from_init_refuses_an_empty_member() {
    let made = Node::from_init(text("n1"), names(&["n1", "", "n3"]));
    assert_eq!(made.err(), Some(ProtocolError::MalformedMembership));
}

#[test]
fn from_init_reports_the_empty_node_id_first() {
    let made = Node::from_init(text(""), names(&[""]));
    assert_eq!(made.err(), Some(ProtocolError::EmptyNodeId));
}

#[test]
fn bootstrap_refuses_a_first_message_that_is_not_init() {
    let first = Message {
        src: text("c1"),
        dest: text("n1"),
        body: Body { id: Some(1), in_reply_to: None, payload: Payload::Echo { echo: text("hi") } },
    };
    assert_eq!(Node::bootstrap(first).err(), Some(ProtocolError::ExpectedInit));
}

#[test]
fn bootstrap_refuses_a_malformed_init() {
    let first = Message {
        src: text("c1"),
        dest: text("n1"),
        body: Body {
            id: Some(1),
            in_reply_to: None,
            payload: Payload::Init { node_id: text("n1"), node_ids: names(&["n1", ""]) },
        },
    };
    assert_eq!(Node::bootstrap(first).err(), Some(ProtocolError::MalformedMembership));
    let first = Message {
        src: text("c1"),
        dest: text("n1"),
        body: Body {
            id: Some(1),
            in_reply_to: None,
            payload: Payload::Init { node_id: text(""), node_ids: names(&["n1"]) },
        },
    };
    assert_eq!(Node::bootstrap(first).err(), Some(ProtocolError::EmptyNodeId));
}

#[test]
fn bootstrap_answers_an_init_without_identifier() {
    let first = Message {
        src: text("c1"),
        dest: text("n1"),
        body: Body {
            id: None,
            in_reply_to: None,
            payload: Payload::Init { node_id: text("n1"), node_ids: names(&["n1", "n2"]) },
        },
    };
    let (node, reply) = Node::bootstrap(first).expect("init starts the node");
    assert_eq!(reply.body.in_reply_to, None);
    assert_eq!(reply.body.id, Some(1));
    assert_eq!(reply.body.payload, Payload::InitOk);
    assert_eq!(node.id(), 2);
}

#[test]
fn a_second_init_is_refused_and_changes_nothing() {
    let mut node = node_named("n1", &["n1"]);
    node.step(from_client(1, Payload::Broadcast { message: 3 })).expect("broadcast is answered");
    let again = Payload::Init { node_id: text("n9"), node_ids: names(&["n9"]) };
    let out = node.step(from_client(2, again));
    assert_eq!(out.err(), Some(ProtocolError::RepeatedInit));
    assert_eq!(node.node_id(), "n1");
    assert_eq!(node.known_nodes(), &names(&["n1"]));
    assert_eq!(node.id(), 2);
    assert_eq!(node.messages(), &values(&[3]));
}

#[test]
fn a_topology_without_this_node_is_refused_and_changes_nothing() {
    let mut node = node_named("n1", &["n1", "n2"]);
    node.step(from_client(1, Payload::Topology { topology: topology_of(&[("n1", &["n2"])]) }))
        .expect("topology is answered");
    let out = node
        .step(from_client(2, Payload::Topology { topology: topology_of(&[("n2", &["n1"])]) }));
    assert_eq!(out.err(), Some(ProtocolError::MissingTopologyEntry));
    assert_eq!(node.neighbourhood(), &names(&["n2"]));
    assert_eq!(node.id(), 2);
    let out = node.step(from_client(3, Payload::Topology { topology: Topology::new() }));
    assert_eq!(out.err(), Some(ProtocolError::MissingTopologyEntry));
}

#[test]
fn a_topology_replaces_the_neighbourhood() {
    let mut node = node_named("n1", &["n1", "n2", "n3"]);
    node.step(from_client(
        1,
        Payload::Topology { topology: topology_of(&[("n1", &["n2", "n3"]), ("n2", &["n1"])]) },
    ))
    .expect("topology is answered");
    assert_eq!(node.neighbourhood(), &names(&["n2", "n3"]));
    node.step(from_client(2, Payload::Topology { topology: topology_of(&[("n1", &["n3"])]) }))
        .expect("topology is answered");
    assert_eq!(node.neighbourhood(), &names(&["n3"]));
    node.step(from_client(3, Payload::Topology { topology: topology_of(&[("n1", &[])]) }))
        .expect("topology is answered");
    assert!(node.neighbourhood().is_empty());
}

#[test]
fn the_last_entry_of_a_topology_counts() {
    let mut node = node_named("n1", &["n1", "n2", "n3"]);
    let topology = topology_of(&[("n1", &["n2"]), ("n3", &["n1"]), ("n1", &["n3", "n2"])]);
    node.step(from_client(1, Payload::Topology { topology })).expect("topology is answered");
    assert_eq!(node.neighbourhood(), &names(&["n3", "n2"]));
}

#[test]
fn broadcasting_a_value_twice_is_the_same_as_once() {
    let mut once = node_named("n1", &["n1"]);
    once.step(from_client(1, Payload::Broadcast { message: 8 })).expect("broadcast is answered");
    let mut twice = node_named("n1", &["n1"]);
    twice.step(from_client(1, Payload::Broadcast { message: 8 })).expect("broadcast is answered");
    let out = twice
        .step(from_client(2, Payload::Broadcast { message: 8 }))
        .expect("broadcast is answered");
    assert_eq!(out[0].body.payload, Payload::BroadcastOk);
    assert_eq!(once.messages(), &values(&[8]));
    assert_eq!(twice.messages(), once.messages());
    assert_eq!(twice.id(), 3);
}

#[test]
fn gossip_is_merged_and_never_answered() {
    let mut node = node_named("n1", &["n1", "n2"]);
    node.step(from_client(1, Payload::Broadcast { message: 1 })).expect("broadcast is answered");
    let before = node.id();
    assert!(node.step(gossip_from("n2", &[1, 2, 3])).expect("gossip is taken in").is_empty());
    assert_eq!(node.messages(), &values(&[1, 2, 3]));
    assert!(node.step(gossip_from("n2", &[])).expect("gossip is taken in").is_empty());
    assert!(node.step(gossip_from("n3", &[3, 2])).expect("gossip is taken in").is_empty());
    assert!(node.step(gossip_from("n2", &[1, 2, 3])).expect("gossip is taken in").is_empty());
    assert_eq!(node.messages(), &values(&[1, 2, 3]));
    assert_eq!(node.id(), before);
}

#[test]
fn confirmations_are_ignored() {
    let mut node = node_named("n1", &["n1"]);
    node.step(from_client(1, Payload::Broadcast { message: 4 })).expect("broadcast is answered");
    let confirmations = vec![
        Payload::InitOk,
        Payload::EchoOk { echo: text("x") },
        Payload::GenerateOk { guid: text("n2-1-01ARZ3NDEKTSV4RRFFQ69G5FAV") },
        Payload::TopologyOk,
        Payload::BroadcastOk,
        Payload::ReadOk { messages: values(&[7]) },
    ];
    for payload in confirmations {
        let event = Event::Message(Message {
            src: text("n2"),
            dest: text("n1"),
            body: Body { id: Some(5), in_reply_to: Some(1), payload },
        });
        assert_eq!(node.step(event), Ok(vec![]));
    }
    assert_eq!(node.id(), 2);
    assert_eq!(node.messages(), &values(&[4]));
    assert!(node.neighbourhood().is_empty());
}

#[test]
fn read_answers_with_the_set_as_it_is_when_handled() {
    let mut node = node_named("n1", &["n1"]);
    let out = node.step(from_client(1, Payload::Read)).expect("read is answered");
    assert_eq!(out[0].body.payload, Payload::ReadOk { messages: values(&[]) });
    node.step(from_client(2, Payload::Broadcast { message: 11 })).expect("broadcast is answered");
    node.step(gossip_from("n2", &[12])).expect("gossip is taken in");
    let out = node.step(from_client(3, Payload::Read)).expect("read is answered");
    assert_eq!(out[0].body.payload, Payload::ReadOk { messages: values(&[11, 12]) });
    assert_eq!(out[0].src, "n1");
    assert_eq!(out[0].dest, "c7");
}

#[test]
fn a_tick_without_neighbours_sends_nothing() {
    let mut node = node_named("n1", &["n1"]);
    node.step(from_client(1, Payload::Broadcast { message: 4 })).expect("broadcast is answered");
    let out = node.step(Event::Injected(InjectedPayload::Gossip)).expect("a tick never fails");
    assert!(out.is_empty());
    assert_eq!(node.id(), 2);
}

#[test]
fn a_tick_sends_the_whole_set_to_each_neighbour_in_order() {
    let mut node = node_named("n1", &["n1", "n2", "n3"]);
    node.step(from_client(
        1,
        Payload::Topology { topology: topology_of(&[("n1", &["n3", "n2"])]) },
    ))
    .expect("topology is answered");
    node.step(from_client(2, Payload::Broadcast { message: 21 })).expect("broadcast is answered");
    node.step(from_client(3, Payload::Broadcast { message: 22 })).expect("broadcast is answered");
    let before = node.id();
    let out = node.step(Event::Injected(InjectedPayload::Gossip)).expect("a tick never fails");
    let to = |peer: &str| Message {
        src: text("n1"),
        dest: text(peer),
        body: Body {
            id: None,
            in_reply_to: None,
            payload: Payload::Gossip { seen: values(&[21, 22]) },
        },
    };
    assert_eq!(out, vec![to("n3"), to("n2")]);
    assert_eq!(node.id(), before);
    assert_eq!(node.messages(), &values(&[21, 22]));
}

#[test]
fn answers_name_their_request_and_take_rising_identifiers() {
    let mut node = node_named("n1", &["n1"]);
    let requests = vec![
        (40, Payload::Echo { echo: text("a") }),
        (17, Payload::Read),
        (17, Payload::Broadcast { message: 1 }),
        (3, Payload::Generate),
        (99, Payload::Topology { topology: topology_of(&[("n1", &[])]) }),
    ];
    let mut expected = 1;
    for (id, payload) in requests {
        let out = node.step(from_client(id, payload)).expect("the request is answered");
        assert_eq!(out.len(), 1);
        assert_eq!(out[0].body.in_reply_to, Some(id));
        assert_eq!(out[0].body.id, Some(expected));
        assert_eq!(out[0].src, "n1");
        assert_eq!(out[0].dest, "c7");
        expected += 1;
        assert_eq!(node.id(), expected);
    }
}

#[test]
fn a_request_without_identifier_is_answered_without_in_reply_to() {
    let mut node = node_named("n1", &["n1"]);
    let event = Event::Message(Message {
        src: text("c1"),
        dest: text("n1"),
        body: Body { id: None, in_reply_to: Some(6), payload: Payload::Echo { echo: text("") } },
    });
    let out = node.step(event).expect("echo is answered");
    assert_eq!(out[0].body.in_reply_to, None);
    assert_eq!(out[0].body.id, Some(1));
    assert_eq!(out[0].body.payload, Payload::EchoOk { echo: text("") });
}

#[test]
fn step_with_uses_the_token_it_is_given() {
    let mut node = node_named("n1", &["n1"]);
    node.step(from_client(1, Payload::Read)).expect("read is answered");
    let out = node
        .step_with(from_client(2, Payload::Generate), text("01ARZ3NDEKTSV4RRFFQ69G5FAV"))
        .expect("generate is answered");
    assert_eq!(
        out,
        vec![Message {
            src: text("n1"),
            dest: text("c7"),
            body: Body {
                id: Some(2),
                in_reply_to: Some(2),
                payload: Payload::GenerateOk { guid: text("n1-2-01ARZ3NDEKTSV4RRFFQ69G5FAV") },
            },
        }]
    );
    let out = node
        .step_with(from_client(3, Payload::Echo { echo: text("e") }), text("unused"))
        .expect("echo is answered");
    assert_eq!(out[0].body.payload, Payload::EchoOk { echo: text("e") });
}

#[test]
fn gossip_carries_a_value_along_a_chain_of_neighbours() {
    let members = ["n1", "n2", "n3"];
    let mut nodes: Vec<Node> = members.iter().map(|name| node_named(name, &members)).collect();
    let topology = || topology_of(&[("n1", &["n2"]), ("n2", &["n3"]), ("n3", &[])]);
    for node in nodes.iter_mut() {
        node.step(from_client(1, Payload::Topology { topology: topology() }))
            .expect("topology is answered");
    }
    nodes[0]
        .step(from_client(2, Payload::Broadcast { message: 77 }))
        .expect("broadcast is answered");
    assert!(!nodes[2].messages().contains(&77));
    for _cycle in 0..2 {
        let mut outbox = Vec::new();
        for node in nodes.iter_mut() {
            let sent = node.step(Event::Injected(InjectedPayload::Gossip));
            outbox.extend(sent.expect("a tick never fails"));
        }
        for message in outbox {
            for node in nodes.iter_mut() {
                if node.node_id() == &message.dest {
                    node.step(Event::Message(message.clone())).expect("gossip is taken in");
                }
            }
        }
    }
    assert!(nodes[1].messages().contains(&77));
    assert!(nodes[2].messages().contains(&77));
}
