use gossip_node::message::{Body, Message};
use gossip_node::payload::{Event, Payload, Topology};
use gossip_node::sets::{absorb, copy_of};
use std::collections::HashSet;

fn values(list: &[usize]) -> HashSet<usize> {
    list.iter().copied().collect()
}

fn echo(id: Option<usize>, in_reply_to: Option<usize>) -> Message<Payload> {
    Message {
        src: "c3".to_string(),
        dest: "n2".to_string(),
        body: Body { id, in_reply_to, payload: Payload::Echo { echo: "ping".to_string() } },
    }
}

#[test]
fn into_reply_swaps_the_ends_and_draws_from_the_counter() {
    let mut counter = 7;
    let reply = echo(Some(31), None).into_reply(Some(&mut counter));
    assert_eq!(reply.src, "n2");
    assert_eq!(reply.dest, "c3");
    assert_eq!(reply.body.id, Some(7));
    assert_eq!(reply.body.in_reply_to, Some(31));
    assert_eq!(reply.body.payload, Payload::Echo { echo: "ping".to_string() });
    assert_eq!(counter, 8);
    let reply = echo(Some(32), Some(5)).into_reply(Some(&mut counter));
    assert_eq!(reply.body.id, Some(8));
    assert_eq!(reply.body.in_reply_to, Some(32));
    assert_eq!(counter, 9);
}

#[test]
fn into_reply_without_counter_carries_no_identifier() {
    let reply = echo(Some(31), Some(2)).into_reply(None);
    assert_eq!(reply.src, "n2");
    assert_eq!(reply.dest, "c3");
    assert_eq!(reply.body.id, None);
    assert_eq!(reply.body.in_reply_to, Some(31));
    let reply = echo(None, Some(2)).into_reply(None);
    assert_eq!(reply.body.id, None);
    assert_eq!(reply.body.in_reply_to, None);
}

#[test]
fn into_reply_works_for_any_payload_type() {
    let mut counter = 0;
    let request = Message {
        src: "a".to_string(),
        dest: "b".to_string(),
        body: Body { id: Some(usize::MAX), in_reply_to: None, payload: 5u8 },
    };
    let reply = request.into_reply(Some(&mut counter));
    assert_eq!(reply.body.payload, 5u8);
    assert_eq!(reply.body.id, Some(0));
    assert_eq!(reply.body.in_reply_to, Some(usize::MAX));
    assert_eq!(counter, 1);
}

#[test]
fn topology_get_finds_the_last_entry_of_a_node() {
    let mut topology = Topology::new();
    assert_eq!(topology.get(&"n1".to_string()), None);
    topology.insert("n1".to_string(), vec!["n2".to_string()]);
    topology.insert("n2".to_string(), vec![]);
    assert_eq!(topology.get(&"n1".to_string()), Some(&vec!["n2".to_string()]));
    assert_eq!(topology.get(&"n2".to_string()), Some(&vec![]));
    assert_eq!(topology.get(&"n3".to_string()), None);
    topology.insert("n1".to_string(), vec!["n3".to_string(), "n2".to_string()]);
    assert_eq!(
        topology.get(&"n1".to_string()),
        Some(&vec!["n3".to_string(), "n2".to_string()])
    );
    assert_eq!(topology.get(&"n2".to_string()), Some(&vec![]));
}

#[test]
fn clones_are_equal_to_what_they_were_made_from() {
    let mut topology = Topology::new();
    topology.insert("n1".to_string(), vec!["n2".to_string(), "n3".to_string()]);
    topology.insert("n2".to_string(), vec![]);
    assert_eq!(topology.clone(), topology);
    let payloads = vec![
        Payload::Init { node_id: "n1".to_string(), node_ids: vec!["n1".to_string()] },
        Payload::InitOk,
        Payload::Broadcast { message: 3 },
        Payload::BroadcastOk,
        Payload::Echo { echo: "e".to_string() },
        Payload::EchoOk { echo: "e".to_string() },
        Payload::Generate,
        Payload::GenerateOk { guid: "g".to_string() },
        Payload::Gossip { seen: values(&[1, 2]) },
        Payload::Read,
        Payload::ReadOk { messages: values(&[3]) },
        Payload::Topology { topology },
        Payload::TopologyOk,
    ];
    for payload in payloads {
        assert_eq!(payload.clone(), payload);
        let message = echo(Some(1), None);
        let event = Event::Message(Message {
            src: message.src,
            dest: message.dest,
            body: Body { id: Some(1), in_reply_to: None, payload },
        });
        assert_eq!(event.clone(), event);
    }
}

#[test]
fn absorb_is_set_union() {
    let mut into = values(&[1, 2, 3]);
    absorb(&mut into, &values(&[3, 4]));
    assert_eq!(into, values(&[1, 2, 3, 4]));
    absorb(&mut into, &values(&[]));
    assert_eq!(into, values(&[1, 2, 3, 4]));
    let mut empty = values(&[]);
    absorb(&mut empty, &values(&[9]));
    assert_eq!(empty, values(&[9]));
    assert_eq!(copy_of(&into), into);
    assert_eq!(copy_of(&values(&[])), values(&[]));
}
