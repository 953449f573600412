//! The node: what it knows, and how one event changes it.

use crate::error::ProtocolError;
use crate::ident::{fresh_token, guid_of, is_token, make_guid};
use crate::message::{Body, BodyView, Message, MessageView};
use crate::payload::{Event, EventView, InjectedPayload, Payload, PayloadView};
use crate::sets::{absorb, copy_of};
use std::collections::HashSet;
use vstd::prelude::*;

verus! {

/// One participant of the cluster.
#[derive(Debug)]
pub struct Node {
    /// The identifier that the next outgoing message with an identifier gets.
    id: usize,
    /// The name of this node.
    node_id: String,
    /// The members of the cluster at start, each once.
    known_nodes: Vec<String>,
    /// Every broadcast value that this node has learned.
    messages: HashSet<usize>,
    /// The nodes that this node gossips with.
    neighbourhood: Vec<String>,
}

/// Mathematical model of a [`Node`].
pub struct NodeView {
    pub id: usize,
    pub node_id: Seq<char>,
    pub known_nodes: Seq<Seq<char>>,
    pub messages: Set<usize>,
    pub neighbourhood: Seq<Seq<char>>,
}

impl NodeView {
    /// What holds of every node: it has a name, its counter has started, and
    /// its list of members holds each name once and no empty name.
    pub open spec fn wf(self) -> bool {
        &&& self.id >= 1
        &&& self.node_id.len() > 0
        &&& self.known_nodes.no_duplicates()
        &&& forall|i: int|
            0 <= i < self.known_nodes.len() ==> (#[trigger] self.known_nodes[i]).len() > 0
    }

    /// The node with its counter moved on by one.
    pub open spec fn after_sending(self) -> NodeView {
        NodeView { id: (self.id + 1) as usize, ..self }
    }
}

impl View for Node {
    type V = NodeView;

    closed spec fn view(&self) -> NodeView {
        NodeView {
            id: self.id,
            node_id: self.node_id@,
            known_nodes: self.known_nodes.deep_view(),
            messages: self.messages@,
            neighbourhood: self.neighbourhood.deep_view(),
        }
    }
}

/// A list of names with every later repetition of a name left out.
pub open spec fn distinct(names: Seq<Seq<char>>) -> Seq<Seq<char>>
    decreases names.len(),
{
    if names.len() == 0 {
        Seq::empty()
    } else {
        let before = distinct(names.drop_last());
        if before.contains(names.last()) {
            before
        } else {
            before.push(names.last())
        }
    }
}

/// `distinct` keeps every name, holds none twice and adds none.
pub proof fn lemma_distinct(names: Seq<Seq<char>>)
    ensures
        distinct(names).no_duplicates(),
        forall|name: Seq<char>| distinct(names).contains(name) <==> names.contains(name),
    decreases names.len(),
{
    if names.len() > 0 {
        let shorter = names.drop_last();
        let before = distinct(shorter);
        lemma_distinct(shorter);
        assert forall|name: Seq<char>| distinct(names).contains(name) <==> names.contains(
            name,
        ) by {
            if names.contains(name) {
                let i = choose|i: int| 0 <= i < names.len() && names[i] == name;
                if i < shorter.len() {
                    assert(shorter[i] == name);
                }
            }
            if shorter.contains(name) {
                let i = choose|i: int| 0 <= i < shorter.len() && shorter[i] == name;
                assert(names[i] == name);
            }
            if before.contains(name) {
                let i = choose|i: int| 0 <= i < before.len() && before[i] == name;
                if !before.contains(names.last()) {
                    assert(before.push(names.last())[i] == name);
                }
            }
            if name == names.last() {
                assert(names[names.len() - 1] == name);
                if !before.contains(names.last()) {
                    assert(before.push(names.last())[before.len() as int] == name);
                }
            }
        }
    }
}

/// The node that an `Init` with this name and these members starts, or the
/// reason why it starts none.
pub open spec fn init_spec(node_id: Seq<char>, members: Seq<Seq<char>>) -> Result<
    NodeView,
    ProtocolError,
> {
    if node_id.len() == 0 {
        Err(ProtocolError::EmptyNodeId)
    } else if exists|i: int| 0 <= i < members.len() && (#[trigger] members[i]).len() == 0 {
        Err(ProtocolError::MalformedMembership)
    } else {
        Ok(
            NodeView {
                id: 1,
                node_id,
                known_nodes: distinct(members),
                messages: Set::empty(),
                neighbourhood: Seq::empty(),
            },
        )
    }
}

/// What the first message of a node's life leads to: a started node and the
/// answer to send, or the reason why the node does not start.
pub open spec fn bootstrap_spec(first: MessageView<PayloadView>) -> Result<
    (NodeView, MessageView<PayloadView>),
    ProtocolError,
> {
    match first.body.payload {
        PayloadView::Init { node_id, node_ids } => match init_spec(node_id, node_ids) {
            Ok(node) => Ok(
                (node.after_sending(), first.answer(Some(node.id), PayloadView::InitOk)),
            ),
            Err(error) => Err(error),
        },
        _ => Err(ProtocolError::ExpectedInit),
    }
}

/// A node after an event, and what handling the event gave: the messages to
/// send, in order, or the rule that the event broke.
pub struct Outcome {
    pub node: NodeView,
    pub result: Result<Seq<MessageView<PayloadView>>, ProtocolError>,
}

/// The round of gossip that a node sends: one message for each neighbour, in
/// the order of the neighbourhood, each with every value the node knows and
/// without an identifier.
pub open spec fn gossip_round(node: NodeView) -> Seq<MessageView<PayloadView>> {
    Seq::new(
        node.neighbourhood.len(),
        |i: int|
            MessageView {
                src: node.node_id,
                dest: node.neighbourhood[i],
                body: BodyView {
                    id: None,
                    in_reply_to: None,
                    payload: PayloadView::Gossip { seen: node.messages },
                },
            },
    )
}

/// The outcome of a request that is answered: `node` is the node after the
/// request's effect, the answer takes the node's next identifier.
pub open spec fn answered(
    node: NodeView,
    request: MessageView<PayloadView>,
    payload: PayloadView,
) -> Outcome {
    Outcome {
        node: node.after_sending(),
        result: Ok(seq![request.answer(Some(node.id), payload)]),
    }
}

/// The outcome of an event that changes nothing and sends nothing.
pub open spec fn ignored(node: NodeView) -> Outcome {
    Outcome { node, result: Ok(Seq::empty()) }
}

/// The outcome of an event that breaks a rule: the node stays as it was.
pub open spec fn refused(node: NodeView, error: ProtocolError) -> Outcome {
    Outcome { node, result: Err(error) }
}

/// What handling one event does to a node. `token` is the random part of the
/// identifier that a `Generate` is answered with; no other event reads it.
pub open spec fn step_spec(
    node: NodeView,
    event: EventView<PayloadView>,
    token: Seq<char>,
) -> Outcome {
    match event {
        EventView::Injected(InjectedPayload::Gossip) => Outcome {
            node,
            result: Ok(gossip_round(node)),
        },
        EventView::Message(request) => match request.body.payload {
            PayloadView::Init { .. } => refused(node, ProtocolError::RepeatedInit),
            PayloadView::Echo { echo } => answered(node, request, PayloadView::EchoOk { echo }),
            PayloadView::Generate => answered(
                node,
                request,
                PayloadView::GenerateOk { guid: guid_of(node.node_id, node.id as nat, token) },
            ),
            PayloadView::Topology { topology } => if topology.contains_key(node.node_id) {
                answered(
                    NodeView { neighbourhood: topology[node.node_id], ..node },
                    request,
                    PayloadView::TopologyOk,
                )
            } else {
                refused(node, ProtocolError::MissingTopologyEntry)
            },
            PayloadView::Broadcast { message } => answered(
                NodeView { messages: node.messages.insert(message), ..node },
                request,
                PayloadView::BroadcastOk,
            ),
            PayloadView::Read => answered(
                node,
                request,
                PayloadView::ReadOk { messages: node.messages },
            ),
            PayloadView::Gossip { seen } => ignored(
                NodeView { messages: node.messages.union(seen), ..node },
            ),
            PayloadView::InitOk
            | PayloadView::EchoOk { .. }
            | PayloadView::GenerateOk { .. }
            | PayloadView::TopologyOk
            | PayloadView::BroadcastOk
            | PayloadView::ReadOk { .. } => ignored(node),
        },
    }
}

/// The model of what `step` and `step_with` return.
pub open spec fn result_view(
    result: Result<Vec<Message<Payload>>, ProtocolError>,
) -> Result<Seq<MessageView<PayloadView>>, ProtocolError> {
    match result {
        Ok(messages) => Ok(messages.deep_view()),
        Err(error) => Err(error),
    }
}

/// Whether answering `event` takes a random token.
pub open spec fn wants_token(event: EventView<PayloadView>) -> bool {
    event matches EventView::Message(request) && request.body.payload is Generate
}

/// No messages to send.
fn nothing() -> (out: Vec<Message<Payload>>)
    ensures
        out.deep_view() == Seq::<MessageView<PayloadView>>::empty(),
{
    let out: Vec<Message<Payload>> = Vec::new();
    assert(out.deep_view() =~= Seq::empty());
    out
}

/// One message to send.
fn only(message: Message<Payload>) -> (out: Vec<Message<Payload>>)
    ensures
        out.deep_view() == seq![message@],
{
    let mut out: Vec<Message<Payload>> = Vec::new();
    out.push(message);
    assert(out.deep_view() =~= seq![message@]);
    out
}

/// Whether `names` holds `name`.
fn holds(names: &Vec<String>, name: &String) -> (found: bool)
    ensures
        found == names.deep_view().contains(name@),
{
    let mut i: usize = 0;
    while i < names.len()
        invariant
            i <= names.len(),
            forall|j: int| 0 <= j < i ==> names.deep_view()[j] != name@,
        decreases names.len() - i,
    {
        if names[i] == *name {
            assert(names.deep_view()[i as int] == name@);
            return true;
        }
        i = i + 1;
    }
    false
}

/// The names of `names`, each once, in the order of their first occurrence.
/// `None` if one of them is empty.
fn members_of(names: &Vec<String>) -> (members: Option<Vec<String>>)
    ensures
        match members {
            Some(kept) => {
                &&& kept.deep_view() == distinct(names.deep_view())
                &&& forall|i: int|
                    0 <= i < names.len() ==> (#[trigger] names.deep_view()[i]).len() > 0
            },
            None => exists|i: int|
                0 <= i < names.len() && (#[trigger] names.deep_view()[i]).len() == 0,
        },
{
    let mut kept: Vec<String> = Vec::new();
    let mut i: usize = 0;
    assert(names.deep_view().take(0) =~= Seq::empty());
    assert(kept.deep_view() =~= Seq::empty());
    while i < names.len()
        invariant
            i <= names.len(),
            kept.deep_view() == distinct(names.deep_view().take(i as int)),
            forall|j: int| 0 <= j < i ==> (#[trigger] names.deep_view()[j]).len() > 0,
        decreases names.len() - i,
    {
        if names[i].as_str().is_empty() {
            assert(names.deep_view()[i as int].len() == 0);
            return None;
        }
        let ghost before = kept.deep_view();
        assert(names.deep_view().take(i + 1).drop_last() =~= names.deep_view().take(i as int));
        if !holds(&kept, &names[i]) {
            kept.push(names[i].clone());
            assert(kept.deep_view() =~= before.push(names.deep_view()[i as int]));
        }
        i = i + 1;
    }
    assert(names.deep_view().take(i as int) =~= names.deep_view());
    Some(kept)
}

impl Node {
    /// Starts a node named `node_id` in a cluster of `nodes_in_cluster`.
    ///
    /// The node starts with its counter at 1, no neighbours and no broadcast
    /// values. It does not start if its name is empty or if an empty name is
    /// listed among the members.
    pub fn from_init(node_id: String, nodes_in_cluster: Vec<String>) -> (made: Result<
        Node,
        ProtocolError,
    >)
        ensures
            match made {
                Ok(node) => init_spec(node_id@, nodes_in_cluster.deep_view()) == Ok::<
                    NodeView,
                    ProtocolError,
                >(node@) && node@.wf(),
                Err(error) => init_spec(node_id@, nodes_in_cluster.deep_view()) == Err::<
                    NodeView,
                    ProtocolError,
                >(error),
            },
    {
        if node_id.as_str().is_empty() {
            return Err(ProtocolError::EmptyNodeId);
        }
        match members_of(&nodes_in_cluster) {
            None => Err(ProtocolError::MalformedMembership),
            Some(known_nodes) => {
                proof {
                    lemma_distinct(nodes_in_cluster.deep_view());
                }
                let neighbourhood: Vec<String> = Vec::new();
                assert(neighbourhood.deep_view() =~= Seq::empty());
                let node = Node {
                    id: 1,
                    node_id,
                    known_nodes,
                    messages: HashSet::new(),
                    neighbourhood,
                };
                assert forall|i: int| 0 <= i < node@.known_nodes.len() implies (
                #[trigger] node@.known_nodes[i]).len() > 0 by {
                    let members = nodes_in_cluster.deep_view();
                    let name = distinct(members)[i];
                    assert(distinct(members).contains(name));
                    assert(members.contains(name));
                    let j = choose|j: int| 0 <= j < members.len() && members[j] == name;
                    assert(members[j].len() > 0);
                }
                Ok(node)
            },
        }
    }

    /// Starts a node from the first message of its life, which must be an
    /// `Init`, and answers it with `InitOk`. The answer takes the first
    /// identifier of the new node.
    pub fn bootstrap(first: Message<Payload>) -> (started: Result<
        (Node, Message<Payload>),
        ProtocolError,
    >)
        ensures
            match started {
                Ok((node, reply)) => bootstrap_spec(first@) == Ok::<
                    (NodeView, MessageView<PayloadView>),
                    ProtocolError,
                >((node@, reply@)) && node@.wf(),
                Err(error) => bootstrap_spec(first@) == Err::<
                    (NodeView, MessageView<PayloadView>),
                    ProtocolError,
                >(error),
            },
    {
        let Message { src, dest, body } = first;
        let Body { id, in_reply_to, payload } = body;
        match payload {
            Payload::Init { node_id, node_ids } => match Node::from_init(node_id, node_ids) {
                Ok(node) => {
                    let mut node = node;
                    let answer = Message {
                        src,
                        dest,
                        body: Body { id, in_reply_to, payload: Payload::InitOk },
                    };
                    let reply = answer.into_reply(Some(&mut node.id));
                    Ok((node, reply))
                },
                Err(error) => Err(error),
            },
            _ => Err(ProtocolError::ExpectedInit),
        }
    }

    /// Handles one event: changes the node as the event asks and returns the
    /// messages to send, in order. A `Generate` is answered with an
    /// identifier whose random part is drawn here.
    ///
    /// An event that breaks a rule leaves the node as it was.
    pub fn step(&mut self, input: Event<Payload>) -> (result: Result<
        Vec<Message<Payload>>,
        ProtocolError,
    >)
        requires
            old(self)@.id < usize::MAX,
        ensures
            (exists|token: Seq<char>|
                is_token(token) && #[trigger] step_spec(old(self)@, input@, token) == (Outcome {
                    node: final(self)@,
                    result: result_view(result),
                })),
            old(self)@.messages.subset_of(final(self)@.messages),
            old(self)@.wf() ==> final(self)@.wf(),
    {
        let random = match &input {
            Event::Message(request) => match &request.body.payload {
                Payload::Generate => true,
                _ => false,
            },
            Event::Injected(_) => false,
        };
        assert(random == wants_token(input@));
        let token = if random {
            fresh_token()
        } else {
            String::new()
        };
        let ghost filler = Seq::new(26, |i: int| '0');
        let ghost witness = if random {
            token@
        } else {
            filler
        };
        assert(is_token(filler));
        let result = self.step_with(input, token);
        assert(step_spec(old(self)@, input@, witness) == (Outcome {
            node: self@,
            result: result_view(result),
        }));
        result
    }

    /// Handles one event: changes the node as the event asks and returns the
    /// messages to send, in order. `token` is the random part of the
    /// identifier that a `Generate` is answered with.
    ///
    /// An event that breaks a rule leaves the node as it was.
    pub fn step_with(&mut self, input: Event<Payload>, token: String) -> (result: Result<
        Vec<Message<Payload>>,
        ProtocolError,
    >)
        requires
            old(self)@.id < usize::MAX,
        ensures
            step_spec(old(self)@, input@, token@) == (Outcome {
                node: final(self)@,
                result: result_view(result),
            }),
            old(self)@.messages.subset_of(final(self)@.messages),
            old(self)@.wf() ==> final(self)@.wf(),
    {
        match input {
            Event::Injected(InjectedPayload::Gossip) => Ok(self.gossip()),
            Event::Message(request) => {
                let Message { src, dest, body } = request;
                let Body { id, in_reply_to, payload } = body;
                let answer = match payload {
                    Payload::Init { .. } => {
                        return Err(ProtocolError::RepeatedInit);
                    },
                    Payload::Echo { echo } => Payload::EchoOk { echo },
                    Payload::Generate => Payload::GenerateOk {
                        guid: make_guid(&self.node_id, self.id, &token),
                    },
                    Payload::Topology { topology } => match topology.get(&self.node_id) {
                        Some(neighbours) => {
                            self.neighbourhood = neighbours.clone();
                            Payload::TopologyOk
                        },
                        None => {
                            return Err(ProtocolError::MissingTopologyEntry);
                        },
                    },
                    Payload::Broadcast { message } => {
                        self.messages.insert(message);
                        Payload::BroadcastOk
                    },
                    Payload::Read => Payload::ReadOk { messages: copy_of(&self.messages) },
                    Payload::Gossip { seen } => {
                        absorb(&mut self.messages, &seen);
                        return Ok(nothing());
                    },
                    Payload::InitOk
                    | Payload::EchoOk { .. }
                    | Payload::GenerateOk { .. }
                    | Payload::TopologyOk
                    | Payload::BroadcastOk
                    | Payload::ReadOk { .. } => {
                        return Ok(nothing());
                    },
                };
                let answer = Message { src, dest, body: Body { id, in_reply_to, payload: answer } };
                let reply = answer.into_reply(Some(&mut self.id));
                Ok(only(reply))
            },
        }
    }

    /// The identifier that the next outgoing message with an identifier gets.
    pub fn id(&self) -> (id: usize)
        ensures
            id == self@.id,
    {
        self.id
    }

    /// The name of this node.
    pub fn node_id(&self) -> (name: &String)
        ensures
            name@ == self@.node_id,
    {
        &self.node_id
    }

    /// The members of the cluster at start, each once, in the order given.
    pub fn known_nodes(&self) -> (members: &Vec<String>)
        ensures
            members.deep_view() == self@.known_nodes,
    {
        &self.known_nodes
    }

    /// Every broadcast value that this node has learned.
    pub fn messages(&self) -> (values: &HashSet<usize>)
        ensures
            values@ == self@.messages,
    {
        &self.messages
    }

    /// The nodes that this node gossips with, in the order assigned.
    pub fn neighbourhood(&self) -> (peers: &Vec<String>)
        ensures
            peers.deep_view() == self@.neighbourhood,
    {
        &self.neighbourhood
    }

    /// One gossip message for each neighbour.
    fn gossip(&self) -> (out: Vec<Message<Payload>>)
        ensures
            out.deep_view() == gossip_round(self@),
    {
        let mut out: Vec<Message<Payload>> = Vec::new();
        let mut i: usize = 0;
        while i < self.neighbourhood.len()
            invariant
                i <= self.neighbourhood.len(),
                out.deep_view() == gossip_round(self@).take(i as int),
            decreases self.neighbourhood.len() - i,
        {
            let message = Message {
                src: self.node_id.clone(),
                dest: self.neighbourhood[i].clone(),
                body: Body {
                    id: None,
                    in_reply_to: None,
                    payload: Payload::Gossip { seen: copy_of(&self.messages) },
                },
            };
            let ghost sent = out.deep_view();
            out.push(message);
            assert(out.deep_view() =~= sent.push(message@));
            i = i + 1;
            assert(out.deep_view() =~= gossip_round(self@).take(i as int));
        }
        assert(gossip_round(self@).take(i as int) =~= gossip_round(self@));
        out
    }
}

} // verus!
