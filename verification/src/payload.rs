//! The closed set of payloads that messages carry, and the events a node
//! reacts to.

use crate::message::{Message, MessageView};
use crate::sets::copy_of;
use std::collections::HashSet;
use vstd::prelude::*;

verus! {

/// The neighbour lists that a topology assignment gives to each node, as an
/// association list. Where a node is listed more than once, its last entry
/// counts.
#[derive(Debug, PartialEq, Eq)]
pub struct Topology {
    /// Node identifier and that node's neighbours, in the order given.
    pub entries: Vec<(String, Vec<String>)>,
}

/// The map that an association list stands for: every entry is inserted in
/// turn, so a later entry for the same node replaces an earlier one.
pub open spec fn adjacency(entries: Seq<(Seq<char>, Seq<Seq<char>>)>) -> Map<
    Seq<char>,
    Seq<Seq<char>>,
>
    decreases entries.len(),
{
    if entries.len() == 0 {
        Map::empty()
    } else {
        adjacency(entries.drop_last()).insert(entries.last().0, entries.last().1)
    }
}

/// A node that no entry from position `from` on names has, in the whole
/// list, what the entries before `from` give it.
pub proof fn lemma_adjacency_prefix(
    entries: Seq<(Seq<char>, Seq<Seq<char>>)>,
    from: int,
    key: Seq<char>,
)
    requires
        0 <= from <= entries.len(),
        forall|j: int| from <= j < entries.len() ==> entries[j].0 != key,
    ensures
        adjacency(entries).contains_key(key) == adjacency(entries.take(from)).contains_key(key),
        adjacency(entries).contains_key(key) ==> adjacency(entries)[key] == adjacency(
            entries.take(from),
        )[key],
    decreases entries.len() - from,
{
    if from == entries.len() {
        assert(entries.take(from) =~= entries);
    } else {
        let shorter = entries.drop_last();
        lemma_adjacency_prefix(shorter, from, key);
        assert(shorter.take(from) =~= entries.take(from));
    }
}

impl View for Topology {
    type V = Map<Seq<char>, Seq<Seq<char>>>;

    open spec fn view(&self) -> Map<Seq<char>, Seq<Seq<char>>> {
        adjacency(self.entries.deep_view())
    }
}

impl Topology {
    /// A topology that lists no node.
    pub fn new() -> (topology: Topology)
        ensures
            topology@ == Map::<Seq<char>, Seq<Seq<char>>>::empty(),
    {
        let topology = Topology { entries: Vec::new() };
        assert(topology.entries.deep_view() =~= Seq::empty());
        topology
    }

    /// Gives `node` the neighbours `neighbours`, replacing what it had.
    pub fn insert(&mut self, node: String, neighbours: Vec<String>)
        ensures
            final(self)@ == old(self)@.insert(node@, neighbours.deep_view()),
    {
        self.entries.push((node, neighbours));
        assert(self.entries.deep_view().drop_last() =~= old(self).entries.deep_view());
    }

    /// The neighbours assigned to `node`, if the topology lists it.
    pub fn get(&self, node: &String) -> (found: Option<&Vec<String>>)
        ensures
            match found {
                Some(neighbours) => self@.contains_key(node@) && self@[node@]
                    == neighbours.deep_view(),
                None => !self@.contains_key(node@),
            },
    {
        let ghost entries = self.entries.deep_view();
        let mut i: usize = self.entries.len();
        while i > 0
            invariant
                i <= self.entries.len(),
                entries == self.entries.deep_view(),
                forall|j: int| i <= j < entries.len() ==> entries[j].0 != node@,
            decreases i,
        {
            i = i - 1;
            if self.entries[i].0 == *node {
                proof {
                    lemma_adjacency_prefix(entries, i + 1, node@);
                    assert(entries.take(i + 1).drop_last() =~= entries.take(i as int));
                }
                return Some(&self.entries[i].1);
            }
        }
        proof {
            lemma_adjacency_prefix(entries, 0, node@);
        }
        None
    }
}

impl Clone for Topology {
    fn clone(&self) -> (copy: Topology)
        ensures
            copy.entries.deep_view() == self.entries.deep_view(),
            copy@ == self@,
    {
        let mut entries: Vec<(String, Vec<String>)> = Vec::new();
        let mut i: usize = 0;
        while i < self.entries.len()
            invariant
                i <= self.entries.len(),
                entries.deep_view() == self.entries.deep_view().take(i as int),
            decreases self.entries.len() - i,
        {
            let node = self.entries[i].0.clone();
            let neighbours = self.entries[i].1.clone();
            assert(neighbours@ =~= self.entries[i as int].1@);
            assert(neighbours.deep_view() =~= self.entries[i as int].1.deep_view());
            let ghost before = entries.deep_view();
            entries.push((node, neighbours));
            assert(entries.deep_view() =~= before.push(self.entries.deep_view()[i as int]));
            i = i + 1;
            assert(entries.deep_view() =~= self.entries.deep_view().take(i as int));
        }
        assert(self.entries.deep_view().take(i as int) =~= self.entries.deep_view());
        Topology { entries }
    }
}

/// Everything a message can say.
#[derive(Debug, PartialEq, Eq)]
pub enum Payload {
    /// Names the receiving node and the members of the cluster.
    Init { node_id: String, node_ids: Vec<String> },
    /// Confirms an `Init`.
    InitOk,
    /// Adds one value to the node's broadcast set.
    Broadcast { message: usize },
    /// Confirms a `Broadcast`.
    BroadcastOk,
    /// Asks for the text to be sent back.
    Echo { echo: String },
    /// Answers an `Echo` with the same text.
    EchoOk { echo: String },
    /// Asks for an identifier that no other request will ever get.
    Generate,
    /// Answers a `Generate` with the identifier.
    GenerateOk { guid: String },
    /// Tells a neighbour every value that the sender knows. Never answered.
    Gossip { seen: HashSet<usize> },
    /// Asks for the node's broadcast set.
    Read,
    /// Answers a `Read` with the broadcast set as it was when handled.
    ReadOk { messages: HashSet<usize> },
    /// Assigns every node its neighbours.
    Topology { topology: Topology },
    /// Confirms a `Topology`.
    TopologyOk,
}

/// Mathematical model of a [`Payload`].
pub enum PayloadView {
    Init { node_id: Seq<char>, node_ids: Seq<Seq<char>> },
    InitOk,
    Broadcast { message: usize },
    BroadcastOk,
    Echo { echo: Seq<char> },
    EchoOk { echo: Seq<char> },
    Generate,
    GenerateOk { guid: Seq<char> },
    Gossip { seen: Set<usize> },
    Read,
    ReadOk { messages: Set<usize> },
    Topology { topology: Map<Seq<char>, Seq<Seq<char>>> },
    TopologyOk,
}

impl View for Payload {
    type V = PayloadView;

    open spec fn view(&self) -> PayloadView {
        match *self {
            Payload::Init { node_id, node_ids } => PayloadView::Init {
                node_id: node_id@,
                node_ids: node_ids.deep_view(),
            },
            Payload::InitOk => PayloadView::InitOk,
            Payload::Broadcast { message } => PayloadView::Broadcast { message },
            Payload::BroadcastOk => PayloadView::BroadcastOk,
            Payload::Echo { echo } => PayloadView::Echo { echo: echo@ },
            Payload::EchoOk { echo } => PayloadView::EchoOk { echo: echo@ },
            Payload::Generate => PayloadView::Generate,
            Payload::GenerateOk { guid } => PayloadView::GenerateOk { guid: guid@ },
            Payload::Gossip { seen } => PayloadView::Gossip { seen: seen@ },
            Payload::Read => PayloadView::Read,
            Payload::ReadOk { messages } => PayloadView::ReadOk { messages: messages@ },
            Payload::Topology { topology } => PayloadView::Topology { topology: topology@ },
            Payload::TopologyOk => PayloadView::TopologyOk,
        }
    }
}

impl Clone for Payload {
    fn clone(&self) -> (copy: Payload)
        ensures
            copy@ == self@,
    {
        match self {
            Payload::Init { node_id, node_ids } => Payload::Init {
                node_id: node_id.clone(),
                node_ids: node_ids.clone(),
            },
            Payload::InitOk => Payload::InitOk,
            Payload::Broadcast { message } => Payload::Broadcast { message: *message },
            Payload::BroadcastOk => Payload::BroadcastOk,
            Payload::Echo { echo } => Payload::Echo { echo: echo.clone() },
            Payload::EchoOk { echo } => Payload::EchoOk { echo: echo.clone() },
            Payload::Generate => Payload::Generate,
            Payload::GenerateOk { guid } => Payload::GenerateOk { guid: guid.clone() },
            Payload::Gossip { seen } => Payload::Gossip { seen: copy_of(seen) },
            Payload::Read => Payload::Read,
            Payload::ReadOk { messages } => Payload::ReadOk { messages: copy_of(messages) },
            Payload::Topology { topology } => Payload::Topology { topology: topology.clone() },
            Payload::TopologyOk => Payload::TopologyOk,
        }
    }
}

/// What a node injects into its own stream of work.
#[derive(Debug, Clone, Copy, PartialEq, Eq)]
pub enum InjectedPayload {
    /// Time to tell the neighbours what this node knows.
    Gossip,
}

/// One unit of work for a node.
#[derive(Debug, PartialEq, Eq)]
pub enum Event<P> {
    /// A message that arrived from outside.
    Message(Message<P>),
    /// Work that the node set itself.
    Injected(InjectedPayload),
}

impl<P: Clone> Clone for Event<P> {
    fn clone(&self) -> (copy: Event<P>)
        ensures
            match (*self, copy) {
                (Event::Message(message), Event::Message(other)) => {
                    &&& other.src == message.src
                    &&& other.dest == message.dest
                    &&& other.body.id == message.body.id
                    &&& other.body.in_reply_to == message.body.in_reply_to
                    &&& cloned(message.body.payload, other.body.payload)
                },
                (Event::Injected(injected), Event::Injected(other)) => other == injected,
                _ => false,
            },
    {
        match self {
            Event::Message(message) => Event::Message(message.clone()),
            Event::Injected(injected) => Event::Injected(*injected),
        }
    }
}

/// Mathematical model of an [`Event`].
pub enum EventView<V> {
    Message(MessageView<V>),
    Injected(InjectedPayload),
}

impl<P: View> View for Event<P> {
    type V = EventView<P::V>;

    open spec fn view(&self) -> EventView<P::V> {
        match *self {
            Event::Message(message) => EventView::Message(message@),
            Event::Injected(injected) => EventView::Injected(injected),
        }
    }
}

} // verus!
