//! Gossip spreads every value along the neighbourhood graph: whatever a node
//! knows reaches each node that a chain of neighbours leads to, one link of
//! the chain per cycle of gossip.

use crate::message::MessageView;
use crate::payload::{EventView, InjectedPayload, PayloadView};
use crate::state::{gossip_round, step_spec, NodeView};
use vstd::prelude::*;

verus! {

/// The node after every message of `messages` that is addressed to it has
/// been delivered, in order.
pub open spec fn deliver(node: NodeView, messages: Seq<MessageView<PayloadView>>) -> NodeView
    decreases messages.len(),
{
    if messages.len() == 0 {
        node
    } else {
        let before = deliver(node, messages.drop_last());
        if messages.last().dest == node.node_id {
            step_spec(before, EventView::Message(messages.last()), Seq::empty()).node
        } else {
            before
        }
    }
}

/// Everything that the nodes of a cluster send when each of them handles one
/// gossip tick.
pub open spec fn outbox(cluster: Seq<NodeView>) -> Seq<MessageView<PayloadView>>
    decreases cluster.len(),
{
    if cluster.len() == 0 {
        Seq::empty()
    } else {
        outbox(cluster.drop_last()) + step_spec(
            cluster.last(),
            EventView::Injected(InjectedPayload::Gossip),
            Seq::empty(),
        ).result->Ok_0
    }
}

/// One cycle of gossip: every node handles a tick, and every message sent is
/// delivered.
pub open spec fn cycle(cluster: Seq<NodeView>) -> Seq<NodeView> {
    Seq::new(cluster.len(), |k: int| deliver(cluster[k], outbox(cluster)))
}

/// `count` cycles of gossip, one after the other.
pub open spec fn cycles(cluster: Seq<NodeView>, count: nat) -> Seq<NodeView>
    decreases count,
{
    if count == 0 {
        cluster
    } else {
        cycle(cycles(cluster, (count - 1) as nat))
    }
}

/// Whether every node of `path` but the first is a neighbour of the node
/// before it. `path` holds positions in `cluster`.
pub open spec fn is_chain(cluster: Seq<NodeView>, path: Seq<int>) -> bool {
    &&& path.len() >= 1
    &&& forall|i: int| 0 <= i < path.len() ==> 0 <= #[trigger] path[i] < cluster.len()
    &&& forall|i: int|
        0 <= i < path.len() - 1 ==> cluster[#[trigger] path[i]].neighbourhood.contains(
            cluster[path[i + 1]].node_id,
        )
}

/// Whether all of `messages` are gossip.
pub open spec fn all_gossip(messages: Seq<MessageView<PayloadView>>) -> bool {
    forall|i: int| 0 <= i < messages.len() ==> (#[trigger] messages[i]).body.payload is Gossip
}

/// Delivering gossip changes nothing of a node but its broadcast set, which
/// loses nothing and gains what each message addressed to the node holds.
pub proof fn lemma_deliver(node: NodeView, messages: Seq<MessageView<PayloadView>>)
    requires
        all_gossip(messages),
    ensures
        deliver(node, messages).node_id == node.node_id,
        deliver(node, messages).neighbourhood == node.neighbourhood,
        node.messages.subset_of(deliver(node, messages).messages),
        forall|i: int|
            0 <= i < messages.len() && (#[trigger] messages[i]).dest == node.node_id
                ==> messages[i].body.payload->seen.subset_of(deliver(node, messages).messages),
    decreases messages.len(),
{
    if messages.len() > 0 {
        let earlier = messages.drop_last();
        lemma_deliver(node, earlier);
        assert(messages.last().body.payload is Gossip);
        assert forall|i: int|
            0 <= i < messages.len() && (#[trigger] messages[i]).dest
                == node.node_id implies messages[i].body.payload->seen.subset_of(
            deliver(node, messages).messages,
        ) by {
            if i < earlier.len() {
                assert(earlier[i] == messages[i]);
            }
        }
    }
}

/// The outbox of a cluster is gossip only, and holds what node `sender`
/// sends to each of its neighbours: here to the one at position `link` of its
/// neighbourhood.
pub proof fn lemma_outbox(cluster: Seq<NodeView>, sender: int, link: int)
    requires
        0 <= sender < cluster.len(),
        0 <= link < cluster[sender].neighbourhood.len(),
    ensures
        all_gossip(outbox(cluster)),
        exists|i: int|
            0 <= i < outbox(cluster).len() && #[trigger] outbox(cluster)[i] == gossip_round(
                cluster[sender],
            )[link],
    decreases cluster.len(),
{
    let earlier = cluster.drop_last();
    let round = gossip_round(cluster.last());
    lemma_outbox_is_gossip(cluster);
    if sender < earlier.len() {
        lemma_outbox(earlier, sender, link);
        let i = choose|i: int|
            0 <= i < outbox(earlier).len() && #[trigger] outbox(earlier)[i] == gossip_round(
                earlier[sender],
            )[link];
        assert(outbox(cluster)[i] == outbox(earlier)[i]);
    } else {
        assert(outbox(cluster)[outbox(earlier).len() + link] == round[link]);
    }
}

/// The outbox of a cluster is gossip only.
pub proof fn lemma_outbox_is_gossip(cluster: Seq<NodeView>)
    ensures
        all_gossip(outbox(cluster)),
    decreases cluster.len(),
{
    if cluster.len() > 0 {
        let earlier = cluster.drop_last();
        let round = gossip_round(cluster.last());
        lemma_outbox_is_gossip(earlier);
        assert forall|i: int| 0 <= i < outbox(cluster).len() implies (#[trigger] outbox(
            cluster,
        )[i]).body.payload is Gossip by {
            if i < outbox(earlier).len() {
                assert(outbox(cluster)[i] == outbox(earlier)[i]);
            } else {
                assert(outbox(cluster)[i] == round[i - outbox(earlier).len()]);
            }
        }
    }
}

/// Cycles of gossip keep the size of the cluster, every node's name and
/// neighbours, and every value that a node has.
pub proof fn lemma_cycles_keep(cluster: Seq<NodeView>, count: nat)
    ensures
        cycles(cluster, count).len() == cluster.len(),
        forall|k: int|
            0 <= k < cluster.len() ==> {
                &&& (#[trigger] cycles(cluster, count)[k]).node_id == cluster[k].node_id
                &&& cycles(cluster, count)[k].neighbourhood == cluster[k].neighbourhood
                &&& cluster[k].messages.subset_of(cycles(cluster, count)[k].messages)
            },
    decreases count,
{
    if count > 0 {
        let before = cycles(cluster, (count - 1) as nat);
        lemma_cycles_keep(cluster, (count - 1) as nat);
        lemma_outbox_is_gossip(before);
        assert forall|k: int| 0 <= k < cluster.len() implies {
            &&& (#[trigger] cycles(cluster, count)[k]).node_id == cluster[k].node_id
            &&& cycles(cluster, count)[k].neighbourhood == cluster[k].neighbourhood
            &&& cluster[k].messages.subset_of(cycles(cluster, count)[k].messages)
        } by {
            lemma_deliver(before[k], outbox(before));
        }
    }
}

/// One cycle of gossip carries every value of a node to each of its
/// neighbours.
pub proof fn lemma_cycle_reaches_neighbour(
    cluster: Seq<NodeView>,
    sender: int,
    receiver: int,
    value: usize,
)
    requires
        0 <= sender < cluster.len(),
        0 <= receiver < cluster.len(),
        cluster[sender].neighbourhood.contains(cluster[receiver].node_id),
        cluster[sender].messages.contains(value),
    ensures
        cycle(cluster)[receiver].messages.contains(value),
{
    let link = choose|link: int|
        0 <= link < cluster[sender].neighbourhood.len() && cluster[sender].neighbourhood[link]
            == cluster[receiver].node_id;
    lemma_outbox(cluster, sender, link);
    let i = choose|i: int|
        0 <= i < outbox(cluster).len() && #[trigger] outbox(cluster)[i] == gossip_round(
            cluster[sender],
        )[link];
    lemma_deliver(cluster[receiver], outbox(cluster));
    assert(outbox(cluster)[i].dest == cluster[receiver].node_id);
    assert(outbox(cluster)[i].body.payload->seen == cluster[sender].messages);
}

/// Convergence: a value that the first node of a chain of neighbours knows
/// is known to the last node of the chain after as many cycles of gossip as
/// the chain has links, and after any greater number of cycles.
pub proof fn lemma_gossip_converges(
    cluster: Seq<NodeView>,
    path: Seq<int>,
    value: usize,
    count: nat,
)
    requires
        is_chain(cluster, path),
        cluster[path[0]].messages.contains(value),
        count >= path.len() - 1,
    ensures
        cycles(cluster, count).len() == cluster.len(),
        cycles(cluster, count)[path.last()].messages.contains(value),
    decreases count,
{
    lemma_cycles_keep(cluster, count);
    if path.len() == 1 {
        assert(cluster[path[0]].messages.subset_of(cycles(cluster, count)[path[0]].messages));
    } else {
        let shorter = path.drop_last();
        let before = cycles(cluster, (count - 1) as nat);
        assert(is_chain(cluster, shorter)) by {
            assert forall|i: int| 0 <= i < shorter.len() - 1 implies cluster[
                #[trigger] shorter[i]
            ].neighbourhood.contains(cluster[shorter[i + 1]].node_id) by {
                assert(shorter[i] == path[i]);
                assert(shorter[i + 1] == path[i + 1]);
            }
        }
        lemma_gossip_converges(cluster, shorter, value, (count - 1) as nat);
        lemma_cycles_keep(cluster, (count - 1) as nat);
        let sender = shorter.last();
        let receiver = path.last();
        assert(sender == path[path.len() - 2]);
        assert(cluster[path[path.len() - 2]].neighbourhood.contains(
            cluster[path[path.len() - 2 + 1]].node_id,
        ));
        assert(before[sender].neighbourhood == cluster[sender].neighbourhood);
        assert(before[receiver].node_id == cluster[receiver].node_id);
        lemma_cycle_reaches_neighbour(before, sender, receiver, value);
    }
}

} // verus!
