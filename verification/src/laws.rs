//! What holds of nodes over many events: values are never lost and
//! broadcasting is idempotent, answers carry rising identifiers, and no two
//! generated identifiers are equal.

use crate::ident::{guid_of, is_token, lemma_guid_injective};
use crate::message::MessageView;
use crate::payload::{EventView, PayloadView};
use crate::state::{step_spec, wants_token, NodeView, Outcome};
use vstd::prelude::*;

verus! {

/// The messages that an outcome sends: none where the event was refused.
pub open spec fn outputs(outcome: Outcome) -> Seq<MessageView<PayloadView>> {
    match outcome.result {
        Ok(messages) => messages,
        Err(_) => Seq::empty(),
    }
}

/// The node after it has handled `events` in order, `tokens[i]` being the
/// random token on hand for `events[i]`.
pub open spec fn run(
    node: NodeView,
    events: Seq<EventView<PayloadView>>,
    tokens: Seq<Seq<char>>,
) -> NodeView
    decreases events.len(),
{
    if events.len() == 0 {
        node
    } else {
        step_spec(
            run(node, events.drop_last(), tokens.drop_last()),
            events.last(),
            tokens.last(),
        ).node
    }
}

/// Everything the node sends while it handles `events` in order.
pub open spec fn sent(
    node: NodeView,
    events: Seq<EventView<PayloadView>>,
    tokens: Seq<Seq<char>>,
) -> Seq<MessageView<PayloadView>>
    decreases events.len(),
{
    if events.len() == 0 {
        Seq::empty()
    } else {
        sent(node, events.drop_last(), tokens.drop_last()) + outputs(
            step_spec(
                run(node, events.drop_last(), tokens.drop_last()),
                events.last(),
                tokens.last(),
            ),
        )
    }
}

/// Handling a `Broadcast` of a value a second time leaves the broadcast set
/// as the first time left it.
pub proof fn lemma_broadcast_idempotent(
    node: NodeView,
    first: MessageView<PayloadView>,
    second: MessageView<PayloadView>,
    value: usize,
    first_token: Seq<char>,
    second_token: Seq<char>,
)
    requires
        first.body.payload == (PayloadView::Broadcast { message: value }),
        second.body.payload == (PayloadView::Broadcast { message: value }),
    ensures
        ({
            let once = step_spec(node, EventView::Message(first), first_token).node;
            let twice = step_spec(once, EventView::Message(second), second_token).node;
            &&& once.messages == node.messages.insert(value)
            &&& twice.messages == once.messages
        }),
{
    let once = step_spec(node, EventView::Message(first), first_token).node;
    let twice = step_spec(once, EventView::Message(second), second_token).node;
    assert(twice.messages =~= once.messages);
}

/// No event takes a value out of the broadcast set, and none changes the
/// node's name or its list of members.
pub proof fn lemma_step_keeps_values(
    node: NodeView,
    event: EventView<PayloadView>,
    token: Seq<char>,
)
    ensures
        node.messages.subset_of(step_spec(node, event, token).node.messages),
        step_spec(node, event, token).node.node_id == node.node_id,
        step_spec(node, event, token).node.known_nodes == node.known_nodes,
{
}

/// The same over any number of events.
pub proof fn lemma_run_keeps_values(
    node: NodeView,
    events: Seq<EventView<PayloadView>>,
    tokens: Seq<Seq<char>>,
)
    ensures
        node.messages.subset_of(run(node, events, tokens).messages),
        run(node, events, tokens).node_id == node.node_id,
        run(node, events, tokens).known_nodes == node.known_nodes,
    decreases events.len(),
{
    if events.len() > 0 {
        lemma_run_keeps_values(node, events.drop_last(), tokens.drop_last());
        lemma_step_keeps_values(
            run(node, events.drop_last(), tokens.drop_last()),
            events.last(),
            tokens.last(),
        );
    }
}

/// The broadcast values that an event brings.
pub open spec fn carried(event: EventView<PayloadView>) -> Set<usize> {
    match event {
        EventView::Message(message) => match message.body.payload {
            PayloadView::Broadcast { message } => set![message],
            PayloadView::Gossip { seen } => seen,
            _ => Set::empty(),
        },
        EventView::Injected(_) => Set::empty(),
    }
}

/// The broadcast values that any of `events` brings.
pub open spec fn learned(events: Seq<EventView<PayloadView>>) -> Set<usize>
    decreases events.len(),
{
    if events.len() == 0 {
        Set::empty()
    } else {
        learned(events.drop_last()).union(carried(events.last()))
    }
}

/// After any run a node knows what it knew before and what the events
/// brought, no more and no less: neither the order of the events nor their
/// repetition makes a difference.
pub proof fn lemma_run_learns(
    node: NodeView,
    events: Seq<EventView<PayloadView>>,
    tokens: Seq<Seq<char>>,
)
    ensures
        run(node, events, tokens).messages == node.messages.union(learned(events)),
    decreases events.len(),
{
    if events.len() > 0 {
        lemma_run_learns(node, events.drop_last(), tokens.drop_last());
    }
    assert(run(node, events, tokens).messages =~= node.messages.union(learned(events)));
}

/// What a node learns does not depend on the order in which it learns it:
/// two events that are broadcasts or gossip leave the same broadcast set
/// whichever comes first.
pub proof fn lemma_learning_commutes(
    node: NodeView,
    one: MessageView<PayloadView>,
    other: MessageView<PayloadView>,
    token: Seq<char>,
)
    requires
        one.body.payload is Broadcast || one.body.payload is Gossip,
        other.body.payload is Broadcast || other.body.payload is Gossip,
    ensures
        ({
            let one_first = step_spec(
                step_spec(node, EventView::Message(one), token).node,
                EventView::Message(other),
                token,
            ).node;
            let other_first = step_spec(
                step_spec(node, EventView::Message(other), token).node,
                EventView::Message(one),
                token,
            ).node;
            one_first.messages == other_first.messages
        }),
{
    let one_first = step_spec(
        step_spec(node, EventView::Message(one), token).node,
        EventView::Message(other),
        token,
    ).node;
    let other_first = step_spec(
        step_spec(node, EventView::Message(other), token).node,
        EventView::Message(one),
        token,
    ).node;
    assert(one_first.messages =~= other_first.messages);
}

/// Only a `Generate` reads the token.
pub proof fn lemma_token_read_by_generate_only(
    node: NodeView,
    event: EventView<PayloadView>,
    token: Seq<char>,
    other: Seq<char>,
)
    requires
        !wants_token(event),
    ensures
        step_spec(node, event, token) == step_spec(node, event, other),
{
}

/// A request is answered at most once, and the answer goes back where the
/// request came from, names the request in `in_reply_to`, and takes the
/// node's next identifier, after which the node's counter stands one higher.
pub proof fn lemma_answer_matches_request(
    node: NodeView,
    request: MessageView<PayloadView>,
    token: Seq<char>,
)
    requires
        node.id < usize::MAX,
    ensures
        ({
            let outcome = step_spec(node, EventView::Message(request), token);
            let out = outputs(outcome);
            &&& out.len() <= 1
            &&& out.len() == 1 ==> {
                &&& out[0].src == request.dest
                &&& out[0].dest == request.src
                &&& out[0].body.in_reply_to == request.body.id
                &&& out[0].body.id == Some(node.id)
                &&& outcome.node.id == node.id + 1
            }
            &&& out.len() == 0 ==> outcome.node.id == node.id
        }),
{
}

/// Whether `message`, if it carries a generated identifier, carries one that
/// the node named `node_id` made at the counter value that is the message's
/// own identifier.
pub open spec fn minted_by(message: MessageView<PayloadView>, node_id: Seq<char>) -> bool {
    message.body.payload matches PayloadView::GenerateOk { guid } ==> {
        &&& message.body.id is Some
        &&& exists|token: Seq<char>|
            is_token(token) && guid == #[trigger] guid_of(
                node_id,
                message.body.id->0 as nat,
                token,
            )
    }
}

/// Over a run, the counter never falls and moves by at most one per event;
/// every identifier sent was drawn from the counter during the run; and
/// every generated identifier was made by this node at the counter value
/// that its message carries.
pub proof fn lemma_run_identifiers(
    node: NodeView,
    events: Seq<EventView<PayloadView>>,
    tokens: Seq<Seq<char>>,
)
    requires
        events.len() == tokens.len(),
        node.id + events.len() <= usize::MAX,
        forall|k: int| 0 <= k < tokens.len() ==> is_token(#[trigger] tokens[k]),
    ensures
        node.id <= run(node, events, tokens).id <= node.id + events.len(),
        forall|p: int|
            0 <= p < sent(node, events, tokens).len() ==> (#[trigger] sent(
                node,
                events,
                tokens,
            )[p]).body.id is Some ==> node.id <= sent(node, events, tokens)[p].body.id->0 < run(
                node,
                events,
                tokens,
            ).id,
        forall|p: int|
            0 <= p < sent(node, events, tokens).len() ==> minted_by(
                #[trigger] sent(node, events, tokens)[p],
                node.node_id,
            ),
    decreases events.len(),
{
    if events.len() > 0 {
        let earlier = events.drop_last();
        let earlier_tokens = tokens.drop_last();
        lemma_run_identifiers(node, earlier, earlier_tokens);
        lemma_run_keeps_values(node, earlier, earlier_tokens);
        let before = run(node, earlier, earlier_tokens);
        let outcome = step_spec(before, events.last(), tokens.last());
        let all = sent(node, events, tokens);
        let old_sent = sent(node, earlier, earlier_tokens);
        assert(is_token(tokens.last()));
        assert forall|p: int| 0 <= p < all.len() implies minted_by(
            #[trigger] all[p],
            node.node_id,
        ) by {
            if p < old_sent.len() {
                assert(all[p] == old_sent[p]);
            } else {
                assert(all[p] == outputs(outcome)[p - old_sent.len()]);
                if all[p].body.payload is GenerateOk {
                    assert(all[p].body.payload->guid == guid_of(
                        node.node_id,
                        all[p].body.id->0 as nat,
                        tokens.last(),
                    ));
                }
            }
        }
        assert forall|p: int|
            0 <= p < all.len() && (#[trigger] all[p]).body.id is Some implies node.id
                <= all[p].body.id->0 < run(node, events, tokens).id by {
            if p < old_sent.len() {
                assert(all[p] == old_sent[p]);
            } else {
                assert(all[p] == outputs(outcome)[p - old_sent.len()]);
            }
        }
    }
}

/// Identifiers rise along a run: of two messages that a node sends with an
/// identifier, the later one has the greater.
pub proof fn lemma_identifiers_rise(
    node: NodeView,
    events: Seq<EventView<PayloadView>>,
    tokens: Seq<Seq<char>>,
    earlier: int,
    later: int,
)
    requires
        events.len() == tokens.len(),
        node.id + events.len() <= usize::MAX,
        forall|k: int| 0 <= k < tokens.len() ==> is_token(#[trigger] tokens[k]),
        0 <= earlier < later < sent(node, events, tokens).len(),
        sent(node, events, tokens)[earlier].body.id is Some,
        sent(node, events, tokens)[later].body.id is Some,
    ensures
        sent(node, events, tokens)[earlier].body.id->0 < sent(
            node,
            events,
            tokens,
        )[later].body.id->0,
    decreases events.len(),
{
    let shorter = events.drop_last();
    let shorter_tokens = tokens.drop_last();
    let old_sent = sent(node, shorter, shorter_tokens);
    let before = run(node, shorter, shorter_tokens);
    let outcome = step_spec(before, events.last(), tokens.last());
    let all = sent(node, events, tokens);
    lemma_run_identifiers(node, shorter, shorter_tokens);
    if later < old_sent.len() {
        assert(all[earlier] == old_sent[earlier]);
        assert(all[later] == old_sent[later]);
        lemma_identifiers_rise(node, shorter, shorter_tokens, earlier, later);
    } else {
        assert(all[later] == outputs(outcome)[later - old_sent.len()]);
        if earlier < old_sent.len() {
            assert(all[earlier] == old_sent[earlier]);
        } else {
            assert(all[earlier] == outputs(outcome)[earlier - old_sent.len()]);
        }
    }
}

/// A node never generates the same identifier twice.
pub proof fn lemma_generated_ids_differ_within_node(
    node: NodeView,
    events: Seq<EventView<PayloadView>>,
    tokens: Seq<Seq<char>>,
    earlier: int,
    later: int,
)
    requires
        events.len() == tokens.len(),
        node.id + events.len() <= usize::MAX,
        forall|k: int| 0 <= k < tokens.len() ==> is_token(#[trigger] tokens[k]),
        0 <= earlier < later < sent(node, events, tokens).len(),
        sent(node, events, tokens)[earlier].body.payload is GenerateOk,
        sent(node, events, tokens)[later].body.payload is GenerateOk,
    ensures
        sent(node, events, tokens)[earlier].body.payload->guid != sent(
            node,
            events,
            tokens,
        )[later].body.payload->guid,
{
    let all = sent(node, events, tokens);
    lemma_run_identifiers(node, events, tokens);
    assert(minted_by(all[earlier], node.node_id));
    assert(minted_by(all[later], node.node_id));
    lemma_identifiers_rise(node, events, tokens, earlier, later);
    lemma_minted_differ(all[earlier], node.node_id, all[later], node.node_id);
}

/// Two nodes with different names never generate the same identifier.
pub proof fn lemma_generated_ids_differ_across_nodes(
    node_a: NodeView,
    events_a: Seq<EventView<PayloadView>>,
    tokens_a: Seq<Seq<char>>,
    at_a: int,
    node_b: NodeView,
    events_b: Seq<EventView<PayloadView>>,
    tokens_b: Seq<Seq<char>>,
    at_b: int,
)
    requires
        node_a.node_id != node_b.node_id,
        events_a.len() == tokens_a.len(),
        events_b.len() == tokens_b.len(),
        node_a.id + events_a.len() <= usize::MAX,
        node_b.id + events_b.len() <= usize::MAX,
        forall|k: int| 0 <= k < tokens_a.len() ==> is_token(#[trigger] tokens_a[k]),
        forall|k: int| 0 <= k < tokens_b.len() ==> is_token(#[trigger] tokens_b[k]),
        0 <= at_a < sent(node_a, events_a, tokens_a).len(),
        0 <= at_b < sent(node_b, events_b, tokens_b).len(),
        sent(node_a, events_a, tokens_a)[at_a].body.payload is GenerateOk,
        sent(node_b, events_b, tokens_b)[at_b].body.payload is GenerateOk,
    ensures
        sent(node_a, events_a, tokens_a)[at_a].body.payload->guid != sent(
            node_b,
            events_b,
            tokens_b,
        )[at_b].body.payload->guid,
{
    lemma_run_identifiers(node_a, events_a, tokens_a);
    lemma_run_identifiers(node_b, events_b, tokens_b);
    let a = sent(node_a, events_a, tokens_a)[at_a];
    let b = sent(node_b, events_b, tokens_b)[at_b];
    assert(minted_by(a, node_a.node_id));
    assert(minted_by(b, node_b.node_id));
    lemma_minted_differ(a, node_a.node_id, b, node_b.node_id);
}

/// Two generated identifiers differ if they were made by nodes of different
/// names or at different counter values.
proof fn lemma_minted_differ(
    a: MessageView<PayloadView>,
    node_a: Seq<char>,
    b: MessageView<PayloadView>,
    node_b: Seq<char>,
)
    requires
        a.body.payload is GenerateOk,
        b.body.payload is GenerateOk,
        minted_by(a, node_a),
        minted_by(b, node_b),
        node_a != node_b || a.body.id != b.body.id,
    ensures
        a.body.payload->guid != b.body.payload->guid,
{
    let token_a = choose|token: Seq<char>|
        is_token(token) && a.body.payload->guid == #[trigger] guid_of(
            node_a,
            a.body.id->0 as nat,
            token,
        );
    let token_b = choose|token: Seq<char>|
        is_token(token) && b.body.payload->guid == #[trigger] guid_of(
            node_b,
            b.body.id->0 as nat,
            token,
        );
    if a.body.payload->guid == b.body.payload->guid {
        lemma_guid_injective(
            node_a,
            a.body.id->0 as nat,
            token_a,
            node_b,
            b.body.id->0 as nat,
            token_b,
        );
    }
}

} // verus!
