//! The message envelope and the construction of replies.

use vstd::prelude::*;

verus! {

/// What every message carries besides its payload.
#[derive(Debug, PartialEq, Eq)]
pub struct Body<P> {
    /// Identifier chosen by the sender, if the message carries one.
    pub id: Option<usize>,
    /// Identifier of the request that this message answers, if any.
    pub in_reply_to: Option<usize>,
    /// The typed content.
    pub payload: P,
}

/// A complete message: who sent it, whom it is for, and its body.
#[derive(Debug, PartialEq, Eq)]
pub struct Message<P> {
    /// The sender.
    pub src: String,
    /// The recipient.
    pub dest: String,
    /// Identifiers and payload.
    pub body: Body<P>,
}

impl<P: Clone> Clone for Body<P> {
    fn clone(&self) -> (copy: Body<P>)
        ensures
            copy.id == self.id,
            copy.in_reply_to == self.in_reply_to,
            cloned(self.payload, copy.payload),
    {
        Body { id: self.id, in_reply_to: self.in_reply_to, payload: self.payload.clone() }
    }
}

impl<P: Clone> Clone for Message<P> {
    fn clone(&self) -> (copy: Message<P>)
        ensures
            copy.src == self.src,
            copy.dest == self.dest,
            copy.body.id == self.body.id,
            copy.body.in_reply_to == self.body.in_reply_to,
            cloned(self.body.payload, copy.body.payload),
    {
        Message { src: self.src.clone(), dest: self.dest.clone(), body: self.body.clone() }
    }
}

/// Mathematical model of a [`Body`].
pub struct BodyView<V> {
    pub id: Option<usize>,
    pub in_reply_to: Option<usize>,
    pub payload: V,
}

/// Mathematical model of a [`Message`].
pub struct MessageView<V> {
    pub src: Seq<char>,
    pub dest: Seq<char>,
    pub body: BodyView<V>,
}

impl<P: View> View for Body<P> {
    type V = BodyView<P::V>;

    open spec fn view(&self) -> BodyView<P::V> {
        BodyView { id: self.id, in_reply_to: self.in_reply_to, payload: self.payload@ }
    }
}

impl<P: View> View for Message<P> {
    type V = MessageView<P::V>;

    open spec fn view(&self) -> MessageView<P::V> {
        MessageView { src: self.src@, dest: self.dest@, body: self.body@ }
    }
}

impl<P: View> DeepView for Message<P> {
    type V = MessageView<P::V>;

    open spec fn deep_view(&self) -> MessageView<P::V> {
        self@
    }
}

impl<V> MessageView<V> {
    /// The answer to `self`: the two ends swapped, `in_reply_to` echoing the
    /// request's identifier, carrying `id` and `payload`.
    pub open spec fn answer(self, id: Option<usize>, payload: V) -> MessageView<V> {
        MessageView {
            src: self.dest,
            dest: self.src,
            body: BodyView { id, in_reply_to: self.body.id, payload },
        }
    }
}

impl<P> Message<P> {
    /// Turns a request into the skeleton of its answer.
    ///
    /// Source and destination are swapped and `in_reply_to` takes the
    /// request's identifier. When a counter is supplied, the reply's own
    /// identifier is drawn from it and the counter moves on by one; without a
    /// counter the reply carries no identifier. The payload is carried over
    /// unchanged for the caller to replace.
    pub fn into_reply(self, id: Option<&mut usize>) -> (reply: Self)
        requires
            id matches Some(counter) ==> *counter < usize::MAX,
        ensures
            reply.src == self.dest,
            reply.dest == self.src,
            reply.body.in_reply_to == self.body.id,
            reply.body.payload == self.body.payload,
            match id {
                Some(counter) => reply.body.id == Some(*counter) && *final(counter) == *counter
                    + 1,
                None => reply.body.id.is_none(),
            },
    {
        let drawn = match id {
            Some(counter) => {
                let current: usize = *counter;
                *counter = current + 1;
                Some(current)
            },
            None => None,
        };
        Message {
            src: self.dest,
            dest: self.src,
            body: Body { id: drawn, in_reply_to: self.body.id, payload: self.body.payload },
        }
    }
}

} // verus!
