//! What can go wrong while a node serves, and what to do about it.

use vstd::prelude::*;
use vstd::string::*;

verus! {

/// A well-formed message that breaks the rules of the protocol.
#[derive(Debug, Clone, Copy, PartialEq, Eq)]
pub enum ProtocolError {
    /// The node was given an empty name.
    EmptyNodeId,
    /// The list of cluster members holds an empty name.
    MalformedMembership,
    /// The first message was not an `Init`.
    ExpectedInit,
    /// An `Init` arrived after the node had started.
    RepeatedInit,
    /// A `Topology` assigned no neighbours to this node.
    MissingTopologyEntry,
}

impl ProtocolError {
    /// A line for the operator that says what was wrong.
    pub fn describe(&self) -> (text: String)
        ensures
            text@ == match *self {
                ProtocolError::EmptyNodeId => "init names the node with an empty id"@,
                ProtocolError::MalformedMembership =>
                    "init lists a cluster member with an empty id"@,
                ProtocolError::ExpectedInit => "the first message must be init"@,
                ProtocolError::RepeatedInit => "init received after the node had started"@,
                ProtocolError::MissingTopologyEntry => "topology has no entry for this node"@,
            },
    {
        match self {
            ProtocolError::EmptyNodeId => String::from_str("init names the node with an empty id"),
            ProtocolError::MalformedMembership => String::from_str(
                "init lists a cluster member with an empty id",
            ),
            ProtocolError::ExpectedInit => String::from_str("the first message must be init"),
            ProtocolError::RepeatedInit => String::from_str(
                "init received after the node had started",
            ),
            ProtocolError::MissingTopologyEntry => String::from_str(
                "topology has no entry for this node",
            ),
        }
    }
}

/// The kinds of failure that the loop around a node meets.
#[derive(Debug, Clone, Copy, PartialEq, Eq)]
pub enum Failure {
    /// An inbound record is not a valid message.
    Decode,
    /// A valid message breaks the rules of the protocol.
    Protocol(ProtocolError),
    /// The outbound stream cannot be written.
    Io,
    /// A message of the node's own making cannot be encoded.
    Serialization,
}

/// What the loop does after a failure.
#[derive(Debug, Clone, Copy, PartialEq, Eq)]
pub enum Recovery {
    /// Report the failure, drop the one command, and go on.
    Skip,
    /// Report the failure and stop: no further useful work is possible.
    Abort,
}

impl Failure {
    /// Whether the node goes on after this failure. Before the node has
    /// started (`started` is false) nothing can be skipped: without its
    /// `Init` there is no node to go on with.
    pub fn recovery(&self, started: bool) -> (recovery: Recovery)
        ensures
            recovery == (if started && (*self is Decode || *self is Protocol) {
                Recovery::Skip
            } else {
                Recovery::Abort
            }),
    {
        if !started {
            return Recovery::Abort;
        }
        match self {
            Failure::Decode => Recovery::Skip,
            Failure::Protocol(_) => Recovery::Skip,
            Failure::Io => Recovery::Abort,
            Failure::Serialization => Recovery::Abort,
        }
    }
}

} // verus!
