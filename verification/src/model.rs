use crate::error::NodeError;
use crate::message::{BodyView, MessageView, PayloadView};
use crate::node_id::word_index;
use vstd::prelude::*;

verus! {

/// The state of a node as a mathematical value.
#[verifier::ext_equal]
pub struct NodeView {
    /// Whether the node has been given its identity.
    pub initialized: bool,
    /// The node's own identity.
    pub id: Seq<char>,
    /// Every node of the cluster, this one included.
    pub peers: Seq<Seq<char>>,
    /// The nodes this one forwards new broadcast values to.
    pub neighbors: Seq<Seq<char>>,
    /// The sequence number that the next outbound message will carry.
    pub next_msg_id: nat,
    /// The identifier that the next `generate` request will be given.
    pub id_cursor: nat,
    /// Every broadcast value the node has learned.
    pub seen: Set<usize>,
}

/// An outbound message before it is given its sender and sequence number.
pub struct Draft {
    pub dest: Seq<char>,
    pub in_reply_to: Option<nat>,
    pub payload: PayloadView,
}

/// What accepting one inbound message does: the state it leaves the node in
/// and the messages it sends, in order.
#[verifier::ext_equal]
pub struct Transition {
    pub next: NodeView,
    pub sent: Seq<MessageView>,
}

/// Whether a value that came from `sender` to the node `own` is forwarded
/// to a given neighbour: to every one but those two.
pub open spec fn is_target(sender: Seq<char>, own: Seq<char>) -> spec_fn(Seq<char>) -> bool {
    |neighbor: Seq<char>| neighbor != sender && neighbor != own
}

/// The neighbours that a new broadcast value is forwarded to: all of them, in
/// order, but the node the value came from and the node itself.
pub open spec fn fan_out(neighbors: Seq<Seq<char>>, sender: Seq<char>, own: Seq<char>) -> Seq<
    Seq<char>,
> {
    neighbors.filter(is_target(sender, own))
}

/// The reply to `request`, carrying `payload`.
pub open spec fn reply_to(request: MessageView, payload: PayloadView) -> Draft {
    Draft { dest: request.src, in_reply_to: Some(request.body.msg_id), payload }
}

/// One forwarding of `value` to each of `targets`, in order.
pub open spec fn forwards(targets: Seq<Seq<char>>, value: usize) -> Seq<Draft> {
    Seq::new(
        targets.len(),
        |i: int|
            Draft {
                dest: targets[i],
                in_reply_to: None,
                payload: PayloadView::Broadcast { message: value },
            },
    )
}

impl NodeView {
    /// A node that has seen no message yet.
    pub open spec fn fresh() -> NodeView {
        NodeView {
            initialized: false,
            id: Seq::empty(),
            peers: Seq::empty(),
            neighbors: Seq::empty(),
            next_msg_id: 0,
            id_cursor: 0,
            seen: Set::empty(),
        }
    }

    /// The distance between two identifiers that this node generates: the
    /// size of the cluster, or one where the cluster is not known.
    pub open spec fn stride(self) -> nat {
        if self.peers.len() == 0 {
            1
        } else {
            self.peers.len()
        }
    }

    /// `drafts` as this node sends them: each stamped with the node's
    /// identity and the next unused sequence number.
    pub open spec fn stamp(self, drafts: Seq<Draft>) -> Seq<MessageView> {
        Seq::new(
            drafts.len(),
            |i: int|
                MessageView {
                    src: self.id,
                    dest: drafts[i].dest,
                    body: BodyView {
                        msg_id: self.next_msg_id + i as nat,
                        in_reply_to: drafts[i].in_reply_to,
                        payload: drafts[i].payload,
                    },
                },
        )
    }

    /// Sends `drafts` from this state, unless there are not enough sequence
    /// numbers left for them.
    pub open spec fn emit(self, drafts: Seq<Draft>) -> Result<Transition, NodeError> {
        if self.next_msg_id + drafts.len() > usize::MAX {
            Err(NodeError::CounterExhausted)
        } else {
            Ok(
                Transition {
                    next: NodeView { next_msg_id: self.next_msg_id + drafts.len(), ..self },
                    sent: self.stamp(drafts),
                },
            )
        }
    }

    /// Takes the identity `node_id` in a cluster of `node_ids`.
    pub open spec fn init(
        self,
        request: MessageView,
        node_id: Seq<char>,
        node_ids: Seq<Seq<char>>,
    ) -> Result<Transition, NodeError> {
        match word_index(node_id) {
            Some(index) => NodeView {
                initialized: true,
                id: node_id,
                peers: node_ids,
                id_cursor: index as nat,
                ..self
            }.emit(seq![reply_to(request, PayloadView::InitOk)]),
            None => Err(NodeError::MalformedNodeId),
        }
    }

    /// Hands out the identifier under the cursor and moves the cursor on by
    /// one stride.
    pub open spec fn generate(self, request: MessageView) -> Result<Transition, NodeError> {
        if self.id_cursor + self.stride() > usize::MAX {
            Err(NodeError::CounterExhausted)
        } else {
            NodeView { id_cursor: self.id_cursor + self.stride(), ..self }.emit(
                seq![reply_to(request, PayloadView::GenerateOk { id: self.id_cursor })],
            )
        }
    }

    /// Learns `value`: a new one is recorded and forwarded to the fan-out, a
    /// known one is only acknowledged.
    pub open spec fn broadcast(self, request: MessageView, value: usize) -> Result<
        Transition,
        NodeError,
    > {
        let ack = reply_to(request, PayloadView::BroadcastOk);
        if self.seen.contains(value) {
            self.emit(seq![ack])
        } else {
            NodeView { seen: self.seen.insert(value), ..self }.emit(
                seq![ack] + forwards(fan_out(self.neighbors, request.src, self.id), value),
            )
        }
    }

    /// Takes the neighbours that `topology` lists for this node; where it
    /// lists none, the node keeps the neighbours it has.
    pub open spec fn topology(
        self,
        request: MessageView,
        topology: Map<Seq<char>, Seq<Seq<char>>>,
    ) -> Result<Transition, NodeError> {
        let neighbors = if topology.contains_key(self.id) {
            topology[self.id]
        } else {
            self.neighbors
        };
        NodeView { neighbors, ..self }.emit(seq![reply_to(request, PayloadView::TopologyOk)])
    }

    /// What the node does with one inbound message.
    ///
    /// A request is answered by one reply, which a new broadcast value lets
    /// follow by its forwardings. A reply that arrives is dropped. A request
    /// other than `init` is refused until the node has its identity.
    pub open spec fn step(self, inbound: MessageView) -> Result<Transition, NodeError> {
        match inbound.body.payload {
            PayloadView::Init { node_id, node_ids } => self.init(inbound, node_id, node_ids),
            PayloadView::Echo { echo } => if self.initialized {
                self.emit(seq![reply_to(inbound, PayloadView::EchoOk { echo })])
            } else {
                Err(NodeError::Uninitialized)
            },
            PayloadView::Generate => if self.initialized {
                self.generate(inbound)
            } else {
                Err(NodeError::Uninitialized)
            },
            PayloadView::Broadcast { message } => if self.initialized {
                self.broadcast(inbound, message)
            } else {
                Err(NodeError::Uninitialized)
            },
            PayloadView::Read => if self.initialized {
                self.emit(seq![reply_to(inbound, PayloadView::ReadOk { messages: self.seen })])
            } else {
                Err(NodeError::Uninitialized)
            },
            PayloadView::Topology { topology } => if self.initialized {
                self.topology(inbound, topology)
            } else {
                Err(NodeError::Uninitialized)
            },
            _ => Ok(Transition { next: self, sent: Seq::empty() }),
        }
    }

    /// The state after a whole run of inbound messages and everything sent
    /// during it, in order. A refused message changes nothing and sends
    /// nothing.
    pub open spec fn run(self, inbound: Seq<MessageView>) -> Transition
        decreases inbound.len(),
    {
        if inbound.len() == 0 {
            Transition { next: self, sent: Seq::empty() }
        } else {
            let before = self.run(inbound.drop_last());
            match before.next.step(inbound.last()) {
                Ok(last) => Transition { next: last.next, sent: before.sent + last.sent },
                Err(_) => before,
            }
        }
    }
}

} // verus!
