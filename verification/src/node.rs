use crate::copy::{copy_names, copy_values};
use crate::error::NodeError;
use crate::message::{
    message_views, Body, BodyView, Message, MessageType, MessageView, PayloadView,
};
use crate::model::{fan_out, forwards, is_target, Draft, NodeView, Transition};
use crate::node_id::parse_node_index;
use std::collections::{HashSet, VecDeque};
use vstd::prelude::*;

verus! {

/// One node of the cluster: its identity, what it knows of the cluster, its
/// two counters and the broadcast values it has learned.
pub struct Node {
    initialized: bool,
    id: String,
    nodes: Vec<String>,
    msg_id: usize,
    unique_id: usize,
    messages: HashSet<usize>,
    neighbors: Vec<String>,
}

impl View for Node {
    type V = NodeView;

    closed spec fn view(&self) -> NodeView {
        NodeView {
            initialized: self.initialized,
            id: self.id@,
            peers: self.nodes.deep_view(),
            neighbors: self.neighbors.deep_view(),
            next_msg_id: self.msg_id as nat,
            id_cursor: self.unique_id as nat,
            seen: self.messages@,
        }
    }
}

/// The forwardings of `value` to `targets` as the node `own` sends them
/// right after a message numbered `base`.
spec fn forwarded(own: Seq<char>, base: nat, targets: Seq<Seq<char>>, value: usize) -> Seq<
    MessageView,
> {
    Seq::new(
        targets.len(),
        |i: int|
            MessageView {
                src: own,
                dest: targets[i],
                body: BodyView {
                    msg_id: base + 1 + i as nat,
                    in_reply_to: None,
                    payload: PayloadView::Broadcast { message: value },
                },
            },
    )
}

impl Default for Node {
    /// A node that has seen no message yet.
    fn default() -> (node: Node)
        ensures
            node@ == NodeView::fresh(),
    {
        Node::new()
    }
}

impl Node {
    /// A node that has seen no message yet.
    pub fn new() -> (node: Self)
        ensures
            node@ == NodeView::fresh(),
    {
        let node = Node {
            initialized: false,
            id: String::new(),
            nodes: Vec::new(),
            msg_id: 0,
            unique_id: 0,
            messages: HashSet::new(),
            neighbors: Vec::new(),
        };
        assert(node.nodes.deep_view() =~= Seq::empty());
        assert(node.neighbors.deep_view() =~= Seq::empty());
        node
    }

    /// Handles one inbound message: updates the node and returns what it
    /// sends in answer, in the order in which it is to be sent.
    ///
    /// The node does exactly what [`NodeView::step`] says. A request is
    /// refused, and the node left untouched, in three cases: an `init` whose
    /// identity carries no index ([`NodeError::MalformedNodeId`]), any other
    /// request before the first `init` ([`NodeError::Uninitialized`]), and a
    /// request whose answer would push a counter past `usize::MAX`
    /// ([`NodeError::CounterExhausted`]).
    pub fn handle_message(&mut self, msg: Message) -> (result: Result<VecDeque<Message>, NodeError>)
        ensures
            match old(self)@.step(msg@) {
                Ok(transition) => result matches Ok(sent) && final(self)@ == transition.next
                    && message_views(sent@) == transition.sent,
                Err(refusal) => result == Err::<VecDeque<Message>, NodeError>(refusal)
                    && final(self)@ == old(self)@,
            },
    {
        broadcast use vstd::std_specs::hash::group_hash_axioms;

        let Message { src, dest: _, body } = msg;
        let Body { msg_id, in_reply_to: _, payload } = body;
        match payload {
            MessageType::Init { node_id, node_ids } => {
                let index = match parse_node_index(node_id.as_str()) {
                    Some(index) => index,
                    None => {
                        return Err(NodeError::MalformedNodeId);
                    },
                };
                if self.msg_id == usize::MAX {
                    return Err(NodeError::CounterExhausted);
                }
                self.initialized = true;
                self.id = node_id;
                self.nodes = node_ids;
                self.unique_id = index;
                Ok(self.reply(src, msg_id, MessageType::InitOk))
            },
            MessageType::Echo { echo } => {
                if !self.initialized {
                    return Err(NodeError::Uninitialized);
                }
                if self.msg_id == usize::MAX {
                    return Err(NodeError::CounterExhausted);
                }
                Ok(self.reply(src, msg_id, MessageType::EchoOk { echo }))
            },
            MessageType::Generate => {
                if !self.initialized {
                    return Err(NodeError::Uninitialized);
                }
                let stride = if self.nodes.len() == 0 {
                    1
                } else {
                    self.nodes.len()
                };
                if stride > usize::MAX - self.unique_id || self.msg_id == usize::MAX {
                    return Err(NodeError::CounterExhausted);
                }
                let id = self.unique_id;
                self.unique_id = id + stride;
                Ok(self.reply(src, msg_id, MessageType::GenerateOk { id }))
            },
            MessageType::Broadcast { message } => {
                if !self.initialized {
                    return Err(NodeError::Uninitialized);
                }
                if self.messages.contains(&message) {
                    if self.msg_id == usize::MAX {
                        return Err(NodeError::CounterExhausted);
                    }
                    Ok(self.reply(src, msg_id, MessageType::BroadcastOk))
                } else {
                    self.spread(src, msg_id, message)
                }
            },
            MessageType::Read => {
                if !self.initialized {
                    return Err(NodeError::Uninitialized);
                }
                if self.msg_id == usize::MAX {
                    return Err(NodeError::CounterExhausted);
                }
                let messages = copy_values(&self.messages);
                Ok(self.reply(src, msg_id, MessageType::ReadOk { messages }))
            },
            MessageType::Topology { topology } => {
                if !self.initialized {
                    return Err(NodeError::Uninitialized);
                }
                if self.msg_id == usize::MAX {
                    return Err(NodeError::CounterExhausted);
                }
                match topology.get(&self.id) {
                    Some(neighbors) => {
                        self.neighbors = copy_names(neighbors);
                    },
                    None => {},
                }
                Ok(self.reply(src, msg_id, MessageType::TopologyOk))
            },
            _ => Ok(VecDeque::new()),
        }
    }

    /// Sends the one reply that answers a request.
    fn reply(&mut self, dest: String, in_reply_to: usize, payload: MessageType) -> (sent: VecDeque<
        Message,
    >)
        requires
            old(self).msg_id < usize::MAX,
        ensures
            old(self)@.emit(
                seq![
                    Draft {
                        dest: dest@,
                        in_reply_to: Some(in_reply_to as nat),
                        payload: payload@,
                    },
                ],
            ) == Ok::<Transition, NodeError>(
                Transition { next: final(self)@, sent: message_views(sent@) },
            ),
    {
        let ghost draft = Draft {
            dest: dest@,
            in_reply_to: Some(in_reply_to as nat),
            payload: payload@,
        };
        let mut sent: VecDeque<Message> = VecDeque::new();
        sent.push_back(
            Message {
                src: self.id.clone(),
                dest,
                body: Body { msg_id: self.msg_id, in_reply_to: Some(in_reply_to), payload },
            },
        );
        self.msg_id = self.msg_id + 1;
        proof {
            assert(message_views(sent@) =~= old(self)@.stamp(seq![draft]));
            assert(self@ =~= NodeView { next_msg_id: old(self)@.next_msg_id + 1, ..old(self)@ });
        }
        sent
    }

    /// Records the new broadcast value `value` and sends its acknowledgement
    /// followed by one forwarding to each neighbour of the fan-out.
    fn spread(&mut self, sender: String, in_reply_to: usize, value: usize) -> (result: Result<
        VecDeque<Message>,
        NodeError,
    >)
        requires
            !old(self)@.seen.contains(value),
        ensures
            match (NodeView { seen: old(self)@.seen.insert(value), ..old(self)@ }).emit(
                seq![
                    Draft {
                        dest: sender@,
                        in_reply_to: Some(in_reply_to as nat),
                        payload: PayloadView::BroadcastOk,
                    },
                ] + forwards(fan_out(old(self)@.neighbors, sender@, old(self)@.id), value),
            ) {
                Ok(transition) => result matches Ok(sent) && final(self)@ == transition.next
                    && message_views(sent@) == transition.sent,
                Err(refusal) => result == Err::<VecDeque<Message>, NodeError>(refusal)
                    && final(self)@ == old(self)@,
            },
    {
        broadcast use vstd::std_specs::hash::group_hash_axioms;

        let ghost neighbors = self@.neighbors;
        let ghost own = self@.id;
        let ghost ack = Draft {
            dest: sender@,
            in_reply_to: Some(in_reply_to as nat),
            payload: PayloadView::BroadcastOk,
        };
        let ghost state = NodeView { seen: self@.seen.insert(value), ..self@ };
        if self.msg_id == usize::MAX {
            return Err(NodeError::CounterExhausted);
        }
        let base = self.msg_id;
        let mut next: usize = base + 1;
        let mut sent: VecDeque<Message> = VecDeque::new();
        let mut at: usize = 0;
        assert(neighbors.take(0) =~= Seq::empty());
        assert(fan_out(Seq::empty(), sender@, own) =~= Seq::empty()) by {
            Seq::<Seq<char>>::empty().lemma_filter_len(is_target(sender@, own));
        }
        while at < self.neighbors.len()
            invariant
                *self == *old(self),
                neighbors == self@.neighbors,
                own == self@.id,
                base == self.msg_id,
                at <= self.neighbors@.len(),
                next == base + 1 + sent@.len(),
                sent@.len() == fan_out(neighbors.take(at as int), sender@, own).len(),
                message_views(sent@) == forwarded(
                    own,
                    base as nat,
                    fan_out(neighbors.take(at as int), sender@, own),
                    value,
                ),
            decreases self.neighbors@.len() - at,
        {
            let neighbor = &self.neighbors[at];
            proof {
                assert(neighbors.take(at + 1) =~= neighbors.take(at as int).push(neighbor@));
                neighbors.take(at as int).lemma_filter_push(neighbor@, is_target(sender@, own));
            }
            if !(*neighbor == sender) && !(*neighbor == self.id) {
                if next == usize::MAX {
                    proof {
                        neighbors.lemma_filter_take_len(is_target(sender@, own), at + 1);
                    }
                    return Err(NodeError::CounterExhausted);
                }
                let ghost earlier = message_views(sent@);
                sent.push_back(
                    Message {
                        src: self.id.clone(),
                        dest: neighbor.clone(),
                        body: Body {
                            msg_id: next,
                            in_reply_to: None,
                            payload: MessageType::Broadcast { message: value },
                        },
                    },
                );
                next = next + 1;
                proof {
                    let wanted = forwarded(
                        own,
                        base as nat,
                        fan_out(neighbors.take(at + 1), sender@, own),
                        value,
                    );
                    assert(message_views(sent@).len() == wanted.len());
                    assert forall|i: int| 0 <= i < wanted.len() implies message_views(sent@)[i]
                        == wanted[i] by {
                        if i < earlier.len() {
                            assert(message_views(sent@)[i] == earlier[i]);
                        }
                    }
                    assert(message_views(sent@) =~= wanted);
                }
            }
            at = at + 1;
        }
        proof {
            assert(neighbors.take(at as int) =~= neighbors);
        }
        let ghost gossip = message_views(sent@);
        self.messages.insert(value);
        self.msg_id = next;
        sent.push_front(
            Message {
                src: self.id.clone(),
                dest: sender,
                body: Body {
                    msg_id: base,
                    in_reply_to: Some(in_reply_to),
                    payload: MessageType::BroadcastOk,
                },
            },
        );
        proof {
            let drafts = seq![ack] + forwards(fan_out(neighbors, sender@, own), value);
            assert(message_views(sent@).len() == drafts.len());
            assert forall|i: int| 0 <= i < drafts.len() implies message_views(sent@)[i]
                == state.stamp(drafts)[i] by {
                if i > 0 {
                    assert(message_views(sent@)[i] == gossip[i - 1]);
                }
            }
            assert(message_views(sent@) =~= state.stamp(drafts));
            assert(self@ =~= NodeView { next_msg_id: state.next_msg_id + drafts.len(), ..state });
        }
        Ok(sent)
    }
}

} // verus!
