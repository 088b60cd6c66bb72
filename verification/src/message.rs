use crate::copy::{copy_names, copy_values};
use crate::topology::Topology;
use std::collections::HashSet;
use vstd::prelude::*;

verus! {

/// One message on the wire: who sent it, whom it is for, and its body.
#[derive(Debug)]
pub struct Message {
    pub src: String,
    pub dest: String,
    pub body: Body,
}

/// The content of a message together with what correlates it: its own
/// sequence number and, on a reply, the number of the request it answers.
#[derive(Debug)]
pub struct Body {
    pub msg_id: usize,
    pub in_reply_to: Option<usize>,
    pub payload: MessageType,
}

/// The kinds of content a message can carry: six requests, and the reply
/// that answers each of them.
#[derive(Debug)]
pub enum MessageType {
    Init { node_id: String, node_ids: Vec<String> },
    InitOk,
    Echo { echo: String },
    EchoOk { echo: String },
    Generate,
    GenerateOk { id: usize },
    Broadcast { message: usize },
    BroadcastOk,
    Read,
    ReadOk { messages: HashSet<usize> },
    Topology { topology: Topology },
    TopologyOk,
}

/// A [`MessageType`] as a mathematical value.
#[verifier::ext_equal]
pub enum PayloadView {
    Init { node_id: Seq<char>, node_ids: Seq<Seq<char>> },
    InitOk,
    Echo { echo: Seq<char> },
    EchoOk { echo: Seq<char> },
    Generate,
    GenerateOk { id: nat },
    Broadcast { message: usize },
    BroadcastOk,
    Read,
    ReadOk { messages: Set<usize> },
    Topology { topology: Map<Seq<char>, Seq<Seq<char>>> },
    TopologyOk,
}

/// A [`Body`] as a mathematical value.
#[verifier::ext_equal]
pub struct BodyView {
    pub msg_id: nat,
    pub in_reply_to: Option<nat>,
    pub payload: PayloadView,
}

/// A [`Message`] as a mathematical value.
#[verifier::ext_equal]
pub struct MessageView {
    pub src: Seq<char>,
    pub dest: Seq<char>,
    pub body: BodyView,
}

impl PayloadView {
    /// Whether this is one of the six kinds that ask the node for something.
    pub open spec fn is_request(self) -> bool {
        self is Init || self is Echo || self is Generate || self is Broadcast || self is Read
            || self is Topology
    }
}

impl View for MessageType {
    type V = PayloadView;

    open spec fn view(&self) -> PayloadView {
        match *self {
            MessageType::Init { node_id, node_ids } => PayloadView::Init {
                node_id: node_id@,
                node_ids: node_ids.deep_view(),
            },
            MessageType::InitOk => PayloadView::InitOk,
            MessageType::Echo { echo } => PayloadView::Echo { echo: echo@ },
            MessageType::EchoOk { echo } => PayloadView::EchoOk { echo: echo@ },
            MessageType::Generate => PayloadView::Generate,
            MessageType::GenerateOk { id } => PayloadView::GenerateOk { id: id as nat },
            MessageType::Broadcast { message } => PayloadView::Broadcast { message },
            MessageType::BroadcastOk => PayloadView::BroadcastOk,
            MessageType::Read => PayloadView::Read,
            MessageType::ReadOk { messages } => PayloadView::ReadOk { messages: messages@ },
            MessageType::Topology { topology } => PayloadView::Topology { topology: topology@ },
            MessageType::TopologyOk => PayloadView::TopologyOk,
        }
    }
}

impl View for Body {
    type V = BodyView;

    open spec fn view(&self) -> BodyView {
        BodyView {
            msg_id: self.msg_id as nat,
            in_reply_to: match self.in_reply_to {
                Some(id) => Some(id as nat),
                None => None,
            },
            payload: self.payload@,
        }
    }
}

impl View for Message {
    type V = MessageView;

    open spec fn view(&self) -> MessageView {
        MessageView { src: self.src@, dest: self.dest@, body: self.body@ }
    }
}

/// A batch of messages as mathematical values, in order.
pub open spec fn message_views(batch: Seq<Message>) -> Seq<MessageView> {
    Seq::new(batch.len(), |i: int| batch[i]@)
}

impl Clone for MessageType {
    fn clone(&self) -> (copy: MessageType)
        ensures
            copy@ == self@,
    {
        match self {
            MessageType::Init { node_id, node_ids } => MessageType::Init {
                node_id: node_id.clone(),
                node_ids: copy_names(node_ids),
            },
            MessageType::InitOk => MessageType::InitOk,
            MessageType::Echo { echo } => MessageType::Echo { echo: echo.clone() },
            MessageType::EchoOk { echo } => MessageType::EchoOk { echo: echo.clone() },
            MessageType::Generate => MessageType::Generate,
            MessageType::GenerateOk { id } => MessageType::GenerateOk { id: *id },
            MessageType::Broadcast { message } => MessageType::Broadcast { message: *message },
            MessageType::BroadcastOk => MessageType::BroadcastOk,
            MessageType::Read => MessageType::Read,
            MessageType::ReadOk { messages } => MessageType::ReadOk {
                messages: copy_values(messages),
            },
            MessageType::Topology { topology } => MessageType::Topology {
                topology: topology.clone(),
            },
            MessageType::TopologyOk => MessageType::TopologyOk,
        }
    }
}

impl Clone for Body {
    fn clone(&self) -> (copy: Body)
        ensures
            copy@ == self@,
    {
        Body {
            msg_id: self.msg_id,
            in_reply_to: self.in_reply_to,
            payload: self.payload.clone(),
        }
    }
}

impl Clone for Message {
    fn clone(&self) -> (copy: Message)
        ensures
            copy@ == self@,
    {
        Message { src: self.src.clone(), dest: self.dest.clone(), body: self.body.clone() }
    }
}

impl Default for MessageType {
    /// The reply to an `init` request.
    fn default() -> (payload: MessageType)
        ensures
            payload@ == PayloadView::InitOk,
    {
        MessageType::InitOk
    }
}

impl Default for Body {
    /// A body numbered zero that answers nothing and carries the default
    /// payload.
    fn default() -> (body: Body)
        ensures
            body@ == (BodyView { msg_id: 0, in_reply_to: None, payload: PayloadView::InitOk }),
    {
        Body { msg_id: 0, in_reply_to: None, payload: MessageType::InitOk }
    }
}

impl Default for Message {
    /// A message between unnamed nodes with the default body.
    fn default() -> (message: Message)
        ensures
            message@ == (MessageView {
                src: Seq::empty(),
                dest: Seq::empty(),
                body: BodyView { msg_id: 0, in_reply_to: None, payload: PayloadView::InitOk },
            }),
    {
        Message {
            src: String::new(),
            dest: String::new(),
            body: Body { msg_id: 0, in_reply_to: None, payload: MessageType::InitOk },
        }
    }
}

} // verus!
