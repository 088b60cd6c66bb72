use crate::error::NodeError;
use crate::message::{BodyView, MessageView, PayloadView};
use crate::model::{fan_out, is_target, NodeView, Transition};
use crate::node_id::node_index;
use vstd::arithmetic::div_mod::lemma_mod_multiples_vanish;
use vstd::prelude::*;

verus! {

/// Whether `sent` is numbered without gaps from `first` on.
pub open spec fn numbered_from(sent: Seq<MessageView>, first: nat) -> bool {
    forall|i: int| 0 <= i < sent.len() ==> (#[trigger] sent[i]).body.msg_id == first + i
}

/// Whether none of `inbound` is an `init` request.
pub open spec fn free_of_init(inbound: Seq<MessageView>) -> bool {
    forall|i: int| 0 <= i < inbound.len() ==> !((#[trigger] inbound[i]).body.payload is Init)
}

/// The identifiers handed out by the `generate_ok` replies among `sent`, in
/// order.
pub open spec fn generated_ids(sent: Seq<MessageView>) -> Seq<nat>
    decreases sent.len(),
{
    if sent.len() == 0 {
        Seq::empty()
    } else {
        let earlier = generated_ids(sent.drop_last());
        match sent.last().body.payload {
            PayloadView::GenerateOk { id } => earlier.push(id),
            _ => earlier,
        }
    }
}

/// An accepted message is answered from the node's own identity with
/// consecutive sequence numbers, starting at the node's counter, which moves
/// on by the number of messages sent.
pub proof fn lemma_step_numbers_messages(state: NodeView, inbound: MessageView)
    requires
        state.step(inbound) is Ok,
    ensures
        ({
            let done = state.step(inbound).unwrap();
            &&& numbered_from(done.sent, state.next_msg_id)
            &&& done.next.next_msg_id == state.next_msg_id + done.sent.len()
            &&& forall|i: int| 0 <= i < done.sent.len() ==> (#[trigger] done.sent[i]).src == done.next.id
        }),
{
}

/// Every request that is accepted gets exactly one reply, sent first, to
/// the requester and naming the request; whatever follows it forwards a
/// broadcast value and answers nothing. A reply that arrives is dropped
/// without trace.
pub proof fn lemma_step_correlates_replies(state: NodeView, inbound: MessageView)
    requires
        state.step(inbound) is Ok,
    ensures
        ({
            let done = state.step(inbound).unwrap();
            if inbound.body.payload.is_request() {
                &&& done.sent.len() >= 1
                &&& done.sent[0].dest == inbound.src
                &&& done.sent[0].body.in_reply_to == Some(inbound.body.msg_id)
                &&& !done.sent[0].body.payload.is_request()
                &&& forall|i: int|
                    1 <= i < done.sent.len() ==> (#[trigger] done.sent[i]).body.in_reply_to is None
                        && done.sent[i].body.payload is Broadcast
            } else {
                done.sent.len() == 0 && done.next == state
            }
        }),
{
}

/// An accepted `init` request gives the node the identity and the cluster
/// it names, puts the cursor on the index that the identity carries, and is
/// answered with one `init_ok`. What the node has seen, its neighbours and
/// its sequence of message numbers go on as before.
pub proof fn lemma_init_takes_identity(
    state: NodeView,
    inbound: MessageView,
    node_id: Seq<char>,
    node_ids: Seq<Seq<char>>,
)
    requires
        inbound.body.payload == (PayloadView::Init { node_id, node_ids }),
        state.step(inbound) is Ok,
    ensures
        ({
            let done = state.step(inbound).unwrap();
            &&& done.next == (NodeView {
                initialized: true,
                id: node_id,
                peers: node_ids,
                id_cursor: done.next.id_cursor,
                next_msg_id: state.next_msg_id + 1,
                ..state
            })
            &&& node_index(node_id) == Some(done.next.id_cursor)
            &&& done.sent.len() == 1
            &&& done.sent[0].src == node_id
            &&& done.sent[0].dest == inbound.src
            &&& done.sent[0].body.payload == PayloadView::InitOk
            &&& done.sent[0].body.in_reply_to == Some(inbound.body.msg_id)
        }),
{
}

/// An initialized node with a sequence number to spare answers an `echo`
/// request with exactly one `echo_ok` that carries the same text and names
/// the request, and is otherwise unchanged.
pub proof fn lemma_echo_returns_text(state: NodeView, inbound: MessageView, text: Seq<char>)
    requires
        state.initialized,
        state.next_msg_id < usize::MAX,
        inbound.body.payload == (PayloadView::Echo { echo: text }),
    ensures
        state.step(inbound) == Ok::<Transition, NodeError>(
            Transition {
                next: NodeView { next_msg_id: state.next_msg_id + 1, ..state },
                sent: seq![
                    MessageView {
                        src: state.id,
                        dest: inbound.src,
                        body: BodyView {
                            msg_id: state.next_msg_id,
                            in_reply_to: Some(inbound.body.msg_id),
                            payload: PayloadView::EchoOk { echo: text },
                        },
                    },
                ],
            },
        ),
{
    let done = state.step(inbound).unwrap();
    assert(done.sent =~= seq![
        MessageView {
            src: state.id,
            dest: inbound.src,
            body: BodyView {
                msg_id: state.next_msg_id,
                in_reply_to: Some(inbound.body.msg_id),
                payload: PayloadView::EchoOk { echo: text },
            },
        },
    ]);
}

/// A `read` request is answered with exactly the values the node has seen.
pub proof fn lemma_read_returns_seen_values(state: NodeView, inbound: MessageView)
    requires
        inbound.body.payload is Read,
        state.step(inbound) is Ok,
    ensures
        ({
            let done = state.step(inbound).unwrap();
            &&& done.sent.len() == 1
            &&& done.sent[0].body.payload == (PayloadView::ReadOk { messages: state.seen })
            &&& done.next.seen == state.seen
        }),
{
}

/// A `topology` request that lists neighbours for this node, all of them
/// nodes of the cluster, leaves the node with exactly those neighbours; one
/// that lists none for this node leaves its neighbours as they were.
pub proof fn lemma_topology_sets_neighbors(
    state: NodeView,
    inbound: MessageView,
    topology: Map<Seq<char>, Seq<Seq<char>>>,
)
    requires
        inbound.body.payload == (PayloadView::Topology { topology }),
        state.step(inbound) is Ok,
    ensures
        ({
            let next = state.step(inbound).unwrap().next;
            &&& next.peers == state.peers
            &&& next.neighbors == if topology.contains_key(state.id) {
                topology[state.id]
            } else {
                state.neighbors
            }
            &&& topology.contains_key(state.id) && (forall|i: int|
                0 <= i < topology[state.id].len() ==> state.peers.contains(
                    #[trigger] topology[state.id][i],
                )) ==> forall|i: int|
                0 <= i < next.neighbors.len() ==> next.peers.contains(#[trigger] next.neighbors[i])
        }),
{
}

/// A broadcast value that the node accepts is seen from then on, and is the
/// only value it learns from that message.
pub proof fn lemma_broadcast_is_recorded(state: NodeView, inbound: MessageView, value: usize)
    requires
        inbound.body.payload == (PayloadView::Broadcast { message: value }),
        state.step(inbound) is Ok,
    ensures
        state.step(inbound).unwrap().next.seen == state.seen.insert(value),
{
    assert(state.seen.contains(value) ==> state.seen.insert(value) =~= state.seen);
}

/// The fan-out holds exactly the neighbours that are neither the sender nor
/// the node itself.
pub proof fn lemma_fan_out_members(
    neighbors: Seq<Seq<char>>,
    sender: Seq<char>,
    own: Seq<char>,
    node: Seq<char>,
)
    ensures
        fan_out(neighbors, sender, own).contains(node) <==> neighbors.contains(node) && node
            != sender && node != own,
{
    let kept = fan_out(neighbors, sender, own);
    if kept.contains(node) {
        let i = choose|i: int| 0 <= i < kept.len() && kept[i] == node;
        neighbors.lemma_filter_pred(is_target(sender, own), i);
        neighbors.lemma_filter_contains_rev(is_target(sender, own), node);
    }
    if neighbors.contains(node) && node != sender && node != own {
        let i = choose|i: int| 0 <= i < neighbors.len() && neighbors[i] == node;
        neighbors.lemma_filter_contains(is_target(sender, own), i);
    }
}

/// A new broadcast value is acknowledged and then forwarded once to each
/// member of the fan-out, in the order of the neighbours: never to the node
/// it came from, never to the node itself.
pub proof fn lemma_new_value_is_forwarded(state: NodeView, inbound: MessageView, value: usize)
    requires
        inbound.body.payload == (PayloadView::Broadcast { message: value }),
        !state.seen.contains(value),
        state.step(inbound) is Ok,
    ensures
        ({
            let done = state.step(inbound).unwrap();
            let targets = fan_out(state.neighbors, inbound.src, state.id);
            &&& done.sent.len() == 1 + targets.len()
            &&& done.sent[0].body.payload == PayloadView::BroadcastOk
            &&& forall|i: int|
                0 <= i < targets.len() ==> {
                    &&& (#[trigger] done.sent[i + 1]).dest == targets[i]
                    &&& done.sent[i + 1].body.payload == (PayloadView::Broadcast {
                        message: value,
                    })
                    &&& done.sent[i + 1].dest != inbound.src
                    &&& done.sent[i + 1].dest != state.id
                    &&& state.neighbors.contains(done.sent[i + 1].dest)
                }
        }),
{
    let targets = fan_out(state.neighbors, inbound.src, state.id);
    assert forall|i: int| 0 <= i < targets.len() implies targets[i] != inbound.src && targets[i]
        != state.id && state.neighbors.contains(#[trigger] targets[i]) by {
        assert(targets.contains(targets[i]));
        lemma_fan_out_members(state.neighbors, inbound.src, state.id, targets[i]);
    }
}

/// A run can be cut anywhere: the node goes through the first stretch, then
/// from where that left it through the second, and sends what both sent.
pub proof fn lemma_run_concat(state: NodeView, first: Seq<MessageView>, second: Seq<MessageView>)
    ensures
        state.run(first + second) == (Transition {
            next: state.run(first).next.run(second).next,
            sent: state.run(first).sent + state.run(first).next.run(second).sent,
        }),
    decreases second.len(),
{
    let middle = state.run(first);
    if second.len() == 0 {
        assert(first + second =~= first);
        assert(middle.sent + middle.next.run(second).sent =~= middle.sent);
    } else {
        lemma_run_concat(state, first, second.drop_last());
        assert((first + second).drop_last() =~= first + second.drop_last());
        assert((first + second).last() == second.last());
        let before = middle.next.run(second.drop_last());
        if before.next.step(second.last()) is Ok {
            let last = before.next.step(second.last()).unwrap();
            assert((middle.sent + before.sent) + last.sent =~= middle.sent + (before.sent
                + last.sent));
        }
    }
}

/// Over any run of inbound messages, everything the node sends is numbered
/// without gaps from where its counter stood, so the numbers strictly
/// increase and none is used twice.
pub proof fn lemma_run_numbers_messages(state: NodeView, inbound: Seq<MessageView>)
    ensures
        ({
            let done = state.run(inbound);
            &&& numbered_from(done.sent, state.next_msg_id)
            &&& done.next.next_msg_id == state.next_msg_id + done.sent.len()
            &&& forall|i: int, j: int|
                0 <= i < j < done.sent.len() ==> (#[trigger] done.sent[i]).body.msg_id < (
                #[trigger] done.sent[j]).body.msg_id
        }),
    decreases inbound.len(),
{
    if inbound.len() > 0 {
        let before = state.run(inbound.drop_last());
        lemma_run_numbers_messages(state, inbound.drop_last());
        if before.next.step(inbound.last()) is Ok {
            lemma_step_numbers_messages(before.next, inbound.last());
        }
    }
}

/// A node never forgets a broadcast value: whatever it had seen before a run
/// of inbound messages it has seen after it.
pub proof fn lemma_run_keeps_seen_values(state: NodeView, inbound: Seq<MessageView>)
    ensures
        state.seen.subset_of(state.run(inbound).next.seen),
    decreases inbound.len(),
{
    if inbound.len() > 0 {
        lemma_run_keeps_seen_values(state, inbound.drop_last());
    }
}

/// A broadcast value that the node accepts at some point of a run is among
/// what it has seen at the end of the run.
pub proof fn lemma_accepted_broadcast_stays_seen(
    state: NodeView,
    inbound: Seq<MessageView>,
    at: int,
    value: usize,
)
    requires
        0 <= at < inbound.len(),
        inbound[at].body.payload == (PayloadView::Broadcast { message: value }),
        state.run(inbound.take(at)).next.step(inbound[at]) is Ok,
    ensures
        state.run(inbound).next.seen.contains(value),
{
    let upto = inbound.take(at + 1);
    let rest = inbound.skip(at + 1);
    assert(upto.drop_last() =~= inbound.take(at));
    assert(upto.last() == inbound[at]);
    assert(upto + rest =~= inbound);
    lemma_broadcast_is_recorded(state.run(inbound.take(at)).next, inbound[at], value);
    lemma_run_concat(state, upto, rest);
    lemma_run_keeps_seen_values(state.run(upto).next, rest);
}

/// A node sees nothing of its own accord: each value it has seen after a
/// run it had seen before, or one of the inbound messages broadcast it.
pub proof fn lemma_seen_values_were_broadcast(
    state: NodeView,
    inbound: Seq<MessageView>,
    value: usize,
)
    requires
        state.run(inbound).next.seen.contains(value),
    ensures
        state.seen.contains(value) || exists|i: int|
            0 <= i < inbound.len() && (#[trigger] inbound[i]).body.payload == (
            PayloadView::Broadcast { message: value }),
    decreases inbound.len(),
{
    if inbound.len() > 0 {
        let earlier = inbound.drop_last();
        let before = state.run(earlier);
        if before.next.seen.contains(value) {
            lemma_seen_values_were_broadcast(state, earlier, value);
            if !state.seen.contains(value) {
                let i = choose|i: int|
                    0 <= i < earlier.len() && (#[trigger] earlier[i]).body.payload == (
                    PayloadView::Broadcast { message: value });
                assert(inbound[i] == earlier[i]);
            }
        } else {
            assert(inbound[inbound.len() - 1].body.payload == (PayloadView::Broadcast {
                message: value,
            }));
        }
    }
}

/// Once a node has accepted a broadcast value, a later delivery of the same
/// value, from whatever sender and after whatever other traffic, is only
/// acknowledged: nothing is forwarded, and the seen values stay as they
/// were.
pub proof fn lemma_repeated_broadcast_is_absorbed(
    state: NodeView,
    first: MessageView,
    between: Seq<MessageView>,
    second: MessageView,
    value: usize,
)
    requires
        first.body.payload == (PayloadView::Broadcast { message: value }),
        second.body.payload == (PayloadView::Broadcast { message: value }),
        state.step(first) is Ok,
        state.step(first).unwrap().next.run(between).next.step(second) is Ok,
    ensures
        ({
            let later = state.step(first).unwrap().next.run(between).next;
            let repeated = later.step(second).unwrap();
            &&& later.seen.contains(value)
            &&& repeated.next.seen == later.seen
            &&& repeated.sent.len() == 1
            &&& repeated.sent[0].body.payload == PayloadView::BroadcastOk
            &&& repeated.sent[0].dest == second.src
            &&& repeated.sent[0].body.in_reply_to == Some(second.body.msg_id)
        }),
{
    let learned = state.step(first).unwrap().next;
    lemma_broadcast_is_recorded(state, first, value);
    lemma_run_keeps_seen_values(learned, between);
}

/// Identifiers drawn from two residue classes of one stride never meet, and
/// within one class two different draws never meet.
pub proof fn lemma_strided_ids_differ(a: nat, i: nat, b: nat, j: nat, stride: nat)
    requires
        stride > 0,
        a % stride != b % stride || (a == b && i != j),
    ensures
        a + i * stride != b + j * stride,
{
    if a % stride != b % stride {
        lemma_mod_multiples_vanish(i as int, a as int, stride as int);
        lemma_mod_multiples_vanish(j as int, b as int, stride as int);
        assert(stride * i == i * stride) by (nonlinear_arith);
        assert(stride * j == j * stride) by (nonlinear_arith);
    } else {
        assert(i * stride != j * stride) by (nonlinear_arith)
            requires
                i != j,
                stride > 0,
        ;
    }
}

/// What is sent in two stretches hands out the identifiers of the first
/// stretch, then those of the second.
proof fn lemma_generated_ids_concat(first: Seq<MessageView>, second: Seq<MessageView>)
    ensures
        generated_ids(first + second) == generated_ids(first) + generated_ids(second),
    decreases second.len(),
{
    if second.len() == 0 {
        assert(first + second =~= first);
        assert(generated_ids(first) + generated_ids(second) =~= generated_ids(first));
    } else {
        lemma_generated_ids_concat(first, second.drop_last());
        assert((first + second).drop_last() =~= first + second.drop_last());
        assert((first + second).last() == second.last());
        match second.last().body.payload {
            PayloadView::GenerateOk { id } => {
                assert(generated_ids(first + second) =~= generated_ids(first) + generated_ids(
                    second,
                ));
            },
            _ => {},
        }
    }
}

/// A forwarding hands out no identifier.
proof fn lemma_forwardings_generate_nothing(sent: Seq<MessageView>)
    requires
        forall|i: int| 0 <= i < sent.len() ==> !((#[trigger] sent[i]).body.payload is GenerateOk),
    ensures
        generated_ids(sent) == Seq::<nat>::empty(),
    decreases sent.len(),
{
    if sent.len() > 0 {
        let earlier = sent.drop_last();
        assert forall|i: int| 0 <= i < earlier.len() implies !((#[trigger] earlier[i]).body.payload
            is GenerateOk) by {
            assert(earlier[i] == sent[i]);
        }
        lemma_forwardings_generate_nothing(earlier);
        assert(!(sent[sent.len() - 1].body.payload is GenerateOk));
    }
}

/// Only an accepted `generate` request hands out an identifier: the one
/// under the cursor, which then moves on by one stride. No message but
/// `init` changes the stride.
proof fn lemma_step_generates(state: NodeView, inbound: MessageView)
    requires
        !(inbound.body.payload is Init),
        state.step(inbound) is Ok,
    ensures
        ({
            let done = state.step(inbound).unwrap();
            let ids = generated_ids(done.sent);
            &&& done.next.stride() == state.stride()
            &&& done.next.id_cursor == state.id_cursor + ids.len() * state.stride()
            &&& ids.len() <= 1
            &&& ids.len() == 1 ==> ids[0] == state.id_cursor
        }),
{
    let done = state.step(inbound).unwrap();
    if inbound.body.payload is Generate {
        assert(done.sent.drop_last() =~= Seq::empty());
        assert(generated_ids(done.sent.drop_last()) =~= Seq::empty());
        assert(generated_ids(done.sent) =~= seq![state.id_cursor]);
        assert(1 * state.stride() == state.stride()) by (nonlinear_arith);
    } else {
        lemma_forwardings_generate_nothing(done.sent);
        assert(0 * state.stride() == 0) by (nonlinear_arith);
    }
}

/// Over any run of inbound messages that does not give the node a new
/// identity, the identifiers it hands out are its cursor, then one stride
/// further each time, whatever other traffic comes in between.
pub proof fn lemma_run_generates_in_strides(state: NodeView, inbound: Seq<MessageView>)
    requires
        free_of_init(inbound),
    ensures
        ({
            let done = state.run(inbound);
            let ids = generated_ids(done.sent);
            &&& done.next.stride() == state.stride()
            &&& done.next.id_cursor == state.id_cursor + ids.len() * state.stride()
            &&& forall|k: int|
                0 <= k < ids.len() ==> #[trigger] ids[k] == state.id_cursor + k * state.stride()
        }),
    decreases inbound.len(),
{
    if inbound.len() == 0 {
        assert(0 * state.stride() == 0) by (nonlinear_arith);
    } else {
        let earlier = inbound.drop_last();
        assert forall|i: int| 0 <= i < earlier.len() implies !((#[trigger] earlier[i]).body.payload
            is Init) by {
            assert(earlier[i] == inbound[i]);
        }
        lemma_run_generates_in_strides(state, earlier);
        let before = state.run(earlier);
        if before.next.step(inbound.last()) is Ok {
            let last = before.next.step(inbound.last()).unwrap();
            lemma_step_generates(before.next, inbound.last());
            lemma_generated_ids_concat(before.sent, last.sent);
            let n = generated_ids(before.sent).len();
            let m = generated_ids(last.sent).len();
            let stride = state.stride();
            assert((n + m) * stride == n * stride + m * stride) by (nonlinear_arith);
        }
    }
}

/// One node never hands out the same identifier twice, as long as it is not
/// given a new identity.
pub proof fn lemma_own_ids_are_distinct(state: NodeView, inbound: Seq<MessageView>)
    requires
        free_of_init(inbound),
    ensures
        generated_ids(state.run(inbound).sent).no_duplicates(),
{
    let ids = generated_ids(state.run(inbound).sent);
    lemma_run_generates_in_strides(state, inbound);
    assert forall|k: int, l: int| 0 <= k < ids.len() && 0 <= l < ids.len() && k != l implies ids[k]
        != ids[l] by {
        lemma_strided_ids_differ(
            state.id_cursor,
            k as nat,
            state.id_cursor,
            l as nat,
            state.stride(),
        );
    }
}

/// Two nodes that step by the same stride and whose cursors lie in different
/// residue classes of it never hand out a common identifier, whatever each
/// of them receives and in whatever order, as long as neither is given a new
/// identity.
pub proof fn lemma_cluster_ids_are_distinct(
    one: NodeView,
    inbound_one: Seq<MessageView>,
    other: NodeView,
    inbound_other: Seq<MessageView>,
)
    requires
        free_of_init(inbound_one),
        free_of_init(inbound_other),
        one.stride() == other.stride(),
        one.id_cursor % one.stride() != other.id_cursor % other.stride(),
    ensures
        generated_ids(one.run(inbound_one).sent).to_set().disjoint(
            generated_ids(other.run(inbound_other).sent).to_set(),
        ),
{
    let ids_one = generated_ids(one.run(inbound_one).sent);
    let ids_other = generated_ids(other.run(inbound_other).sent);
    lemma_run_generates_in_strides(one, inbound_one);
    lemma_run_generates_in_strides(other, inbound_other);
    assert forall|id: nat| !(ids_one.to_set().contains(id) && ids_other.to_set().contains(id)) by {
        if ids_one.contains(id) && ids_other.contains(id) {
            let k = choose|k: int| 0 <= k < ids_one.len() && ids_one[k] == id;
            let l = choose|l: int| 0 <= l < ids_other.len() && ids_other[l] == id;
            lemma_strided_ids_differ(
                one.id_cursor,
                k as nat,
                other.id_cursor,
                l as nat,
                one.stride(),
            );
        }
    }
}

} // verus!
