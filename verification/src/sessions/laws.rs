//! What holds of a session over more than one step.

use super::names;
use super::rules;
use super::rules::Next;
use super::rules::SessionEventView;
use super::rules::SessionView;
use super::steps::EffectView;
use super::steps::PendingView;
use super::steps::PersistView;
use super::steps::QueueView;
use super::steps::StepView;
use super::steps::SubscribeProgressView;
use super::SessionErrorView;
use crate::broker::router::SubscribeResponseView;
use crate::messages::codec;
use crate::messages::connect;
use crate::messages::publish;
use crate::messages::ReturnCode;
use vstd::prelude::*;

verus! {

/// Whether a queue holds together: only messages and notes of received ones, each under
/// an identifier of its own that is in use.
pub open spec fn queue_valid(queue: Seq<codec::MessageView>, mids: Set<u16>) -> bool {
    &&& forall|i: int|
        0 <= i < queue.len() ==> (rules::queued_mid(#[trigger] queue[i]) matches Some(mid)
            && mids.contains(mid))
    &&& forall|i: int, j: int|
        0 <= i < j < queue.len() ==> rules::queued_mid(#[trigger] queue[i]) != rules::queued_mid(
            #[trigger] queue[j],
        )
}

/// Whether a session holds together.
pub open spec fn session_valid(v: SessionView) -> bool {
    queue_valid(v.qos_outgoing_messages, v.qos_outgoing)
}

/// Whether no packet with an identifier is queued.
pub open spec fn not_queued(queue: Seq<codec::MessageView>, mid: u16) -> bool {
    forall|i: int| 0 <= i < queue.len() ==> rules::queued_mid(#[trigger] queue[i]) != Some(mid)
}

/// What holds of the queue while a session waits.
pub open spec fn pending_valid(v: SessionView, pending: PendingView) -> bool {
    match pending {
        PendingView::PublishStored { message } => !v.qos_outgoing.contains(message.identifier),
        PendingView::PubrecStored { mid } => not_queued(v.qos_outgoing_messages, mid),
        _ => true,
    }
}

/// What holds of the queue while a step is carried out.
pub open spec fn step_valid(v: SessionView, step: StepView) -> bool {
    match step {
        StepView::Perform(_, pending) => pending_valid(v, pending),
        _ => true,
    }
}

proof fn lemma_position_found(v: SessionView, mid: u16)
    requires
        rules::position(v, mid) is Some,
    ensures
        rules::queued_at(v.qos_outgoing_messages, mid, rules::position(v, mid)->0),
        v.qos_outgoing.contains(mid),
{
}

/// A queued packet is found under its identifier.
pub proof fn lemma_position_of(v: SessionView, i: int)
    requires
        session_valid(v),
        0 <= i < v.qos_outgoing_messages.len(),
    ensures
        rules::queued_mid(v.qos_outgoing_messages[i]) matches Some(mid) && rules::position(v, mid)
            == Some(i),
{
    let queue = v.qos_outgoing_messages;
    let mid = rules::queued_mid(queue[i])->0;
    assert(rules::queued_at(queue, mid, i)) by {
        assert forall|j: int| 0 <= j < i implies rules::queued_mid(#[trigger] queue[j]) != Some(
            mid,
        ) by {
            assert(rules::queued_mid(queue[j]) != rules::queued_mid(queue[i]));
        }
    }
    let k = choose|k: int| rules::queued_at(queue, mid, k);
    assert(rules::queued_at(queue, mid, k));
    if k != i {
        assert(rules::queued_mid(queue[k]) == rules::queued_mid(queue[i]));
    }
}

/// Where no packet is found under an identifier none is queued under it.
proof fn lemma_not_queued(v: SessionView, mid: u16)
    requires
        session_valid(v),
        rules::position(v, mid) is None,
    ensures
        not_queued(v.qos_outgoing_messages, mid),
{
    assert forall|i: int| 0 <= i < v.qos_outgoing_messages.len() implies rules::queued_mid(
        #[trigger] v.qos_outgoing_messages[i],
    ) != Some(mid) by {
        lemma_position_of(v, i);
    }
}

proof fn lemma_removed(v: SessionView, mid: u16)
    requires
        session_valid(v),
        rules::position(v, mid) is Some,
    ensures
        session_valid(rules::without_queued(v, mid)),
        not_queued(rules::without_queued(v, mid).qos_outgoing_messages, mid),
        queue_valid(
            rules::without_queued(v, mid).qos_outgoing_messages,
            v.qos_outgoing.remove(mid),
        ),
{
    lemma_position_found(v, mid);
    let p = rules::position(v, mid)->0;
    let queue = v.qos_outgoing_messages;
    let after = rules::without_queued(v, mid).qos_outgoing_messages;
    assert forall|i: int| 0 <= i < after.len() implies #[trigger] after[i] == queue[if i < p {
        i
    } else {
        i + 1
    }] by {}
    assert forall|i: int| 0 <= i < after.len() implies rules::queued_mid(#[trigger] after[i])
        != Some(mid) by {
        let k = if i < p {
            i
        } else {
            i + 1
        };
        assert(after[i] == queue[k]);
        if k < p {
            assert(rules::queued_mid(queue[k]) != rules::queued_mid(queue[p]));
        } else {
            assert(rules::queued_mid(queue[p]) != rules::queued_mid(queue[k]));
        }
    }
    assert forall|i: int| 0 <= i < after.len() implies (rules::queued_mid(
        #[trigger] after[i],
    ) matches Some(m) && v.qos_outgoing.contains(m) && v.qos_outgoing.remove(mid).contains(m)) by {
        assert(rules::queued_mid(after[i]) != Some(mid));
    }
    assert forall|i: int, j: int| 0 <= i < j < after.len() implies rules::queued_mid(
        #[trigger] after[i],
    ) != rules::queued_mid(#[trigger] after[j]) by {}
}

proof fn lemma_queued(v: SessionView, mid: u16, m: codec::MessageView)
    requires
        session_valid(v),
        not_queued(v.qos_outgoing_messages, mid),
        rules::queued_mid(m) == Some(mid),
    ensures
        session_valid(rules::with_queued(v, mid, m)),
{
    let queue = v.qos_outgoing_messages;
    let w = rules::with_queued(v, mid, m);
    let after = w.qos_outgoing_messages;
    assert forall|i: int| 0 <= i < after.len() implies (rules::queued_mid(
        #[trigger] after[i],
    ) matches Some(k) && w.qos_outgoing.contains(k)) by {
        if i < queue.len() {
            assert(after[i] == queue[i]);
        }
    }
    assert forall|i: int, j: int| 0 <= i < j < after.len() implies rules::queued_mid(
        #[trigger] after[i],
    ) != rules::queued_mid(#[trigger] after[j]) by {
        assert(after[i] == queue[i]);
        if j < queue.len() {
            assert(after[j] == queue[j]);
        }
    }
}

pub proof fn lemma_marked(v: SessionView, mid: u16)
    requires
        session_valid(v),
        rules::dup_needed(v, mid) == Ok::<bool, SessionErrorView>(true),
    ensures
        session_valid(rules::with_dup(v, mid)),
{
    lemma_position_found(v, mid);
    let queue = v.qos_outgoing_messages;
    let after = rules::with_dup(v, mid).qos_outgoing_messages;
    assert forall|i: int| 0 <= i < after.len() implies rules::queued_mid(#[trigger] after[i])
        == rules::queued_mid(queue[i]) by {}
    assert forall|i: int, j: int| 0 <= i < j < after.len() implies rules::queued_mid(
        #[trigger] after[i],
    ) != rules::queued_mid(#[trigger] after[j]) by {
        assert(rules::queued_mid(queue[i]) != rules::queued_mid(queue[j]));
    }
}

/// The queue stays valid with every event.
pub proof fn law_event_keeps_queue(v: SessionView, event: SessionEventView)
    requires
        session_valid(v),
    ensures
        session_valid(rules::handled(v, event).0),
        step_valid(rules::handled(v, event).0, rules::handled(v, event).1),
{
    match event {
        SessionEventView::Client(codec::MessageView::PubRec(mid)) => {
            if rules::position(v, mid) is None {
                lemma_not_queued(v, mid);
            }
        },
        _ => {},
    }
}

/// The queue stays valid with every outcome of what a session has done for it, good or
/// bad.
pub proof fn law_answer_keeps_queue(
    v: SessionView,
    pending: PendingView,
    outcome: Result<(), SessionErrorView>,
)
    requires
        session_valid(v),
        rules::waits(v, pending),
        pending_valid(v, pending),
    ensures
        session_valid(rules::answered(v, pending, outcome).0),
        step_valid(
            rules::answered(v, pending, outcome).0,
            rules::answered(v, pending, outcome).1,
        ),
{
    if outcome is Ok {
        match pending {
            PendingView::PublishStored { message } => {
                assert forall|i: int| 0 <= i < v.qos_outgoing_messages.len() implies
                    rules::queued_mid(#[trigger] v.qos_outgoing_messages[i]) != Some(
                    message.identifier,
                ) by {}
                lemma_queued(v, message.identifier, codec::MessageView::Publish(message));
            },
            PendingView::DupStored { mid } => {
                lemma_marked(v, mid);
            },
            PendingView::QueueDupStored { queue, mid } => {
                lemma_marked(v, mid);
            },
            PendingView::OutgoingDeleted { mid } => {
                lemma_removed(v, mid);
            },
            PendingView::PubrecDeleted { mid } => {
                lemma_removed(v, mid);
            },
            PendingView::PubrecStored { mid } => {
                lemma_queued(v, mid, codec::MessageView::PubRec(mid));
            },
            _ => {},
        }
    }
}

/// The queue stays as it is while the router is asked for subscriptions.
pub proof fn law_subscribe_keeps_queue(
    v: SessionView,
    progress: SubscribeProgressView,
    answer: Option<SubscribeResponseView>,
)
    ensures
        rules::subscribe_answered(v, progress, answer).0.qos_outgoing_messages
            == v.qos_outgoing_messages,
        rules::subscribe_answered(v, progress, answer).0.qos_outgoing == v.qos_outgoing,
        rules::subscribe_answered(v, progress, answer).0.qos_incoming == v.qos_incoming,
{
}

/// A session that has just been made is valid.
pub proof fn law_new_session_valid(id: Seq<char>)
    ensures
        session_valid(rules::new_session(id)),
{
}

/// A step with good outcomes throughout, up to the end of the event. `steps` bounds how
/// many effects there are.
pub open spec fn granted(next: Next, steps: nat) -> Next
    decreases steps,
{
    match next.1 {
        StepView::Perform(_, pending) => if steps == 0 {
            next
        } else {
            granted(rules::answered(next.0, pending, Ok(())), (steps - 1) as nat)
        },
        _ => next,
    }
}

/// Every effect of a step and of those after it, where all outcomes are good.
pub open spec fn effects(next: Next, steps: nat) -> Seq<EffectView>
    decreases steps,
{
    match next.1 {
        StepView::Perform(effect, pending) => if steps == 0 {
            seq![effect]
        } else {
            seq![effect] + effects(
                rules::answered(next.0, pending, Ok(())),
                (steps - 1) as nat,
            )
        },
        _ => seq![],
    }
}

/// A message of QoS 2 is published once: when it comes again under its identifier before
/// it is released, the client gets the acknowledgement and the router gets nothing.
pub proof fn law_qos2_published_once(v: SessionView, m: publish::PublishView, again: publish::PublishView)
    requires
        m.qos == 2,
        again.qos == 2,
        again.identifier == m.identifier,
        !v.qos_incoming.contains(m.identifier),
        v.connected,
    ensures
        ({
            let first = rules::handled(
                v,
                SessionEventView::Client(codec::MessageView::Publish(m)),
            );
            let w = granted(first, 3).0;
            let second = rules::handled(
                w,
                SessionEventView::Client(codec::MessageView::Publish(again)),
            );
            &&& effects(first, 3) == seq![
                EffectView::RouterPublish {
                    session: rules::session_id(v),
                    message: publish::PublishView { dup: false, ..m },
                },
                EffectView::Persist(
                    PersistView::IncomingStore { session_id: v.internal_id, mid: m.identifier },
                ),
                EffectView::SendClient(codec::MessageView::PubRec(m.identifier)),
            ]
            &&& granted(first, 3).1 == StepView::Done(Ok(()))
            &&& w.qos_incoming == v.qos_incoming.insert(m.identifier)
            &&& effects(second, 1) == seq![
                EffectView::SendClient(codec::MessageView::PubRec(m.identifier)),
            ]
        }),
{
    reveal_with_fuel(granted, 4);
    reveal_with_fuel(effects, 4);
    let first = rules::handled(v, SessionEventView::Client(codec::MessageView::Publish(m)));
    let w = granted(first, 3).0;
    let second = rules::handled(w, SessionEventView::Client(codec::MessageView::Publish(again)));
    assert(effects(first, 3) =~= seq![
        EffectView::RouterPublish {
            session: rules::session_id(v),
            message: publish::PublishView { dup: false, ..m },
        },
        EffectView::Persist(
            PersistView::IncomingStore { session_id: v.internal_id, mid: m.identifier },
        ),
        EffectView::SendClient(codec::MessageView::PubRec(m.identifier)),
    ]);
    assert(effects(second, 1) =~= seq![
        EffectView::SendClient(codec::MessageView::PubRec(m.identifier)),
    ]);
}

/// Once a message of QoS 2 is released, its identifier is free: the next message under it
/// is published.
pub proof fn law_release_frees_identifier(v: SessionView, mid: u16, m: publish::PublishView)
    requires
        m.identifier == mid,
        v.connected,
    ensures
        ({
            let release = rules::handled(
                v,
                SessionEventView::Client(codec::MessageView::PubRel(mid)),
            );
            let w = granted(release, 2).0;
            &&& granted(release, 2).1 == StepView::Done(Ok(()))
            &&& w.qos_incoming == v.qos_incoming.remove(mid)
            &&& effects(release, 2).last() == EffectView::SendClient(
                codec::MessageView::PubComp(mid),
            )
            &&& rules::handled(
                w,
                SessionEventView::Client(codec::MessageView::Publish(m)),
            ).1 matches StepView::Perform(EffectView::RouterPublish { message, .. }, _)
                && message == (publish::PublishView { dup: false, ..m })
        }),
{
    reveal_with_fuel(granted, 3);
    reveal_with_fuel(effects, 3);
    let release = rules::handled(v, SessionEventView::Client(codec::MessageView::PubRel(mid)));
    assert(effects(release, 2) =~= seq![
        EffectView::Persist(PersistView::IncomingDelete { session_id: v.internal_id, mid }),
        EffectView::SendClient(codec::MessageView::PubComp(mid)),
    ]);
}

/// A message of QoS 1 or 2 for a client is given the next identifier, stored, queued and
/// only then sent; it stays in the queue, marked as sent before.
pub proof fn law_stored_before_sent(v: SessionView, m: publish::PublishView)
    requires
        session_valid(v),
        rules::acknowledged(m.qos),
        v.next_message_id < u16::MAX,
        v.connected,
        !v.qos_outgoing.contains(v.next_message_id),
    ensures
        ({
            let mid = v.next_message_id;
            let sent = publish::PublishView { identifier: mid, dup: false, ..m };
            let start = rules::internal_publish(v, m);
            let w = granted(start, 4).0;
            &&& effects(start, 4) == seq![
                EffectView::Persist(
                    PersistView::UpdateMid {
                        session_id: v.internal_id,
                        next_message_id: (mid + 1) as u16,
                    },
                ),
                EffectView::Persist(
                    PersistView::OutgoingStore {
                        session_id: v.internal_id,
                        mid,
                        message: codec::MessageView::Publish(sent),
                    },
                ),
                EffectView::SendClient(codec::MessageView::Publish(sent)),
                EffectView::Persist(
                    PersistView::OutgoingUpdateDup { session_id: v.internal_id, mid, dup: true },
                ),
            ]
            &&& granted(start, 4).1 == StepView::Done(Ok(()))
            &&& w.next_message_id == mid + 1
            &&& w.qos_outgoing == v.qos_outgoing.insert(mid)
            &&& w.qos_outgoing_messages == v.qos_outgoing_messages.push(
                codec::MessageView::Publish(publish::PublishView { dup: true, ..sent }),
            )
        }),
{
    reveal_with_fuel(granted, 5);
    reveal_with_fuel(effects, 5);
    let mid = v.next_message_id;
    let sent = publish::PublishView { identifier: mid, dup: false, ..m };
    let start = rules::internal_publish(v, m);
    let next_message_id = (mid + 1) as u16;
    let v1 = SessionView {
        publish_sent: v.publish_sent.wrapping_add(1),
        next_message_id,
        ..v
    };
    let v2 = rules::with_queued(v1, mid, codec::MessageView::Publish(sent));
    assert forall|i: int| 0 <= i < v.qos_outgoing_messages.len() implies rules::queued_mid(
        #[trigger] v.qos_outgoing_messages[i],
    ) != Some(mid) by {}
    assert(session_valid(v1));
    lemma_queued(v1, mid, codec::MessageView::Publish(sent));
    let last = v2.qos_outgoing_messages.len() - 1;
    lemma_position_of(v2, last);
    assert(rules::dup_needed(v2, mid) == Ok::<bool, SessionErrorView>(true));
    let w = rules::with_dup(v2, mid);
    assert(w.qos_outgoing_messages =~= v.qos_outgoing_messages.push(
        codec::MessageView::Publish(publish::PublishView { dup: true, ..sent }),
    ));
    assert(granted(start, 4) == (w, StepView::Done(Ok(()))));
    assert(effects(start, 4) =~= seq![
        EffectView::Persist(
            PersistView::UpdateMid { session_id: v.internal_id, next_message_id },
        ),
        EffectView::Persist(
            PersistView::OutgoingStore {
                session_id: v.internal_id,
                mid,
                message: codec::MessageView::Publish(sent),
            },
        ),
        EffectView::SendClient(codec::MessageView::Publish(sent)),
        EffectView::Persist(
            PersistView::OutgoingUpdateDup { session_id: v.internal_id, mid, dup: true },
        ),
    ]);
}

/// A message for a client that is away is stored and queued, and nothing is sent.
pub proof fn law_queued_while_away(v: SessionView, m: publish::PublishView)
    requires
        rules::acknowledged(m.qos),
        v.next_message_id < u16::MAX,
        !v.connected,
        !v.qos_outgoing.contains(v.next_message_id),
    ensures
        ({
            let mid = v.next_message_id;
            let kept = publish::PublishView { identifier: mid, dup: false, ..m };
            let (w, step) = granted(rules::internal_publish(v, m), 2);
            &&& step == StepView::Done(Ok(()))
            &&& w.qos_outgoing_messages == v.qos_outgoing_messages.push(
                codec::MessageView::Publish(kept),
            )
            &&& w.qos_outgoing == v.qos_outgoing.insert(mid)
        }),
{
    reveal_with_fuel(granted, 3);
}

/// An acknowledgement takes exactly the message with its identifier out of the queue; one
/// for an identifier that is not queued changes nothing.
pub proof fn law_acknowledged_is_gone(v: SessionView, mid: u16)
    requires
        session_valid(v),
    ensures
        ({
            let ack = SessionEventView::Client(codec::MessageView::PubAck(mid));
            let (w, step) = granted(rules::handled(v, ack), 1);
            &&& step == StepView::Done(Ok(()))
            &&& not_queued(w.qos_outgoing_messages, mid)
            &&& match rules::position(v, mid) {
                Some(i) => {
                    &&& w.qos_outgoing_messages == v.qos_outgoing_messages.remove(i)
                    &&& w.qos_outgoing == v.qos_outgoing.remove(mid)
                },
                None => w == v,
            }
        }),
{
    reveal_with_fuel(granted, 2);
    if rules::position(v, mid) is Some {
        lemma_removed(v, mid);
    } else {
        lemma_not_queued(v, mid);
    }
}

/// PUBREC replaces a queued message by the note that it was received, and PUBREL goes
/// out; PUBCOMP then takes the note away.
pub proof fn law_qos2_handshake(v: SessionView, mid: u16)
    requires
        session_valid(v),
        v.connected,
        rules::position(v, mid) matches Some(i) && v.qos_outgoing_messages[i] is Publish,
    ensures
        ({
            let received = SessionEventView::Client(codec::MessageView::PubRec(mid));
            let complete = SessionEventView::Client(codec::MessageView::PubComp(mid));
            let i = rules::position(v, mid)->0;
            let first = rules::handled(v, received);
            let w = granted(first, 3).0;
            let u = granted(rules::handled(w, complete), 1).0;
            &&& granted(first, 3).1 == StepView::Done(Ok(()))
            &&& effects(first, 3).last() == EffectView::SendClient(
                codec::MessageView::PubRel(mid),
            )
            &&& w.qos_outgoing_messages == v.qos_outgoing_messages.remove(i).push(
                codec::MessageView::PubRec(mid),
            )
            &&& u.qos_outgoing_messages == v.qos_outgoing_messages.remove(i)
            &&& u.qos_outgoing == v.qos_outgoing.remove(mid)
        }),
{
    reveal_with_fuel(granted, 4);
    reveal_with_fuel(effects, 4);
    lemma_removed(v, mid);
    let i = rules::position(v, mid)->0;
    let first = rules::handled(v, SessionEventView::Client(codec::MessageView::PubRec(mid)));
    let v1 = rules::without_queued(v, mid);
    let w = rules::with_queued(v1, mid, codec::MessageView::PubRec(mid));
    lemma_queued(v1, mid, codec::MessageView::PubRec(mid));
    lemma_position_found(v, mid);
    assert(v.qos_outgoing.insert(mid) =~= v.qos_outgoing);
    assert(granted(first, 3) == (w, StepView::Done(Ok(()))));
    assert(effects(first, 3) =~= seq![
        EffectView::Persist(PersistView::OutgoingDelete { session_id: v.internal_id, mid }),
        EffectView::Persist(
            PersistView::OutgoingStore {
                session_id: v.internal_id,
                mid,
                message: codec::MessageView::PubRec(mid),
            },
        ),
        EffectView::SendClient(codec::MessageView::PubRel(mid)),
    ]);
    let last = w.qos_outgoing_messages.len() - 1;
    lemma_position_of(w, last);
    let u = granted(
        rules::handled(w, SessionEventView::Client(codec::MessageView::PubComp(mid))),
        1,
    ).0;
    assert(w.qos_outgoing_messages.remove(last) =~= v1.qos_outgoing_messages);
    assert(u.qos_outgoing =~= v.qos_outgoing.remove(mid));
}

/// A packet of the router that was meant for another generation of the session is
/// dropped.
pub proof fn law_other_generation_dropped(
    v: SessionView,
    session: crate::broker::router::SessionIdView,
    message: codec::MessageView,
)
    requires
        session.session_generation != v.generation,
    ensures
        rules::handled(v, SessionEventView::Internal { session, message }) == (
            v,
            StepView::Done(Ok(())),
        ),
{
}

/// What a client that takes over a session is preceded by: DISCONNECT for the client that
/// is connected, if one is.
pub open spec fn goodbye(v: SessionView) -> Seq<EffectView> {
    if v.connected {
        seq![EffectView::SendClient(codec::MessageView::Disconnect)]
    } else {
        seq![]
    }
}

/// A client that is connected is told to go before another one takes over the session;
/// whatever becomes of that packet, it goes on as if no client had been connected.
pub proof fn law_take_over(
    v: SessionView,
    m: connect::ConnectView,
    outcome: Result<(), SessionErrorView>,
)
    requires
        v.connected,
    ensures
        ({
            let pending = PendingView::Disconnected { clean: m.clean_session };
            let event = SessionEventView::NewClient(m);
            &&& rules::handled(v, event) == (
                v,
                StepView::Perform(
                    EffectView::SendClient(codec::MessageView::Disconnect),
                    pending,
                ),
            )
            &&& rules::answered(v, pending, outcome) == rules::handled(
                rules::client_lost(v),
                event,
            )
        }),
{
}

/// What the store and the router are told for a clean session, and what the new client is.
pub open spec fn clean_effects(v: SessionView) -> Seq<EffectView> {
    seq![
        EffectView::Persist(PersistView::IncomingClear { session_id: v.internal_id }),
        EffectView::Persist(PersistView::OutgoingClear { session_id: v.internal_id }),
        EffectView::RouterUnsubscribe {
            session: rules::session_id(v),
            topics: v.subscriptions,
        },
        EffectView::Persist(
            PersistView::UpdateGeneration {
                session_id: v.internal_id,
                generation: (v.generation + 1) as i64,
            },
        ),
        EffectView::SwitchClient(
            codec::MessageView::ConnAck(
                connect::ConnackView {
                    return_code: ReturnCode::Accepted,
                    session_present: false,
                },
            ),
        ),
    ]
}

/// The session that a client with a clean session gets.
pub open spec fn cleaned(v: SessionView) -> SessionView {
    SessionView {
        qos_outgoing_messages: seq![],
        qos_outgoing: Set::empty(),
        qos_incoming: Set::empty(),
        subscriptions: seq![],
        generation: (v.generation + 1) as i64,
        next_message_id: 1,
        clean: false,
        connected: true,
        ..v
    }
}

proof fn lemma_clean_connection(v: SessionView, m: connect::ConnectView)
    requires
        m.clean_session,
        !v.connected,
        v.generation < i64::MAX,
    ensures
        ({
            let start = rules::handled(v, SessionEventView::NewClient(m));
            &&& granted(start, 5) == (cleaned(v), StepView::Done(Ok(())))
            &&& effects(start, 5) == clean_effects(v)
        }),
{
    reveal_with_fuel(granted, 6);
    reveal_with_fuel(effects, 6);
    let start = rules::handled(v, SessionEventView::NewClient(m));
    assert(granted(start, 5).0 =~= cleaned(v));
    assert(effects(start, 5) =~= clean_effects(v));
}

/// A client that asks for a clean session gets one: a client that is still connected is
/// told to go, nothing received, queued or subscribed is left, the router is told, the
/// generation is a new one, and the client is told that there was no session.
pub proof fn law_clean_connection(v: SessionView, m: connect::ConnectView)
    requires
        m.clean_session,
        v.generation < i64::MAX,
    ensures
        ({
            let start = rules::handled(v, SessionEventView::NewClient(m));
            let steps = goodbye(v).len() + 5;
            &&& granted(start, steps) == (cleaned(v), StepView::Done(Ok(())))
            &&& effects(start, steps) == goodbye(v) + clean_effects(v)
        }),
{
    let start = rules::handled(v, SessionEventView::NewClient(m));
    if v.connected {
        let lost = rules::client_lost(v);
        let after = rules::handled(lost, SessionEventView::NewClient(m));
        law_take_over(v, m, Ok(()));
        lemma_clean_connection(lost, m);
        assert(granted(start, 6) == granted(after, 5));
        assert(effects(start, 6) == goodbye(v) + effects(after, 5));
        assert(cleaned(lost) == cleaned(v));
        assert(clean_effects(lost) == clean_effects(v));
    } else {
        lemma_clean_connection(v, m);
        assert(goodbye(v) + clean_effects(v) =~= clean_effects(v));
    }
}

/// What a client gets of a queued packet: a message as it is, PUBREL for a note.
pub open spec fn queue_packet(m: codec::MessageView) -> codec::MessageView {
    match m {
        codec::MessageView::PubRec(mid) => codec::MessageView::PubRel(mid),
        _ => m,
    }
}

/// The packets among effects that go to the client.
pub open spec fn packets(effects: Seq<EffectView>) -> Seq<codec::MessageView>
    decreases effects.len(),
{
    if effects.len() == 0 {
        seq![]
    } else {
        match effects[0] {
            EffectView::SendClient(m) => seq![m] + packets(effects.skip(1)),
            _ => packets(effects.skip(1)),
        }
    }
}

/// Whether two sessions differ at most in which queued messages are marked as sent
/// before.
pub open spec fn same_but_marks(v: SessionView, w: SessionView) -> bool {
    &&& w == SessionView { qos_outgoing_messages: w.qos_outgoing_messages, ..v }
    &&& w.qos_outgoing_messages.len() == v.qos_outgoing_messages.len()
    &&& forall|i: int|
        0 <= i < v.qos_outgoing_messages.len() ==> unmarked(
            #[trigger] w.qos_outgoing_messages[i],
        ) == unmarked(v.qos_outgoing_messages[i])
}

/// A packet without the mark.
pub open spec fn unmarked(m: codec::MessageView) -> codec::MessageView {
    match m {
        codec::MessageView::Publish(p) => codec::MessageView::Publish(
            publish::PublishView { dup: false, ..p },
        ),
        _ => m,
    }
}

/// A client that comes back gets the whole queue again, in its order.
pub proof fn law_queue_is_sent_again(v: SessionView, queue: QueueView)
    requires
        session_valid(v),
        v.connected,
        queue.next <= v.qos_outgoing_messages.len(),
    ensures
        ({
            let start = rules::send_queue(v, queue);
            let steps = (2 * (v.qos_outgoing_messages.len() - queue.next)) as nat;
            &&& granted(start, steps).1 == StepView::Done(queue.outcome)
            &&& packets(effects(start, steps)) == v.qos_outgoing_messages.skip(
                queue.next as int,
            ).map_values(|m: codec::MessageView| queue_packet(m))
            &&& same_but_marks(v, granted(start, steps).0)
        }),
    decreases v.qos_outgoing_messages.len() - queue.next,
{
    let all = v.qos_outgoing_messages;
    let left = all.len() - queue.next;
    let steps = (2 * left) as nat;
    let f = |m: codec::MessageView| queue_packet(m);
    let start = rules::send_queue(v, queue);
    if left == 0 {
        assert(all.skip(queue.next as int).map_values(f) =~= seq![]);
    } else {
        let n = queue.next as int;
        lemma_position_of(v, n);
        let m = all[n];
        let rest = rules::queue_rest(queue);
        assert(all.skip(n).map_values(f) =~= seq![queue_packet(m)] + all.skip(n + 1).map_values(f));
        let mark = match m {
            codec::MessageView::Publish(p) => if rules::acknowledged(p.qos) && !p.dup {
                Some(p.identifier)
            } else {
                None
            },
            _ => None,
        };
        let sent = PendingView::QueueSent { queue, mark };
        let send = EffectView::SendClient(queue_packet(m));
        assert(start == (v, StepView::Perform(send, sent)));
        match mark {
            Some(mid) => {
                let w = rules::with_dup(v, mid);
                assert(rules::dup_needed(v, mid) == Ok::<bool, SessionErrorView>(true));
                lemma_marked(v, mid);
                assert(w.qos_outgoing_messages.skip(n + 1) =~= all.skip(n + 1));
                law_queue_is_sent_again(w, rest);
                let request = rules::dup_request(v, mid);
                let marked = PendingView::QueueDupStored { queue, mid };
                let middle = (v, StepView::Perform(request, marked));
                let end = rules::send_queue(w, rest);
                assert(rules::answered(v, sent, Ok(())) == middle);
                assert(rules::answered(v, marked, Ok(())) == end);
                lemma_one_step(start, send, sent, steps);
                lemma_one_step(middle, request, marked, (steps - 1) as nat);
                let u = granted(end, (steps - 2) as nat).0;
                assert forall|i: int| 0 <= i < all.len() implies unmarked(
                    #[trigger] u.qos_outgoing_messages[i],
                ) == unmarked(all[i]) by {
                    assert(unmarked(w.qos_outgoing_messages[i]) == unmarked(all[i]));
                }
            },
            None => {
                law_queue_is_sent_again(v, rest);
                let end = rules::send_queue(v, rest);
                assert(rules::answered(v, sent, Ok(())) == end);
                lemma_more_steps(end, (steps - 2) as nat);
                lemma_one_step(start, send, sent, steps);
            },
        }
    }
}

/// One effect, and those after it.
proof fn lemma_one_step(next: Next, effect: EffectView, pending: PendingView, steps: nat)
    requires
        steps > 0,
        next.1 == StepView::Perform(effect, pending),
    ensures
        ({
            let after = rules::answered(next.0, pending, Ok(()));
            &&& granted(next, steps) == granted(after, (steps - 1) as nat)
            &&& packets(effects(next, steps)) == (match effect {
                EffectView::SendClient(m) => seq![m],
                _ => seq![],
            }) + packets(effects(after, (steps - 1) as nat))
        }),
{
    let after = rules::answered(next.0, pending, Ok(()));
    let tail = effects(after, (steps - 1) as nat);
    assert(effects(next, steps) == seq![effect] + tail);
    assert((seq![effect] + tail).skip(1) =~= tail);
    assert(seq![] + packets(tail) =~= packets(tail));
}

/// Once an event is dealt with more steps change nothing.
pub proof fn lemma_more_steps(next: Next, steps: nat)
    requires
        !(granted(next, steps).1 is Perform),
    ensures
        granted(next, steps + 1) == granted(next, steps),
        effects(next, steps + 1) == effects(next, steps),
    decreases steps,
{
    match next.1 {
        StepView::Perform(_, pending) => {
            if steps > 0 {
                lemma_more_steps(
                    rules::answered(next.0, pending, Ok(())),
                    (steps - 1) as nat,
                );
            }
        },
        _ => {},
    }
}

/// What a client is greeted with that did not ask for a clean session.
pub open spec fn welcome(v: SessionView) -> EffectView {
    EffectView::SwitchClient(
        codec::MessageView::ConnAck(
            connect::ConnackView {
                return_code: ReturnCode::Accepted,
                session_present: !v.clean,
            },
        ),
    )
}

proof fn lemma_session_resumed(v: SessionView, m: connect::ConnectView)
    requires
        session_valid(v),
        !m.clean_session,
        !v.connected,
    ensures
        ({
            let start = rules::handled(v, SessionEventView::NewClient(m));
            let steps = (2 * v.qos_outgoing_messages.len()) as nat;
            let (w, step) = granted(start, steps + 1);
            &&& step == StepView::Done(Ok(()))
            &&& effects(start, steps + 1).len() > 0
            &&& effects(start, steps + 1)[0] == welcome(v)
            &&& packets(effects(start, steps + 1)) == v.qos_outgoing_messages.map_values(
                |m: codec::MessageView| queue_packet(m),
            )
            &&& same_but_marks(SessionView { clean: false, connected: true, ..v }, w)
        }),
{
    let start = rules::handled(v, SessionEventView::NewClient(m));
    let steps = (2 * v.qos_outgoing_messages.len()) as nat;
    let queue = QueueView { next: 0, outcome: Ok(()) };
    let v1 = SessionView { clean: false, connected: true, ..v };
    law_queue_is_sent_again(v1, queue);
    assert(v.qos_outgoing_messages.skip(0) =~= v.qos_outgoing_messages);
    let tail = effects(rules::send_queue(v1, queue), steps);
    reveal_with_fuel(granted, 2);
    reveal_with_fuel(effects, 2);
    reveal_with_fuel(packets, 2);
    assert(effects(start, steps + 1).skip(1) =~= tail);
}

/// A client that comes back without asking for a clean session finds it as it was: a
/// client that is still connected is told to go, the new one is told that there was a
/// session unless it is new, and nothing received, queued or subscribed is lost.
pub proof fn law_session_resumed(v: SessionView, m: connect::ConnectView)
    requires
        session_valid(v),
        !m.clean_session,
    ensures
        ({
            let start = rules::handled(v, SessionEventView::NewClient(m));
            let first = goodbye(v).len();
            let steps = first + 1 + 2 * v.qos_outgoing_messages.len();
            let (w, step) = granted(start, steps);
            &&& step == StepView::Done(Ok(()))
            &&& effects(start, steps).len() > first
            &&& effects(start, steps).take(first as int) == goodbye(v)
            &&& effects(start, steps)[first as int] == welcome(v)
            &&& packets(effects(start, steps).skip(first as int))
                == v.qos_outgoing_messages.map_values(|m: codec::MessageView| queue_packet(m))
            &&& same_but_marks(SessionView { clean: false, connected: true, ..v }, w)
        }),
{
    let start = rules::handled(v, SessionEventView::NewClient(m));
    let steps = 1 + 2 * v.qos_outgoing_messages.len();
    if v.connected {
        let lost = rules::client_lost(v);
        let after = rules::handled(lost, SessionEventView::NewClient(m));
        law_take_over(v, m, Ok(()));
        lemma_session_resumed(lost, m);
        assert(granted(start, steps + 1) == granted(after, steps));
        assert(effects(start, steps + 1) == goodbye(v) + effects(after, steps));
        assert((goodbye(v) + effects(after, steps)).take(1) =~= goodbye(v));
        assert((goodbye(v) + effects(after, steps)).skip(1) =~= effects(after, steps));
    } else {
        lemma_session_resumed(v, m);
        assert(effects(start, steps).take(0) =~= goodbye(v));
        assert(effects(start, steps).skip(0) =~= effects(start, steps));
    }
}

/// A refused filter is answered with 0x80, a granted one with the quality of service that
/// was asked for; the messages retained at granted filters follow the answer.
pub proof fn law_suback_codes(
    v: SessionView,
    progress: SubscribeProgressView,
    answer: Option<SubscribeResponseView>,
)
    requires
        progress.next + 1 == progress.message.topics.len(),
        v.connected,
    ensures
        ({
            let refused = answer matches Some(a) ==> a.ret == 0x80;
            let (w, step) = rules::subscribe_answered(v, progress, answer);
            step matches StepView::Perform(
                EffectView::SendClient(codec::MessageView::SubAck(suback)),
                PendingView::SubackSent { retained, router_error },
            ) && suback.identifier == progress.suback.identifier && suback.response
                == progress.suback.response.push(
                if refused {
                    0x80u8
                } else {
                    progress.message.topics[progress.next as int].1
                },
            ) && retained == (if refused {
                progress.retained
            } else {
                progress.retained + answer->0.retained_messages
            }) && router_error == (progress.router_error || answer is None)
        }),
{
}

/// A filter that is subscribed is remembered until it is unsubscribed.
pub proof fn law_filters_remembered(list: Seq<Seq<char>>, name: Seq<char>, gone: Seq<Seq<char>>)
    ensures
        names::with_name(list, name).contains(name),
        forall|other: Seq<char>|
            list.contains(other) ==> #[trigger] names::with_name(list, name).contains(other),
        names::without_names(list, gone).contains(name) <==> list.contains(name) && !gone.contains(
            name,
        ),
{
    let after = names::with_name(list, name);
    if !list.contains(name) {
        assert(after[list.len() as int] == name);
        assert forall|other: Seq<char>| list.contains(other) implies #[trigger] after.contains(
            other,
        ) by {
            let i = choose|i: int| 0 <= i < list.len() && list[i] == other;
            assert(after[i] == other);
        }
    }
    let keep = |n: Seq<char>| !gone.contains(n);
    let kept = list.filter(keep);
    if kept.contains(name) {
        let i = choose|i: int| 0 <= i < kept.len() && kept[i] == name;
        list.lemma_filter_pred(keep, i);
        list.lemma_filter_contains_rev(keep, name);
    }
    if list.contains(name) && keep(name) {
        let i = choose|i: int| 0 <= i < list.len() && list[i] == name;
        list.lemma_filter_contains(keep, i);
    }
}

} // verus!
