//! Whole exchanges of a session: all that it asks and sends over one packet.

use super::laws;
use super::names;
use super::rules;
use super::rules::Next;
use super::rules::SessionEventView;
use super::rules::SessionView;
use super::steps::EffectView;
use super::steps::PendingView;
use super::steps::PersistView;
use super::steps::QueueView;
use super::steps::StepView;
use super::steps::SubscribeProgressView;
use super::SessionErrorView;
use crate::broker::router::SessionIdView;
use crate::broker::router::SubscribeResponseView;
use crate::messages::codec;
use crate::messages::connect;
use crate::messages::publish;
use crate::messages::subscribe;
use crate::messages::ReturnCode;
use vstd::prelude::*;

verus! {

/// What the router is asked for, where it gives one answer after the other.
pub open spec fn asked(next: Next, answers: Seq<Option<SubscribeResponseView>>) -> Seq<
    (SessionIdView, Seq<char>, u8),
>
    decreases answers.len(),
{
    match next.1 {
        StepView::Subscribe { session, topic, qos, progress } => if answers.len() == 0 {
            seq![(session, topic, qos)]
        } else {
            seq![(session, topic, qos)] + asked(
                rules::subscribe_answered(next.0, progress, answers[0]),
                answers.skip(1),
            )
        },
        _ => seq![],
    }
}

/// How far a session is once the router has given its answers.
pub open spec fn told(next: Next, answers: Seq<Option<SubscribeResponseView>>) -> Next
    decreases answers.len(),
{
    match next.1 {
        StepView::Subscribe { progress, .. } => if answers.len() == 0 {
            next
        } else {
            told(rules::subscribe_answered(next.0, progress, answers[0]), answers.skip(1))
        },
        _ => next,
    }
}

/// What the client is told of a filter: the quality of service that it asked for, or 0x80
/// where the router refused or did not answer.
pub open spec fn grant(answer: Option<SubscribeResponseView>, qos: u8) -> u8 {
    match answer {
        Some(a) => if a.ret == 0x80 {
            0x80
        } else {
            qos
        },
        None => 0x80,
    }
}

/// The messages that the router handed out with the filters that it granted.
pub open spec fn handed_out(answers: Seq<Option<SubscribeResponseView>>) -> Seq<
    publish::PublishView,
>
    decreases answers.len(),
{
    if answers.len() == 0 {
        seq![]
    } else {
        match answers[0] {
            Some(a) => if a.ret == 0x80 {
                handed_out(answers.skip(1))
            } else {
                a.retained_messages + handed_out(answers.skip(1))
            },
            None => handed_out(answers.skip(1)),
        }
    }
}

/// A message on its way to the client.
pub open spec fn sent(m: publish::PublishView) -> EffectView {
    EffectView::SendClient(codec::MessageView::Publish(m))
}

/// How a request ends that the router has answered as a whole, or not.
pub open spec fn router_outcome(answers: Seq<Option<SubscribeResponseView>>) -> Result<
    (),
    SessionErrorView,
> {
    if answers.contains(None::<SubscribeResponseView>) {
        Err(SessionErrorView::Router)
    } else {
        Ok(())
    }
}

proof fn lemma_subscribe(
    v: SessionView,
    p: SubscribeProgressView,
    answers: Seq<Option<SubscribeResponseView>>,
)
    requires
        p.next + answers.len() == p.message.topics.len(),
    ensures
        ({
            let start = rules::subscribe_next(v, p);
            let topics = p.message.topics;
            let n = p.next as int;
            let end = told(start, answers);
            let all = SubscribeProgressView {
                message: p.message,
                next: topics.len(),
                suback: subscribe::SubackView {
                    identifier: p.suback.identifier,
                    response: p.suback.response + Seq::new(
                        answers.len(),
                        |i: int| grant(answers[i], topics[n + i].1),
                    ),
                },
                retained: p.retained + handed_out(answers),
                router_error: p.router_error || answers.contains(None::<SubscribeResponseView>),
            };
            &&& asked(start, answers) == Seq::new(
                answers.len(),
                |i: int|
                    (
                        SessionIdView {
                            session: v.id,
                            internal_id: v.internal_id,
                            session_generation: v.generation,
                        },
                        topics[n + i].0,
                        topics[n + i].1,
                    ),
            )
            &&& end.0 == SessionView { subscriptions: end.0.subscriptions, ..v }
            &&& forall|name: Seq<char>| #[trigger]
                end.0.subscriptions.contains(name) <==> v.subscriptions.contains(name) || exists|
                    i: int,
                |
                    n <= i < topics.len() && (#[trigger] topics[i]).0 == name
            &&& end == rules::subscribe_next(end.0, all)
        }),
    decreases answers.len(),
{
    let start = rules::subscribe_next(v, p);
    let topics = p.message.topics;
    let n = p.next as int;
    let id = SessionIdView {
        session: v.id,
        internal_id: v.internal_id,
        session_generation: v.generation,
    };
    let requests = Seq::new(answers.len(), |i: int| (id, topics[n + i].0, topics[n + i].1));
    let codes = Seq::new(answers.len(), |i: int| grant(answers[i], topics[n + i].1));
    if answers.len() == 0 {
        assert(asked(start, answers) =~= requests);
        assert(p.suback.response + codes =~= p.suback.response);
        assert(p.retained + handed_out(answers) =~= p.retained);
    } else {
        let w = start.0;
        let rest = answers.skip(1);
        let after = rules::subscribe_answered(w, p, answers[0]);
        let granted = answers[0] matches Some(a) && a.ret != 0x80;
        let q = SubscribeProgressView {
            next: p.next + 1,
            suback: subscribe::SubackView {
                response: p.suback.response.push(grant(answers[0], topics[n].1)),
                ..p.suback
            },
            retained: if granted {
                p.retained + answers[0].unwrap().retained_messages
            } else {
                p.retained
            },
            router_error: p.router_error || answers[0] is None,
            ..p
        };
        assert(after == rules::subscribe_next(w, q));
        lemma_subscribe(w, q, rest);
        let end = told(start, answers);
        let later = Seq::new(rest.len(), |i: int| (id, topics[n + 1 + i].0, topics[n + 1 + i].1));
        assert(asked(after, rest) =~= later);
        assert(asked(start, answers) =~= seq![(id, topics[n].0, topics[n].1)] + later);
        assert(asked(start, answers) =~= requests);
        let later_codes = Seq::new(rest.len(), |i: int| grant(rest[i], topics[n + 1 + i].1));
        assert(q.suback.response + later_codes =~= p.suback.response + codes);
        assert(q.retained + handed_out(rest) =~= p.retained + handed_out(answers));
        let none = None::<SubscribeResponseView>;
        assert(answers.contains(none) == (answers[0] is None || rest.contains(none))) by {
            if answers.contains(none) && !(answers[0] is None) {
                let i = choose|i: int| 0 <= i < answers.len() && answers[i] == none;
                assert(rest[i - 1] == none);
            }
            if rest.contains(none) {
                let i = choose|i: int| 0 <= i < rest.len() && rest[i] == none;
                assert(answers[i + 1] == none);
            }
        }
        laws::law_filters_remembered(v.subscriptions, topics[n].0, seq![]);
        assert forall|name: Seq<char>| #[trigger] end.0.subscriptions.contains(name) implies (
        v.subscriptions.contains(name) || exists|i: int|
            n <= i < topics.len() && (#[trigger] topics[i]).0 == name) by {
            if w.subscriptions.contains(name) && !v.subscriptions.contains(name) {
                let j = choose|j: int|
                    0 <= j < w.subscriptions.len() && w.subscriptions[j] == name;
                if j < v.subscriptions.len() {
                    assert(v.subscriptions[j] == name);
                }
                assert(topics[n].0 == name);
            }
        }
        assert forall|name: Seq<char>|
            v.subscriptions.contains(name) || (exists|i: int|
                n <= i < topics.len() && (#[trigger] topics[i]).0 == name) implies #[trigger] end.0.subscriptions.contains(
        name) by {
            if v.subscriptions.contains(name) {
                assert(names::with_name(v.subscriptions, topics[n].0).contains(name));
            } else {
                let i = choose|i: int| n <= i < topics.len() && (#[trigger] topics[i]).0 == name;
                assert(i > n ==> topics[i].0 == name);
            }
        }
    }
}

/// The retained messages go out in their order, and nothing else.
proof fn lemma_retained(
    v: SessionView,
    retained: Seq<publish::PublishView>,
    next: nat,
    router_error: bool,
)
    requires
        v.connected,
        next <= retained.len(),
    ensures
        ({
            let start = rules::send_retained(v, retained, next, router_error);
            let steps = (retained.len() - next) as nat;
            &&& laws::effects(start, steps) == retained.skip(next as int).map_values(
                |m: publish::PublishView| sent(m),
            )
            &&& laws::granted(start, steps) == (
                v,
                StepView::Done(
                    if router_error {
                        Err(SessionErrorView::Router)
                    } else {
                        Ok(())
                    },
                ),
            )
        }),
    decreases retained.len() - next,
{
    let start = rules::send_retained(v, retained, next, router_error);
    let steps = (retained.len() - next) as nat;
    let f = |m: publish::PublishView| sent(m);
    if next < retained.len() {
        lemma_retained(v, retained, next + 1, router_error);
        assert(retained.skip(next as int).map_values(f) =~= seq![sent(retained[next as int])]
            + retained.skip(next as int + 1).map_values(f));
    } else {
        assert(retained.skip(next as int).map_values(f) =~= seq![]);
    }
}

/// A request for subscriptions is put to the router filter by filter: one request for each
/// filter, in their order, with the topic and the quality of service of that filter.
pub proof fn law_filters_are_asked_for(
    v: SessionView,
    m: subscribe::SubscribeView,
    answers: Seq<Option<SubscribeResponseView>>,
)
    requires
        answers.len() == m.topics.len(),
    ensures
        ({
            let start = rules::handled(
                v,
                SessionEventView::Client(codec::MessageView::Subscribe(m)),
            );
            let requests = asked(start, answers);
            &&& requests.len() == m.topics.len()
            &&& forall|i: int|
                0 <= i < m.topics.len() ==> {
                    let (session, topic, qos) = #[trigger] requests[i];
                    &&& topic == m.topics[i].0
                    &&& qos == m.topics[i].1
                    &&& session.session == v.id
                    &&& session.internal_id == v.internal_id
                    &&& session.session_generation == v.generation
                }
        }),
{
    let p = rules::subscribe(v, m);
    let progress = SubscribeProgressView {
        message: m,
        next: 0,
        suback: subscribe::SubackView { identifier: m.identifier, response: seq![] },
        retained: seq![],
        router_error: false,
    };
    assert(p == rules::subscribe_next(v, progress));
    lemma_subscribe(v, progress, answers);
}

/// Once the router has answered for every filter, a client that is there gets one SUBACK
/// under the identifier of its request, with a code for each filter in order, and then
/// the messages that were handed out, in their order. The filters are remembered, and
/// nothing else about the session changes. Only a router that did not answer is a fault.
pub proof fn law_subscription_answered(
    v: SessionView,
    m: subscribe::SubscribeView,
    answers: Seq<Option<SubscribeResponseView>>,
)
    requires
        answers.len() == m.topics.len(),
    ensures
        ({
            let end = told(
                rules::handled(v, SessionEventView::Client(codec::MessageView::Subscribe(m))),
                answers,
            );
            let messages = handed_out(answers);
            let suback = subscribe::SubackView {
                identifier: m.identifier,
                response: Seq::new(
                    m.topics.len(),
                    |i: int| grant(answers[i], m.topics[i].1),
                ),
            };
            let (w, step) = laws::granted(end, messages.len() + 1);
            &&& step == StepView::Done(router_outcome(answers))
            &&& laws::effects(end, messages.len() + 1) == if v.connected {
                seq![EffectView::SendClient(codec::MessageView::SubAck(suback))]
                    + messages.map_values(|m: publish::PublishView| sent(m))
            } else {
                seq![]
            }
            &&& w == SessionView { subscriptions: w.subscriptions, ..v }
            &&& forall|name: Seq<char>| #[trigger]
                w.subscriptions.contains(name) <==> v.subscriptions.contains(name) || exists|
                    i: int,
                |
                    0 <= i < m.topics.len() && (#[trigger] m.topics[i]).0 == name
        }),
{
    let start = rules::handled(v, SessionEventView::Client(codec::MessageView::Subscribe(m)));
    let end = told(start, answers);
    let messages = handed_out(answers);
    let none: Seq<u8> = seq![];
    let no_messages: Seq<publish::PublishView> = seq![];
    let progress = SubscribeProgressView {
        message: m,
        next: 0,
        suback: subscribe::SubackView { identifier: m.identifier, response: none },
        retained: no_messages,
        router_error: false,
    };
    assert(start == rules::subscribe_next(v, progress));
    lemma_subscribe(v, progress, answers);
    let codes = Seq::new(answers.len(), |i: int| grant(answers[i], m.topics[0 + i].1));
    let plain = Seq::new(m.topics.len(), |i: int| grant(answers[i], m.topics[i].1));
    assert(none + codes =~= plain);
    assert(no_messages + messages =~= messages);
    if v.connected {
        let after = rules::send_retained(
            end.0,
            messages,
            0,
            answers.contains(None::<SubscribeResponseView>),
        );
        lemma_retained(
            end.0,
            messages,
            0,
            answers.contains(None::<SubscribeResponseView>),
        );
        assert(messages.skip(0) =~= messages);
        assert(laws::granted(end, messages.len() + 1) == laws::granted(after, messages.len()));
    }
}

/// A session under the name, the key and the generation that the router knows it by.
pub open spec fn known_as(v: SessionView) -> SessionIdView {
    SessionIdView {
        session: v.id,
        internal_id: v.internal_id,
        session_generation: v.generation,
    }
}

/// One more, from the greatest number to zero.
pub open spec fn counted(n: u64) -> u64 {
    if n == u64::MAX {
        0
    } else {
        (n + 1) as u64
    }
}

/// Of the packets only messages and PUBREC are queued, each under its own identifier.
pub proof fn law_queued_identifiers(m: codec::MessageView)
    ensures
        rules::queued_mid(m) == (match m {
            codec::MessageView::Publish(p) => Some(p.identifier),
            codec::MessageView::PubRec(mid) => Some(mid),
            _ => None,
        }),
{
}

/// A message of QoS 0 is sent to a client that is there at once, with the duplicate flag
/// cleared and otherwise as it is, whatever is queued; nothing is stored or queued, and a
/// client that is away does not get it.
pub proof fn law_unacknowledged_delivery(
    v: SessionView,
    session: SessionIdView,
    m: publish::PublishView,
)
    requires
        session.session_generation == v.generation,
        m.qos != 1,
        m.qos != 2,
    ensures
        ({
            let message = codec::MessageView::Publish(m);
            let start = rules::handled(v, SessionEventView::Internal { session, message });
            &&& laws::effects(start, 1) == if v.connected {
                seq![sent(publish::PublishView { dup: false, ..m })]
            } else {
                seq![]
            }
            &&& laws::granted(start, 1) == (
                SessionView { publish_sent: counted(v.publish_sent), ..v },
                StepView::Done(Ok(())),
            )
        }),
{
    reveal_with_fuel(laws::effects, 2);
    reveal_with_fuel(laws::granted, 2);
    let message = codec::MessageView::Publish(m);
    let start = rules::handled(v, SessionEventView::Internal { session, message });
    assert(laws::effects(start, 1) =~= if v.connected {
        seq![sent(publish::PublishView { dup: false, ..m })]
    } else {
        seq![]
    });
}

/// A message of QoS 1 or 2 gets the next identifier, which is stored first; then it is
/// stored and queued under that identifier, and a client that is there gets it and it is
/// marked as sent before. An identifier that is still in use is a fault.
pub proof fn law_acknowledged_delivery(
    v: SessionView,
    session: SessionIdView,
    m: publish::PublishView,
)
    requires
        laws::session_valid(v),
        session.session_generation == v.generation,
        m.qos == 1 || m.qos == 2,
        v.next_message_id < u16::MAX,
    ensures
        ({
            let message = codec::MessageView::Publish(m);
            let start = rules::handled(v, SessionEventView::Internal { session, message });
            let mid = v.next_message_id;
            let kept = publish::PublishView { identifier: mid, dup: false, ..m };
            let (w, step) = laws::granted(start, 4);
            let next = EffectView::Persist(
                PersistView::UpdateMid {
                    session_id: v.internal_id,
                    next_message_id: (mid + 1) as u16,
                },
            );
            let store = EffectView::Persist(
                PersistView::OutgoingStore {
                    session_id: v.internal_id,
                    mid,
                    message: codec::MessageView::Publish(kept),
                },
            );
            let mark = EffectView::Persist(
                PersistView::OutgoingUpdateDup { session_id: v.internal_id, mid, dup: true },
            );
            let started = SessionView {
                publish_sent: counted(v.publish_sent),
                next_message_id: (mid + 1) as u16,
                ..v
            };
            if v.qos_outgoing.contains(mid) {
                &&& laws::effects(start, 4) == seq![next]
                &&& step == StepView::Done(
                    Err(SessionErrorView::Persist("QoS outgoing mid duplicate found"@)),
                )
                &&& w == started
            } else {
                &&& laws::effects(start, 4) == if v.connected {
                    seq![next, store, sent(kept), mark]
                } else {
                    seq![next, store]
                }
                &&& step == StepView::Done(Ok(()))
                &&& w == SessionView {
                    qos_outgoing: v.qos_outgoing.insert(mid),
                    qos_outgoing_messages: v.qos_outgoing_messages.push(
                        codec::MessageView::Publish(
                            publish::PublishView { dup: v.connected, ..kept },
                        ),
                    ),
                    ..started
                }
            }
        }),
{
    reveal_with_fuel(laws::effects, 5);
    reveal_with_fuel(laws::granted, 5);
    let message = codec::MessageView::Publish(m);
    let start = rules::handled(v, SessionEventView::Internal { session, message });
    let mid = v.next_message_id;
    let kept = publish::PublishView { identifier: mid, dup: false, ..m };
    assert(start == rules::internal_publish(v, m));
    let next = EffectView::Persist(
        PersistView::UpdateMid { session_id: v.internal_id, next_message_id: (mid + 1) as u16 },
    );
    let store = EffectView::Persist(
        PersistView::OutgoingStore {
            session_id: v.internal_id,
            mid,
            message: codec::MessageView::Publish(kept),
        },
    );
    if v.qos_outgoing.contains(mid) {
        assert(laws::effects(start, 4) =~= seq![next]);
    } else if v.connected {
        laws::law_stored_before_sent(v, m);
        let w = laws::granted(start, 4).0;
        assert(w =~= SessionView {
            publish_sent: counted(v.publish_sent),
            next_message_id: (mid + 1) as u16,
            qos_outgoing: w.qos_outgoing,
            qos_outgoing_messages: w.qos_outgoing_messages,
            ..v
        });
    } else {
        assert(laws::effects(start, 4) =~= seq![next, store]);
    }
}

/// A packet of the router that is no message changes nothing.
pub proof fn law_router_sends_messages(
    v: SessionView,
    session: SessionIdView,
    message: codec::MessageView,
)
    requires
        !(message is Publish),
    ensures
        rules::handled(v, SessionEventView::Internal { session, message }) == (
            v,
            StepView::Done(Ok(())),
        ),
{
}

/// A message of the client goes to the router once, with the duplicate flag cleared and
/// otherwise as it is. QoS 1 is answered with PUBACK, QoS 2 is noted and answered with
/// PUBREC, each under the identifier of the message; one of QoS 2 that was noted before
/// is only answered again. An answer that no client is there for is left out, and is a
/// fault only where it is the whole of the exchange.
pub proof fn law_publication(v: SessionView, m: publish::PublishView)
    ensures
        ({
            let start = rules::handled(
                v,
                SessionEventView::Client(codec::MessageView::Publish(m)),
            );
            let w = SessionView { publish_received: counted(v.publish_received), ..v };
            let route = EffectView::RouterPublish {
                session: known_as(v),
                message: publish::PublishView { dup: false, ..m },
            };
            let puback = EffectView::SendClient(codec::MessageView::PubAck(m.identifier));
            let pubrec = EffectView::SendClient(codec::MessageView::PubRec(m.identifier));
            let note = EffectView::Persist(
                PersistView::IncomingStore { session_id: v.internal_id, mid: m.identifier },
            );
            let done: Result<(), SessionErrorView> = Ok(());
            if m.qos == 2 && v.qos_incoming.contains(m.identifier) {
                &&& laws::effects(start, 3) == if v.connected {
                    seq![pubrec]
                } else {
                    seq![]
                }
                &&& laws::granted(start, 3) == (
                    w,
                    StepView::Done(
                        if v.connected {
                            done
                        } else {
                            Err(SessionErrorView::Client)
                        },
                    ),
                )
            } else if m.qos == 2 {
                &&& laws::effects(start, 3) == if v.connected {
                    seq![route, note, pubrec]
                } else {
                    seq![route, note]
                }
                &&& laws::granted(start, 3) == (
                    SessionView { qos_incoming: v.qos_incoming.insert(m.identifier), ..w },
                    StepView::Done(done),
                )
            } else if m.qos == 1 {
                &&& laws::effects(start, 3) == if v.connected {
                    seq![route, puback]
                } else {
                    seq![route]
                }
                &&& laws::granted(start, 3) == (w, StepView::Done(done))
            } else {
                &&& laws::effects(start, 3) == seq![route]
                &&& laws::granted(start, 3) == (w, StepView::Done(done))
            }
        }),
{
    reveal_with_fuel(laws::effects, 4);
    reveal_with_fuel(laws::granted, 4);
}

/// PUBREL frees the identifier, in the store first, and is answered with PUBCOMP.
pub proof fn law_release(v: SessionView, mid: u16)
    ensures
        ({
            let start = rules::handled(v, SessionEventView::Client(codec::MessageView::PubRel(mid)));
            let free = EffectView::Persist(
                PersistView::IncomingDelete { session_id: v.internal_id, mid },
            );
            let done: Result<(), SessionErrorView> = Ok(());
            &&& laws::effects(start, 2) == if v.connected {
                seq![free, EffectView::SendClient(codec::MessageView::PubComp(mid))]
            } else {
                seq![free]
            }
            &&& laws::granted(start, 2) == (
                SessionView { qos_incoming: v.qos_incoming.remove(mid), ..v },
                StepView::Done(
                    if v.connected {
                        done
                    } else {
                        Err(SessionErrorView::Client)
                    },
                ),
            )
        }),
{
    reveal_with_fuel(laws::effects, 3);
    reveal_with_fuel(laws::granted, 3);
}

/// A queued packet is ended by PUBACK or PUBCOMP with its identifier, in the store first;
/// the rest of the queue stays in its order.
pub proof fn law_acknowledgement(v: SessionView, i: int, m: codec::MessageView)
    requires
        laws::session_valid(v),
        0 <= i < v.qos_outgoing_messages.len(),
        m is PubAck || m is PubComp,
    ensures
        ({
            let mid = match m {
                codec::MessageView::PubAck(mid) => mid,
                _ => m->PubComp_0,
            };
            let queued = match v.qos_outgoing_messages[i] {
                codec::MessageView::Publish(p) => p.identifier == mid,
                codec::MessageView::PubRec(noted) => noted == mid,
                _ => false,
            };
            let start = rules::handled(v, SessionEventView::Client(m));
            queued ==> {
                &&& laws::effects(start, 1) == seq![
                    EffectView::Persist(
                        PersistView::OutgoingDelete { session_id: v.internal_id, mid },
                    ),
                ]
                &&& laws::granted(start, 1) == (
                    SessionView {
                        qos_outgoing: v.qos_outgoing.remove(mid),
                        qos_outgoing_messages: v.qos_outgoing_messages.remove(i),
                        ..v
                    },
                    StepView::Done(Ok(())),
                )
            }
        }),
{
    reveal_with_fuel(laws::effects, 2);
    reveal_with_fuel(laws::granted, 2);
    laws::lemma_position_of(v, i);
}

/// PUBACK and PUBCOMP for an identifier that is not in use change nothing.
pub proof fn law_strange_acknowledgement(v: SessionView, mid: u16)
    requires
        !v.qos_outgoing.contains(mid),
    ensures
        rules::handled(v, SessionEventView::Client(codec::MessageView::PubAck(mid))) == (
            v,
            StepView::Done(Ok(())),
        ),
        rules::handled(v, SessionEventView::Client(codec::MessageView::PubComp(mid))) == (
            v,
            StepView::Done(Ok(())),
        ),
{
}

/// How PUBREC ends: with PUBREL for a client that is there.
pub open spec fn released(v: SessionView, mid: u16) -> (Seq<EffectView>, StepView) {
    if v.connected {
        (
            seq![EffectView::SendClient(codec::MessageView::PubRel(mid))],
            StepView::Done(Ok(())),
        )
    } else {
        (seq![], StepView::Done(Err(SessionErrorView::Client)))
    }
}

/// PUBREC for a queued message puts the note that it was received in its place, at the end
/// of the queue, in the store first; a note that is there already is kept. Either way
/// PUBREL follows.
pub proof fn law_received(v: SessionView, i: int, mid: u16)
    requires
        laws::session_valid(v),
        0 <= i < v.qos_outgoing_messages.len(),
    ensures
        ({
            let start = rules::handled(v, SessionEventView::Client(codec::MessageView::PubRec(mid)));
            let (last, step) = released(v, mid);
            let is_message = v.qos_outgoing_messages[i] matches codec::MessageView::Publish(p)
                && p.identifier == mid;
            &&& is_message ==> {
                &&& laws::effects(start, 3) == seq![
                    EffectView::Persist(
                        PersistView::OutgoingDelete { session_id: v.internal_id, mid },
                    ),
                    EffectView::Persist(
                        PersistView::OutgoingStore {
                            session_id: v.internal_id,
                            mid,
                            message: codec::MessageView::PubRec(mid),
                        },
                    ),
                ] + last
                &&& laws::granted(start, 3) == (
                    SessionView {
                        qos_outgoing_messages: v.qos_outgoing_messages.remove(i).push(
                            codec::MessageView::PubRec(mid),
                        ),
                        ..v
                    },
                    step,
                )
            }
            &&& v.qos_outgoing_messages[i] == codec::MessageView::PubRec(mid) ==> {
                &&& laws::effects(start, 3) == last
                &&& laws::granted(start, 3) == (v, step)
            }
        }),
{
    reveal_with_fuel(laws::effects, 4);
    reveal_with_fuel(laws::granted, 4);
    laws::lemma_position_of(v, i);
    let start = rules::handled(v, SessionEventView::Client(codec::MessageView::PubRec(mid)));
    match v.qos_outgoing_messages[i] {
        codec::MessageView::Publish(p) => {
            if p.identifier == mid {
                assert(v.qos_outgoing.insert(mid) =~= v.qos_outgoing);
                assert(laws::effects(start, 3) =~= seq![
                    EffectView::Persist(
                        PersistView::OutgoingDelete { session_id: v.internal_id, mid },
                    ),
                    EffectView::Persist(
                        PersistView::OutgoingStore {
                            session_id: v.internal_id,
                            mid,
                            message: codec::MessageView::PubRec(mid),
                        },
                    ),
                ] + released(v, mid).0);
            }
        },
        _ => {},
    }
}

/// PUBREC under an identifier that is not in use is noted too, and PUBREL follows.
pub proof fn law_strange_receipt(v: SessionView, mid: u16)
    requires
        !v.qos_outgoing.contains(mid),
    ensures
        ({
            let start = rules::handled(v, SessionEventView::Client(codec::MessageView::PubRec(mid)));
            let (last, step) = released(v, mid);
            &&& laws::effects(start, 2) == seq![
                EffectView::Persist(
                    PersistView::OutgoingStore {
                        session_id: v.internal_id,
                        mid,
                        message: codec::MessageView::PubRec(mid),
                    },
                ),
            ] + last
            &&& laws::granted(start, 2) == (
                SessionView {
                    qos_outgoing: v.qos_outgoing.insert(mid),
                    qos_outgoing_messages: v.qos_outgoing_messages.push(
                        codec::MessageView::PubRec(mid),
                    ),
                    ..v
                },
                step,
            )
        }),
{
    reveal_with_fuel(laws::effects, 3);
    reveal_with_fuel(laws::granted, 3);
}

/// A request to end subscriptions goes to the router with all its filters, in their order,
/// and is answered with UNSUBACK under its identifier. The session forgets those filters
/// and keeps the others.
pub proof fn law_unsubscription(v: SessionView, m: subscribe::UnsubscribeView)
    ensures
        ({
            let start = rules::handled(
                v,
                SessionEventView::Client(codec::MessageView::Unsubscribe(m)),
            );
            let end = EffectView::RouterUnsubscribe { session: known_as(v), topics: m.topics };
            let done: Result<(), SessionErrorView> = Ok(());
            let (w, step) = laws::granted(start, 2);
            &&& laws::effects(start, 2) == if v.connected {
                seq![end, EffectView::SendClient(codec::MessageView::UnsubAck(m.identifier))]
            } else {
                seq![end]
            }
            &&& step == StepView::Done(
                if v.connected {
                    done
                } else {
                    Err(SessionErrorView::Client)
                },
            )
            &&& w == SessionView { subscriptions: w.subscriptions, ..v }
            &&& forall|name: Seq<char>| #[trigger]
                w.subscriptions.contains(name) <==> v.subscriptions.contains(name)
                    && !m.topics.contains(name)
        }),
{
    reveal_with_fuel(laws::effects, 3);
    reveal_with_fuel(laws::granted, 3);
    let start = rules::handled(v, SessionEventView::Client(codec::MessageView::Unsubscribe(m)));
    let w = laws::granted(start, 2).0;
    assert forall|name: Seq<char>| #[trigger]
        w.subscriptions.contains(name) <==> v.subscriptions.contains(name)
            && !m.topics.contains(name) by {
        laws::law_filters_remembered(v.subscriptions, name, m.topics);
    }
}

/// Whatever else a client sends changes nothing in its session.
pub proof fn law_other_packets(v: SessionView, m: codec::MessageView)
    requires
        !(m is Publish || m is PubAck || m is PubRec || m is PubRel || m is PubComp),
        !(m is Subscribe || m is Unsubscribe),
    ensures
        rules::handled(v, SessionEventView::Client(m)) == (v, StepView::Done(Ok(()))),
{
}

/// The session when its client is gone.
pub open spec fn alone(v: SessionView) -> SessionView {
    SessionView { connected: false, ..v }
}

/// Where the store fails, a message is neither sent nor forgotten: the event ends with the
/// fault of the store and the session is as it was.
pub proof fn law_store_fails(v: SessionView, pending: PendingView, e: SessionErrorView)
    requires
        pending is MidUpdated || pending is PublishStored || pending is DupStored
            || pending is OutgoingDeleted || pending is IncomingDeleted || pending is PubrecDeleted
            || pending is PubrecStored || pending is IncomingStored || pending is QueueDupStored,
    ensures
        rules::answered(v, pending, Err(e)) == (v, StepView::Done(Err(e))),
{
}

/// Where the router fails, the event ends with that and the client gets no answer.
pub proof fn law_router_fails(v: SessionView, pending: PendingView, e: SessionErrorView)
    requires
        pending is Routed || pending is Unsubscribed,
    ensures
        rules::answered(v, pending, Err(e)) == (
            v,
            StepView::Done(Err(SessionErrorView::Router)),
        ),
{
}

/// Where a packet does not reach the client, the client is gone and the session keeps all
/// else. That is a fault, but for an answer that the client will ask for again.
pub proof fn law_client_fails(v: SessionView, pending: PendingView, e: SessionErrorView)
    requires
        pending is PublishSent || pending is LastSent || pending is QueueSent || pending is AckSent
            || pending is SubackSent || pending is RetainedSent,
    ensures
        ({
            let (w, step) = rules::answered(v, pending, Err(e));
            let lost: Result<(), SessionErrorView> = Err(SessionErrorView::Client);
            let unanswered: Result<(), SessionErrorView> = Err(SessionErrorView::Router);
            &&& w == alone(v)
            &&& step == StepView::Done(
                match pending {
                    PendingView::AckSent => Ok(()),
                    PendingView::SubackSent { router_error, .. } => if router_error {
                        unanswered
                    } else {
                        Ok(())
                    },
                    PendingView::RetainedSent { router_error, .. } => if router_error {
                        unanswered
                    } else {
                        lost
                    },
                    _ => lost,
                },
            )
        }),
{
}

/// A client whose clean session cannot be had is told that the service is unavailable, and
/// the connection comes to what went wrong.
pub proof fn law_no_clean_session(v: SessionView, pending: PendingView, e: SessionErrorView)
    requires
        laws::session_valid(v),
        pending is IncomingCleared || pending is OutgoingCleared || pending is AllUnsubscribed
            || pending is GenerationStored,
    ensures
        ({
            let start = rules::answered(v, pending, Err(e));
            let steps = (1 + 2 * v.qos_outgoing_messages.len()) as nat;
            &&& laws::effects(start, steps).len() > 0
            &&& laws::effects(start, steps)[0] == EffectView::SwitchClient(
                codec::MessageView::ConnAck(
                    connect::ConnackView {
                        session_present: !v.clean,
                        return_code: ReturnCode::ServerUnavailable,
                    },
                ),
            )
            &&& laws::granted(start, steps).1 == StepView::Done(
                if pending is AllUnsubscribed {
                    Err(SessionErrorView::Router)
                } else {
                    Err(e)
                },
            )
        }),
{
    let fault: Result<(), SessionErrorView> = if pending is AllUnsubscribed {
        Err(SessionErrorView::Router)
    } else {
        Err(e)
    };
    let w = SessionView { clean: false, connected: true, ..v };
    laws::law_queue_is_sent_again(w, QueueView { next: 0, outcome: fault });
    let start = rules::answered(v, pending, Err(e));
    let steps = (1 + 2 * v.qos_outgoing_messages.len()) as nat;
    assert(laws::granted(start, steps) == laws::granted(
        rules::send_queue(w, QueueView { next: 0, outcome: fault }),
        (steps - 1) as nat,
    ));
}

/// A client that is lost while it is greeted is a fault, and the queue is kept for the
/// next one.
pub proof fn law_lost_while_greeted(
    v: SessionView,
    clean_result: Result<(), SessionErrorView>,
    e: SessionErrorView,
)
    requires
        laws::session_valid(v),
    ensures
        ({
            let (w, step) = rules::answered(v, PendingView::ConnackSent { clean_result }, Err(e));
            &&& w == alone(v)
            &&& step == StepView::Done(
                if v.qos_outgoing_messages.len() > 0 || clean_result is Ok {
                    Err(SessionErrorView::Client)
                } else {
                    clean_result
                },
            )
        }),
{
    if v.qos_outgoing_messages.len() > 0 {
        laws::lemma_position_of(v, 0);
    }
}

/// A queued packet once it was sent: a message of QoS 1 or 2 is marked.
pub open spec fn marked(m: codec::MessageView) -> codec::MessageView {
    match m {
        codec::MessageView::Publish(p) => if p.qos == 1 || p.qos == 2 {
            codec::MessageView::Publish(publish::PublishView { dup: true, ..p })
        } else {
            m
        },
        _ => m,
    }
}

/// What sending a queued packet takes: the packet, or PUBREL for a note, and for a message
/// that is not marked yet the mark in the store.
pub open spec fn resent(m: codec::MessageView, session_id: i32) -> Seq<EffectView> {
    match m {
        codec::MessageView::Publish(p) => if (p.qos == 1 || p.qos == 2) && !p.dup {
            seq![
                EffectView::SendClient(m),
                EffectView::Persist(
                    PersistView::OutgoingUpdateDup { session_id, mid: p.identifier, dup: true },
                ),
            ]
        } else {
            seq![EffectView::SendClient(m)]
        },
        codec::MessageView::PubRec(mid) => seq![
            EffectView::SendClient(codec::MessageView::PubRel(mid)),
        ],
        _ => seq![],
    }
}

/// What sending a whole queue takes.
pub open spec fn all_resent(queue: Seq<codec::MessageView>, session_id: i32) -> Seq<EffectView>
    decreases queue.len(),
{
    if queue.len() == 0 {
        seq![]
    } else {
        resent(queue[0], session_id) + all_resent(queue.skip(1), session_id)
    }
}

/// A queue that was sent from some place on.
pub open spec fn marked_from(queue: Seq<codec::MessageView>, n: int) -> Seq<codec::MessageView> {
    Seq::new(
        queue.len(),
        |i: int|
            if i < n {
                queue[i]
            } else {
                marked(queue[i])
            },
    )
}

/// One effect, and those after it.
proof fn lemma_step(next: Next, effect: EffectView, pending: PendingView, steps: nat)
    requires
        steps > 0,
        next.1 == StepView::Perform(effect, pending),
    ensures
        ({
            let after = rules::answered(next.0, pending, Ok(()));
            &&& laws::granted(next, steps) == laws::granted(after, (steps - 1) as nat)
            &&& laws::effects(next, steps) == seq![effect] + laws::effects(
                after,
                (steps - 1) as nat,
            )
        }),
{
}

/// From some place on, the queue is sent packet by packet, each message of QoS 1 or 2 is
/// marked as sent before, in the store too, and the packets before that place stay as
/// they are.
#[verifier::spinoff_prover]
#[verifier::rlimit(40)]
pub proof fn law_queue_is_marked(v: SessionView, queue: QueueView)
    requires
        laws::session_valid(v),
        v.connected,
        queue.next <= v.qos_outgoing_messages.len(),
    ensures
        ({
            let start = rules::send_queue(v, queue);
            let all = v.qos_outgoing_messages;
            let steps = (2 * (all.len() - queue.next)) as nat;
            let (w, step) = laws::granted(start, steps);
            &&& step == StepView::Done(queue.outcome)
            &&& laws::effects(start, steps) == all_resent(
                all.skip(queue.next as int),
                v.internal_id,
            )
            &&& w == SessionView {
                qos_outgoing_messages: marked_from(all, queue.next as int),
                ..v
            }
        }),
    decreases v.qos_outgoing_messages.len() - queue.next,
{
    let all = v.qos_outgoing_messages;
    let n = queue.next as int;
    let steps = (2 * (all.len() - n)) as nat;
    let start = rules::send_queue(v, queue);
    let goal = marked_from(all, n);
    if n == all.len() {
        assert(goal =~= all);
        assert(all.skip(n) =~= seq![]);
    } else {
        laws::lemma_position_of(v, n);
        let rest = QueueView { next: queue.next + 1, ..queue };
        let less = (steps - 2) as nat;
        assert(all.skip(n)[0] == all[n]);
        assert(all.skip(n).skip(1) =~= all.skip(n + 1));
        let mark = match all[n] {
            codec::MessageView::Publish(p) => if (p.qos == 1 || p.qos == 2) && !p.dup {
                Some(p.identifier)
            } else {
                None
            },
            _ => None,
        };
        let pending = PendingView::QueueSent { queue, mark };
        let send = resent(all[n], v.internal_id)[0];
        assert(start == (v, StepView::Perform(send, pending)));
        lemma_step(start, send, pending, steps);
        match mark {
            Some(mid) => {
                let w = rules::with_dup(v, mid);
                assert(w.qos_outgoing_messages =~= all.update(n, marked(all[n])));
                laws::lemma_marked(v, mid);
                law_queue_is_marked(w, rest);
                assert(marked_from(w.qos_outgoing_messages, n + 1) =~= goal);
                assert(w.qos_outgoing_messages.skip(n + 1) =~= all.skip(n + 1));
                let request = resent(all[n], v.internal_id)[1];
                let stored = PendingView::QueueDupStored { queue, mid };
                let middle = (v, StepView::Perform(request, stored));
                let after = rules::send_queue(w, rest);
                assert(rules::answered(v, pending, Ok(())) == middle);
                assert(rules::answered(v, stored, Ok(())) == after);
                lemma_step(middle, request, stored, (steps - 1) as nat);
                assert(laws::effects(start, steps) =~= resent(all[n], v.internal_id)
                    + laws::effects(after, less));
            },
            None => {
                law_queue_is_marked(v, rest);
                assert(marked(all[n]) == all[n]);
                assert(marked_from(all, n + 1) =~= goal);
                let after = rules::send_queue(v, rest);
                assert(rules::answered(v, pending, Ok(())) == after);
                laws::lemma_more_steps(after, less);
                assert(laws::effects(start, steps) =~= resent(all[n], v.internal_id)
                    + laws::effects(after, less));
            },
        }
    }
}

/// Names that are added are in the list, those that were there stay, and no other is in it.
pub proof fn law_names_added(list: Seq<Seq<char>>, added: Seq<Seq<char>>, name: Seq<char>)
    ensures
        names::with_names(list, added).contains(name) <==> list.contains(name) || added.contains(
            name,
        ),
    decreases added.len(),
{
    if added.len() > 0 {
        let rest = added.drop_last();
        let last = added.last();
        let before = names::with_names(list, rest);
        law_names_added(list, rest, name);
        laws::law_filters_remembered(before, last, seq![]);
        assert(added.contains(name) <==> rest.contains(name) || name == last) by {
            if added.contains(name) && name != last {
                let i = choose|i: int| 0 <= i < added.len() && added[i] == name;
                assert(rest[i] == name);
            }
            if rest.contains(name) {
                let i = choose|i: int| 0 <= i < rest.len() && rest[i] == name;
                assert(added[i] == name);
            }
            assert(added[added.len() - 1] == last);
        }
        let after = names::with_name(before, last);
        if before.contains(name) {
            assert(names::with_name(before, last).contains(name));
        }
        if after.contains(name) && !before.contains(name) {
            let i = choose|i: int| 0 <= i < after.len() && after[i] == name;
            if i < before.len() {
                assert(before[i] == name);
            }
        }
    }
}

/// A stored queue of messages and notes is taken whole, and the identifiers in use are
/// exactly theirs; one with any other packet is refused.
pub proof fn law_queue_loaded(queue: Seq<codec::MessageView>, mid: u16)
    ensures
        rules::queued_mids(queue).1 <==> exists|i: int|
            0 <= i < queue.len() && !((#[trigger] queue[i]) is Publish || queue[i] is PubRec),
        !rules::queued_mids(queue).1 ==> (rules::queued_mids(queue).0.contains(mid) <==> exists|
            i: int,
        |
            0 <= i < queue.len() && match #[trigger] queue[i] {
                codec::MessageView::Publish(p) => p.identifier == mid,
                codec::MessageView::PubRec(noted) => noted == mid,
                _ => false,
            }),
    decreases queue.len(),
{
    if queue.len() > 0 {
        let rest = queue.drop_last();
        law_queue_loaded(rest, mid);
        assert(queue[queue.len() - 1] == queue.last());
        assert forall|i: int| 0 <= i < rest.len() implies #[trigger] rest[i] == queue[i] by {}
        assert forall|i: int| 0 <= i < rest.len() implies #[trigger] queue[i] == rest[i] by {}
    }
}

/// A session that has just been made has no client, nothing to find again, no filters, no
/// queue, and begins with the identifier 1.
pub proof fn law_new_session(id: Seq<char>)
    ensures
        ({
            let v = rules::new_session(id);
            &&& v.id == id
            &&& !v.connected
            &&& v.clean
            &&& v.subscriptions.len() == 0
            &&& v.qos_outgoing_messages.len() == 0
            &&& v.qos_outgoing == Set::<u16>::empty()
            &&& v.qos_incoming == Set::<u16>::empty()
            &&& v.next_message_id == 1
            &&& v.generation == 0
            &&& v.publish_received == 0
            &&& v.publish_sent == 0
        }),
{
}

/// A session has room for every event but two: a message that needs an identifier where the
/// identifiers are used up, and a clean start where the generations are.
pub proof fn law_room(v: SessionView, event: SessionEventView)
    ensures
        !rules::has_room(v, event) <==> match event {
            SessionEventView::Internal { session, message } => session.session_generation
                == v.generation && v.next_message_id == u16::MAX && (message
                matches codec::MessageView::Publish(m) && (m.qos == 1 || m.qos == 2)),
            SessionEventView::NewClient(m) => m.clean_session && v.generation == i64::MAX,
            SessionEventView::Client(_) => false,
        },
{
}

/// No name is in a list twice, however often it is added.
pub proof fn law_names_once(list: Seq<Seq<char>>, name: Seq<char>)
    requires
        list.no_duplicates(),
    ensures
        names::with_name(list, name).no_duplicates(),
        list.contains(name) ==> names::with_name(list, name) == list,
        !list.contains(name) ==> names::with_name(list, name) == list.push(name),
{
}

} // verus!
