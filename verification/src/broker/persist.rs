//! What a broker finds in its persistent store when it starts.

use super::router::SessionId;
use super::router::SessionIdView;
use super::topic;
use super::topic::Topic;
use super::topics;
use super::topics::Subscriptions;
use super::topics::SubscriptionsView;
use crate::messages::publish;
use crate::messages::MQTTMessagePublish;
use vstd::prelude::*;

verus! {

/// A topic in the persistent store.
#[derive(Debug)]
pub struct PersistedTopic {
    pub topic_id: i32,
    pub topic_name: String,
    pub retained_message_id: Option<i32>,
}

/// A topic in the persistent store.
#[verifier::ext_equal]
pub struct PersistedTopicView {
    pub topic_id: i32,
    pub topic_name: Seq<char>,
    pub retained_message_id: Option<i32>,
}

impl View for PersistedTopic {
    type V = PersistedTopicView;

    open spec fn view(&self) -> PersistedTopicView {
        PersistedTopicView {
            topic_id: self.topic_id,
            topic_name: self.topic_name@,
            retained_message_id: self.retained_message_id,
        }
    }
}

/// The subscriptions of a stored topic by the name of the session; of two for one name
/// the later one counts.
pub open spec fn stored_clients(list: Seq<(SessionId, u8)>) -> Map<
    Seq<char>,
    (SessionIdView, u8),
>
    decreases list.len(),
{
    if list.len() == 0 {
        Map::empty()
    } else {
        stored_clients(list.drop_last()).insert(
            list.last().0@.session,
            (list.last().0@, list.last().1),
        )
    }
}

/// The level that a stored topic becomes.
pub open spec fn stored_node(
    topic_id: i32,
    message: Option<publish::PublishView>,
    subscriptions: Seq<(SessionId, u8)>,
) -> topic::NodeView {
    topic::NodeView {
        internal_id: Some(topic_id),
        clients: stored_clients(subscriptions),
        message,
    }
}

/// What is to be read next.
#[derive(Debug, PartialEq, Eq)]
pub enum LoadRequest {
    /// The retained message of a topic.
    Message { message_id: i32 },
    /// The subscriptions to a topic.
    Subscriptions { topic_id: i32 },
    /// Nothing: all topics are loaded.
    Finished,
}

/// How far the topics are loaded.
#[verifier::ext_equal]
pub struct LoaderView {
    /// The topics that are still to be loaded.
    pub topics: Seq<PersistedTopicView>,
    /// The retained message of the first of them, once it is read.
    pub message: Option<publish::PublishView>,
    pub subscription_count: i64,
    pub retained_count: i64,
}

impl LoaderView {
    /// What is to be read next.
    pub open spec fn wants(self) -> LoadRequest {
        if self.topics.len() == 0 {
            LoadRequest::Finished
        } else {
            match (self.topics[0].retained_message_id, self.message) {
                (Some(message_id), None) => LoadRequest::Message { message_id },
                _ => LoadRequest::Subscriptions { topic_id: self.topics[0].topic_id },
            }
        }
    }
}

/// How far the topics are loaded once the retained message of the first is there.
pub open spec fn message_taken(l: LoaderView, message: publish::PublishView) -> LoaderView {
    LoaderView { message: Some(message), retained_count: (l.retained_count + 1) as i64, ..l }
}

/// How far the topics are loaded once the subscriptions to the first are there.
pub open spec fn subscriptions_taken(l: LoaderView, count: nat) -> LoaderView {
    LoaderView {
        topics: l.topics.skip(1),
        message: None,
        subscription_count: (l.subscription_count + count) as i64,
        ..l
    }
}

/// Loads the topics of a broker one after the other.
pub struct Loader {
    topics: Vec<PersistedTopic>,
    next: usize,
    message: Option<MQTTMessagePublish>,
    subscription_count: i64,
    retained_count: i64,
}

impl View for Loader {
    type V = LoaderView;

    closed spec fn view(&self) -> LoaderView {
        LoaderView {
            topics: self.topics@.map_values(|t: PersistedTopic| t@).skip(self.next as int),
            message: topic::message_view(self.message),
            subscription_count: self.subscription_count,
            retained_count: self.retained_count,
        }
    }
}

impl Loader {
    /// The position is inside the list.
    pub closed spec fn well_formed(&self) -> bool {
        self.next <= self.topics@.len() && self.subscription_count >= 0 && self.retained_count >= 0
    }

    /// Nothing is loaded yet.
    pub fn new(topics: Vec<PersistedTopic>) -> (r: Loader)
        ensures
            r.well_formed(),
            r@ == (LoaderView {
                topics: topics@.map_values(|t: PersistedTopic| t@),
                message: None,
                subscription_count: 0,
                retained_count: 0,
            }),
    {
        let r = Loader {
            topics,
            next: 0,
            message: None,
            subscription_count: 0,
            retained_count: 0,
        };
        assert(r@.topics =~= topics@.map_values(|t: PersistedTopic| t@));
        r
    }

    /// What is to be read next.
    pub fn request(&self) -> (r: LoadRequest)
        requires
            self.well_formed(),
        ensures
            r == self@.wants(),
    {
        if self.next == self.topics.len() {
            return LoadRequest::Finished;
        }
        let t = &self.topics[self.next];
        match (t.retained_message_id, &self.message) {
            (Some(message_id), None) => LoadRequest::Message { message_id },
            _ => LoadRequest::Subscriptions { topic_id: t.topic_id },
        }
    }

    /// Takes the retained message that was asked for.
    pub fn message_loaded(&mut self, message: MQTTMessagePublish)
        requires
            old(self).well_formed(),
            old(self)@.wants() is Message,
            old(self)@.retained_count < i64::MAX,
        ensures
            final(self).well_formed(),
            final(self)@ == (LoaderView {
                message: Some(message@),
                retained_count: (old(self)@.retained_count + 1) as i64,
                ..old(self)@
            }),
            final(self)@ == message_taken(old(self)@, message@),
    {
        self.message = Some(message);
        self.retained_count = self.retained_count + 1;
    }

    /// Takes the subscriptions that were asked for and puts the topic into the tree.
    pub fn subscriptions_loaded(
        &mut self,
        broker: &mut Subscriptions,
        subscriptions: Vec<(SessionId, u8)>,
    )
        requires
            old(self).well_formed(),
            old(broker).well_formed(),
            old(self)@.wants() is Subscriptions,
            old(self)@.subscription_count + subscriptions@.len() <= i64::MAX,
        ensures
            final(self).well_formed(),
            final(broker).well_formed(),
            final(self)@ == (LoaderView {
                topics: old(self)@.topics.skip(1),
                message: None,
                subscription_count: (old(self)@.subscription_count + subscriptions@.len()) as i64,
                ..old(self)@
            }),
            final(self)@ == subscriptions_taken(old(self)@, subscriptions@.len()),
            final(broker)@ == topics::with_topic(
                old(broker)@,
                old(self)@.topics[0].topic_name,
                stored_node(
                    old(self)@.topics[0].topic_id,
                    old(self)@.message,
                    subscriptions@,
                ),
            ),
    {
        let ghost before = self@;
        assert(self.next < self.topics.len());
        let topic_id = self.topics[self.next].topic_id;
        let mut item = Topic::new(Some(topic_id));
        let message = self.message.take();
        item.set_message(message);
        let ghost list = subscriptions@;
        let ghost with_message = item.node();
        assert(list.take(0) =~= seq![]);
        let mut i: usize = 0;
        let n = subscriptions.len();
        while i < n
            invariant
                i <= n,
                n == list.len(),
                list == subscriptions@,
                item.well_formed(),
                item.node() == (topic::NodeView {
                    clients: stored_clients(list.take(i as int)),
                    ..with_message
                }),
            decreases n - i,
        {
            assert(list.take(i + 1).drop_last() =~= list.take(i as int));
            let _new = item.set_subscribed(subscriptions[i].0.clone(), subscriptions[i].1);
            i += 1;
        }
        assert(list.take(i as int) =~= list);
        self.subscription_count = self.subscription_count + n as i64;
        broker.insert_topic(&self.topics[self.next].topic_name, item);
        self.next = self.next + 1;
        assert(self@.topics =~= before.topics.skip(1));
    }

    /// Shows the numbers of subscriptions and retained messages that were loaded.
    pub fn finish(&self, broker: &mut Subscriptions)
        requires
            old(broker).well_formed(),
        ensures
            final(broker).well_formed(),
            final(broker)@ == (SubscriptionsView {
                subscriptions: self@.subscription_count,
                retained_messages: self@.retained_count,
                ..old(broker)@
            }),
    {
        broker.set_guages(self.subscription_count, self.retained_count);
    }
}

/// A topic with a retained message takes its message and then its subscriptions, one
/// without takes its subscriptions at once; then the next topic is at hand, with no message
/// taken for it. A message counts as one, and subscriptions as many as there are.
pub proof fn law_loading(l: LoaderView, message: publish::PublishView, count: nat)
    requires
        l.topics.len() > 0,
        l.message is None,
        0 <= l.retained_count < i64::MAX,
        0 <= l.subscription_count,
        l.subscription_count + count <= i64::MAX,
    ensures
        ({
            let t = l.topics[0];
            let ready = match t.retained_message_id {
                Some(_) => message_taken(l, message),
                None => l,
            };
            let next = subscriptions_taken(ready, count);
            &&& t.retained_message_id matches Some(id) ==> l.wants() == (LoadRequest::Message {
                message_id: id,
            }) && ready.message == Some(message)
            &&& ready.wants() == (LoadRequest::Subscriptions { topic_id: t.topic_id })
            &&& next.topics == l.topics.skip(1)
            &&& next.message is None
            &&& next.subscription_count == l.subscription_count + count
            &&& next.retained_count == l.retained_count + if t.retained_message_id is Some {
                1int
            } else {
                0int
            }
        }),
{
}

} // verus!
