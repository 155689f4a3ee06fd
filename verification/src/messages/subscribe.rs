//! SUBSCRIBE, SUBACK, UNSUBSCRIBE and UNSUBACK.

use super::error;
use super::error::Error;
use super::error::ErrorKind;
use super::length;
use super::length::encode_length;
use super::reader;
use super::reader::Reader;
use super::validation;
use super::validation::qos_valid;
use super::validation::topic_filter_valid;
use super::MQTTMessageType;
use super::ToBytes;
use crate::text::string_from_utf8;
use crate::text;
use crate::text::clone_strings;
use vstd::prelude::*;
use vstd::slice::slice_to_vec;
use vstd::utf8::*;

verus! {

/// A request to subscribe to topic filters, each at a QoS.
#[derive(PartialEq, Eq, Debug)]
pub struct MQTTMessageSubscribe {
    identifier: u16,
    topics: Vec<(String, u8)>,
}

/// The contents of a SUBSCRIBE packet.
#[verifier::ext_equal]
pub struct SubscribeView {
    pub identifier: u16,
    pub topics: Seq<(Seq<char>, u8)>,
}

/// The filters of a list and their QoS.
pub open spec fn filter_views(topics: Seq<(String, u8)>) -> Seq<(Seq<char>, u8)> {
    topics.map_values(|t: (String, u8)| (t.0@, t.1))
}

impl View for MQTTMessageSubscribe {
    type V = SubscribeView;

    closed spec fn view(&self) -> SubscribeView {
        SubscribeView { identifier: self.identifier, topics: filter_views(self.topics@) }
    }
}

impl Clone for MQTTMessageSubscribe {
    fn clone(&self) -> (r: Self)
        ensures
            r@ == self@,
    {
        let mut topics: Vec<(String, u8)> = Vec::new();
        for i in 0..self.topics.len()
            invariant
                filter_views(topics@) == filter_views(self.topics@).take(i as int),
        {
            let ghost before = filter_views(topics@);
            let topic = self.topics[i].0.clone();
            topics.push((topic, self.topics[i].1));
            assert(filter_views(topics@) =~= before.push(filter_views(self.topics@)[i as int]));
            assert(filter_views(topics@) =~= filter_views(self.topics@).take(i + 1));
        }
        assert(filter_views(topics@) =~= filter_views(self.topics@));
        MQTTMessageSubscribe { identifier: self.identifier, topics }
    }
}

/// Reads a list of filters, each behind its length and before its QoS, onto `topics`.
pub open spec fn read_filters(topics: Seq<(Seq<char>, u8)>, s: Seq<u8>) -> (
    Seq<(Seq<char>, u8)>,
    Result<(), Error>,
)
    decreases s.len(),
{
    if s.len() == 0 {
        (topics, Ok(()))
    } else {
        match reader::take_u16(s) {
            Err(e) => (topics, Err(e)),
            Ok((n, s1)) => match reader::take_bytes(s1, n as nat) {
                Err(e) => (topics, Err(e)),
                Ok((filter, s2)) => if !validation::topic_filter_ok(filter) {
                    (topics, Err(error::other("Subscribe invalid topic")))
                } else if !valid_utf8(filter) {
                    (topics, Err(error::invalid_data("Subscribe invalid topic UTF-8")))
                } else {
                    match reader::take_u8(s2) {
                        Err(e) => (topics, Err(e)),
                        Ok((qos, s3)) => if qos > 2 {
                            (topics, Err(error::other("Subscribe invalid qos")))
                        } else {
                            read_filters(topics.push((decode_utf8(filter), qos)), s3)
                        },
                    }
                },
            },
        }
    }
}

/// What reading the packet `buf` into `m` makes of `m`, and the outcome. Filters are
/// added behind those that `m` has; what was read before a fault was found stays.
pub open spec fn read_subscribe(m: SubscribeView, buf: Seq<u8>) -> (
    SubscribeView,
    Result<(), Error>,
) {
    match reader::take_u8(buf) {
        Err(e) => (m, Err(e)),
        Ok((fixed, s)) => if fixed % 16 != 2 {
            (m, Err(error::other("Subscribe invalid flags")))
        } else {
            match reader::take_varint(s) {
                Err(e) => (m, Err(e)),
                Ok((_, s)) => match reader::take_u16(s) {
                    Err(e) => (m, Err(e)),
                    Ok((id, s)) => if id == 0 {
                        (m, Err(error::other("Subscribe zero identifier")))
                    } else {
                        let (topics, outcome) = read_filters(m.topics, s);
                        (
                            SubscribeView { identifier: id, topics },
                            if outcome is Ok && topics.len() == 0 {
                                Err(error::other("Subscribe no topics"))
                            } else {
                                outcome
                            },
                        )
                    },
                },
            }
        },
    }
}

impl MQTTMessageSubscribe {
    pub fn new() -> (r: MQTTMessageSubscribe)
        ensures
            r@ == (SubscribeView { identifier: 0, topics: seq![] }),
    {
        let r = MQTTMessageSubscribe { identifier: 0, topics: Vec::new() };
        assert(r@.topics =~= seq![]);
        r
    }

    pub fn get_topics(&self) -> (topics: &Vec<(String, u8)>)
        ensures
            filter_views(topics@) == self@.topics,
    {
        &self.topics
    }

    pub fn get_identifier(&self) -> (id: u16)
        ensures
            id == self@.identifier,
    {
        self.identifier
    }

    /// Reads a whole packet.
    pub fn from_bytes(&mut self, buf: &[u8]) -> (r: Result<(), Error>)
        ensures
            (final(self)@, r) == read_subscribe(old(self)@, buf@),
    {
        let mut r = Reader::new(buf);

        let fixed = r.read_u8()?;
        if fixed % 16 != 2 {
            return Err(Error::new(ErrorKind::Other, "Subscribe invalid flags"));
        }
        // The packet ends where its bytes do, so the announced length is not needed.
        let _ = r.read_varint()?;

        let id = r.read_u16()?;
        if id == 0 {
            return Err(Error::new(ErrorKind::Other, "Subscribe zero identifier"));
        }
        self.identifier = id;

        // Pairs of a filter and a QoS.
        let ghost goal = read_filters(self@.topics, r.rest());
        #[verifier::loop_isolation(false)]
        while !r.is_empty()
            invariant
                self.identifier == id,
                read_filters(self@.topics, r.rest()) == goal,
            decreases r.rest().len(),
        {
            let topic_length = r.read_u16()? as usize;
            let topic_bytes = slice_to_vec(r.read_bytes(topic_length)?);
            if !topic_filter_valid(topic_bytes.as_slice()) {
                return Err(Error::new(ErrorKind::Other, "Subscribe invalid topic"));
            }
            match string_from_utf8(topic_bytes) {
                Some(topic) => {
                    let qos = r.read_u8()?;
                    if !qos_valid(qos) {
                        return Err(Error::new(ErrorKind::Other, "Subscribe invalid qos"));
                    }
                    let ghost before = self@.topics;
                    let ghost name = topic@;
                    self.topics.push((topic, qos));
                    assert(self@.topics =~= before.push((name, qos)));
                },
                None => {
                    return Err(
                        Error::new(ErrorKind::InvalidData, "Subscribe invalid topic UTF-8"),
                    );
                },
            }
        }

        if self.topics.is_empty() {
            return Err(Error::new(ErrorKind::Other, "Subscribe no topics"));
        }
        Ok(())
    }
}

/// The answer to SUBSCRIBE: one response for each filter.
#[derive(PartialEq, Eq, Debug)]
pub struct MQTTMessageSuback {
    identifier: u16,
    response: Vec<u8>,
}

/// The contents of a SUBACK packet.
#[verifier::ext_equal]
pub struct SubackView {
    pub identifier: u16,
    pub response: Seq<u8>,
}

impl View for MQTTMessageSuback {
    type V = SubackView;

    closed spec fn view(&self) -> SubackView {
        SubackView { identifier: self.identifier, response: self.response@ }
    }
}

impl Clone for MQTTMessageSuback {
    fn clone(&self) -> (r: Self)
        ensures
            r@ == self@,
    {
        let response = slice_to_vec(self.response.as_slice());
        MQTTMessageSuback { identifier: self.identifier, response }
    }
}

impl MQTTMessageSuback {
    pub fn new() -> (r: MQTTMessageSuback)
        ensures
            r@ == (SubackView { identifier: 0, response: seq![] }),
    {
        let r = MQTTMessageSuback { identifier: 0, response: Vec::new() };
        assert(r@.response =~= seq![]);
        r
    }

    pub fn set_identifier(&mut self, id: u16)
        ensures
            final(self)@ == (SubackView { identifier: id, ..old(self)@ }),
    {
        self.identifier = id;
    }

    pub fn add_response(&mut self, response: u8)
        ensures
            final(self)@ == (SubackView {
                response: old(self)@.response.push(response),
                ..old(self)@
            }),
    {
        self.response.push(response);
    }
}

impl ToBytes for MQTTMessageSuback {
    open spec fn encodable(&self) -> bool {
        self@.response.len() + 2 <= usize::MAX
    }

    open spec fn encoding(&self) -> Seq<u8> {
        seq![0x90u8] + length::varint_encoding(self@.response.len() + 2) + super::u16_bytes(
            self@.identifier,
        ) + self@.response
    }

    fn to_bytes(&self) -> (encoded: Vec<u8>) {
        let mut encoded: Vec<u8> = Vec::new();
        encoded.push(MQTTMessageType::SubAck.header());
        let mut length_field = encode_length(2 + self.response.len());
        encoded.append(&mut length_field);
        super::push_u16(&mut encoded, self.identifier);
        encoded.extend_from_slice(self.response.as_slice());
        assert(encoded@ =~= self.encoding());
        encoded
    }
}

/// A request to give up subscriptions.
#[derive(PartialEq, Eq, Debug)]
pub struct MQTTMessageUnsubscribe {
    identifier: u16,
    topics: Vec<String>,
}

/// The contents of an UNSUBSCRIBE packet.
#[verifier::ext_equal]
pub struct UnsubscribeView {
    pub identifier: u16,
    pub topics: Seq<Seq<char>>,
}

impl View for MQTTMessageUnsubscribe {
    type V = UnsubscribeView;

    closed spec fn view(&self) -> UnsubscribeView {
        UnsubscribeView { identifier: self.identifier, topics: text::texts(self.topics@) }
    }
}

impl Clone for MQTTMessageUnsubscribe {
    fn clone(&self) -> (r: Self)
        ensures
            r@ == self@,
    {
        MQTTMessageUnsubscribe {
            identifier: self.identifier,
            topics: clone_strings(&self.topics),
        }
    }
}

/// Reads a list of filters, each behind its length, onto `topics`.
pub open spec fn read_names(topics: Seq<Seq<char>>, s: Seq<u8>) -> (
    Seq<Seq<char>>,
    Result<(), Error>,
)
    decreases s.len(),
{
    if s.len() == 0 {
        (topics, Ok(()))
    } else {
        match reader::take_u16(s) {
            Err(e) => (topics, Err(e)),
            Ok((n, s1)) => match reader::take_bytes(s1, n as nat) {
                Err(e) => (topics, Err(e)),
                Ok((filter, s2)) => if !validation::topic_filter_ok(filter) {
                    (topics, Err(error::other("Unsubscribe invalid topic")))
                } else if !valid_utf8(filter) {
                    (topics, Err(error::invalid_data("Unsubscribe invalid topic UTF-8")))
                } else {
                    read_names(topics.push(decode_utf8(filter)), s2)
                },
            },
        }
    }
}

/// What reading the packet `buf` into `m` makes of `m`, and the outcome. Filters are
/// added behind those that `m` has; what was read before a fault was found stays.
pub open spec fn read_unsubscribe(m: UnsubscribeView, buf: Seq<u8>) -> (
    UnsubscribeView,
    Result<(), Error>,
) {
    match reader::take_u8(buf) {
        Err(e) => (m, Err(e)),
        Ok((fixed, s)) => if fixed % 16 != 2 {
            (m, Err(error::other("Unsubscribe invalid flags")))
        } else {
            match reader::take_varint(s) {
                Err(e) => (m, Err(e)),
                Ok((_, s)) => match reader::take_u16(s) {
                    Err(e) => (m, Err(e)),
                    Ok((id, s)) => {
                        let (topics, outcome) = read_names(m.topics, s);
                        (
                            UnsubscribeView { identifier: id, topics },
                            if outcome is Ok && topics.len() == 0 {
                                Err(error::other("Unsubscribe no topics"))
                            } else {
                                outcome
                            },
                        )
                    },
                },
            }
        },
    }
}

impl MQTTMessageUnsubscribe {
    pub fn new() -> (r: MQTTMessageUnsubscribe)
        ensures
            r@ == (UnsubscribeView { identifier: 0, topics: seq![] }),
    {
        let r = MQTTMessageUnsubscribe { identifier: 0, topics: Vec::new() };
        assert(r@.topics =~= seq![]);
        r
    }

    pub fn get_topics(&self) -> (topics: &Vec<String>)
        ensures
            text::texts(topics@) == self@.topics,
    {
        &self.topics
    }

    pub fn get_identifier(&self) -> (id: u16)
        ensures
            id == self@.identifier,
    {
        self.identifier
    }

    /// Reads a whole packet.
    pub fn from_bytes(&mut self, buf: &[u8]) -> (r: Result<(), Error>)
        ensures
            (final(self)@, r) == read_unsubscribe(old(self)@, buf@),
    {
        let mut r = Reader::new(buf);

        let fixed = r.read_u8()?;
        if fixed % 16 != 2 {
            return Err(Error::new(ErrorKind::Other, "Unsubscribe invalid flags"));
        }
        let _ = r.read_varint()?;

        let id = r.read_u16()?;
        self.identifier = id;

        let ghost goal = read_names(self@.topics, r.rest());
        #[verifier::loop_isolation(false)]
        while !r.is_empty()
            invariant
                self.identifier == id,
                read_names(self@.topics, r.rest()) == goal,
            decreases r.rest().len(),
        {
            let topic_length = r.read_u16()? as usize;
            let topic_bytes = slice_to_vec(r.read_bytes(topic_length)?);
            if !topic_filter_valid(topic_bytes.as_slice()) {
                return Err(Error::new(ErrorKind::Other, "Unsubscribe invalid topic"));
            }
            match string_from_utf8(topic_bytes) {
                Some(topic) => {
                    let ghost before = self@.topics;
                    let ghost name = topic@;
                    self.topics.push(topic);
                    assert(self@.topics =~= before.push(name));
                },
                None => {
                    return Err(
                        Error::new(ErrorKind::InvalidData, "Unsubscribe invalid topic UTF-8"),
                    );
                },
            }
        }

        if self.topics.is_empty() {
            return Err(Error::new(ErrorKind::Other, "Unsubscribe no topics"));
        }
        Ok(())
    }
}

/// The answer to UNSUBSCRIBE.
#[derive(Copy, Clone, PartialEq, Eq, Debug)]
pub struct MQTTMessageUnsuback {
    identifier: u16,
}

impl View for MQTTMessageUnsuback {
    type V = u16;

    closed spec fn view(&self) -> u16 {
        self.identifier
    }
}

impl MQTTMessageUnsuback {
    pub fn new() -> (r: MQTTMessageUnsuback)
        ensures
            r@ == 0,
    {
        MQTTMessageUnsuback { identifier: 0 }
    }

    pub fn set_identifier(&mut self, id: u16)
        ensures
            final(self)@ == id,
    {
        self.identifier = id;
    }
}

impl ToBytes for MQTTMessageUnsuback {
    open spec fn encodable(&self) -> bool {
        true
    }

    open spec fn encoding(&self) -> Seq<u8> {
        seq![0xb0u8, 2u8] + super::u16_bytes(self@)
    }

    fn to_bytes(&self) -> (encoded: Vec<u8>) {
        let mut encoded: Vec<u8> = Vec::new();
        encoded.push(MQTTMessageType::UnsubAck.header());
        encoded.push(2);
        super::push_u16(&mut encoded, self.identifier);
        assert(encoded@ =~= self.encoding());
        encoded
    }
}

} // verus!
