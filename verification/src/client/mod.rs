//! Clients: what is known of a connection.

pub mod clientworker;

use crate::broker::BrokerId;
use crate::broker::BrokerIdView;
use vstd::prelude::*;

verus! {

/// What is published for a client that goes without a word.
pub struct WillMessage {
    topic: String,
    qos: u8,
    retain: bool,
    message: Vec<u8>,
}

/// The contents of a will.
#[verifier::ext_equal]
pub struct WillView {
    pub topic: Seq<char>,
    pub qos: u8,
    pub retain: bool,
    pub message: Seq<u8>,
}

impl View for WillMessage {
    type V = WillView;

    closed spec fn view(&self) -> WillView {
        WillView {
            topic: self.topic@,
            qos: self.qos,
            retain: self.retain,
            message: self.message@,
        }
    }
}

impl WillMessage {
    pub fn new(topic: String, message: Vec<u8>, qos: u8, retain: bool) -> (r: WillMessage)
        ensures
            r@ == (WillView { topic: topic@, qos, retain, message: message@ }),
    {
        WillMessage { topic, qos, retain, message }
    }

    pub fn get_message(&self) -> (r: &Vec<u8>)
        ensures
            r@ == self@.message,
    {
        &self.message
    }

    pub fn get_topic(&self) -> (r: &String)
        ensures
            r@ == self@.topic,
    {
        &self.topic
    }

    pub fn get_retain(&self) -> (r: bool)
        ensures
            r == self@.retain,
    {
        self.retain
    }

    pub fn get_qos(&self) -> (r: u8)
        ensures
            r == self@.qos,
    {
        self.qos
    }
}

/// A client that was let in.
pub struct Client {
    broker_id: BrokerId,
    id: String,
    src_address: String,
    keep_alive: u16,
    will: Option<WillMessage>,
}

/// What is known of a client.
#[verifier::ext_equal]
pub struct ClientView {
    pub broker_id: BrokerIdView,
    pub id: Seq<char>,
    pub src_address: Seq<char>,
    pub keep_alive: u16,
    pub will: Option<WillView>,
}

/// The contents of a will, if there is one.
pub open spec fn will_view(will: Option<WillMessage>) -> Option<WillView> {
    match will {
        Some(w) => Some(w@),
        None => None,
    }
}

impl View for Client {
    type V = ClientView;

    closed spec fn view(&self) -> ClientView {
        ClientView {
            broker_id: self.broker_id@,
            id: self.id@,
            src_address: self.src_address@,
            keep_alive: self.keep_alive,
            will: will_view(self.will),
        }
    }
}

impl Client {
    pub fn new(
        src_address: String,
        broker_id: BrokerId,
        id: String,
        keep_alive: u16,
        will: Option<WillMessage>,
    ) -> (r: Client)
        ensures
            r@ == (ClientView {
                broker_id: broker_id@,
                id: id@,
                src_address: src_address@,
                keep_alive,
                will: will_view(will),
            }),
    {
        Client { broker_id, id, src_address, keep_alive, will }
    }

    pub fn get_source_address(&self) -> (r: &String)
        ensures
            r@ == self@.src_address,
    {
        &self.src_address
    }

    pub fn has_will(&self) -> (r: bool)
        ensures
            r == (self@.will is Some),
    {
        self.will.is_some()
    }

    pub fn get_will(&self) -> (r: &Option<WillMessage>)
        ensures
            will_view(*r) == self@.will,
    {
        &self.will
    }

    pub fn get_keep_alive(&self) -> (r: u16)
        ensures
            r == self@.keep_alive,
    {
        self.keep_alive
    }

    pub fn get_id(&self) -> (r: &String)
        ensures
            r@ == self@.id,
    {
        &self.id
    }

    pub fn get_broker_id(&self) -> (r: &BrokerId)
        ensures
            r@ == self@.broker_id,
    {
        &self.broker_id
    }
}

} // verus!
