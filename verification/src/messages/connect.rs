//! CONNECT and CONNACK.

use super::error;
use super::error::Error;
use super::error::ErrorKind;
use super::reader;
use super::reader::Reader;
use super::validation;
use super::validation::client_id_valid;
use super::validation::publish_topic_valid;
use super::validation::qos_valid;
use super::MQTTMessageType;
use super::ReturnCode;
use super::ToBytes;
use crate::text::string_from_utf8;
use vstd::prelude::*;
use vstd::slice::slice_to_vec;
use vstd::utf8::*;

verus! {

/// The answer to a connection request.
#[derive(Copy, Clone, PartialEq, Eq, Debug)]
pub struct MQTTMessageConnack {
    return_code: ReturnCode,
    session_present: bool,
}

/// The contents of a CONNACK packet.
pub struct ConnackView {
    pub return_code: ReturnCode,
    pub session_present: bool,
}

impl View for MQTTMessageConnack {
    type V = ConnackView;

    closed spec fn view(&self) -> ConnackView {
        ConnackView { return_code: self.return_code, session_present: self.session_present }
    }
}

impl MQTTMessageConnack {
    pub fn new() -> (r: MQTTMessageConnack)
        ensures
            r@ == (ConnackView { return_code: ReturnCode::Accepted, session_present: false }),
    {
        MQTTMessageConnack { return_code: ReturnCode::Accepted, session_present: false }
    }

    pub fn set_return_code(&mut self, return_code: ReturnCode)
        ensures
            final(self)@ == (ConnackView { return_code, ..old(self)@ }),
    {
        self.return_code = return_code;
    }

    pub fn get_return_code(&self) -> (code: ReturnCode)
        ensures
            code == self@.return_code,
    {
        self.return_code
    }

    pub fn set_session_present(&mut self, session_present: bool)
        ensures
            final(self)@ == (ConnackView { session_present, ..old(self)@ }),
    {
        self.session_present = session_present;
    }
}

impl ToBytes for MQTTMessageConnack {
    open spec fn encodable(&self) -> bool {
        true
    }

    open spec fn encoding(&self) -> Seq<u8> {
        let present: u8 = if self@.session_present {
            1
        } else {
            0
        };
        seq![0x20u8, 2u8, present, self@.return_code.spec_code()]
    }

    fn to_bytes(&self) -> (encoded: Vec<u8>) {
        let mut encoded: Vec<u8> = Vec::new();
        encoded.push(MQTTMessageType::ConnAck.header());
        encoded.push(2);
        let mut flags: u8 = 0;
        if self.session_present {
            flags = 1;
        }
        encoded.push(flags);
        encoded.push(self.return_code.code());
        assert(encoded@ =~= self.encoding());
        encoded
    }
}

/// A connection request.
#[derive(PartialEq, Eq, Debug)]
pub struct MQTTMessageConnect {
    client: String,
    username: String,
    password: String,
    will: bool,
    willtopic: String,
    willmsg: String,
    willqos: u8,
    willretain: bool,
    version: u8,
    keepalive: u16,
    clean_session: bool,
}

/// The contents of a CONNECT packet.
#[verifier::ext_equal]
pub struct ConnectView {
    pub client: Seq<char>,
    pub username: Seq<char>,
    pub password: Seq<char>,
    pub will: bool,
    pub willtopic: Seq<char>,
    pub willmsg: Seq<char>,
    pub willqos: u8,
    pub willretain: bool,
    pub version: u8,
    pub keepalive: u16,
    pub clean_session: bool,
}

impl View for MQTTMessageConnect {
    type V = ConnectView;

    closed spec fn view(&self) -> ConnectView {
        ConnectView {
            client: self.client@,
            username: self.username@,
            password: self.password@,
            will: self.will,
            willtopic: self.willtopic@,
            willmsg: self.willmsg@,
            willqos: self.willqos,
            willretain: self.willretain,
            version: self.version,
            keepalive: self.keepalive,
            clean_session: self.clean_session,
        }
    }
}

impl Clone for MQTTMessageConnect {
    fn clone(&self) -> (r: Self)
        ensures
            r@ == self@,
    {
        MQTTMessageConnect {
            client: self.client.clone(),
            username: self.username.clone(),
            password: self.password.clone(),
            will: self.will,
            willtopic: self.willtopic.clone(),
            willmsg: self.willmsg.clone(),
            willqos: self.willqos,
            willretain: self.willretain,
            version: self.version,
            keepalive: self.keepalive,
            clean_session: self.clean_session,
        }
    }
}

/// A request with nothing in it.
pub open spec fn connect_default() -> ConnectView {
    ConnectView {
        client: seq![],
        username: seq![],
        password: seq![],
        will: false,
        willtopic: seq![],
        willmsg: seq![],
        willqos: 0,
        willretain: false,
        version: 0,
        keepalive: 0,
        clean_session: false,
    }
}

/// The QoS of the will in the connect flags.
pub open spec fn will_qos_flag(flags: u8) -> u8 {
    (flags & 0x18) >> 3
}

/// Reads the password, where there is one, and tests that nothing follows.
pub open spec fn read_password(m: ConnectView, flags: u8, s: Seq<u8>) -> (
    ConnectView,
    Result<(), Error>,
) {
    let end = |s: Seq<u8>|
        if s.len() == 0 {
            Ok::<(), Error>(())
        } else {
            Err(error::invalid_data("Connect message length incorrect"))
        };
    if flags & 0x40 == 0x40 {
        match reader::take_string_prefixed(s) {
            Err(e) => (m, Err(e)),
            Ok((password, s)) => (ConnectView { password, ..m }, end(s)),
        }
    } else {
        (m, end(s))
    }
}

/// Reads the user name, where there is one, and what follows.
pub open spec fn read_username(m: ConnectView, flags: u8, s: Seq<u8>) -> (
    ConnectView,
    Result<(), Error>,
) {
    if flags & 0x80 == 0x80 {
        match reader::take_string_prefixed(s) {
            Err(e) => (m, Err(e)),
            Ok((username, s)) => read_password(ConnectView { username, ..m }, flags, s),
        }
    } else {
        read_password(m, flags, s)
    }
}

/// Reads the message of a will and what follows.
pub open spec fn read_will_message(m: ConnectView, flags: u8, s: Seq<u8>) -> (
    ConnectView,
    Result<(), Error>,
) {
    match reader::take_u16(s) {
        Err(e) => (m, Err(e)),
        Ok((n, s)) => match reader::take_bytes(s, n as nat) {
            Err(e) => (m, Err(e)),
            Ok((message, s)) => if !valid_utf8(message) {
                (m, Err(error::invalid_data("Connect will message invalid UTF-8")))
            } else {
                read_username(ConnectView { willmsg: decode_utf8(message), ..m }, flags, s)
            },
        },
    }
}

/// Reads the will, where there is one, and what follows.
pub open spec fn read_will(m: ConnectView, flags: u8, s: Seq<u8>) -> (
    ConnectView,
    Result<(), Error>,
) {
    let retain = flags & 0x20 == 0x20;
    let qos = will_qos_flag(flags);
    if flags & 0x04 == 0x04 {
        let m = ConnectView { will: true, ..m };
        if qos > 2 {
            (m, Err(error::other("Connect message invalid qos")))
        } else {
            let m = ConnectView { willqos: qos, willretain: retain, ..m };
            match reader::take_u16(s) {
                Err(e) => (m, Err(e)),
                Ok((n, s)) => match reader::take_bytes(s, n as nat) {
                    Err(e) => (m, Err(e)),
                    Ok((topic, s)) => if !validation::publish_topic_ok(topic) {
                        (m, Err(error::other("Connect message invalid will topic")))
                    } else if !valid_utf8(topic) {
                        (m, Err(error::invalid_data("Connect will topic invalid UTF-8")))
                    } else {
                        read_will_message(
                            ConnectView { willtopic: decode_utf8(topic), ..m },
                            flags,
                            s,
                        )
                    },
                },
            }
        }
    } else if qos != 0 || retain {
        (m, Err(error::other("Connect message invalid will flags")))
    } else {
        read_username(m, flags, s)
    }
}

/// Reads the client identifier and what follows.
pub open spec fn read_client(m: ConnectView, flags: u8, s: Seq<u8>) -> (
    ConnectView,
    Result<(), Error>,
) {
    match reader::take_u16(s) {
        Err(e) => (m, Err(e)),
        Ok((n, s)) => match reader::take_bytes(s, n as nat) {
            Err(e) => (m, Err(e)),
            Ok((client, s)) => if !validation::client_id_ok(client) {
                (m, Err(error::other("Connect message invalid client id")))
            } else if !valid_utf8(client) {
                (m, Err(error::invalid_data("Connect client id invalid UTF-8")))
            } else {
                read_will(ConnectView { client: decode_utf8(client), ..m }, flags, s)
            },
        },
    }
}

/// Reads what follows the protocol name.
pub open spec fn read_connect_body(m: ConnectView, s: Seq<u8>) -> (
    ConnectView,
    Result<(), Error>,
) {
    match reader::take_u8(s) {
        Err(e) => (m, Err(e)),
        Ok((version, s)) => {
            let m = ConnectView { version, ..m };
            match reader::take_u8(s) {
                Err(e) => (m, Err(e)),
                Ok((flags, s)) => if flags & 0x01 == 0x01 {
                    (m, Err(error::other("Connect message invalid flags")))
                } else {
                    let m = ConnectView { clean_session: flags & 0x02 == 0x02, ..m };
                    match reader::take_u16(s) {
                        Err(e) => (m, Err(e)),
                        Ok((keepalive, s)) => read_client(ConnectView { keepalive, ..m }, flags, s),
                    }
                },
            }
        },
    }
}

/// What reading the packet `buf` into `m` makes of `m`, and the outcome. The protocol
/// name is skipped unread. A field that was read before a fault was found keeps what
/// was read.
pub open spec fn read_connect(m: ConnectView, buf: Seq<u8>) -> (ConnectView, Result<(), Error>) {
    match reader::take_u8(buf) {
        Err(e) => (m, Err(e)),
        Ok((fixed, s)) => if fixed & 0x0f != 0 {
            (m, Err(error::other("Connect invalid header flags")))
        } else {
            match reader::take_varint(s) {
                Err(e) => (m, Err(e)),
                Ok((_, s)) => match reader::take_bytes(s, 6) {
                    Err(e) => (m, Err(e)),
                    Ok((_, s)) => read_connect_body(m, s),
                },
            }
        },
    }
}

impl MQTTMessageConnect {
    pub fn new() -> (r: MQTTMessageConnect)
        ensures
            r@ == connect_default(),
    {
        let r = MQTTMessageConnect {
            client: String::new(),
            username: String::new(),
            password: String::new(),
            will: false,
            willtopic: String::new(),
            willmsg: String::new(),
            willqos: 0,
            willretain: false,
            version: 0,
            keepalive: 0,
            clean_session: false,
        };
        assert(r@ =~= connect_default());
        r
    }

    pub fn get_client(&self) -> (s: &String)
        ensures
            s@ == self@.client,
    {
        &self.client
    }

    pub fn get_username(&self) -> (s: &String)
        ensures
            s@ == self@.username,
    {
        &self.username
    }

    pub fn get_password(&self) -> (s: &String)
        ensures
            s@ == self@.password,
    {
        &self.password
    }

    pub fn has_clean_session(&self) -> (b: bool)
        ensures
            b == self@.clean_session,
    {
        self.clean_session
    }

    pub fn has_will(&self) -> (b: bool)
        ensures
            b == self@.will,
    {
        self.will
    }

    pub fn will_topic(&self) -> (s: &String)
        ensures
            s@ == self@.willtopic,
    {
        &self.willtopic
    }

    pub fn will_message(&self) -> (s: &String)
        ensures
            s@ == self@.willmsg,
    {
        &self.willmsg
    }

    pub fn will_qos(&self) -> (qos: u8)
        ensures
            qos == self@.willqos,
    {
        self.willqos
    }

    pub fn will_retain(&self) -> (b: bool)
        ensures
            b == self@.willretain,
    {
        self.willretain
    }

    pub fn keep_alive(&self) -> (seconds: u16)
        ensures
            seconds == self@.keepalive,
    {
        self.keepalive
    }

    pub fn get_version(&self) -> (version: u8)
        ensures
            version == self@.version,
    {
        self.version
    }

    /// Reads a whole packet.
    pub fn from_bytes(&mut self, buf: &[u8]) -> (r: Result<(), Error>)
        ensures
            (final(self)@, r) == read_connect(old(self)@, buf@),
    {
        let mut r = Reader::new(buf);

        // Fixed header: the flags must be clear.
        let fixed = r.read_u8()?;
        if (fixed & 0x0f) != 0 {
            return Err(Error::new(ErrorKind::Other, "Connect invalid header flags"));
        }
        let _ = r.read_varint()?;

        // The protocol name: two bytes of length and four letters.
        r.skip(6)?;
        self.version = r.read_u8()?;

        let flags = r.read_u8()?;
        if flags & 0x01 == 0x01 {
            return Err(Error::new(ErrorKind::Other, "Connect message invalid flags"));
        }
        self.clean_session = (flags & 0x02) == 0x02;
        self.keepalive = r.read_u16()?;
        self.client_from(flags, r)
    }

    /// Reads the client identifier and what follows.
    fn client_from(&mut self, flags: u8, reader: Reader) -> (r: Result<(), Error>)
        ensures
            (final(self)@, r) == read_client(old(self)@, flags, reader.rest()),
    {
        let mut r = reader;
        let client_len = r.read_u16()? as usize;
        let client_bytes = slice_to_vec(r.read_bytes(client_len)?);
        if !client_id_valid(client_bytes.as_slice()) {
            return Err(Error::new(ErrorKind::Other, "Connect message invalid client id"));
        }
        match string_from_utf8(client_bytes) {
            Some(client) => {
                self.client = client;
            },
            None => {
                return Err(
                    Error::new(ErrorKind::InvalidData, "Connect client id invalid UTF-8"),
                );
            },
        }

        self.will_from(flags, r)
    }

    /// Reads the will, where there is one, and what follows.
    fn will_from(&mut self, flags: u8, reader: Reader) -> (r: Result<(), Error>)
        ensures
            (final(self)@, r) == read_will(old(self)@, flags, reader.rest()),
    {
        let mut r = reader;
        let willretain = (flags & 0x20) == 0x20;
        let willqos = (flags & 0x18) >> 3;
        if flags & 0x04 == 0x04 {
            self.will = true;
            if !qos_valid(willqos) {
                return Err(Error::new(ErrorKind::Other, "Connect message invalid qos"));
            }
            self.willqos = willqos;
            self.willretain = willretain;

            let topic_len = r.read_u16()? as usize;
            let topic_bytes = slice_to_vec(r.read_bytes(topic_len)?);
            if !publish_topic_valid(topic_bytes.as_slice()) {
                return Err(Error::new(ErrorKind::Other, "Connect message invalid will topic"));
            }
            match string_from_utf8(topic_bytes) {
                Some(topic) => {
                    self.willtopic = topic;
                },
                None => {
                    return Err(
                        Error::new(ErrorKind::InvalidData, "Connect will topic invalid UTF-8"),
                    );
                },
            }

            let message_len = r.read_u16()? as usize;
            let message_bytes = slice_to_vec(r.read_bytes(message_len)?);
            match string_from_utf8(message_bytes) {
                Some(message) => {
                    self.willmsg = message;
                },
                None => {
                    return Err(
                        Error::new(ErrorKind::InvalidData, "Connect will message invalid UTF-8"),
                    );
                },
            }
        } else if willqos != 0 || willretain {
            return Err(Error::new(ErrorKind::Other, "Connect message invalid will flags"));
        }
        self.credentials_from(flags, r)
    }

    /// Reads the user name and the password, where there are any; nothing may follow.
    fn credentials_from(&mut self, flags: u8, reader: Reader) -> (r: Result<(), Error>)
        ensures
            (final(self)@, r) == read_username(old(self)@, flags, reader.rest()),
    {
        let mut r = reader;
        if flags & 0x80 == 0x80 {
            self.username = r.read_mqtt_string_prefixed()?;
        }
        if flags & 0x40 == 0x40 {
            self.password = r.read_mqtt_string_prefixed()?;
        }

        r.expect_end("Connect message length incorrect")
    }
}

} // verus!
