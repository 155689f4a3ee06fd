//! PINGREQ, PINGRESP and DISCONNECT: packets without contents.

use super::error;
use super::error::Error;
use super::error::ErrorKind;
use super::reader;
use super::reader::Reader;
use super::MQTTMessageType;
use super::ToBytes;
use vstd::prelude::*;

verus! {

/// The answer to PINGREQ.
#[derive(Copy, Clone, PartialEq, Eq, Debug)]
pub struct MQTTMessagePingResp {}

impl MQTTMessagePingResp {
    pub fn new() -> (r: MQTTMessagePingResp)
        ensures
            r == (MQTTMessagePingResp {  }),
    {
        MQTTMessagePingResp {  }
    }
}

impl ToBytes for MQTTMessagePingResp {
    open spec fn encodable(&self) -> bool {
        true
    }

    open spec fn encoding(&self) -> Seq<u8> {
        seq![0xd0u8, 0u8]
    }

    fn to_bytes(&self) -> (encoded: Vec<u8>) {
        let mut encoded: Vec<u8> = Vec::new();
        encoded.push(MQTTMessageType::PingResp.header());
        encoded.push(0);
        assert(encoded@ =~= self.encoding());
        encoded
    }
}

/// A sign of life from a client.
#[derive(Copy, Clone, PartialEq, Eq, Debug)]
pub struct MQTTMessagePingReq {}

/// The outcome of reading a PINGREQ packet: no flags, a length of 0, and nothing behind it.
pub open spec fn read_ping(buf: Seq<u8>) -> Result<(), Error> {
    match reader::take_u8(buf) {
        Err(e) => Err(e),
        Ok((fixed, s)) => if fixed % 16 != 0 {
            Err(error::other("Pingreq invalid flags"))
        } else {
            match reader::take_varint(s) {
                Err(e) => Err(e),
                Ok(((len, _), s)) => if len == 0 && s.len() == 0 {
                    Ok(())
                } else {
                    Err(error::invalid_data("Pingreq message length incorrect"))
                },
            }
        },
    }
}

impl MQTTMessagePingReq {
    pub fn new() -> (r: MQTTMessagePingReq)
        ensures
            r == (MQTTMessagePingReq {  }),
    {
        MQTTMessagePingReq {  }
    }

    /// Reads a whole packet.
    pub fn from_bytes(&mut self, buf: &[u8]) -> (r: Result<(), Error>)
        ensures
            r == read_ping(buf@),
            *final(self) == *old(self),
    {
        let mut r = Reader::new(buf);
        let fixed = r.read_u8()?;
        if fixed % 16 != 0 {
            return Err(Error::new(ErrorKind::Other, "Pingreq invalid flags"));
        }

        // The length must be 0.
        let (len, _) = r.read_varint()?;
        if len != 0 {
            return Err(Error::new(ErrorKind::InvalidData, "Pingreq message length incorrect"));
        }
        r.expect_end("Pingreq message length incorrect")
    }
}

/// A client leaves in good order.
#[derive(Copy, Clone, PartialEq, Eq, Debug)]
pub struct MQTTMessageDisconnect {}

impl MQTTMessageDisconnect {
    pub fn new() -> (r: MQTTMessageDisconnect)
        ensures
            r == (MQTTMessageDisconnect {  }),
    {
        MQTTMessageDisconnect {  }
    }
}

} // verus!
