//! What a listener speaks, and where.

use crate::config::ListenerConfig;
use crate::config::ListenerConfigView;
use crate::text;
use crate::text::appended;
use crate::text::decimal;
use vstd::prelude::*;

verus! {

/// What is spoken below MQTT.
#[derive(Copy, Clone, PartialEq, Eq, Debug, Structural)]
pub struct Transport {
    pub tls: bool,
    pub websocket: bool,
}

/// What a listener speaks.
pub open spec fn transport_of(c: ListenerConfigView) -> Transport {
    Transport { tls: c.tlscrt is Some && c.tlskey is Some, websocket: c.websocket }
}

/// What a listener speaks: TLS if both a key and a certificate are given.
pub fn transport(config: &ListenerConfig) -> (r: Transport)
    ensures
        r == (Transport {
            tls: config.tlskey is Some && config.tlscrt is Some,
            websocket: config.websocket,
        }),
        r == transport_of(config@),
{
    Transport {
        tls: config.tlskey.is_some() && config.tlscrt.is_some(),
        websocket: config.websocket,
    }
}

/// Where a listener listens: on a port of all addresses.
pub fn listen_address(port: u16) -> (r: String)
    ensures
        r@ == "[::]:"@ + text::decimal_text(port as nat),
{
    appended("[::]:", &decimal(port as u64))
}

/// The name of a transport.
pub open spec fn transport_name(t: Transport) -> Seq<char> {
    "TCP "@ + (if t.tls {
        "TLS "@
    } else {
        ""@
    }) + (if t.websocket {
        "WS "@
    } else {
        ""@
    })
}

/// The name of a transport.
pub fn describe(t: Transport) -> (r: String)
    ensures
        r@ == transport_name(t),
{
    let mut s = appended(
        "TCP ",
        if t.tls {
            "TLS "
        } else {
            ""
        },
    );
    s = appended(
        &s,
        if t.websocket {
            "WS "
        } else {
            ""
        },
    );
    s
}

/// What a connection does next.
#[derive(Copy, Clone, PartialEq, Eq, Debug, Structural)]
pub enum Handshake {
    Tls,
    WebSocket,
    /// MQTT itself.
    Mqtt,
}

/// What a connection does next, with what it has done.
pub open spec fn handshake_after(t: Transport, tls_done: bool, websocket_done: bool) -> Handshake {
    if t.tls && !tls_done {
        Handshake::Tls
    } else if t.websocket && !websocket_done {
        Handshake::WebSocket
    } else {
        Handshake::Mqtt
    }
}

/// The handshakes of a connection: TLS first, then the web socket, then MQTT.
pub fn next_handshake(t: Transport, tls_done: bool, websocket_done: bool) -> (r: Handshake)
    ensures
        r == (if t.tls && !tls_done {
            Handshake::Tls
        } else if t.websocket && !websocket_done {
            Handshake::WebSocket
        } else {
            Handshake::Mqtt
        }),
        r == handshake_after(t, tls_done, websocket_done),
{
    if t.tls && !tls_done {
        Handshake::Tls
    } else if t.websocket && !websocket_done {
        Handshake::WebSocket
    } else {
        Handshake::Mqtt
    }
}

/// A connection does each handshake of its transport once, TLS before the web socket, and
/// then speaks MQTT.
pub proof fn law_handshakes(t: Transport)
    ensures
        handshake_after(t, true, true) == Handshake::Mqtt,
        t.tls ==> handshake_after(t, false, false) == Handshake::Tls && handshake_after(
            t,
            true,
            false,
        ) == if t.websocket {
            Handshake::WebSocket
        } else {
            Handshake::Mqtt
        },
        !t.tls ==> handshake_after(t, false, false) == if t.websocket {
            Handshake::WebSocket
        } else {
            Handshake::Mqtt
        },
        !t.tls ==> handshake_after(t, false, true) == Handshake::Mqtt,
{
}

/// A listener speaks TLS exactly if it has both a certificate and a key, and uses web
/// sockets exactly if it is told to, whatever its port.
pub proof fn law_transport(c: ListenerConfigView)
    ensures
        transport_of(c).tls <==> c.tlscrt is Some && c.tlskey is Some,
        transport_of(c).websocket <==> c.websocket,
{
}

} // verus!
