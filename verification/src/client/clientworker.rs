//! The work for a connected client: packets between the client and its session, and the
//! keep-alive timer.

use super::Client;
use super::ClientView;
use super::WillView;
use crate::messages::codec;
use crate::messages::codec::MQTTMessage;
use crate::messages::publish;
use crate::messages::MQTTMessagePingResp;
use crate::messages::MQTTMessagePublish;
use crate::messages::ReturnCode;
use vstd::prelude::*;
use vstd::slice::slice_to_vec;

verus! {

/// Whether the connection is to be kept.
#[derive(Copy, Clone, PartialEq, Eq, Debug, Structural)]
pub enum ConnectionStatus {
    Connected,
    Disconnect,
}

/// What is switched on for a client.
pub struct Settings {
    pub validation: bool,
    pub policy: bool,
}

/// What happens to the keep-alive timer.
#[derive(Copy, Clone, PartialEq, Eq, Debug, Structural)]
pub enum TimerAction {
    /// It runs on, or there is none.
    Keep,
    /// It starts again with as many milliseconds.
    Reset(u64),
    /// It is taken away.
    Remove,
}

/// What happens to a connection.
pub enum ClientEvent {
    /// A packet from the session; `None` where the session is gone.
    Session(Option<MQTTMessage>),
    /// A packet from the client.
    Client(MQTTMessage),
    /// Something from the client that is no packet.
    ClientFault,
    /// The client has closed the connection.
    ClientClosed,
    /// The keep-alive timer has run out.
    Timer,
    /// The timers do not work.
    TimerFault,
}

/// What happens to a connection.
#[verifier::ext_equal]
pub enum ClientEventView {
    Session(Option<codec::MessageView>),
    Client(codec::MessageView),
    ClientFault,
    ClientClosed,
    Timer,
    TimerFault,
}

impl View for ClientEvent {
    type V = ClientEventView;

    open spec fn view(&self) -> ClientEventView {
        match *self {
            ClientEvent::Session(Some(m)) => ClientEventView::Session(Some(m@)),
            ClientEvent::Session(None) => ClientEventView::Session(None),
            ClientEvent::Client(m) => ClientEventView::Client(m@),
            ClientEvent::ClientFault => ClientEventView::ClientFault,
            ClientEvent::ClientClosed => ClientEventView::ClientClosed,
            ClientEvent::Timer => ClientEventView::Timer,
            ClientEvent::TimerFault => ClientEventView::TimerFault,
        }
    }
}

/// What a packet leads to.
#[derive(PartialEq, Eq, Debug)]
pub enum Action {
    ToSession(MQTTMessage),
    ToClient(MQTTMessage),
    /// The connection ends, for the reason given.
    Stop(&'static str),
}

/// What a packet leads to.
#[verifier::ext_equal]
pub enum ActionView {
    ToSession(codec::MessageView),
    ToClient(codec::MessageView),
    Stop(Seq<char>),
}

impl View for Action {
    type V = ActionView;

    open spec fn view(&self) -> ActionView {
        match *self {
            Action::ToSession(m) => ActionView::ToSession(m@),
            Action::ToClient(m) => ActionView::ToClient(m@),
            Action::Stop(reason) => ActionView::Stop(reason@),
        }
    }
}

/// The worker for a client.
pub struct MQTTClientWorker {
    client: Client,
    status: ConnectionStatus,
    timer: Option<u64>,
    settings: Settings,
}

/// What the worker knows.
#[verifier::ext_equal]
pub struct WorkerView {
    pub client: ClientView,
    pub status: ConnectionStatus,
    /// The running timer: its milliseconds.
    pub timer: Option<u64>,
    pub settings: Settings,
}

impl View for MQTTClientWorker {
    type V = WorkerView;

    closed spec fn view(&self) -> WorkerView {
        WorkerView {
            client: self.client@,
            status: self.status,
            timer: self.timer,
            settings: self.settings,
        }
    }
}

/// How long a client may be silent, in milliseconds: a quarter more than its keep-alive
/// time, in whole seconds; for ever if that is zero.
pub open spec fn keepalive_ms(keep_alive: u16) -> Option<u64> {
    if keep_alive == 0 {
        None
    } else {
        Some(((keep_alive + keep_alive as int / 4) * 1000) as u64)
    }
}

/// A client is given its keep-alive time and at most a quarter more.
pub proof fn law_keepalive_margin(keep_alive: u16)
    requires
        keep_alive > 0,
    ensures
        keepalive_ms(keep_alive) matches Some(ms) && keep_alive * 1000 <= ms <= keep_alive * 1250,
{
}

/// What becomes of a packet from the session.
pub open spec fn from_session(v: WorkerView, message: codec::MessageView) -> (
    WorkerView,
    ActionView,
) {
    match message {
        codec::MessageView::ConnAck(m) => (
            if m.return_code == ReturnCode::Accepted {
                v
            } else {
                WorkerView { status: ConnectionStatus::Disconnect, ..v }
            },
            ActionView::ToClient(message),
        ),
        codec::MessageView::Publish(_) => (v, ActionView::ToClient(message)),
        codec::MessageView::PubAck(_) => (v, ActionView::ToClient(message)),
        codec::MessageView::PubRec(_) => (v, ActionView::ToClient(message)),
        codec::MessageView::PubRel(_) => (v, ActionView::ToClient(message)),
        codec::MessageView::PubComp(_) => (v, ActionView::ToClient(message)),
        codec::MessageView::SubAck(_) => (v, ActionView::ToClient(message)),
        codec::MessageView::UnsubAck(_) => (v, ActionView::ToClient(message)),
        codec::MessageView::Disconnect => (v, ActionView::Stop("Session Disconnect"@)),
        _ => (v, ActionView::Stop("Unknown msg over internal channel"@)),
    }
}

/// What any packet of a client does to its timer.
pub open spec fn timer_reset(v: WorkerView) -> TimerAction {
    match v.timer {
        Some(ms) => if v.client.keep_alive > 0 {
            TimerAction::Reset(ms)
        } else {
            TimerAction::Keep
        },
        None => TimerAction::Keep,
    }
}

/// What becomes of a packet from the client.
pub open spec fn from_client(v: WorkerView, message: codec::MessageView) -> (
    WorkerView,
    TimerAction,
    ActionView,
) {
    match message {
        codec::MessageView::Publish(_) => (v, timer_reset(v), ActionView::ToSession(message)),
        codec::MessageView::PubAck(_) => (v, timer_reset(v), ActionView::ToSession(message)),
        codec::MessageView::PubRec(_) => (v, timer_reset(v), ActionView::ToSession(message)),
        codec::MessageView::PubRel(_) => (v, timer_reset(v), ActionView::ToSession(message)),
        codec::MessageView::PubComp(_) => (v, timer_reset(v), ActionView::ToSession(message)),
        codec::MessageView::Subscribe(_) => (v, timer_reset(v), ActionView::ToSession(message)),
        codec::MessageView::Unsubscribe(_) => (v, timer_reset(v), ActionView::ToSession(message)),
        codec::MessageView::PingReq => (
            v,
            timer_reset(v),
            ActionView::ToClient(codec::MessageView::PingResp),
        ),
        codec::MessageView::Disconnect => (
            WorkerView { status: ConnectionStatus::Disconnect, timer: None, ..v },
            if v.timer is Some {
                TimerAction::Remove
            } else {
                TimerAction::Keep
            },
            ActionView::Stop("Client Disconnect"@),
        ),
        _ => (
            v,
            TimerAction::Keep,
            ActionView::Stop("Unknown message from client recevied"@),
        ),
    }
}

/// What becomes of an event.
pub open spec fn handled(v: WorkerView, event: ClientEventView) -> (
    WorkerView,
    TimerAction,
    ActionView,
) {
    match event {
        ClientEventView::Session(Some(m)) => {
            let (w, action) = from_session(v, m);
            (w, TimerAction::Keep, action)
        },
        ClientEventView::Session(None) => (
            v,
            TimerAction::Keep,
            ActionView::Stop("Session rx closed"@),
        ),
        ClientEventView::Client(m) => from_client(v, m),
        ClientEventView::ClientFault => (
            v,
            TimerAction::Keep,
            ActionView::Stop("Client recv error event"@),
        ),
        ClientEventView::ClientClosed => (
            v,
            TimerAction::Keep,
            ActionView::Stop("Client closed"@),
        ),
        ClientEventView::Timer => (
            WorkerView { timer: None, ..v },
            TimerAction::Keep,
            ActionView::Stop("Client Timeout"@),
        ),
        ClientEventView::TimerFault => (
            v,
            TimerAction::Keep,
            ActionView::Stop("Timer error event"@),
        ),
    }
}

/// Whether a connection goes on after an event; `failed` tells that what it led to could
/// not be done.
pub open spec fn stays_connected(v: WorkerView, action: ActionView, failed: bool) -> bool {
    !(action is Stop) && !failed && v.status == ConnectionStatus::Connected
}

/// The message that a will becomes.
pub open spec fn will_publish(will: WillView) -> publish::PublishView {
    publish::PublishView {
        topic: will.topic,
        message: will.message,
        retain: will.retain,
        qos: will.qos,
        ..publish::publish_default()
    }
}

/// What is published when the connection has ended: the will, unless the client said
/// goodbye or was never let in.
pub open spec fn last_will(v: WorkerView) -> Option<publish::PublishView> {
    match v.client.will {
        Some(will) => if v.status == ConnectionStatus::Disconnect {
            None
        } else {
            Some(will_publish(will))
        },
        None => None,
    }
}

impl MQTTClientWorker {
    /// The worker for a client that has just been let in.
    pub fn new(client: Client) -> (r: MQTTClientWorker)
        ensures
            r@ == (WorkerView {
                client: client@,
                status: ConnectionStatus::Connected,
                timer: None,
                settings: Settings { validation: false, policy: false },
            }),
    {
        MQTTClientWorker {
            client,
            status: ConnectionStatus::Connected,
            timer: None,
            settings: Settings { validation: false, policy: false },
        }
    }

    /// The client.
    pub fn client(&self) -> (r: &Client)
        ensures
            r@ == self@.client,
    {
        &self.client
    }

    /// Takes over what the configuration switches on; what it does not know is off.
    pub fn load_settings(&mut self, validation: Option<bool>, policy: Option<bool>)
        ensures
            final(self)@ == (WorkerView {
                settings: Settings {
                    validation: validation == Some(true),
                    policy: policy == Some(true),
                },
                ..old(self)@
            }),
    {
        self.settings = Settings {
            validation: match validation {
                Some(on) => on,
                None => false,
            },
            policy: match policy {
                Some(on) => on,
                None => false,
            },
        };
    }

    /// Starts the keep-alive timer: its milliseconds, `None` where the client wants none.
    pub fn set_keepalive_timer(&mut self) -> (r: Option<u64>)
        ensures
            r == keepalive_ms(old(self)@.client.keep_alive),
            final(self)@ == (match r {
                Some(ms) => WorkerView { timer: Some(ms), ..old(self)@ },
                None => old(self)@,
            }),
    {
        let ka = self.client.get_keep_alive() as u64;
        if ka > 0 {
            let quarter = ka / 4;
            let ms = (ka + quarter) * 1000;
            self.timer = Some(ms);
            Some(ms)
        } else {
            None
        }
    }

    /// The keep-alive timer has run out.
    pub fn timer_event(&mut self) -> (r: Action)
        ensures
            final(self)@ == (WorkerView { timer: None, ..old(self)@ }),
            r@ == ActionView::Stop("Client Timeout"@),
    {
        self.timer = None;
        Action::Stop("Client Timeout")
    }

    /// Takes a packet from the session.
    pub fn client_rx_recv_event(&mut self, message: MQTTMessage) -> (r: Action)
        ensures
            (final(self)@, r@) == from_session(old(self)@, message@),
    {
        match message {
            MQTTMessage::ConnAck(m) => {
                match m.get_return_code() {
                    ReturnCode::Accepted => {},
                    _ => {
                        self.status = ConnectionStatus::Disconnect;
                    },
                }
                Action::ToClient(MQTTMessage::ConnAck(m))
            },
            MQTTMessage::Publish(m) => Action::ToClient(MQTTMessage::Publish(m)),
            MQTTMessage::PubAck(m) => Action::ToClient(MQTTMessage::PubAck(m)),
            MQTTMessage::PubRec(m) => Action::ToClient(MQTTMessage::PubRec(m)),
            MQTTMessage::PubRel(m) => Action::ToClient(MQTTMessage::PubRel(m)),
            MQTTMessage::PubComp(m) => Action::ToClient(MQTTMessage::PubComp(m)),
            MQTTMessage::SubAck(m) => Action::ToClient(MQTTMessage::SubAck(m)),
            MQTTMessage::UnsubAck(m) => Action::ToClient(MQTTMessage::UnsubAck(m)),
            MQTTMessage::Disconnect(_) => Action::Stop("Session Disconnect"),
            _ => Action::Stop("Unknown msg over internal channel"),
        }
    }

    fn reset_keepalive(&self) -> (r: TimerAction)
        ensures
            r == timer_reset(self@),
    {
        match self.timer {
            Some(ms) => {
                if self.client.get_keep_alive() > 0 {
                    TimerAction::Reset(ms)
                } else {
                    TimerAction::Keep
                }
            },
            None => TimerAction::Keep,
        }
    }

    fn disconnect_message(&mut self) -> (r: TimerAction)
        ensures
            (final(self)@, r, ActionView::Stop("Client Disconnect"@)) == from_client(
                old(self)@,
                codec::MessageView::Disconnect,
            ),
    {
        self.status = ConnectionStatus::Disconnect;
        match self.timer {
            Some(_) => {
                self.timer = None;
                TimerAction::Remove
            },
            None => TimerAction::Keep,
        }
    }

    /// Takes a packet from the client.
    pub fn client_recv_event(&mut self, message: MQTTMessage) -> (r: (TimerAction, Action))
        ensures
            (final(self)@, r.0, r.1@) == from_client(old(self)@, message@),
    {
        match message {
            MQTTMessage::Publish(_) => (self.reset_keepalive(), Action::ToSession(message)),
            MQTTMessage::PubAck(_) => (self.reset_keepalive(), Action::ToSession(message)),
            MQTTMessage::PubRec(_) => (self.reset_keepalive(), Action::ToSession(message)),
            MQTTMessage::PubRel(_) => (self.reset_keepalive(), Action::ToSession(message)),
            MQTTMessage::PubComp(_) => (self.reset_keepalive(), Action::ToSession(message)),
            MQTTMessage::Subscribe(_) => (self.reset_keepalive(), Action::ToSession(message)),
            MQTTMessage::Unsubscribe(_) => (self.reset_keepalive(), Action::ToSession(message)),
            MQTTMessage::PingReq(_) => {
                let pingresp = MQTTMessagePingResp::new();
                (self.reset_keepalive(), Action::ToClient(MQTTMessage::PingResp(pingresp)))
            },
            MQTTMessage::Disconnect(_) => {
                let timer = self.disconnect_message();
                (timer, Action::Stop("Client Disconnect"))
            },
            _ => (TimerAction::Keep, Action::Stop("Unknown message from client recevied")),
        }
    }

    /// Takes an event.
    pub fn handle(&mut self, event: ClientEvent) -> (r: (TimerAction, Action))
        ensures
            (final(self)@, r.0, r.1@) == handled(old(self)@, event@),
    {
        match event {
            ClientEvent::Session(Some(m)) => {
                let action = self.client_rx_recv_event(m);
                (TimerAction::Keep, action)
            },
            ClientEvent::Session(None) => (TimerAction::Keep, Action::Stop("Session rx closed")),
            ClientEvent::Client(m) => self.client_recv_event(m),
            ClientEvent::ClientFault => (
                TimerAction::Keep,
                Action::Stop("Client recv error event"),
            ),
            ClientEvent::ClientClosed => (TimerAction::Keep, Action::Stop("Client closed")),
            ClientEvent::Timer => {
                let action = self.timer_event();
                (TimerAction::Keep, action)
            },
            ClientEvent::TimerFault => (TimerAction::Keep, Action::Stop("Timer error event")),
        }
    }

    /// Whether the connection goes on after an event that led to an action; `failed` tells
    /// that it could not be done.
    pub fn goes_on(&self, action: &Action, failed: bool) -> (r: bool)
        ensures
            r == stays_connected(self@, action@, failed),
    {
        match action {
            Action::Stop(_) => false,
            _ => !failed && self.status == ConnectionStatus::Connected,
        }
    }

    /// What is published when the connection has ended.
    pub fn send_will(&self) -> (r: Option<MQTTMessagePublish>)
        ensures
            match r {
                Some(m) => last_will(self@) == Some(m@),
                None => last_will(self@) is None,
            },
    {
        if self.status == ConnectionStatus::Disconnect {
            return None;
        }
        match self.client.get_will() {
            Some(will) => {
                let mut msg = MQTTMessagePublish::new();
                msg.set_topic(will.get_topic().clone());
                msg.set_message(slice_to_vec(will.get_message().as_slice()));
                msg.set_retain(will.get_retain());
                msg.set_qos(will.get_qos());
                Some(msg)
            },
            None => None,
        }
    }
}

/// A client that says goodbye leaves no will behind; one that is lost does.
pub proof fn law_will(v: WorkerView)
    requires
        v.client.will is Some,
    ensures
        last_will(from_client(v, codec::MessageView::Disconnect).0) is None,
        v.status == ConnectionStatus::Connected ==> last_will(v) == Some(
            will_publish(v.client.will->0),
        ),
{
}

/// No packet that is passed on changes whether there will be a will, unless it refuses
/// the connection.
pub proof fn law_will_is_kept(v: WorkerView, m: codec::MessageView)
    requires
        !(m is Disconnect),
        m matches codec::MessageView::ConnAck(c) ==> c.return_code == ReturnCode::Accepted,
    ensures
        last_will(from_client(v, m).0) == last_will(v),
        last_will(from_session(v, m).0) == last_will(v),
{
}

/// Whether a packet is one that a client has for its session.
pub open spec fn for_session(m: codec::MessageView) -> bool {
    m is Publish || m is PubAck || m is PubRec || m is PubRel || m is PubComp || m is Subscribe
        || m is Unsubscribe
}

/// A client's packet for its session is passed on as it is, the worker stays as it is, and
/// a running keep-alive timer starts again with the time it was set to.
pub proof fn law_packets_reach_the_session(v: WorkerView, m: codec::MessageView)
    requires
        for_session(m),
    ensures
        ({
            let (w, timer, action) = handled(v, ClientEventView::Client(m));
            &&& w == v
            &&& action == ActionView::ToSession(m)
            &&& timer == (match v.timer {
                Some(ms) => if v.client.keep_alive > 0 {
                    TimerAction::Reset(ms)
                } else {
                    TimerAction::Keep
                },
                None => TimerAction::Keep,
            })
        }),
{
}

/// PINGREQ is answered with PINGRESP, and restarts a running keep-alive timer like any
/// other packet.
pub proof fn law_ping(v: WorkerView, m: codec::MessageView)
    requires
        for_session(m),
    ensures
        ({
            let (w, timer, action) = handled(
                v,
                ClientEventView::Client(codec::MessageView::PingReq),
            );
            &&& w == v
            &&& action == ActionView::ToClient(codec::MessageView::PingResp)
            &&& timer == handled(v, ClientEventView::Client(m)).1
        }),
{
}

/// Of what a client sends only DISCONNECT and packets that it may not send then end its
/// connection; only DISCONNECT changes the worker, and ends the timer.
pub proof fn law_packets_that_end(v: WorkerView, m: codec::MessageView)
    ensures
        ({
            let (w, timer, action) = handled(v, ClientEventView::Client(m));
            &&& action is Stop <==> !for_session(m) && !(m is PingReq)
            &&& w == if m is Disconnect {
                WorkerView { status: ConnectionStatus::Disconnect, timer: None, ..v }
            } else {
                v
            }
            &&& action is Stop ==> timer == if m is Disconnect && v.timer is Some {
                TimerAction::Remove
            } else {
                TimerAction::Keep
            }
            &&& action matches ActionView::Stop(reason) ==> reason == if m is Disconnect {
                "Client Disconnect"@
            } else {
                "Unknown message from client recevied"@
            }
        }),
{
}

/// Whether a packet is one that a session has for its client.
pub open spec fn for_client(m: codec::MessageView) -> bool {
    m is ConnAck || m is Publish || m is PubAck || m is PubRec || m is PubRel || m is PubComp
        || m is SubAck || m is UnsubAck
}

/// A session's packet for its client is passed on as it is; any other ends the connection.
/// The timer runs on, and only a CONNACK that refuses the connection changes the worker.
pub proof fn law_packets_reach_the_client(v: WorkerView, m: codec::MessageView)
    ensures
        ({
            let (w, timer, action) = handled(v, ClientEventView::Session(Some(m)));
            let refused = m matches codec::MessageView::ConnAck(c) && c.return_code
                != ReturnCode::Accepted;
            &&& timer == TimerAction::Keep
            &&& for_client(m) ==> action == ActionView::ToClient(m)
            &&& !for_client(m) ==> action == ActionView::Stop(
                if m is Disconnect {
                    "Session Disconnect"@
                } else {
                    "Unknown msg over internal channel"@
                },
            )
            &&& w == if refused {
                WorkerView { status: ConnectionStatus::Disconnect, ..v }
            } else {
                v
            }
        }),
{
}

/// Anything but a packet ends the connection, and leaves a will behind if there is one.
pub proof fn law_other_ends(v: WorkerView, event: ClientEventView)
    requires
        !(event is Client),
        event matches ClientEventView::Session(m) ==> m is None,
    ensures
        ({
            let (w, timer, action) = handled(v, event);
            &&& timer == TimerAction::Keep
            &&& action == ActionView::Stop(
                match event {
                    ClientEventView::Session(_) => "Session rx closed"@,
                    ClientEventView::ClientFault => "Client recv error event"@,
                    ClientEventView::ClientClosed => "Client closed"@,
                    ClientEventView::Timer => "Client Timeout"@,
                    _ => "Timer error event"@,
                },
            )
            &&& w == WorkerView { timer: w.timer, ..v }
            &&& w.timer == if event is Timer {
                None
            } else {
                v.timer
            }
            &&& last_will(w) == last_will(v)
        }),
{
}

/// A connection goes on exactly while nothing ends it, all could be done, and the client
/// has neither said goodbye nor been refused.
pub proof fn law_connection_goes_on(
    v: WorkerView,
    event: ClientEventView,
    failed: bool,
)
    requires
        v.status == ConnectionStatus::Connected,
    ensures
        ({
            let (w, _, action) = handled(v, event);
            stays_connected(w, action, failed) <==> !failed && match event {
                ClientEventView::Client(m) => for_session(m) || m is PingReq,
                ClientEventView::Session(Some(codec::MessageView::ConnAck(c))) => c.return_code
                    == ReturnCode::Accepted,
                ClientEventView::Session(Some(m)) => for_client(m),
                _ => false,
            }
        }),
{
}

/// The time that a client gets is its keep-alive time in seconds and a quarter of it, the
/// quarter in whole seconds; a client with the time zero gets no timer.
pub proof fn law_keepalive_time(keep_alive: u16)
    ensures
        keepalive_ms(keep_alive) is None <==> keep_alive == 0,
        keepalive_ms(keep_alive) matches Some(ms) ==> ms % 1000 == 0 && ({
            let seconds = ms / 1000;
            seconds * 4 <= keep_alive * 5 < (seconds + 1) * 4
        }),
{
}

/// The will of a lost client is published with its topic, message, quality of service and
/// retain flag, as a message that was not sent before.
pub proof fn law_will_is_published(v: WorkerView)
    requires
        v.status == ConnectionStatus::Connected,
    ensures
        match (v.client.will, last_will(v)) {
            (Some(will), Some(m)) => {
                &&& m.topic == will.topic
                &&& m.message == will.message
                &&& m.qos == will.qos
                &&& m.retain == will.retain
                &&& !m.dup
                &&& m.identifier == 0
            },
            (None, None) => true,
            _ => false,
        },
{
}

} // verus!
