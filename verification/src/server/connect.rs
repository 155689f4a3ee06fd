//! From the first packet of a connection to a client that is let in.

use crate::auth::AuthResponse;
use crate::auth::AuthResponseView;
use crate::broker::BrokerId;
use crate::broker::BrokerIdView;
use crate::client::clientworker;
use crate::client::Client;
use crate::client::ClientView;
use crate::client::WillMessage;
use crate::client::WillView;
use crate::messages;
use crate::messages::codec;
use crate::messages::codec::MQTTMessage;
use crate::messages::connect;
use crate::messages::MQTTMessageConnack;
use crate::messages::MQTTMessageConnect;
use crate::messages::ReturnCode;
use vstd::prelude::*;
use vstd::slice::slice_to_vec;
use vstd::utf8::*;

verus! {

/// What came as the first packet.
pub enum FirstFrame {
    /// Nothing, in the time that a client has.
    Timeout,
    /// The end of the stream.
    Closed,
    /// Something that is no packet.
    Fault,
    Message(MQTTMessage),
}

/// What came as the first packet.
#[verifier::ext_equal]
pub enum FirstFrameView {
    Timeout,
    Closed,
    Fault,
    Message(codec::MessageView),
}

impl View for FirstFrame {
    type V = FirstFrameView;

    open spec fn view(&self) -> FirstFrameView {
        match *self {
            FirstFrame::Timeout => FirstFrameView::Timeout,
            FirstFrame::Closed => FirstFrameView::Closed,
            FirstFrame::Fault => FirstFrameView::Fault,
            FirstFrame::Message(m) => FirstFrameView::Message(m@),
        }
    }
}

/// What the authentication service has to say.
pub enum AuthReply {
    /// It could not be asked.
    Unreachable,
    /// It did not answer.
    Silent,
    Response(AuthResponse),
}

/// What the authentication service has to say.
#[verifier::ext_equal]
pub enum AuthReplyView {
    Unreachable,
    Silent,
    Response(AuthResponseView),
}

impl View for AuthReply {
    type V = AuthReplyView;

    open spec fn view(&self) -> AuthReplyView {
        match *self {
            AuthReply::Unreachable => AuthReplyView::Unreachable,
            AuthReply::Silent => AuthReplyView::Silent,
            AuthReply::Response(r) => AuthReplyView::Response(r@),
        }
    }
}

/// What a connection comes to.
pub enum ConnectStep {
    /// It is closed without a word.
    Close,
    /// The client is told why, and the connection is closed.
    Refuse(MQTTMessageConnack),
    /// The user and the password are checked; with the answer it goes on.
    Authenticate { username: String, password: String, request: MQTTMessageConnect },
    /// The client is let in.
    Accept { request: MQTTMessageConnect, client: Client },
}

/// What a connection comes to.
#[verifier::ext_equal]
pub enum ConnectStepView {
    Close,
    Refuse(connect::ConnackView),
    Authenticate { username: Seq<char>, password: Seq<char>, request: connect::ConnectView },
    Accept { request: connect::ConnectView, client: ClientView },
}

impl View for ConnectStep {
    type V = ConnectStepView;

    open spec fn view(&self) -> ConnectStepView {
        match *self {
            ConnectStep::Close => ConnectStepView::Close,
            ConnectStep::Refuse(m) => ConnectStepView::Refuse(m@),
            ConnectStep::Authenticate { username, password, request } =>
                ConnectStepView::Authenticate {
                    username: username@,
                    password: password@,
                    request: request@,
                },
            ConnectStep::Accept { request, client } => ConnectStepView::Accept {
                request: request@,
                client: client@,
            },
        }
    }
}

/// The refusal with a code.
pub open spec fn refusal(return_code: ReturnCode) -> ConnectStepView {
    ConnectStepView::Refuse(connect::ConnackView { return_code, session_present: false })
}

/// What the first packet leads to. Only CONNECT is answered; it must be of the right
/// version and name the client.
pub open spec fn first_step(frame: FirstFrameView) -> ConnectStepView {
    match frame {
        FirstFrameView::Message(codec::MessageView::Connect(m)) => if m.version
            != messages::MQTT311_VERSION {
            refusal(ReturnCode::UnacceptableVersion)
        } else if m.client.len() == 0 {
            refusal(ReturnCode::IdentifierRejected)
        } else {
            ConnectStepView::Authenticate {
                username: m.username,
                password: m.password,
                request: m,
            }
        },
        _ => ConnectStepView::Close,
    }
}

/// The will of a connection request.
pub open spec fn request_will(m: connect::ConnectView) -> Option<WillView> {
    if m.will {
        Some(
            WillView {
                topic: m.willtopic,
                qos: m.willqos,
                retain: m.willretain,
                message: encode_utf8(m.willmsg),
            },
        )
    } else {
        None
    }
}

/// The client of a connection request that is let in.
pub open spec fn accepted_client(
    m: connect::ConnectView,
    src_address: Seq<char>,
    tenant: Option<Seq<char>>,
) -> ClientView {
    ClientView {
        broker_id: BrokerIdView { tenant_id: tenant, broker_id: "default"@ },
        id: m.client,
        src_address,
        keep_alive: m.keepalive,
        will: request_will(m),
    }
}

/// What the answer of the authentication service leads to.
pub open spec fn second_step(
    request: connect::ConnectView,
    src_address: Seq<char>,
    reply: AuthReplyView,
) -> ConnectStepView {
    match reply {
        AuthReplyView::Unreachable => refusal(ReturnCode::ServerUnavailable),
        AuthReplyView::Silent => ConnectStepView::Close,
        AuthReplyView::Response(r) => if r.return_code == ReturnCode::Accepted {
            ConnectStepView::Accept {
                request,
                client: accepted_client(request, src_address, r.tenant),
            }
        } else {
            refusal(r.return_code)
        },
    }
}

fn refuse(return_code: ReturnCode) -> (r: ConnectStep)
    ensures
        r@ == refusal(return_code),
{
    let mut connack = MQTTMessageConnack::new();
    connack.set_return_code(return_code);
    ConnectStep::Refuse(connack)
}

/// Takes the first packet of a connection.
pub fn connect_start(frame: FirstFrame) -> (r: ConnectStep)
    ensures
        r@ == first_step(frame@),
{
    match frame {
        FirstFrame::Message(MQTTMessage::Connect(msg)) => {
            if msg.get_version() != messages::MQTT311_VERSION {
                return refuse(ReturnCode::UnacceptableVersion);
            }
            proof {
                encode_utf8_decode_utf8(msg@.client);
                lemma_empty_text(msg@.client);
            }
            if msg.get_client().as_str().is_empty() {
                return refuse(ReturnCode::IdentifierRejected);
            }
            ConnectStep::Authenticate {
                username: msg.get_username().clone(),
                password: msg.get_password().clone(),
                request: msg,
            }
        },
        _ => ConnectStep::Close,
    }
}

/// A text is empty exactly if its encoding is.
proof fn lemma_empty_text(s: Seq<char>)
    ensures
        (encode_utf8(s).len() == 0) == (s.len() == 0),
{
    encode_utf8_decode_utf8(s);
    let none: Seq<char> = seq![];
    encode_utf8_decode_utf8(none);
    assert(encode_utf8(none).len() == 0);
    if encode_utf8(s).len() == 0 {
        assert(encode_utf8(s) =~= encode_utf8(none));
    }
    if s.len() == 0 {
        assert(s =~= none);
    }
}

/// Goes on when the authentication service has answered or failed to.
pub fn connect_authenticated(
    request: MQTTMessageConnect,
    src_address: String,
    reply: AuthReply,
) -> (r: ConnectStep)
    ensures
        r@ == second_step(request@, src_address@, reply@),
{
    match reply {
        AuthReply::Unreachable => refuse(ReturnCode::ServerUnavailable),
        AuthReply::Silent => ConnectStep::Close,
        AuthReply::Response(response) => match response.return_code {
            ReturnCode::Accepted => {
                let will = if request.has_will() {
                    Some(
                        WillMessage::new(
                            request.will_topic().clone(),
                            slice_to_vec(request.will_message().as_str().as_bytes()),
                            request.will_qos(),
                            request.will_retain(),
                        ),
                    )
                } else {
                    None
                };
                let broker = BrokerId {
                    tenant_id: response.tenant,
                    broker_id: "default".to_owned(),
                };
                let client = Client::new(
                    src_address,
                    broker,
                    request.get_client().clone(),
                    request.keep_alive(),
                    will,
                );
                ConnectStep::Accept { request, client }
            },
            code => refuse(code),
        },
    }
}

/// Nobody is let in without an identifier, with another version of the protocol, or
/// against the word of the authentication service; and whoever is let in is the client
/// that asked.
pub proof fn law_who_is_let_in(
    frame: FirstFrameView,
    src_address: Seq<char>,
    reply: AuthReplyView,
)
    ensures
        first_step(frame) matches ConnectStepView::Authenticate { request, .. } ==> {
            &&& frame == FirstFrameView::Message(codec::MessageView::Connect(request))
            &&& request.version == messages::MQTT311_VERSION
            &&& request.client.len() > 0
            &&& second_step(request, src_address, reply) matches ConnectStepView::Accept {
                client,
                ..
            } ==> client.id == request.client && (reply matches AuthReplyView::Response(r)
                && r.return_code == ReturnCode::Accepted && client.broker_id.tenant_id == r.tenant)
        },
        !(first_step(frame) is Accept),
{
}

/// Every refusal is told with the code of its reason, which is never the code of success.
pub proof fn law_refusals(
    frame: FirstFrameView,
    request: connect::ConnectView,
    src_address: Seq<char>,
    reply: AuthReplyView,
)
    ensures
        first_step(frame) matches ConnectStepView::Refuse(m) ==> m.return_code
            != ReturnCode::Accepted && !m.session_present,
        second_step(request, src_address, reply) matches ConnectStepView::Refuse(m)
            ==> m.return_code != ReturnCode::Accepted && !m.session_present,
{
}

/// Whoever is let in is described as the request says: its identifier and keep-alive time,
/// its will with the topic, the UTF-8 bytes of the message, the quality of service and the
/// retain flag if the request has one, and none if it has none. The address is that of the
/// connection, the tenant that of the authentication service, and the request is handed
/// on as it came.
pub proof fn law_client_as_requested(
    m: connect::ConnectView,
    src_address: Seq<char>,
    reply: AuthReplyView,
)
    requires
        reply matches AuthReplyView::Response(r) && r.return_code == ReturnCode::Accepted,
    ensures
        second_step(m, src_address, reply) matches ConnectStepView::Accept { request, client } && {
            &&& request == m
            &&& client.id == m.client
            &&& client.keep_alive == m.keepalive
            &&& client.src_address == src_address
            &&& client.broker_id.tenant_id == reply->Response_0.tenant
            &&& client.broker_id.broker_id == "default"@
            &&& m.will <==> client.will is Some
            &&& client.will matches Some(will) ==> {
                &&& will.topic == m.willtopic
                &&& will.message == encode_utf8(m.willmsg)
                &&& will.qos == m.willqos
                &&& will.retain == m.willretain
            }
        },
{
}

/// Without the word of the authentication service nobody is let in: where it cannot be
/// asked the service is unavailable, where it is silent the connection is closed, and its
/// refusal is passed on with its code.
pub proof fn law_not_let_in(
    m: connect::ConnectView,
    src_address: Seq<char>,
    reply: AuthReplyView,
)
    ensures
        match reply {
            AuthReplyView::Unreachable => second_step(m, src_address, reply)
                matches ConnectStepView::Refuse(a) && a.return_code
                == ReturnCode::ServerUnavailable && !a.session_present,
            AuthReplyView::Silent => second_step(m, src_address, reply) is Close,
            AuthReplyView::Response(r) => if r.return_code == ReturnCode::Accepted {
                second_step(m, src_address, reply) is Accept
            } else {
                second_step(m, src_address, reply) matches ConnectStepView::Refuse(a)
                    && a.return_code == r.return_code && !a.session_present
            },
        },
{
}

/// A first CONNECT of version 4 with an identifier is put to the authentication service
/// with the user and the password that it names. Another version is refused as such, and
/// without an identifier the identifier is refused. Anything but CONNECT is not answered.
pub proof fn law_first_packet(frame: FirstFrameView)
    ensures
        match frame {
            FirstFrameView::Message(codec::MessageView::Connect(m)) => if m.version != 4 {
                first_step(frame) matches ConnectStepView::Refuse(a) && a.return_code
                    == ReturnCode::UnacceptableVersion
            } else if m.client.len() == 0 {
                first_step(frame) matches ConnectStepView::Refuse(a) && a.return_code
                    == ReturnCode::IdentifierRejected
            } else {
                first_step(frame) matches ConnectStepView::Authenticate {
                    username,
                    password,
                    request,
                } && username == m.username && password == m.password && request == m
            },
            _ => first_step(frame) is Close,
        },
{
}

/// What a client asked to be published is what is published when it is lost: topic, bytes,
/// quality of service and retain flag go from the request to the message.
pub proof fn law_will_from_request_to_message(
    m: connect::ConnectView,
    src_address: Seq<char>,
    reply: AuthReplyView,
    settings: clientworker::Settings,
    timer: Option<u64>,
)
    requires
        reply matches AuthReplyView::Response(r) && r.return_code == ReturnCode::Accepted,
        m.will,
    ensures
        second_step(m, src_address, reply) matches ConnectStepView::Accept { client, .. } && ({
            let worker = clientworker::WorkerView {
                client,
                status: clientworker::ConnectionStatus::Connected,
                timer,
                settings,
            };
            clientworker::last_will(worker) matches Some(p) && p.topic == m.willtopic && p.message
                == encode_utf8(m.willmsg) && p.qos == m.willqos && p.retain == m.willretain
        }),
{
}

} // verus!
