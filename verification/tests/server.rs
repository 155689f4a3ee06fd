use squillion::auth::AuthResponse;
use squillion::broker::BrokerId;
use squillion::config::ListenerConfig;
use squillion::config::State;
use squillion::config::set_readyz;
use squillion::messages::codec::MQTTMessage;
use squillion::messages::MQTTMessageConnect;
use squillion::messages::MQTTMessagePingReq;
use squillion::messages::ReturnCode;
use squillion::metrics::answer;
use squillion::metrics::route;
use squillion::metrics::Route;
use squillion::server::connect::connect_authenticated;
use squillion::server::connect::connect_start;
use squillion::server::connect::AuthReply;
use squillion::server::connect::ConnectStep;
use squillion::server::connect::FirstFrame;
use squillion::server::listener::describe;
use squillion::server::listener::listen_address;
use squillion::server::listener::next_handshake;
use squillion::server::listener::transport;
use squillion::server::listener::Handshake;
use squillion::server::registry::Brokers;

fn request(version: u8, client: &str) -> MQTTMessageConnect {
    let mut bytes = vec![0x10u8, 0, 0, 4, b'M', b'Q', b'T', b'T', version, 0xce, 0, 60];
    bytes.extend([0, client.len() as u8]);
    bytes.extend(client.as_bytes());
    bytes.extend([0, 1, b'w', 0, 2, 0xC3, 0xA4]);
    bytes.extend([0, 1, b'u', 0, 2, b'p', b'w']);
    bytes[1] = (bytes.len() - 2) as u8;
    let mut m = MQTTMessageConnect::new();
    m.from_bytes(&bytes).unwrap();
    m
}

fn refusal(step: ConnectStep) -> ReturnCode {
    match step {
        ConnectStep::Refuse(m) => m.get_return_code(),
        _ => panic!("not refused"),
    }
}

#[test]
fn only_connect_is_answered() {
    assert!(matches!(connect_start(FirstFrame::Timeout), ConnectStep::Close));
    assert!(matches!(connect_start(FirstFrame::Closed), ConnectStep::Close));
    assert!(matches!(connect_start(FirstFrame::Fault), ConnectStep::Close));
    let ping = MQTTMessage::PingReq(MQTTMessagePingReq::new());
    assert!(matches!(connect_start(FirstFrame::Message(ping)), ConnectStep::Close));
}

#[test]
fn bad_requests_are_refused() {
    let m = MQTTMessage::Connect(request(3, "c"));
    assert_eq!(
        refusal(connect_start(FirstFrame::Message(m))),
        ReturnCode::UnacceptableVersion
    );
    let m = MQTTMessage::Connect(request(4, ""));
    assert_eq!(
        refusal(connect_start(FirstFrame::Message(m))),
        ReturnCode::IdentifierRejected
    );
}

#[test]
fn good_requests_are_authenticated() {
    let m = MQTTMessage::Connect(request(4, "c"));
    let request = match connect_start(FirstFrame::Message(m)) {
        ConnectStep::Authenticate { username, password, request } => {
            assert_eq!(username, "u");
            assert_eq!(password, "pw");
            request
        }
        _ => panic!("not authenticated"),
    };
    let address = "1.2.3.4:5".to_string();
    assert_eq!(
        refusal(connect_authenticated(request.clone(), address.clone(), AuthReply::Unreachable)),
        ReturnCode::ServerUnavailable
    );
    assert!(matches!(
        connect_authenticated(request.clone(), address.clone(), AuthReply::Silent),
        ConnectStep::Close
    ));
    let no = AuthResponse { return_code: ReturnCode::BadUsernameOrPassword, tenant: None };
    assert_eq!(
        refusal(connect_authenticated(request.clone(), address.clone(), AuthReply::Response(no))),
        ReturnCode::BadUsernameOrPassword
    );
    let yes = AuthResponse {
        return_code: ReturnCode::Accepted,
        tenant: Some("acme".to_string()),
    };
    match connect_authenticated(request, address, AuthReply::Response(yes)) {
        ConnectStep::Accept { request, client } => {
            assert_eq!(request.get_client(), "c");
            assert_eq!(client.get_id(), "c");
            assert_eq!(client.get_keep_alive(), 60);
            assert_eq!(
                client.get_broker_id(),
                &BrokerId {
                    tenant_id: Some("acme".to_string()),
                    broker_id: "default".to_string()
                }
            );
            let will = client.get_will().as_ref().unwrap();
            assert_eq!(will.get_topic(), "w");
            assert_eq!(will.get_message(), &vec![0xC3, 0xA4]);
            assert_eq!(will.get_qos(), 1);
            assert!(!will.get_retain());
        }
        _ => panic!("not accepted"),
    }
}

#[test]
fn listeners() {
    let mut config = ListenerConfig { port: 1883, websocket: false, tlscrt: None, tlskey: None };
    let t = transport(&config);
    assert_eq!(describe(t), "TCP ");
    assert_eq!(next_handshake(t, false, false), Handshake::Mqtt);
    config.tlscrt = Some("crt".to_string());
    assert!(!transport(&config).tls);
    config.tlskey = Some("key".to_string());
    config.websocket = true;
    let t = transport(&config);
    assert_eq!(describe(t), "TCP TLS WS ");
    assert_eq!(next_handshake(t, false, false), Handshake::Tls);
    assert_eq!(next_handshake(t, true, false), Handshake::WebSocket);
    assert_eq!(next_handshake(t, true, true), Handshake::Mqtt);
    assert_eq!(listen_address(1883), "[::]:1883");
    assert_eq!(listen_address(0), "[::]:0");
    assert_eq!(listen_address(65535), "[::]:65535");
}

#[test]
fn brokers_are_started_once() {
    let mut brokers = Brokers::new();
    let one = BrokerId { tenant_id: None, broker_id: "default".to_string() };
    let two = BrokerId { tenant_id: Some("t".to_string()), broker_id: "default".to_string() };
    assert_eq!(brokers.get_broker(&one), (0, true));
    assert_eq!(brokers.get_broker(&two), (1, true));
    assert_eq!(brokers.get_broker(&one), (0, false));
    assert_eq!(brokers.get_broker(&two), (1, false));
}

#[test]
fn health_is_told() {
    let mut state = State::new();
    assert_eq!(route("/metrics"), Route::Metrics);
    assert_eq!(route("/metrics?"), Route::Metrics);
    assert_eq!(route("/livez?"), Route::Livez);
    assert_eq!(route("/healthz?"), Route::Livez);
    assert_eq!(route("/readyz?"), Route::Readyz);
    assert_eq!(route("/metrics??"), Route::NotFound);
    assert_eq!(route("/metrics?a"), Route::NotFound);
    assert_eq!(route("?"), Route::NotFound);
    assert_eq!(route("/healthz"), Route::Livez);
    assert_eq!(route("/nothing"), Route::NotFound);
    assert_eq!(answer(route("/livez"), &state), (500, Some("livez")));
    assert_eq!(answer(route("/readyz"), &state), (500, Some("readyz")));
    assert_eq!(answer(route("/"), &state), (404, Some("NOT FOUND")));
    set_readyz(&mut state);
    assert_eq!(answer(route("/livez"), &state), (200, Some("livez")));
    assert_eq!(answer(route("/readyz"), &state), (200, Some("readyz")));
    assert_eq!(answer(Route::Metrics, &state), (200, None));
}
