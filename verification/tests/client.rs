use squillion::broker::BrokerId;
use squillion::client::clientworker::Action;
use squillion::client::clientworker::ClientEvent;
use squillion::client::clientworker::MQTTClientWorker;
use squillion::client::clientworker::TimerAction;
use squillion::client::Client;
use squillion::client::WillMessage;
use squillion::messages::codec::MQTTMessage;
use squillion::messages::MQTTMessageConnack;
use squillion::messages::MQTTMessageConnect;
use squillion::messages::MQTTMessageDisconnect;
use squillion::messages::MQTTMessagePingReq;
use squillion::messages::MQTTMessagePingResp;
use squillion::messages::MQTTMessagePuback;
use squillion::messages::MQTTMessagePublish;
use squillion::messages::ReturnCode;

fn worker(keep_alive: u16, will: bool) -> MQTTClientWorker {
    let broker = BrokerId { tenant_id: None, broker_id: "default".to_string() };
    let will = if will {
        Some(WillMessage::new("w".to_string(), vec![7], 1, true))
    } else {
        None
    };
    MQTTClientWorker::new(Client::new(
        "1.2.3.4:5".to_string(),
        broker,
        "c".to_string(),
        keep_alive,
        will,
    ))
}

fn goodbye() -> MQTTMessage {
    MQTTMessage::Disconnect(MQTTMessageDisconnect::new())
}

#[test]
fn clients_are_described() {
    let w = worker(30, true);
    let c = w.client();
    assert_eq!(c.get_id(), "c");
    assert_eq!(c.get_source_address(), "1.2.3.4:5");
    assert_eq!(c.get_keep_alive(), 30);
    assert_eq!(c.get_broker_id().broker_id, "default");
    assert!(c.has_will());
    let will = c.get_will().as_ref().unwrap();
    assert_eq!(will.get_topic(), "w");
    assert_eq!(will.get_message(), &vec![7]);
    assert_eq!(will.get_qos(), 1);
    assert!(will.get_retain());
}

#[test]
fn keep_alive_has_a_margin() {
    assert_eq!(worker(60, false).set_keepalive_timer(), Some(75_000));
    assert_eq!(worker(1, false).set_keepalive_timer(), Some(1_000));
    assert_eq!(worker(7, false).set_keepalive_timer(), Some(8_000));
    assert_eq!(worker(65535, false).set_keepalive_timer(), Some(81_918_000));
    assert_eq!(worker(0, false).set_keepalive_timer(), None);
}

#[test]
fn packets_reset_the_timer() {
    let mut w = worker(60, false);
    assert_eq!(
        w.client_recv_event(MQTTMessage::PingReq(MQTTMessagePingReq::new())).0,
        TimerAction::Keep
    );
    w.set_keepalive_timer();
    assert_eq!(
        w.client_recv_event(MQTTMessage::PingReq(MQTTMessagePingReq::new())),
        (
            TimerAction::Reset(75_000),
            Action::ToClient(MQTTMessage::PingResp(MQTTMessagePingResp::new()))
        )
    );
    let ack = MQTTMessage::PubAck(MQTTMessagePuback::new());
    assert_eq!(
        w.client_recv_event(ack.clone()),
        (TimerAction::Reset(75_000), Action::ToSession(ack))
    );
    assert_eq!(
        w.client_recv_event(goodbye()),
        (TimerAction::Remove, Action::Stop("Client Disconnect"))
    );
}

#[test]
fn strange_packets_end_the_connection() {
    let mut w = worker(0, false);
    assert_eq!(
        w.client_recv_event(MQTTMessage::Connect(MQTTMessageConnect::new())),
        (TimerAction::Keep, Action::Stop("Unknown message from client recevied"))
    );
    assert_eq!(
        w.client_rx_recv_event(MQTTMessage::Connect(MQTTMessageConnect::new())),
        Action::Stop("Unknown msg over internal channel")
    );
    assert_eq!(w.client_rx_recv_event(goodbye()), Action::Stop("Session Disconnect"));
}

#[test]
fn events_end_the_connection() {
    let mut w = worker(0, false);
    let stop = |text: &'static str| (TimerAction::Keep, Action::Stop(text));
    assert_eq!(w.handle(ClientEvent::Session(None)), stop("Session rx closed"));
    assert_eq!(w.handle(ClientEvent::ClientFault), stop("Client recv error event"));
    assert_eq!(w.handle(ClientEvent::ClientClosed), stop("Client closed"));
    assert_eq!(w.handle(ClientEvent::Timer), stop("Client Timeout"));
    assert_eq!(w.handle(ClientEvent::TimerFault), stop("Timer error event"));
    assert!(!w.goes_on(&Action::Stop("Client Timeout"), false));
    let m = MQTTMessage::Publish(MQTTMessagePublish::new());
    let (_, action) = w.handle(ClientEvent::Client(m.clone()));
    assert_eq!(action, Action::ToSession(m.clone()));
    assert!(w.goes_on(&action, false));
    assert!(!w.goes_on(&action, true));
    let (_, action) = w.handle(ClientEvent::Session(Some(m.clone())));
    assert_eq!(action, Action::ToClient(m));
}

#[test]
fn wills_are_for_lost_clients() {
    let mut w = worker(0, true);
    let will = w.send_will().unwrap();
    assert_eq!(will.get_topic(), "w");
    assert_eq!(will.get_message(), &vec![7]);
    assert_eq!(will.get_qos(), 1);
    assert!(will.get_retain());
    w.client_recv_event(goodbye());
    assert!(w.send_will().is_none());
    assert!(worker(0, false).send_will().is_none());
}

#[test]
fn refused_connections_are_closed() {
    let mut w = worker(0, true);
    let mut connack = MQTTMessageConnack::new();
    let accepted = w.client_rx_recv_event(MQTTMessage::ConnAck(connack));
    assert!(w.goes_on(&accepted, false));
    connack.set_return_code(ReturnCode::ServerUnavailable);
    let refused = w.client_rx_recv_event(MQTTMessage::ConnAck(connack));
    assert_eq!(refused, Action::ToClient(MQTTMessage::ConnAck(connack)));
    assert!(!w.goes_on(&refused, false));
    assert!(w.send_will().is_none());
    w.load_settings(Some(true), None);
}
