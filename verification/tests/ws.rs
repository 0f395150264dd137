use porcelain::ws::{topic, MessageKind};
use porcelain::ws::{ClientMessage, Reply, Topics};

/// What the server reads from a socket's text: the JSON protocol, or nothing.
fn read(text: &str) -> Option<ClientMessage> {
    let value: serde_json::Value = serde_json::from_str(text).ok()?;
    let topics = || -> Option<Vec<String>> {
        value
            .get("topics")?
            .as_array()?
            .iter()
            .map(|t| t.as_str().map(str::to_owned))
            .collect()
    };
    match value.get("type")?.as_str()? {
        "subscribe" => Some(ClientMessage::Subscribe { topics: topics()? }),
        "unsubscribe" => Some(ClientMessage::Unsubscribe { topics: topics()? }),
        "ping" => Some(ClientMessage::Ping),
        _ => None,
    }
}

#[test]
fn assina_e_cancela_assinatura() {
    let mut topics = Topics::new();

    topics.handle(read(r#"{"type":"subscribe","topics":["job"]}"#));
    assert!(topics.contains("job"));

    topics.handle(read(r#"{"type":"unsubscribe","topics":["job"]}"#));
    assert!(!topics.contains("job"));
}

#[test]
fn control_nao_se_cancela() {
    let mut topics = Topics::new();

    topics.handle(read(r#"{"type":"unsubscribe","topics":["control"]}"#));
    assert!(topics.contains("control"), "sem control não há resync");
}

#[test]
fn ping_responde_pong_e_lixo_e_ignorado() {
    let mut topics = Topics::new();

    assert_eq!(topics.handle(read(r#"{"type":"ping"}"#)), Some(Reply::Pong));
    assert_eq!(topics.handle(read("nada disso é JSON")), None);
    assert!(topics.contains("control"));
    assert!(!topics.contains("job"));
}

#[test]
fn subscribing_twice_and_unsubscribing_once_drops_the_topic() {
    let mut topics = Topics::new();
    topics.handle(Some(ClientMessage::Subscribe { topics: vec!["job".to_owned(), "job".to_owned()] }));
    topics.handle(Some(ClientMessage::Unsubscribe { topics: vec!["job".to_owned(), "outro".to_owned()] }));
    assert!(!topics.contains("job"));
    assert!(topics.contains("control"));
}

#[test]
fn job_events_travel_under_job_and_the_protocol_under_control() {
    assert_eq!(topic(MessageKind::Pong), "control");
    assert_eq!(topic(MessageKind::Resync), "control");
    assert_eq!(topic(MessageKind::JobDone), "job");
    assert_eq!(topic(MessageKind::JobAskpassClosed), "job");
}
