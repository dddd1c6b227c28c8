use logbridge::event::LogEvent;
use logbridge::relay::{
    health_response, receive_response, relay_decide, relay_topic, RelayDecision,
};

fn event(project: &str, level: &str, payload: &str, trace: &str) -> LogEvent {
    LogEvent {
        project: project.to_string(),
        level: level.to_string(),
        payload: payload.to_string(),
        trace: trace.to_string(),
    }
}

fn assert_fields(ev: &LogEvent, project: &str, level: &str, payload: &str, trace: &str) {
    assert_eq!(ev.project, project);
    assert_eq!(ev.level, level);
    assert_eq!(ev.payload, payload);
    assert_eq!(ev.trace, trace);
}

#[test]
fn health_always_ok() {
    assert_eq!(health_response(), "OK");
    assert_eq!(health_response(), "OK");
}

#[test]
fn topic_is_log() {
    assert_eq!(relay_topic(), "log");
}

#[test]
fn ack_does_not_depend_on_publish_outcome() {
    assert_eq!(receive_response(true), "Data received!");
    assert_eq!(receive_response(false), "Data received!");
}

#[test]
fn example_request_is_acknowledged_and_relayed() {
    let body = "{\"project\":\"app\",\"level\":\"error\",\"payload\":\"boom\",\"trace\":\"at foo()\"}";
    match relay_decide(body) {
        RelayDecision::Publish(message) => {
            let back = logbridge::parse::parse_event(&message).expect("relayed message parses");
            assert_fields(&back, "app", "error", "boom", "at foo()");
        }
        RelayDecision::Reject => panic!("valid body was rejected"),
    }
}

#[test]
fn example_published_message_is_canonical() {
    let body = "{\"project\":\"app\",\"level\":\"error\",\"payload\":\"boom\",\"trace\":\"at foo()\"}";
    match relay_decide(body) {
        RelayDecision::Publish(message) => assert_eq!(message, body),
        RelayDecision::Reject => panic!("valid body was rejected"),
    }
}

#[test]
fn invalid_body_is_rejected_without_publish() {
    assert!(matches!(relay_decide("{}"), RelayDecision::Reject));
    assert!(matches!(relay_decide("not json"), RelayDecision::Reject));
    assert!(matches!(relay_decide(""), RelayDecision::Reject));
}

#[test]
fn distinct_payloads_give_distinct_messages() {
    let bodies = [
        "{\"project\":\"a\",\"level\":\"info\",\"payload\":\"one\",\"trace\":\"t\"}",
        "{\"project\":\"a\",\"level\":\"info\",\"payload\":\"two\",\"trace\":\"t\"}",
        "{\"project\":\"a\",\"level\":\"warn\",\"payload\":\"one\",\"trace\":\"t\"}",
        "{\"project\":\"b\",\"level\":\"info\",\"payload\":\"one\",\"trace\":\"t\"}",
        "{\"project\":\"a\",\"level\":\"info\",\"payload\":\"one\",\"trace\":\"u\"}",
    ];
    let mut messages: Vec<String> = Vec::new();
    for body in bodies.iter() {
        match relay_decide(body) {
            RelayDecision::Publish(message) => messages.push(message),
            RelayDecision::Reject => panic!("valid body was rejected"),
        }
    }
    for i in 0..messages.len() {
        for j in 0..messages.len() {
            if i != j {
                assert_ne!(messages[i], messages[j]);
            }
        }
    }
}

#[test]
fn relayed_message_round_trips_through_encode() {
    let ev = event("proj", "debug", "a \"quoted\" value", "line1\nline2");
    let message = logbridge::encode::encode_event(&ev);
    let back = logbridge::parse::parse_event(&message).expect("canonical encoding parses");
    assert_fields(&back, "proj", "debug", "a \"quoted\" value", "line1\nline2");
}
