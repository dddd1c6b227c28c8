//! The relay decision: what one `/receive` request leads to, and the fixed
//! responses. Each request is decided independently and statelessly; the
//! transport and the event bus around it are the host's concern.

use vstd::prelude::*;

use crate::encode::{encode_event, encode_spec};
use crate::parse::{parse_event, parse_event_spec};

verus! {

/// What `/receive` does with one request body.
pub enum RelayDecision {
    /// The body denotes a log event: publish the held message, its canonical
    /// encoding, on the bus topic, and acknowledge the request.
    Publish(String),
    /// The body denotes no log event: answer with a client error. Nothing is
    /// published.
    Reject,
}

/// Decides a `/receive` request. A body denoting a log event leads to one
/// publish of that event's canonical encoding; any other body is rejected,
/// and nothing is published for it.
pub fn relay_decide(body: &str) -> (d: RelayDecision)
    ensures
        (match parse_event_spec(body@) {
            Some(e) => d matches RelayDecision::Publish(msg) && msg@ == encode_spec(e),
            None => d is Reject,
        }),
{
    match parse_event(body) {
        Some(ev) => RelayDecision::Publish(encode_event(&ev)),
        None => RelayDecision::Reject,
    }
}

/// The bus topic every accepted record is published under.
pub fn relay_topic() -> (t: &'static str)
    ensures
        t@ == "log"@,
{
    "log"
}

/// The acknowledgement text of an accepted request.
pub open spec fn ack_text() -> Seq<char> {
    "Data received!"@
}

/// The HTTP response body for an accepted request: the fixed acknowledgement,
/// whatever the publish itself came to. A failed publish is diagnostic only;
/// the caller was promised "received", not "relayed".
pub fn receive_response(_publish_ok: bool) -> (r: String)
    ensures
        r@ == ack_text(),
{
    String::from_str("Data received!")
}

/// Response body for the health route: the literal `OK`, whatever happened
/// before and whatever else is in flight.
pub fn health_response() -> (r: &'static str)
    ensures
        r@ == "OK"@,
{
    "OK"
}

} // verus!
