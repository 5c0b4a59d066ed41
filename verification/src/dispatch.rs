//! The request dispatcher: one request/response exchange over a registered
//! socket.
//!
//! The dispatcher decides; the surrounding application moves the bytes.  An
//! exchange is prepared here (`prepare_dispatch`: look the identifier up and
//! encode the one frame to send), the application then sends the frame over
//! the socket and awaits the one response frame, and the outcome is handed
//! back here (`complete_dispatch`: decode the reply, or — when the socket
//! broke — drop the identifier's entry so later lookups report it absent).
//! An unregistered identifier is refused before anything is encoded, so no
//! I/O is ever attempted for it.

use vstd::prelude::*;

use crate::errors::DispatchError;
use crate::registry::Registry;
use crate::wire::RequestEnvelope;
use crate::wire::envelope_text;
use crate::wire::encode_envelope;

verus! {

#[verifier::external_type_specification]
#[verifier::external_body]
pub struct ExJsonValue(serde_json::Value);

#[verifier::external_type_specification]
#[verifier::external_body]
pub struct ExJsonError(serde_json::Error);

/// What the application reports back after attempting the exchange: the one
/// response frame's text, or a send or receive failure.
#[derive(Debug)]
pub enum ExchangeOutcome {
    /// The frame was sent and this one response frame came back.
    Reply(String),
    /// Sending or receiving failed; the socket is presumed broken.
    TransportFailed,
}

/// Whether `serde_json` accepts this text as one well-formed value.
pub uninterp spec fn reply_parses(text: Seq<char>) -> bool;

/// Relies on `serde_json::from_str`: decodes one text frame into a
/// structured value, `Err` exactly when the text is not well-formed — a
/// decision that depends on the text alone.  Nothing more is assumed of
/// it; the decoded value is carried through opaquely.
#[verifier::external_body]
fn parse_reply(text: &str) -> (r: Result<serde_json::Value, serde_json::Error>)
    ensures
        r is Ok <==> reply_parses(text@),
{
    serde_json::from_str(text)
}

/// Prepares the exchange for `id`: refuses an unregistered identifier with
/// `NotConnected` — before any frame is built, so no I/O is ever attempted
/// for it — and otherwise yields exactly the envelope's wire form, the one
/// frame to send.
pub fn prepare_dispatch<T>(reg: &Registry<T>, id: &String, env: &RequestEnvelope) -> (r: Result<
    String,
    DispatchError,
>)
    requires
        reg.wf(),
    ensures
        r is Err <==> !reg@.dom().contains(id@),
        r matches Ok(frame) ==> frame@ == envelope_text(*env),
        r matches Err(e) ==> e == DispatchError::NotConnected,
{
    if reg.contains(id) {
        Ok(encode_envelope(env))
    } else {
        Err(DispatchError::NotConnected)
    }
}

/// Completes the exchange for `id` from what the application reports.  A
/// transport failure removes the identifier's entry — later lookups find it
/// absent — and is reported as `ConnectionLost`; a reply leaves the
/// registry unchanged and is decoded, succeeding exactly when the reply is
/// well-formed, a malformed one reported as `SerializationFailure`.
pub fn complete_dispatch<T>(reg: &mut Registry<T>, id: &String, outcome: ExchangeOutcome) -> (r:
    Result<serde_json::Value, DispatchError>)
    requires
        old(reg).wf(),
    ensures
        final(reg).wf(),
        outcome is TransportFailed ==> {
            &&& final(reg)@ =~= old(reg)@.remove(id@)
            &&& r matches Err(e) && e == DispatchError::ConnectionLost
        },
        outcome is Reply ==> final(reg)@ == old(reg)@,
        outcome matches ExchangeOutcome::Reply(t) ==> (r is Ok <==> reply_parses(t@)),
        outcome is Reply ==> (r matches Err(e) ==> e == DispatchError::SerializationFailure),
{
    match outcome {
        ExchangeOutcome::Reply(text) => {
            match parse_reply(text.as_str()) {
                Ok(v) => Ok(v),
                Err(_) => Err(DispatchError::SerializationFailure),
            }
        },
        ExchangeOutcome::TransportFailed => {
            let _ = reg.remove(id);
            Err(DispatchError::ConnectionLost)
        },
    }
}

} // verus!
