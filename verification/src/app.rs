//! The per-session decisions of the background tasks: what the consumer task
//! does with each payload its reader hands over. The blocking reads, the
//! 500ms cancellation poll and the socket writes live with the event loop;
//! every decision they act on is taken here.
use crate::appstate::AppMsg;
use crate::protocol::{desc_of_reply, description_of_reply, json_field, json_field_str};
use crate::strutil::str_eq;
use vstd::prelude::*;

verus! {

/// What the consumer task does with one payload from its session's channel.
pub enum ConsumerStep {
    /// The local stop sentinel: exit without reporting.
    LocalStop,
    /// Hand an event to the session manager.
    Deliver(AppMsg),
}

/// Classifies one frame payload: the empty payload is the local stop
/// sentinel; a "response" payload becomes session output carrying its value;
/// anything else, a non-string tag and non-parsing JSON included, is an
/// implicit end-of-session signal.
pub fn classify_app_payload(payload: &str, user: &str, id: u64) -> (r: ConsumerStep)
    ensures
        payload@.len() == 0 ==> r is LocalStop,
        payload@.len() != 0 && json_field(payload@, "type"@) == Some("response"@) ==> {
            &&& r matches ConsumerStep::Deliver(m)
            &&& m matches AppMsg::OutMsg(u, v)
            &&& u@ == user@
            &&& v@ == desc_of_reply(payload@)
        },
        payload@.len() != 0 && json_field(payload@, "type"@) != Some("response"@) ==> {
            &&& r matches ConsumerStep::Deliver(m)
            &&& m matches AppMsg::EndMsg(u, i)
            &&& u@ == user@
            &&& i == id
        },
{
    if payload.is_empty() {
        return ConsumerStep::LocalStop;
    }
    let is_response: bool = match json_field_str(payload, "type") {
        Some(t) => str_eq(t.as_str(), "response"),
        None => false,
    };
    if is_response {
        ConsumerStep::Deliver(
            AppMsg::OutMsg(user.to_owned(), description_of_reply(payload)),
        )
    } else {
        ConsumerStep::Deliver(AppMsg::EndMsg(user.to_owned(), id))
    }
}

} // verus!
