//! The JSON shapes of the wire protocol and of the transcript envelope.
//!
//! Reading JSON goes through serde_json behind trusted wrappers whose results
//! are named by uninterpreted spec functions; everything built on top of them
//! is verified against those names.
use vstd::prelude::*;
use vstd::string::StringExecFns;

verus! {

/// What serde_json finds for a string-valued field: `Some` of the field's
/// text when the document parses as JSON, carries that field, and the field
/// holds a string; `None` otherwise.
pub uninterp spec fn json_field(doc: Seq<char>, key: Seq<char>) -> Option<Seq<char>>;

/// What serde_json finds for a field of any JSON type, re-serialized: `Some`
/// of the field's own JSON text when the document parses and carries the
/// field; `None` otherwise.
pub uninterp spec fn json_sub(doc: Seq<char>, key: Seq<char>) -> Option<Seq<char>>;

/// The quoted, escaped JSON serialization of a text, as serde_json writes it.
pub uninterp spec fn json_quoted(s: Seq<char>) -> Seq<char>;

/// Relies on serde_json::from_str, Value::get and Value::as_str: looks up a
/// string-valued field of a JSON document.
#[verifier::external_body]
pub fn json_field_str(doc: &str, key: &str) -> (r: Option<String>)
    ensures
        match r {
            Some(v) => json_field(doc@, key@) == Some(v@),
            None => json_field(doc@, key@) is None,
        },
{
    let parsed: serde_json::Value = match serde_json::from_str(doc) {
        Ok(v) => v,
        Err(_) => return None,
    };
    match parsed.get(key) {
        Some(v) => v.as_str().map(|s| s.to_string()),
        None => None,
    }
}

/// Relies on serde_json::from_str, Value::get and Value's Display: looks up a
/// field of a JSON document and hands its value back as JSON text.
#[verifier::external_body]
pub fn json_sub_str(doc: &str, key: &str) -> (r: Option<String>)
    ensures
        match r {
            Some(v) => json_sub(doc@, key@) == Some(v@),
            None => json_sub(doc@, key@) is None,
        },
{
    let parsed: serde_json::Value = match serde_json::from_str(doc) {
        Ok(v) => v,
        Err(_) => return None,
    };
    parsed.get(key).map(|v| v.to_string())
}

/// Relies on serde_json's Display for a string value: writes the text as a
/// quoted JSON string, escaping as JSON requires.
#[verifier::external_body]
pub fn json_quote(s: &str) -> (r: String)
    ensures
        r@ == json_quoted(s@),
{
    serde_json::Value::String(s.to_string()).to_string()
}

/// The outbound description-query frame payload.
pub open spec fn query_text() -> Seq<char> {
    "{\"type\":\"query\"}"@
}

pub fn query_msg() -> (r: String)
    ensures
        r@ == query_text(),
{
    "{\"type\":\"query\"}".to_owned()
}

/// The outbound session-start frame payload, keys in serde_json's order.
pub open spec fn start_text(user: Seq<char>) -> Seq<char> {
    "{\"type\":\"start\",\"user\":"@ + json_quoted(user) + "}"@
}

pub fn start_msg(user: &str) -> (r: String)
    ensures
        r@ == start_text(user@),
{
    let mut r = "{\"type\":\"start\",\"user\":".to_owned();
    let q = json_quote(user);
    r.append(q.as_str());
    r.append("}");
    r
}

/// The outbound user-input frame payload, keys in serde_json's order.
pub open spec fn data_text(data: Seq<char>) -> Seq<char> {
    "{\"data\":"@ + json_quoted(data) + ",\"type\":\"msg\"}"@
}

pub fn data_msg(data: &str) -> (r: String)
    ensures
        r@ == data_text(data@),
{
    let mut r = "{\"data\":".to_owned();
    let q = json_quote(data);
    r.append(q.as_str());
    r.append(",\"type\":\"msg\"}");
    r
}

/// The description carried by a reply to a query: its "value" field, or empty
/// text when the reply has no string there.
pub open spec fn desc_of_reply(doc: Seq<char>) -> Seq<char> {
    match json_field(doc, "value"@) {
        Some(v) => v,
        None => Seq::<char>::empty(),
    }
}

pub fn description_of_reply(doc: &str) -> (r: String)
    ensures
        r@ == desc_of_reply(doc@),
{
    match json_field_str(doc, "value") {
        Some(v) => v,
        None => String::new(),
    }
}

/// The sender and content of a transcript line: the "source" and
/// "dataMessage.message" fields of its "envelope", when all are present.
pub open spec fn transcript_fields(doc: Seq<char>) -> Option<(Seq<char>, Seq<char>)> {
    match json_sub(doc, "envelope"@) {
        None => None,
        Some(env) => match json_field(env, "source"@) {
            None => None,
            Some(src) => match json_sub(env, "dataMessage"@) {
                None => None,
                Some(dm) => match json_field(dm, "message"@) {
                    None => None,
                    Some(m) => Some((src, m)),
                },
            },
        },
    }
}

pub fn get_msg(msg: &str) -> (r: Option<(String, String)>)
    ensures
        match r {
            Some(p) => transcript_fields(msg@) == Some((p.0@, p.1@)),
            None => transcript_fields(msg@) is None,
        },
{
    let env = match json_sub_str(msg, "envelope") {
        Some(e) => e,
        None => {
            return None;
        },
    };
    let src = match json_field_str(env.as_str(), "source") {
        Some(s) => s,
        None => {
            return None;
        },
    };
    let dm = match json_sub_str(env.as_str(), "dataMessage") {
        Some(d) => d,
        None => {
            return None;
        },
    };
    match json_field_str(dm.as_str(), "message") {
        Some(m) => Some((src, m)),
        None => None,
    }
}

/// What the main receive loop does with one pull from the transcript source.
pub enum TranscriptStep {
    /// End of stream or the shutdown sentinel: stop receiving.
    Stop,
    /// A line that carries no user message: skip it.
    Ignore,
    /// An inbound user message: (sender, content).
    Deliver(String, String),
}

/// Classifies one pull from the transcript source: end-of-stream and the
/// empty line both stop the loop; a line whose envelope carries a sender and
/// a message is delivered; anything else is skipped.
pub fn classify_transcript(m: Option<String>) -> (r: TranscriptStep)
    ensures
        ({
            match m {
                None => r is Stop,
                Some(line) => if line@.len() == 0 {
                    r is Stop
                } else {
                    match transcript_fields(line@) {
                        Some(p) => {
                            &&& r matches TranscriptStep::Deliver(src, content)
                            &&& src@ == p.0
                            &&& content@ == p.1
                        },
                        None => r is Ignore,
                    }
                },
            }
        }),
{
    match m {
        None => TranscriptStep::Stop,
        Some(line) => {
            if line.as_str().is_empty() {
                return TranscriptStep::Stop;
            }
            match get_msg(line.as_str()) {
                Some(p) => TranscriptStep::Deliver(p.0, p.1),
                None => TranscriptStep::Ignore,
            }
        },
    }
}

/// The program directory named by a config document.
pub fn config_app_dir(cfg: &str) -> (r: Option<String>)
    ensures
        match r {
            Some(v) => json_field(cfg@, "appdir"@) == Some(v@),
            None => json_field(cfg@, "appdir"@) is None,
        },
{
    json_field_str(cfg, "appdir")
}

/// The transport account named by a config document.
pub fn config_username(cfg: &str) -> (r: Option<String>)
    ensures
        match r {
            Some(v) => json_field(cfg@, "username"@) == Some(v@),
            None => json_field(cfg@, "username"@) is None,
        },
{
    json_field_str(cfg, "username")
}

} // verus!
