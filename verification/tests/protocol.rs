use signal_apps::app::{classify_app_payload, ConsumerStep};
use signal_apps::appstate::AppMsg;
use signal_apps::protocol::{
    classify_transcript, config_app_dir, config_username, data_msg, description_of_reply, get_msg,
    query_msg, start_msg, TranscriptStep,
};

#[test]
fn query_payload_is_fixed() {
    assert_eq!(query_msg().as_str(), "{\"type\":\"query\"}");
}

#[test]
fn start_payload_carries_the_user() {
    assert_eq!(
        start_msg("+1555").as_str(),
        "{\"type\":\"start\",\"user\":\"+1555\"}"
    );
}

#[test]
fn data_payload_carries_the_text() {
    assert_eq!(
        data_msg("hi there").as_str(),
        "{\"data\":\"hi there\",\"type\":\"msg\"}"
    );
}

#[test]
fn data_payload_escapes_as_json() {
    assert_eq!(
        data_msg("a\"b\\c\nd").as_str(),
        "{\"data\":\"a\\\"b\\\\c\\nd\",\"type\":\"msg\"}"
    );
}

#[test]
fn description_is_the_value_field() {
    assert_eq!(
        description_of_reply("{\"type\":\"response\",\"value\":\"a desc\"}").as_str(),
        "a desc"
    );
    // A bare value object is accepted on the description path.
    assert_eq!(description_of_reply("{\"value\":\"bare\"}").as_str(), "bare");
}

#[test]
fn missing_or_malformed_description_is_empty() {
    assert_eq!(description_of_reply("{\"type\":\"response\"}").as_str(), "");
    assert_eq!(description_of_reply("{\"value\":7}").as_str(), "");
    assert_eq!(description_of_reply("not json").as_str(), "");
    assert_eq!(description_of_reply("").as_str(), "");
}

#[test]
fn envelope_fields_are_extracted() {
    let line = "{\"envelope\":{\"source\":\"+1555\",\"dataMessage\":{\"message\":\"startapp app\"}}}";
    let (source, content) = get_msg(line).expect("envelope parses");
    assert_eq!(source.as_str(), "+1555");
    assert_eq!(content.as_str(), "startapp app");
}

#[test]
fn incomplete_envelopes_are_rejected() {
    assert!(get_msg("{\"envelope\":{\"source\":\"+1555\"}}").is_none());
    assert!(get_msg("{\"envelope\":{\"dataMessage\":{\"message\":\"hi\"}}}").is_none());
    assert!(get_msg("{}").is_none());
    assert!(get_msg("no json at all").is_none());
    assert!(get_msg("{\"envelope\":{\"source\":7,\"dataMessage\":{\"message\":\"hi\"}}}").is_none());
}

#[test]
fn transcript_stream_ends_on_sentinel() {
    assert!(matches!(classify_transcript(None), TranscriptStep::Stop));
    assert!(matches!(
        classify_transcript(Some(String::new())),
        TranscriptStep::Stop
    ));
}

#[test]
fn transcript_lines_deliver_or_skip() {
    let line = "{\"envelope\":{\"source\":\"+1555\",\"dataMessage\":{\"message\":\"help\"}}}";
    match classify_transcript(Some(line.to_string())) {
        TranscriptStep::Deliver(source, content) => {
            assert_eq!(source.as_str(), "+1555");
            assert_eq!(content.as_str(), "help");
        }
        _ => panic!("expected a delivery"),
    }
    assert!(matches!(
        classify_transcript(Some("{\"envelope\":{}}".to_string())),
        TranscriptStep::Ignore
    ));
}

#[test]
fn empty_payload_is_the_stop_sentinel() {
    assert!(matches!(
        classify_app_payload("", "+1555", 3),
        ConsumerStep::LocalStop
    ));
}

#[test]
fn response_payload_becomes_output() {
    match classify_app_payload("{\"type\":\"response\",\"value\":\"hi\"}", "+1555", 3) {
        ConsumerStep::Deliver(AppMsg::OutMsg(user, value)) => {
            assert_eq!(user.as_str(), "+1555");
            assert_eq!(value.as_str(), "hi");
        }
        _ => panic!("expected session output"),
    }
    // A response without a string value carries empty text.
    match classify_app_payload("{\"type\":\"response\"}", "+1555", 3) {
        ConsumerStep::Deliver(AppMsg::OutMsg(_, value)) => assert_eq!(value.as_str(), ""),
        _ => panic!("expected session output"),
    }
}

#[test]
fn other_payloads_end_the_session() {
    for payload in [
        "{\"type\":\"other\"}",
        "{\"no\":\"type\"}",
        "not json",
        "{\"type\":7}",
    ] {
        match classify_app_payload(payload, "+1555", 3) {
            ConsumerStep::Deliver(AppMsg::EndMsg(user, id)) => {
                assert_eq!(user.as_str(), "+1555");
                assert_eq!(id, 3);
            }
            _ => panic!("expected an end event"),
        }
    }
}

#[test]
fn config_fields_are_read() {
    let cfg = "{\"appdir\":\"/srv/apps\",\"username\":\"+1000\"}";
    assert_eq!(config_app_dir(cfg).unwrap().as_str(), "/srv/apps");
    assert_eq!(config_username(cfg).unwrap().as_str(), "+1000");
    assert!(config_app_dir("{}").is_none());
    assert!(config_username("{\"username\":5}").is_none());
}
