//! End-to-end scenarios driven through the event model: a start sequence, a
//! session-less query, a listing, and an end followed by a cache-hit restart.
use signal_apps::appstate::{Action, AppMsg, AppState};

const KEY: &str = "+1555";

fn is_error_reply(a: &Action) -> bool {
    match a {
        Action::Reply(_, text) => text.starts_with("Could not") || text.starts_with("Malformed"),
        _ => false,
    }
}

/// Drives one start command through lookup and dial until the session is
/// live, answering each query and dial as a reachable program would.
fn start_app(state: &mut AppState, key: &str, app: &str, desc: &str) -> Vec<Action> {
    let mut all: Vec<Action> = Vec::new();
    let (acts, _) = state.process_msg(AppMsg::InMsg(
        key.to_string(),
        format!("startapp {}", app),
    ));
    let mut follow = acts;
    loop {
        let next: Vec<AppMsg> = follow
            .iter()
            .filter_map(|a| match a {
                Action::Query(_, name, src) => Some(AppMsg::DescMsg(
                    src.clone(),
                    name.clone(),
                    Some(desc.to_string()),
                )),
                Action::Dial(_, _, src, id) => Some(AppMsg::DialMsg(src.clone(), *id, true)),
                _ => None,
            })
            .collect();
        all.extend(follow);
        if next.is_empty() {
            break;
        }
        follow = next
            .into_iter()
            .flat_map(|m| state.process_msg(m).0)
            .collect();
    }
    all
}

#[test]
fn scenario_happy_path() {
    let mut state = AppState::new("apps".to_string());
    let acts = start_app(&mut state, KEY, "app", "mockapp app");
    // No error reply anywhere in the start sequence, and the start frame went
    // out on the session's socket.
    assert!(acts.iter().all(|a| !is_error_reply(a)));
    assert!(acts
        .iter()
        .any(|a| matches!(a, Action::SendFrame(_, p) if p.contains("\"type\":\"start\""))));
    let (acts, _) = state.process_msg(AppMsg::InMsg(KEY.to_string(), "currentapp".to_string()));
    match &acts[0] {
        Action::Reply(dest, text) => {
            assert_eq!(dest.as_str(), KEY);
            assert_eq!(text.as_str(), "app");
        }
        _ => panic!("expected a reply"),
    }
}

#[test]
fn scenario_no_session() {
    let mut state = AppState::new("apps".to_string());
    let (acts, _) = state.process_msg(AppMsg::InMsg(KEY.to_string(), "currentapp".to_string()));
    assert_eq!(acts.len(), 1);
    match &acts[0] {
        Action::Reply(dest, text) => {
            assert_eq!(dest.as_str(), KEY);
            assert_eq!(
                text.as_str(),
                "You have no running apps. Send `help` to learn more."
            );
        }
        _ => panic!("expected a reply"),
    }
}

#[test]
fn scenario_listing() {
    let mut state = AppState::new("apps".to_string());
    let (acts, _) = state.process_msg(AppMsg::InMsg(KEY.to_string(), "listapps".to_string()));
    assert!(matches!(&acts[0], Action::ListDir(_, _)));
    let (acts, _) = state.process_msg(AppMsg::DirMsg(
        KEY.to_string(),
        vec!["app0".to_string(), "app1".to_string()],
    ));
    assert_eq!(acts.len(), 2);
    let (acts, _) = state.process_msg(AppMsg::DescMsg(
        KEY.to_string(),
        "app0".to_string(),
        Some("desc-0".to_string()),
    ));
    assert!(acts.is_empty());
    let (acts, _) = state.process_msg(AppMsg::DescMsg(
        KEY.to_string(),
        "app1".to_string(),
        Some("desc-1".to_string()),
    ));
    match &acts[0] {
        Action::Reply(dest, text) => {
            assert_eq!(dest.as_str(), KEY);
            let lines: Vec<&str> = text.split('\n').collect();
            assert_eq!(
                lines,
                vec![
                    "You currently have the following apps installed.",
                    "To install more, please contact your admin.",
                    "app0 - desc-0",
                    "app1 - desc-1",
                ]
            );
        }
        _ => panic!("expected the listing reply"),
    }
}

#[test]
fn scenario_end_then_restart() {
    let mut state = AppState::new("apps".to_string());
    start_app(&mut state, KEY, "app", "mockapp app");
    let (acts, _) = state.process_msg(AppMsg::InMsg(KEY.to_string(), "endapp".to_string()));
    assert!(acts
        .iter()
        .any(|a| matches!(a, Action::Reply(_, t) if t == "Stopped app")));
    assert!(acts
        .iter()
        .any(|a| matches!(a, Action::StopSession(_))));
    // The description is still cached, so the restart queries nothing.
    let (acts, _) = state.process_msg(AppMsg::InMsg(
        KEY.to_string(),
        "startapp app".to_string(),
    ));
    assert!(acts.iter().all(|a| !matches!(a, Action::Query(_, _, _))));
    assert!(acts.iter().any(|a| matches!(a, Action::Dial(_, _, _, _))));
}

#[test]
fn second_start_is_rejected_while_active() {
    let mut state = AppState::new("apps".to_string());
    start_app(&mut state, KEY, "app", "mockapp app");
    let (acts, _) = state.process_msg(AppMsg::InMsg(
        KEY.to_string(),
        "startapp other".to_string(),
    ));
    assert_eq!(acts.len(), 1);
    match &acts[0] {
        Action::Reply(dest, text) => {
            assert_eq!(dest.as_str(), KEY);
            assert_eq!(
                text.as_str(),
                "You are already running an app. See `currentapp` for more info."
            );
        }
        _ => panic!("expected a reply"),
    }
    // The occupant is untouched.
    let (acts, _) = state.process_msg(AppMsg::InMsg(KEY.to_string(), "currentapp".to_string()));
    assert!(matches!(&acts[0], Action::Reply(_, t) if t == "app"));
}

#[test]
fn stale_termination_is_ignored() {
    let mut state = AppState::new("apps".to_string());
    start_app(&mut state, KEY, "app", "mockapp app");
    // The live session has id 0; a termination for a replaced id must not
    // remove it.
    let (acts, _) = state.process_msg(AppMsg::EndMsg(KEY.to_string(), 7));
    assert!(acts.is_empty());
    let (acts, _) = state.process_msg(AppMsg::InMsg(KEY.to_string(), "currentapp".to_string()));
    assert!(matches!(&acts[0], Action::Reply(_, t) if t == "app"));
    // The matching id ends it, silently removing and telling the user.
    let (acts, _) = state.process_msg(AppMsg::EndMsg(KEY.to_string(), 0));
    assert!(acts
        .iter()
        .any(|a| matches!(a, Action::Reply(_, t) if t == "Stopped app")));
}

#[test]
fn free_text_is_forwarded_to_live_session() {
    let mut state = AppState::new("apps".to_string());
    start_app(&mut state, KEY, "app", "mockapp app");
    let (acts, _) = state.process_msg(AppMsg::InMsg(KEY.to_string(), "Hello App".to_string()));
    assert_eq!(acts.len(), 1);
    match &acts[0] {
        Action::SendFrame(dest, payload) => {
            assert_eq!(dest.as_str(), KEY);
            // The payload keeps the original casing; only command matching
            // lower-cases.
            assert_eq!(
                payload.as_str(),
                "{\"data\":\"Hello App\",\"type\":\"msg\"}"
            );
        }
        _ => panic!("expected a frame write"),
    }
}

#[test]
fn program_name_keeps_its_casing() {
    let mut state = AppState::new("apps".to_string());
    // Only the command token is matched case-insensitively; the program name
    // is taken verbatim.
    let (acts, _) = state.process_msg(AppMsg::InMsg(KEY.to_string(), "StArTaPp Foo".to_string()));
    match &acts[0] {
        Action::Query(dir, name, src) => {
            assert_eq!(dir.as_str(), "apps");
            assert_eq!(name.as_str(), "Foo");
            assert_eq!(src.as_str(), KEY);
        }
        _ => panic!("expected a description query"),
    }
    let (acts, _) = state.process_msg(AppMsg::DescMsg(
        KEY.to_string(),
        "Foo".to_string(),
        Some("d".to_string()),
    ));
    let id = match &acts[0] {
        Action::Dial(_, name, _, id) => {
            assert_eq!(name.as_str(), "Foo");
            *id
        }
        _ => panic!("expected a dial"),
    };
    let (_, _) = state.process_msg(AppMsg::DialMsg(KEY.to_string(), id, true));
    let (acts, _) = state.process_msg(AppMsg::InMsg(KEY.to_string(), "currentapp".to_string()));
    assert!(matches!(&acts[0], Action::Reply(_, t) if t == "Foo"));
}

#[test]
fn upper_case_commands_match() {
    let mut state = AppState::new("apps".to_string());
    let (acts, _) = state.process_msg(AppMsg::InMsg(KEY.to_string(), "CURRENTAPP".to_string()));
    assert!(
        matches!(&acts[0], Action::Reply(_, t) if t == "You have no running apps. Send `help` to learn more.")
    );
}

#[test]
fn unknown_text_without_session_sends_help() {
    let mut state = AppState::new("apps".to_string());
    let (acts, _) = state.process_msg(AppMsg::InMsg(KEY.to_string(), "what is this".to_string()));
    assert!(matches!(&acts[0], Action::Reply(_, t) if t == "Welcome to signal-apps!"));
    let (acts, _) = state.process_msg(AppMsg::InMsg(KEY.to_string(), "help".to_string()));
    assert!(matches!(&acts[0], Action::Reply(_, t) if t == "Welcome to signal-apps!"));
}

#[test]
fn malformed_startapp_is_reported() {
    let mut state = AppState::new("apps".to_string());
    let (acts, _) = state.process_msg(AppMsg::InMsg(KEY.to_string(), "startapp".to_string()));
    assert!(
        matches!(&acts[0], Action::Reply(_, t) if t == "Malformed startapp request, Expected `startapp <app>`.")
    );
    let (acts, _) = state.process_msg(AppMsg::InMsg(
        KEY.to_string(),
        "startapp a b".to_string(),
    ));
    assert!(
        matches!(&acts[0], Action::Reply(_, t) if t == "Malformed startapp request, Expected `startapp <app>`.")
    );
}

#[test]
fn failed_lookup_aborts_the_start() {
    let mut state = AppState::new("apps".to_string());
    let (acts, _) = state.process_msg(AppMsg::InMsg(KEY.to_string(), "startapp gone".to_string()));
    assert!(matches!(&acts[0], Action::Query(_, _, _)));
    let (acts, _) = state.process_msg(AppMsg::DescMsg(KEY.to_string(), "gone".to_string(), None));
    assert!(
        matches!(&acts[0], Action::Reply(_, t) if t == "Could not find app, please contact your admin if you believe this is in error.")
    );
    // No session remains: a new start is accepted.
    let (acts, _) = state.process_msg(AppMsg::InMsg(KEY.to_string(), "startapp gone".to_string()));
    assert!(matches!(&acts[0], Action::Query(_, _, _)));
}

#[test]
fn end_racing_the_lookup_skips_the_dial() {
    let mut state = AppState::new("apps".to_string());
    let (acts, _) = state.process_msg(AppMsg::InMsg(KEY.to_string(), "startapp app".to_string()));
    assert!(matches!(&acts[0], Action::Query(_, _, _)));
    // The user ends the reserved session before the lookup returns.
    let (acts, _) = state.process_msg(AppMsg::InMsg(KEY.to_string(), "endapp".to_string()));
    assert!(matches!(&acts[0], Action::Reply(_, t) if t == "Stopped app"));
    // The late lookup result is cached but dials nothing and says nothing.
    let (acts, _) = state.process_msg(AppMsg::DescMsg(
        KEY.to_string(),
        "app".to_string(),
        Some("d".to_string()),
    ));
    assert!(acts.is_empty());
}

#[test]
fn session_output_is_forwarded_verbatim() {
    let mut state = AppState::new("apps".to_string());
    let (acts, _) = state.process_msg(AppMsg::OutMsg(KEY.to_string(), "MiXeD Case".to_string()));
    assert_eq!(acts.len(), 1);
    match &acts[0] {
        Action::Reply(dest, text) => {
            assert_eq!(dest.as_str(), KEY);
            assert_eq!(text.as_str(), "MiXeD Case");
        }
        _ => panic!("expected a reply"),
    }
}

#[test]
fn failed_dial_aborts_the_start() {
    let mut state = AppState::new("apps".to_string());
    let (acts, _) = state.process_msg(AppMsg::InMsg(KEY.to_string(), "startapp app".to_string()));
    assert!(matches!(&acts[0], Action::Query(_, _, _)));
    let (acts, _) = state.process_msg(AppMsg::DescMsg(
        KEY.to_string(),
        "app".to_string(),
        Some("d".to_string()),
    ));
    let id = match &acts[0] {
        Action::Dial(_, _, _, id) => *id,
        _ => panic!("expected a dial"),
    };
    let (acts, _) = state.process_msg(AppMsg::DialMsg(KEY.to_string(), id, false));
    assert!(
        matches!(&acts[0], Action::Reply(_, t) if t == "Could not start app, please notify your admin.")
    );
    let (acts, _) = state.process_msg(AppMsg::InMsg(KEY.to_string(), "currentapp".to_string()));
    assert!(
        matches!(&acts[0], Action::Reply(_, t) if t == "You have no running apps. Send `help` to learn more.")
    );
}
