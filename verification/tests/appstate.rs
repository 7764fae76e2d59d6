use signal_apps::appstate::{Action, AppMsg, AppState};
use signal_apps::protocol::config_app_dir;

const SOURCE: &str = "+15555555";

fn state_with_dir(dir: &str) -> AppState {
    AppState::new(dir.to_string())
}

fn state_from_config() -> AppState {
    let cfg = "{\"appdir\":\"/tmp/test\"}";
    let dir = config_app_dir(cfg).expect("Config is missing appdir");
    assert_eq!(dir.as_str(), "/tmp/test");
    AppState::new(dir)
}

fn expect_reply(acts: &[Action], dest: &str, text: &str) {
    assert_eq!(acts.len(), 1, "expected exactly one action");
    match &acts[0] {
        Action::Reply(d, t) => {
            assert_eq!(d.as_str(), dest);
            assert_eq!(t.as_str(), text);
        }
        _ => panic!("expected a reply action"),
    }
}

fn count_queries(acts: &[Action]) -> usize {
    acts.iter()
        .filter(|a| matches!(a, Action::Query(_, _, _)))
        .count()
}

#[test]
fn test_finish() {
    let mut state = state_from_config();
    // The shutdown sentinel stops consumption immediately, with no actions.
    let acts = state.process_queue(vec![AppMsg::Finish]);
    assert!(acts.is_empty());
}

#[test]
fn test_drain_leaves_sessions_alone() {
    let state = state_from_config();
    // Shutdown does not walk the session map: draining asks for nothing.
    assert!(state.drain().is_empty());
}

#[test]
fn test_currentapp_noapp() {
    let mut state = state_from_config();
    let acts = state.run_action(SOURCE, "currentapp");
    expect_reply(
        &acts,
        SOURCE,
        "You have no running apps. Send `help` to learn more.",
    );
}

#[test]
fn test_endapp_noapp() {
    let mut state = state_from_config();
    let acts = state.endapp(SOURCE, None);
    expect_reply(
        &acts,
        SOURCE,
        "You have no running apps. Send `help` to learn more.",
    );
    // The id-carrying variant is internal only: no output for a stale id.
    let acts = state.endapp(SOURCE, Some(1));
    assert!(acts.is_empty());
}

#[test]
fn test_listapps_empty() {
    let mut state = state_with_dir("apps");
    let acts = state.run_action(SOURCE, "listapps");
    assert_eq!(acts.len(), 1);
    match &acts[0] {
        Action::ListDir(dir, src) => {
            assert_eq!(dir.as_str(), "apps");
            assert_eq!(src.as_str(), SOURCE);
        }
        _ => panic!("expected a directory enumeration"),
    }
    let acts = state.listapps(SOURCE, vec![]);
    let expected = vec![
        "You currently have the following apps installed.",
        "To install more, please contact your admin.",
    ]
    .join("\n");
    expect_reply(&acts, SOURCE, &expected);
}

#[test]
fn test_listapps_some_apps() {
    let mut state = state_with_dir("apps");
    let names: Vec<String> = (0..2).map(|i| format!("app{}", i)).collect();
    let acts = state.listapps(SOURCE, names);
    assert_eq!(count_queries(&acts), 2);
    let acts = state.process_msg(AppMsg::DescMsg(
        SOURCE.to_string(),
        "app0".to_string(),
        Some("mockapp app0".to_string()),
    ));
    assert!(acts.0.is_empty());
    let acts = state.process_msg(AppMsg::DescMsg(
        SOURCE.to_string(),
        "app1".to_string(),
        Some("mockapp app1".to_string()),
    ));
    let expected = vec![
        "You currently have the following apps installed.",
        "To install more, please contact your admin.",
        "app0 - mockapp app0",
        "app1 - mockapp app1",
    ]
    .join("\n");
    expect_reply(&acts.0, SOURCE, &expected);
}

#[test]
fn test_listapps_cached() {
    let mut state = state_with_dir("apps");
    let names: Vec<String> = (0..2).map(|i| format!("app{}", i)).collect();
    let acts = state.listapps(SOURCE, names.clone());
    assert_eq!(count_queries(&acts), 2);
    let mut replies = 0;
    for name in &names {
        let (acts, _) = state.process_msg(AppMsg::DescMsg(
            SOURCE.to_string(),
            name.clone(),
            Some(format!("mockapp {}", name)),
        ));
        replies += acts.len();
    }
    assert_eq!(replies, 1);
    // The second listing is answered from the cache: no further query.
    let acts = state.listapps(SOURCE, names);
    assert_eq!(count_queries(&acts), 0);
    let expected = vec![
        "You currently have the following apps installed.",
        "To install more, please contact your admin.",
        "app0 - mockapp app0",
        "app1 - mockapp app1",
    ]
    .join("\n");
    expect_reply(&acts, SOURCE, &expected);
}

#[test]
fn test_startapp_sends_query() {
    let mut state = state_with_dir("apps");
    let acts = state.startapp(SOURCE, "app");
    assert_eq!(count_queries(&acts), 1);
    let (acts, _) = state.process_msg(AppMsg::DescMsg(
        SOURCE.to_string(),
        "app".to_string(),
        Some("mockapp app".to_string()),
    ));
    assert!(matches!(acts[0], Action::Dial(_, _, _, _)));
    // A second user starting the same program hits the cache: no new query.
    let acts = state.startapp("+other", "app");
    assert_eq!(count_queries(&acts), 0);
    assert!(matches!(acts[0], Action::Dial(_, _, _, _)));
}

#[test]
fn test_startapp_sends_start_msg() {
    let mut state = state_with_dir("apps");
    let acts = state.startapp(SOURCE, "app");
    assert_eq!(count_queries(&acts), 1);
    let (acts, _) = state.process_msg(AppMsg::DescMsg(
        SOURCE.to_string(),
        "app".to_string(),
        Some("mockapp app".to_string()),
    ));
    let id = match &acts[0] {
        Action::Dial(dir, name, src, id) => {
            assert_eq!(dir.as_str(), "apps");
            assert_eq!(name.as_str(), "app");
            assert_eq!(src.as_str(), SOURCE);
            *id
        }
        _ => panic!("expected a dial action"),
    };
    let (acts, _) = state.process_msg(AppMsg::DialMsg(SOURCE.to_string(), id, true));
    let expected = "{\"type\":\"start\",\"user\":\"+15555555\"}";
    match &acts[0] {
        Action::SendFrame(src, payload) => {
            assert_eq!(src.as_str(), SOURCE);
            assert_eq!(payload.as_str(), expected);
        }
        _ => panic!("expected the start frame"),
    }
}
