use pty_sidecar::handle_request;
use pty_sidecar::now_unix_seconds;
use pty_sidecar::parse_flag;
use pty_sidecar::window_key;
use pty_sidecar::Dispatch;
use pty_sidecar::JsonValue;
use pty_sidecar::SidecarState;

fn obj(fields: Vec<(&str, JsonValue)>) -> JsonValue {
    JsonValue::Obj(
        fields
            .into_iter()
            .map(|(k, v)| (k.to_string(), v))
            .collect(),
    )
}

fn s(v: &str) -> JsonValue {
    JsonValue::Str(v.to_string())
}

fn call(state: &mut SidecarState, method: &str, params: JsonValue) -> Dispatch {
    let mut shutdown = false;
    handle_request(state, &method.to_string(), &params, 1000, &mut shutdown)
}

fn reply_ok(d: Dispatch) -> JsonValue {
    match d {
        Dispatch::Done(Ok(v)) => v,
        other => panic!("expected a successful reply, got {other:?}"),
    }
}

fn reply_err(d: Dispatch) -> String {
    match d {
        Dispatch::Done(Err(e)) => e,
        _ => panic!("expected an error reply"),
    }
}

fn field(v: &JsonValue, key: &str) -> JsonValue {
    match v {
        JsonValue::Obj(fs) => fs
            .iter()
            .find(|(k, _)| k == key)
            .map(|(_, v)| clone_json(v))
            .unwrap_or(JsonValue::Null),
        _ => JsonValue::Null,
    }
}

fn clone_json(v: &JsonValue) -> JsonValue {
    match v {
        JsonValue::Null => JsonValue::Null,
        JsonValue::Bool(b) => JsonValue::Bool(*b),
        JsonValue::Int(n) => JsonValue::Int(*n),
        JsonValue::Str(x) => JsonValue::Str(x.clone()),
        JsonValue::Arr(items) => JsonValue::Arr(items.iter().map(clone_json).collect()),
        JsonValue::Obj(fs) => {
            JsonValue::Obj(fs.iter().map(|(k, v)| (k.clone(), clone_json(v))).collect())
        }
    }
}

fn start_running(state: &mut SidecarState, session: &str, window: &str, pid: u32) {
    let d = call(
        state,
        "start_window",
        obj(vec![
            ("sessionName", s(session)),
            ("windowName", s(window)),
            ("command", s("true")),
        ]),
    );
    match d {
        Dispatch::NeedLaunch { .. } => {}
        other => panic!("expected a launch, got {other:?}"),
    }
    let key = window_key(session, window);
    state.start_window_finish(&key, Some(pid)).unwrap();
}

#[test]
fn hello_reports_version() {
    let mut state = SidecarState::new();
    let v = reply_ok(call(&mut state, "hello", obj(vec![])));
    assert_eq!(field(&v, "version"), JsonValue::Int(1));
}

#[test]
fn unknown_method_named_in_error() {
    let mut state = SidecarState::new();
    let e = reply_err(call(&mut state, "bogus", obj(vec![])));
    assert_eq!(e, "unknown method: bogus");
}

#[test]
fn missing_parameter_named_in_error() {
    let mut state = SidecarState::new();
    let e = reply_err(call(
        &mut state,
        "set_session_env",
        obj(vec![("sessionName", s("p"))]),
    ));
    assert_eq!(e, "missing or invalid 'key'");
}

#[test]
fn get_or_create_session_replies_with_name() {
    let mut state = SidecarState::new();
    let v = reply_ok(call(
        &mut state,
        "get_or_create_session",
        obj(vec![("projectName", s("p"))]),
    ));
    assert_eq!(field(&v, "sessionName"), s("p"));
    assert_eq!(state.sessions.len(), 1);
}

#[test]
fn session_creation_idempotent() {
    let mut state = SidecarState::new();
    let params = || {
        obj(vec![
            ("projectName", s("p")),
            ("firstWindowName", s("w")),
        ])
    };
    reply_ok(call(&mut state, "get_or_create_session", params()));
    let sessions_after_one = state.sessions.len();
    let windows_after_one = state.windows.len();
    reply_ok(call(&mut state, "get_or_create_session", params()));
    assert_eq!(state.sessions.len(), sessions_after_one);
    assert_eq!(state.windows.len(), windows_after_one);
    assert_eq!(sessions_after_one, 1);
    assert_eq!(windows_after_one, 1);
}

#[test]
fn window_exists_after_first_window() {
    let mut state = SidecarState::new();
    reply_ok(call(
        &mut state,
        "get_or_create_session",
        obj(vec![("projectName", s("p")), ("firstWindowName", s("w"))]),
    ));
    let v = reply_ok(call(
        &mut state,
        "window_exists",
        obj(vec![("sessionName", s("p")), ("windowName", s("w"))]),
    ));
    assert_eq!(field(&v, "exists"), JsonValue::Bool(true));
    let v2 = reply_ok(call(
        &mut state,
        "window_exists",
        obj(vec![("sessionName", s("p")), ("windowName", s("nope"))]),
    ));
    assert_eq!(field(&v2, "exists"), JsonValue::Bool(false));
}

#[test]
fn latest_env_value_reaches_launch() {
    let mut state = SidecarState::new();
    reply_ok(call(
        &mut state,
        "set_session_env",
        obj(vec![("sessionName", s("p")), ("key", s("K")), ("value", s("old"))]),
    ));
    reply_ok(call(
        &mut state,
        "set_session_env",
        obj(vec![("sessionName", s("p")), ("key", s("K")), ("value", s("new"))]),
    ));
    let d = call(
        &mut state,
        "start_window",
        obj(vec![
            ("sessionName", s("p")),
            ("windowName", s("w")),
            ("command", s("true")),
        ]),
    );
    match d {
        Dispatch::NeedLaunch { env, .. } => {
            let found = env.iter().find(|(k, _)| k == "K").map(|(_, v)| v.clone());
            assert_eq!(found.as_deref(), Some("new"));
            assert_eq!(env.len(), 1);
        }
        other => panic!("expected a launch, got {other:?}"),
    }
}

#[test]
fn starting_a_running_window_changes_nothing() {
    let mut state = SidecarState::new();
    start_running(&mut state, "p", "w", 42);
    let d = call(
        &mut state,
        "start_window",
        obj(vec![
            ("sessionName", s("p")),
            ("windowName", s("w")),
            ("command", s("true")),
        ]),
    );
    let v = reply_ok(d);
    assert_eq!(field(&v, "ok"), JsonValue::Bool(true));
    let list = reply_ok(call(&mut state, "list_windows", obj(vec![])));
    match field(&list, "windows") {
        JsonValue::Arr(items) => {
            assert_eq!(items.len(), 1);
            assert_eq!(field(&items[0], "status"), s("running"));
            assert_eq!(field(&items[0], "pid"), JsonValue::Int(42));
        }
        _ => panic!("expected a window list"),
    }
}

#[test]
fn marker_line_opens_buffer() {
    let mut state = SidecarState::new();
    start_running(&mut state, "p", "w", 7);
    let v = reply_ok(call(
        &mut state,
        "get_window_buffer",
        obj(vec![("sessionName", s("p")), ("windowName", s("w"))]),
    ));
    match field(&v, "buffer") {
        JsonValue::Str(text) => {
            assert!(text.starts_with("[runtime] process started (pid=7)\n"));
        }
        _ => panic!("expected buffer text"),
    }
}

#[test]
fn buffer_honours_cap() {
    let mut state = SidecarState::new();
    state.max_buffer_bytes = 16;
    start_running(&mut state, "p", "w", 1);
    let key = window_key("p", "w");
    let data: Vec<u8> = (0..40u8).collect();
    state.append_window_output(&key, &data).unwrap();
    let v = reply_ok(call(
        &mut state,
        "get_window_buffer",
        obj(vec![("sessionName", s("p")), ("windowName", s("w"))]),
    ));
    match field(&v, "buffer") {
        JsonValue::Str(text) => {
            assert_eq!(text.as_bytes().len(), 16);
            assert_eq!(text.as_bytes(), &(24..40u8).collect::<Vec<u8>>()[..]);
        }
        _ => panic!("expected buffer text"),
    }
}

#[test]
fn lossy_buffer_replaces_invalid_bytes() {
    let mut state = SidecarState::new();
    start_running(&mut state, "p", "w", 1);
    let key = window_key("p", "w");
    state.append_window_output(&key, &vec![0xff, b'o', b'k']).unwrap();
    let v = reply_ok(call(
        &mut state,
        "get_window_buffer",
        obj(vec![("sessionName", s("p")), ("windowName", s("w"))]),
    ));
    match field(&v, "buffer") {
        JsonValue::Str(text) => {
            assert!(text.contains('\u{fffd}'));
            assert!(text.ends_with("ok"));
        }
        _ => panic!("expected buffer text"),
    }
}

#[test]
fn eof_and_error_record_exit_time() {
    let mut state = SidecarState::new();
    start_running(&mut state, "p", "w", 1);
    let key = window_key("p", "w");
    state.window_eof(&key, 1234).unwrap();
    let list = reply_ok(call(&mut state, "list_windows", obj(vec![])));
    match field(&list, "windows") {
        JsonValue::Arr(items) => {
            assert_eq!(field(&items[0], "status"), s("exited"));
            assert_eq!(field(&items[0], "exitedAt"), JsonValue::Int(1234));
        }
        _ => panic!("expected a window list"),
    }
    start_running(&mut state, "p", "w2", 2);
    let key2 = window_key("p", "w2");
    state.window_read_error(&key2, 99).unwrap();
    let list2 = reply_ok(call(
        &mut state,
        "list_windows",
        obj(vec![("sessionName", s("p"))]),
    ));
    match field(&list2, "windows") {
        JsonValue::Arr(items) => {
            let err = items
                .iter()
                .find(|it| field(it, "windowName") == s("w2"))
                .expect("second window listed");
            assert_eq!(field(err, "status"), s("error"));
            assert_eq!(field(err, "exitedAt"), JsonValue::Int(99));
        }
        _ => panic!("expected a window list"),
    }
}

#[test]
fn list_windows_filters_by_session() {
    let mut state = SidecarState::new();
    start_running(&mut state, "a", "w1", 1);
    start_running(&mut state, "b", "w2", 2);
    let all = reply_ok(call(&mut state, "list_windows", obj(vec![])));
    match field(&all, "windows") {
        JsonValue::Arr(items) => assert_eq!(items.len(), 2),
        _ => panic!("expected a window list"),
    }
    let only_a = reply_ok(call(
        &mut state,
        "list_windows",
        obj(vec![("sessionName", s("a"))]),
    ));
    match field(&only_a, "windows") {
        JsonValue::Arr(items) => {
            assert_eq!(items.len(), 1);
            assert_eq!(field(&items[0], "sessionName"), s("a"));
        }
        _ => panic!("expected a window list"),
    }
}

#[test]
fn stop_window_reports_and_repeats() {
    let mut state = SidecarState::new();
    start_running(&mut state, "p", "w", 5);
    let d = call(
        &mut state,
        "stop_window",
        obj(vec![("sessionName", s("p")), ("windowName", s("w"))]),
    );
    match d {
        Dispatch::NeedKill { session, window } => {
            assert_eq!(session, "p");
            assert_eq!(window, "w");
        }
        other => panic!("expected a kill, got {other:?}"),
    }
    state
        .stop_window_finish(&"p".to_string(), &"w".to_string(), 777)
        .unwrap();
    let list = reply_ok(call(&mut state, "list_windows", obj(vec![])));
    match field(&list, "windows") {
        JsonValue::Arr(items) => {
            assert_eq!(field(&items[0], "status"), s("exited"));
            assert_eq!(field(&items[0], "signal"), s("SIGTERM"));
            assert_eq!(field(&items[0], "exitedAt"), JsonValue::Int(777));
        }
        _ => panic!("expected a window list"),
    }
    let again = call(
        &mut state,
        "stop_window",
        obj(vec![("sessionName", s("p")), ("windowName", s("w"))]),
    );
    let v = reply_ok(again);
    assert_eq!(field(&v, "stopped"), JsonValue::Bool(false));
}

#[test]
fn type_keys_needs_writer() {
    let mut state = SidecarState::new();
    let e = reply_err(call(
        &mut state,
        "type_keys",
        obj(vec![
            ("sessionName", s("p")),
            ("windowName", s("w")),
            ("keys", s("x")),
        ]),
    ));
    assert_eq!(e, "window not found: p:w");
    reply_ok(call(
        &mut state,
        "get_or_create_session",
        obj(vec![("projectName", s("p")), ("firstWindowName", s("w"))]),
    ));
    let e2 = reply_err(call(
        &mut state,
        "type_keys",
        obj(vec![
            ("sessionName", s("p")),
            ("windowName", s("w")),
            ("keys", s("x")),
        ]),
    ));
    assert_eq!(e2, "window writer unavailable");
}

#[test]
fn type_keys_hands_bytes_over() {
    let mut state = SidecarState::new();
    start_running(&mut state, "p", "w", 1);
    let d = call(
        &mut state,
        "type_keys",
        obj(vec![
            ("sessionName", s("p")),
            ("windowName", s("w")),
            ("keys", s("ls\r")),
        ]),
    );
    match d {
        Dispatch::NeedWrite { bytes, .. } => assert_eq!(bytes, b"ls\r".to_vec()),
        other => panic!("expected a write, got {other:?}"),
    }
    let enter = call(
        &mut state,
        "send_enter",
        obj(vec![("sessionName", s("p")), ("windowName", s("w"))]),
    );
    match enter {
        Dispatch::NeedWrite { bytes, .. } => assert_eq!(bytes, vec![13]),
        other => panic!("expected a write, got {other:?}"),
    }
}

#[test]
fn resize_clamps_and_updates() {
    let mut state = SidecarState::new();
    reply_ok(call(
        &mut state,
        "get_or_create_session",
        obj(vec![("projectName", s("p")), ("firstWindowName", s("w"))]),
    ));
    let v = reply_ok(call(
        &mut state,
        "resize_window",
        obj(vec![
            ("sessionName", s("p")),
            ("windowName", s("w")),
            ("cols", JsonValue::Int(5)),
            ("rows", JsonValue::Int(9999)),
        ]),
    ));
    assert_eq!(field(&v, "ok"), JsonValue::Bool(true));
    let dims = state
        .window_dims(&"p".to_string(), &"w".to_string())
        .unwrap();
    assert_eq!(dims, (10, 400));
}

#[test]
fn frame_reply_carries_grid() {
    let mut state = SidecarState::new();
    start_running(&mut state, "p", "w", 1);
    let key = window_key("p", "w");
    state.append_window_output(&key, &b"hi".to_vec()).unwrap();
    let v = reply_ok(call(
        &mut state,
        "get_window_frame",
        obj(vec![
            ("sessionName", s("p")),
            ("windowName", s("w")),
            ("cols", JsonValue::Int(30)),
            ("rows", JsonValue::Int(10)),
        ]),
    ));
    assert_eq!(field(&v, "cols"), JsonValue::Int(30));
    assert_eq!(field(&v, "rows"), JsonValue::Int(10));
    match field(&v, "lines") {
        JsonValue::Arr(items) => assert_eq!(items.len(), 10),
        _ => panic!("expected lines"),
    }
    assert_eq!(field(&v, "cursorVisible"), JsonValue::Bool(true));
}

#[test]
fn dispose_marks_everything_exited() {
    let mut state = SidecarState::new();
    start_running(&mut state, "p", "w", 1);
    let mut shutdown = false;
    let d = handle_request(
        &mut state,
        &"dispose".to_string(),
        &obj(vec![]),
        4242,
        &mut shutdown,
    );
    let v = reply_ok(d);
    assert_eq!(field(&v, "ok"), JsonValue::Bool(true));
    assert!(shutdown);
    let list = reply_ok(call(&mut state, "list_windows", obj(vec![])));
    match field(&list, "windows") {
        JsonValue::Arr(items) => {
            assert_eq!(field(&items[0], "status"), s("exited"));
            assert_eq!(field(&items[0], "exitedAt"), JsonValue::Int(4242));
        }
        _ => panic!("expected a window list"),
    }
}

#[test]
fn clock_reads_a_recent_time() {
    let now = now_unix_seconds();
    assert!(now > 1_600_000_000);
}

#[test]
fn parse_flag_finds_following_value() {
    let args: Vec<String> = ["prog", "server", "--socket", "/tmp/x"]
        .iter()
        .map(|v| v.to_string())
        .collect();
    assert_eq!(parse_flag(&args, "--socket"), Some("/tmp/x".to_string()));
    assert_eq!(parse_flag(&args, "--method"), None);
    let tail: Vec<String> = ["prog", "--socket"].iter().map(|v| v.to_string()).collect();
    assert_eq!(parse_flag(&tail, "--socket"), None);
}

#[test]
fn csi_parameters_parse_like_integers() {
    let chars: Vec<char> = "38;5;196".chars().collect();
    let parsed = pty_sidecar::parse_params(&chars, 0, chars.len());
    assert_eq!(parsed, vec![Some(38), Some(5), Some(196)]);
    let empty: Vec<char> = Vec::new();
    assert_eq!(pty_sidecar::parse_params(&empty, 0, 0), vec![None]);
    let semi: Vec<char> = ";".chars().collect();
    assert_eq!(pty_sidecar::parse_params(&semi, 0, 1), vec![None, None]);
    let junk: Vec<char> = "9x".chars().collect();
    assert_eq!(pty_sidecar::parse_params(&junk, 0, 2), vec![None]);
    let wide: Vec<char> = "2147483648".chars().collect();
    assert_eq!(pty_sidecar::parse_params(&wide, 0, 10), vec![None]);
    let neg: Vec<char> = "-5".chars().collect();
    assert_eq!(pty_sidecar::parse_params(&neg, 0, 2), vec![Some(-5)]);
}

#[test]
fn session_scenario_end_to_end() {
    let mut state = SidecarState::new();
    let hello = reply_ok(call(&mut state, "hello", obj(vec![])));
    assert_eq!(field(&hello, "version"), JsonValue::Int(1));
    let created = reply_ok(call(
        &mut state,
        "get_or_create_session",
        obj(vec![("projectName", s("p"))]),
    ));
    assert_eq!(field(&created, "sessionName"), s("p"));
    start_running(&mut state, "p", "w", 11);
    let key = window_key("p", "w");
    state.append_window_output(&key, &b"hi".to_vec()).unwrap();
    let buffer = reply_ok(call(
        &mut state,
        "get_window_buffer",
        obj(vec![("sessionName", s("p")), ("windowName", s("w"))]),
    ));
    match field(&buffer, "buffer") {
        JsonValue::Str(text) => {
            assert!(text.starts_with("[runtime] process started (pid=11)\n"));
            assert!(text.contains("hi"));
        }
        _ => panic!("expected buffer text"),
    }
    let list = reply_ok(call(&mut state, "list_windows", obj(vec![])));
    match field(&list, "windows") {
        JsonValue::Arr(items) => {
            assert_eq!(items.len(), 1);
            let status = field(&items[0], "status");
            assert!(status == s("running") || status == s("exited"));
        }
        _ => panic!("expected a window list"),
    }
}
