use std::io::Read;

use portable_pty::{native_pty_system, CommandBuilder, PtySize};

use pty_sidecar::handle_request;
use pty_sidecar::window_key;
use pty_sidecar::Dispatch;
use pty_sidecar::JsonValue;
use pty_sidecar::SidecarState;

#[test]
fn live_child_output_reaches_buffer() {
    let mut state = SidecarState::new();
    let mut shutdown = false;
    let params = JsonValue::Obj(vec![
        ("sessionName".to_string(), JsonValue::Str("p".to_string())),
        ("windowName".to_string(), JsonValue::Str("w".to_string())),
        ("command".to_string(), JsonValue::Str("printf hi".to_string())),
    ]);
    let d = handle_request(
        &mut state,
        &"start_window".to_string(),
        &params,
        7,
        &mut shutdown,
    );
    let (cols, rows, command) = match d {
        Dispatch::NeedLaunch {
            command, cols, rows, ..
        } => (cols, rows, command),
        other => panic!("expected a launch, got {other:?}"),
    };

    let pty_system = native_pty_system();
    let pair = pty_system
        .openpty(PtySize {
            rows,
            cols,
            pixel_width: 0,
            pixel_height: 0,
        })
        .expect("open pty");
    let mut cmd = CommandBuilder::new("/bin/sh");
    cmd.arg("-c");
    cmd.arg(command);
    let mut child = pair.slave.spawn_command(cmd).expect("spawn");
    let pid = child.process_id();
    let mut reader = pair.master.try_clone_reader().expect("reader");

    let key = window_key("p", "w");
    state.start_window_finish(&key, pid).unwrap();

    let _ = child.wait();
    drop(pair.slave);
    drop(pair.master);

    let mut buf = [0u8; 4096];
    loop {
        match reader.read(&mut buf) {
            Ok(0) => {
                state.window_eof(&key, 8).unwrap();
                break;
            }
            Ok(n) => {
                state.append_window_output(&key, &buf[..n].to_vec()).unwrap();
            }
            Err(_) => {
                state.window_eof(&key, 8).unwrap();
                break;
            }
        }
    }

    let buffer = state
        .window_buffer(&"p".to_string(), &"w".to_string())
        .unwrap();
    let text = String::from_utf8_lossy(&buffer).into_owned();
    assert!(text.starts_with("[runtime] process started (pid="));
    assert!(text.contains("hi"));
}
