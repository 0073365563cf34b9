use vstd::prelude::*;

use vstd::string::StringExecFns;

use vstd::string::StrSliceExecFns;

use crate::frame::{Frame, Segment};
use crate::supervisor::{
    assoc_get, spec_env_val, spec_window, spec_window_key, state_wf, SidecarState, WindowSnapshot,
    WindowStatus,
};

verus! {

/// A JSON value as the protocol carries it: the requests' parameters and the
/// replies are built of these plain forms.
#[derive(PartialEq, Eq, Debug)]
pub enum JsonValue {
    Null,
    Bool(bool),
    Int(i64),
    Str(String),
    Arr(Vec<JsonValue>),
    Obj(Vec<(String, JsonValue)>),
}

/// The field an object holds under a key; nothing on any other form.
pub open spec fn spec_field(v: JsonValue, k: Seq<char>) -> Option<JsonValue> {
    match v {
        JsonValue::Obj(fs) => assoc_get(fs@, k),
        _ => None,
    }
}

/// The error a request with a missing or wrongly typed parameter yields.
pub open spec fn missing_msg(key: Seq<char>) -> Seq<char> {
    ("missing or invalid '")@ + key + ("'")@
}

/// Whether the object holds a string under the key.
pub open spec fn is_str_field(v: JsonValue, k: Seq<char>) -> bool {
    match spec_field(v, k) {
        Some(JsonValue::Str(_)) => true,
        _ => false,
    }
}

fn missing_err(key: &str) -> (r: String)
    ensures
        r@ == missing_msg(key@),
{
    let s = String::from_str("missing or invalid '");
    let s = s.concat(key);
    s.concat("'")
}

#[verifier::loop_isolation(false)]
fn find_field<'a>(fields: &'a Vec<(String, JsonValue)>, key: &str) -> (r: Option<&'a JsonValue>)
    ensures
        match r {
            Some(v) => assoc_get(fields@, key@) == Some(*v),
            None => assoc_get(fields@, key@) is None,
        },
{
    let key_s = key.to_owned();
    let mut i: usize = 0;
    while i < fields.len()
        invariant
            i <= fields@.len(),
            assoc_get(fields@, key@) == crate::supervisor::assoc_from(fields@, key@, i as int),
        decreases fields@.len() - i,
    {
        if fields[i].0 == key_s {
            return Some(&fields[i].1);
        }
        i = i + 1;
    }
    None
}

/// A required string parameter: its text, or the protocol's missing-parameter
/// error when it is absent or not a string.
pub fn get_str(params: &JsonValue, key: &str) -> (r: Result<String, String>)
    ensures
        match spec_field(*params, key@) {
            Some(JsonValue::Str(s)) => (match r {
                Ok(v) => v@ == s@,
                _ => false,
            }),
            _ => (match r {
                Err(e) => e@ == missing_msg(key@),
                _ => false,
            }),
        },
{
    match params {
        JsonValue::Obj(fields) => {
            match find_field(fields, key) {
                Some(v) => match v {
                    JsonValue::Str(s) => Ok(s.clone()),
                    _ => Err(missing_err(key)),
                },
                None => Err(missing_err(key)),
            }
        },
        _ => Err(missing_err(key)),
    }
}

/// An optional string parameter: its text where present as a string.
pub fn get_opt_str(params: &JsonValue, key: &str) -> (r: Option<String>)
    ensures
        match spec_field(*params, key@) {
            Some(JsonValue::Str(s)) => (match r {
                Some(v) => v@ == s@,
                _ => false,
            }),
            _ => r is None,
        },
{
    match params {
        JsonValue::Obj(fields) => {
            match find_field(fields, key) {
                Some(v) => match v {
                    JsonValue::Str(s) => Some(s.clone()),
                    _ => None,
                },
                None => None,
            }
        },
        _ => None,
    }
}

/// What an optional dimension parameter reads: a non-negative whole number,
/// clamped into [10, 400].
pub open spec fn spec_opt_u16(v: JsonValue, k: Seq<char>) -> Option<u16> {
    match spec_field(v, k) {
        Some(JsonValue::Int(n)) => if n >= 0 {
            if n < 10 {
                Some(10u16)
            } else if n > 400 {
                Some(400u16)
            } else {
                Some(n as u16)
            }
        } else {
            None
        },
        _ => None,
    }
}

/// An optional dimension parameter, clamped into [10, 400].
pub fn get_opt_u16(params: &JsonValue, key: &str) -> (r: Option<u16>)
    ensures
        r == spec_opt_u16(*params, key@),
{
    match params {
        JsonValue::Obj(fields) => {
            match find_field(fields, key) {
                Some(v) => match v {
                    JsonValue::Int(n) => {
                        let n = *n;
                        if n < 0 {
                            None
                        } else if n < 10 {
                            Some(10)
                        } else if n > 400 {
                            Some(400)
                        } else {
                            Some(n as u16)
                        }
                    },
                    _ => None,
                },
                None => None,
            }
        },
        _ => None,
    }
}

/// A dimension parameter with a default, clamped into [10, 400] when given.
pub fn get_u16(params: &JsonValue, key: &str, default: u16) -> (r: u16)
    ensures
        r == (match spec_opt_u16(*params, key@) {
            Some(v) => v,
            None => default,
        }),
{
    match get_opt_u16(params, key) {
        Some(v) => v,
        None => default,
    }
}

/// The wire word of a window status.
pub open spec fn status_chars(st: WindowStatus) -> Seq<char> {
    match st {
        WindowStatus::Idle => ("idle")@,
        WindowStatus::Starting => ("starting")@,
        WindowStatus::Running => ("running")@,
        WindowStatus::Exited => ("exited")@,
        WindowStatus::Error => ("error")@,
    }
}

/// The wire word of a window status.
pub fn status_text(st: WindowStatus) -> (r: String)
    ensures
        r@ == status_chars(st),
{
    match st {
        WindowStatus::Idle => String::from_str("idle"),
        WindowStatus::Starting => String::from_str("starting"),
        WindowStatus::Running => String::from_str("running"),
        WindowStatus::Exited => String::from_str("exited"),
        WindowStatus::Error => String::from_str("error"),
    }
}

/// The reply `{ok: true}`.
pub open spec fn is_ok_true(v: JsonValue) -> bool {
    match v {
        JsonValue::Obj(fs) => fs@.len() == 1 && fs@[0].0@ == ("ok")@ && fs@[0].1 == JsonValue::Bool(
            true,
        ),
        _ => false,
    }
}

pub fn ok_true() -> (v: JsonValue)
    ensures
        is_ok_true(v),
{
    let mut fs: Vec<(String, JsonValue)> = Vec::new();
    fs.push((String::from_str("ok"), JsonValue::Bool(true)));
    JsonValue::Obj(fs)
}

/// An object of one field.
pub open spec fn is_obj1(v: JsonValue, k: Seq<char>, inner: JsonValue) -> bool {
    match v {
        JsonValue::Obj(fs) => fs@.len() == 1 && fs@[0].0@ == k && fs@[0].1 == inner,
        _ => false,
    }
}

fn obj1(key: &str, inner: JsonValue) -> (v: JsonValue)
    ensures
        is_obj1(v, key@, inner),
{
    let mut fs: Vec<(String, JsonValue)> = Vec::new();
    fs.push((String::from_str(key), inner));
    JsonValue::Obj(fs)
}

/// How a snapshot is serialised: its eight wire fields in order, absent values
/// as `null`.
pub open spec fn is_snapshot_json(v: JsonValue, s: WindowSnapshot) -> bool {
    match v {
        JsonValue::Obj(fs) => {
            &&& fs@.len() == 8
            &&& fs@[0].0@ == ("sessionName")@
            &&& (match fs@[0].1 {
                JsonValue::Str(x) => x@ == s.session_name@,
                _ => false,
            })
            &&& fs@[1].0@ == ("windowName")@
            &&& (match fs@[1].1 {
                JsonValue::Str(x) => x@ == s.window_name@,
                _ => false,
            })
            &&& fs@[2].0@ == ("status")@
            &&& (match fs@[2].1 {
                JsonValue::Str(x) => x@ == status_chars(s.status),
                _ => false,
            })
            &&& fs@[3].0@ == ("pid")@
            &&& fs@[3].1 == (match s.pid {
                Some(p) => JsonValue::Int(p as i64),
                None => JsonValue::Null,
            })
            &&& fs@[4].0@ == ("startedAt")@
            &&& fs@[4].1 == (match s.started_at {
                Some(t) => JsonValue::Int(t),
                None => JsonValue::Null,
            })
            &&& fs@[5].0@ == ("exitedAt")@
            &&& fs@[5].1 == (match s.exited_at {
                Some(t) => JsonValue::Int(t),
                None => JsonValue::Null,
            })
            &&& fs@[6].0@ == ("exitCode")@
            &&& fs@[6].1 == (match s.exit_code {
                Some(c) => JsonValue::Int(c as i64),
                None => JsonValue::Null,
            })
            &&& fs@[7].0@ == ("signal")@
            &&& (match (fs@[7].1, s.signal) {
                (JsonValue::Str(x), Some(sg)) => x@ == sg@,
                (JsonValue::Null, None) => true,
                _ => false,
            })
        },
        _ => false,
    }
}

/// Serialise one snapshot for `list_windows`.
pub fn snapshot_json(s: &WindowSnapshot) -> (v: JsonValue)
    ensures
        is_snapshot_json(v, *s),
{
    let mut fs: Vec<(String, JsonValue)> = Vec::new();
    fs.push((String::from_str("sessionName"), JsonValue::Str(s.session_name.clone())));
    fs.push((String::from_str("windowName"), JsonValue::Str(s.window_name.clone())));
    fs.push((String::from_str("status"), JsonValue::Str(status_text(s.status))));
    fs.push(
        (
            String::from_str("pid"),
            match s.pid {
                Some(p) => JsonValue::Int(p as i64),
                None => JsonValue::Null,
            },
        ),
    );
    fs.push(
        (
            String::from_str("startedAt"),
            match s.started_at {
                Some(t) => JsonValue::Int(t),
                None => JsonValue::Null,
            },
        ),
    );
    fs.push(
        (
            String::from_str("exitedAt"),
            match s.exited_at {
                Some(t) => JsonValue::Int(t),
                None => JsonValue::Null,
            },
        ),
    );
    fs.push(
        (
            String::from_str("exitCode"),
            match s.exit_code {
                Some(c) => JsonValue::Int(c as i64),
                None => JsonValue::Null,
            },
        ),
    );
    fs.push(
        (
            String::from_str("signal"),
            match &s.signal {
                Some(sg) => JsonValue::Str(sg.clone()),
                None => JsonValue::Null,
            },
        ),
    );
    JsonValue::Obj(fs)
}

/// How one segment is serialised: `text`, then `fg` and `bg` where coloured,
/// then each true flag, in that order; absent options and false flags leave no
/// field behind.
pub open spec fn is_segment_json(v: JsonValue, seg: Segment) -> bool {
    match v {
        JsonValue::Obj(fs) => {
            let nfg: int = if seg.fg is Some {
                1
            } else {
                0
            };
            let nbg: int = if seg.bg is Some {
                1
            } else {
                0
            };
            let nb: int = if seg.bold {
                1
            } else {
                0
            };
            let ni: int = if seg.italic {
                1
            } else {
                0
            };
            let nu: int = if seg.underline {
                1
            } else {
                0
            };
            &&& fs@.len() == 1 + nfg + nbg + nb + ni + nu
            &&& fs@[0].0@ == ("text")@
            &&& (match fs@[0].1 {
                JsonValue::Str(t) => t@ == seg.text@,
                _ => false,
            })
            &&& (match seg.fg {
                Some(c) => fs@[1].0@ == ("fg")@ && (match fs@[1].1 {
                    JsonValue::Str(x) => x@ == c@,
                    _ => false,
                }),
                None => true,
            })
            &&& (match seg.bg {
                Some(c) => fs@[1 + nfg].0@ == ("bg")@ && (match fs@[1 + nfg].1 {
                    JsonValue::Str(x) => x@ == c@,
                    _ => false,
                }),
                None => true,
            })
            &&& (seg.bold ==> fs@[1 + nfg + nbg].0@ == ("bold")@ && fs@[1 + nfg + nbg].1
                == JsonValue::Bool(true))
            &&& (seg.italic ==> fs@[1 + nfg + nbg + nb].0@ == ("italic")@ && fs@[1 + nfg + nbg
                + nb].1 == JsonValue::Bool(true))
            &&& (seg.underline ==> fs@[1 + nfg + nbg + nb + ni].0@ == ("underline")@ && fs@[1 + nfg
                + nbg + nb + ni].1 == JsonValue::Bool(true))
        },
        _ => false,
    }
}

fn segment_json(seg: &Segment) -> (v: JsonValue)
    ensures
        is_segment_json(v, *seg),
{
    let mut fs: Vec<(String, JsonValue)> = Vec::new();
    fs.push((String::from_str("text"), JsonValue::Str(seg.text.clone())));
    match &seg.fg {
        Some(c) => fs.push((String::from_str("fg"), JsonValue::Str(c.clone()))),
        None => {},
    }
    match &seg.bg {
        Some(c) => fs.push((String::from_str("bg"), JsonValue::Str(c.clone()))),
        None => {},
    }
    if seg.bold {
        fs.push((String::from_str("bold"), JsonValue::Bool(true)));
    }
    if seg.italic {
        fs.push((String::from_str("italic"), JsonValue::Bool(true)));
    }
    if seg.underline {
        fs.push((String::from_str("underline"), JsonValue::Bool(true)));
    }
    JsonValue::Obj(fs)
}

/// How a frame is serialised: the clamped dimensions, one `{segments: [...]}`
/// object per row, and the cursor.
pub open spec fn is_frame_json(v: JsonValue, f: Frame) -> bool {
    match v {
        JsonValue::Obj(fs) => {
            &&& fs@.len() == 6
            &&& fs@[0].0@ == ("cols")@ && fs@[0].1 == JsonValue::Int(f.cols as i64)
            &&& fs@[1].0@ == ("rows")@ && fs@[1].1 == JsonValue::Int(f.rows as i64)
            &&& fs@[2].0@ == ("lines")@
            &&& (match fs@[2].1 {
                JsonValue::Arr(lines) => {
                    &&& lines@.len() == f.lines@.len()
                    &&& forall|r: int|
                        0 <= r < lines@.len() ==> is_obj1_segments(
                            #[trigger] lines@[r],
                            f.lines@[r].segments@,
                        )
                },
                _ => false,
            })
            &&& fs@[3].0@ == ("cursorRow")@ && fs@[3].1 == JsonValue::Int(f.cursor_row as i64)
            &&& fs@[4].0@ == ("cursorCol")@ && fs@[4].1 == JsonValue::Int(f.cursor_col as i64)
            &&& fs@[5].0@ == ("cursorVisible")@ && fs@[5].1 == JsonValue::Bool(f.cursor_visible)
        },
        _ => false,
    }
}

/// One serialised row: `{segments: [...]}` with one entry per segment.
pub open spec fn is_obj1_segments(v: JsonValue, segs: Seq<Segment>) -> bool {
    match v {
        JsonValue::Obj(fs) => fs@.len() == 1 && fs@[0].0@ == ("segments")@ && (match fs@[0].1 {
            JsonValue::Arr(arr) => arr@.len() == segs.len() && forall|k: int|
                0 <= k < segs.len() ==> is_segment_json(#[trigger] arr@[k], segs[k]),
            _ => false,
        }),
        _ => false,
    }
}

/// Serialise a frame as `get_window_frame` replies with it.
#[verifier::loop_isolation(false)]
pub fn frame_to_json(f: &Frame) -> (v: JsonValue)
    requires
        f.cols <= 0x7fffffff,
        f.rows <= 0x7fffffff,
        f.cursor_row <= 0x7fffffff,
        f.cursor_col <= 0x7fffffff,
    ensures
        is_frame_json(v, *f),
{
    let mut lines: Vec<JsonValue> = Vec::new();
    let mut r: usize = 0;
    while r < f.lines.len()
        invariant
            r <= f.lines@.len(),
            lines@.len() == r,
            forall|t: int|
                0 <= t < r ==> is_obj1_segments(#[trigger] lines@[t], f.lines@[t].segments@),
        decreases f.lines@.len() - r,
    {
        let row = &f.lines[r];
        let mut segs: Vec<JsonValue> = Vec::new();
        let mut k: usize = 0;
        while k < row.segments.len()
            invariant
                k <= row.segments@.len(),
                segs@.len() == k,
                forall|t: int|
                    0 <= t < k ==> is_segment_json(#[trigger] segs@[t], row.segments@[t]),
            decreases row.segments@.len() - k,
        {
            segs.push(segment_json(&row.segments[k]));
            k = k + 1;
        }
        lines.push(obj1("segments", JsonValue::Arr(segs)));
        r = r + 1;
    }
    let mut fs: Vec<(String, JsonValue)> = Vec::new();
    fs.push((String::from_str("cols"), JsonValue::Int(f.cols as i64)));
    fs.push((String::from_str("rows"), JsonValue::Int(f.rows as i64)));
    fs.push((String::from_str("lines"), JsonValue::Arr(lines)));
    fs.push((String::from_str("cursorRow"), JsonValue::Int(f.cursor_row as i64)));
    fs.push((String::from_str("cursorCol"), JsonValue::Int(f.cursor_col as i64)));
    fs.push((String::from_str("cursorVisible"), JsonValue::Bool(f.cursor_visible)));
    JsonValue::Obj(fs)
}

/// The characters a byte string decodes to, with invalid sequences replaced:
/// what `String::from_utf8_lossy` yields, a function of the bytes alone.
pub uninterp spec fn lossy_decode(b: Seq<u8>) -> Seq<char>;

/// Relies on `String::from_utf8_lossy`: UTF-8 decoding with U+FFFD for invalid
/// sequences, depending on the bytes alone.
#[verifier::external_body]
pub fn utf8_lossy(b: &Vec<u8>) -> (s: String)
    ensures
        s@ == lossy_decode(b@),
{
    String::from_utf8_lossy(b).into_owned()
}

/// Relies on `std::time::SystemTime`: the wall clock's seconds since the Unix
/// epoch, and zero when the clock reads before the epoch; never negative.
#[verifier::external_body]
pub fn now_unix_seconds() -> (r: i64)
    ensures
        r >= 0,
{
    match std::time::SystemTime::now().duration_since(std::time::UNIX_EPOCH) {
        Ok(d) => {
            let secs = d.as_secs();
            if secs > i64::MAX as u64 {
                i64::MAX
            } else {
                secs as i64
            }
        },
        Err(_) => 0,
    }
}

/// What the dispatcher asks of the caller next: a finished reply, or one
/// outside action (a PTY write, a resize, a launch, a kill) whose outcome the
/// caller then records.
#[derive(Debug)]
pub enum Dispatch {
    Done(Result<JsonValue, String>),
    NeedWrite { session: String, window: String, bytes: Vec<u8>, enter: bool },
    NeedResize { session: String, window: String, cols: u16, rows: u16 },
    NeedLaunch {
        session: String,
        window: String,
        command: String,
        env: Vec<(String, String)>,
        cols: u16,
        rows: u16,
    },
    NeedKill { session: String, window: String },
}

/// The error an unknown method yields.
pub open spec fn unknown_method_msg(m: Seq<char>) -> Seq<char> {
    ("unknown method: ")@ + m
}

fn is_method(m: &String, lit: &str) -> (r: bool)
    ensures
        r == (m@ == lit@),
{
    let s = lit.to_owned();
    *m == s
}

/// Route one request to its handler. Pure requests are answered at once; the
/// ones that touch a process come back as the action to perform. Parameters
/// are validated first, each missing one named in its own error; an unknown
/// method is named in its error; `dispose` marks every window exited and asks
/// for shutdown.
#[verifier::rlimit(100)]
pub fn handle_request(
    state: &mut SidecarState,
    method: &String,
    params: &JsonValue,
    now: i64,
    should_shutdown: &mut bool,
) -> (r: Dispatch)
    requires
        state_wf(*old(state)),
    ensures
        state_wf(*final(state)),
        *final(should_shutdown) == (*old(should_shutdown) || method@ == ("dispose")@),
        method@ == ("hello")@ ==> *final(state) == *old(state) && (match r {
            Dispatch::Done(Ok(v)) => is_obj1(v, ("version")@, JsonValue::Int(1)),
            _ => false,
        }),
        method@ == ("get_or_create_session")@ ==> (match spec_field(*params, ("projectName")@) {
            Some(JsonValue::Str(p)) => {
                &&& assoc_get(final(state).sessions@, p@) is Some
                &&& (assoc_get(old(state).sessions@, p@) is Some ==> final(state).sessions == old(
                    state,
                ).sessions)
                &&& (match spec_field(*params, ("firstWindowName")@) {
                    Some(JsonValue::Str(w)) => ({
                        let k = spec_window_key(p@, w@);
                        &&& spec_window(*final(state), k) is Some
                        &&& (spec_window(*old(state), k) is Some ==> final(state).windows == old(
                            state,
                        ).windows)
                        &&& (spec_window(*old(state), k) is None ==> (match spec_window(
                            *final(state),
                            k,
                        ) {
                            Some(nr) => crate::supervisor::is_idle_record(nr, p@, w@),
                            None => false,
                        }))
                        &&& (forall|s2: Seq<char>|
                            s2 != k ==> #[trigger] spec_window(*final(state), s2) == spec_window(
                                *old(state),
                                s2,
                            ))
                    }),
                    _ => final(state).windows == old(state).windows,
                })
                &&& (match r {
                    Dispatch::Done(Ok(JsonValue::Obj(fs))) => fs@.len() == 1 && fs@[0].0@ == (
                    "sessionName")@ && (match fs@[0].1 {
                        JsonValue::Str(x) => x@ == p@,
                        _ => false,
                    }),
                    _ => false,
                })
            },
            _ => *final(state) == *old(state) && (match r {
                Dispatch::Done(Err(e)) => e@ == missing_msg(("projectName")@),
                _ => false,
            }),
        }),
        method@ == ("set_session_env")@ ==> (match (
            spec_field(*params, ("sessionName")@),
            spec_field(*params, ("key")@),
            spec_field(*params, ("value")@),
        ) {
            (Some(JsonValue::Str(s)), Some(JsonValue::Str(k)), Some(JsonValue::Str(v))) => {
                &&& spec_env_val(*final(state), s@, k@) == Some(v@)
                &&& (forall|k2: Seq<char>|
                    k2 != k@ ==> #[trigger] spec_env_val(*final(state), s@, k2) == spec_env_val(
                        *old(state),
                        s@,
                        k2,
                    ))
                &&& final(state).windows == old(state).windows
                &&& (match r {
                    Dispatch::Done(Ok(v2)) => is_ok_true(v2),
                    _ => false,
                })
            },
            _ => *final(state) == *old(state) && (match r {
                Dispatch::Done(Err(e)) => e@ == missing_msg(
                    if !is_str_field(*params, ("sessionName")@) {
                        ("sessionName")@
                    } else if !is_str_field(*params, ("key")@) {
                        ("key")@
                    } else {
                        ("value")@
                    },
                ),
                _ => false,
            }),
        }),
        method@ == ("window_exists")@ ==> *final(state) == *old(state) && (match (
            spec_field(*params, ("sessionName")@),
            spec_field(*params, ("windowName")@),
        ) {
            (Some(JsonValue::Str(s)), Some(JsonValue::Str(w))) => (match r {
                Dispatch::Done(Ok(v)) => is_obj1(
                    v,
                    ("exists")@,
                    JsonValue::Bool(spec_window(*old(state), spec_window_key(s@, w@)) is Some),
                ),
                _ => false,
            }),
            _ => (match r {
                Dispatch::Done(Err(e)) => e@ == missing_msg(
                    if !is_str_field(*params, ("sessionName")@) {
                        ("sessionName")@
                    } else {
                        ("windowName")@
                    },
                ),
                _ => false,
            }),
        }),
        method@ == ("start_window")@ ==> (match (
            spec_field(*params, ("sessionName")@),
            spec_field(*params, ("windowName")@),
            spec_field(*params, ("command")@),
        ) {
            (Some(JsonValue::Str(s)), Some(JsonValue::Str(w)), Some(JsonValue::Str(c))) => {
                let k = spec_window_key(s@, w@);
                match spec_window(*old(state), k) {
                    Some(prev) => {
                        if prev.has_child && prev.snapshot.status == WindowStatus::Running {
                            &&& *final(state) == *old(state)
                            &&& (match r {
                                Dispatch::Done(Ok(v)) => is_ok_true(v),
                                _ => false,
                            })
                        } else {
                            &&& (match spec_window(*final(state), k) {
                                Some(nr) => nr.snapshot.status == WindowStatus::Starting
                                    && nr.snapshot.started_at == Some(now) && nr.buffer@.len()
                                    == 0,
                                None => false,
                            })
                            &&& (match r {
                                Dispatch::NeedLaunch { session, window, command, env, cols, rows } => {
                                    &&& session@ == s@
                                    &&& window@ == w@
                                    &&& command@ == c@
                                    &&& cols == prev.snapshot.cols
                                    &&& rows == prev.snapshot.rows
                                    &&& env@ == (match assoc_get(old(state).sessions@, s@) {
                                        Some(e) => e@,
                                        None => Seq::<(String, String)>::empty(),
                                    })
                                },
                                _ => false,
                            })
                        }
                    },
                    None => {
                        &&& (match spec_window(*final(state), k) {
                            Some(nr) => nr.snapshot.status == WindowStatus::Starting
                                && nr.snapshot.started_at == Some(now) && nr.buffer@.len() == 0
                                && nr.snapshot.cols == 140 && nr.snapshot.rows == 40,
                            None => false,
                        })
                        &&& (match r {
                            Dispatch::NeedLaunch { session, window, command, env, cols, rows } => {
                                &&& session@ == s@
                                &&& window@ == w@
                                &&& command@ == c@
                                &&& cols == 140
                                &&& rows == 40
                            },
                            _ => false,
                        })
                    },
                }
            },
            _ => *final(state) == *old(state) && (match r {
                Dispatch::Done(Err(e)) => e@ == missing_msg(
                    if !is_str_field(*params, ("sessionName")@) {
                        ("sessionName")@
                    } else if !is_str_field(*params, ("windowName")@) {
                        ("windowName")@
                    } else {
                        ("command")@
                    },
                ),
                _ => false,
            }),
        }),
        method@ == ("type_keys")@ ==> *final(state) == *old(state) && (match (
            spec_field(*params, ("sessionName")@),
            spec_field(*params, ("windowName")@),
            spec_field(*params, ("keys")@),
        ) {
            (Some(JsonValue::Str(s)), Some(JsonValue::Str(w)), Some(JsonValue::Str(ks))) => {
                let k = spec_window_key(s@, w@);
                match spec_window(*old(state), k) {
                    None => (match r {
                        Dispatch::Done(Err(e)) => e@ == crate::supervisor::not_found_msg(k),
                        _ => false,
                    }),
                    Some(rec) => {
                        if rec.has_writer {
                            match r {
                                Dispatch::NeedWrite { session, window, bytes, enter } => session@
                                    == s@ && window@ == w@ && bytes@ == vstd::utf8::encode_utf8(
                                    ks@,
                                ) && !enter,
                                _ => false,
                            }
                        } else {
                            match r {
                                Dispatch::Done(Err(e)) => e@ == ("window writer unavailable")@,
                                _ => false,
                            }
                        }
                    },
                }
            },
            _ => (match r {
                Dispatch::Done(Err(e)) => e@ == missing_msg(
                    if !is_str_field(*params, ("sessionName")@) {
                        ("sessionName")@
                    } else if !is_str_field(*params, ("windowName")@) {
                        ("windowName")@
                    } else {
                        ("keys")@
                    },
                ),
                _ => false,
            }),
        }),
        method@ == ("send_enter")@ ==> *final(state) == *old(state) && (match (
            spec_field(*params, ("sessionName")@),
            spec_field(*params, ("windowName")@),
        ) {
            (Some(JsonValue::Str(s)), Some(JsonValue::Str(w))) => {
                let k = spec_window_key(s@, w@);
                match spec_window(*old(state), k) {
                    None => (match r {
                        Dispatch::Done(Err(e)) => e@ == crate::supervisor::not_found_msg(k),
                        _ => false,
                    }),
                    Some(rec) => {
                        if rec.has_writer {
                            match r {
                                Dispatch::NeedWrite { session, window, bytes, enter } => session@
                                    == s@ && window@ == w@ && bytes@ == seq![13u8] && enter,
                                _ => false,
                            }
                        } else {
                            match r {
                                Dispatch::Done(Err(e)) => e@ == ("window writer unavailable")@,
                                _ => false,
                            }
                        }
                    },
                }
            },
            _ => (match r {
                Dispatch::Done(Err(e)) => e@ == missing_msg(
                    if !is_str_field(*params, ("sessionName")@) {
                        ("sessionName")@
                    } else {
                        ("windowName")@
                    },
                ),
                _ => false,
            }),
        }),
        method@ == ("resize_window")@ ==> (match (
            spec_field(*params, ("sessionName")@),
            spec_field(*params, ("windowName")@),
        ) {
            (Some(JsonValue::Str(s)), Some(JsonValue::Str(w))) => {
                let k = spec_window_key(s@, w@);
                let cols = (match spec_opt_u16(*params, ("cols")@) {
                    Some(v) => v,
                    None => 140u16,
                });
                let rows = (match spec_opt_u16(*params, ("rows")@) {
                    Some(v) => v,
                    None => 40u16,
                });
                match spec_window(*old(state), k) {
                    None => *final(state) == *old(state) && (match r {
                        Dispatch::Done(Err(e)) => e@ == crate::supervisor::not_found_msg(k),
                        _ => false,
                    }),
                    Some(prev) => {
                        &&& (match spec_window(*final(state), k) {
                            Some(nr) => nr.snapshot == (WindowSnapshot {
                                cols: cols,
                                rows: rows,
                                ..prev.snapshot
                            }) && nr.buffer == prev.buffer && nr.has_writer == prev.has_writer
                                && nr.has_master == prev.has_master && nr.has_child
                                == prev.has_child,
                            None => false,
                        })
                        &&& (forall|s2: Seq<char>|
                            s2 != k ==> #[trigger] spec_window(*final(state), s2) == spec_window(
                                *old(state),
                                s2,
                            ))
                        &&& (if prev.has_master {
                            match r {
                                Dispatch::NeedResize { session, window, cols: c2, rows: r2 } =>
                                    session@ == s@ && window@ == w@ && c2 == cols && r2 == rows,
                                _ => false,
                            }
                        } else {
                            match r {
                                Dispatch::Done(Ok(v)) => is_ok_true(v),
                                _ => false,
                            }
                        })
                    },
                }
            },
            _ => *final(state) == *old(state) && (match r {
                Dispatch::Done(Err(e)) => e@ == missing_msg(
                    if !is_str_field(*params, ("sessionName")@) {
                        ("sessionName")@
                    } else {
                        ("windowName")@
                    },
                ),
                _ => false,
            }),
        }),
        method@ == ("list_windows")@ ==> *final(state) == *old(state) && (match r {
            Dispatch::Done(Ok(JsonValue::Obj(fs))) => {
                let f = (match spec_field(*params, ("sessionName")@) {
                    Some(JsonValue::Str(x)) => Some(x@),
                    _ => None,
                });
                let snaps = crate::supervisor::snaps_from(old(state).windows@, f, 0);
                &&& fs@.len() == 1
                &&& fs@[0].0@ == ("windows")@
                &&& (match fs@[0].1 {
                    JsonValue::Arr(items) => items@.len() == snaps.len() && (forall|i: int|
                        0 <= i < snaps.len() ==> is_snapshot_json(#[trigger] items@[i], snaps[i])),
                    _ => false,
                })
            },
            _ => false,
        }),
        method@ == ("get_window_buffer")@ ==> *final(state) == *old(state) && (match (
            spec_field(*params, ("sessionName")@),
            spec_field(*params, ("windowName")@),
        ) {
            (Some(JsonValue::Str(s)), Some(JsonValue::Str(w))) => {
                let k = spec_window_key(s@, w@);
                match spec_window(*old(state), k) {
                    None => (match r {
                        Dispatch::Done(Err(e)) => e@ == crate::supervisor::not_found_msg(k),
                        _ => false,
                    }),
                    Some(rec) => (match r {
                        Dispatch::Done(Ok(v)) => (match v {
                            JsonValue::Obj(fs) => fs@.len() == 1 && fs@[0].0@ == ("buffer")@ && (
                            match fs@[0].1 {
                                JsonValue::Str(x) => x@ == lossy_decode(rec.buffer@),
                                _ => false,
                            }),
                            _ => false,
                        }),
                        _ => false,
                    }),
                }
            },
            _ => (match r {
                Dispatch::Done(Err(e)) => e@ == missing_msg(
                    if !is_str_field(*params, ("sessionName")@) {
                        ("sessionName")@
                    } else {
                        ("windowName")@
                    },
                ),
                _ => false,
            }),
        }),
        method@ == ("get_window_frame")@ ==> *final(state) == *old(state) && (match (
            spec_field(*params, ("sessionName")@),
            spec_field(*params, ("windowName")@),
        ) {
            (Some(JsonValue::Str(s)), Some(JsonValue::Str(w))) => {
                let k = spec_window_key(s@, w@);
                match spec_window(*old(state), k) {
                    None => (match r {
                        Dispatch::Done(Err(e)) => e@ == crate::supervisor::not_found_msg(k),
                        _ => false,
                    }),
                    Some(rec) => ({
                        let text = lossy_decode(rec.buffer@);
                        let cols = (match spec_opt_u16(*params, ("cols")@) {
                            Some(c) => c as int,
                            None => rec.snapshot.cols as int,
                        });
                        let rows = (match spec_opt_u16(*params, ("rows")@) {
                            Some(x) => x as int,
                            None => rec.snapshot.rows as int,
                        });
                        match r {
                            Dispatch::Done(Ok(v)) => exists|f: Frame|
                                {
                                    &&& #[trigger] is_frame_json(v, f)
                                    &&& f.cols == crate::frame::clamp_range(cols, 20, 300)
                                    &&& f.rows == crate::frame::clamp_range(rows, 6, 200)
                                    &&& f.lines@.len() == f.rows
                                    &&& f.cursor_row < f.rows
                                    &&& f.cursor_col < f.cols
                                    &&& (forall|rr: int|
                                        0 <= rr < f.rows
                                            ==> crate::frame::line_segments_nonempty(
                                            #[trigger] f.lines@[rr],
                                        ))
                                    &&& ((crate::feed::all_width_one(text) && text.len()
                                        <= crate::frame::clamp_range(cols, 20, 300))
                                        ==> crate::frame::plain_text_frame(f, text))
                                },
                            _ => false,
                        }
                    }),
                }
            },
            _ => (match r {
                Dispatch::Done(Err(e)) => e@ == missing_msg(
                    if !is_str_field(*params, ("sessionName")@) {
                        ("sessionName")@
                    } else {
                        ("windowName")@
                    },
                ),
                _ => false,
            }),
        }),
        method@ == ("stop_window")@ ==> *final(state) == *old(state) && (match (
            spec_field(*params, ("sessionName")@),
            spec_field(*params, ("windowName")@),
        ) {
            (Some(JsonValue::Str(s)), Some(JsonValue::Str(w))) => {
                let k = spec_window_key(s@, w@);
                match spec_window(*old(state), k) {
                    None => (match r {
                        Dispatch::Done(Err(e)) => e@ == crate::supervisor::not_found_msg(k),
                        _ => false,
                    }),
                    Some(rec) => {
                        if rec.has_child {
                            match r {
                                Dispatch::NeedKill { session, window } => session@ == s@ && window@
                                    == w@,
                                _ => false,
                            }
                        } else {
                            match r {
                                Dispatch::Done(Ok(v)) => is_obj1(
                                    v,
                                    ("stopped")@,
                                    JsonValue::Bool(false),
                                ),
                                _ => false,
                            }
                        }
                    },
                }
            },
            _ => (match r {
                Dispatch::Done(Err(e)) => e@ == missing_msg(
                    if !is_str_field(*params, ("sessionName")@) {
                        ("sessionName")@
                    } else {
                        ("windowName")@
                    },
                ),
                _ => false,
            }),
        }),
        method@ == ("dispose")@ ==> {
            &&& (match r {
                Dispatch::Done(Ok(v)) => is_ok_true(v),
                _ => false,
            })
            &&& final(state).windows@.len() == old(state).windows@.len()
            &&& (forall|i: int|
                0 <= i < old(state).windows@.len() ==> {
                    let prev = (#[trigger] old(state).windows@[i]).1;
                    let nr = final(state).windows@[i].1;
                    nr.snapshot.status == WindowStatus::Exited && nr.snapshot.exited_at == Some(
                        now,
                    ) && !nr.has_child && !nr.has_writer && !nr.has_master
                })
        },
        (method@ != ("hello")@ && method@ != ("get_or_create_session")@ && method@ != (
        "set_session_env")@ && method@ != ("window_exists")@ && method@ != ("start_window")@
            && method@ != ("type_keys")@ && method@ != ("send_enter")@ && method@ != (
        "resize_window")@ && method@ != ("list_windows")@ && method@ != ("get_window_buffer")@
            && method@ != ("get_window_frame")@ && method@ != ("stop_window")@ && method@ != (
        "dispose")@) ==> *final(state) == *old(state) && (match r {
            Dispatch::Done(Err(e)) => e@ == unknown_method_msg(method@),
            _ => false,
        }),
{
    proof {
        reveal_strlit("hello");
        reveal_strlit("get_or_create_session");
        reveal_strlit("set_session_env");
        reveal_strlit("window_exists");
        reveal_strlit("start_window");
        reveal_strlit("type_keys");
        reveal_strlit("send_enter");
        reveal_strlit("resize_window");
        reveal_strlit("list_windows");
        reveal_strlit("get_window_buffer");
        reveal_strlit("get_window_frame");
        reveal_strlit("stop_window");
        reveal_strlit("dispose");
        assert(("hello")@.len() == 5);
        assert(("get_or_create_session")@.len() == 21);
        assert(("set_session_env")@.len() == 15);
        assert(("window_exists")@.len() == 13);
        assert(("start_window")@.len() == 12);
        assert(("type_keys")@.len() == 9);
        assert(("send_enter")@.len() == 10);
        assert(("resize_window")@.len() == 13);
        assert(("list_windows")@.len() == 12);
        assert(("get_window_buffer")@.len() == 17);
        assert(("get_window_frame")@.len() == 16);
        assert(("stop_window")@.len() == 11);
        assert(("dispose")@.len() == 7);
        assert(("window_exists")@[0] == 'w' && ("resize_window")@[0] == 'r');
        assert(("window_exists")@ != ("resize_window")@);
        assert(("start_window")@[0] == 's' && ("list_windows")@[0] == 'l');
        assert(("start_window")@ != ("list_windows")@);
        assert(("send_enter")@[0] == 's' && ("start_window")@[1] == 't' && ("send_enter")@[1]
            == 'e');
    }
    if is_method(method, "hello") {
        Dispatch::Done(Ok(obj1("version", JsonValue::Int(1))))
    } else if is_method(method, "get_or_create_session") {
        let project_name = match get_str(params, "projectName") {
            Ok(p) => p,
            Err(e) => {
                return Dispatch::Done(Err(e));
            },
        };
        let first_window_name = get_opt_str(params, "firstWindowName");
        state.get_or_create_session(&project_name, &first_window_name);
        Dispatch::Done(Ok(obj1("sessionName", JsonValue::Str(project_name))))
    } else if is_method(method, "set_session_env") {
        let session_name = match get_str(params, "sessionName") {
            Ok(v) => v,
            Err(e) => {
                return Dispatch::Done(Err(e));
            },
        };
        let key = match get_str(params, "key") {
            Ok(v) => v,
            Err(e) => {
                return Dispatch::Done(Err(e));
            },
        };
        let value = match get_str(params, "value") {
            Ok(v) => v,
            Err(e) => {
                return Dispatch::Done(Err(e));
            },
        };
        state.set_session_env(session_name, key, value);
        Dispatch::Done(Ok(ok_true()))
    } else if is_method(method, "window_exists") {
        let session_name = match get_str(params, "sessionName") {
            Ok(v) => v,
            Err(e) => {
                return Dispatch::Done(Err(e));
            },
        };
        let window_name = match get_str(params, "windowName") {
            Ok(v) => v,
            Err(e) => {
                return Dispatch::Done(Err(e));
            },
        };
        let exists = state.window_exists(&session_name, &window_name);
        Dispatch::Done(Ok(obj1("exists", JsonValue::Bool(exists))))
    } else if is_method(method, "start_window") {
        let session_name = match get_str(params, "sessionName") {
            Ok(v) => v,
            Err(e) => {
                return Dispatch::Done(Err(e));
            },
        };
        let window_name = match get_str(params, "windowName") {
            Ok(v) => v,
            Err(e) => {
                return Dispatch::Done(Err(e));
            },
        };
        let command = match get_str(params, "command") {
            Ok(v) => v,
            Err(e) => {
                return Dispatch::Done(Err(e));
            },
        };
        match state.start_window_begin(&session_name, &window_name, now) {
            crate::supervisor::StartDecision::AlreadyRunning => Dispatch::Done(Ok(ok_true())),
            crate::supervisor::StartDecision::Launch { env, cols, rows } => Dispatch::NeedLaunch {
                session: session_name,
                window: window_name,
                command,
                env,
                cols,
                rows,
            },
        }
    } else if is_method(method, "type_keys") {
        let session_name = match get_str(params, "sessionName") {
            Ok(v) => v,
            Err(e) => {
                return Dispatch::Done(Err(e));
            },
        };
        let window_name = match get_str(params, "windowName") {
            Ok(v) => v,
            Err(e) => {
                return Dispatch::Done(Err(e));
            },
        };
        let keys = match get_str(params, "keys") {
            Ok(v) => v,
            Err(e) => {
                return Dispatch::Done(Err(e));
            },
        };
        match state.check_writer(&session_name, &window_name) {
            Err(e) => Dispatch::Done(Err(e)),
            Ok(()) => {
                let bytes = keys.as_str().as_bytes_vec();
                Dispatch::NeedWrite { session: session_name, window: window_name, bytes, enter: false }
            },
        }
    } else if is_method(method, "send_enter") {
        let session_name = match get_str(params, "sessionName") {
            Ok(v) => v,
            Err(e) => {
                return Dispatch::Done(Err(e));
            },
        };
        let window_name = match get_str(params, "windowName") {
            Ok(v) => v,
            Err(e) => {
                return Dispatch::Done(Err(e));
            },
        };
        match state.check_writer(&session_name, &window_name) {
            Err(e) => Dispatch::Done(Err(e)),
            Ok(()) => {
                let mut bytes: Vec<u8> = Vec::new();
                bytes.push(13);
                proof {
                    assert(bytes@ =~= seq![13u8]);
                }
                Dispatch::NeedWrite { session: session_name, window: window_name, bytes, enter: true }
            },
        }
    } else if is_method(method, "resize_window") {
        let session_name = match get_str(params, "sessionName") {
            Ok(v) => v,
            Err(e) => {
                return Dispatch::Done(Err(e));
            },
        };
        let window_name = match get_str(params, "windowName") {
            Ok(v) => v,
            Err(e) => {
                return Dispatch::Done(Err(e));
            },
        };
        let cols = get_u16(params, "cols", 140);
        let rows = get_u16(params, "rows", 40);
        match state.resize_window(&session_name, &window_name, cols, rows) {
            Err(e) => Dispatch::Done(Err(e)),
            Ok(true) => Dispatch::NeedResize {
                session: session_name,
                window: window_name,
                cols,
                rows,
            },
            Ok(false) => Dispatch::Done(Ok(ok_true())),
        }
    } else if is_method(method, "list_windows") {
        let filter = get_opt_str(params, "sessionName");
        let snaps = state.list_windows(&filter);
        let mut items: Vec<JsonValue> = Vec::new();
        let ghost snaps_spec = snaps@;
        let mut i: usize = 0;
        while i < snaps.len()
            invariant
                i <= snaps@.len(),
                snaps@ == snaps_spec,
                items@.len() == i,
                forall|t: int|
                    0 <= t < i ==> is_snapshot_json(#[trigger] items@[t], snaps_spec[t]),
            decreases snaps@.len() - i,
        {
            items.push(snapshot_json(&snaps[i]));
            i = i + 1;
        }
        Dispatch::Done(Ok(obj1("windows", JsonValue::Arr(items))))
    } else if is_method(method, "get_window_buffer") {
        let session_name = match get_str(params, "sessionName") {
            Ok(v) => v,
            Err(e) => {
                return Dispatch::Done(Err(e));
            },
        };
        let window_name = match get_str(params, "windowName") {
            Ok(v) => v,
            Err(e) => {
                return Dispatch::Done(Err(e));
            },
        };
        match state.window_buffer(&session_name, &window_name) {
            Err(e) => Dispatch::Done(Err(e)),
            Ok(bytes) => {
                let text = utf8_lossy(&bytes);
                Dispatch::Done(Ok(obj1("buffer", JsonValue::Str(text))))
            },
        }
    } else if is_method(method, "get_window_frame") {
        let session_name = match get_str(params, "sessionName") {
            Ok(v) => v,
            Err(e) => {
                return Dispatch::Done(Err(e));
            },
        };
        let window_name = match get_str(params, "windowName") {
            Ok(v) => v,
            Err(e) => {
                return Dispatch::Done(Err(e));
            },
        };
        let requested_cols = get_opt_u16(params, "cols");
        let requested_rows = get_opt_u16(params, "rows");
        match state.window_buffer(&session_name, &window_name) {
            Err(e) => Dispatch::Done(Err(e)),
            Ok(bytes) => {
                let dims = match state.window_dims(&session_name, &window_name) {
                    Ok(d) => d,
                    Err(e) => {
                        return Dispatch::Done(Err(e));
                    },
                };
                let cols = match requested_cols {
                    Some(c) => c,
                    None => dims.0,
                };
                let rows = match requested_rows {
                    Some(rw) => rw,
                    None => dims.1,
                };
                let text = utf8_lossy(&bytes);
                let frame = crate::frame::build_styled_frame(text.as_str(), cols, rows);
                let v = frame_to_json(&frame);
                proof {
                    assert(is_frame_json(v, frame) && frame.lines@.len() == frame.rows
                        && frame.cursor_row < frame.rows && frame.cursor_col < frame.cols);
                }
                Dispatch::Done(Ok(v))
            },
        }
    } else if is_method(method, "stop_window") {
        let session_name = match get_str(params, "sessionName") {
            Ok(v) => v,
            Err(e) => {
                return Dispatch::Done(Err(e));
            },
        };
        let window_name = match get_str(params, "windowName") {
            Ok(v) => v,
            Err(e) => {
                return Dispatch::Done(Err(e));
            },
        };
        match state.stop_window_query(&session_name, &window_name) {
            Err(e) => Dispatch::Done(Err(e)),
            Ok(true) => Dispatch::NeedKill { session: session_name, window: window_name },
            Ok(false) => Dispatch::Done(Ok(obj1("stopped", JsonValue::Bool(false)))),
        }
    } else if is_method(method, "dispose") {
        state.dispose_all(now);
        *should_shutdown = true;
        proof {
            assert forall|i: int| 0 <= i < old(state).windows@.len() implies {
                let nr = (#[trigger] state.windows@[i]).1;
                nr.snapshot.status == WindowStatus::Exited && nr.snapshot.exited_at == Some(now)
                    && !nr.has_child && !nr.has_writer && !nr.has_master
            } by {
                let prev = old(state).windows@[i].1;
                assert(state.windows@[i].1.snapshot.status == WindowStatus::Exited);
            }
        }
        Dispatch::Done(Ok(ok_true()))
    } else {
        let msg = String::from_str("unknown method: ");
        Dispatch::Done(Err(msg.concat(method.as_str())))
    }
}

} // verus!
