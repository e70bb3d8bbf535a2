//! Codex: threads, live status, the app server.
use agent_deck::codex::ipc::{
    decode_frames, default_socket_path, deserialize_status, encode, initialize_request,
    parse_broadcast, parse_broadcast_at, split_frames, uuid_str, FrameError, IpcStates, MAX_FRAME,
};
use agent_deck::codex::mapper::{map_thread, CodexThread, ThreadStatus};
use agent_deck::codex::observer::{
    interrupt_params, last_turn_id, list_params, resume_params, stop_outcome, stop_step,
    CodexObserver, CodexObserverOptions, DispatchPlan, EnsureStep, FetchReply, StopEvent, StopStep,
};
use agent_deck::codex::rpc::{
    await_step, cli_candidates, client_info, notification_message, request_message, AwaitStep,
    LineRead, Platform, RpcError, RpcReply,
};
use agent_deck::json::{is_nested_within, parse, serialize, Json, MAX_DEPTH};
use agent_deck::protocol::{Action, BackendId, DeckStatus};

fn object(fields: Vec<(&str, Json)>) -> Json {
    Json::Object(fields.into_iter().map(|(k, v)| (k.to_string(), v)).collect())
}

fn text(s: &str) -> Json {
    Json::Text(s.to_string())
}

fn number(n: i64) -> Json {
    Json::Number(n.to_string())
}

fn thread(id: &str, status: ThreadStatus, updated_at: Option<u64>) -> CodexThread {
    CodexThread {
        id: id.into(),
        session_id: None,
        name: Some(id.into()),
        preview: None,
        cwd: None,
        status,
        updated_at,
        recency_at: None,
    }
}

fn active(flags: &[&str]) -> ThreadStatus {
    ThreadStatus::Active {
        active_flags: flags.iter().map(|f| f.to_string()).collect(),
    }
}

// Frames.

#[test]
fn encode_decode_roundtrip() {
    let obj = object(vec![
        ("method", text("initialize")),
        ("params", object(vec![])),
        ("type", text("request")),
    ]);
    let bytes = encode(&obj);
    let mut buf = bytes.clone();
    let frames = decode_frames(&mut buf).unwrap();
    assert_eq!(frames.len(), 1);
    assert_eq!(frames[0], obj);
    assert!(buf.is_empty());
}

#[test]
fn decode_multiple_frames_in_one_buffer() {
    let a = encode(&object(vec![("id", number(1))]));
    let b = encode(&object(vec![("id", number(2))]));
    let c = encode(&object(vec![("id", number(3))]));
    let mut buf = Vec::new();
    buf.extend_from_slice(&a);
    buf.extend_from_slice(&b);
    buf.extend_from_slice(&c);
    let frames = decode_frames(&mut buf).unwrap();
    assert_eq!(frames.len(), 3);
    assert!(buf.is_empty());
    assert_eq!(frames[1].get("id"), Some(&number(2)));
}

#[test]
fn decode_partial_frame_waits_for_more() {
    let obj = object(vec![("hello", text("world"))]);
    let bytes = encode(&obj);
    // Half a frame gives nothing and is kept.
    let half = &bytes[..bytes.len() / 2];
    let mut buf = half.to_vec();
    let frames = decode_frames(&mut buf).unwrap();
    assert!(frames.is_empty());
    assert_eq!(buf, half);
    // The rest completes it.
    buf.extend_from_slice(&bytes[bytes.len() / 2..]);
    let frames = decode_frames(&mut buf).unwrap();
    assert_eq!(frames.len(), 1);
}

#[test]
fn decode_zero_length_is_error() {
    let mut buf = vec![0u8, 0, 0, 0];
    assert!(decode_frames(&mut buf).is_err());
}

#[test]
fn decode_oversized_length_is_error() {
    let mut buf = (MAX_FRAME as u32 + 1u32).to_le_bytes().to_vec();
    buf.extend_from_slice(&[0u8; 4]);
    assert!(decode_frames(&mut buf).is_err());
}

#[test]
fn frames_begin_with_their_length() {
    assert_eq!(encode(&Json::Null), [4, 0, 0, 0, b'n', b'u', b'l', b'l']);
    let list = Json::List(vec![Json::Bool(true), number(-7)]);
    assert_eq!(encode(&list), [9, 0, 0, 0, b'[', b't', b'r', b'u', b'e', b',', b'-', b'7', b']']);
}

#[test]
fn bad_lengths_are_named() {
    let two = [encode(&Json::Null), vec![0, 0, 0, 0]].concat();
    match split_frames(&two) {
        Err(FrameError { length }) => assert_eq!(length, 0),
        Ok(_) => panic!("a frame without a length passed"),
    }
    let good = [encode(&Json::Null), vec![9]].concat();
    let (payloads, used) = split_frames(&good).unwrap();
    assert_eq!(payloads, [b"null".to_vec()]);
    assert_eq!(used, 8);
}

#[test]
fn payloads_that_are_no_documents_are_skipped() {
    let mut buf = vec![3, 0, 0, 0, b'x', b'y', b'z'];
    buf.extend_from_slice(&encode(&number(5)));
    let frames = decode_frames(&mut buf).unwrap();
    assert_eq!(frames, [number(5)]);
    assert!(buf.is_empty());
}

#[test]
fn unwritable_numbers_become_null() {
    assert_eq!(encode(&Json::Number("no number".into())), encode(&Json::Null));
}

#[test]
fn what_was_sent_arrives_and_the_beginning_of_a_frame_waits() {
    let docs = [number(1), object(vec![("a", Json::List(vec![text("x"), Json::Null]))]), Json::Null];
    let mut buf: Vec<u8> = docs.iter().flat_map(encode).collect();
    let next = encode(&text("later"));
    for k in 0..next.len() {
        let mut got = buf.clone();
        got.extend_from_slice(&next[..k]);
        assert_eq!(decode_frames(&mut got).unwrap(), docs);
        assert_eq!(got, &next[..k]);
    }
    buf.extend_from_slice(&next);
    assert_eq!(decode_frames(&mut buf).unwrap().len(), 4);
}

// Documents.

#[test]
fn of_fields_with_one_name_the_last_is_written() {
    let doc = object(vec![
        ("a", number(1)),
        ("b", object(vec![("x", number(2)), ("x", number(3))])),
        ("a", text("z")),
    ]);
    assert_eq!(serialize(&doc).unwrap(), b"{\"a\":\"z\",\"b\":{\"x\":3}}");
    // A number that is none spoils the document, even where a later field counts.
    let spoilt = object(vec![("a", Json::Number("x".into())), ("a", Json::Null)]);
    assert_eq!(serialize(&spoilt), None);
    assert_eq!(spoilt.get("a"), Some(&Json::Null));
}

#[test]
fn nesting_is_bounded() {
    let nested = |n: usize| (0..n).fold(Json::Null, |v, _| Json::List(vec![v]));
    assert!(is_nested_within(&Json::Null, 0));
    assert!(!is_nested_within(&nested(1), 0));
    assert!(!is_nested_within(&object(vec![]), 0));
    assert!(is_nested_within(&object(vec![("a", nested(2))]), 3));
    assert!(!is_nested_within(&object(vec![("a", nested(2))]), 2));
    let deep = nested(MAX_DEPTH);
    assert!(is_nested_within(&deep, MAX_DEPTH));
    assert_eq!(parse(&serialize(&deep).unwrap()), Some(deep));
    assert!(!is_nested_within(&nested(MAX_DEPTH + 1), MAX_DEPTH));
}

#[test]
fn documents_are_written_and_read_back() {
    let doc = object(vec![
        ("a", Json::List(vec![Json::Null, text("\"quoted\"\n"), number(i64::MIN)])),
        ("b", Json::Number(u64::MAX.to_string())),
        ("c", object(vec![("x", Json::Bool(false))])),
    ]);
    let bytes = serialize(&doc).unwrap();
    assert_eq!(parse(&bytes), Some(doc));
    assert_eq!(parse(b"{\"a\":1,\"a\":2}").unwrap().get("a"), Some(&number(2)));
    assert_eq!(parse(b"{"), None);
    assert_eq!(serialize(&Json::Number("1.2.3".into())), None);
}

#[test]
fn fields_are_typed() {
    let doc = parse(b"{\"t\":\"x\",\"b\":true,\"l\":[\"p\",\"q\"],\"m\":[\"p\",1]}").unwrap();
    assert_eq!(doc.get("t").unwrap().as_str().map(String::as_str), Some("x"));
    assert_eq!(doc.get("b").unwrap().as_bool(), Some(true));
    assert_eq!(doc.get("t").unwrap().as_bool(), None);
    assert_eq!(doc.get("l").unwrap().as_strings(), Some(vec!["p".to_string(), "q".to_string()]));
    assert_eq!(doc.get("m").unwrap().as_strings(), None);
    assert_eq!(doc.get("none"), None);
    assert_eq!(Json::Null.get("t"), None);
}

// Live status.

fn state_changed(thread_id: &str, status: Json) -> Json {
    object(vec![
        ("type", text("broadcast")),
        ("method", text("thread-stream-state-changed")),
        ("params", object(vec![("threadId", text(thread_id)), ("status", status)])),
    ])
}

#[test]
fn parse_state_changed_active_working() {
    let frame = state_changed(
        "abc-123",
        object(vec![("type", text("active")), ("activeFlags", Json::List(vec![]))]),
    );
    let s = parse_broadcast(&frame).expect("a status");
    assert_eq!(s.thread_id, "abc-123");
    assert!(matches!(s.status, ThreadStatus::Active { ref active_flags } if active_flags.is_empty()));
}

#[test]
fn parse_state_changed_active_waiting() {
    let frame = state_changed(
        "def-456",
        object(vec![
            ("type", text("active")),
            ("activeFlags", Json::List(vec![text("waitingOnApproval")])),
        ]),
    );
    let s = parse_broadcast(&frame).expect("a status");
    match s.status {
        ThreadStatus::Active { active_flags } => {
            assert!(active_flags.iter().any(|f| f == "waitingOnApproval"));
        }
        _ => panic!("not active"),
    }
}

#[test]
fn parse_state_changed_idle() {
    let frame = state_changed("xyz", object(vec![("type", text("idle"))]));
    let s = parse_broadcast(&frame).expect("a status");
    assert!(matches!(s.status, ThreadStatus::Idle));
}

#[test]
fn parse_ignores_other_broadcasts() {
    let frame = object(vec![
        ("type", text("broadcast")),
        ("method", text("thread-stream-following-changed")),
        (
            "params",
            object(vec![("conversationId", text("x")), ("following", Json::Bool(true))]),
        ),
    ]);
    assert!(parse_broadcast(&frame).is_none());
}

#[test]
fn parse_ignores_non_broadcast() {
    let frame = object(vec![
        ("type", text("response")),
        ("method", text("initialize")),
        ("result", object(vec![("clientId", text("c1"))])),
    ]);
    assert!(parse_broadcast(&frame).is_none());
}

#[test]
fn parse_unknown_status_type_degrades_to_none_or_known() {
    let frame = state_changed(
        "u",
        object(vec![("type", text("someNewFutureStatus")), ("extra", number(1))]),
    );
    assert!(parse_broadcast(&frame).is_none());
}

#[test]
fn statuses_are_read_by_type() {
    let of = |kind: &str| deserialize_status(&object(vec![("type", text(kind))]));
    assert!(matches!(of("notLoaded"), Some(ThreadStatus::NotLoaded)));
    assert!(matches!(of("systemError"), Some(ThreadStatus::SystemError)));
    assert!(matches!(of("active"), Some(ThreadStatus::Active { .. })));
    assert!(of("ACTIVE").is_none());
    assert!(deserialize_status(&Json::Null).is_none());
    let at = parse_broadcast_at(&state_changed("t", object(vec![("type", text("idle"))])), 77);
    assert_eq!(at.unwrap().updated_at, 77);
}

#[test]
fn chunks_do_not_matter() {
    let busy = encode(&state_changed("t1", object(vec![("type", text("active"))])));
    let idle = encode(&state_changed("t2", object(vec![("type", text("idle"))])));
    let all = [busy, idle].concat();
    for cut in 0..=all.len() {
        let mut states = IpcStates::new();
        let mut buf = Vec::new();
        assert!(!states.is_connected());
        assert!(states.receive(&mut buf, &all[..cut], 5));
        assert!(states.receive(&mut buf, &all[cut..], 5));
        assert!(buf.is_empty());
        assert!(states.is_connected());
        assert!(matches!(states.status_of("t1"), Some(ThreadStatus::Active { .. })));
        assert!(matches!(states.status_of("t2"), Some(ThreadStatus::Idle)));
        assert!(states.status_of("t3").is_none());
    }
    let mut states = IpcStates::new();
    let mut buf = Vec::new();
    assert!(!states.receive(&mut buf, &[0, 0, 0, 0], 5));
}

#[test]
fn default_socket_path_under_codex_home() {
    let p = default_socket_path(Some("/x/codex".into()), Some("/home/me".into()));
    assert!(p.ends_with("ipc/ipc.sock"));
    assert_eq!(p, "/x/codex/ipc/ipc.sock");
    assert_eq!(
        default_socket_path(None, Some("/home/me".into())),
        "/home/me/.codex/ipc/ipc.sock"
    );
    assert_eq!(
        default_socket_path(Some("".into()), Some("/home/me".into())),
        "/home/me/.codex/ipc/ipc.sock"
    );
    assert_eq!(default_socket_path(None, None), "/.codex/ipc/ipc.sock");
}

#[test]
fn uuid_str_is_uuid_shaped() {
    for (now, seq) in [(0, 0), (1_700_000_000_000, 7), (u64::MAX, u64::MAX)] {
        let u = uuid_str(now, seq);
        let parts: Vec<&str> = u.split('-').collect();
        assert_eq!(parts.len(), 5, "{u}");
        assert_eq!(parts[0].len(), 8);
        assert_eq!(parts[1].len(), 4);
        assert_eq!(parts[2].len(), 4);
        assert_eq!(parts[3].len(), 4);
        assert_eq!(parts[4].len(), 12);
    }
}

#[test]
fn request_ids_follow_their_formula() {
    let now: u64 = 1_753_257_600_123;
    let seq: u64 = 0x1234_5678_9abc_def0;
    let a = (now ^ seq.rotate_left(13)) & 0xffffffff;
    let b = seq.wrapping_mul(0x9e3779b97f4a7c15) & 0xffff;
    let c = (now >> 16) & 0xffff;
    let d = (seq >> 8) & 0xffffffffffff;
    let expected = format!("{a:08x}-{b:04x}-4{:03x}-{c:04x}-{d:012x}", b & 0xfff);
    assert_eq!(uuid_str(now, seq), expected);
}

#[test]
fn the_greeting_names_the_client() {
    let hello = initialize_request("r-1");
    assert_eq!(hello.get("type"), Some(&text("request")));
    assert_eq!(hello.get("requestId"), Some(&text("r-1")));
    assert_eq!(hello.get("method"), Some(&text("initialize")));
    assert_eq!(hello.get("params").unwrap().get("clientType"), Some(&text("extension")));
}

// Threads.

#[test]
fn active_without_flags_is_working() {
    let t = CodexThread {
        id: "t1".into(),
        session_id: None,
        name: Some("work".into()),
        preview: None,
        cwd: Some("/tmp".into()),
        status: ThreadStatus::Active {
            active_flags: vec![],
        },
        updated_at: Some(1_700_000_000),
        recency_at: None,
    };
    let s = map_thread(&t);
    assert_eq!(s.status, DeckStatus::Working);
    assert_eq!(s.backend, BackendId::Codex);
}

#[test]
fn active_waiting_on_approval_is_waiting() {
    let t = CodexThread {
        id: "t2".into(),
        session_id: None,
        name: None,
        preview: Some("need approve".into()),
        cwd: None,
        status: ThreadStatus::Active {
            active_flags: vec!["waitingOnApproval".into()],
        },
        updated_at: Some(1_700_000_000),
        recency_at: None,
    };
    let s = map_thread(&t);
    assert_eq!(s.status, DeckStatus::Waiting);
    assert!(s.waiting_since.is_some());
}

#[test]
fn system_error_is_error() {
    let t = CodexThread {
        id: "t3".into(),
        session_id: None,
        name: Some("boom".into()),
        preview: None,
        cwd: None,
        status: ThreadStatus::SystemError,
        updated_at: None,
        recency_at: None,
    };
    assert_eq!(map_thread(&t).status, DeckStatus::Error);
}

#[test]
fn thread_times_are_in_seconds() {
    let s = map_thread(&thread("t", active(&["waitingOnUserInput"]), Some(1_700_000_000)));
    assert_eq!(s.updated_at, 1_700_000_000_000);
    assert_eq!(s.status, DeckStatus::Waiting);
    let resting = map_thread(&thread("t", ThreadStatus::default(), None));
    assert_eq!(resting.status, DeckStatus::Idle);
    assert_eq!(resting.waiting_since, None);
}

#[test]
fn board_shows_busy_threads_first_and_no_idle_ones() {
    let mut obs = CodexObserver::new(CodexObserverOptions::usual(true));
    assert_eq!(obs.ensure_client(), EnsureStep::Open);
    obs.set_opened();
    assert_eq!(obs.ensure_client(), EnsureStep::Ready);
    let now = 1_700_000_000u64;
    let threads = || {
        FetchReply::Threads(vec![
            thread("idle", ThreadStatus::Idle, Some(now - 10)),
            thread("busy", active(&[]), Some(now - 50)),
            thread("asking", active(&["waitingOnApproval"]), Some(now - 90)),
            thread("ancient", ThreadStatus::Idle, Some(now - 100_000_000)),
        ])
    };
    let board = obs.poll_once(&threads(), None, now);
    let ids: Vec<&str> = board.iter().map(|s| s.session_id.as_str()).collect();
    assert_eq!(ids, ["asking", "busy"]);
    assert_eq!(obs.last_snapshots().len(), 2);
    let catalog = obs.catalog_once(&threads(), None, now);
    assert!(catalog.iter().any(|s| s.session_id == "idle"));
    assert!(catalog.iter().all(|s| s.session_id != "ancient"));
    let pinned = obs.poll_pinned_once(&["idle".to_string()], &threads(), None, now);
    assert_eq!(pinned.len(), 1);
    assert_eq!(pinned[0].session_id, "idle");
}

#[test]
fn live_status_overrides_the_listed_one() {
    let mut states = IpcStates::new();
    let mut buf = Vec::new();
    let news = encode(&state_changed(
        "t",
        object(vec![
            ("type", text("active")),
            ("activeFlags", Json::List(vec![text("waitingOnApproval")])),
        ]),
    ));
    assert!(states.receive(&mut buf, &news, 1_700_000_000));
    let mut obs = CodexObserver::new(CodexObserverOptions::usual(true));
    obs.set_opened();
    let reply = FetchReply::Threads(vec![thread("t", active(&[]), Some(1_700_000_000))]);
    let plain = obs.poll_once(&reply, None, 1_700_000_000);
    assert_eq!(plain[0].status, DeckStatus::Working);
    let live = obs.poll_once(&reply, Some(&states), 1_700_000_000);
    assert_eq!(live[0].status, DeckStatus::Waiting);
    assert!(live[0].waiting_since.is_some());
}

#[test]
fn a_lost_app_server_leaves_the_last_poll() {
    let mut obs = CodexObserver::new(CodexObserverOptions::usual(false));
    assert!(!obs.options().enable_ipc);
    obs.set_opened();
    let now = 1_700_000_000u64;
    obs.poll_once(&FetchReply::Threads(vec![thread("t", active(&[]), Some(now))]), None, now);
    let after = obs.poll_once(&FetchReply::RequestFailed, None, now);
    assert_eq!(after.len(), 1);
    assert_eq!(obs.ensure_client(), EnsureStep::Open);
    assert!(obs.catalog_once(&FetchReply::NotConnected, None, now).is_empty());
    assert!(obs.poll_once(&FetchReply::OpenFailed, None, now).is_empty());
    assert_eq!(obs.ensure_client(), EnsureStep::Refuse);
}

#[test]
fn actions_are_planned_against_the_last_poll() {
    let mut obs = CodexObserver::new(CodexObserverOptions::usual(false));
    let refused = |p: DispatchPlan| match p {
        DispatchPlan::Status(s) => s,
        DispatchPlan::Stop { thread_ids } => panic!("stops {thread_ids:?}"),
    };
    let stopped = |p: DispatchPlan| match p {
        DispatchPlan::Stop { thread_ids } => thread_ids,
        DispatchPlan::Status(s) => panic!("refused: {s}"),
    };
    assert_eq!(
        refused(obs.dispatch_once(&Action::Stop { i: None })),
        "unsupported:stop:no_target"
    );
    obs.set_opened();
    let now = 1_700_000_000u64;
    obs.poll_once(
        &FetchReply::Threads(vec![
            thread("a", active(&["waitingOnApproval"]), Some(now)),
            thread("b", active(&[]), Some(now)),
        ]),
        None,
        now,
    );
    assert_eq!(stopped(obs.dispatch_once(&Action::Stop { i: None })), ["a"]);
    assert_eq!(stopped(obs.dispatch_once(&Action::Stop { i: Some(1) })), ["b"]);
    assert_eq!(stopped(obs.dispatch_once(&Action::StopAll)), ["a", "b"]);
    assert_eq!(
        refused(obs.dispatch_once(&Action::Accept { i: None })),
        "unsupported:accept:no_request_id"
    );
    assert_eq!(refused(obs.dispatch_once(&Action::FreezeAll)), "unsupported:freeze_all");
}

#[test]
fn stopping_a_key_stops_the_session_on_it() {
    let mut obs = CodexObserver::new(CodexObserverOptions::usual(false));
    obs.set_opened();
    let now = 1_700_000_000u64;
    obs.poll_once(
        &FetchReply::Threads(vec![thread("a", active(&[]), Some(now)), thread("b", active(&[]), Some(now))]),
        None,
        now,
    );
    let stopped = |p: DispatchPlan| match p {
        DispatchPlan::Stop { thread_ids } => thread_ids,
        DispatchPlan::Status(s) => panic!("refused: {s}"),
    };
    assert_eq!(stopped(obs.dispatch_for(&Action::Stop { i: Some(0) }, "b")), ["b"]);
    assert_eq!(stopped(obs.dispatch_for(&Action::Stop { i: None }, "older")), ["older"]);
    match obs.dispatch_for(&Action::Reject { i: None }, "b") {
        DispatchPlan::Status(s) => assert_eq!(s, "unsupported:reject:no_request_id"),
        DispatchPlan::Stop { .. } => panic!("stops"),
    }
}

#[test]
fn a_thread_is_stopped_in_steps() {
    let turn = object(vec![("id", text("turn-9"))]);
    let resumed = object(vec![("thread", object(vec![("lastTurn", turn)]))]);
    match stop_step(&StopEvent::Resumed(resumed)) {
        StopStep::Interrupt { turn_id } => assert_eq!(turn_id, "turn-9"),
        other => panic!("{other:?}"),
    }
    assert!(matches!(stop_step(&StopEvent::Resumed(object(vec![]))), StopStep::Done));
    assert!(matches!(stop_step(&StopEvent::ResumeFailed), StopStep::Fail));
    assert!(matches!(stop_step(&StopEvent::Interrupted), StopStep::Done));
    assert!(matches!(stop_step(&StopEvent::InterruptFailed), StopStep::Done));
}

// The app server.

#[test]
fn messages_are_json_rpc() {
    let request = request_message(7, "thread/list", list_params());
    assert_eq!(request.get("jsonrpc"), Some(&text("2.0")));
    assert_eq!(request.get("id"), Some(&number(7)));
    assert_eq!(request.get("method"), Some(&text("thread/list")));
    let note = notification_message("notifications/initialized", object(vec![]));
    assert_eq!(note.get("id"), None);
    assert_eq!(
        client_info().get("clientInfo").unwrap().get("name"),
        Some(&text("agent-deck"))
    );
    assert_eq!(resume_params("t").get("threadId"), Some(&text("t")));
    assert_eq!(interrupt_params("t", "u").get("turnId"), Some(&text("u")));
    let ids = |v: &[&str]| -> Vec<String> { v.iter().map(|s| s.to_string()).collect() };
    let none: Vec<Option<String>> = vec![None];
    assert_eq!(stop_outcome(&Action::StopAll, &ids(&["t"]), &none), Ok("ok:stop_all:t".into()));
    assert_eq!(
        stop_outcome(&Action::StopAll, &ids(&["t", "u", "v"]), &vec![None, None, None]),
        Ok("ok:stop_all:t,u,v".into())
    );
    assert_eq!(
        stop_outcome(
            &Action::StopAll,
            &ids(&["t", "u", "v"]),
            &vec![None, Some("first".into()), Some("second".into())]
        ),
        Err("first".into())
    );
}

#[test]
fn last_turn_is_found_in_a_resumed_thread() {
    let turn = object(vec![("id", text("two"))]);
    let result = object(vec![("thread", object(vec![("lastTurn", turn)]))]);
    assert_eq!(last_turn_id(&result).as_deref(), Some("two"));
    assert_eq!(last_turn_id(&Json::Null), None);
}

#[test]
fn answers_are_told_from_events() {
    let reply = |id: Option<u64>, method: Option<&str>, error: Option<&str>| {
        LineRead::Message(RpcReply {
            id,
            method: method.map(str::to_string),
            error: error.map(str::to_string),
        })
    };
    assert_eq!(await_step(3, &LineRead::Closed), AwaitStep::Fail(RpcError::ProcessExited));
    assert_eq!(await_step(3, &LineRead::Noise), AwaitStep::Wait);
    assert_eq!(await_step(3, &reply(Some(3), None, None)), AwaitStep::Answer);
    assert_eq!(await_step(3, &reply(Some(4), None, None)), AwaitStep::Wait);
    assert_eq!(await_step(3, &reply(None, None, None)), AwaitStep::Wait);
    assert_eq!(await_step(3, &reply(Some(3), Some("event"), None)), AwaitStep::Wait);
    assert_eq!(
        await_step(3, &reply(Some(3), None, Some("{}"))),
        AwaitStep::Fail(RpcError::Remote("{}".into()))
    );
}

#[test]
fn errors_speak() {
    assert_eq!(RpcError::Io("x".into()).message(), "io: x");
    assert_eq!(RpcError::Json("y".into()).message(), "json: y");
    assert_eq!(RpcError::Remote("z".into()).message(), "rpc error: z");
    assert_eq!(RpcError::Timeout(12).message(), "timeout waiting for response id=12");
    assert_eq!(RpcError::CliNotFound.message(), "codex CLI not found");
    assert_eq!(RpcError::ProcessExited.message(), "process exited");
}

#[test]
fn the_program_is_looked_for_in_order() {
    let path = vec!["/opt/bin".to_string(), "/usr/x/".to_string()];
    assert_eq!(
        cli_candidates(Platform::Other, Some("/mine/codex".into()), None, None, &path),
        [
            "/mine/codex",
            "/usr/local/bin/codex",
            "/usr/bin/codex",
            "/opt/bin/codex",
            "/usr/x/codex",
        ]
    );
    assert_eq!(
        cli_candidates(Platform::Mac, None, None, None, &vec![]),
        [
            "/Applications/ChatGPT.app/Contents/Resources/codex",
            "/usr/local/bin/codex",
            "/opt/homebrew/bin/codex",
        ]
    );
    let windows = cli_candidates(
        Platform::Windows,
        None,
        Some("C:\\Local".into()),
        Some("C:\\Roaming\\".into()),
        &vec!["D:\\bin".to_string()],
    );
    assert_eq!(windows[2], "C:\\Local\\Programs\\ChatGPT\\resources\\codex.exe");
    assert_eq!(windows[3], "C:\\Roaming\\npm\\codex.cmd");
    assert_eq!(windows[4], "D:\\bin\\codex.exe");
}
