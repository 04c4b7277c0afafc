use pipsqueak::codex_live::{
    decorate, follow, frame, initialize, next_frame, patch_status, refuse, try_frame, valid_status, Bridge,
    FrameError, MAX_FRAME,
};
use pipsqueak::codex_stream::{socket_is_private, Observer, StreamError};
use pipsqueak::json::{parse, Json};
use pipsqueak::state::{Provider, Session};

fn json(text: &str) -> Json {
    parse(text).unwrap()
}

fn stream(version: u64, host: &str, change: &str) -> Json {
    json(&format!(
        r#"{{"type":"broadcast","method":"thread-stream-state-changed","version":{version},
            "sourceClientId":"owner","params":{{"hostId":"{host}","conversationId":"task",
            "change":{change}}}}}"#
    ))
}

fn snapshot_change(status: &str) -> String {
    format!(
        r#"{{"type":"snapshot","revision":1,"conversationState":{{"threadRuntimeStatus":{status},"turnHistory":["not retained"]}}}}"#
    )
}

fn snapshot(status: &str) -> Json {
    stream(11, "local", &snapshot_change(status))
}

fn change(base: u64, revision: u64, patches: &str) -> Json {
    stream(
        11,
        "local",
        &format!(
            r#"{{"type":"patches","baseRevision":{base},"revision":{revision},"patches":{patches}}}"#
        ),
    )
}

fn fixture() -> Bridge {
    let mut bridge = Bridge::new();
    bridge.desired = vec!["task".into()];
    bridge
}

fn count(bridge: &Bridge) -> usize {
    bridge.tasks.keys().len()
}

#[test]
fn approval_resolution_and_disconnect_never_invent_done() {
    let mut b = fixture();
    b.receive(
        &snapshot(r#"{"type":"active","activeFlags":["waitingOnApproval"]}"#),
        1000,
    );
    let mut s = Session::default();
    b.tasks.get("task").unwrap().decorate(&mut s);
    assert_eq!(s.waiting_since, 1000);
    assert!(s.waiting_reason.contains("Approval"));
    b.receive(
        &change(
            1,
            2,
            r#"[{"op":"remove","path":["threadRuntimeStatus","activeFlags",0]}]"#,
        ),
        2000,
    );
    b.tasks.get("task").unwrap().decorate(&mut s);
    assert_eq!(s.waiting_since, 0);
    assert_eq!(s.state, "running");
    b.receive(
        &change(
            2,
            3,
            r#"[{"op":"replace","path":["threadRuntimeStatus"],"value":{"type":"idle"}}]"#,
        ),
        3000,
    );
    b.tasks.get("task").unwrap().decorate(&mut s);
    assert_eq!(s.state, "idle");
    assert!(s.outcome.is_empty());
    b.disconnected();
    assert_eq!(count(&b), 0);
    assert!(!b.connected);
}

#[test]
fn unrelated_patches_preserve_wait_age_but_gaps_drop_status() {
    let mut b = fixture();
    b.receive(
        &snapshot(r#"{"type":"active","activeFlags":["waitingOnUserInput"]}"#),
        1000,
    );
    b.receive(
        &change(
            1,
            2,
            r#"[{"op":"replace","path":["turnHistory",0],"value":"private"}]"#,
        ),
        2000,
    );
    let task = b.tasks.get("task").unwrap();
    assert_eq!(task.changed_ms, 1000);
    match &task.status {
        Json::Object(fields) => assert_eq!(fields.len(), 2),
        _ => panic!("the status is an object"),
    }
    assert_eq!(b.receive(&change(1, 3, "[]"), 3000), Some("task".into()));
    assert_eq!(count(&b), 0);
}

#[test]
fn wrong_host_version_and_owner_are_not_authoritative() {
    let mut b = fixture();
    let active = snapshot_change(r#"{"type":"active","activeFlags":[]}"#);
    b.receive(&stream(11, "remote", &active), 1);
    assert_eq!(count(&b), 0);
    b.receive(&stream(11, "local", &active), 2);
    assert_eq!(count(&b), 1);
    b.receive(&stream(12, "local", &active), 3);
    assert_eq!(count(&b), 0);
    b.receive(&stream(11, "local", &active), 4);
    b.receive(
        &json(
            r#"{"method":"client-status-changed","params":{"status":"disconnected","clientId":"owner"}}"#,
        ),
        5,
    );
    assert_eq!(count(&b), 0);
}

#[test]
fn partial_consecutive_and_oversized_frames() {
    let v = initialize("id", "not-initialized");
    let encoded = frame(&v);
    let mut buf = encoded[..3].to_vec();
    assert!(next_frame(&mut buf).ok().unwrap().is_none());
    buf.extend_from_slice(&encoded[3..encoded.len() - 1]);
    assert!(next_frame(&mut buf).ok().unwrap().is_none());
    buf.push(*encoded.last().unwrap());
    buf.extend(frame(&follow("client", "task", true)));
    assert!(next_frame(&mut buf).ok().unwrap().unwrap().same(&v));
    assert!(next_frame(&mut buf).ok().unwrap().is_some());
    assert!(buf.is_empty());
    assert!(next_frame(&mut ((MAX_FRAME + 1) as u32).to_le_bytes().to_vec()).is_err());
}

#[test]
fn passive_socket_client_observes_and_never_handles_requests() {
    let mut bridge = fixture();
    let (mut observer, init) = Observer::start(0);
    assert_eq!(init.text_at("method"), Some("initialize"));
    let answer = json(&format!(
        r#"{{"type":"response","requestId":"{}","resultType":"success","result":{{"clientId":"pet-client"}}}}"#,
        init.text_at("requestId").unwrap()
    ));
    observer.absorb(&frame(&answer));
    let message = observer.next().ok().unwrap().unwrap();
    assert!(observer
        .react(&mut bridge, &message, 1, 1000)
        .ok()
        .unwrap()
        .is_none());
    let sent = observer.tick(&mut bridge, 2).ok().unwrap();
    assert_eq!(sent.len(), 1);
    assert!(sent[0].same(&follow("pet-client", "task", true)));
    let msg = frame(&snapshot(
        r#"{"type":"active","activeFlags":["waitingOnApproval"]}"#,
    ));
    observer.absorb(&msg[..3]);
    assert!(observer.next().ok().unwrap().is_none());
    observer.absorb(&msg[3..]);
    let message = observer.next().ok().unwrap().unwrap();
    assert!(observer
        .react(&mut bridge, &message, 3, 1000)
        .ok()
        .unwrap()
        .is_none());
    let asked = json(
        r#"{"type":"client-discovery-request","requestId":"other","request":{"method":"dangerous-method"}}"#,
    );
    let response = observer
        .react(&mut bridge, &asked, 4, 1000)
        .ok()
        .unwrap()
        .unwrap();
    assert!(response.same(&json(
        r#"{"type":"client-discovery-response","requestId":"other","response":{"canHandle":false}}"#
    )));
    assert!(bridge.connected);
    let status = &bridge.tasks.get("task").unwrap().status;
    let flags = status.get("activeFlags").unwrap().as_array().unwrap();
    assert_eq!(flags[0].as_str(), Some("waitingOnApproval"));
    bridge.disconnected();
    let summary = bridge.summary();
    assert!(!summary.connected);
    assert_eq!(summary.observed_tasks, 0);
}

#[test]
fn a_connection_that_does_not_answer_is_given_up() {
    let mut bridge = fixture();
    let (mut observer, _) = Observer::start(0);
    assert!(observer.tick(&mut bridge, 4_000).is_ok());
    match observer.tick(&mut bridge, 6_000) {
        Err(why) => {
            assert_eq!(why, StreamError::NoAnswer);
            assert_eq!(why.message(), "Codex connection did not answer");
        }
        Ok(_) => panic!("nothing answered"),
    }
}

#[test]
fn a_registration_can_be_refused() {
    let mut bridge = fixture();
    let (mut observer, init) = Observer::start(0);
    let id = init.text_at("requestId").unwrap();
    let refused = json(&format!(
        r#"{{"type":"response","requestId":"{id}","resultType":"error"}}"#
    ));
    assert_eq!(
        observer.react(&mut bridge, &refused, 1, 1).err(),
        Some(StreamError::Registration)
    );
    let nameless = json(&format!(
        r#"{{"type":"response","requestId":"{id}","resultType":"success","result":{{}}}}"#
    ));
    assert_eq!(
        observer.react(&mut bridge, &nameless, 1, 1).err(),
        Some(StreamError::MissingClient)
    );
    assert!(!bridge.connected);
}

#[test]
fn a_frame_that_is_no_message_is_an_error() {
    let mut buf = 3u32.to_le_bytes().to_vec();
    buf.extend_from_slice(b"???");
    match next_frame(&mut buf) {
        Err(why) => {
            assert!(matches!(why, FrameError::Invalid));
            assert_eq!(why.message(), "invalid task frame");
        }
        Ok(_) => panic!("not a frame"),
    }
    let mut huge = ((MAX_FRAME + 1) as u32).to_le_bytes().to_vec();
    match next_frame(&mut huge) {
        Err(why) => assert_eq!(why.message(), "task snapshot exceeds limit"),
        Ok(_) => panic!("too large"),
    }
}

#[test]
fn a_status_is_patched_in_place() {
    let status = json(r#"{"type":"active","activeFlags":["a"]}"#);
    let patch = json(
        r#"{"op":"replace","path":["threadRuntimeStatus","activeFlags"],"value":["waitingOnApproval"]}"#,
    );
    let after = patch_status(&status, &patch).unwrap();
    assert!(after.same(&json(
        r#"{"activeFlags":["waitingOnApproval"],"type":"active"}"#
    )));
    assert!(valid_status(&json(r#"{"type":"idle"}"#)));
    assert!(!valid_status(&json("12")));
    assert!(refuse(&json(r#"{"a":1}"#)).is_object());
}

#[test]
fn only_codex_tasks_are_wanted() {
    let mut bridge = Bridge::new();
    let mut codex = Session::default();
    codex.session_id = "codex:task".into();
    codex.chat_id = "task".into();
    codex.provider = Provider::Codex;
    let mut sessions = vec![codex, Session::default()];
    decorate(&mut bridge, &mut sessions);
    assert_eq!(bridge.desired, ["task"]);
}

#[test]
fn only_a_private_socket_is_trusted() {
    assert!(socket_is_private(true, 7, 7, 7, 0o40700));
    assert!(!socket_is_private(false, 7, 7, 7, 0o40700));
    assert!(!socket_is_private(true, 8, 7, 8, 0o40700));
    assert!(!socket_is_private(true, 7, 7, 0, 0o40700));
    assert!(!socket_is_private(true, 7, 7, 7, 0o40701));
    assert!(!socket_is_private(true, 7, 7, 7, 0o40750));
}

#[test]
fn a_message_that_cannot_be_read_back_is_not_framed() {
    let message = json(r#"{"a":[1,-2,0.5,"x"]}"#);
    assert!(message.is_storable());
    assert_eq!(try_frame(&message), Some(frame(&message)));
    assert!(try_frame(&Json::Negative(1)).is_none());
    assert!(try_frame(&Json::Array(vec![Json::Decimal("half".into())])).is_none());
    let twice = vec![("a".to_string(), Json::Null), ("a".to_string(), Json::Null)];
    assert!(try_frame(&Json::Object(twice)).is_none());
}
