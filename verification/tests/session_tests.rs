use llmog::message::{Message, Role};
use llmog::session::{
    BackendErrorKind, ChatEvent, LineStart, ScoringSession, SessionConfig, StepOutcome,
};

fn config() -> SessionConfig {
    SessionConfig { context_capacity: 3, malformed_limit: 5, timeout_limit: 1 }
}

fn session() -> ScoringSession {
    ScoringSession::new(config(), b"judge the last line".to_vec())
}

fn reply(text: &str) -> ChatEvent {
    ChatEvent::Reply { role: b"assistant".to_vec(), content: text.as_bytes().to_vec() }
}

fn request_of(start: LineStart) -> Vec<Message> {
    match start {
        LineStart::Request(msgs) => msgs,
        LineStart::Blank => panic!("expected a request"),
    }
}

#[test]
fn blank_lines_make_no_request_and_touch_nothing() {
    let mut s = session();
    assert!(matches!(s.begin_line(b"".to_vec()), LineStart::Blank));
    assert!(matches!(s.begin_line(b"   \t ".to_vec()), LineStart::Blank));
    // the next request still has only the system prompt and the line
    let msgs = request_of(s.begin_line(b"real line".to_vec()));
    assert_eq!(msgs.len(), 2);
}

#[test]
fn scored_line_renders_and_is_remembered() {
    let mut s = session();
    let msgs = request_of(s.begin_line(b"disk full on /dev/sda1".to_vec()));
    assert_eq!(msgs.len(), 2);
    assert!(matches!(msgs[0].role, Role::System));
    assert_eq!(msgs[0].content, b"judge the last line".to_vec());
    assert!(matches!(msgs[1].role, Role::User));
    assert_eq!(msgs[1].content, b"disk full on /dev/sda1".to_vec());

    match s.on_chat_event(reply("Critical disk capacity issue\nSCORE: 92")) {
        StepOutcome::Scored { reason, score } => {
            assert_eq!(reason, b"Critical disk capacity issue".to_vec());
            assert_eq!(score.milli, 92_000);
            // 92 maps high on the gradient
            assert_eq!(score.clamped_milli(), 92_000);
        }
        other => panic!("expected a scored line, got {other:?}"),
    }

    // the exchange is now context for the next line
    let msgs = request_of(s.begin_line(b"next line".to_vec()));
    assert_eq!(msgs.len(), 4);
    assert!(matches!(msgs[0].role, Role::System));
    assert!(matches!(msgs[1].role, Role::User));
    assert_eq!(msgs[1].content, b"disk full on /dev/sda1".to_vec());
    assert!(matches!(msgs[2].role, Role::Assistant));
    assert_eq!(msgs[2].content, b"Critical disk capacity issue\nSCORE: 92".to_vec());
    assert!(matches!(msgs[3].role, Role::User));
    assert_eq!(msgs[3].content, b"next line".to_vec());
}

#[test]
fn third_attempt_at_the_limit_is_used() {
    let cfg = SessionConfig { context_capacity: 3, malformed_limit: 2, timeout_limit: 1 };
    let mut s = ScoringSession::new(cfg, b"prompt".to_vec());
    s.begin_line(b"some line".to_vec());
    // two multi-line reasons are retried
    assert!(matches!(
        s.on_chat_event(reply("first reason\nspilling over\nSCORE: 10")),
        StepOutcome::Retry
    ));
    assert!(matches!(
        s.on_chat_event(reply("second reason\nagain long\nSCORE: 20")),
        StepOutcome::Retry
    ));
    // the third attempt, at the retry limit, is single-line and must be used
    match s.on_chat_event(reply("third reason\nSCORE: 30")) {
        StepOutcome::Scored { reason, score } => {
            assert_eq!(reason, b"third reason".to_vec());
            assert_eq!(score.milli, 30_000);
        }
        other => panic!("third reply must be used, got {other:?}"),
    }
}

#[test]
fn multi_line_reason_at_the_limit_keeps_its_last_line() {
    let cfg = SessionConfig { context_capacity: 3, malformed_limit: 1, timeout_limit: 1 };
    let mut s = ScoringSession::new(cfg, b"prompt".to_vec());
    s.begin_line(b"some line".to_vec());
    assert!(matches!(
        s.on_chat_event(reply("one\ntwo\nSCORE: 10")),
        StepOutcome::Retry
    ));
    match s.on_chat_event(reply("three\nfour\nSCORE: 20")) {
        StepOutcome::Scored { reason, score } => {
            assert_eq!(reason, b"four".to_vec());
            assert_eq!(score.milli, 20_000);
        }
        other => panic!("final attempt must keep the last line, got {other:?}"),
    }
}

#[test]
fn unparseable_garbage_exhausts_retries_and_line_stays_uncolored() {
    let mut s = session();
    s.begin_line(b"some line".to_vec());
    for _ in 0..5 {
        assert!(matches!(s.on_chat_event(reply("garbage with no score")), StepOutcome::Retry));
    }
    assert!(matches!(s.on_chat_event(reply("still garbage")), StepOutcome::Unscored));
    // nothing was remembered: the next request holds no history
    let msgs = request_of(s.begin_line(b"next".to_vec()));
    assert_eq!(msgs.len(), 2);
}

#[test]
fn timeouts_exhaust_their_own_budget() {
    let mut s = session();
    s.begin_line(b"some line".to_vec());
    let timeout = ChatEvent::Failed { error: BackendErrorKind::Timeout { millis: 10_000 } };
    assert!(matches!(s.on_chat_event(timeout), StepOutcome::Retry));
    let timeout = ChatEvent::Failed { error: BackendErrorKind::Timeout { millis: 10_000 } };
    assert!(matches!(s.on_chat_event(timeout), StepOutcome::Unscored));
    // the session moves on to the next line
    let msgs = request_of(s.begin_line(b"next".to_vec()));
    assert_eq!(msgs.len(), 2);
}

#[test]
fn wrong_responder_role_is_fatal() {
    let mut s = session();
    s.begin_line(b"some line".to_vec());
    let ev = ChatEvent::Reply { role: b"system".to_vec(), content: b"r\nSCORE: 5".to_vec() };
    match s.on_chat_event(ev) {
        StepOutcome::Fatal { error } => assert_eq!(error, BackendErrorKind::ProtocolError),
        other => panic!("a wrong role must be fatal, got {other:?}"),
    }
}

#[test]
fn connection_and_model_failures_are_fatal() {
    let mut s = session();
    s.begin_line(b"a line".to_vec());
    match s.on_chat_event(ChatEvent::Failed { error: BackendErrorKind::ConnectionError }) {
        StepOutcome::Fatal { error } => assert_eq!(error, BackendErrorKind::ConnectionError),
        other => panic!("a connection error must be fatal, got {other:?}"),
    }
    let mut s = session();
    s.begin_line(b"a line".to_vec());
    match s.on_chat_event(ChatEvent::Failed { error: BackendErrorKind::ModelUnavailable }) {
        StepOutcome::Fatal { error } => assert_eq!(error, BackendErrorKind::ModelUnavailable),
        other => panic!("an unavailable model must be fatal, got {other:?}"),
    }
}

#[test]
fn a_failed_line_never_pollutes_context_but_a_scored_one_follows() {
    let mut s = session();
    s.begin_line(b"bad line".to_vec());
    for _ in 0..6 {
        s.on_chat_event(reply("garbage"));
    }
    s.begin_line(b"good line".to_vec());
    match s.on_chat_event(reply("fine\nSCORE: 10")) {
        StepOutcome::Scored { .. } => {}
        other => panic!("expected a scored line, got {other:?}"),
    }
    let msgs = request_of(s.begin_line(b"third".to_vec()));
    // only the good exchange is remembered
    assert_eq!(msgs.len(), 4);
    assert_eq!(msgs[1].content, b"good line".to_vec());
}

#[test]
fn retries_resubmit_the_identical_request() {
    let mut s = session();
    let first = request_of(s.begin_line(b"a line".to_vec()));
    assert!(matches!(s.on_chat_event(reply("garbage")), StepOutcome::Retry));
    let again = s.current_request();
    assert_eq!(first.len(), again.len());
    for (a, b) in first.iter().zip(again.iter()) {
        assert_eq!(a.content, b.content);
    }
}

#[test]
fn output_follows_input_order_line_by_line() {
    let mut s = session();
    let mut outputs: Vec<String> = Vec::new();
    for (line, reply_text) in [
        ("first", "one\nSCORE: 1"),
        ("second", "two\nSCORE: 2"),
        ("third", "three\nSCORE: 3"),
    ] {
        match s.begin_line(line.as_bytes().to_vec()) {
            LineStart::Blank => outputs.push(String::new()),
            LineStart::Request(_) => match s.on_chat_event(reply(reply_text)) {
                StepOutcome::Scored { reason, .. } => {
                    outputs.push(String::from_utf8(reason).unwrap())
                }
                _ => panic!("expected scored"),
            },
        }
    }
    assert_eq!(outputs, vec!["one".to_string(), "two".to_string(), "three".to_string()]);
}
