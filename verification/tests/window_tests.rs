use llmog::context::{ContextWindow, Exchange};
use llmog::message::Role;

fn ex(req: &str, rep: &str) -> Exchange {
    Exchange { request: req.as_bytes().to_vec(), reply: rep.as_bytes().to_vec() }
}

#[test]
fn window_never_exceeds_capacity_and_keeps_most_recent() {
    let mut w = ContextWindow::new(3);
    for i in 0..5 {
        let line = format!("line {i}");
        let reply = format!("reply {i}");
        w.push(ex(&line, &reply));
        assert!(w.len() <= 3);
    }
    assert_eq!(w.len(), 3);
    // oldest-first: lines 2, 3, 4 survive
    assert_eq!(w.entries[0].request, b"line 2".to_vec());
    assert_eq!(w.entries[1].request, b"line 3".to_vec());
    assert_eq!(w.entries[2].request, b"line 4".to_vec());
}

#[test]
fn zero_capacity_window_stores_nothing() {
    let mut w = ContextWindow::new(0);
    w.push(ex("a", "b"));
    assert_eq!(w.len(), 0);
    assert_eq!(w.to_messages().len(), 0);
}

#[test]
fn messages_alternate_user_and_assistant_oldest_first() {
    let mut w = ContextWindow::new(2);
    w.push(ex("first line", "first reply"));
    w.push(ex("second line", "second reply"));
    let msgs = w.to_messages();
    assert_eq!(msgs.len(), 4);
    assert!(matches!(msgs[0].role, Role::User));
    assert_eq!(msgs[0].content, b"first line".to_vec());
    assert!(matches!(msgs[1].role, Role::Assistant));
    assert_eq!(msgs[1].content, b"first reply".to_vec());
    assert!(matches!(msgs[2].role, Role::User));
    assert_eq!(msgs[2].content, b"second line".to_vec());
    assert!(matches!(msgs[3].role, Role::Assistant));
    assert_eq!(msgs[3].content, b"second reply".to_vec());
}
