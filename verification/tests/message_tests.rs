use llmog::message::{Message, Role, UserMessage};

#[test]
fn wire_roles_are_spelled_out() {
    let m = Message { role: Role::System, content: b"prompt".to_vec() };
    let w: UserMessage = m.to_wire();
    assert_eq!(w.role, b"system".to_vec());
    assert_eq!(w.content, b"prompt".to_vec());

    let m = Message { role: Role::User, content: b"a line".to_vec() };
    assert_eq!(m.to_wire().role, b"user".to_vec());

    let m = Message { role: Role::Assistant, content: b"a reply".to_vec() };
    assert_eq!(m.to_wire().role, b"assistant".to_vec());
}
