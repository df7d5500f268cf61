//! Chat messages as the backend protocol sees them.
//!
//! Inside the pipeline a message role is the [`Role`] enum; on the wire it is
//! the lowercase role name. [`UserMessage`] is the wire form, and the reply
//! role check compares the raw bytes a backend reported against the one role
//! the protocol allows in replies.

use vstd::prelude::*;

verus! {

/// The role a chat message is sent under. A request holds exactly one
/// `System` message first, then alternating `User`/`Assistant` history, then
/// the current `User` line.
#[derive(Clone, Copy, Debug, PartialEq, Eq, Structural)]
pub enum Role {
    System,
    User,
    Assistant,
}

/// One message of a chat request: a role and opaque text.
#[derive(Clone, Debug)]
pub struct Message {
    pub role: Role,
    pub content: Vec<u8>,
}

/// A message in wire form: the role spelled out as the protocol does.
#[derive(Clone, Debug)]
pub struct UserMessage {
    pub role: Vec<u8>,
    pub content: Vec<u8>,
}

/// The bytes of a role's wire name.
pub open spec fn role_bytes(r: Role) -> Seq<u8> {
    match r {
        Role::System => seq![115u8, 121u8, 115u8, 116u8, 101u8, 109u8],
        Role::User => seq![117u8, 115u8, 101u8, 114u8],
        Role::Assistant => seq![97u8, 115u8, 115u8, 105u8, 115u8, 116u8, 97u8, 110u8, 116u8],
    }
}

/// The wire name of a role: `system`, `user` or `assistant`.
pub fn role_name(r: Role) -> (v: Vec<u8>)
    ensures
        v@ == role_bytes(r),
{
    let mut v: Vec<u8> = Vec::new();
    match r {
        Role::System => {
            v.push(115);
            v.push(121);
            v.push(115);
            v.push(116);
            v.push(101);
            v.push(109);
        },
        Role::User => {
            v.push(117);
            v.push(115);
            v.push(101);
            v.push(114);
        },
        Role::Assistant => {
            v.push(97);
            v.push(115);
            v.push(115);
            v.push(105);
            v.push(115);
            v.push(116);
            v.push(97);
            v.push(110);
            v.push(116);
        },
    }
    proof {
        assert(v@ =~= role_bytes(r));
    }
    v
}

/// A message as seen by contracts: its role and the bytes of its content.
pub open spec fn msg_view(m: Message) -> (Role, Seq<u8>) {
    (m.role, m.content@)
}

impl Message {
    /// The wire form of this message.
    pub fn to_wire(&self) -> (w: UserMessage)
        ensures
            w.role@ == role_bytes(self.role),
            w.content@ == self.content@,
    {
        let content = self.content.clone();
        proof {
            assert(content@ =~= self.content@);
        }
        UserMessage { role: role_name(self.role), content }
    }
}

/// Whether a reply came back under the one role the protocol allows,
/// `assistant`. Any other responder role is a protocol violation.
pub fn is_assistant_role(role: &Vec<u8>) -> (r: bool)
    ensures
        r == (role@ == role_bytes(Role::Assistant)),
{
    let expected = role_name(Role::Assistant);
    crate::text::bytes_eq(role, &expected)
}

} // verus!
