//! Assembly of the message list for a backend chat request: the system
//! prompt first, the recent context pairs as alternating user and assistant
//! turns, and the current input as the final user turn.

use vstd::prelude::*;

verus! {

/// Who speaks a message.
#[derive(Clone, Copy, PartialEq, Eq, Structural, Debug)]
pub enum Role {
    System,
    User,
    Assistant,
}

/// One message of a backend chat request.
pub struct ChatMessage {
    pub role: Role,
    pub content: String,
}

/// Build the backend message list from the prompt context.
pub fn build_messages(system_prompt: &str, context: &Vec<(String, String)>, current: &str) -> (msgs:
    Vec<ChatMessage>)
    ensures
        msgs@.len() == 2 + 2 * context@.len(),
        msgs@[0].role == Role::System && msgs@[0].content@ == system_prompt@,
        forall|k: int|
            0 <= k < context@.len() ==> {
                &&& (#[trigger] msgs@[1 + 2 * k]).role == Role::User
                &&& msgs@[1 + 2 * k].content@ == context@[k].0@
                &&& msgs@[2 + 2 * k].role == Role::Assistant
                &&& msgs@[2 + 2 * k].content@ == context@[k].1@
            },
        msgs@.last().role == Role::User && msgs@.last().content@ == current@,
{
    let mut msgs: Vec<ChatMessage> = Vec::new();
    msgs.push(ChatMessage { role: Role::System, content: system_prompt.to_owned() });
    let n = context.len();
    let mut k: usize = 0;
    while k < n
        invariant
            0 <= k <= n,
            n == context@.len(),
            msgs@.len() == 1 + 2 * k,
            msgs@[0].role == Role::System && msgs@[0].content@ == system_prompt@,
            forall|j: int|
                0 <= j < k ==> {
                    &&& (#[trigger] msgs@[1 + 2 * j]).role == Role::User
                    &&& msgs@[1 + 2 * j].content@ == context@[j].0@
                    &&& msgs@[2 + 2 * j].role == Role::Assistant
                    &&& msgs@[2 + 2 * j].content@ == context@[j].1@
                },
        decreases n - k,
    {
        msgs.push(ChatMessage { role: Role::User, content: context[k].0.clone() });
        msgs.push(ChatMessage { role: Role::Assistant, content: context[k].1.clone() });
        k = k + 1;
    }
    msgs.push(ChatMessage { role: Role::User, content: current.to_owned() });
    msgs
}

} // verus!
