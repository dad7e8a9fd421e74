//! Conversation messages and the context-reduction seam every Mapper run
//! passes its prompt through before the LLM call.
use vstd::prelude::*;
use crate::text::owned;

verus! {

/// Who a message is from.
#[derive(Debug, Clone, Copy, PartialEq, Eq, Structural)]
pub enum Role {
    System,
    User,
    Assistant,
}

/// One conversation message.
#[derive(Debug)]
pub struct Message {
    pub role: Role,
    pub content: String,
}

/// Synchronous transform on a message list, applied before every LLM call.
pub trait ContextReducer {
    fn reduce(&self, messages: Vec<Message>) -> Vec<Message>;
}

/// The default reducer: returns its input unchanged.
pub struct PassthroughContextReducer;

impl ContextReducer for PassthroughContextReducer {
    fn reduce(&self, messages: Vec<Message>) -> (r: Vec<Message>)
        ensures
            r == messages,
    {
        messages
    }
}

/// The lower-case label of a role, as it is written in a combined prompt.
pub open spec fn role_label(r: Role) -> Seq<char> {
    match r {
        Role::System => "system"@,
        Role::User => "user"@,
        Role::Assistant => "assistant"@,
    }
}

/// One message as it appears in a combined prompt: `[role]\ncontent`.
pub open spec fn render_message(m: Message) -> Seq<char> {
    "["@ + role_label(m.role) + "]\n"@ + m.content@
}

/// The messages rendered and joined with blank lines between them.
pub open spec fn combined_prompt(ms: Seq<Message>) -> Seq<char>
    decreases ms.len(),
{
    if ms.len() == 0 {
        Seq::empty()
    } else if ms.len() == 1 {
        render_message(ms[0])
    } else {
        combined_prompt(ms.drop_last()) + "\n\n"@ + render_message(ms.last())
    }
}

fn role_label_exec(r: Role) -> (s: &'static str)
    ensures
        s@ == role_label(r),
{
    match r {
        Role::System => "system",
        Role::User => "user",
        Role::Assistant => "assistant",
    }
}

/// Collapses a message list into the single prompt string the LLM client
/// takes: each message as `[role]\ncontent`, separated by a blank line.
pub fn combine_prompt(messages: &Vec<Message>) -> (r: String)
    ensures
        r@ == combined_prompt(messages@),
{
    let mut out = String::new();
    let mut i: usize = 0;
    while i < messages.len()
        invariant
            i <= messages@.len(),
            out@ == combined_prompt(messages@.subrange(0, i as int)),
        decreases messages@.len() - i,
    {
        let m = &messages[i];
        if i > 0 {
            out.append("\n\n");
        }
        out.append("[");
        out.append(role_label_exec(m.role));
        out.append("]\n");
        out.append(m.content.as_str());
        proof {
            let pre = messages@.subrange(0, i + 1);
            assert(pre.drop_last() =~= messages@.subrange(0, i as int));
            assert(pre.last() == messages@[i as int]);
            if i == 0 {
                assert(pre.len() == 1);
                assert(out@ =~= render_message(pre[0]));
            } else {
                assert(out@ =~= combined_prompt(pre.drop_last()) + "\n\n"@ + render_message(pre.last()));
            }
        }
        i = i + 1;
    }
    assert(messages@.subrange(0, i as int) =~= messages@);
    out
}

/// A message with the given role and content.
pub fn message(role: Role, content: &str) -> (r: Message)
    ensures
        r.role == role,
        r.content@ == content@,
{
    Message { role, content: owned(content) }
}

} // verus!
