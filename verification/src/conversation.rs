//! The history of a conversation: the messages in the order they came,
//! with a bound on how many are kept that spares the system prompt.

use vstd::prelude::*;
use crate::llm::{Message, MessageContent, Role};

verus! {

/// The messages of an agent's conversation, oldest first.
#[derive(Clone, Debug)]
pub struct Conversation {
    messages: Vec<Message>,
}

impl View for Conversation {
    type V = Seq<Message>;

    closed spec fn view(&self) -> Seq<Message> {
        self.messages@
    }
}

/// The text of the latest user message that holds text, if any.
pub open spec fn last_user_text(s: Seq<Message>) -> Option<Seq<char>>
    decreases s.len(),
{
    if s.len() == 0 {
        None
    } else if s.last().role == Role::User && s.last().content is Text {
        Some(s.last().content->Text_0@)
    } else {
        last_user_text(s.drop_last())
    }
}

/// The messages kept when at most `max` may stay: all of them if they
/// fit; else the latest `max - 1` after the first, where the first is a
/// system message and `max` exceeds one; else the latest `max`.
pub open spec fn truncated(s: Seq<Message>, max: int) -> Seq<Message> {
    if s.len() <= max {
        s
    } else if s[0].role == Role::System && max > 1 {
        seq![s[0]] + s.subrange(s.len() - (max - 1), s.len() as int)
    } else {
        s.subrange(s.len() - max, s.len() as int)
    }
}

/// Truncating keeps no more messages than allowed, as many as allowed
/// where there were more; it keeps a leading system prompt wherever more
/// than one message may stay, and otherwise the latest messages, in order.
pub proof fn law_truncate_keeps_prompt_and_latest(s: Seq<Message>, max: nat)
    ensures
        truncated(s, max as int).len() == if s.len() <= max { s.len() } else { max },
        s.len() > 0 && s[0].role == Role::System && max > 1 ==> truncated(s, max as int)[0] == s[0],
        forall|j: int|
            0 <= j < truncated(s, max as int).len() && !(j == truncated(s, max as int).len() - 1
                && s.len() > max && s[0].role == Role::System && max > 1)
                ==> #[trigger] truncated(s, max as int)[truncated(s, max as int).len() - 1 - j]
                == s[s.len() - 1 - j],
{
}

impl Conversation {
    /// An empty conversation.
    pub fn new() -> (c: Self)
        ensures
            c@ == Seq::<Message>::empty(),
    {
        Conversation { messages: Vec::new() }
    }

    /// A conversation that starts with a system prompt.
    pub fn with_system_prompt(prompt: String) -> (c: Self)
        ensures
            c@ == seq![Message { role: Role::System, content: MessageContent::Text(prompt) }],
    {
        let mut messages = Vec::new();
        messages.push(Message::system(prompt));
        Conversation { messages }
    }

    /// Adds a message at the end.
    pub fn push(&mut self, message: Message)
        ensures
            final(self)@ == old(self)@.push(message),
    {
        self.messages.push(message);
    }

    /// All the messages, oldest first.
    pub fn messages(&self) -> (r: &[Message])
        ensures
            r@ == self@,
    {
        self.messages.as_slice()
    }

    /// How many messages there are.
    pub fn len(&self) -> (n: usize)
        ensures
            n == self@.len(),
    {
        self.messages.len()
    }

    /// Whether there are no messages.
    pub fn is_empty(&self) -> (b: bool)
        ensures
            b == (self@.len() == 0),
    {
        self.messages.len() == 0
    }

    /// The text of the latest user message that holds text.
    pub fn last_user_message(&self) -> (r: Option<&str>)
        ensures
            match r {
                Some(t) => last_user_text(self@) == Some(t@),
                None => last_user_text(self@) is None,
            },
    {
        let mut i = self.messages.len();
        assert(self.messages@.take(i as int) =~= self.messages@);
        while i > 0
            invariant
                i <= self.messages@.len(),
                last_user_text(self.messages@) == last_user_text(self.messages@.take(i as int)),
            decreases i,
        {
            let m = &self.messages[i - 1];
            proof {
                let p = self.messages@.take(i as int);
                assert(p.last() == self.messages@[i - 1]);
                assert(p.drop_last() =~= self.messages@.take(i - 1));
            }
            if m.role == Role::User {
                if let MessageContent::Text(t) = &m.content {
                    return Some(t.as_str());
                }
            }
            i -= 1;
        }
        None
    }

    /// Keeps at most `max_messages` messages: the latest ones, and the
    /// system prompt in front of them where the conversation starts with
    /// one and more than one message may stay.
    pub fn truncate(&mut self, max_messages: usize)
        ensures
            final(self)@ == truncated(old(self)@, max_messages as int),
    {
        let n = self.messages.len();
        if n <= max_messages {
            return;
        }
        let has_system = self.messages[0].role == Role::System;
        if has_system && max_messages > 1 {
            let keep_start = n - (max_messages - 1);
            let mut tail = self.messages.split_off(keep_start);
            self.messages.truncate(1);
            self.messages.append(&mut tail);
        } else {
            let keep_start = n - max_messages;
            let tail = self.messages.split_off(keep_start);
            self.messages = tail;
        }
        proof {
            assert(self.messages@ =~= truncated(old(self)@, max_messages as int));
        }
    }
}

impl Default for Conversation {
    fn default() -> (c: Self)
        ensures
            c@ == Seq::<Message>::empty(),
    {
        Conversation::new()
    }
}

} // verus!
