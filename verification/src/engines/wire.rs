//! Conversations in the form that the services take them.
use vstd::prelude::*;

use crate::engines::{ChatMessage, ChatMessageView, ChatRole};
use crate::text::{join, lemma_join_push};

verus! {

/// One message of a request: the service's own word for the role, and the text.
#[derive(Debug)]
pub struct WireMessage {
    pub role: String,
    pub content: String,
}

/// What a [`WireMessage`] says.
pub struct WireMessageView {
    pub role: Seq<char>,
    pub content: Seq<char>,
}

impl View for WireMessage {
    type V = WireMessageView;

    open spec fn view(&self) -> WireMessageView {
        WireMessageView { role: self.role@, content: self.content@ }
    }
}

impl DeepView for WireMessage {
    type V = WireMessageView;

    open spec fn deep_view(&self) -> WireMessageView {
        self@
    }
}

/// The contents of the system messages, in order.
pub open spec fn system_parts(messages: Seq<ChatMessageView>) -> Seq<Seq<char>>
    decreases messages.len(),
{
    if messages.len() == 0 {
        Seq::empty()
    } else {
        let before = system_parts(messages.drop_last());
        let last = messages.last();
        if last.role is System {
            before.push(last.content)
        } else {
            before
        }
    }
}

/// The contents of the system messages as one text, a blank line apart; nothing
/// where there is no system message.
pub open spec fn system_text(messages: Seq<ChatMessageView>) -> Option<Seq<char>> {
    if system_parts(messages).len() == 0 {
        None
    } else {
        Some(join(system_parts(messages), "\n\n"@))
    }
}

/// The messages that are not system messages, in order, with the user's called
/// `user` and the model's called `model`.
pub open spec fn turns(
    messages: Seq<ChatMessageView>,
    user: Seq<char>,
    model: Seq<char>,
) -> Seq<WireMessageView>
    decreases messages.len(),
{
    if messages.len() == 0 {
        Seq::empty()
    } else {
        let before = turns(messages.drop_last(), user, model);
        let last = messages.last();
        match last.role {
            ChatRole::System => before,
            ChatRole::User => before.push(WireMessageView { role: user, content: last.content }),
            ChatRole::Assistant => before.push(
                WireMessageView { role: model, content: last.content },
            ),
        }
    }
}

/// The word for a role that the engines agree on.
pub open spec fn role_name(role: ChatRole) -> Seq<char> {
    match role {
        ChatRole::System => "system"@,
        ChatRole::User => "user"@,
        ChatRole::Assistant => "assistant"@,
    }
}

/// Every message, in order, under its role's name.
pub open spec fn named(messages: Seq<ChatMessageView>) -> Seq<WireMessageView> {
    messages.map_values(
        |m: ChatMessageView| WireMessageView { role: role_name(m.role), content: m.content },
    )
}

/// Every message under its role's name.
pub fn wire_named(messages: &[ChatMessage]) -> (r: Vec<WireMessage>)
    ensures
        r.deep_view() == named(messages.deep_view()),
        r@.len() == messages@.len(),
        forall|i: int| 0 <= i < r@.len() ==> (#[trigger] r@[i]).content@ == messages@[i].content@,
{
    let n: usize = messages.len();
    let mut r: Vec<WireMessage> = Vec::new();
    for i in 0..n
        invariant
            n == messages@.len(),
            r@.len() == i,
            forall|k: int|
                0 <= k < i ==> (#[trigger] r@[k])@ == (WireMessageView {
                    role: role_name(messages@[k].role),
                    content: messages@[k].content@,
                }),
    {
        let role: &str = match messages[i].role {
            ChatRole::System => "system",
            ChatRole::User => "user",
            ChatRole::Assistant => "assistant",
        };
        r.push(WireMessage { role: role.to_string(), content: messages[i].content.clone() });
    }
    assert(r.deep_view() =~= named(messages.deep_view()));
    r
}

/// The text of the system messages, where there are any.
pub fn join_system(messages: &[ChatMessage]) -> (r: Option<String>)
    ensures
        r.deep_view() == system_text(messages.deep_view()),
{
    let n: usize = messages.len();
    let ghost all = messages.deep_view();
    let mut r: Option<String> = None;
    assert(all.take(0) =~= Seq::empty());
    for i in 0..n
        invariant
            n == messages@.len(),
            all == messages.deep_view(),
            r.deep_view() == system_text(all.take(i as int)),
    {
        let ghost parts = system_parts(all.take(i as int));
        proof {
            assert(all.take(i + 1).drop_last() =~= all.take(i as int));
            assert(all.take(i + 1).last() == messages@[i as int]@);
            lemma_join_push(parts, messages@[i as int].content@, "\n\n"@);
        }
        if messages[i].role == ChatRole::System {
            let content: &str = messages[i].content.as_str();
            r = match r {
                None => Some(content.to_string()),
                Some(before) => Some(before.concat("\n\n").concat(content)),
            };
        }
    }
    assert(all.take(n as int) =~= all);
    r
}

/// The messages that are not system messages.
pub fn wire_turns(messages: &[ChatMessage], user: &str, model: &str) -> (r: Vec<WireMessage>)
    ensures
        r.deep_view() == turns(messages.deep_view(), user@, model@),
{
    let n: usize = messages.len();
    let ghost all = messages.deep_view();
    let mut r: Vec<WireMessage> = Vec::new();
    assert(all.take(0) =~= Seq::empty());
    assert(r.deep_view() =~= Seq::empty());
    for i in 0..n
        invariant
            n == messages@.len(),
            all == messages.deep_view(),
            r.deep_view() == turns(all.take(i as int), user@, model@),
    {
        let ghost before = r.deep_view();
        proof {
            assert(all.take(i + 1).drop_last() =~= all.take(i as int));
            assert(all.take(i + 1).last() == messages@[i as int]@);
        }
        let content: &String = &messages[i].content;
        match messages[i].role {
            ChatRole::System => {},
            ChatRole::User => {
                let message = WireMessage { role: user.to_string(), content: content.clone() };
                r.push(message);
                assert(r.deep_view() =~= before.push(message@));
            },
            ChatRole::Assistant => {
                let message = WireMessage { role: model.to_string(), content: content.clone() };
                r.push(message);
                assert(r.deep_view() =~= before.push(message@));
            },
        }
    }
    assert(all.take(n as int) =~= all);
    r
}

/// Every message of a conversation is either part of the system text or a turn,
/// and no turn carries another name than the two that it may have.
pub proof fn law_no_message_is_lost(
    messages: Seq<ChatMessageView>,
    user: Seq<char>,
    model: Seq<char>,
)
    ensures
        system_parts(messages).len() + turns(messages, user, model).len() == messages.len(),
        forall|i: int|
            0 <= i < turns(messages, user, model).len() ==> {
                let role = (#[trigger] turns(messages, user, model)[i]).role;
                role == user || role == model
            },
    decreases messages.len(),
{
    if messages.len() > 0 {
        let rest = messages.drop_last();
        law_no_message_is_lost(rest, user, model);
        let before = turns(rest, user, model);
        assert forall|i: int| 0 <= i < turns(messages, user, model).len() implies {
            let role = (#[trigger] turns(messages, user, model)[i]).role;
            role == user || role == model
        } by {
            if i < before.len() {
                assert(turns(messages, user, model)[i] == before[i]);
            }
        }
    }
}

/// Every message goes out in its place, under its role's name and with its
/// content as it was written, character for character.
pub proof fn law_named_messages_are_sent_as_written(messages: Seq<ChatMessageView>)
    ensures
        named(messages).len() == messages.len(),
        forall|i: int|
            0 <= i < messages.len() ==> (#[trigger] named(messages)[i]).content
                == messages[i].content,
        forall|i: int|
            0 <= i < messages.len() ==> (#[trigger] named(messages)[i]).role
                == match messages[i].role {
                ChatRole::System => "system"@,
                ChatRole::User => "user"@,
                ChatRole::Assistant => "assistant"@,
            },
{
}

/// The turns are the messages other than the system's, all of them and in order,
/// each with its content as it was written and under its author's name.
pub proof fn law_turns_are_sent_as_written(
    messages: Seq<ChatMessageView>,
    user: Seq<char>,
    model: Seq<char>,
)
    ensures
        ({
            let others = messages.filter(|m: ChatMessageView| m.role != ChatRole::System);
            let sent = turns(messages, user, model);
            &&& sent.len() == others.len()
            &&& forall|i: int|
                0 <= i < sent.len() ==> (#[trigger] sent[i]).content == others[i].content
            &&& forall|i: int|
                0 <= i < sent.len() ==> (#[trigger] sent[i]).role == if others[i].role
                    == ChatRole::User {
                    user
                } else {
                    model
                }
        }),
    decreases messages.len(),
{
    reveal(Seq::filter);
    if messages.len() > 0 {
        law_turns_are_sent_as_written(messages.drop_last(), user, model);
    }
}

/// One more system message goes behind those before it, a blank line apart and as
/// it was written; one more turn changes nothing of the system's text.
pub proof fn law_system_messages_are_sent_as_written(
    messages: Seq<ChatMessageView>,
    message: ChatMessageView,
)
    ensures
        system_text(Seq::empty()) is None,
        message.role != ChatRole::System ==> system_text(messages.push(message)) == system_text(
            messages,
        ),
        message.role == ChatRole::System ==> system_text(messages.push(message))
            == match system_text(messages) {
            None => Some(message.content),
            Some(before) => Some(before + seq!['\n', '\n'] + message.content),
        },
{
    reveal_strlit("\n\n");
    assert("\n\n"@ =~= seq!['\n', '\n']);
    assert(messages.push(message).drop_last() =~= messages);
    lemma_join_push(system_parts(messages), message.content, "\n\n"@);
}

} // verus!
