//! Messages of the agent chat, and the chat history the daemon keeps.

use vstd::prelude::*;
use crate::json::{
    into_array, into_member, json_get, optional_string, optional_string_member, str_member, string_member, Json,
};
use crate::types::opt_view;

verus! {

/// Who wrote a chat message.
#[derive(Debug, Clone, Copy, PartialEq, Eq, Structural)]
pub enum ChatRole {
    User,
    Assistant,
}

/// Progress of a tool call the agent made.
#[derive(Debug, Clone, Copy, PartialEq, Eq, Structural)]
pub enum ToolStatus {
    Running,
    Success,
    Failed,
}

/// The text of an agent answer while it streams in.
#[derive(Debug, Clone, PartialEq, Eq)]
pub struct StreamingState {
    pub text_buffer: String,
}

impl Default for StreamingState {
    fn default() -> (r: StreamingState)
        ensures
            r.text_buffer@.len() == 0,
    {
        StreamingState { text_buffer: String::new() }
    }
}

/// A tool call shown in the chat.
#[derive(Debug, PartialEq, Eq)]
pub struct ToolCall {
    pub id: String,
    pub name: String,
    pub args: Json,
    pub status: ToolStatus,
    pub output: Option<String>,
}

/// What a chat message shows.
#[derive(Debug, PartialEq, Eq)]
pub enum ChatContent {
    Text(String),
    ToolCall(ToolCall),
}

/// A message of the conversation; `timestamp` is in milliseconds since the
/// Unix epoch (UTC).
#[derive(Debug, PartialEq, Eq)]
pub struct ChatMessage {
    pub id: String,
    pub role: ChatRole,
    pub content: ChatContent,
    pub timestamp: i64,
    /// The client that sent the message ("tui", "mcp", ...).
    pub client_id: Option<String>,
}

/// A fresh random identifier: `uuid::Uuid::new_v4()` in its hyphenated
/// form, which is 36 characters long.
#[verifier::external_body]
fn fresh_id() -> (r: String)
    ensures
        r@.len() == 36,
{
    uuid::Uuid::new_v4().to_string()
}

/// The time now, `chrono::Utc::now()`, in milliseconds since the epoch.
/// Nothing is promised of it.
#[verifier::external_body]
fn now_millis() -> i64 {
    chrono::Utc::now().timestamp_millis()
}

/// The instant an RFC 3339 text denotes, in milliseconds since the epoch,
/// as `chrono` reads it (`None` where it refuses the text).
pub uninterp spec fn rfc3339_millis(text: Seq<char>) -> Option<i64>;

/// Reads an RFC 3339 timestamp with `chrono::DateTime::parse_from_rfc3339`.
/// The contract only names the result: it depends on the text alone.
#[verifier::external_body]
fn parse_rfc3339_millis(text: &str) -> (r: Option<i64>)
    ensures
        r == rfc3339_millis(text@),
{
    match chrono::DateTime::parse_from_rfc3339(text) {
        Ok(t) => Some(t.timestamp_millis()),
        Err(_) => None,
    }
}

impl ChatMessage {
    /// A message the user typed in this terminal.
    pub fn user(content: &str) -> (r: ChatMessage)
        ensures
            r.role == ChatRole::User,
            r.content matches ChatContent::Text(t) && t@ == content@,
            opt_view(r.client_id) == Some("tui"@),
            r.id@.len() == 36,
    {
        ChatMessage {
            id: fresh_id(),
            role: ChatRole::User,
            content: ChatContent::Text(String::from_str(content)),
            timestamp: now_millis(),
            client_id: Some(String::from_str("tui")),
        }
    }

    /// A text answer of the agent.
    pub fn assistant(content: &str) -> (r: ChatMessage)
        ensures
            r.role == ChatRole::Assistant,
            r.content matches ChatContent::Text(t) && t@ == content@,
            r.client_id is None,
            r.id@.len() == 36,
    {
        ChatMessage {
            id: fresh_id(),
            role: ChatRole::Assistant,
            content: ChatContent::Text(String::from_str(content)),
            timestamp: now_millis(),
            client_id: None,
        }
    }

    /// A tool call of the agent.
    pub fn assistant_tool(call: ToolCall) -> (r: ChatMessage)
        ensures
            r.role == ChatRole::Assistant,
            r.content == ChatContent::ToolCall(call),
            r.client_id is None,
            r.id@.len() == 36,
    {
        ChatMessage {
            id: fresh_id(),
            role: ChatRole::Assistant,
            content: ChatContent::ToolCall(call),
            timestamp: now_millis(),
            client_id: None,
        }
    }
}

/// A chat message as the daemon stores it.
#[derive(Debug, PartialEq, Eq)]
pub struct DaemonChatMessage {
    pub role: String,
    pub content: DaemonChatContent,
    pub timestamp: String,
}

/// The content of a stored chat message.
#[derive(Debug, PartialEq, Eq)]
pub enum DaemonChatContent {
    Text { text: String },
    ToolCall { name: String, args: Json, output: Option<String>, status: String },
}

/// How the content object of a stored message reads: its `type` is
/// `"text"` (with a string `text`) or `"tool_call"` (with a string `name`
/// and `status`, any `args`, null when absent, and an optional string
/// `output`).
pub open spec fn daemon_content_of(c: Json) -> Option<DaemonChatContent> {
    if !(c is Object) {
        None
    } else if str_member(c, "type"@) matches Some(t) && t@ == "text"@ {
        match str_member(c, "text"@) {
            Some(text) => Some(DaemonChatContent::Text { text }),
            None => None,
        }
    } else if str_member(c, "type"@) matches Some(t) && t@ == "tool_call"@ {
        if str_member(c, "name"@) is Some && optional_string(json_get(c, "output"@)) is Some
            && str_member(c, "status"@) is Some {
            Some(DaemonChatContent::ToolCall {
                name: str_member(c, "name"@)->0,
                args: match json_get(c, "args"@) {
                    Some(a) => a,
                    None => Json::Null,
                },
                output: optional_string(json_get(c, "output"@))->0,
                status: str_member(c, "status"@)->0,
            })
        } else {
            None
        }
    } else {
        None
    }
}

/// How a stored message reads: an object with a string `role`, a content
/// object and a string `timestamp`.
pub open spec fn daemon_message_of(j: Json) -> Option<DaemonChatMessage> {
    if j is Object && str_member(j, "role"@) is Some && str_member(j, "timestamp"@) is Some
        && json_get(j, "content"@) is Some && daemon_content_of(json_get(j, "content"@)->0) is Some {
        Some(DaemonChatMessage {
            role: str_member(j, "role"@)->0,
            content: daemon_content_of(json_get(j, "content"@)->0)->0,
            timestamp: str_member(j, "timestamp"@)->0,
        })
    } else {
        None
    }
}

fn str_is(s: &String, lit: &str) -> (r: bool)
    ensures
        r == (s@ == lit@),
{
    *s == String::from_str(lit)
}

impl DaemonChatContent {
    /// Reads the content object of a stored message.
    pub fn from_json(c: Json) -> (r: Option<DaemonChatContent>)
        ensures
            r == daemon_content_of(c),
    {
        if !matches!(c, Json::Object(_)) {
            return None;
        }
        let kind = match string_member(&c, "type") {
            Some(k) => k,
            None => { return None; },
        };
        if str_is(&kind, "text") {
            match string_member(&c, "text") {
                Some(text) => Some(DaemonChatContent::Text { text }),
                None => None,
            }
        } else if str_is(&kind, "tool_call") {
            let name = match string_member(&c, "name") {
                Some(x) => x,
                None => { return None; },
            };
            let output = match optional_string_member(&c, "output") {
                Some(x) => x,
                None => { return None; },
            };
            let status = match string_member(&c, "status") {
                Some(x) => x,
                None => { return None; },
            };
            let args = match into_member(c, "args") {
                Some(a) => a,
                None => Json::Null,
            };
            Some(DaemonChatContent::ToolCall { name, args, output, status })
        } else {
            None
        }
    }
}

impl DaemonChatMessage {
    /// Reads a stored message.
    pub fn from_json(j: Json) -> (r: Option<DaemonChatMessage>)
        ensures
            r == daemon_message_of(j),
    {
        if !matches!(j, Json::Object(_)) {
            return None;
        }
        let role = match string_member(&j, "role") {
            Some(x) => x,
            None => { return None; },
        };
        let timestamp = match string_member(&j, "timestamp") {
            Some(x) => x,
            None => { return None; },
        };
        let content = match into_member(j, "content") {
            Some(c) => c,
            None => { return None; },
        };
        match DaemonChatContent::from_json(content) {
            Some(content) => Some(DaemonChatMessage { role, content, timestamp }),
            None => None,
        }
    }
}

/// The role a stored role name stands for.
pub open spec fn role_of(role: Seq<char>) -> ChatRole {
    if role == "user"@ { ChatRole::User } else { ChatRole::Assistant }
}

/// The tool status a stored status name stands for.
pub open spec fn tool_status_of(status: Seq<char>) -> ToolStatus {
    if status == "running"@ {
        ToolStatus::Running
    } else if status == "failed"@ {
        ToolStatus::Failed
    } else {
        ToolStatus::Success
    }
}

/// `m` is the chat message made of the stored message `d`: the same role,
/// text or tool call (with a fresh id), the stored time where it reads as
/// RFC 3339, and no client.
pub open spec fn converted(d: DaemonChatMessage, m: ChatMessage) -> bool {
    &&& m.role == role_of(d.role@)
    &&& m.id@.len() == 36
    &&& m.client_id is None
    &&& (rfc3339_millis(d.timestamp@) matches Some(t) ==> m.timestamp == t)
    &&& match d.content {
        DaemonChatContent::Text { text } => m.content == ChatContent::Text(text),
        DaemonChatContent::ToolCall { name, args, output, status } => m.content matches ChatContent::ToolCall(c)
            && c.name == name && c.args == args && c.output == output && c.status == tool_status_of(status@)
            && c.id@.len() == 36,
    }
}

impl ChatMessage {
    /// The chat message for a stored one. Where the stored time is no RFC
    /// 3339 text, the message is stamped with the time now.
    pub fn from_daemon(msg: DaemonChatMessage) -> (r: ChatMessage)
        ensures
            converted(msg, r),
    {
        let role = if str_is(&msg.role, "user") { ChatRole::User } else { ChatRole::Assistant };
        let timestamp = match parse_rfc3339_millis(msg.timestamp.as_str()) {
            Some(t) => t,
            None => now_millis(),
        };
        let content = match msg.content {
            DaemonChatContent::Text { text } => ChatContent::Text(text),
            DaemonChatContent::ToolCall { name, args, output, status } => {
                let tool_status = if str_is(&status, "running") {
                    ToolStatus::Running
                } else if str_is(&status, "failed") {
                    ToolStatus::Failed
                } else {
                    ToolStatus::Success
                };
                ChatContent::ToolCall(ToolCall { id: fresh_id(), name, args, status: tool_status, output })
            },
        };
        ChatMessage { id: fresh_id(), role, content, timestamp, client_id: None }
    }
}

/// The stored messages among `items` that read as such, in order.
pub open spec fn daemon_messages(items: Seq<Json>) -> Seq<DaemonChatMessage>
    decreases items.len(),
{
    if items.len() == 0 {
        seq![]
    } else {
        let rest = daemon_messages(items.drop_last());
        match daemon_message_of(items.last()) {
            Some(m) => rest.push(m),
            None => rest,
        }
    }
}

/// The stored messages a value holds: those of a list that read as such.
pub open spec fn stored_history(value: Json) -> Seq<DaemonChatMessage> {
    match value {
        Json::Array(items) => daemon_messages(items@),
        _ => seq![],
    }
}

/// The chat history a value holds: each element of a list that reads as a
/// stored message, converted; nothing for other values.
pub open spec fn history_of(value: Json, out: Seq<ChatMessage>) -> bool {
    let stored = stored_history(value);
    &&& out.len() == stored.len()
    &&& forall|k: int| 0 <= k < out.len() ==> converted(stored[k], #[trigger] out[k])
}

/// Reads the chat history the daemon sent on connecting to a session.
pub fn parse_chat_history(value: Json) -> (r: Vec<ChatMessage>)
    ensures
        history_of(value, r@),
{
    let ghost g = value;
    let mut out: Vec<ChatMessage> = Vec::new();
    let mut items = match into_array(value) {
        Some(items) => items,
        None => {
            return out;
        },
    };
    let ghost all = items@;
    let ghost mut done: int = 0;
    while items.len() > 0
        invariant
            g matches Json::Array(v) && v@ == all,
            0 <= done <= all.len(),
            items@ == all.subrange(done, all.len() as int),
            out@.len() == daemon_messages(all.subrange(0, done)).len(),
            forall|k: int| 0 <= k < out@.len() ==> converted(daemon_messages(all.subrange(0, done))[k], #[trigger] out@[k]),
        decreases items@.len(),
    {
        let item = items.remove(0);
        assert(item == all[done]);
        assert(all.subrange(0, done + 1).drop_last() =~= all.subrange(0, done));
        assert(all.subrange(0, done + 1).last() == all[done]);
        match DaemonChatMessage::from_json(item) {
            Some(m) => {
                out.push(ChatMessage::from_daemon(m));
            },
            None => {},
        }
        proof { done = done + 1; }
    }
    assert(all.subrange(0, done) =~= all);
    out
}

} // verus!
