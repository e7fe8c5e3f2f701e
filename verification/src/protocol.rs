//! Messages exchanged with the daemon over the WebSocket.

use vstd::prelude::*;
use crate::json::{
    get_str, is_string_list, json_get, json_str, json_text, read_json, optional_string, optional_string_member, optional_u32, optional_u32_member, str_member,
    string_list, string_list_of, string_member, Json,
};
use crate::types::opt_view;

verus! {

/// Client hello handshake message.
#[derive(Debug, Clone, PartialEq, Eq)]
pub struct ClientHello {
    pub msg_type: String,
    pub client_type: String,
    pub client_id: String,
    pub version: String,
}

impl ClientHello {
    /// The hello of a terminal client with the given id.
    pub fn new(client_id: String) -> (r: Self)
        ensures
            r.msg_type@ == "hello"@,
            r.client_type@ == "tui"@,
            r.client_id@ == client_id@,
            r.version@ == "0.1.0"@,
    {
        ClientHello {
            msg_type: String::from_str("hello"),
            client_type: String::from_str("tui"),
            client_id,
            version: String::from_str("0.1.0"),
        }
    }
}

/// Server hello response.
#[derive(Debug, Clone, PartialEq, Eq)]
pub struct ServerHello {
    pub daemon_version: String,
    pub sessions: Vec<SessionSummary>,
}

/// A session as listed in the server hello.
#[derive(Debug, Clone, PartialEq, Eq)]
pub struct SessionSummary {
    pub id: String,
    pub name: String,
    pub project_path: String,
    pub app_status: String,
}

/// A monitoring event from the daemon.
#[derive(Debug, PartialEq, Eq)]
pub struct MonitoringEvent {
    pub ts: String,
    pub source: String,
    pub event_type: String,
    pub payload: Json,
}

/// A session: a project directory bound to a dedicated agent.
#[derive(Debug, Clone, PartialEq, Eq)]
pub struct Session {
    pub id: String,
    pub name: String,
    pub project_path: String,
    /// "not_running", "starting", "running", "stopped" or "error"
    pub app_status: String,
    pub vm_service_uri: Option<String>,
    pub pid: Option<u32>,
    pub connected_clients: Vec<String>,
    pub created_at: String,
    pub last_active_at: String,
}

/// A message to the daemon.
#[derive(Debug, PartialEq, Eq)]
pub enum OutgoingMessage {
    Command { id: String, client_id: String, action: String, key: Option<String>, data: Option<Json> },
}

/// A message from the daemon.
#[derive(Debug, PartialEq, Eq)]
pub enum IncomingMessage {
    CommandResponse(CommandResponse),
    AgentResponse(AgentResponse),
    /// Monitoring events from the daemon
    Event(MonitoringEvent),
    /// Streaming agent events
    AgentStream(AgentStreamEvent),
}

/// Streaming event from agent execution.
#[derive(Debug, Clone, PartialEq, Eq)]
pub struct AgentStreamEvent {
    pub id: String,
    pub session_id: String,
    pub event: AgentEventKind,
}

/// Kinds of streaming events.
#[derive(Debug, Clone, PartialEq, Eq)]
pub enum AgentEventKind {
    TextDelta { text: String },
    ToolCallStart { tool_name: String, tool_call_id: String },
    ToolCallEnd { tool_name: String, tool_call_id: String, result: Option<String> },
    /// Streaming finished for the current message
    MessageComplete,
    /// Full task or turn complete
    TaskComplete { summary: String },
    Error { message: String },
    /// User message from another client
    UserMessage { text: String, client_id: String },
}

/// The answer to a command.
#[derive(Debug, PartialEq, Eq)]
pub struct CommandResponse {
    pub id: String,
    pub success: bool,
    pub data: Json,
    pub error: Option<String>,
    /// Where `data.session` cannot be read as a session record: what the
    /// JSON reader (`serde_json`) said of it, as the message's reader found
    /// when it decoded the message.
    pub session_error: Option<String>,
}

/// The final answer of an agent run.
#[derive(Debug, Clone, PartialEq, Eq)]
pub struct AgentResponse {
    pub id: String,
    pub status: AgentStatus,
    pub summary: Option<String>,
    pub error: Option<String>,
    pub question: Option<String>,
    pub sdk_session_id: Option<String>,
}

#[derive(Debug, Clone, Copy, PartialEq, Eq)]
pub enum AgentStatus {
    Success,
    NeedsContext,
    Error,
}

/// The current time in RFC 3339 form.
#[verifier::external_body]
pub(crate) fn now_rfc3339() -> String {
    chrono::Utc::now().to_rfc3339()
}

/// A JSON string, or null.
pub open spec fn is_opt_json(j: Json, o: Option<Seq<char>>) -> bool {
    match o {
        Some(s) => j matches Json::String(t) && t@ == s,
        None => j is Null,
    }
}

fn opt_json(o: &Option<String>) -> (j: Json)
    ensures
        is_opt_json(j, opt_view(*o)),
{
    match o {
        Some(s) => Json::String(s.clone()),
        None => Json::Null,
    }
}

/// An object with one member.
pub open spec fn single_member(j: Json, key: Seq<char>, value: Option<Seq<char>>) -> bool {
    j matches Json::Object(ms) && ms@.len() == 1 && ms@[0].0@ == key && is_opt_json(ms@[0].1, value)
}

/// The event type an agent status is reported as.
pub open spec fn agent_event_type(s: AgentStatus) -> Seq<char> {
    match s {
        AgentStatus::Success => "agent_success"@,
        AgentStatus::NeedsContext => "agent_needs_context"@,
        AgentStatus::Error => "agent_error"@,
    }
}

impl AgentResponse {
    /// The monitoring event that reports this response at time `ts`.
    pub fn monitoring_event_at(&self, ts: String) -> (r: MonitoringEvent)
        ensures
            r.ts@ == ts@,
            r.source@ == "agent"@,
            r.event_type@ == agent_event_type(self.status),
            match self.status {
                AgentStatus::Success => single_member(r.payload, "summary"@, opt_view(self.summary)),
                AgentStatus::NeedsContext => single_member(r.payload, "question"@, opt_view(self.question)),
                AgentStatus::Error => single_member(r.payload, "error"@, opt_view(self.summary)),
            },
    {
        let (event_type, key, value) = match self.status {
            AgentStatus::Success => (String::from_str("agent_success"), String::from_str("summary"), opt_json(&self.summary)),
            AgentStatus::NeedsContext => (
                String::from_str("agent_needs_context"),
                String::from_str("question"),
                opt_json(&self.question),
            ),
            AgentStatus::Error => (String::from_str("agent_error"), String::from_str("error"), opt_json(&self.summary)),
        };
        let mut members: Vec<(String, Json)> = Vec::new();
        members.push((key, value));
        MonitoringEvent { ts, source: String::from_str("agent"), event_type, payload: Json::Object(members) }
    }

    /// The monitoring event that reports this response now.
    pub fn to_monitoring_event(&self) -> (r: MonitoringEvent)
        ensures
            r.source@ == "agent"@,
            r.event_type@ == agent_event_type(self.status),
            match self.status {
                AgentStatus::Success => single_member(r.payload, "summary"@, opt_view(self.summary)),
                AgentStatus::NeedsContext => single_member(r.payload, "question"@, opt_view(self.question)),
                AgentStatus::Error => single_member(r.payload, "error"@, opt_view(self.summary)),
            },
    {
        self.monitoring_event_at(now_rfc3339())
    }
}

/// A full session record for a session known only by its summary.
pub fn session_from_summary(s: SessionSummary) -> (r: Session)
    ensures
        r.id == s.id,
        r.name == s.name,
        r.project_path == s.project_path,
        r.app_status == s.app_status,
        r.vm_service_uri is None,
        r.pid is None,
        r.connected_clients@.len() == 0,
        r.created_at@.len() == 0,
        r.last_active_at@.len() == 0,
{
    Session {
        id: s.id,
        name: s.name,
        project_path: s.project_path,
        app_status: s.app_status,
        vm_service_uri: None,
        pid: None,
        connected_clients: Vec::new(),
        created_at: String::new(),
        last_active_at: String::new(),
    }
}

/// A JSON value can be read as a session: an object whose members `id`,
/// `name`, `projectPath`, `appStatus`, `createdAt` and `lastActiveAt` are
/// strings, whose `vmServiceUri` is a string or null, whose `pid` is a
/// `u32` or null, and whose `connectedClients` is a list of strings, each
/// of the last three possibly absent; other members are ignored.
pub open spec fn session_readable(j: Json) -> bool {
    &&& j is Object
    &&& str_member(j, "id"@) is Some
    &&& str_member(j, "name"@) is Some
    &&& str_member(j, "projectPath"@) is Some
    &&& str_member(j, "appStatus"@) is Some
    &&& optional_string(json_get(j, "vmServiceUri"@)) is Some
    &&& optional_u32(json_get(j, "pid"@)) is Some
    &&& (json_get(j, "connectedClients"@) is None || is_string_list(json_get(j, "connectedClients"@)->0))
    &&& str_member(j, "createdAt"@) is Some
    &&& str_member(j, "lastActiveAt"@) is Some
}

/// `s` is the session read from `j`.
pub open spec fn session_read(j: Json, s: Session) -> bool {
    &&& session_readable(j)
    &&& Some(s.id) == str_member(j, "id"@)
    &&& Some(s.name) == str_member(j, "name"@)
    &&& Some(s.project_path) == str_member(j, "projectPath"@)
    &&& Some(s.app_status) == str_member(j, "appStatus"@)
    &&& Some(s.vm_service_uri) == optional_string(json_get(j, "vmServiceUri"@))
    &&& Some(s.pid) == optional_u32(json_get(j, "pid"@))
    &&& match json_get(j, "connectedClients"@) {
        Some(v) => string_list(v, s.connected_clients@),
        None => s.connected_clients@.len() == 0,
    }
    &&& Some(s.created_at) == str_member(j, "createdAt"@)
    &&& Some(s.last_active_at) == str_member(j, "lastActiveAt"@)
}

impl Session {
    /// Reads a session record sent by the daemon.
    pub fn from_json(j: &Json) -> (r: Option<Session>)
        ensures
            match r {
                Some(s) => session_read(*j, s),
                None => !session_readable(*j),
            },
    {
        if !matches!(j, Json::Object(_)) {
            return None;
        }
        let id = match string_member(j, "id") { Some(x) => x, None => { return None; } };
        let name = match string_member(j, "name") { Some(x) => x, None => { return None; } };
        let project_path = match string_member(j, "projectPath") { Some(x) => x, None => { return None; } };
        let app_status = match string_member(j, "appStatus") { Some(x) => x, None => { return None; } };
        let vm_service_uri = match optional_string_member(j, "vmServiceUri") {
            Some(x) => x,
            None => { return None; },
        };
        let pid = match optional_u32_member(j, "pid") { Some(x) => x, None => { return None; } };
        let connected_clients = match j.get("connectedClients") {
            None => Vec::new(),
            Some(v) => match string_list_of(v) {
                Some(x) => x,
                None => { return None; },
            },
        };
        let created_at = match string_member(j, "createdAt") { Some(x) => x, None => { return None; } };
        let last_active_at = match string_member(j, "lastActiveAt") { Some(x) => x, None => { return None; } };
        Some(Session {
            id,
            name,
            project_path,
            app_status,
            vm_service_uri,
            pid,
            connected_clients,
            created_at,
            last_active_at,
        })
    }
}

/// The daemon's greeting is a JSON object whose `type` is `hello_ack`.
pub open spec fn is_hello_ack_text(text: Seq<char>) -> bool {
    json_text(text) matches Some(j) && json_str(json_get(j, "type"@)) == Some("hello_ack"@)
}

/// Whether a message the daemon sent is its greeting (which the client
/// waits for after sending its own).
pub fn is_hello_ack(text: &str) -> (r: bool)
    ensures
        r == is_hello_ack_text(text@),
{
    match read_json(text) {
        Some(j) => match get_str(&j, "type") {
            Some(t) => crate::app::str_eq(t, "hello_ack"),
            None => false,
        },
        None => false,
    }
}


/// What arrived while the client waits for the daemon's greeting.
#[derive(Debug, Clone, PartialEq, Eq)]
pub enum HelloFrame {
    /// A text message.
    Text(String),
    /// The daemon closed the connection.
    Close,
    /// The connection failed, with the transport's message.
    Error(String),
    /// The stream ended.
    End,
    /// Any other frame (binary, ping, pong).
    Other,
}

/// What the client does with a frame while it waits for the greeting.
#[derive(Debug, Clone, PartialEq, Eq)]
pub enum HelloStep {
    /// Keep waiting.
    Wait,
    /// The text is the greeting: read it as one (and keep waiting if it
    /// cannot be read).
    ReadHello,
    /// Give up the connection with this message.
    Fail(String),
}

/// The message a frame ends the wait with, if it does.
pub open spec fn hello_failure(frame: HelloFrame) -> Option<Seq<char>> {
    match frame {
        HelloFrame::Close => Some("Connection closed before receiving ServerHello"@),
        HelloFrame::Error(e) => Some("WebSocket error before receiving ServerHello: "@ + e@),
        HelloFrame::End => Some("Connection ended before receiving ServerHello"@),
        _ => None,
    }
}

/// One step of the wait for the daemon's greeting: a greeting is read, a
/// close, an error or the end of the stream fails the connection, and
/// anything else is passed over.
pub fn hello_step(frame: &HelloFrame) -> (r: HelloStep)
    ensures
        match hello_failure(*frame) {
            Some(m) => r matches HelloStep::Fail(t) && t@ == m,
            None => r == (if frame matches HelloFrame::Text(t) && is_hello_ack_text(t@) {
                HelloStep::ReadHello
            } else {
                HelloStep::Wait
            }),
        },
{
    match frame {
        HelloFrame::Text(t) => if is_hello_ack(t.as_str()) {
            HelloStep::ReadHello
        } else {
            HelloStep::Wait
        },
        HelloFrame::Close => HelloStep::Fail(String::from_str("Connection closed before receiving ServerHello")),
        HelloFrame::Error(e) => {
            let mut m = String::from_str("WebSocket error before receiving ServerHello: ");
            m.append(e.as_str());
            HelloStep::Fail(m)
        },
        HelloFrame::End => HelloStep::Fail(String::from_str("Connection ended before receiving ServerHello")),
        HelloFrame::Other => HelloStep::Wait,
    }
}

} // verus!
