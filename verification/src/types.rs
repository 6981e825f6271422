//! The messages of a conversation with a model, and the model's replies.
use vstd::prelude::*;

verus! {

broadcast use vstd::string::group_string_axioms;

/// Who a message is from, as the model's API sees it.
#[derive(Clone, Copy, Debug, PartialEq, Eq, Structural)]
pub enum Role {
    System,
    User,
    Assistant,
    Tool,
}

impl Default for Role {
    fn default() -> (r: Self)
        ensures
            r == Role::System,
    {
        Role::System
    }
}

/// Where a message came from, as the agent sees it.
#[derive(Clone, Copy, Debug, PartialEq, Eq, Structural)]
pub enum MessageOrigin {
    Internal,
    Human,
    Model,
    Tool,
}

impl Default for MessageOrigin {
    fn default() -> (r: Self)
        ensures
            r == MessageOrigin::Human,
    {
        MessageOrigin::Human
    }
}

/// The function a tool call names, and its arguments.
#[derive(Debug)]
pub struct FunctionCall {
    pub name: String,
    pub arguments: String,
}

impl Clone for FunctionCall {
    fn clone(&self) -> (r: Self)
        ensures
            r == *self,
    {
        FunctionCall { name: self.name.clone(), arguments: self.arguments.clone() }
    }
}

/// A tool call the model makes.
#[derive(Debug)]
pub struct ToolCall {
    pub id: String,
    pub kind: String,
    pub function: FunctionCall,
}

impl Clone for ToolCall {
    fn clone(&self) -> (r: Self)
        ensures
            r == *self,
    {
        ToolCall { id: self.id.clone(), kind: self.kind.clone(), function: self.function.clone() }
    }
}

impl ToolCall {
    /// A call of a function tool.
    pub fn function(id: String, name: String, arguments: String) -> (t: Self)
        ensures
            t.id == id,
            t.kind@ == "function"@,
            t.function.name == name,
            t.function.arguments == arguments,
    {
        ToolCall { id, kind: "function".to_string(), function: FunctionCall { name, arguments } }
    }
}

/// Token accounting of a reply.
#[derive(Clone, Copy, Debug, PartialEq, Eq, Structural)]
pub struct Usage {
    pub total_tokens: i32,
}

impl Default for Usage {
    fn default() -> (r: Self)
        ensures
            r.total_tokens == 0,
    {
        Usage { total_tokens: 0 }
    }
}

/// A reply of the model.
#[derive(Clone, Debug)]
pub struct ChatResponse {
    pub content: String,
    pub reasoning_content: String,
    pub tool_calls: Vec<ToolCall>,
    pub usage: Usage,
}

impl Default for ChatResponse {
    fn default() -> (r: Self)
        ensures
            r.content@.len() == 0,
            r.reasoning_content@.len() == 0,
            r.tool_calls@.len() == 0,
            r.usage.total_tokens == 0,
    {
        ChatResponse {
            content: String::new(),
            reasoning_content: String::new(),
            tool_calls: Vec::new(),
            usage: Usage { total_tokens: 0 },
        }
    }
}

/// One message of a conversation.
#[derive(Clone, Debug)]
pub struct Message {
    pub role: Role,
    pub content: String,
    pub origin: MessageOrigin,
    pub reasoning_content: String,
    pub tool_calls: Vec<ToolCall>,
    pub tool_call_id: String,
    pub image_url: Option<String>,
}

impl Default for Message {
    fn default() -> (r: Self)
        ensures
            r.role == Role::System,
            r.content@.len() == 0,
            r.origin == MessageOrigin::Human,
            r.reasoning_content@.len() == 0,
            r.tool_calls@.len() == 0,
            r.tool_call_id@.len() == 0,
            r.image_url is None,
    {
        Message {
            role: Role::System,
            content: String::new(),
            origin: MessageOrigin::Human,
            reasoning_content: String::new(),
            tool_calls: Vec::new(),
            tool_call_id: String::new(),
            image_url: None,
        }
    }
}

/// Whether a message carries nothing but its role, content and origin.
pub open spec fn plain(m: Message) -> bool {
    m.reasoning_content@.len() == 0 && m.tool_calls@.len() == 0 && m.tool_call_id@.len() == 0
        && m.image_url is None
}

impl Message {
    /// A system message, from the agent itself.
    pub fn system(content: String) -> (m: Self)
        ensures
            m.role == Role::System,
            m.content == content,
            m.origin == MessageOrigin::Internal,
            plain(m),
    {
        Message {
            role: Role::System,
            content,
            origin: MessageOrigin::Internal,
            reasoning_content: String::new(),
            tool_calls: Vec::new(),
            tool_call_id: String::new(),
            image_url: None,
        }
    }

    /// A user message with the given origin.
    pub fn user(content: String, origin: MessageOrigin) -> (m: Self)
        ensures
            m.role == Role::User,
            m.content == content,
            m.origin == origin,
            plain(m),
    {
        Message {
            role: Role::User,
            content,
            origin,
            reasoning_content: String::new(),
            tool_calls: Vec::new(),
            tool_call_id: String::new(),
            image_url: None,
        }
    }

    /// The message that records a reply of the model.
    pub fn assistant(resp: ChatResponse) -> (m: Self)
        ensures
            m.role == Role::Assistant,
            m.content == resp.content,
            m.origin == MessageOrigin::Model,
            m.reasoning_content == resp.reasoning_content,
            m.tool_calls == resp.tool_calls,
            m.tool_call_id@.len() == 0,
            m.image_url is None,
    {
        Message {
            role: Role::Assistant,
            content: resp.content,
            origin: MessageOrigin::Model,
            reasoning_content: resp.reasoning_content,
            tool_calls: resp.tool_calls,
            tool_call_id: String::new(),
            image_url: None,
        }
    }

    /// The message that answers a tool call.
    pub fn tool_result(tool_call_id: String, content: String) -> (m: Self)
        ensures
            m.role == Role::Tool,
            m.content == content,
            m.origin == MessageOrigin::Tool,
            m.tool_call_id == tool_call_id,
            m.reasoning_content@.len() == 0,
            m.tool_calls@.len() == 0,
            m.image_url is None,
    {
        Message {
            role: Role::Tool,
            content,
            origin: MessageOrigin::Tool,
            reasoning_content: String::new(),
            tool_calls: Vec::new(),
            tool_call_id,
            image_url: None,
        }
    }
}

/// A function the model may call: its name, what it does, and its
/// parameters as a JSON schema (in JSON text).
#[derive(Clone, Debug)]
pub struct ToolFunction {
    pub name: String,
    pub description: String,
    pub parameters: String,
}

/// A tool offered to the model.
#[derive(Clone, Debug)]
pub struct Tool {
    pub kind: String,
    pub function: ToolFunction,
}

} // verus!
