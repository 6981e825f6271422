//! The tools the agent offers the model, named by a closed set of names, and
//! the requests they carry.
use vstd::prelude::*;
use crate::text::{chars_of, str_eq, trim, trim_bounds};
use crate::types::{Tool, ToolCall, ToolFunction};

verus! {

broadcast use vstd::string::group_string_axioms;

/// A tool the agent runs: Lua code executed for its effects, or evaluated
/// for its value.
#[derive(Clone, Copy, Debug, PartialEq, Eq, Structural)]
pub enum AgentTool {
    Exec,
    Eval,
}

/// The name of an agent tool.
pub open spec fn tool_name(t: AgentTool) -> Seq<char> {
    match t {
        AgentTool::Exec => "exec"@,
        AgentTool::Eval => "eval"@,
    }
}

/// The agent tool with the given name, if any.
pub open spec fn tool_named(name: Seq<char>) -> Option<AgentTool> {
    if name == "exec"@ {
        Some(AgentTool::Exec)
    } else if name == "eval"@ {
        Some(AgentTool::Eval)
    } else {
        None
    }
}

/// A name that is not one of the agent's tools.
#[derive(Clone, Debug)]
pub enum AgentToolNameError {
    Unknown { name: String },
}

impl AgentToolNameError {
    /// The error as it is shown.
    pub fn message(&self) -> (r: String)
        ensures
            r@ == "unknown agent tool: "@ + match self {
                AgentToolNameError::Unknown { name } => name@,
            },
    {
        match self {
            AgentToolNameError::Unknown { name } => {
                let mut s = String::new();
                s.append("unknown agent tool: ");
                s.append(name.as_str());
                s
            },
        }
    }
}

impl AgentTool {
    /// The tool with the given name.
    pub fn from_name(name: &str) -> (r: Result<AgentTool, AgentToolNameError>)
        ensures
            match r {
                Ok(t) => tool_named(name@) == Some(t),
                Err(AgentToolNameError::Unknown { name: n }) => tool_named(name@) is None && n@
                    == name@,
            },
    {
        proof {
            reveal_strlit("exec");
            reveal_strlit("eval");
        }
        if str_eq(name, "exec") {
            Ok(AgentTool::Exec)
        } else if str_eq(name, "eval") {
            Ok(AgentTool::Eval)
        } else {
            Err(AgentToolNameError::Unknown { name: name.to_string() })
        }
    }

    /// The tool's name.
    pub fn name(self) -> (r: &'static str)
        ensures
            r@ == tool_name(self),
    {
        match self {
            AgentTool::Exec => "exec",
            AgentTool::Eval => "eval",
        }
    }
}

/// Code for one of the agent's tools.
#[derive(Clone, Debug, PartialEq, Eq)]
pub struct LuaToolRequest {
    pub tool: AgentTool,
    pub code: String,
}

/// Why a tool call does not make a request.
#[derive(Clone, Debug)]
pub enum AgentToolRequestError {
    /// The call names no agent tool.
    Name(AgentToolNameError),
    /// The arguments do not decode; the decoder's message.
    InvalidArguments { tool: AgentTool, message: String },
    /// The code is blank.
    MissingCode { tool: AgentTool },
}

impl AgentToolRequestError {
    /// The error as it is shown.
    pub fn message(&self) -> (r: String)
        ensures
            r@ == match self {
                AgentToolRequestError::Name(AgentToolNameError::Unknown { name }) =>
                    "unknown agent tool: "@ + name@,
                AgentToolRequestError::InvalidArguments { tool, message } => "invalid arguments for `"@
                    + tool_name(*tool) + "`: "@ + message@,
                AgentToolRequestError::MissingCode { tool } => "missing code for `"@ + tool_name(
                    *tool,
                ) + "`"@,
            },
    {
        match self {
            AgentToolRequestError::Name(e) => e.message(),
            AgentToolRequestError::InvalidArguments { tool, message } => {
                let mut s = String::new();
                s.append("invalid arguments for `");
                s.append(tool.name());
                s.append("`: ");
                s.append(message.as_str());
                s
            },
            AgentToolRequestError::MissingCode { tool } => {
                let mut s = String::new();
                s.append("missing code for `");
                s.append(tool.name());
                s.append("`");
                s
            },
        }
    }
}

impl LuaToolRequest {
    /// The request for `tool` from its decoded arguments: `decoded` is the
    /// `code` argument, or the message of the decoder that refused them.
    pub fn from_decoded(tool: AgentTool, decoded: Result<String, String>) -> (r: Result<
        LuaToolRequest,
        AgentToolRequestError,
    >)
        ensures
            match decoded {
                Err(m) => r matches Err(AgentToolRequestError::InvalidArguments { tool: t, message })
                    && t == tool && message@ == m@,
                Ok(code) => if trim(code@).len() == 0 {
                    r matches Err(AgentToolRequestError::MissingCode { tool: t }) && t == tool
                } else {
                    r matches Ok(q) && q.tool == tool && q.code@ == code@
                },
            },
    {
        match decoded {
            Err(message) => Err(AgentToolRequestError::InvalidArguments { tool, message }),
            Ok(code) => {
                let v = chars_of(code.as_str());
                let (a, b) = trim_bounds(v.as_slice(), 0, v.len());
                proof {
                    assert(v@.subrange(0, v@.len() as int) =~= v@);
                }
                if a == b {
                    Err(AgentToolRequestError::MissingCode { tool })
                } else {
                    Ok(LuaToolRequest { tool, code })
                }
            },
        }
    }

    /// The request a tool call makes: its name must be an agent tool's, then
    /// its decoded arguments must hold code.
    pub fn from_tool_call(tool_call: &ToolCall, decoded: Result<String, String>) -> (r: Result<
        LuaToolRequest,
        AgentToolRequestError,
    >)
        ensures
            match tool_named(tool_call.function.name@) {
                None => r matches Err(AgentToolRequestError::Name(AgentToolNameError::Unknown { name }))
                    && name@ == tool_call.function.name@,
                Some(t) => match decoded {
                    Err(m) => r matches Err(
                        AgentToolRequestError::InvalidArguments { tool: u, message },
                    ) && u == t && message@ == m@,
                    Ok(code) => if trim(code@).len() == 0 {
                        r matches Err(AgentToolRequestError::MissingCode { tool: u }) && u == t
                    } else {
                        r matches Ok(q) && q.tool == t && q.code@ == code@
                    },
                },
            },
    {
        match AgentTool::from_name(tool_call.function.name.as_str()) {
            Err(e) => Err(AgentToolRequestError::Name(e)),
            Ok(tool) => LuaToolRequest::from_decoded(tool, decoded),
        }
    }
}

/// The JSON schema of an agent tool's arguments: the Lua code to run and,
/// optionally, why.
pub open spec fn lua_tool_parameters() -> Seq<char> {
    "{\"type\":\"object\",\"properties\":{\"code\":{\"type\":\"string\",\"description\":\"Lua code to run\"},\"reason\":{\"type\":\"string\",\"description\":\"Why the code is run\"}},\"required\":[\"code\"]}"@
}

fn lua_tool(name: &str, description: &str) -> (t: Tool)
    ensures
        t.kind@ == "function"@,
        t.function.name@ == name@,
        t.function.description@ == description@,
        t.function.parameters@ == lua_tool_parameters(),
{
    Tool {
        kind: "function".to_string(),
        function: ToolFunction {
            name: name.to_string(),
            description: description.to_string(),
            parameters: "{\"type\":\"object\",\"properties\":{\"code\":{\"type\":\"string\",\"description\":\"Lua code to run\"},\"reason\":{\"type\":\"string\",\"description\":\"Why the code is run\"}},\"required\":[\"code\"]}".to_string(),
        },
    }
}

/// The tools offered to the model: `exec` and `eval`, each taking Lua code.
pub fn agent_tools() -> (r: Vec<Tool>)
    ensures
        r@.len() == 2,
        r@[0].function.name@ == tool_name(AgentTool::Exec),
        r@[1].function.name@ == tool_name(AgentTool::Eval),
        forall|i: int| 0 <= i < 2 ==> #[trigger] r@[i].kind@ == "function"@ && r@[i].function.parameters@
            == lua_tool_parameters(),
{
    let mut r: Vec<Tool> = Vec::new();
    r.push(lua_tool(AgentTool::Exec.name(), "Runs Lua code in a fresh sandboxed VM that has the agent's tool functions."));
    r.push(lua_tool(AgentTool::Eval.name(), "Runs Lua code in the session's VM, whose globals persist between calls."));
    r
}

} // verus!
