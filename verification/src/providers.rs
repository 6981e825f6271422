//! The model providers: which backends are known and how their requests
//! differ.
use vstd::prelude::*;
use crate::text::{str_eq};
use crate::config::{Profile, ProviderConfig};

verus! {

broadcast use vstd::string::group_string_axioms;

/// How long a request to a provider may take, in seconds.
pub const REQUEST_TIMEOUT_SECS: u64 = 600;

/// The providers' APIs.
#[derive(Clone, Copy, Debug, PartialEq, Eq, Structural)]
pub enum Backend {
    Kimi,
    Z,
    Xaomi,
    MiniMax,
    DeepSeek,
}

/// The backend of a profile by name.
pub open spec fn backend_named(name: Seq<char>) -> Option<Backend> {
    if name == "kimi"@ {
        Some(Backend::Kimi)
    } else if name == "z"@ {
        Some(Backend::Z)
    } else if name == "xaomi"@ {
        Some(Backend::Xaomi)
    } else if name == "minimax"@ {
        Some(Backend::MiniMax)
    } else if name == "deepseek"@ {
        Some(Backend::DeepSeek)
    } else {
        None
    }
}

/// The backend of a profile; unknown names are refused.
pub fn backend_of(name: &str) -> (r: Result<Backend, String>)
    ensures
        match r {
            Ok(b) => backend_named(name@) == Some(b),
            Err(m) => backend_named(name@) is None && m@ == "unknown backend: "@ + name@,
        },
{
    if str_eq(name, "kimi") {
        Ok(Backend::Kimi)
    } else if str_eq(name, "z") {
        Ok(Backend::Z)
    } else if str_eq(name, "xaomi") {
        Ok(Backend::Xaomi)
    } else if str_eq(name, "minimax") {
        Ok(Backend::MiniMax)
    } else if str_eq(name, "deepseek") {
        Ok(Backend::DeepSeek)
    } else {
        let mut m = String::new();
        m.append("unknown backend: ");
        m.append(name);
        Err(m)
    }
}

impl Backend {
    /// Whether the backend's streams end with a `[DONE]` line (MiniMax's end
    /// without one).
    pub fn requires_sse_done(self) -> (r: bool)
        ensures
            r == (self != Backend::MiniMax),
    {
        match self {
            Backend::MiniMax => false,
            _ => true,
        }
    }

    /// The tool choice a request sends: `auto` to Kimi when tools are
    /// offered, nothing otherwise.
    pub fn tool_choice(self, tools_offered: bool) -> (r: Option<&'static str>)
        ensures
            match r {
                Some(c) => self == Backend::Kimi && tools_offered && c@ == "auto"@,
                None => !(self == Backend::Kimi && tools_offered),
            },
    {
        match self {
            Backend::Kimi => if tools_offered {
                Some("auto")
            } else {
                None
            },
            _ => None,
        }
    }
}

/// The message when a provider's key variable is not set.
pub fn missing_key_message(key_env: &str) -> (r: String)
    ensures
        r@ == key_env@ + " is not set"@,
{
    let mut m = String::new();
    m.append(key_env);
    m.append(" is not set");
    m
}

/// How a chat client reaches its provider.
#[derive(Clone, Debug)]
pub struct ClientConfig {
    pub url: String,
    pub api_key: String,
    pub request_timeout_secs: u64,
    pub require_sse_done: bool,
}

/// The settings of the client for a profile served by a provider, given
/// the value of the provider's key variable (`None` when it is not set):
/// refused when the key is not set, then when the backend is unknown.
pub fn client_config(profile: &Profile, provider: &ProviderConfig, api_key: Option<String>) -> (r: Result<
    (Backend, ClientConfig),
    String,
>)
    ensures
        match api_key {
            None => r matches Err(m) && m@ == provider.key_env@ + " is not set"@,
            Some(key) => match backend_named(profile.backend@) {
                None => r matches Err(m) && m@ == "unknown backend: "@ + profile.backend@,
                Some(b) => r matches Ok((rb, c)) && rb == b && c.url@ == provider.base_url@ && c.api_key
                    == key && c.request_timeout_secs == REQUEST_TIMEOUT_SECS && c.require_sse_done == (b
                    != Backend::MiniMax),
            },
        },
{
    let key = match api_key {
        Some(k) => k,
        None => return Err(missing_key_message(provider.key_env.as_str())),
    };
    let backend = backend_of(profile.backend.as_str())?;
    Ok(
        (
            backend,
            ClientConfig {
                url: provider.base_url.clone(),
                api_key: key,
                request_timeout_secs: REQUEST_TIMEOUT_SECS,
                require_sse_done: backend.requires_sse_done(),
            },
        ),
    )
}

/// The fields a request body carries besides the model, the messages, the
/// tools and `stream`, which depend on the backend.
#[derive(Clone, Debug)]
pub struct RequestExtras {
    /// `tool_choice`.
    pub tool_choice: Option<&'static str>,
    /// `thinking`: `{"type": "enabled"}`, with `clear_thinking` when that is
    /// given.
    pub thinking: Option<Option<bool>>,
    /// `reasoning_effort`.
    pub reasoning_effort: Option<String>,
    /// `chat_template_args.enable_thinking`.
    pub enable_thinking: Option<bool>,
    /// `reasoning_split`.
    pub reasoning_split: Option<bool>,
}

/// The backend-dependent fields of a request: DeepSeek turns thinking on
/// and sends the profile's effort; Kimi turns thinking on through its chat
/// template and is told to choose tools itself when tools are offered; Z
/// turns thinking on and keeps earlier thinking; MiniMax splits reasoning
/// out of the content; Xaomi adds nothing.
pub fn request_extras(backend: Backend, effort: &str, tools_offered: bool) -> (r: RequestExtras)
    ensures
        match r.tool_choice {
            Some(c) => backend == Backend::Kimi && tools_offered && c@ == "auto"@,
            None => !(backend == Backend::Kimi && tools_offered),
        },
        r.thinking == match backend {
            Backend::DeepSeek => Some(None::<bool>),
            Backend::Z => Some(Some(false)),
            _ => None,
        },
        match r.reasoning_effort {
            Some(e) => backend == Backend::DeepSeek && e@ == effort@,
            None => backend != Backend::DeepSeek,
        },
        r.enable_thinking == if backend == Backend::Kimi {
            Some(true)
        } else {
            None
        },
        r.reasoning_split == if backend == Backend::MiniMax {
            Some(true)
        } else {
            None
        },
{
    let tool_choice = backend.tool_choice(tools_offered);
    match backend {
        Backend::DeepSeek => RequestExtras {
            tool_choice,
            thinking: Some(None),
            reasoning_effort: Some(effort.to_string()),
            enable_thinking: None,
            reasoning_split: None,
        },
        Backend::Kimi => RequestExtras {
            tool_choice,
            thinking: None,
            reasoning_effort: None,
            enable_thinking: Some(true),
            reasoning_split: None,
        },
        Backend::Z => RequestExtras {
            tool_choice,
            thinking: Some(Some(false)),
            reasoning_effort: None,
            enable_thinking: None,
            reasoning_split: None,
        },
        Backend::Xaomi => RequestExtras {
            tool_choice,
            thinking: None,
            reasoning_effort: None,
            enable_thinking: None,
            reasoning_split: None,
        },
        Backend::MiniMax => RequestExtras {
            tool_choice,
            thinking: None,
            reasoning_effort: None,
            enable_thinking: None,
            reasoning_split: Some(true),
        },
    }
}

} // verus!