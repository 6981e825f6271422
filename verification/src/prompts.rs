//! The messages a conversation starts with.
use vstd::prelude::*;
use crate::text::{chars_of, trim, trim_bounds, slice_range, string_of, str_upper, str_to_uppercase};
use crate::types::{Message, MessageOrigin, Role, plain};

verus! {

broadcast use vstd::string::group_string_axioms;

/// The texts of the built-in prompts.
#[derive(Clone, Debug)]
pub struct PromptTexts {
    /// The system prompt.
    pub system: String,
    /// The reference of the core Lua toolset.
    pub toolset_core: String,
    /// The policy for code search.
    pub colgrep: String,
    /// The role of a subagent that has no role file.
    pub role_generic: String,
}

/// A text trimmed.
fn trimmed(s: &str) -> (r: String)
    ensures
        r@ == trim(s@),
{
    let v = chars_of(s);
    let (a, b) = trim_bounds(v.as_slice(), 0, v.len());
    proof {
        assert(v@.subrange(0, v@.len() as int) =~= v@);
    }
    string_of(slice_range(v.as_slice(), a, b).as_slice())
}

/// A message of the given role, content and origin, carrying nothing else.
pub open spec fn is_msg(m: Message, role: Role, content: Seq<char>, origin: MessageOrigin) -> bool {
    m.role == role && m.content@ == content && m.origin == origin && plain(m)
}

/// The messages that start a conversation: the system prompt, the core
/// toolset, the search policy (all trimmed, from the agent), then the task
/// (trimmed, from the human).
pub fn build_initial_messages(prompts: &PromptTexts, task_prompt: &str) -> (r: Vec<Message>)
    ensures
        r@.len() == 4,
        is_msg(r@[0], Role::System, trim(prompts.system@), MessageOrigin::Internal),
        is_msg(r@[1], Role::User, trim(prompts.toolset_core@), MessageOrigin::Internal),
        is_msg(r@[2], Role::User, trim(prompts.colgrep@), MessageOrigin::Internal),
        is_msg(r@[3], Role::User, trim(task_prompt@), MessageOrigin::Human),
{
    let mut r: Vec<Message> = Vec::new();
    r.push(Message::system(trimmed(prompts.system.as_str())));
    r.push(Message::user(trimmed(prompts.toolset_core.as_str()), MessageOrigin::Internal));
    r.push(Message::user(trimmed(prompts.colgrep.as_str()), MessageOrigin::Internal));
    r.push(Message::user(trimmed(task_prompt), MessageOrigin::Human));
    r
}

/// The file name of a subagent role's prompt: the role in uppercase, spaces
/// as underscores.
pub open spec fn role_file_name(role: Seq<char>) -> Seq<char> {
    "PROMPT_ROLE_"@ + str_upper(role).map_values(|c: char| if c == ' ' { '_' } else { c }) + ".md"@
}

/// The file name of a subagent role's prompt.
pub fn role_prompt_file(role: &str) -> (r: String)
    ensures
        r@ == role_file_name(role@),
{
    let upper = str_to_uppercase(role);
    let v = chars_of(upper.as_str());
    let mut out = String::new();
    out.append("PROMPT_ROLE_");
    let ghost start = out@;
    let mut i: usize = 0;
    while i < v.len()
        invariant
            i <= v@.len(),
            v@ == str_upper(role@),
            out@ == start + v@.take(i as int).map_values(|c: char| if c == ' ' { '_' } else { c }),
        decreases v.len() - i,
    {
        let c = if v[i] == ' ' { '_' } else { v[i] };
        crate::text::string_push(&mut out, c);
        proof {
            assert(v@.take(i + 1).map_values(|c: char| if c == ' ' { '_' } else { c }) =~= v@.take(
                i as int,
            ).map_values(|c: char| if c == ' ' { '_' } else { c }).push(c));
        }
        i += 1;
    }
    proof {
        assert(v@.take(v@.len() as int) =~= v@);
    }
    out.append(".md");
    out
}

/// The paths tried for a subagent role's prompt, in order: in the
/// workspace's `.ogent` directory, at the workspace root, in the home
/// directory's `.ogent`.
pub fn role_prompt_paths(role: &str) -> (r: (String, String, String))
    ensures
        r.0@ == ".ogent/"@ + role_file_name(role@),
        r.1@ == role_file_name(role@),
        r.2@ == "~/.ogent/"@ + role_file_name(role@),
{
    let file = role_prompt_file(role);
    let mut a = String::new();
    a.append(".ogent/");
    a.append(file.as_str());
    let mut c = String::new();
    c.append("~/.ogent/");
    c.append(file.as_str());
    (a, file, c)
}

/// The messages that start a subagent's conversation: the system prompt,
/// the role (from its file, or the generic role), the core toolset, the
/// search policy, then the task.
pub fn build_subagent_messages(prompts: &PromptTexts, role_prompt: Option<String>, task: String) -> (r: Vec<Message>)
    ensures
        r@.len() == 5,
        is_msg(r@[0], Role::System, trim(prompts.system@), MessageOrigin::Internal),
        is_msg(
            r@[1],
            Role::User,
            trim(
                match role_prompt {
                    Some(p) => p@,
                    None => prompts.role_generic@,
                },
            ),
            MessageOrigin::Internal,
        ),
        is_msg(r@[2], Role::User, trim(prompts.toolset_core@), MessageOrigin::Internal),
        is_msg(r@[3], Role::User, trim(prompts.colgrep@), MessageOrigin::Internal),
        is_msg(r@[4], Role::User, task@, MessageOrigin::Human),
{
    let role_text = match &role_prompt {
        Some(p) => trimmed(p.as_str()),
        None => trimmed(prompts.role_generic.as_str()),
    };
    let mut r: Vec<Message> = Vec::new();
    r.push(Message::system(trimmed(prompts.system.as_str())));
    r.push(Message::user(role_text, MessageOrigin::Internal));
    r.push(Message::user(trimmed(prompts.toolset_core.as_str()), MessageOrigin::Internal));
    r.push(Message::user(trimmed(prompts.colgrep.as_str()), MessageOrigin::Internal));
    r.push(Message::user(task, MessageOrigin::Human));
    r
}

} // verus!
