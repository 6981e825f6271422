//! The built-in model profiles.
use vstd::prelude::*;
use crate::text::str_eq;

verus! {

broadcast use vstd::string::group_string_axioms;

/// A model behind a backend, with its reasoning effort and context size.
#[derive(Clone, Debug)]
pub struct Profile {
    pub backend: &'static str,
    pub model: &'static str,
    pub effort: &'static str,
    pub context_limit: usize,
}

/// The mathematical content of a profile.
pub struct ProfileView {
    pub backend: Seq<char>,
    pub model: Seq<char>,
    pub effort: Seq<char>,
    pub context_limit: nat,
}

impl Profile {
    pub open spec fn view(&self) -> ProfileView {
        ProfileView {
            backend: self.backend@,
            model: self.model@,
            effort: self.effort@,
            context_limit: self.context_limit as nat,
        }
    }
}

/// A profile's content.
pub open spec fn profile_view(backend: Seq<char>, model: Seq<char>, effort: Seq<char>, limit: nat) -> ProfileView {
    ProfileView { backend, model, effort, context_limit: limit }
}

/// The built-in profiles by name: the eight that `--profile` accepts. The
/// two `mimo` profiles are served by the `xaomi` backend, on its flash and
/// pro models, with no effort setting and the context size of the `kimi`
/// profile.
pub open spec fn builtin_profile(name: Seq<char>) -> Option<ProfileView> {
    if name == "ds-flash"@ {
        Some(profile_view("deepseek"@, "deepseek-v4-flash"@, "high"@, 1_000_000))
    } else if name == "ds-flash-max"@ {
        Some(profile_view("deepseek"@, "deepseek-v4-flash"@, "max"@, 1_000_000))
    } else if name == "ds-pro"@ {
        Some(profile_view("deepseek"@, "deepseek-v4-pro"@, "high"@, 1_000_000))
    } else if name == "ds-pro-max"@ {
        Some(profile_view("deepseek"@, "deepseek-v4-pro"@, "max"@, 1_000_000))
    } else if name == "kimi"@ {
        Some(profile_view("kimi"@, "moonshotai/Kimi-K2.6"@, ""@, 256_000))
    } else if name == "glm"@ {
        Some(profile_view("z"@, "glm-5.1"@, ""@, 200_000))
    } else if name == "mimo"@ {
        Some(profile_view("xaomi"@, "mimo-v2-flash"@, ""@, 256_000))
    } else if name == "mimo-pro"@ {
        Some(profile_view("xaomi"@, "mimo-v2-pro"@, ""@, 256_000))
    } else {
        None
    }
}

/// The built-in profile of the given name.
pub fn get_profile(name: &str) -> (r: Option<Profile>)
    ensures
        match r {
            Some(p) => builtin_profile(name@) == Some(p@),
            None => builtin_profile(name@) is None,
        },
{
    if str_eq(name, "ds-flash") {
        Some(Profile { backend: "deepseek", model: "deepseek-v4-flash", effort: "high", context_limit: 1_000_000 })
    } else if str_eq(name, "ds-flash-max") {
        Some(Profile { backend: "deepseek", model: "deepseek-v4-flash", effort: "max", context_limit: 1_000_000 })
    } else if str_eq(name, "ds-pro") {
        Some(Profile { backend: "deepseek", model: "deepseek-v4-pro", effort: "high", context_limit: 1_000_000 })
    } else if str_eq(name, "ds-pro-max") {
        Some(Profile { backend: "deepseek", model: "deepseek-v4-pro", effort: "max", context_limit: 1_000_000 })
    } else if str_eq(name, "kimi") {
        Some(Profile { backend: "kimi", model: "moonshotai/Kimi-K2.6", effort: "", context_limit: 256_000 })
    } else if str_eq(name, "glm") {
        Some(Profile { backend: "z", model: "glm-5.1", effort: "", context_limit: 200_000 })
    } else if str_eq(name, "mimo") {
        Some(Profile { backend: "xaomi", model: "mimo-v2-flash", effort: "", context_limit: 256_000 })
    } else if str_eq(name, "mimo-pro") {
        Some(Profile { backend: "xaomi", model: "mimo-v2-pro", effort: "", context_limit: 256_000 })
    } else {
        None
    }
}

} // verus!
