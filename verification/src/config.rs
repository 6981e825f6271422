//! The configuration: named profiles and the providers that serve them.
use vstd::prelude::*;
use crate::text::str_eq;
use crate::workspace::{joined, join_path};

verus! {

broadcast use vstd::string::group_string_axioms;

/// A model profile: the provider that serves it, the model, its reasoning
/// effort and its context size.
#[derive(Clone, Debug)]
pub struct Profile {
    pub backend: String,
    pub model: String,
    pub effort: String,
    pub context_limit: usize,
}

/// Where a provider is reached and the environment variable with its key.
#[derive(Clone, Debug)]
pub struct ProviderConfig {
    pub base_url: String,
    pub key_env: String,
}

/// The configuration. Profiles and providers are kept by name, each name
/// at most once.
#[derive(Clone, Debug)]
pub struct Config {
    pub default_profile: String,
    pub profiles: Vec<(String, Profile)>,
    pub providers: Vec<(String, ProviderConfig)>,
}

/// Whether no name occurs twice.
pub open spec fn distinct_keys<T>(v: Seq<(String, T)>) -> bool {
    forall|i: int, j: int|
        0 <= i < v.len() && 0 <= j < v.len() && i != j ==> #[trigger] v[i].0@ != #[trigger] v[j].0@
}

/// Looks a name up in a keyed list.
fn find_key<T>(v: &Vec<(String, T)>, key: &str) -> (r: Option<usize>)
    ensures
        match r {
            Some(i) => i < v@.len() && v@[i as int].0@ == key@,
            None => forall|i: int| 0 <= i < v@.len() ==> #[trigger] v@[i].0@ != key@,
        },
{
    let mut i: usize = 0;
    while i < v.len()
        invariant
            i <= v@.len(),
            forall|k: int| 0 <= k < i ==> #[trigger] v@[k].0@ != key@,
        decreases v.len() - i,
    {
        if str_eq(v[i].0.as_str(), key) {
            return Some(i);
        }
        i += 1;
    }
    None
}

impl Config {
    /// Whether each profile and each provider is named once.
    pub open spec fn wf(&self) -> bool {
        distinct_keys(self.profiles@) && distinct_keys(self.providers@)
    }

    /// The profile of the given name.
    pub fn get_profile(&self, name: &str) -> (r: Option<&Profile>)
        requires
            self.wf(),
        ensures
            match r {
                Some(p) => exists|i: int|
                    0 <= i < self.profiles@.len() && #[trigger] self.profiles@[i].0@ == name@ && *p
                        == self.profiles@[i].1,
                None => forall|i: int|
                    0 <= i < self.profiles@.len() ==> #[trigger] self.profiles@[i].0@ != name@,
            },
    {
        match find_key(&self.profiles, name) {
            Some(i) => Some(&self.profiles[i].1),
            None => None,
        }
    }

    /// The provider that serves a profile.
    pub fn provider_for(&self, profile: &Profile) -> (r: Option<&ProviderConfig>)
        requires
            self.wf(),
        ensures
            match r {
                Some(p) => exists|i: int|
                    0 <= i < self.providers@.len() && #[trigger] self.providers@[i].0@
                        == profile.backend@ && *p == self.providers@[i].1,
                None => forall|i: int|
                    0 <= i < self.providers@.len() ==> #[trigger] self.providers@[i].0@
                        != profile.backend@,
            },
    {
        match find_key(&self.providers, profile.backend.as_str()) {
            Some(i) => Some(&self.providers[i].1),
            None => None,
        }
    }
}

/// The configuration file of a repository, relative to its root.
pub open spec fn repo_config_path(root: Seq<char>) -> Seq<char> {
    joined(root, ".ogent/config.yaml"@)
}

/// Where the configuration is looked for: the repository's file first, then
/// the one in the home directory.
pub fn config_paths(workspace_root: &str, home: &str) -> (r: (String, String))
    ensures
        r.0@ == repo_config_path(workspace_root@),
        r.1@ == repo_config_path(home@),
{
    (join_path(workspace_root, ".ogent/config.yaml"), join_path(home, ".ogent/config.yaml"))
}

} // verus!
