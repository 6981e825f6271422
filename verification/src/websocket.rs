//! The websocket server's decisions: which sessions are active, how a
//! session is set up, and what each event of a client asks of its agent.
use vstd::prelude::*;
use crate::text::{str_eq, contains_string};
use crate::steer::{SteerEvent, AgentState};
use crate::types::{Message, Role};

verus! {

broadcast use vstd::string::group_string_axioms;

/// The key of a session among the active ones: its repository and its id.
pub open spec fn session_key(repo: Seq<char>, session_id: Seq<char>) -> Seq<char> {
    repo + "::"@ + session_id
}

/// The key of a session among the active ones.
pub fn scoped_session_key(repo: &str, session_id: &str) -> (r: String)
    ensures
        r@ == session_key(repo@, session_id@),
{
    let mut s = String::new();
    s.append(repo);
    s.append("::");
    s.append(session_id);
    s
}

/// The texts of strings.
pub open spec fn views(v: Seq<String>) -> Seq<Seq<char>> {
    v.map_values(|k: String| k@)
}

/// The sessions that have an agent running, each key once.
#[derive(Clone, Debug)]
pub struct SessionRegistry {
    active: Vec<String>,
}

impl SessionRegistry {
    /// The active keys.
    pub closed spec fn keys(&self) -> Set<Seq<char>> {
        views(self.active@).to_set()
    }

    /// Whether no key is held twice.
    pub closed spec fn wf(&self) -> bool {
        forall|i: int, j: int|
            0 <= i < self.active@.len() && 0 <= j < self.active@.len() && i != j
                ==> #[trigger] self.active@[i]@ != #[trigger] self.active@[j]@
    }

    /// No session is active.
    pub fn new() -> (r: Self)
        ensures
            r.wf(),
            r.keys() == Set::<Seq<char>>::empty(),
    {
        let r = SessionRegistry { active: Vec::new() };
        proof {
            assert(r.keys() =~= Set::<Seq<char>>::empty());
        }
        r
    }

    /// Marks a session active; false when it already is.
    pub fn register(&mut self, key: &str) -> (r: bool)
        requires
            old(self).wf(),
        ensures
            final(self).wf(),
            r == !old(self).keys().contains(key@),
            final(self).keys() == old(self).keys().insert(key@),
    {
        proof {
            self.lemma_keys();
        }
        if contains_string(&self.active, key) {
            proof {
                let i = choose|i: int| 0 <= i < self.active@.len() && #[trigger] self.active@[i]@ == key@;
                assert(views(self.active@)[i] == key@);
                assert(self.keys().insert(key@) =~= self.keys());
            }
            return false;
        }
        let ghost before = self.active@;
        let ghost old_keys = self.keys();
        self.active.push(key.to_string());
        proof {
            self.lemma_keys();
            assert forall|x: Seq<char>| #[trigger] self.keys().contains(x) <==> old_keys.insert(key@).contains(x) by {
                if self.keys().contains(x) {
                    let i = choose|i: int| 0 <= i < self.active@.len() && #[trigger] self.active@[i]@ == x;
                    if i < before.len() {
                        assert(before[i]@ == x);
                    }
                }
                if old_keys.insert(key@).contains(x) {
                    if x == key@ {
                        assert(self.active@[before.len() as int]@ == x);
                    } else {
                        let i = choose|i: int| 0 <= i < before.len() && #[trigger] before[i]@ == x;
                        assert(self.active@[i]@ == x);
                    }
                }
            }
            assert(self.keys() =~= old_keys.insert(key@));
            assert forall|i: int, j: int|
                0 <= i < self.active@.len() && 0 <= j < self.active@.len() && i != j
                    implies #[trigger] self.active@[i]@ != #[trigger] self.active@[j]@ by {
                if i == before.len() || j == before.len() {
                    let o = if i == before.len() { j } else { i };
                    assert(self.active@[o] == before[o]);
                }
            }
        }
        true
    }

    /// Marks a session no longer active.
    pub fn unregister(&mut self, key: &str)
        requires
            old(self).wf(),
        ensures
            final(self).wf(),
            final(self).keys() == old(self).keys().remove(key@),
    {
        let ghost before = self.active@;
        let mut kept: Vec<String> = Vec::new();
        let mut i: usize = 0;
        while i < self.active.len()
            invariant
                i <= self.active@.len(),
                self.active@ == before,
                forall|a: int, b: int|
                    0 <= a < before.len() && 0 <= b < before.len() && a != b
                        ==> #[trigger] before[a]@ != #[trigger] before[b]@,
                forall|a: int, b: int|
                    0 <= a < kept@.len() && 0 <= b < kept@.len() && a != b
                        ==> #[trigger] kept@[a]@ != #[trigger] kept@[b]@,
                forall|k: int| 0 <= k < kept@.len() ==> #[trigger] kept@[k]@ != key@,
                forall|k: int|
                    #![trigger kept@[k]]
                    0 <= k < kept@.len() ==> exists|j: int| 0 <= j < i && #[trigger] before[j]@ == kept@[k]@,
                forall|j: int|
                    0 <= j < i && before[j]@ != key@ ==> exists|k: int|
                        0 <= k < kept@.len() && #[trigger] kept@[k]@ == #[trigger] before[j]@,
            decreases self.active.len() - i,
        {
            if !str_eq(self.active[i].as_str(), key) {
                let ghost kb = kept@;
                kept.push(self.active[i].clone());
                proof {
                    assert forall|a: int, b: int|
                        0 <= a < kept@.len() && 0 <= b < kept@.len() && a != b implies #[trigger] kept@[a]@
                        != #[trigger] kept@[b]@ by {
                        if a == kb.len() || b == kb.len() {
                            let o = if a == kb.len() { b } else { a };
                            let j = choose|j: int| 0 <= j < i && #[trigger] before[j]@ == kb[o]@;
                            assert(kept@[o] == kb[o]);
                        }
                    }
                    assert forall|k: int|
                        #![trigger kept@[k]]
                        0 <= k < kept@.len() implies exists|j: int| 0 <= j < i + 1 && #[trigger] before[j]@
                        == kept@[k]@ by {
                        if k == kb.len() {
                            assert(before[i as int]@ == kept@[k]@);
                        } else {
                            assert(kept@[k] == kb[k]);
                        }
                    }
                    assert forall|j: int|
                        0 <= j < i + 1 && before[j]@ != key@ implies exists|k: int|
                        0 <= k < kept@.len() && #[trigger] kept@[k]@ == #[trigger] before[j]@ by {
                        if j == i {
                            assert(kept@[kb.len() as int]@ == before[j]@);
                        } else {
                            let k = choose|k: int| 0 <= k < kb.len() && #[trigger] kb[k]@ == before[j]@;
                            assert(kept@[k] == kb[k]);
                        }
                    }
                }
            }
            i += 1;
        }
        self.active = kept;
        proof {
            let new_keys = views(self.active@).to_set();
            let old_keys = views(before).to_set();
            assert forall|x: Seq<char>| new_keys.contains(x) <==> old_keys.remove(key@).contains(x) by {
                if new_keys.contains(x) {
                    let k = choose|k: int| 0 <= k < self.active@.len() && #[trigger] views(self.active@)[k] == x;
                    assert(self.active@[k]@ == x);
                    let j = choose|j: int| 0 <= j < before.len() && #[trigger] before[j]@ == self.active@[k]@;
                    assert(views(before)[j] == x);
                }
                if old_keys.remove(key@).contains(x) {
                    let j = choose|j: int| 0 <= j < before.len() && #[trigger] views(before)[j] == x;
                    assert(before[j]@ == x);
                    let k = choose|k: int| 0 <= k < self.active@.len() && #[trigger] self.active@[k]@ == before[j]@;
                    assert(views(self.active@)[k] == x);
                }
            }
            assert(new_keys =~= old_keys.remove(key@));
        }
    }

    proof fn lemma_keys(&self)
        ensures
            forall|x: Seq<char>|
                #![trigger self.keys().contains(x)]
                self.keys().contains(x) <==> exists|i: int|
                    0 <= i < self.active@.len() && #[trigger] self.active@[i]@ == x,
    {
        assert forall|x: Seq<char>| self.keys().contains(x) implies exists|i: int|
            0 <= i < self.active@.len() && #[trigger] self.active@[i]@ == x by {
            let i = choose|i: int| 0 <= i < self.active@.len() && #[trigger] views(self.active@)[i] == x;
            assert(self.active@[i]@ == x);
        }
        assert forall|x: Seq<char>|
            (exists|i: int| 0 <= i < self.active@.len() && #[trigger] self.active@[i]@ == x) implies self.keys().contains(x) by {
            let i = choose|i: int| 0 <= i < self.active@.len() && #[trigger] self.active@[i]@ == x;
            assert(views(self.active@)[i] == x);
        }
    }
}

/// Registering a session and then unregistering it leaves the registry's
/// keys as they were, when the session was not active before.
pub proof fn lemma_register_unregister(keys: Set<Seq<char>>, key: Seq<char>)
    requires
        !keys.contains(key),
    ensures
        keys.insert(key).remove(key) == keys,
{
    assert(keys.insert(key).remove(key) =~= keys);
}

/// What the status line shows of an agent's state.
pub fn agent_state_name(state: AgentState) -> (r: &'static str)
    ensures
        r@ == match state {
            AgentState::Idle => "idle"@,
            AgentState::Reasoning => "reasoning"@,
            AgentState::Replying => "replying"@,
            AgentState::Working => "working"@,
        },
{
    match state {
        AgentState::Idle => "idle",
        AgentState::Reasoning => "reasoning",
        AgentState::Replying => "replying",
        AgentState::Working => "working",
    }
}

/// The profile a session uses: the one asked for, or the default.
pub fn resolved_profile_name(requested: Option<String>, fallback: &str) -> (r: String)
    ensures
        r@ == match requested {
            Some(p) => p@,
            None => fallback@,
        },
{
    match requested {
        Some(p) => p,
        None => fallback.to_string(),
    }
}

/// Refuses a repository path that does not exist or is not a directory.
pub fn check_repo(repo: &str, exists: bool, is_dir: bool) -> (r: Result<(), String>)
    ensures
        match r {
            Ok(_) => exists && is_dir,
            Err(m) => if !exists {
                m@ == "repo path does not exist: "@ + repo@
            } else {
                !is_dir && m@ == "repo path is not a directory: "@ + repo@
            },
        },
{
    if !exists {
        let mut m = String::new();
        m.append("repo path does not exist: ");
        m.append(repo);
        return Err(m);
    }
    if !is_dir {
        let mut m = String::new();
        m.append("repo path is not a directory: ");
        m.append(repo);
        return Err(m);
    }
    Ok(())
}

/// The settings of a session being set up.
#[derive(Clone, Debug)]
pub struct SessionSettings {
    pub profile_name: String,
    pub profile_model: String,
    pub context_limit: usize,
    /// The percentage of the context at which the conversation is compacted;
    /// negative when it is never compacted.
    pub autocompact: i32,
    pub temp: bool,
}

/// The settings of a session: the profile asked for (or the default), which
/// must be known; the compaction threshold and temporariness asked for (or
/// the defaults). Forks and resumes take no temporariness.
pub fn session_settings(
    resuming: bool,
    temp: Option<bool>,
    profile: Option<String>,
    autocompact: Option<i32>,
    default_profile_name: &str,
    default_autocompact: i32,
    default_temp: bool,
) -> (r: Result<SessionSettings, String>)
    ensures
        resuming && temp is Some ==> (r matches Err(m) && m@ == "temp is only valid for start"@),
        !(resuming && temp is Some) ==> {
            let name = match profile {
                Some(p) => p@,
                None => default_profile_name@,
            };
            match crate::profiles::builtin_profile(name) {
                None => r matches Err(m) && m@ == "unknown profile: "@ + name,
                Some(p) => r matches Ok(s) && s.profile_name@ == name && s.profile_model@ == p.model
                    && s.context_limit == p.context_limit && s.autocompact == match autocompact {
                    Some(a) => a,
                    None => default_autocompact,
                } && s.temp == (!resuming && match temp {
                    Some(t) => t,
                    None => default_temp,
                }),
            }
        },
{
    if resuming && temp.is_some() {
        return Err("temp is only valid for start".to_string());
    }
    let name = resolved_profile_name(profile, default_profile_name);
    match crate::profiles::get_profile(name.as_str()) {
        None => {
            let mut m = String::new();
            m.append("unknown profile: ");
            m.append(name.as_str());
            Err(m)
        },
        Some(p) => {
            let a = match autocompact {
                Some(a) => a,
                None => default_autocompact,
            };
            let t = if resuming {
                false
            } else {
                match temp {
                    Some(t) => t,
                    None => default_temp,
                }
            };
            Ok(
                SessionSettings {
                    profile_name: name,
                    profile_model: p.model.to_string(),
                    context_limit: p.context_limit,
                    autocompact: a,
                    temp: t,
                },
            )
        },
    }
}

/// Whether a stored message is an empty user message, dropped when a
/// session is resumed or forked.
pub open spec fn empty_user_message(m: Message) -> bool {
    m.role == Role::User && m.content@.len() == 0 && m.reasoning_content@.len() == 0
        && m.tool_calls@.len() == 0 && m.tool_call_id@.len() == 0
}

/// Drops the empty user messages of a stored session.
pub fn drop_empty_user_messages(messages: Vec<Message>) -> (r: Vec<Message>)
    ensures
        r@ == messages@.filter(|m: Message| !empty_user_message(m)),
{
    let ghost all = messages@;
    let total = messages.len();
    let mut src = messages;
    let mut rev: Vec<Message> = Vec::new();
    while src.len() > 0
        invariant
            total == all.len(),
            src@.len() + rev@.len() == all.len(),
            src@ == all.take(src@.len() as int),
            forall|k: int| 0 <= k < rev@.len() ==> #[trigger] rev@[k] == all[all.len() - 1 - k],
        decreases src.len(),
    {
        let ghost before = src@;
        let m = src.pop().unwrap();
        proof {
            assert(m == all[src@.len() as int]);
            assert(src@ =~= all.take(src@.len() as int));
        }
        rev.push(m);
    }
    let mut r: Vec<Message> = Vec::new();
    proof {
        assert(all.take(0).filter(|m: Message| !empty_user_message(m)) =~= Seq::<Message>::empty());
    }
    let mut i: usize = 0;
    while rev.len() > 0
        invariant
            total == all.len(),
            i + rev@.len() == all.len(),
            forall|k: int| 0 <= k < rev@.len() ==> #[trigger] rev@[k] == all[all.len() - 1 - k],
            r@ == all.take(i as int).filter(|m: Message| !empty_user_message(m)),
        decreases rev.len(),
    {
        let m = rev.pop().unwrap();
        proof {
            reveal(Seq::filter);
            assert(m == all[i as int]);
            assert(all.take(i + 1).drop_last() =~= all.take(i as int));
            assert(all.take(i + 1).last() == all[i as int]);
        }
        let keep = !(m.role == Role::User && m.content.as_str().is_empty()
            && m.reasoning_content.as_str().is_empty() && m.tool_calls.len() == 0
            && m.tool_call_id.as_str().is_empty());
        if keep {
            r.push(m);
        }
        i += 1;
    }
    proof {
        assert(all.take(all.len() as int) =~= all);
    }
    r
}

/// What a client's event asks once its session is set up.
#[derive(Clone, Debug)]
pub enum ClientEvent {
    Start,
    Fork,
    Resume,
    Message(String),
    Cancel,
    New,
    Compact(Option<String>),
    Profile(String),
    Exit,
}

/// What the server does with a client's event once the session is set up:
/// the steering event for the agent, whether the connection ends, and the
/// error code and message sent back.
pub fn route_event(event: ClientEvent) -> (r: (Option<SteerEvent>, bool, Option<(String, String)>))
    ensures
        match event {
            ClientEvent::Start | ClientEvent::Fork | ClientEvent::Resume => {
                &&& r.0 is None
                &&& !r.1
                &&& r.2 matches Some((c, m)) && c@ == "already_initialized"@ && m@
                    == "session is already initialized"@
            },
            ClientEvent::Message(c) => r.0 == Some(SteerEvent::Message(c)) && !r.1 && r.2 is None,
            ClientEvent::Cancel => r.0 == Some(SteerEvent::Cancel) && !r.1 && r.2 is None,
            ClientEvent::New => r.0 == Some(SteerEvent::New) && !r.1 && r.2 is None,
            ClientEvent::Compact(f) => r.0 == Some(SteerEvent::Compact(f)) && !r.1 && r.2 is None,
            ClientEvent::Profile(p) => r.0 == Some(SteerEvent::Profile(p)) && !r.1 && r.2 is None,
            ClientEvent::Exit => r.0 == Some(SteerEvent::Exit(None)) && r.1 && r.2 is None,
        },
{
    match event {
        ClientEvent::Start | ClientEvent::Fork | ClientEvent::Resume => (
            None,
            false,
            Some(("already_initialized".to_string(), "session is already initialized".to_string())),
        ),
        ClientEvent::Message(c) => (Some(SteerEvent::Message(c)), false, None),
        ClientEvent::Cancel => (Some(SteerEvent::Cancel), false, None),
        ClientEvent::New => (Some(SteerEvent::New), false, None),
        ClientEvent::Compact(f) => (Some(SteerEvent::Compact(f)), false, None),
        ClientEvent::Profile(p) => (Some(SteerEvent::Profile(p)), false, None),
        ClientEvent::Exit => (Some(SteerEvent::Exit(None)), true, None),
    }
}

/// What the server does with a client's event before a session is set up.
#[derive(Clone, Debug)]
pub enum InitAction {
    /// Set up a new session.
    Start,
    /// Set up a session forked from a saved one.
    Fork,
    /// Set up a saved session again.
    Resume,
    /// Answer with this error code and message, and wait for the next event.
    Refuse { code: String, message: String },
}

/// Routes a client's event on a connection that has no session yet: start,
/// fork and resume set one up; any other event is answered with the
/// `not_initialized` error.
pub fn route_uninitialized(event: ClientEvent) -> (r: InitAction)
    ensures
        match event {
            ClientEvent::Start => r is Start,
            ClientEvent::Fork => r is Fork,
            ClientEvent::Resume => r is Resume,
            _ => r matches InitAction::Refuse { code, message } && code@ == "not_initialized"@
                && message@ == "connection is not initialized; send start, fork, or resume first"@,
        },
{
    match event {
        ClientEvent::Start => InitAction::Start,
        ClientEvent::Fork => InitAction::Fork,
        ClientEvent::Resume => InitAction::Resume,
        _ => InitAction::Refuse {
            code: "not_initialized".to_string(),
            message: "connection is not initialized; send start, fork, or resume first".to_string(),
        },
    }
}

} // verus!
