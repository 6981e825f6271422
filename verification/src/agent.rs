//! The agent's conversation loop, as decisions on what to record and what to
//! show, and the command line's rendering of what the agent does.
use vstd::prelude::*;
use crate::text::{
    chars_of, split_chars, split_on, push_chars, string_of, words, words_exec,
    join_with, join_vecs, char_views, utf8_len, utf8_len_of, utf8_prefix_len, lines_of,
    lines_chars, trim, trim_bounds, ends_with, decimal, push_decimal, lemma_utf8_len_append,
    char_utf8_len,
};
use crate::types::{Message, MessageOrigin, Role, ToolCall, ChatResponse};
use crate::sse::StreamEvent;
use crate::tools::agent_tool::{AgentTool, tool_named};

verus! {

broadcast use vstd::string::group_string_axioms;

// ---------------------------------------------------------------------------
// Interleaving standard error with standard output

/// What has been written to standard error: by whom last, whether at the
/// start of a line, and whether a separator is owed before standard output.
#[derive(Debug)]
pub struct StderrLineState {
    pub last_actor: String,
    pub at_line_start: bool,
    pub needs_stdout_separator: bool,
}

impl Default for StderrLineState {
    fn default() -> (s: Self)
        ensures
            s.last_actor@.len() == 0,
            s.at_line_start,
            !s.needs_stdout_separator,
    {
        StderrLineState {
            last_actor: String::new(),
            at_line_start: true,
            needs_stdout_separator: false,
        }
    }
}

/// The tag in front of a line of an actor.
pub open spec fn actor_tag(actor: Seq<char>) -> Seq<char> {
    "["@ + actor + "] "@
}

/// One piece of the text between newlines, from the state (at line start,
/// separator owed): what is written and the state after.
pub open spec fn piece_step(st: (bool, bool), actor: Seq<char>, first: bool, part: Seq<char>) -> (
    (bool, bool),
    Seq<char>,
) {
    let at0 = if first { st.0 } else { true };
    let lead: Seq<char> = if first { Seq::empty() } else { "\n"@ };
    if part.len() == 0 {
        ((at0, st.1), lead)
    } else {
        ((false, true), lead + (if at0 { actor_tag(actor) } else { Seq::empty() }) + part)
    }
}

/// The first `k` pieces written from state `st`.
pub open spec fn pieces_fold(parts: Seq<Seq<char>>, actor: Seq<char>, st: (bool, bool), k: int) -> (
    (bool, bool),
    Seq<char>,
)
    decreases k,
{
    if k <= 0 {
        (st, Seq::empty())
    } else {
        let prev = pieces_fold(parts, actor, st, k - 1);
        let next = piece_step(prev.0, actor, k - 1 == 0, parts[k - 1]);
        (next.0, prev.1 + next.1)
    }
}

/// Writing `text` for `actor`: a line left open by another actor is ended
/// first, each non-empty line of the text gets the actor's tag at its start.
pub open spec fn written_text(
    at_start: bool,
    needs_sep: bool,
    last_actor: Seq<char>,
    actor: Seq<char>,
    text: Seq<char>,
) -> ((bool, bool), Seq<char>) {
    let switch = !at_start && last_actor != actor;
    let at0 = if switch { true } else { at_start };
    let lead: Seq<char> = if switch { "\n"@ } else { Seq::empty() };
    let parts = split_on(text, '\n');
    let r = pieces_fold(parts, actor, (at0, needs_sep), parts.len() as int);
    (r.0, lead + r.1)
}

impl StderrLineState {
    /// Writes `text` for `actor`; returns what goes to standard error.
    #[verifier::spinoff_prover]
    #[verifier::rlimit(40)]
    pub fn write_text(&mut self, actor_id: &str, text: &str) -> (out: String)
        ensures
            final(self).last_actor@ == actor_id@,
            (final(self).at_line_start, final(self).needs_stdout_separator) == written_text(
                old(self).at_line_start,
                old(self).needs_stdout_separator,
                old(self).last_actor@,
                actor_id@,
                text@,
            ).0,
            out@ == written_text(
                old(self).at_line_start,
                old(self).needs_stdout_separator,
                old(self).last_actor@,
                actor_id@,
                text@,
            ).1,
    {
        let mut out = String::new();
        let same = crate::text::str_eq(self.last_actor.as_str(), actor_id);
        if !self.at_line_start && !same {
            out.append("\n");
            self.at_line_start = true;
        }
        self.last_actor = actor_id.to_string();
        let ghost lead = out@;
        let ghost st0 = (self.at_line_start, self.needs_stdout_separator);
        let v = chars_of(text);
        let parts = split_chars(v.as_slice(), '\n');
        let ghost ps = split_on(text@, '\n');
        let mut i: usize = 0;
        while i < parts.len()
            invariant
                i <= parts@.len(),
                v@ == text@,
                ps == split_on(text@, '\n'),
                parts@.len() == ps.len(),
                forall|k: int| 0 <= k < parts@.len() ==> #[trigger] parts@[k]@ == ps[k],
                self.last_actor@ == actor_id@,
                (self.at_line_start, self.needs_stdout_separator) == pieces_fold(
                    ps,
                    actor_id@,
                    st0,
                    i as int,
                ).0,
                out@ == lead + pieces_fold(ps, actor_id@, st0, i as int).1,
            decreases parts.len() - i,
        {
            let ghost before = out@;
            if i > 0 {
                out.append("\n");
                self.at_line_start = true;
            }
            let part = &parts[i];
            if part.len() > 0 {
                if self.at_line_start {
                    out.append("[");
                    out.append(actor_id);
                    out.append("] ");
                    self.at_line_start = false;
                }
                push_chars(&mut out, part.as_slice());
                self.needs_stdout_separator = true;
            }
            proof {
                let prev = pieces_fold(ps, actor_id@, st0, i as int);
                let next = piece_step(prev.0, actor_id@, i == 0, ps[i as int]);
                assert(out@ =~= before + next.1);
            }
            i += 1;
        }
        out
    }

    /// Ends what standard error shows before standard output is written;
    /// returns what goes to standard error.
    pub fn write_stdout_separator(&mut self) -> (out: String)
        ensures
            final(self).last_actor == old(self).last_actor,
            !final(self).needs_stdout_separator,
            if !old(self).needs_stdout_separator {
                out@.len() == 0 && final(self).at_line_start == old(self).at_line_start
            } else if old(self).at_line_start {
                out@ == "\n"@ && final(self).at_line_start
            } else {
                out@ == "\n\n"@ && final(self).at_line_start
            },
    {
        if !self.needs_stdout_separator {
            return String::new();
        }
        let mut out = String::new();
        if self.at_line_start {
            out.append("\n");
        } else {
            out.append("\n\n");
            self.at_line_start = true;
        }
        self.needs_stdout_separator = false;
        proof {
            reveal_strlit("\n");
            reveal_strlit("\n\n");
        }
        out
    }
}

// ---------------------------------------------------------------------------
// Compact text for the command line

/// The length of the longest prefix of `s`, from `k` on, whose UTF-8
/// encoding fits in `limit` bytes.
pub open spec fn fitting_prefix(s: Seq<char>, limit: int, k: int) -> int
    decreases s.len() - k,
{
    if 0 <= k < s.len() && utf8_len(s.take(k + 1)) <= limit {
        fitting_prefix(s, limit, k + 1)
    } else {
        k
    }
}

/// The words of `s` joined by single spaces.
pub open spec fn compact(s: Seq<char>) -> Seq<char> {
    join_with(words(s), " "@)
}

/// `s` with its whitespace runs collapsed, cut to `limit` bytes (at a
/// character boundary) with `...` after it when it is longer.
pub open spec fn cli_truncated(s: Seq<char>, limit: int) -> Seq<char> {
    let c = compact(s);
    if utf8_len(c) <= limit {
        c
    } else {
        c.take(fitting_prefix(c, limit, 0)) + "..."@
    }
}

/// Collapses whitespace and cuts a text to `limit` bytes for the command line.
pub fn truncate_for_cli(s: &str, limit: usize) -> (r: String)
    ensures
        r@ == cli_truncated(s@, limit as int),
{
    let v = chars_of(s);
    let ws = words_exec(v.as_slice());
    proof {
        assert(char_views(ws@) =~= words(s@));
    }
    let joined = join_vecs(&ws, " ");
    let total = utf8_len_of(joined.as_str());
    if total <= limit {
        return joined;
    }
    let c = chars_of(joined.as_str());
    let mut k: usize = 0;
    let mut used: usize = 0;
    proof {
        assert(c@.take(0) =~= Seq::<char>::empty());
    }
    while k < c.len()
        invariant
            k <= c@.len(),
            c@ == compact(s@),
            total == utf8_len(c@),
            used == utf8_len(c@.take(k as int)),
            used <= limit,
            fitting_prefix(c@, limit as int, 0) == fitting_prefix(c@, limit as int, k as int),
        ensures
            k <= c@.len(),
            c@ == compact(s@),
            fitting_prefix(c@, limit as int, 0) == k,
        decreases c.len() - k,
    {
        let ch = c[k];
        let u = ch as u32;
        let w: usize = if u <= 0x7F {
            1
        } else if u <= 0x7FF {
            2
        } else if u <= 0xFFFF {
            3
        } else {
            4
        };
        proof {
            assert(c@.take(k + 1) =~= c@.take(k as int) + seq![ch]);
            lemma_utf8_len_append(c@.take(k as int), seq![ch]);
            assert(seq![ch].drop_first() =~= Seq::<char>::empty());
            assert(seq![ch][0] == ch);
            assert(utf8_len(Seq::<char>::empty()) == 0);
            assert(utf8_len(seq![ch]) == char_utf8_len(ch));
        }
        assert(w == char_utf8_len(ch));
        if w > limit - used {
            assert(fitting_prefix(c@, limit as int, k as int) == k);
            break;
        }
        used = used + w;
        k += 1;
    }
    let mut out = string_of(crate::text::slice_range(c.as_slice(), 0, k).as_slice());
    out.append("...");
    proof {
        assert(c@.subrange(0, k as int) =~= c@.take(k as int));
        if k == c@.len() {
            assert(c@.take(k as int) =~= c@);
        }
    }
    out
}

/// The first line of a text (empty when it has none).
pub open spec fn first_line_of(s: Seq<char>) -> Seq<char> {
    if lines_of(s).len() > 0 {
        lines_of(s)[0]
    } else {
        Seq::empty()
    }
}

/// The first line of a text.
pub fn first_line(s: &str) -> (r: String)
    ensures
        r@ == first_line_of(s@),
{
    let v = chars_of(s);
    let ls = lines_chars(v.as_slice());
    if ls.len() > 0 {
        string_of(ls[0].as_slice())
    } else {
        String::new()
    }
}

// ---------------------------------------------------------------------------
// What the command line shows

/// Where a piece of command-line output goes.
#[derive(Clone, Debug)]
pub enum CliOutput {
    /// Written to standard output as it is.
    Stdout(String),
    /// Written to standard error for an actor, through the line state.
    Stderr { actor: String, text: String },
}

/// The mathematical content of a piece of command-line output.
pub enum CliOut {
    Stdout(Seq<char>),
    Stderr(Seq<char>, Seq<char>),
}

impl CliOutput {
    pub open spec fn view(&self) -> CliOut {
        match self {
            CliOutput::Stdout(t) => CliOut::Stdout(t@),
            CliOutput::Stderr { actor, text } => CliOut::Stderr(actor@, text@),
        }
    }
}

/// The views of pieces of output.
pub open spec fn outs(v: Seq<CliOutput>) -> Seq<CliOut> {
    v.map_values(|o: CliOutput| o@)
}

/// A piece of standard error.
fn err_out(actor: &str, text: String) -> (o: CliOutput)
    ensures
        o@ == CliOut::Stderr(actor@, text@),
{
    CliOutput::Stderr { actor: actor.to_string(), text }
}

/// Names what `serde_json::from_str::<serde_json::Value>` makes of `text`,
/// read at member `key`: `None` when the text is not JSON, otherwise the
/// member's text when it is a string.
pub uninterp spec fn json_text_member(text: Seq<char>, key: Seq<char>) -> Option<Option<Seq<char>>>;

/// The text of an optional member.
pub open spec fn member_view(o: Option<Option<String>>) -> Option<Option<Seq<char>>> {
    match o {
        None => None,
        Some(None) => Some(None),
        Some(Some(t)) => Some(Some(t@)),
    }
}

/// Parses `text` as JSON with `serde_json::from_str::<serde_json::Value>`
/// and reads the string member `key` (`Value::get`, then `Value::as_str`).
/// Claimed: the result is a function of `text` and `key` alone.
#[verifier::external_body]
fn json_text_member_of(text: &str, key: &str) -> (r: Option<Option<String>>)
    ensures
        member_view(r) == json_text_member(text@, key@),
{
    match serde_json::from_str::<serde_json::Value>(text) {
        Ok(v) => Some(v.get(key).and_then(|m| m.as_str()).map(|m| m.to_string())),
        Err(_) => None,
    }
}

/// A member's text, empty when it is missing or not a string.
pub open spec fn member_or_empty(m: Option<Seq<char>>) -> Seq<char> {
    match m {
        Some(t) => t,
        None => Seq::empty(),
    }
}

/// What the command line shows of a tool call. A call of an agent tool with
/// JSON arguments shows its name and reason, and its code when verbose;
/// any other call shows, when verbose, its name and compacted arguments.
pub open spec fn tool_call_shown(
    actor: Seq<char>,
    verbose: bool,
    name: Seq<char>,
    arguments: Seq<char>,
) -> Seq<CliOut> {
    let reason = json_text_member(arguments, "reason"@);
    let code = json_text_member(arguments, "code"@);
    if tool_named(name) is Some && reason is Some && code is Some {
        let r = member_or_empty(reason->0);
        let c = member_or_empty(code->0);
        let head = if r.len() > 0 {
            "["@ + name + "] "@ + r + "\n"@
        } else {
            "["@ + name + "]\n"@
        };
        seq![CliOut::Stderr(actor, head)] + if verbose && c.len() > 0 {
            seq![CliOut::Stderr(actor, "-- Code:\n"@ + c + "\n"@)]
        } else {
            Seq::empty()
        }
    } else if verbose {
        seq![
            CliOut::Stderr(
                actor,
                "[tool] "@ + name + " "@ + cli_truncated(arguments, 180) + "\n"@,
            ),
        ]
    } else {
        Seq::empty()
    }
}

/// The first `n` lines of a text joined by newlines.
pub open spec fn head_lines(s: Seq<char>, n: int) -> Seq<char> {
    join_with(lines_of(s).take(if lines_of(s).len() < n { lines_of(s).len() as int } else { n }), "\n"@)
}

/// What the command line shows of a tool's result.
pub open spec fn tool_result_shown(
    actor: Seq<char>,
    verbose: bool,
    name: Seq<char>,
    content: Seq<char>,
    failed: bool,
) -> Seq<CliOut> {
    if tool_named(name) is Some {
        if failed {
            seq![CliOut::Stderr(actor, "--- Tool Execution Failed ---\n"@ + content + "\n"@)]
        } else if verbose {
            seq![CliOut::Stderr(actor, "--- Tool Execution Result ---\n"@ + head_lines(content, 5) + "\n"@)]
                + if lines_of(content).len() > 5 {
                seq![CliOut::Stderr(actor, "... (truncated)\n"@)]
            } else {
                Seq::empty()
            }
        } else {
            Seq::empty()
        }
    } else if failed {
        seq![CliOut::Stderr(actor, "[tool:error] "@ + name + ": "@ + first_line_of(content) + "\n"@)]
    } else if verbose {
        seq![
            CliOut::Stderr(
                actor,
                "[tool:ok] "@ + name + " ("@ + decimal(utf8_len(content)) + " bytes)\n"@,
            ),
        ]
    } else {
        Seq::empty()
    }
}

/// The command line's rendering of what an agent does: replies go to
/// standard output, everything else to standard error under the actor's tag.
#[derive(Clone, Copy, Debug)]
pub struct CliOutputSink;

impl CliOutputSink {
    /// A finished message: an assistant's non-blank reply is printed whole.
    pub fn message(&self, message: &Message) -> (r: Vec<CliOutput>)
        ensures
            outs(r@) == if message.role == Role::Assistant && trim(message.content@).len() > 0 {
                seq![CliOut::Stdout(message.content@ + "\n"@)]
            } else {
                Seq::empty()
            },
    {
        let mut r: Vec<CliOutput> = Vec::new();
        let v = chars_of(message.content.as_str());
        let (a, b) = trim_bounds(v.as_slice(), 0, v.len());
        proof {
            assert(v@.subrange(0, v@.len() as int) =~= v@);
            assert(outs(r@) =~= Seq::<CliOut>::empty());
        }
        if message.role == Role::Assistant && a < b {
            let mut t = message.content.clone();
            t.append("\n");
            let ghost tv = t@;
            r.push(CliOutput::Stdout(t));
            proof {
                assert(outs(r@)[0] == CliOut::Stdout(tv));
                assert(outs(r@) =~= seq![CliOut::Stdout(message.content@ + "\n"@)]);
            }
        }
        r
    }

    /// A piece of a streamed reply: content goes to standard output as it
    /// comes, reasoning to standard error when verbose.
    pub fn stream_event(&self, actor_id: &str, verbose: bool, event: &StreamEvent) -> (r: Vec<
        CliOutput,
    >)
        ensures
            outs(r@) == match event {
                StreamEvent::Content(c) => seq![CliOut::Stdout(c@)],
                StreamEvent::Reasoning(c) => if verbose {
                    seq![CliOut::Stderr(actor_id@ + "][thinking"@, c@)]
                } else {
                    Seq::empty()
                },
                StreamEvent::ToolCalling => Seq::empty(),
            },
    {
        let mut r: Vec<CliOutput> = Vec::new();
        match event {
            StreamEvent::Content(c) => {
                r.push(CliOutput::Stdout(c.clone()));
            },
            StreamEvent::Reasoning(c) => {
                if verbose {
                    let mut tagged = String::new();
                    tagged.append(actor_id);
                    tagged.append("][thinking");
                    r.push(CliOutput::Stderr { actor: tagged, text: c.clone() });
                }
            },
            StreamEvent::ToolCalling => {},
        }
        proof {
            assert(outs(r@) =~= match event {
                StreamEvent::Content(c) => seq![CliOut::Stdout(c@)],
                StreamEvent::Reasoning(c) => if verbose {
                    seq![CliOut::Stderr(actor_id@ + "][thinking"@, c@)]
                } else {
                    Seq::empty()
                },
                StreamEvent::ToolCalling => Seq::empty(),
            });
        }
        r
    }

    /// A tool call the model made.
    pub fn tool_call(&self, actor_id: &str, verbose: bool, tool_call: &ToolCall) -> (r: Vec<
        CliOutput,
    >)
        ensures
            outs(r@) == tool_call_shown(
                actor_id@,
                verbose,
                tool_call.function.name@,
                tool_call.function.arguments@,
            ),
    {
        let name = tool_call.function.name.as_str();
        let args = tool_call.function.arguments.as_str();
        let mut r: Vec<CliOutput> = Vec::new();
        let reason = json_text_member_of(args, "reason");
        let code = json_text_member_of(args, "code");
        proof {
            reveal_strlit("reason");
            reveal_strlit("code");
        }
        let known = AgentTool::from_name(name).is_ok();
        if known && reason.is_some() && code.is_some() {
            let reason_text = match reason {
                Some(Some(t)) => t,
                _ => String::new(),
            };
            let code_text = match code {
                Some(Some(t)) => t,
                _ => String::new(),
            };
            let mut head = String::new();
            head.append("[");
            head.append(name);
            if !reason_text.as_str().is_empty() {
                head.append("] ");
                head.append(reason_text.as_str());
                head.append("\n");
            } else {
                head.append("]\n");
            }
            let ghost hv = head@;
            r.push(err_out(actor_id, head));
            if verbose && !code_text.as_str().is_empty() {
                let mut body = String::new();
                body.append("-- Code:\n");
                body.append(code_text.as_str());
                body.append("\n");
                r.push(err_out(actor_id, body));
            }
            proof {
                assert(outs(r@)[0] == CliOut::Stderr(actor_id@, hv));
                assert(outs(r@) =~= tool_call_shown(actor_id@, verbose, name@, args@));
            }
            return r;
        }
        if verbose {
            let shown = truncate_for_cli(args, 180);
            let mut line = String::new();
            line.append("[tool] ");
            line.append(name);
            line.append(" ");
            line.append(shown.as_str());
            line.append("\n");
            r.push(err_out(actor_id, line));
        }
        proof {
            assert(outs(r@) =~= tool_call_shown(actor_id@, verbose, name@, args@));
        }
        r
    }

    /// The result of a tool.
    pub fn tool_result(
        &self,
        actor_id: &str,
        verbose: bool,
        tool_name: &str,
        content: &str,
        failed: bool,
    ) -> (r: Vec<CliOutput>)
        ensures
            outs(r@) == tool_result_shown(actor_id@, verbose, tool_name@, content@, failed),
    {
        let mut r: Vec<CliOutput> = Vec::new();
        if AgentTool::from_name(tool_name).is_ok() {
            if failed {
                let mut t = String::new();
                t.append("--- Tool Execution Failed ---\n");
                t.append(content);
                t.append("\n");
                r.push(err_out(actor_id, t));
            } else if verbose {
                let v = chars_of(content);
                let ls = lines_chars(v.as_slice());
                let n: usize = if ls.len() < 5 { ls.len() } else { 5 };
                let mut head: Vec<Vec<char>> = Vec::new();
                let mut i: usize = 0;
                while i < n
                    invariant
                        i <= n <= ls@.len(),
                        head@.len() == i,
                        forall|k: int| 0 <= k < i ==> #[trigger] head@[k]@ == ls@[k]@,
                    decreases n - i,
                {
                    head.push(crate::text::slice_range(ls[i].as_slice(), 0, ls[i].len()));
                    proof {
                        assert(ls@[i as int]@.subrange(0, ls@[i as int]@.len() as int) =~= ls@[i as int]@);
                    }
                    i += 1;
                }
                let joined = join_vecs(&head, "\n");
                proof {
                    assert(char_views(head@) =~= lines_of(content@).take(n as int));
                }
                let mut t = String::new();
                t.append("--- Tool Execution Result ---\n");
                t.append(joined.as_str());
                t.append("\n");
                let ghost tv = t@;
                r.push(err_out(actor_id, t));
                if ls.len() > 5 {
                    r.push(err_out(actor_id, "... (truncated)\n".to_string()));
                }
                proof {
                    assert(outs(r@)[0] == CliOut::Stderr(actor_id@, tv));
                }
            }
        } else if failed {
            let first = first_line(content);
            let mut t = String::new();
            t.append("[tool:error] ");
            t.append(tool_name);
            t.append(": ");
            t.append(first.as_str());
            t.append("\n");
            r.push(err_out(actor_id, t));
        } else if verbose {
            let n = utf8_len_of(content);
            let mut t = String::new();
            t.append("[tool:ok] ");
            t.append(tool_name);
            t.append(" (");
            push_decimal(&mut t, n as u64);
            t.append(" bytes)\n");
            r.push(err_out(actor_id, t));
        }
        proof {
            assert(outs(r@) =~= tool_result_shown(actor_id@, verbose, tool_name@, content@, failed));
        }
        r
    }

    /// An update of a worker's task.
    pub fn task_update(&self, actor_id: &str, status: &str, summary: &str) -> (r: Vec<CliOutput>)
        ensures
            outs(r@) == seq![
                CliOut::Stderr(actor_id@, "task_update("@ + status@ + "): "@ + summary@ + "\n"@),
            ],
    {
        let mut t = String::new();
        t.append("task_update(");
        t.append(status);
        t.append("): ");
        t.append(summary);
        t.append("\n");
        let ghost tv = t@;
        let mut r: Vec<CliOutput> = Vec::new();
        r.push(err_out(actor_id, t));
        proof {
            assert(outs(r@)[0] == CliOut::Stderr(actor_id@, tv));
            assert(outs(r@) =~= seq![CliOut::Stderr(actor_id@, tv)]);
        }
        r
    }
}

// ---------------------------------------------------------------------------
// The conversation loop

/// What an agent reports while it runs, for whoever shows it.
pub trait AgentOutputSink {
    /// A finished message of the conversation.
    fn message(&self, actor_id: &str, message: &Message);

    /// A piece of a streamed reply.
    fn stream_event(&self, actor_id: &str, verbose: bool, event: &StreamEvent) {
    }

    /// A tool call the model made.
    fn tool_call(&self, actor_id: &str, verbose: bool, tool_call: &ToolCall) {
    }

    /// The result of a tool.
    fn tool_result(&self, actor_id: &str, verbose: bool, tool_name: &str, content: &str, failed: bool) {
    }

    /// An update of a worker's task.
    fn task_update(&self, actor_id: &str, status: &str, summary: &str) {
    }
}

/// What is shown of a reply once it is recorded.
#[derive(Clone, Copy, Debug, PartialEq, Eq, Structural)]
pub enum ReplyNotice {
    /// The reply was streamed and ended its line: nothing more.
    Nothing,
    /// The reply was streamed without a final newline: a newline is streamed.
    StreamNewline,
    /// The reply was not streamed: the finished message is shown.
    Message,
}

/// What is shown of a reply: a streamed reply that does not end its line
/// gets a newline; one that was not streamed, or is empty, is shown whole.
pub open spec fn reply_notice(streamed: bool, content: Seq<char>) -> ReplyNotice {
    if streamed && content.len() > 0 {
        if ends_with(content, "\n"@) {
            ReplyNotice::Nothing
        } else {
            ReplyNotice::StreamNewline
        }
    } else {
        ReplyNotice::Message
    }
}

/// Records a reply of the model in the conversation. Returns what is shown
/// of it and the tool calls to run, in order; the loop ends when there are
/// none.
pub fn record_reply(messages: &mut Vec<Message>, response: ChatResponse, streamed: bool) -> (r: (
    ReplyNotice,
    Vec<ToolCall>,
))
    ensures
        final(messages)@.len() == old(messages)@.len() + 1,
        final(messages)@.take(old(messages)@.len() as int) == old(messages)@,
        final(messages)@.last().role == Role::Assistant,
        final(messages)@.last().content == response.content,
        final(messages)@.last().reasoning_content == response.reasoning_content,
        final(messages)@.last().tool_calls == response.tool_calls,
        final(messages)@.last().origin == MessageOrigin::Model,
        final(messages)@.last().tool_call_id@.len() == 0,
        final(messages)@.last().image_url is None,
        r.0 == reply_notice(streamed, response.content@),
        r.1@ == response.tool_calls@,
{
    let notice = if streamed && !response.content.as_str().is_empty() {
        let v = chars_of(response.content.as_str());
        let nl = vec!['\n'];
        proof {
            reveal_strlit("\n");
        }
        if crate::text::has_suffix(v.as_slice(), nl.as_slice()) {
            ReplyNotice::Nothing
        } else {
            ReplyNotice::StreamNewline
        }
    } else {
        ReplyNotice::Message
    };
    let calls = response.tool_calls.clone();
    proof {
        assert(calls@ =~= response.tool_calls@);
    }
    let ghost before = messages@;
    messages.push(Message::assistant(response));
    proof {
        assert(messages@.take(before.len() as int) =~= before);
    }
    (notice, calls)
}

/// The text a failed tool gives the model.
pub open spec fn tool_failure_text(tool_name: Seq<char>, error: Seq<char>) -> Seq<char> {
    "tool `"@ + tool_name + "` failed:\n"@ + error
        + "\n\nUse this tool error as evidence, then adjust the next tool call or report the failure."@
}

/// Records a tool's result in the conversation: its output, or for a failed
/// tool the error with advice. Returns the recorded text and whether the tool
/// failed.
pub fn record_tool_result(
    messages: &mut Vec<Message>,
    tool_call: &ToolCall,
    result: Result<String, String>,
) -> (r: (String, bool))
    ensures
        final(messages)@.len() == old(messages)@.len() + 1,
        final(messages)@.take(old(messages)@.len() as int) == old(messages)@,
        final(messages)@.last().role == Role::Tool,
        final(messages)@.last().tool_call_id == tool_call.id,
        final(messages)@.last().content == r.0,
        final(messages)@.last().origin == MessageOrigin::Tool,
        final(messages)@.last().reasoning_content@.len() == 0,
        final(messages)@.last().tool_calls@.len() == 0,
        final(messages)@.last().image_url is None,
        r.1 == result is Err,
        r.0@ == match result {
            Ok(c) => c@,
            Err(e) => tool_failure_text(tool_call.function.name@, e@),
        },
{
    let failed = result.is_err();
    let content = match result {
        Ok(c) => c,
        Err(e) => {
            let mut t = String::new();
            t.append("tool `");
            t.append(tool_call.function.name.as_str());
            t.append("` failed:\n");
            t.append(e.as_str());
            t.append("\n\nUse this tool error as evidence, then adjust the next tool call or report the failure.",
            );
            t
        },
    };
    let ghost before = messages@;
    let shown = content.clone();
    messages.push(Message::tool_result(tool_call.id.clone(), content));
    proof {
        assert(messages@.take(before.len() as int) =~= before);
    }
    (shown, failed)
}

} // verus!
