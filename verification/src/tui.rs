//! The terminal interface's state and text handling: the steering commands
//! typed into it, the log it shows, the status line, and the fitting of text
//! into terminal cells.
use vstd::prelude::*;
use crate::text::{
    chars_of, trim, trim_start, words, words_exec, starts_with, lines_of, lines_chars, ends_with,
    string_of, string_push, push_chars, trim_string, slice_range, trim_bounds,
    split_on, split_chars, str_eq, has_suffix, utf8_len, char_utf8_len, lemma_utf8_len,
    skip_ws_forward, is_ws, lemma_utf8_len_append, utf8_prefix_len, trim_start_char, lead_run_exec,
    find, find_in, lemma_find_from_facts, matches_at, ws_prefix_len, has_prefix, char_string,
};

verus! {

broadcast use vstd::string::group_string_axioms;

/// What a line typed into the interface asks of the agent.
#[derive(Clone, Debug, PartialEq, Eq)]
pub enum SteerEvent {
    Message(String),
    Cancel,
    Complete,
    New,
    Exit(Option<String>),
    Profile(String),
    Compact(Option<String>),
}

/// What the agent is doing, as the status line shows it.
#[derive(Clone, Copy, Debug, PartialEq, Eq, Structural)]
pub enum AgentState {
    Idle,
    Reasoning,
    Replying,
    Working,
}

/// The mathematical content of a steering event.
pub enum SteerView {
    Message(Seq<char>),
    Cancel,
    Complete,
    New,
    Exit(Option<Seq<char>>),
    Profile(Seq<char>),
    Compact(Option<Seq<char>>),
}

impl SteerEvent {
    pub open spec fn view(&self) -> SteerView {
        match self {
            SteerEvent::Message(s) => SteerView::Message(s@),
            SteerEvent::Cancel => SteerView::Cancel,
            SteerEvent::Complete => SteerView::Complete,
            SteerEvent::New => SteerView::New,
            SteerEvent::Exit(o) => SteerView::Exit(
                match o {
                    Some(s) => Some(s@),
                    None => None,
                },
            ),
            SteerEvent::Profile(s) => SteerView::Profile(s@),
            SteerEvent::Compact(o) => SteerView::Compact(
                match o {
                    Some(s) => Some(s@),
                    None => None,
                },
            ),
        }
    }
}

/// What a typed line asks: the commands `/cancel`, `/complete`, `/compact`
/// (with an optional focus), `/new`, `/q`, `/quit`, `quit`, `exit` and
/// `/profile <name>`; anything else is a message (all trimmed).
pub open spec fn steer_of(line: Seq<char>) -> SteerView {
    let s = trim(line);
    if s == "/cancel"@ {
        SteerView::Cancel
    } else if s == "/complete"@ {
        SteerView::Complete
    } else if s == "/compact"@ {
        SteerView::Compact(None)
    } else if starts_with(s, "/compact "@) {
        SteerView::Compact(Some(trim(s.skip("/compact "@.len() as int))))
    } else if s == "/new"@ {
        SteerView::New
    } else if s == "/q"@ || s == "/quit"@ || s == "quit"@ || s == "exit"@ {
        SteerView::Exit(None)
    } else if starts_with(s, "/profile "@) {
        SteerView::Profile(trim(s.skip("/profile "@.len() as int)))
    } else {
        SteerView::Message(s)
    }
}

/// Whether the text of `v` is the literal `lit`.
fn is_lit(v: &Vec<char>, lit: &str) -> (b: bool)
    ensures
        b == (v@ == lit@),
{
    let l = chars_of(lit);
    crate::text::seq_eq(v.as_slice(), l.as_slice())
}

/// The rest of `v` after the literal prefix `p`, trimmed, when `v` starts
/// with `p`.
fn trimmed_after(v: &Vec<char>, p: &str) -> (r: Option<String>)
    ensures
        match r {
            Some(s) => starts_with(v@, p@) && s@ == trim(v@.skip(p@.len() as int)),
            None => !starts_with(v@, p@),
        },
{
    let q = chars_of(p);
    if !crate::text::has_prefix(v.as_slice(), q.as_slice()) {
        return None;
    }
    let (a, b) = trim_bounds(v.as_slice(), q.len(), v.len());
    Some(string_of(&slice_range(v.as_slice(), a, b)))
}

/// Reads what a typed line asks of the agent.
pub fn parse_steer_event(line: &str) -> (e: SteerEvent)
    ensures
        e@ == steer_of(line@),
{
    let t = trim_string(line);
    let v = chars_of(t.as_str());
    if is_lit(&v, "/cancel") {
        return SteerEvent::Cancel;
    }
    if is_lit(&v, "/complete") {
        return SteerEvent::Complete;
    }
    if is_lit(&v, "/compact") {
        return SteerEvent::Compact(None);
    }
    match trimmed_after(&v, "/compact ") {
        Some(focus) => {
            return SteerEvent::Compact(Some(focus));
        },
        None => {},
    }
    if is_lit(&v, "/new") {
        return SteerEvent::New;
    }
    if is_lit(&v, "/q") || is_lit(&v, "/quit") || is_lit(&v, "quit") || is_lit(&v, "exit") {
        return SteerEvent::Exit(None);
    }
    match trimmed_after(&v, "/profile ") {
        Some(name) => {
            return SteerEvent::Profile(name);
        },
        None => {},
    }
    SteerEvent::Message(t)
}

// ---------------------------------------------------------------------------
// The log

/// The lines the interface shows, and whether a reply is streaming into it.
#[derive(Clone, Debug)]
pub struct UiLog {
    pub lines: Vec<String>,
    pub len: usize,
    pub generation: u64,
    pub streaming: bool,
}

/// The texts of a list of strings.
pub open spec fn line_texts(v: Seq<String>) -> Seq<Seq<char>> {
    v.map_values(|s: String| s@)
}

/// One more, wrapping past the largest value.
pub open spec fn wrap_inc_usize(x: usize) -> usize {
    if x == usize::MAX {
        0
    } else {
        (x + 1) as usize
    }
}

/// One more, wrapping past the largest value.
pub open spec fn wrap_inc_u64(x: u64) -> u64 {
    if x == u64::MAX {
        0
    } else {
        (x + 1) as u64
    }
}

/// `x` raised by one `n` times, wrapping past the largest value.
pub open spec fn inc_n_usize(x: usize, n: nat) -> usize
    decreases n,
{
    if n == 0 {
        x
    } else {
        wrap_inc_usize(inc_n_usize(x, (n - 1) as nat))
    }
}

/// `x` raised by one `n` times, wrapping past the largest value.
pub open spec fn inc_n_u64(x: u64, n: nat) -> u64
    decreases n,
{
    if n == 0 {
        x
    } else {
        wrap_inc_u64(inc_n_u64(x, (n - 1) as nat))
    }
}

/// How many log lines an assistant reply makes: one per line, and one more
/// when it ends with a newline.
pub open spec fn markdown_line_count(content: Seq<char>) -> nat {
    lines_of(content).len() + if ends_with(content, seq!['\n']) {
        1nat
    } else {
        0nat
    }
}

/// The lines after a chunk of a streamed reply with the given prefix: the
/// last line goes on when it has the prefix, and each newline of the chunk
/// starts a new line with the prefix.
pub open spec fn append_chunk(lines: Seq<Seq<char>>, chunk: Seq<char>, prefix: Seq<char>) -> Seq<
    Seq<char>,
> {
    let (kept, current) = if lines.len() > 0 && starts_with(lines.last(), prefix) {
        (lines.drop_last(), lines.last())
    } else {
        (lines, prefix)
    };
    let parts = split_on(chunk, '\n');
    kept + seq![current + parts[0]] + parts.skip(1).map_values(|p: Seq<char>| prefix + p)
}

impl UiLog {
    /// An empty log.
    pub fn new() -> (l: Self)
        ensures
            l.lines@.len() == 0,
            l.len == 0,
            l.generation == 0,
            !l.streaming,
    {
        UiLog { lines: Vec::new(), len: 0, generation: 0, streaming: false }
    }

    /// Adds a line.
    pub fn push(&mut self, line: String)
        ensures
            final(self).lines@ == old(self).lines@.push(line),
            final(self).len == wrap_inc_usize(old(self).len),
            final(self).generation == wrap_inc_u64(old(self).generation),
            final(self).streaming == old(self).streaming,
    {
        self.lines.push(line);
        self.len = self.len.wrapping_add(1);
        self.generation = self.generation.wrapping_add(1);
    }

    /// Adds a reply of the assistant, one log line per line of it (and an
    /// empty one when it ends with a newline).
    pub fn push_assistant_markdown(&mut self, content: &str)
        ensures
            line_texts(final(self).lines@) == line_texts(old(self).lines@) + lines_of(content@).map_values(
                |l: Seq<char>| "ogent: "@ + l,
            ) + if ends_with(content@, seq!['\n']) {
                seq!["ogent:"@]
            } else {
                Seq::empty()
            },
            final(self).len == inc_n_usize(old(self).len, markdown_line_count(content@)),
            final(self).generation == inc_n_u64(old(self).generation, markdown_line_count(content@)),
            final(self).streaming == old(self).streaming,
    {
        let v = chars_of(content);
        let ls = lines_chars(v.as_slice());
        let ghost start = line_texts(self.lines@);
        let ghost lv = lines_of(content@);
        let mut i: usize = 0;
        while i < ls.len()
            invariant
                i <= ls@.len(),
                ls@.len() == lv.len(),
                lv == lines_of(content@),
                forall|k: int| 0 <= k < ls@.len() ==> #[trigger] ls@[k]@ == lv[k],
                line_texts(self.lines@) == start + lv.take(i as int).map_values(
                    |l: Seq<char>| "ogent: "@ + l,
                ),
                self.len == inc_n_usize(old(self).len, i as nat),
                self.generation == inc_n_u64(old(self).generation, i as nat),
                self.streaming == old(self).streaming,
            decreases ls.len() - i,
        {
            let mut line = String::new();
            line.append("ogent: ");
            push_chars(&mut line, ls[i].as_slice());
            let ghost before = self.lines@;
            self.push(line);
            proof {
                assert(line_texts(self.lines@) =~= line_texts(before).push(line@));
                assert(lv.take(i + 1).map_values(|l: Seq<char>| "ogent: "@ + l) =~= lv.take(
                    i as int,
                ).map_values(|l: Seq<char>| "ogent: "@ + l).push("ogent: "@ + lv[i as int]));
            }
            i += 1;
        }
        assert(lv.take(lv.len() as int) == lv);
        let nl: Vec<char> = vec!['\n'];
        if has_suffix(v.as_slice(), nl.as_slice()) {
            assert(nl@ =~= seq!['\n']);
            let ghost before = self.lines@;
            self.push("ogent:".to_string());
            proof {
                assert(line_texts(self.lines@) =~= line_texts(before).push("ogent:"@));
            }
        } else {
            proof {
                assert(nl@ =~= seq!['\n']);
                assert(line_texts(self.lines@) =~= line_texts(self.lines@) + Seq::<Seq<char>>::empty());
            }
        }
    }

    /// Empties the log.
    pub fn clear(&mut self)
        ensures
            final(self).lines@.len() == 0,
            final(self).len == 0,
            final(self).generation == wrap_inc_u64(old(self).generation),
            final(self).streaming == old(self).streaming,
    {
        self.lines.clear();
        self.len = 0;
        self.generation = self.generation.wrapping_add(1);
    }

    /// Opens a line for a streamed reply.
    pub fn start_stream(&mut self)
        ensures
            line_texts(final(self).lines@) == line_texts(old(self).lines@).push("ogent: "@),
            final(self).len == wrap_inc_usize(old(self).len),
            final(self).generation == old(self).generation,
            final(self).streaming,
    {
        let ghost before = self.lines@;
        self.lines.push("ogent: ".to_string());
        proof {
            assert(line_texts(self.lines@) =~= line_texts(before).push("ogent: "@));
        }
        self.len = self.len.wrapping_add(1);
        self.streaming = true;
    }

    /// Adds a chunk of a streamed text under the given prefix; nothing
    /// happens while no reply is streaming.
    fn append_chunk_prefixed(&mut self, chunk: &str, prefix: &str)
        ensures
            !old(self).streaming ==> *final(self) == *old(self),
            old(self).streaming ==> {
                &&& line_texts(final(self).lines@) == append_chunk(
                    line_texts(old(self).lines@),
                    chunk@,
                    prefix@,
                )
                &&& final(self).len == final(self).lines@.len()
                &&& final(self).generation == wrap_inc_u64(old(self).generation)
                &&& final(self).streaming
            },
    {
        if !self.streaming {
            return;
        }
        let ghost lines0 = line_texts(self.lines@);
        let last = self.lines.pop();
        let mut current = match last {
            Some(l) => {
                if crate::text::str_starts_with(l.as_str(), prefix) {
                    l
                } else {
                    self.lines.push(l);
                    prefix.to_string()
                }
            },
            None => prefix.to_string(),
        };
        let ghost kept = line_texts(self.lines@);
        proof {
            if lines0.len() > 0 {
                assert(line_texts(self.lines@) =~= lines0.drop_last() || line_texts(self.lines@)
                    =~= lines0);
            }
            assert(kept == if lines0.len() > 0 && starts_with(lines0.last(), prefix@) {
                lines0.drop_last()
            } else {
                lines0
            });
        }
        let cv = chars_of(chunk);
        let parts = split_chars(cv.as_slice(), '\n');
        let ghost ps = split_on(chunk@, '\n');
        proof {
            crate::text::lemma_split_on_nonempty(chunk@, '\n');
        }
        push_chars(&mut current, parts[0].as_slice());
        let mut i: usize = 1;
        proof {
            assert(ps.skip(1).take(0).map_values(|p: Seq<char>| prefix@ + p) =~= Seq::<Seq<char>>::empty());
            assert(line_texts(self.lines@) =~= kept + Seq::<Seq<char>>::empty());
        }
        while i < parts.len()
            invariant
                1 <= i <= parts@.len(),
                parts@.len() == ps.len(),
                ps == split_on(chunk@, '\n'),
                forall|k: int| 0 <= k < parts@.len() ==> #[trigger] parts@[k]@ == ps[k],
                line_texts(self.lines@) + seq![current@] == kept + seq![
                    (if lines0.len() > 0 && starts_with(lines0.last(), prefix@) {
                        lines0.last()
                    } else {
                        prefix@
                    }) + ps[0],
                ] + ps.skip(1).take(i - 1).map_values(|p: Seq<char>| prefix@ + p),
                self.generation == old(self).generation,
                self.streaming,
            decreases parts.len() - i,
        {
            let ghost before = line_texts(self.lines@);
            let ghost cur = current@;
            self.lines.push(current);
            current = prefix.to_string();
            push_chars(&mut current, parts[i].as_slice());
            proof {
                assert(line_texts(self.lines@) =~= before.push(cur));
                assert(ps.skip(1).take(i as int) =~= ps.skip(1).take(i - 1).push(ps[i as int]));
                assert(ps.skip(1).take(i as int).map_values(|p: Seq<char>| prefix@ + p) =~= ps.skip(
                    1,
                ).take(i - 1).map_values(|p: Seq<char>| prefix@ + p).push(prefix@ + ps[i as int]));
                assert(line_texts(self.lines@) + seq![current@] =~= (before + seq![cur]).push(
                    current@,
                ));
            }
            i += 1;
        }
        let ghost before = line_texts(self.lines@);
        self.lines.push(current);
        proof {
            assert(ps.skip(1).take(ps.len() - 1) =~= ps.skip(1));
            assert(line_texts(self.lines@) =~= before.push(current@));
        }
        self.len = self.lines.len();
        self.generation = self.generation.wrapping_add(1);
    }

    /// Adds a chunk of a streamed reply.
    pub fn append_stream_chunk(&mut self, chunk: &str)
        ensures
            !old(self).streaming ==> *final(self) == *old(self),
            old(self).streaming ==> line_texts(final(self).lines@) == append_chunk(
                line_texts(old(self).lines@),
                chunk@,
                "ogent: "@,
            ) && final(self).len == final(self).lines@.len() && final(self).generation
                == wrap_inc_u64(old(self).generation) && final(self).streaming,
    {
        self.append_chunk_prefixed(chunk, "ogent: ");
    }

    /// Adds a chunk of streamed reasoning.
    pub fn append_reasoning_chunk(&mut self, chunk: &str)
        ensures
            !old(self).streaming ==> *final(self) == *old(self),
            old(self).streaming ==> line_texts(final(self).lines@) == append_chunk(
                line_texts(old(self).lines@),
                chunk@,
                "reasoning: "@,
            ) && final(self).len == final(self).lines@.len() && final(self).generation
                == wrap_inc_u64(old(self).generation) && final(self).streaming,
    {
        self.append_chunk_prefixed(chunk, "reasoning: ");
    }

    /// Closes a streamed reply.
    pub fn end_stream(&mut self)
        ensures
            final(self).lines == old(self).lines,
            final(self).len == old(self).len,
            final(self).generation == old(self).generation,
            !final(self).streaming,
    {
        self.streaming = false;
    }

    /// The number of changes made to the log, as a counter that wraps.
    pub fn generation(&self) -> (g: u64)
        ensures
            g == self.generation,
    {
        self.generation
    }
}

// ---------------------------------------------------------------------------
// The status line

/// What the status line shows.
#[derive(Clone, Debug)]
pub struct UiStatus {
    pub profile: String,
    pub model: String,
    pub tokens: u64,
    pub state: AgentState,
    pub compact_threshold: i32,
    pub context_limit: usize,
}

impl UiStatus {
    /// The status of an idle agent with the given profile and model, no
    /// tokens counted, no compaction threshold and no context limit.
    pub fn new(profile: String, model: String) -> (s: Self)
        ensures
            s.profile == profile,
            s.model == model,
            s.tokens == 0,
            s.state == AgentState::Idle,
            s.compact_threshold == -1,
            s.context_limit == 0,
    {
        UiStatus { profile, model, tokens: 0, state: AgentState::Idle, compact_threshold: -1, context_limit: 0 }
    }

    /// Sets the token count.
    pub fn set_tokens(&mut self, tokens: u64)
        ensures
            *final(self) == (UiStatus { tokens, ..*old(self) }),
    {
        self.tokens = tokens;
    }

    /// Sets the profile and its model.
    pub fn set_profile(&mut self, profile: String, model: String)
        ensures
            *final(self) == (UiStatus { profile, model, ..*old(self) }),
    {
        self.profile = profile;
        self.model = model;
    }

    /// Sets what the agent is doing.
    pub fn set_state(&mut self, state: AgentState)
        ensures
            *final(self) == (UiStatus { state, ..*old(self) }),
    {
        self.state = state;
    }

    /// Sets the compaction threshold.
    pub fn set_compact_threshold(&mut self, threshold: i32)
        ensures
            *final(self) == (UiStatus { compact_threshold: threshold, ..*old(self) }),
    {
        self.compact_threshold = threshold;
    }

    /// Sets the context limit.
    pub fn set_context_limit(&mut self, limit: usize)
        ensures
            *final(self) == (UiStatus { context_limit: limit, ..*old(self) }),
    {
        self.context_limit = limit;
    }

    /// What the agent is doing.
    pub fn state(&self) -> (s: AgentState)
        ensures
            s == self.state,
    {
        self.state
    }
}

// ---------------------------------------------------------------------------
// Fitting text into cells

/// The number of terminal cells `unicode-width` gives a character, or
/// `None` for a control character.
pub uninterp spec fn char_cells(c: char) -> Option<usize>;

/// The number of terminal cells `unicode-width` gives a string.
pub uninterp spec fn str_cells(s: Seq<char>) -> usize;

/// `UnicodeWidthChar::width`: the displayed width of a character, `None` for
/// a control character.  The contract names the result; the width tables are
/// not spelled out.
#[verifier::external_body]
fn char_width(c: char) -> (r: Option<usize>)
    ensures
        r == char_cells(c),
{
    unicode_width::UnicodeWidthChar::width(c)
}

/// `UnicodeWidthStr::width`: the displayed width of a string.  The contract
/// names the result; how widths of character sequences combine is not spelled
/// out.
#[verifier::external_body]
fn str_width(s: &str) -> (r: usize)
    ensures
        r == str_cells(s@),
{
    unicode_width::UnicodeWidthStr::width(s)
}

/// The cells a character takes, counting control characters as none.
pub open spec fn cw(c: char) -> int {
    match char_cells(c) {
        Some(w) => w as int,
        None => 0,
    }
}

/// The longest start of `s` that fits in `budget` cells, taking characters
/// while they fit.
pub open spec fn fit_prefix(s: Seq<char>, budget: int) -> Seq<char>
    decreases s.len(),
{
    if s.len() == 0 || cw(s[0]) > budget {
        Seq::empty()
    } else {
        seq![s[0]] + fit_prefix(s.skip(1), budget - cw(s[0]))
    }
}

/// The cells of a run of characters.
pub open spec fn cells_of(s: Seq<char>) -> int
    decreases s.len(),
{
    if s.len() == 0 {
        0
    } else {
        cw(s[0]) + cells_of(s.skip(1))
    }
}

/// The longest end of `s` that fits in `budget` cells, taking characters
/// from the back while they fit.
pub open spec fn fit_suffix(s: Seq<char>, budget: int) -> Seq<char>
    decreases s.len(),
{
    if s.len() == 0 || cw(s.last()) > budget {
        Seq::empty()
    } else {
        fit_suffix(s.drop_last(), budget - cw(s.last())).push(s.last())
    }
}

/// The cells a character takes.
fn cw_exec(c: char) -> (w: usize)
    ensures
        w as int == cw(c),
{
    match char_width(c) {
        Some(w) => w,
        None => 0,
    }
}

/// The start of `v` from position `i` on that fits in `budget` cells, and
/// the cells it takes.
fn fit_from(v: &Vec<char>, budget: usize) -> (r: (Vec<char>, usize))
    ensures
        r.0@ == fit_prefix(v@, budget as int),
        r.1 as int == cells_of(fit_prefix(v@, budget as int)),
        r.1 <= budget,
{
    let mut out: Vec<char> = Vec::new();
    let mut used: usize = 0;
    let mut i: usize = 0;
    assert(v@.skip(0) == v@);
    while i < v.len()
        invariant
            i <= v@.len(),
            used <= budget,
            out@ + fit_prefix(v@.skip(i as int), budget - used) == fit_prefix(v@, budget as int),
            used as int + cells_of(fit_prefix(v@.skip(i as int), budget - used)) == cells_of(
                fit_prefix(v@, budget as int),
            ),
        decreases v.len() - i,
    {
        let c = v[i];
        let w = cw_exec(c);
        let ghost rest = v@.skip(i as int);
        assert(rest[0] == c);
        if w > budget - used {
            proof {
                assert(fit_prefix(rest, budget - used) =~= Seq::<char>::empty());
                assert(out@ + Seq::<char>::empty() =~= out@);
            }
            return (out, used);
        }
        proof {
            assert(rest.skip(1) =~= v@.skip(i + 1));
            let f = fit_prefix(rest.skip(1), budget - used - w);
            assert(fit_prefix(rest, budget - used) == seq![c] + f);
            assert(cells_of(seq![c] + f) == w + cells_of(f)) by {
                assert((seq![c] + f).skip(1) =~= f);
            }
            assert(out@.push(c) + f =~= out@ + (seq![c] + f));
        }
        out.push(c);
        used = used + w;
        i += 1;
    }
    proof {
        assert(v@.skip(i as int) =~= Seq::<char>::empty());
        assert(out@ + Seq::<char>::empty() =~= out@);
    }
    (out, used)
}

/// The start of `value` that fits in `width` cells.
pub fn head_cells(value: &str, width: usize) -> (r: String)
    ensures
        r@ == fit_prefix(value@, width as int),
{
    let v = chars_of(value);
    let (out, _) = fit_from(&v, width);
    string_of(out.as_slice())
}

/// The end of `value` that fits in `width` cells.
pub fn tail_cells(value: &str, width: usize) -> (r: String)
    ensures
        r@ == fit_suffix(value@, width as int),
{
    let v = chars_of(value);
    let mut out: Vec<char> = Vec::new();
    let mut used: usize = 0;
    let mut k: usize = v.len();
    proof {
        assert(v@.take(k as int) =~= v@);
        assert(fit_suffix(v@, width as int) + out@ =~= fit_suffix(v@, width as int));
    }
    while k > 0
        invariant
            k <= v@.len(),
            v@ == value@,
            used <= width,
            fit_suffix(v@.take(k as int), width - used) + out@ == fit_suffix(v@, width as int),
        decreases k,
    {
        let c = v[k - 1];
        let w = cw_exec(c);
        let ghost pre = v@.take(k as int);
        assert(pre.last() == c);
        if w > width - used {
            proof {
                assert(pre.len() > 0);
                assert(cw(pre.last()) > width - used);
                assert(fit_suffix(pre, width - used) =~= Seq::<char>::empty());
                assert(Seq::<char>::empty() + out@ =~= out@);
            }
            let r = string_of(out.as_slice());
            assert(r@ == fit_suffix(value@, width as int));
            return r;
        }
        proof {
            assert(pre.drop_last() =~= v@.take(k - 1));
            let f = fit_suffix(v@.take(k - 1), width - used - w);
            assert(fit_suffix(pre, width - used) == f.push(c));
            assert(f + seq![c].add(out@) =~= f.push(c) + out@);
        }
        out.insert(0, c);
        proof {
            assert(out@ =~= seq![c].add(out@.skip(1)));
        }
        used = used + w;
        k -= 1;
    }
    proof {
        assert(v@.take(0) =~= Seq::<char>::empty());
        assert(Seq::<char>::empty() + out@ =~= out@);
    }
    string_of(out.as_slice())
}

/// Cuts `value` to the start that fits in `width` cells, when it is wider.
pub fn truncate_to_width(value: &mut String, width: usize)
    ensures
        final(value)@ == if str_cells(old(value)@) > width {
            fit_prefix(old(value)@, width as int)
        } else {
            old(value)@
        },
{
    if str_width(value.as_str()) > width {
        let cut = head_cells(value.as_str(), width);
        *value = cut;
    }
}

/// Where wrapping text into lines stands: the finished lines, the line being
/// filled, and the cells it takes.
pub struct WrapState {
    pub lines: Seq<Seq<char>>,
    pub current: Seq<char>,
    pub used: int,
}

/// What one more word does: it goes on the current line (after a space)
/// when it fits, else it starts a new line; a word wider than the whole line
/// is cut to fit.
pub open spec fn wrap_word(st: WrapState, w: Seq<char>, width: int) -> WrapState {
    let ww = str_cells(w) as int;
    let st1 = if st.used > 0 && st.used + 1 + ww > width {
        WrapState { lines: st.lines.push(st.current), current: Seq::empty(), used: 0 }
    } else {
        st
    };
    let st2 = if st1.used > 0 {
        WrapState { current: st1.current.push(' '), used: st1.used + 1, ..st1 }
    } else {
        st1
    };
    if st2.used + ww <= width {
        WrapState { current: st2.current + w, used: st2.used + ww, ..st2 }
    } else {
        let p = fit_prefix(w, width);
        WrapState { current: st2.current + p, used: cells_of(p), ..st2 }
    }
}

/// The state after the first `k` words.
pub open spec fn wrap_words(ws: Seq<Seq<char>>, width: int, k: int) -> WrapState
    decreases k,
{
    if k <= 0 {
        WrapState { lines: Seq::empty(), current: Seq::empty(), used: 0 }
    } else {
        wrap_word(wrap_words(ws, width, k - 1), ws[k - 1], width)
    }
}

/// `value` wrapped into lines of at most `width` cells at its whitespace
/// (at least one line; no wrapping for width 0).
pub open spec fn wrapped(value: Seq<char>, width: int) -> Seq<Seq<char>> {
    if width == 0 {
        seq![value]
    } else {
        let ws = words(value);
        let st = wrap_words(ws, width, ws.len() as int);
        let ls = if st.current.len() > 0 {
            st.lines.push(st.current)
        } else {
            st.lines
        };
        if ls.len() == 0 {
            seq![Seq::empty()]
        } else {
            ls
        }
    }
}

/// Wraps `value` into lines of at most `width` cells.
pub fn wrap_text(value: &str, width: usize) -> (r: Vec<String>)
    ensures
        line_texts(r@) == wrapped(value@, width as int),
{
    if width == 0 {
        let mut r: Vec<String> = Vec::new();
        r.push(value.to_string());
        proof {
            assert(line_texts(r@) =~= seq![value@]);
        }
        return r;
    }
    let v = chars_of(value);
    let ws = words_exec(v.as_slice());
    let ghost wv = words(value@);
    let mut lines: Vec<String> = Vec::new();
    let mut current: Vec<char> = Vec::new();
    let mut used: usize = 0;
    let mut k: usize = 0;
    proof {
        assert(line_texts(lines@) =~= Seq::<Seq<char>>::empty());
    }
    while k < ws.len()
        invariant
            k <= ws@.len(),
            width > 0,
            ws@.len() == wv.len(),
            wv == words(value@),
            forall|j: int| 0 <= j < ws@.len() ==> #[trigger] ws@[j]@ == wv[j],
            used <= width,
            ({
                let st = wrap_words(wv, width as int, k as int);
                &&& st.lines == line_texts(lines@)
                &&& st.current == current@
                &&& st.used == used as int
            }),
        decreases ws.len() - k,
    {
        let w = &ws[k];
        let ws_text = string_of(w.as_slice());
        let ww = str_width(ws_text.as_str());
        let ghost st = wrap_words(wv, width as int, k as int);
        if used > 0 && (used >= width || ww > width - used - 1) {
            let done = string_of(current.as_slice());
            let ghost before = lines@;
            lines.push(done);
            proof {
                assert(line_texts(lines@) =~= line_texts(before).push(current@));
            }
            current = Vec::new();
            used = 0;
        }
        if used > 0 {
            current.push(' ');
            used = used + 1;
        }
        if ww <= width - used {
            let mut j: usize = 0;
            let ghost c0 = current@;
            while j < w.len()
                invariant
                    j <= w@.len(),
                    current@ == c0 + w@.take(j as int),
                decreases w.len() - j,
            {
                current.push(w[j]);
                assert(w@.take(j + 1) == w@.take(j as int).push(w@[j as int]));
                j += 1;
            }
            assert(w@.take(w@.len() as int) == w@);
            used = used + ww;
        } else {
            let (p, n) = fit_from(w, width);
            let ghost c0 = current@;
            let mut j: usize = 0;
            while j < p.len()
                invariant
                    j <= p@.len(),
                    current@ == c0 + p@.take(j as int),
                decreases p.len() - j,
            {
                current.push(p[j]);
                assert(p@.take(j + 1) == p@.take(j as int).push(p@[j as int]));
                j += 1;
            }
            assert(p@.take(p@.len() as int) == p@);
            used = n;
        }
        proof {
            assert(wv[k as int] == w@);
            assert(wrap_words(wv, width as int, k + 1) == wrap_word(st, w@, width as int));
        }
        k += 1;
    }
    if current.len() > 0 {
        let done = string_of(current.as_slice());
        let ghost before = lines@;
        lines.push(done);
        proof {
            assert(line_texts(lines@) =~= line_texts(before).push(current@));
        }
    }
    if lines.len() == 0 {
        lines.push(String::new());
        proof {
            assert(line_texts(lines@) =~= seq![Seq::<char>::empty()]);
        }
    }
    lines
}

// ---------------------------------------------------------------------------
// Markdown in the log

/// How a piece of a log line is drawn.
#[derive(Clone, Copy, Debug, PartialEq, Eq, Structural)]
pub struct SpanStyle {
    pub bold: bool,
    pub italic: bool,
    /// Inline code.
    pub code: bool,
    /// A heading.
    pub heading: bool,
    /// A list bullet.
    pub bullet: bool,
}

/// A piece of a log line and how it is drawn.
#[derive(Clone, Debug)]
pub struct StyledSpan {
    pub text: String,
    pub style: SpanStyle,
}

/// The mathematical content of a styled piece.
pub struct SpanView {
    pub text: Seq<char>,
    pub style: SpanStyle,
}

impl StyledSpan {
    pub open spec fn view(&self) -> SpanView {
        SpanView { text: self.text@, style: self.style }
    }
}

/// The views of styled pieces.
pub open spec fn span_views(v: Seq<StyledSpan>) -> Seq<SpanView> {
    v.map_values(|s: StyledSpan| s@)
}

/// Plain text, bold and italic as given.
pub open spec fn text_style(bold: bool, italic: bool) -> SpanStyle {
    SpanStyle { bold, italic, code: false, heading: false, bullet: false }
}

/// The style of inline code.
pub open spec fn code_style() -> SpanStyle {
    SpanStyle { bold: false, italic: false, code: true, heading: false, bullet: false }
}

/// The first position, at or after `i`, of a backtick or an asterisk.
pub open spec fn special_from(s: Seq<char>, i: int) -> Option<int>
    decreases s.len() - i,
{
    if i < 0 || i >= s.len() {
        None
    } else if s[i] == '`' || s[i] == '*' {
        Some(i)
    } else {
        special_from(s, i + 1)
    }
}

proof fn lemma_special_from(s: Seq<char>, i: int)
    requires
        0 <= i,
    ensures
        special_from(s, i) matches Some(n) ==> i <= n < s.len(),
    decreases s.len() - i,
{
    if i < s.len() && !(s[i] == '`' || s[i] == '*') {
        lemma_special_from(s, i + 1);
    }
}

/// The styled pieces of inline markdown: backticks enclose code, `**`
/// toggles bold, `*` toggles italic; a backtick without a closing one is
/// plain text.
pub open spec fn inline_spans(rest: Seq<char>, bold: bool, italic: bool) -> Seq<SpanView>
    decreases rest.len(),
{
    if rest.len() == 0 {
        Seq::empty()
    } else {
        match special_from(rest, 0) {
            None => seq![SpanView { text: rest, style: text_style(bold, italic) }],
            Some(n) => if n > 0 && n <= rest.len() {
                seq![SpanView { text: rest.take(n), style: text_style(bold, italic) }]
                    + inline_spans(rest.skip(n), bold, italic)
            } else if rest[0] == '`' && find(rest.skip(1), seq!['`']) is Some {
                let m = find(rest.skip(1), seq!['`'])->0;
                if 0 <= m < rest.len() - 1 {
                    seq![SpanView { text: rest.skip(1).take(m), style: code_style() }] + inline_spans(
                        rest.skip(m + 2),
                        bold,
                        italic,
                    )
                } else {
                    Seq::empty()
                }
            } else if rest.len() >= 2 && rest[0] == '*' && rest[1] == '*' {
                inline_spans(rest.skip(2), !bold, italic)
            } else if rest[0] == '*' {
                inline_spans(rest.skip(1), bold, !italic)
            } else {
                seq![SpanView { text: rest.take(1), style: text_style(bold, italic) }] + inline_spans(
                    rest.skip(1),
                    bold,
                    italic,
                )
            },
        }
    }
}

/// Appends a styled piece.
fn push_span(out: &mut Vec<StyledSpan>, text: Vec<char>, style: SpanStyle)
    ensures
        span_views(final(out)@) == span_views(old(out)@).push(SpanView { text: text@, style }),
{
    let ghost before = out@;
    out.push(StyledSpan { text: string_of(text.as_slice()), style });
    proof {
        assert(span_views(out@) =~= span_views(before).push(SpanView { text: text@, style }));
    }
}

/// The styled pieces of a line of inline markdown.
pub fn inline_markdown_spans(value: &str) -> (r: Vec<StyledSpan>)
    ensures
        span_views(r@) == inline_spans(value@, false, false),
{
    let v = chars_of(value);
    inline_spans_of(&v)
}

/// `inline_markdown_spans` over characters.
fn inline_spans_of(v: &Vec<char>) -> (r: Vec<StyledSpan>)
    ensures
        span_views(r@) == inline_spans(v@, false, false),
{
    let ghost value = v@;
    let mut out: Vec<StyledSpan> = Vec::new();
    let mut bold = false;
    let mut italic = false;
    let mut pos: usize = 0;
    proof {
        assert(v@.skip(0) =~= v@);
        assert(span_views(out@) + inline_spans(v@.skip(0), false, false) =~= inline_spans(
            value,
            false,
            false,
        ));
    }
    while pos < v.len()
        invariant
            pos <= v@.len(),
            v@ == value,
            span_views(out@) + inline_spans(v@.skip(pos as int), bold, italic) == inline_spans(
                value,
                false,
                false,
            ),
        decreases v.len() - pos,
    {
        let ghost rest = v@.skip(pos as int);
        let mut n = pos;
        while n < v.len() && v[n] != '`' && v[n] != '*'
            invariant
                pos <= n <= v@.len(),
                rest == v@.skip(pos as int),
                special_from(rest, 0) == special_from(rest, n - pos),
            decreases v.len() - n,
        {
            n += 1;
        }
        proof {
            lemma_special_from(rest, 0);
        }
        if n == v.len() {
            push_span(&mut out, slice_range(v.as_slice(), pos, v.len()), SpanStyle { bold, italic, code: false, heading: false, bullet: false });
            proof {
                assert(v@.subrange(pos as int, v@.len() as int) == rest);
                assert(span_views(out@) + inline_spans(v@.skip(v@.len() as int), bold, italic) =~= span_views(out@));
            }
            pos = v.len();
        } else if n > pos {
            push_span(&mut out, slice_range(v.as_slice(), pos, n), SpanStyle { bold, italic, code: false, heading: false, bullet: false });
            proof {
                assert(v@.subrange(pos as int, n as int) == rest.take(n - pos));
                assert(rest.skip(n - pos) =~= v@.skip(n as int));
            }
            pos = n;
        } else {
            let mut close: usize = pos + 1;
            if v[pos] == '`' {
                while close < v.len() && v[close] != '`'
                    invariant
                        pos + 1 <= close <= v@.len(),
                        forall|k: int| pos + 1 <= k < close ==> v@[k] != '`',
                    decreases v.len() - close,
                {
                    close += 1;
                }
            }
            proof {
                let after = rest.skip(1);
                assert(after =~= v@.skip(pos + 1));
                crate::text::lemma_find_from_facts(after, seq!['`'], 0);
                if v@[pos as int] == '`' {
                    if close < v@.len() {
                        assert(crate::text::occurs_at(after, seq!['`'], close - pos - 1)) by {
                            assert(after.subrange(close - pos - 1, close - pos) =~= seq!['`']);
                        }
                        match find(after, seq!['`']) {
                            Some(m) => {
                                if m < close - pos - 1 {
                                    assert(after.subrange(m, m + 1) == seq!['`']);
                                assert(after.subrange(m, m + 1)[0] == after[m]);
                                    assert(after[m] == '`');
                                    assert(v@[pos + 1 + m] == '`');
                                }
                            },
                            None => {},
                        }
                    } else {
                        match find(after, seq!['`']) {
                            Some(m) => {
                                assert(after.subrange(m, m + 1) == seq!['`']);
                                assert(after.subrange(m, m + 1)[0] == after[m]);
                                assert(after[m] == '`');
                                assert(v@[pos + 1 + m] == '`');
                            },
                            None => {},
                        }
                    }
                }
            }
            if v[pos] == '`' && close < v.len() {
                push_span(&mut out, slice_range(v.as_slice(), pos + 1, close), SpanStyle { bold: false, italic: false, code: true, heading: false, bullet: false });
                proof {
                    assert(v@.subrange(pos + 1, close as int) == rest.skip(1).take(close - pos - 1));
                    assert(rest.skip(close - pos + 1) =~= v@.skip(close + 1));
                }
                pos = close + 1;
            } else if pos + 1 < v.len() && v[pos] == '*' && v[pos + 1] == '*' {
                proof {
                    assert(rest.skip(2) =~= v@.skip(pos + 2));
                }
                bold = !bold;
                pos = pos + 2;
            } else if v[pos] == '*' {
                proof {
                    assert(rest.skip(1) =~= v@.skip(pos + 1));
                }
                italic = !italic;
                pos = pos + 1;
            } else {
                push_span(&mut out, slice_range(v.as_slice(), pos, pos + 1), SpanStyle { bold, italic, code: false, heading: false, bullet: false });
                proof {
                    assert(v@.subrange(pos as int, pos + 1) == rest.take(1));
                    assert(rest.skip(1) =~= v@.skip(pos + 1));
                }
                pos = pos + 1;
            }
        }
    }
    proof {
        assert(v@.skip(pos as int) =~= Seq::<char>::empty());
        assert(span_views(out@) + Seq::<SpanView>::empty() =~= span_views(out@));
    }
    out
}

/// The style of a heading.
pub open spec fn heading_style() -> SpanStyle {
    SpanStyle { bold: true, italic: false, code: false, heading: true, bullet: false }
}

/// The style of a list bullet.
pub open spec fn bullet_style() -> SpanStyle {
    SpanStyle { bold: false, italic: false, code: false, heading: false, bullet: true }
}

/// `n` spaces.
pub open spec fn spaces(n: nat) -> Seq<char> {
    Seq::new(n, |i: int| ' ')
}

/// Whether a line, once its indentation is trimmed, is a heading.
pub open spec fn is_heading(t: Seq<char>) -> bool {
    starts_with(t, seq!['#', '#', '#', ' ']) || starts_with(t, seq!['#', '#', ' ']) || starts_with(
        t,
        seq!['#', ' '],
    )
}

/// Whether a line, once its indentation is trimmed, is a list item.
pub open spec fn is_bullet(t: Seq<char>) -> bool {
    starts_with(t, seq!['-', ' ']) || starts_with(t, seq!['*', ' '])
}

/// The styled pieces of a line of the assistant's markdown: a heading is
/// drawn without its hashes; a list item keeps its indentation (one space per
/// byte) and gets a bullet; anything else is inline markdown.
pub open spec fn markdown_line(value: Seq<char>) -> Seq<SpanView> {
    let t = trim_start(value);
    if is_heading(t) {
        seq![SpanView { text: trim_start(trim_start_char(t, '#')), style: heading_style() }]
    } else if is_bullet(t) {
        seq![
            SpanView {
                text: spaces(utf8_len(value.take(ws_prefix_len(value) as int))),
                style: text_style(false, false),
            },
            SpanView { text: seq!['•', ' '], style: bullet_style() },
        ] + inline_spans(t.skip(2), false, false)
    } else {
        inline_spans(value, false, false)
    }
}

/// Whether `p` starts `v[lo..]`.
fn prefix_at(v: &[char], lo: usize, p: &[char]) -> (r: bool)
    requires
        lo <= v@.len(),
    ensures
        r == starts_with(v@.skip(lo as int), p@),
{
    let r = matches_at(v, p, lo);
    proof {
        let t = v@.skip(lo as int);
        if r {
            assert(t.subrange(0, p@.len() as int) =~= v@.subrange(lo as int, lo + p@.len()));
        } else if p@.len() <= t.len() {
            assert(t.subrange(0, p@.len() as int) =~= v@.subrange(lo as int, lo + p@.len()));
        }
    }
    r
}

/// `n` spaces.
fn spaces_exec(n: usize) -> (r: Vec<char>)
    ensures
        r@ == spaces(n as nat),
{
    let mut r: Vec<char> = Vec::new();
    let mut i: usize = 0;
    while i < n
        invariant
            i <= n,
            r@ =~= spaces(i as nat),
        decreases n - i,
    {
        r.push(' ');
        i += 1;
    }
    r
}

/// The styled pieces of a line of the assistant's markdown.
pub fn markdown_spans(value: &str) -> (r: Vec<StyledSpan>)
    ensures
        span_views(r@) == markdown_line(value@),
{
    let v = chars_of(value);
    let n = v.len();
    let ws = skip_ws_forward(v.as_slice(), 0, n);
    proof {
        assert(v@.subrange(0, n as int) =~= v@);
    }
    let ghost t = v@.skip(ws as int);
    let h3 = vec!['#', '#', '#', ' '];
    let h2 = vec!['#', '#', ' '];
    let h1 = vec!['#', ' '];
    if prefix_at(v.as_slice(), ws, h3.as_slice()) || prefix_at(v.as_slice(), ws, h2.as_slice())
        || prefix_at(v.as_slice(), ws, h1.as_slice()) {
        let rest = slice_range(v.as_slice(), ws, n);
        let k = lead_run_exec(rest.as_slice(), '#');
        let m = rest.len();
        let j = skip_ws_forward(rest.as_slice(), k, m);
        let mut out: Vec<StyledSpan> = Vec::new();
        push_span(&mut out, slice_range(rest.as_slice(), j, m), SpanStyle { bold: true, italic: false, code: false, heading: true, bullet: false });
        proof {
            assert(rest@ =~= t);
            let u = trim_start_char(t, '#');
            assert(u =~= rest@.subrange(k as int, m as int));
            assert(rest@.subrange(j as int, m as int) =~= u.skip(ws_prefix_len(u) as int));
            assert(span_views(Seq::<StyledSpan>::empty()) =~= Seq::<SpanView>::empty());
            assert(span_views(out@) =~= markdown_line(value@));
        }
        return out;
    }
    let dash = vec!['-', ' '];
    let star = vec!['*', ' '];
    if prefix_at(v.as_slice(), ws, dash.as_slice()) || prefix_at(v.as_slice(), ws, star.as_slice()) {
        let total = value.as_bytes().len();
        proof {
            lemma_utf8_len(v@);
        }
        let indent = utf8_prefix_len(v.as_slice(), ws, total);
        let mut out: Vec<StyledSpan> = Vec::new();
        push_span(&mut out, spaces_exec(indent), SpanStyle { bold: false, italic: false, code: false, heading: false, bullet: false });
        push_span(&mut out, vec!['•', ' '], SpanStyle { bold: false, italic: false, code: false, heading: false, bullet: true });
        let rest = slice_range(v.as_slice(), ws + 2, n);
        let mut tail = inline_spans_of(&rest);
        let ghost head = out@;
        let ghost tl = tail@;
        out.append(&mut tail);
        proof {
            assert(rest@ =~= t.skip(2));
            assert(out@ =~= head + tl);
            assert(span_views(head + tl) =~= span_views(head) + span_views(tl));
            assert(span_views(Seq::<StyledSpan>::empty()) =~= Seq::<SpanView>::empty());
            assert(span_views(out@) =~= markdown_line(value@));
        }
        return out;
    }
    inline_markdown_spans(value)
}

// ---------------------------------------------------------------------------
// Kinds of log lines

/// How a log line is drawn.
#[derive(Clone, Copy, Debug, PartialEq, Eq, Structural)]
pub enum LogLineKind {
    /// A line of the assistant's reply, drawn as markdown on its background.
    Assistant,
    /// A line of the model's reasoning, drawn dimmed.
    Reasoning,
    /// A line the user typed, drawn on its background.
    User,
    /// Anything else, drawn as it is.
    Plain,
}

/// A log line, split into its kind and the text to draw.
#[derive(Clone, Debug)]
pub struct LogLine {
    pub kind: LogLineKind,
    pub text: String,
}

/// The kind of a log line and the text drawn for it: the marker in front
/// is dropped, and a bare marker draws as one space.
pub open spec fn log_line_of(v: Seq<char>) -> (LogLineKind, Seq<char>) {
    if starts_with(v, "ogent: "@) {
        (LogLineKind::Assistant, v.skip(7))
    } else if v == "ogent:"@ {
        (LogLineKind::Assistant, seq![' '])
    } else if starts_with(v, "reasoning: "@) {
        (LogLineKind::Reasoning, v.skip(11))
    } else if v == "reasoning:"@ {
        (LogLineKind::Reasoning, seq![' '])
    } else if starts_with(v, "[user] "@) {
        (LogLineKind::User, v.skip(7))
    } else {
        (LogLineKind::Plain, v)
    }
}

/// Whether `v` starts with the literal `p`; if so, the rest.
fn strip_literal(v: &Vec<char>, p: &str) -> (r: Option<Vec<char>>)
    ensures
        match r {
            Some(rest) => starts_with(v@, p@) && rest@ == v@.skip(p@.len() as int),
            None => !starts_with(v@, p@),
        },
{
    let q = chars_of(p);
    if has_prefix(v.as_slice(), q.as_slice()) {
        Some(slice_range(v.as_slice(), q.len(), v.len()))
    } else {
        None
    }
}

/// Splits a log line into its kind and the text to draw.
pub fn classify_log_line(value: &str) -> (r: LogLine)
    ensures
        (r.kind, r.text@) == log_line_of(value@),
{
    proof {
        reveal_strlit("ogent: ");
        reveal_strlit("ogent:");
        reveal_strlit("reasoning: ");
        reveal_strlit("reasoning:");
        reveal_strlit("[user] ");
    }
    let v = chars_of(value);
    if let Some(rest) = strip_literal(&v, "ogent: ") {
        return LogLine { kind: LogLineKind::Assistant, text: string_of(rest.as_slice()) };
    }
    if is_lit(&v, "ogent:") {
        return LogLine { kind: LogLineKind::Assistant, text: char_string(' ') };
    }
    if let Some(rest) = strip_literal(&v, "reasoning: ") {
        return LogLine { kind: LogLineKind::Reasoning, text: string_of(rest.as_slice()) };
    }
    if is_lit(&v, "reasoning:") {
        return LogLine { kind: LogLineKind::Reasoning, text: char_string(' ') };
    }
    if let Some(rest) = strip_literal(&v, "[user] ") {
        return LogLine { kind: LogLineKind::User, text: string_of(rest.as_slice()) };
    }
    LogLine { kind: LogLineKind::Plain, text: string_of(v.as_slice()) }
}

// ---------------------------------------------------------------------------
// The selection in a picker list

/// The selection moved up by `amount`, stopping at the first entry.
pub fn selection_up(selected: usize, amount: usize) -> (r: usize)
    ensures
        r == if selected >= amount { selected - amount } else { 0 },
{
    selected.saturating_sub(amount)
}

/// The selection moved down by `amount`, stopping at the last of `len`
/// entries (at 0 when there are none).
pub fn selection_down(selected: usize, amount: usize, len: usize) -> (r: usize)
    ensures
        r == vstd::math::min(
            vstd::math::min(selected + amount, usize::MAX as int),
            if len >= 1 { len - 1 } else { 0 },
        ),
{
    let max_selected = len.saturating_sub(1);
    let moved = selected.saturating_add(amount);
    if moved < max_selected {
        moved
    } else {
        max_selected
    }
}

/// The text a picked skill puts into the input.
pub fn skill_completion(name: &str) -> (r: String)
    ensures
        r@ == name@ + " skill"@,
{
    let mut s = String::new();
    s.append(name);
    s.append(" skill");
    s
}

/// Whether a directory is left out of the file picker: build output and
/// dependency directories.
pub fn is_skipped_dir(name: &str) -> (r: bool)
    ensures
        r == (name@ == "target"@ || name@ == "node_modules"@ || name@ == "__pycache__"@ || name@
            == "build"@ || name@ == "dist"@ || name@ == "out"@),
{
    str_eq(name, "target") || str_eq(name, "node_modules") || str_eq(name, "__pycache__")
        || str_eq(name, "build") || str_eq(name, "dist") || str_eq(name, "out")
}

// ---------------------------------------------------------------------------
// Scrolling the log

/// Where the log view is scrolled to, and whether it follows new lines.
#[derive(Clone, Copy, Debug, PartialEq, Eq, Structural)]
pub struct LogScroll {
    pub y: usize,
    pub follow_bottom: bool,
}

/// The last position the log can be scrolled to: its wrapped lines less the
/// lines shown at once, at least 0.
pub open spec fn max_scroll(total: nat, height: nat) -> nat {
    if total >= height {
        (total - height) as nat
    } else {
        0
    }
}

impl LogScroll {
    /// A view at the top that follows new lines.
    pub fn new() -> (s: Self)
        ensures
            s.y == 0,
            s.follow_bottom,
    {
        LogScroll { y: 0, follow_bottom: true }
    }

    /// Scrolls up by `n` lines (an arrow key 1, a page the log's height, the
    /// wheel 3), stopping at the top, and stops following new lines.
    pub fn up(&mut self, n: usize)
        ensures
            final(self).y == if old(self).y >= n { old(self).y - n } else { 0 },
            !final(self).follow_bottom,
    {
        self.follow_bottom = false;
        self.y = self.y.saturating_sub(n);
    }

    /// Scrolls down by `n` lines; once at or past the last position `max`,
    /// the view follows new lines again.
    pub fn down(&mut self, n: usize, max: usize)
        ensures
            final(self).y == vstd::math::min(old(self).y + n, usize::MAX as int),
            final(self).follow_bottom == (old(self).follow_bottom || final(self).y >= max),
    {
        self.y = self.y.saturating_add(n);
        if self.y >= max {
            self.follow_bottom = true;
        }
    }

    /// Follows new lines again (after a message is sent).
    pub fn follow(&mut self)
        ensures
            final(self).y == old(self).y,
            final(self).follow_bottom,
    {
        self.follow_bottom = true;
    }

    /// The position the log is drawn at, for `total` wrapped lines shown
    /// `height` at a time: the last one when following, else the current one
    /// kept within reach. It becomes the current position.
    pub fn settle(&mut self, total: usize, height: usize) -> (y: usize)
        ensures
            y == if old(self).follow_bottom {
                max_scroll(total as nat, height as nat) as int
            } else {
                vstd::math::min(old(self).y as int, max_scroll(total as nat, height as nat) as int)
            },
            final(self).y == y,
            final(self).follow_bottom == old(self).follow_bottom,
    {
        let max = total.saturating_sub(height);
        let y = if self.follow_bottom {
            max
        } else if self.y < max {
            self.y
        } else {
            max
        };
        self.y = y;
        y
    }
}

/// The width of a selector popup: three fifths of the screen's width, kept
/// between 40 and 80 columns.
pub fn popup_width(area_width: u16) -> (r: u16)
    requires
        area_width * 3 <= u16::MAX,
    ensures
        r == vstd::math::min(vstd::math::max(area_width * 3 / 5, 40), 80),
{
    let w = area_width * 3 / 5;
    if w < 40 {
        40
    } else if w > 80 {
        80
    } else {
        w
    }
}

/// The height of the file selector popup: its entries, at most 15, with
/// the query line and the borders.
pub fn file_popup_height(entries: usize) -> (r: u16)
    ensures
        r == vstd::math::min(entries as int, 15) + 3,
{
    if entries < 15 {
        entries as u16 + 3
    } else {
        18
    }
}

/// Where a popup of the given size stands so that it is centred on the
/// screen (at the edge when it does not fit).
pub fn popup_origin(area_width: u16, area_height: u16, width: u16, height: u16) -> (r: (u16, u16))
    ensures
        r.0 == (if area_width >= width { area_width - width } else { 0 }) / 2,
        r.1 == (if area_height >= height { area_height - height } else { 0 }) / 2,
{
    (area_width.saturating_sub(width) / 2, area_height.saturating_sub(height) / 2)
}

// ---------------------------------------------------------------------------
// The file picker

/// Names what `nucleo-matcher` makes of a query over file paths:
/// `Pattern::parse(query, CaseMatching::Ignore, Normalization::Smart)`
/// matched with `match_list` by a `Matcher` configured for paths, the
/// matching paths best first.
pub uninterp spec fn fuzzy_path_matches(query: Seq<char>, paths: Seq<Seq<char>>) -> Seq<Seq<char>>;

/// Ranks `paths` against `query` with `nucleo-matcher` (`Pattern::parse`
/// ignoring case, `Pattern::match_list` with `Config::DEFAULT.match_paths()`).
/// `match_list` keeps the paths that score and sorts them by score, so each
/// one it gives back is one of the paths and there are no more of them.
#[verifier::external_body]
fn fuzzy_match_paths(query: &str, paths: &Vec<String>) -> (r: Vec<String>)
    ensures
        line_texts(r@) == fuzzy_path_matches(query@, line_texts(paths@)),
        r@.len() <= paths@.len(),
        forall|i: int| 0 <= i < r@.len() ==> line_texts(paths@).contains(#[trigger] r@[i]@),
{
    let mut matcher = nucleo_matcher::Matcher::new(nucleo_matcher::Config::DEFAULT.match_paths());
    let pattern = nucleo_matcher::pattern::Pattern::parse(
        query,
        nucleo_matcher::pattern::CaseMatching::Ignore,
        nucleo_matcher::pattern::Normalization::Smart,
    );
    pattern.match_list(paths.iter(), &mut matcher).into_iter().map(|(p, _)| p.clone()).collect()
}

/// The file picker: the workspace's files, the query typed so far, the
/// selected entry, and the files the query matches.
#[derive(Clone, Debug)]
pub struct FileSelector {
    files: Vec<String>,
    query: String,
    selected: usize,
    filtered_cache: Vec<String>,
}

impl FileSelector {
    /// The files the picker offers.
    pub closed spec fn files_view(&self) -> Seq<Seq<char>> {
        line_texts(self.files@)
    }

    /// The query typed so far.
    pub closed spec fn query_view(&self) -> Seq<char> {
        self.query@
    }

    /// The selected entry.
    pub closed spec fn selected_view(&self) -> nat {
        self.selected as nat
    }

    /// The files shown: all of them with no query, else those the query
    /// matches, best first.
    pub open spec fn shown(&self) -> Seq<Seq<char>> {
        if self.query_view().len() == 0 {
            self.files_view()
        } else {
            fuzzy_path_matches(self.query_view(), self.files_view())
        }
    }

    /// The cache holds what the query matches.
    pub closed spec fn wf(&self) -> bool {
        self.query@.len() > 0 ==> line_texts(self.filtered_cache@) == fuzzy_path_matches(
            self.query@,
            line_texts(self.files@),
        )
    }

    /// A picker over `files`, with no query.
    pub fn new(files: Vec<String>) -> (s: Self)
        ensures
            s.wf(),
            s.files_view() == line_texts(files@),
            s.query_view().len() == 0,
            s.selected_view() == 0,
    {
        FileSelector { files, query: String::new(), selected: 0, filtered_cache: Vec::new() }
    }

    /// Matches the files again after the query changed.
    fn recompute(&mut self)
        ensures
            final(self).wf(),
            final(self).files == old(self).files,
            final(self).query == old(self).query,
            final(self).selected == old(self).selected,
    {
        if self.query.as_str().unicode_len() == 0 {
            self.filtered_cache = Vec::new();
        } else {
            self.filtered_cache = fuzzy_match_paths(self.query.as_str(), &self.files);
        }
    }

    /// Types a character into the query, and selects the first match.
    pub fn update_query(&mut self, c: char)
        requires
            old(self).wf(),
        ensures
            final(self).wf(),
            final(self).files_view() == old(self).files_view(),
            final(self).query_view() == old(self).query_view().push(c),
            final(self).selected_view() == 0,
    {
        string_push(&mut self.query, c);
        self.selected = 0;
        self.recompute();
    }

    /// Deletes the query's last character, if any, and selects the first
    /// match.
    pub fn backspace(&mut self)
        requires
            old(self).wf(),
        ensures
            final(self).wf(),
            final(self).files_view() == old(self).files_view(),
            final(self).query_view() == if old(self).query_view().len() > 0 {
                old(self).query_view().drop_last()
            } else {
                old(self).query_view()
            },
            final(self).selected_view() == 0,
    {
        let v = chars_of(self.query.as_str());
        if v.len() > 0 {
            self.query = string_of(slice_range(v.as_slice(), 0, v.len() - 1).as_slice());
            proof {
                assert(v@.subrange(0, v@.len() - 1) =~= v@.drop_last());
            }
        }
        self.selected = 0;
        self.recompute();
    }

    /// The files shown.
    pub fn filtered(&self) -> (r: &Vec<String>)
        requires
            self.wf(),
        ensures
            line_texts(r@) == self.shown(),
    {
        if self.query.as_str().unicode_len() == 0 {
            &self.files
        } else {
            &self.filtered_cache
        }
    }

    /// The selected entry.
    pub fn selected(&self) -> (r: usize)
        ensures
            r == self.selected_view(),
    {
        self.selected
    }

    /// Moves the selection up by `amount`, stopping at the first entry.
    pub fn move_up(&mut self, amount: usize)
        requires
            old(self).wf(),
        ensures
            final(self).wf(),
            final(self).files_view() == old(self).files_view(),
            final(self).query_view() == old(self).query_view(),
            final(self).selected_view() == if old(self).selected_view() >= amount {
                old(self).selected_view() - amount
            } else {
                0
            },
    {
        self.selected = selection_up(self.selected, amount);
    }

    /// Moves the selection down by `amount`, stopping at the last entry
    /// shown.
    pub fn move_down(&mut self, amount: usize)
        requires
            old(self).wf(),
        ensures
            final(self).wf(),
            final(self).files_view() == old(self).files_view(),
            final(self).query_view() == old(self).query_view(),
            final(self).selected_view() == vstd::math::min(
                vstd::math::min(old(self).selected_view() + amount, usize::MAX as int),
                if old(self).shown().len() >= 1 { old(self).shown().len() - 1 } else { 0 },
            ),
    {
        let len = self.filtered().len();
        self.selected = selection_down(self.selected, amount, len);
    }

    /// The text a picked file puts into the input: the selected file shown,
    /// if there is one.
    pub fn completion(&self) -> (r: Option<String>)
        requires
            self.wf(),
        ensures
            match r {
                Some(f) => self.selected_view() < self.shown().len() && f@ == self.shown()[
                    self.selected_view() as int],
                None => self.selected_view() >= self.shown().len(),
            },
    {
        let shown = self.filtered();
        if self.selected < shown.len() {
            Some(shown[self.selected].clone())
        } else {
            None
        }
    }
}

} // verus!
