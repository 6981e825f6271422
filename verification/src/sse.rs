//! Server-sent events of a streamed chat completion: splitting the byte
//! stream into lines, reading each line, and accumulating the decoded chunks
//! into a reply.
use vstd::prelude::*;
use vstd::utf8::{valid_utf8, decode_utf8};
use crate::text::{
    lemma_split_on_append, chars_of, split_on, split_bytes, lemma_split_on_nonempty, starts_with, trim_start, string_of,
    slice_range, skip_ws_forward, utf8_text, byte_range,
};
use crate::types::{ChatResponse, ToolCall, Usage};

verus! {

broadcast use vstd::string::group_string_axioms;

/// What a streamed reply tells its listener as it arrives.
#[derive(Clone, Debug)]
pub enum StreamEvent {
    Content(String),
    Reasoning(String),
    ToolCalling,
}

/// Why reading a stream failed.
#[derive(Clone, Debug)]
pub enum SseError {
    /// Reading the stream failed.
    Read { message: String },
    /// The stream ended without the `[DONE]` sentinel.
    TruncatedStream,
    /// A line is not UTF-8.
    InvalidUtf8,
    /// A data line is not a JSON chunk.
    JsonParse { data: String, message: String },
}

impl SseError {
    /// Whether the request is worth repeating: the stream broke off.
    pub fn is_retryable(&self) -> (b: bool)
        ensures
            b == (self is Read || self is TruncatedStream),
    {
        match self {
            SseError::Read { .. } => true,
            SseError::TruncatedStream => true,
            _ => false,
        }
    }

    /// The message that describes the error.
    pub fn message(&self) -> (r: String)
        ensures
            r@ == match self {
                SseError::Read { .. } => "sse stream read failed"@,
                SseError::TruncatedStream => "sse stream ended without [DONE] sentinel"@,
                SseError::InvalidUtf8 => "sse line contained invalid UTF-8"@,
                SseError::JsonParse { .. } => "sse chunk is not valid JSON"@,
            },
    {
        match self {
            SseError::Read { .. } => "sse stream read failed".to_string(),
            SseError::TruncatedStream => "sse stream ended without [DONE] sentinel".to_string(),
            SseError::InvalidUtf8 => "sse line contained invalid UTF-8".to_string(),
            SseError::JsonParse { .. } => "sse chunk is not valid JSON".to_string(),
        }
    }
}

/// What one line of the stream says.
#[derive(Clone, Debug)]
pub enum SseLine {
    /// A data line, with its payload.
    Data(String),
    /// The `[DONE]` sentinel.
    Done,
    /// Any other line.
    Other,
}

/// The mathematical content of a line.
pub enum LineKind {
    Data(Seq<char>),
    Done,
    Other,
}

impl SseLine {
    pub open spec fn view(&self) -> LineKind {
        match self {
            SseLine::Data(s) => LineKind::Data(s@),
            SseLine::Done => LineKind::Done,
            SseLine::Other => LineKind::Other,
        }
    }
}

/// A line without one trailing carriage return.
pub open spec fn without_cr(line: Seq<u8>) -> Seq<u8> {
    if line.len() > 0 && line.last() == 13u8 {
        line.drop_last()
    } else {
        line
    }
}

/// What a line of the stream says, or `None` when it is not UTF-8: lines
/// that start with `data:` carry the rest (its leading whitespace dropped),
/// `[DONE]` ending the stream.
pub open spec fn line_kind(line: Seq<u8>) -> Option<LineKind> {
    let b = without_cr(line);
    if !valid_utf8(b) {
        None
    } else {
        let s = decode_utf8(b);
        if !starts_with(s, "data:"@) {
            Some(LineKind::Other)
        } else {
            let d = trim_start(s.skip("data:"@.len() as int));
            if d == "[DONE]"@ {
                Some(LineKind::Done)
            } else {
                Some(LineKind::Data(d))
            }
        }
    }
}

/// Reads one line of the stream (without its newline).
pub fn decode_sse_line(line: &[u8]) -> (r: Result<SseLine, SseError>)
    ensures
        match line_kind(line@) {
            Some(k) => r matches Ok(l) && l@ == k,
            None => r matches Err(e) && e is InvalidUtf8,
        },
{
    let n = if line.len() > 0 && line[line.len() - 1] == 13u8 {
        line.len() - 1
    } else {
        line.len()
    };
    let b = byte_range(line, 0, n);
    proof {
        if line@.len() > 0 && line@.last() == 13u8 {
            assert(b@ =~= line@.drop_last());
        } else {
            assert(b@ =~= line@);
        }
    }
    let s = match utf8_text(b.as_slice()) {
        Some(s) => s,
        None => {
            return Err(SseError::InvalidUtf8);
        },
    };
    let v = chars_of(s.as_str());
    let p = chars_of("data:");
    if !crate::text::has_prefix(&v, &p) {
        return Ok(SseLine::Other);
    }
    let rest = slice_range(&v, p.len(), v.len());
    let a = skip_ws_forward(&rest, 0, rest.len());
    let d = slice_range(&rest, a, rest.len());
    proof {
        assert(rest@.subrange(0, rest@.len() as int) == rest@);
        assert(d@ == trim_start(rest@));
    }
    let done = chars_of("[DONE]");
    if crate::text::seq_eq(d.as_slice(), done.as_slice()) {
        return Ok(SseLine::Done);
    }
    Ok(SseLine::Data(string_of(d.as_slice())))
}

/// The bytes of a stream that do not make a complete line yet.
pub struct SseLineBuffer {
    buf: Vec<u8>,
}

impl SseLineBuffer {
    /// The bytes held.
    pub closed spec fn held(&self) -> Seq<u8> {
        self.buf@
    }

    /// An empty buffer.
    pub fn new() -> (b: Self)
        ensures
            b.held().len() == 0,
    {
        SseLineBuffer { buf: Vec::new() }
    }

    /// Adds the bytes that arrived, and hands out the lines they complete
    /// (without their newlines), keeping the unfinished rest.
    pub fn push(&mut self, bytes: &[u8]) -> (lines: Vec<Vec<u8>>)
        ensures
            ({
                let parts = split_on(old(self).held() + bytes@, 10u8);
                &&& lines@.len() + 1 == parts.len()
                &&& forall|i: int| 0 <= i < lines@.len() ==> #[trigger] lines@[i]@ == parts[i]
                &&& final(self).held() == parts.last()
            }),
    {
        let mut all = Vec::new();
        all.append(&mut self.buf);
        let mut i: usize = 0;
        let ghost start = all@;
        while i < bytes.len()
            invariant
                i <= bytes@.len(),
                all@ == start + bytes@.take(i as int),
            decreases bytes.len() - i,
        {
            all.push(bytes[i]);
            assert(bytes@.take(i + 1) == bytes@.take(i as int).push(bytes@[i as int]));
            i += 1;
        }
        assert(bytes@.take(bytes@.len() as int) == bytes@);
        let mut parts = split_bytes(all.as_slice(), 10u8);
        proof {
            lemma_split_on_nonempty(all@, 10u8);
        }
        let last = parts.pop().unwrap();
        self.buf = last;
        parts
    }

    /// The unfinished rest.
    pub fn rest(&self) -> (r: &Vec<u8>)
        ensures
            r@ == self.held(),
    {
        &self.buf
    }
}

/// Whether a stream that ended, after its last line was read, is complete:
/// it must have carried `[DONE]` when that is required.
pub fn stream_outcome(done: bool, require_done: bool) -> (r: Result<(), SseError>)
    ensures
        r is Ok <==> (done || !require_done),
        r matches Err(e) ==> e is TruncatedStream,
{
    if !done && require_done {
        Err(SseError::TruncatedStream)
    } else {
        Ok(())
    }
}

// ---------------------------------------------------------------------------
// Decoded chunks

/// The function part of a streamed tool call.
#[derive(Clone, Debug)]
pub struct DeltaFunctionCall {
    pub name: Option<String>,
    pub arguments: Option<String>,
}

/// A piece of a tool call, for the call at `index`.
#[derive(Clone, Debug)]
pub struct DeltaToolCall {
    pub index: usize,
    pub id: String,
    pub kind: String,
    pub function: DeltaFunctionCall,
}

/// What one choice of a chunk adds.
#[derive(Clone, Debug)]
pub struct StreamDelta {
    pub content: Option<String>,
    pub reasoning_content: Option<String>,
    pub tool_calls: Vec<DeltaToolCall>,
}

/// One choice of a chunk.
#[derive(Clone, Debug)]
pub struct StreamChoice {
    pub delta: StreamDelta,
}

/// One decoded data line.
#[derive(Clone, Debug)]
pub struct StreamChunk {
    pub choices: Vec<StreamChoice>,
    pub usage: Option<Usage>,
}

/// A tool call being put together from its pieces.
#[derive(Clone, Debug)]
pub struct AccumulatedToolCall {
    pub id: String,
    pub kind: String,
    pub name: String,
    pub arguments: String,
}

/// The mathematical content of a tool call being put together.
pub struct CallView {
    pub id: Seq<char>,
    pub kind: Seq<char>,
    pub name: Seq<char>,
    pub arguments: Seq<char>,
}

impl AccumulatedToolCall {
    pub open spec fn view(&self) -> CallView {
        CallView { id: self.id@, kind: self.kind@, name: self.name@, arguments: self.arguments@ }
    }

    /// A call with nothing in it yet.
    pub fn empty() -> (a: Self)
        ensures
            a@ == empty_call(),
    {
        AccumulatedToolCall {
            id: String::new(),
            kind: String::new(),
            name: String::new(),
            arguments: String::new(),
        }
    }

    /// The finished call (a function call; the kind is not kept).
    pub fn into_tool_call(self) -> (t: ToolCall)
        ensures
            t.id@ == self.id@,
            t.kind@ == "function"@,
            t.function.name@ == self.name@,
            t.function.arguments@ == self.arguments@,
    {
        ToolCall::function(self.id, self.name, self.arguments)
    }
}

/// A call with nothing in it yet.
pub open spec fn empty_call() -> CallView {
    CallView { id: Seq::empty(), kind: Seq::empty(), name: Seq::empty(), arguments: Seq::empty() }
}

/// The calls with a piece of call `tc` added: the list grows to reach its
/// index; a non-empty id, kind or name replaces the one held; arguments are
/// appended.
pub open spec fn add_piece(calls: Seq<CallView>, tc: DeltaToolCall) -> Seq<CallView> {
    let i = tc.index as int;
    let grown = if i >= calls.len() {
        calls + Seq::new((i + 1 - calls.len()) as nat, |k: int| empty_call())
    } else {
        calls
    };
    let a = grown[i];
    grown.update(
        i,
        CallView {
            id: if tc.id@.len() > 0 {
                tc.id@
            } else {
                a.id
            },
            kind: if tc.kind@.len() > 0 {
                tc.kind@
            } else {
                a.kind
            },
            name: match tc.function.name {
                Some(n) => if n@.len() > 0 {
                    n@
                } else {
                    a.name
                },
                None => a.name,
            },
            arguments: match tc.function.arguments {
                Some(x) => a.arguments + x@,
                None => a.arguments,
            },
        },
    )
}

/// The calls with the first `k` pieces added.
pub open spec fn add_pieces(calls: Seq<CallView>, tcs: Seq<DeltaToolCall>, k: int) -> Seq<CallView>
    decreases k,
{
    if k <= 0 {
        calls
    } else {
        add_piece(add_pieces(calls, tcs, k - 1), tcs[k - 1])
    }
}

/// The mathematical content of an event.
pub enum EventView {
    Content(Seq<char>),
    Reasoning(Seq<char>),
    ToolCalling,
}

impl StreamEvent {
    pub open spec fn view(&self) -> EventView {
        match self {
            StreamEvent::Content(s) => EventView::Content(s@),
            StreamEvent::Reasoning(s) => EventView::Reasoning(s@),
            StreamEvent::ToolCalling => EventView::ToolCalling,
        }
    }
}

/// Where the accumulation of a reply stands.
pub struct AccState {
    pub content: Seq<char>,
    pub reasoning: Seq<char>,
    pub usage: Usage,
    pub calls: Seq<CallView>,
    pub emitted_tool_calling: bool,
    pub events: Seq<EventView>,
}

/// What one choice adds: its reasoning and content (each told as an event),
/// the first sign of tool calls (told once), and its pieces of tool calls.
pub open spec fn apply_choice(st: AccState, d: StreamDelta) -> AccState {
    let st1 = match d.reasoning_content {
        Some(r) => AccState {
            reasoning: st.reasoning + r@,
            events: st.events.push(EventView::Reasoning(r@)),
            ..st
        },
        None => st,
    };
    let st2 = match d.content {
        Some(c) => AccState {
            content: st1.content + c@,
            events: st1.events.push(EventView::Content(c@)),
            ..st1
        },
        None => st1,
    };
    let st3 = if d.tool_calls@.len() > 0 && !st2.emitted_tool_calling {
        AccState {
            emitted_tool_calling: true,
            events: st2.events.push(EventView::ToolCalling),
            ..st2
        }
    } else {
        st2
    };
    AccState { calls: add_pieces(st3.calls, d.tool_calls@, d.tool_calls@.len() as int), ..st3 }
}

/// What the first `k` choices add.
pub open spec fn apply_choices(st: AccState, cs: Seq<StreamChoice>, k: int) -> AccState
    decreases k,
{
    if k <= 0 {
        st
    } else {
        apply_choice(apply_choices(st, cs, k - 1), cs[k - 1].delta)
    }
}

/// What a chunk adds: its usage replaces the one held, then its choices
/// add their parts, in order.
pub open spec fn apply_chunk(st: AccState, chunk: StreamChunk) -> AccState {
    let st0 = match chunk.usage {
        Some(u) => AccState { usage: u, ..st },
        None => st,
    };
    apply_choices(st0, chunk.choices@, chunk.choices@.len() as int)
}

/// Whether every piece of every choice of a chunk names an index below the
/// largest `usize`.
pub open spec fn indices_bounded(chunk: StreamChunk) -> bool {
    forall|c: int, k: int|
        0 <= c < chunk.choices@.len() && 0 <= k < chunk.choices@[c].delta.tool_calls@.len() ==> (
        #[trigger] chunk.choices@[c].delta.tool_calls@[k]).index < usize::MAX
}

/// A reply being put together from the chunks of a stream.
pub struct ChatAccumulator {
    pub response: ChatResponse,
    pub tool_calls: Vec<AccumulatedToolCall>,
    pub emitted_tool_calling: bool,
}

/// The views of calls being put together.
pub open spec fn call_views(v: Seq<AccumulatedToolCall>) -> Seq<CallView> {
    v.map_values(|a: AccumulatedToolCall| a@)
}

impl ChatAccumulator {
    /// The state of the accumulation, with the given events told.
    pub open spec fn state(&self, events: Seq<EventView>) -> AccState {
        AccState {
            content: self.response.content@,
            reasoning: self.response.reasoning_content@,
            usage: self.response.usage,
            calls: call_views(self.tool_calls@),
            emitted_tool_calling: self.emitted_tool_calling,
            events,
        }
    }

    /// An accumulation with nothing in it.
    pub fn new() -> (a: Self)
        ensures
            a.response.content@.len() == 0,
            a.response.reasoning_content@.len() == 0,
            a.response.tool_calls@.len() == 0,
            a.response.usage.total_tokens == 0,
            a.tool_calls@.len() == 0,
            !a.emitted_tool_calling,
    {
        ChatAccumulator {
            response: ChatResponse {
                content: String::new(),
                reasoning_content: String::new(),
                tool_calls: Vec::new(),
                usage: Usage { total_tokens: 0 },
            },
            tool_calls: Vec::new(),
            emitted_tool_calling: false,
        }
    }

    /// Adds one piece of a tool call.
    fn add_piece_exec(&mut self, tc: DeltaToolCall)
        requires
            tc.index < usize::MAX,
        ensures
            call_views(final(self).tool_calls@) == add_piece(call_views(old(self).tool_calls@), tc),
            final(self).response == old(self).response,
            final(self).emitted_tool_calling == old(self).emitted_tool_calling,
    {
        let ghost calls = call_views(self.tool_calls@);
        let ghost i = tc.index as int;
        let ghost grown = if i >= calls.len() {
            calls + Seq::new((i + 1 - calls.len()) as nat, |k: int| empty_call())
        } else {
            calls
        };
        while self.tool_calls.len() <= tc.index
            invariant
                tc.index < usize::MAX,
                i == tc.index as int,
                self.response == old(self).response,
                self.emitted_tool_calling == old(self).emitted_tool_calling,
                calls == call_views(old(self).tool_calls@),
                self.tool_calls@.len() <= tc.index + 1 || self.tool_calls@.len() == calls.len(),
                call_views(self.tool_calls@) == if i >= calls.len() {
                    calls + Seq::new((self.tool_calls@.len() - calls.len()) as nat, |k: int| empty_call())
                } else {
                    calls
                },
            decreases tc.index + 1 - self.tool_calls.len(),
        {
            let ghost before = call_views(self.tool_calls@);
            assert(i >= calls.len()) by {
                if i < calls.len() {
                    assert(before.len() == calls.len());
                }
            }
            self.tool_calls.push(AccumulatedToolCall::empty());
            proof {
                assert(call_views(self.tool_calls@) =~= before.push(empty_call()));
                assert(calls + Seq::new((self.tool_calls@.len() - calls.len()) as nat, |k: int| empty_call())
                    =~= (calls + Seq::new((before.len() - calls.len()) as nat, |k: int| empty_call())).push(
                    empty_call(),
                ));
            }
        }
        proof {
            if i >= calls.len() {
                assert(self.tool_calls@.len() == i + 1);
            }
            assert(call_views(self.tool_calls@) == grown);
        }
        let idx = tc.index;
        let DeltaToolCall { index: _, id, kind, function } = tc;
        let mut a = self.tool_calls.remove(idx);
        let ghost old_a = a@;
        assert(old_a == grown[i]);
        if !id.as_str().is_empty() {
            a.id = id;
        }
        if !kind.as_str().is_empty() {
            a.kind = kind;
        }
        match function.name {
            Some(n) => {
                if !n.as_str().is_empty() {
                    a.name = n;
                }
            },
            None => {},
        }
        match function.arguments {
            Some(x) => {
                a.arguments.append(x.as_str());
            },
            None => {},
        }
        let ghost before = self.tool_calls@;
        self.tool_calls.insert(idx, a);
        proof {
            assert(call_views(self.tool_calls@) =~= grown.update(i, a@));
        }
    }

    /// Adds what one choice carries, returning the events it tells.
    fn apply_delta(&mut self, d: StreamDelta, events: &mut Vec<StreamEvent>)
        requires
            forall|k: int| 0 <= k < d.tool_calls@.len() ==> (#[trigger] d.tool_calls@[k]).index < usize::MAX,
        ensures
            final(self).state(final(events)@.map_values(|e: StreamEvent| e@)) == apply_choice(
                old(self).state(old(events)@.map_values(|e: StreamEvent| e@)),
                d,
            ),
            final(self).response.tool_calls == old(self).response.tool_calls,
    {
        let ghost d0 = d;
        let ghost ev0 = events@;
        let StreamDelta { content, reasoning_content, tool_calls } = d;
        match reasoning_content {
            Some(r) => {
                self.response.reasoning_content.append(r.as_str());
                events.push(StreamEvent::Reasoning(r));
            },
            None => {},
        }
        match content {
            Some(c) => {
                self.response.content.append(c.as_str());
                events.push(StreamEvent::Content(c));
            },
            None => {},
        }
        if tool_calls.len() > 0 && !self.emitted_tool_calling {
            self.emitted_tool_calling = true;
            events.push(StreamEvent::ToolCalling);
        }
        proof {
            let st0 = old(self).state(ev0.map_values(|e: StreamEvent| e@));
            let st1 = match d0.reasoning_content {
                Some(r) => AccState {
                    reasoning: st0.reasoning + r@,
                    events: st0.events.push(EventView::Reasoning(r@)),
                    ..st0
                },
                None => st0,
            };
            let st2 = match d0.content {
                Some(c) => AccState {
                    content: st1.content + c@,
                    events: st1.events.push(EventView::Content(c@)),
                    ..st1
                },
                None => st1,
            };
            let st3 = if d0.tool_calls@.len() > 0 && !st2.emitted_tool_calling {
                AccState {
                    emitted_tool_calling: true,
                    events: st2.events.push(EventView::ToolCalling),
                    ..st2
                }
            } else {
                st2
            };
            assert(events@.map_values(|e: StreamEvent| e@) =~= st3.events);
            assert(self.state(events@.map_values(|e: StreamEvent| e@)) == st3);
        }
        let ghost st3 = self.state(events@.map_values(|e: StreamEvent| e@));
        let ghost calls0 = call_views(self.tool_calls@);
        let mut rest = tool_calls;
        let ghost all = rest@;
        let n = rest.len();
        let mut k: usize = 0;
        assert(rest@ =~= all.skip(0));
        while rest.len() > 0
            invariant
                k <= all.len(),
                n == all.len(),
                rest@ == all.skip(k as int),
                forall|j: int| 0 <= j < all.len() ==> (#[trigger] all[j]).index < usize::MAX,
                call_views(self.tool_calls@) == add_pieces(calls0, all, k as int),
                self.state(events@.map_values(|e: StreamEvent| e@)) == (AccState {
                    calls: call_views(self.tool_calls@),
                    ..st3
                }),
                self.response.tool_calls == old(self).response.tool_calls,
            decreases rest.len(),
        {
            let tc = rest.remove(0);
            proof {
                assert(tc == all[k as int]);
                assert(rest@ =~= all.skip(k + 1));
            }
            self.add_piece_exec(tc);
            k += 1;
        }
        proof {
            assert(all == d0.tool_calls@);
        }
    }

    /// Adds what a decoded chunk carries, returning the events to tell.
    pub fn apply(&mut self, chunk: StreamChunk) -> (events: Vec<StreamEvent>)
        requires
            indices_bounded(chunk),
        ensures
            final(self).state(events@.map_values(|e: StreamEvent| e@)) == apply_chunk(
                old(self).state(Seq::empty()),
                chunk,
            ),
            final(self).response.tool_calls == old(self).response.tool_calls,
    {
        let mut events: Vec<StreamEvent> = Vec::new();
        let ghost c0 = chunk;
        let StreamChunk { choices, usage } = chunk;
        match usage {
            Some(u) => {
                self.response.usage = u;
            },
            None => {},
        }
        let ghost st0 = self.state(Seq::empty());
        proof {
            assert(events@.map_values(|e: StreamEvent| e@) =~= Seq::<EventView>::empty());
        }
        let mut rest = choices;
        let ghost all = rest@;
        let n = rest.len();
        let mut k: usize = 0;
        assert(rest@ =~= all.skip(0));
        while rest.len() > 0
            invariant
                k <= all.len(),
                n == all.len(),
                rest@ == all.skip(k as int),
                all == c0.choices@,
                indices_bounded(c0),
                self.state(events@.map_values(|e: StreamEvent| e@)) == apply_choices(st0, all, k as int),
                self.response.tool_calls == old(self).response.tool_calls,
            decreases rest.len(),
        {
            let ch = rest.remove(0);
            proof {
                assert(ch == all[k as int]);
                assert(rest@ =~= all.skip(k + 1));
                assert forall|j: int| 0 <= j < ch.delta.tool_calls@.len() implies (
                #[trigger] ch.delta.tool_calls@[j]).index < usize::MAX by {
                    assert(c0.choices@[k as int].delta.tool_calls@[j] == ch.delta.tool_calls@[j]);
                }
            }
            self.apply_delta(ch.delta, &mut events);
            k += 1;
        }
        events
    }

    /// The finished reply: the calls put together are added to it, in order.
    pub fn finish(self) -> (r: ChatResponse)
        ensures
            r.content == self.response.content,
            r.reasoning_content == self.response.reasoning_content,
            r.usage == self.response.usage,
            r.tool_calls@.len() == self.response.tool_calls@.len() + self.tool_calls@.len(),
            r.tool_calls@.take(self.response.tool_calls@.len() as int) == self.response.tool_calls@,
            forall|i: int|
                0 <= i < self.tool_calls@.len() ==> {
                    let t = #[trigger] r.tool_calls@[self.response.tool_calls@.len() + i];
                    &&& t.id@ == self.tool_calls@[i].id@
                    &&& t.kind@ == "function"@
                    &&& t.function.name@ == self.tool_calls@[i].name@
                    &&& t.function.arguments@ == self.tool_calls@[i].arguments@
                },
    {
        let ChatAccumulator { response, tool_calls, emitted_tool_calling: _ } = self;
        let mut response = response;
        let ghost r0 = response;
        let ghost base = response.tool_calls@;
        let ghost calls = tool_calls@;
        let mut rest = tool_calls;
        let n = rest.len();
        let mut k: usize = 0;
        assert(rest@ =~= calls.skip(0));
        while rest.len() > 0
            invariant
                k <= calls.len(),
                n == calls.len(),
                rest@ == calls.skip(k as int),
                response.tool_calls@.len() == base.len() + k,
                response.tool_calls@.take(base.len() as int) == base,
                response.content == r0.content,
                response.reasoning_content == r0.reasoning_content,
                response.usage == r0.usage,
                forall|i: int|
                    0 <= i < k ==> {
                        let t = #[trigger] response.tool_calls@[base.len() + i];
                        &&& t.id@ == calls[i].id@
                        &&& t.kind@ == "function"@
                        &&& t.function.name@ == calls[i].name@
                        &&& t.function.arguments@ == calls[i].arguments@
                    },
            decreases rest.len(),
        {
            let a = rest.remove(0);
            proof {
                assert(a == calls[k as int]);
                assert(rest@ =~= calls.skip(k + 1));
            }
            let ghost before = response.tool_calls@;
            response.tool_calls.push(a.into_tool_call());
            proof {
                assert(response.tool_calls@.take(base.len() as int) =~= before.take(base.len() as int));
                assert forall|i: int| 0 <= i < k + 1 implies {
                    let t = #[trigger] response.tool_calls@[base.len() + i];
                    &&& t.id@ == calls[i].id@
                    &&& t.kind@ == "function"@
                    &&& t.function.name@ == calls[i].name@
                    &&& t.function.arguments@ == calls[i].arguments@
                } by {
                    if i < k {
                        assert(response.tool_calls@[base.len() + i] == before[base.len() + i]);
                    }
                }
            }
            k += 1;
        }
        response
    }
}

/// The lines a stream is cut into do not depend on how its bytes arrive:
/// adding `a` and then `b` to a buffer holding `held` hands out the same
/// lines, and keeps the same rest, as adding `a` and `b` at once.
pub proof fn lemma_lines_ignore_chunking(held: Seq<u8>, a: Seq<u8>, b: Seq<u8>)
    ensures
        ({
            let first = split_on(held + a, 10u8);
            let second = split_on(first.last() + b, 10u8);
            let whole = split_on(held + a + b, 10u8);
            &&& first.drop_last() + second.drop_last() == whole.drop_last()
            &&& second.last() == whole.last()
        }),
{
    lemma_split_on_append(held + a, b, 10u8);
    lemma_split_on_nonempty(split_on(held + a, 10u8).last() + b, 10u8);
    let first = split_on(held + a, 10u8);
    let second = split_on(first.last() + b, 10u8);
    assert((first.drop_last() + second).drop_last() =~= first.drop_last() + second.drop_last());
}

/// The text a delta carries, empty when it carries none.
pub open spec fn delta_text(t: Option<String>) -> Seq<char> {
    match t {
        Some(x) => x@,
        None => Seq::empty(),
    }
}

/// The content deltas of the first `k` choices, one after another.
pub open spec fn contents_of(cs: Seq<StreamChoice>, k: int) -> Seq<char>
    decreases k,
{
    if k <= 0 {
        Seq::empty()
    } else {
        contents_of(cs, k - 1) + delta_text(cs[k - 1].delta.content)
    }
}

/// The reasoning deltas of the first `k` choices, one after another.
pub open spec fn reasonings_of(cs: Seq<StreamChoice>, k: int) -> Seq<char>
    decreases k,
{
    if k <= 0 {
        Seq::empty()
    } else {
        reasonings_of(cs, k - 1) + delta_text(cs[k - 1].delta.reasoning_content)
    }
}

proof fn lemma_choices_append(st: AccState, cs: Seq<StreamChoice>, k: int)
    requires
        0 <= k <= cs.len(),
    ensures
        apply_choices(st, cs, k).content == st.content + contents_of(cs, k),
        apply_choices(st, cs, k).reasoning == st.reasoning + reasonings_of(cs, k),
    decreases k,
{
    if k == 0 {
        assert(st.content + Seq::<char>::empty() =~= st.content);
        assert(st.reasoning + Seq::<char>::empty() =~= st.reasoning);
    } else {
        lemma_choices_append(st, cs, k - 1);
        let p = apply_choices(st, cs, k - 1);
        let d = cs[k - 1].delta;
        assert(apply_choice(p, d).content == p.content + delta_text(d.content)) by {
            if d.content is None {
                assert(p.content + Seq::<char>::empty() =~= p.content);
            }
        }
        assert(apply_choice(p, d).reasoning == p.reasoning + delta_text(d.reasoning_content)) by {
            if d.reasoning_content is None {
                assert(p.reasoning + Seq::<char>::empty() =~= p.reasoning);
            }
        }
        assert(st.content + contents_of(cs, k - 1) + delta_text(d.content) =~= st.content + (contents_of(
            cs,
            k - 1,
        ) + delta_text(d.content)));
        assert(st.reasoning + reasonings_of(cs, k - 1) + delta_text(d.reasoning_content) =~= st.reasoning + (
        reasonings_of(cs, k - 1) + delta_text(d.reasoning_content)));
    }
}

/// A chunk adds to the reply: the content afterwards is the content held
/// before followed by the content deltas of its choices, in order, and the
/// reasoning likewise; nothing held before is replaced or lost.
pub proof fn lemma_chunk_appends_text(st: AccState, chunk: StreamChunk)
    ensures
        apply_chunk(st, chunk).content == st.content + contents_of(chunk.choices@, chunk.choices@.len() as int),
        apply_chunk(st, chunk).reasoning == st.reasoning + reasonings_of(
            chunk.choices@,
            chunk.choices@.len() as int,
        ),
{
    let st0 = match chunk.usage {
        Some(u) => AccState { usage: u, ..st },
        None => st,
    };
    lemma_choices_append(st0, chunk.choices@, chunk.choices@.len() as int);
}

/// Two chunks in turn add their texts in turn: after a chunk carrying
/// content `a` and then one carrying content `b`, the reply's content is
/// what it held, then `a`, then `b`.
pub proof fn lemma_chunks_concatenate(st: AccState, c1: StreamChunk, c2: StreamChunk)
    ensures
        apply_chunk(apply_chunk(st, c1), c2).content == st.content + contents_of(
            c1.choices@,
            c1.choices@.len() as int,
        ) + contents_of(c2.choices@, c2.choices@.len() as int),
{
    lemma_chunk_appends_text(st, c1);
    lemma_chunk_appends_text(apply_chunk(st, c1), c2);
}

} // verus!
