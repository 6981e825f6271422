use ogent::agent::{
    truncate_for_cli, first_line, StderrLineState, CliOutputSink, CliOutput, record_reply,
    record_tool_result, ReplyNotice,
};
use ogent::sse::StreamEvent;
use ogent::types::{ChatResponse, Message, MessageOrigin, Role, ToolCall, Usage};

#[test]
fn truncate_for_cli_keeps_short_text() {
    assert_eq!(truncate_for_cli("hello   world", 20), "hello world");
}

#[test]
fn stderr_state_separates_visible_stderr_before_stdout() {
    let mut state = StderrLineState::default();
    let mut rendered = String::new();

    rendered.push_str(&state.write_text("director][thinking", "thinking content"));
    rendered.push_str(&state.write_stdout_separator());

    assert_eq!(rendered, "[director][thinking] thinking content\n\n");
}

#[test]
fn stderr_state_keeps_exact_blank_line_when_stderr_already_ended_line() {
    let mut state = StderrLineState::default();
    let mut rendered = String::new();

    rendered.push_str(&state.write_text("director][thinking", "thinking content\n"));
    rendered.push_str(&state.write_stdout_separator());

    assert_eq!(rendered, "[director][thinking] thinking content\n\n");
}

#[test]
fn truncate_for_cli_cuts_long_text_with_ellipsis() {
    assert_eq!(truncate_for_cli("abcdef  ghij", 5), "abcde...");
    // A multi-byte character is never split.
    assert_eq!(truncate_for_cli("aé", 2), "a...");
    assert_eq!(truncate_for_cli("", 3), "");
}

#[test]
fn first_line_of_text() {
    assert_eq!(first_line("one\r\ntwo"), "one");
    assert_eq!(first_line(""), "");
    assert_eq!(first_line("\nsecond"), "");
}

#[test]
fn stderr_state_tags_each_line_and_switches_actors() {
    let mut state = StderrLineState::default();
    let mut out = state.write_text("a", "x\ny");
    out.push_str(&state.write_text("b", "z"));
    assert_eq!(out, "[a] x\n[a] y\n[b] z");
    // Nothing owed, nothing written.
    let mut fresh = StderrLineState::default();
    assert_eq!(fresh.write_stdout_separator(), "");
    let mut ended = StderrLineState::default();
    let mut s = ended.write_text("a", "done\n");
    s.push_str(&ended.write_stdout_separator());
    assert_eq!(s, "[a] done\n\n");
}

fn stderr_texts(v: &[CliOutput]) -> Vec<String> {
    v.iter()
        .map(|o| match o {
            CliOutput::Stderr { actor, text } => format!("{actor}|{text}"),
            CliOutput::Stdout(t) => format!("stdout|{t}"),
        })
        .collect()
}

#[test]
fn cli_sink_shows_agent_tool_reason_and_code() {
    let sink = CliOutputSink;
    let call = ToolCall::function(
        "1".to_string(),
        "exec".to_string(),
        r#"{"reason":"list files","code":"return 1"}"#.to_string(),
    );
    let out = stderr_texts(&sink.tool_call("director", true, &call));
    assert_eq!(out, vec!["director|[exec] list files\n", "director|-- Code:\nreturn 1\n"]);
    let quiet = stderr_texts(&sink.tool_call("director", false, &call));
    assert_eq!(quiet, vec!["director|[exec] list files\n"]);
    let other = ToolCall::function("2".to_string(), "shell".to_string(), "a   b".to_string());
    assert_eq!(stderr_texts(&sink.tool_call("d", true, &other)), vec!["d|[tool] shell a b\n"]);
    assert!(sink.tool_call("d", false, &other).is_empty());
}

#[test]
fn cli_sink_shows_results_and_messages() {
    let sink = CliOutputSink;
    let out = stderr_texts(&sink.tool_result("d", true, "exec", "1\n2\n3\n4\n5\n6", false));
    assert_eq!(out, vec!["d|--- Tool Execution Result ---\n1\n2\n3\n4\n5\n", "d|... (truncated)\n"]);
    let failed = stderr_texts(&sink.tool_result("d", false, "exec", "boom", true));
    assert_eq!(failed, vec!["d|--- Tool Execution Failed ---\nboom\n"]);
    let other = stderr_texts(&sink.tool_result("d", true, "read_file", "héllo", false));
    assert_eq!(other, vec!["d|[tool:ok] read_file (6 bytes)\n"]);
    let err = stderr_texts(&sink.tool_result("d", false, "read_file", "bad\nmore", true));
    assert_eq!(err, vec!["d|[tool:error] read_file: bad\n"]);
    let msg = Message::assistant(ChatResponse {
        content: "answer".to_string(),
        reasoning_content: String::new(),
        tool_calls: Vec::new(),
        usage: Usage { total_tokens: 0 },
    });
    assert_eq!(stderr_texts(&sink.message(&msg)), vec!["stdout|answer\n"]);
    let blank = Message::user("   ".to_string(), MessageOrigin::Human);
    assert!(sink.message(&blank).is_empty());
    let ev = sink.stream_event("d", true, &StreamEvent::Reasoning("hm".to_string()));
    assert_eq!(stderr_texts(&ev), vec!["d][thinking|hm"]);
    assert!(sink.stream_event("d", false, &StreamEvent::Reasoning("hm".to_string())).is_empty());
    assert_eq!(
        stderr_texts(&sink.task_update("w", "done", "all good")),
        vec!["w|task_update(done): all good\n"]
    );
}

#[test]
fn conversation_records_replies_and_tool_results() {
    let mut messages = vec![Message::user("hi".to_string(), MessageOrigin::Human)];
    let call = ToolCall::function("c1".to_string(), "exec".to_string(), "{}".to_string());
    let resp = ChatResponse {
        content: "working".to_string(),
        reasoning_content: String::new(),
        tool_calls: vec![call.clone()],
        usage: Usage { total_tokens: 3 },
    };
    let (notice, calls) = record_reply(&mut messages, resp, true);
    assert_eq!(notice, ReplyNotice::StreamNewline);
    assert_eq!(calls.len(), 1);
    assert_eq!(messages.len(), 2);
    assert_eq!(messages[1].role, Role::Assistant);
    let (content, failed) = record_tool_result(&mut messages, &call, Err("oops".to_string()));
    assert!(failed);
    assert_eq!(
        content,
        "tool `exec` failed:\noops\n\nUse this tool error as evidence, then adjust the next tool call or report the failure."
    );
    assert_eq!(messages[2].role, Role::Tool);
    assert_eq!(messages[2].tool_call_id, "c1");
    let (notice2, _) = record_reply(&mut messages, ChatResponse::default(), true);
    assert_eq!(notice2, ReplyNotice::Message);
}
