use ogent::sse::{
    decode_sse_line, SseLine, SseError, ChatAccumulator, StreamChunk, StreamChoice, StreamDelta,
    DeltaToolCall, DeltaFunctionCall, SseLineBuffer, stream_outcome,
};

fn delta(content: Option<&str>, reasoning: Option<&str>, calls: Vec<DeltaToolCall>) -> StreamChunk {
    StreamChunk {
        choices: vec![StreamChoice {
            delta: StreamDelta {
                content: content.map(|s| s.to_string()),
                reasoning_content: reasoning.map(|s| s.to_string()),
                tool_calls: calls,
            },
        }],
        usage: None,
    }
}

fn call(index: usize, id: &str, kind: &str, name: Option<&str>, args: Option<&str>) -> DeltaToolCall {
    DeltaToolCall {
        index,
        id: id.to_string(),
        kind: kind.to_string(),
        function: DeltaFunctionCall {
            name: name.map(|s| s.to_string()),
            arguments: args.map(|s| s.to_string()),
        },
    }
}

#[test]
fn decode_sse_line_emits_data() {
    let payload = r#"{"choices":[]}"#;
    let line = format!("data: {payload}");
    let SseLine::Data(s) = decode_sse_line(line.as_bytes()).unwrap() else {
        panic!("expected SseLine::Data");
    };
    assert_eq!(s, payload);
}

#[test]
fn decode_sse_line_emits_done() {
    assert!(matches!(decode_sse_line(b"data: [DONE]").unwrap(), SseLine::Done));
    assert!(matches!(decode_sse_line(b"data:[DONE]").unwrap(), SseLine::Done));
}

#[test]
fn decode_sse_line_skips_non_data_lines() {
    assert!(matches!(decode_sse_line(b"").unwrap(), SseLine::Other));
    assert!(matches!(decode_sse_line(b": heartbeat").unwrap(), SseLine::Other));
    assert!(matches!(decode_sse_line(b"event: ping").unwrap(), SseLine::Other));
}

#[test]
fn decode_sse_line_strips_trailing_cr() {
    assert!(matches!(decode_sse_line(b"data: [DONE]\r").unwrap(), SseLine::Done));
}

#[test]
fn decode_sse_line_rejects_invalid_utf8() {
    assert!(matches!(decode_sse_line(b"data: \xff"), Err(SseError::InvalidUtf8)));
}

#[test]
fn accumulator_applies_tool_call_chunks() {
    let mut acc = ChatAccumulator::new();
    acc.apply(delta(None, None, vec![call(0, "x", "function", Some("shell"), Some("{\"command\""))]));
    acc.apply(delta(None, None, vec![call(0, "", "", None, Some(":\"ls\""))]));
    assert_eq!(acc.tool_calls.first().unwrap().arguments, "{\"command\":\"ls\"");
}

#[test]
fn accumulator_accepts_null_content_chunks() {
    let mut acc = ChatAccumulator::new();
    acc.apply(delta(None, Some("thinking"), Vec::new()));
    acc.apply(delta(Some("hello"), None, Vec::new()));
    assert_eq!(acc.response.reasoning_content, "thinking");
    assert_eq!(acc.response.content, "hello");
}

#[test]
fn accumulator_accepts_null_function_fields() {
    let mut acc = ChatAccumulator::new();
    acc.apply(delta(None, None, vec![call(0, "x", "function", Some("read_file"), Some(""))]));
    acc.apply(delta(None, None, vec![call(0, "", "", None, Some("{\"path\": \"README.md"))]));
    acc.apply(delta(None, None, vec![call(0, "", "", None, Some("\"}"))]));
    let resp = acc.finish();
    let tc = resp.tool_calls.first().unwrap();
    assert_eq!(tc.function.name, "read_file");
    assert_eq!(tc.function.arguments, "{\"path\": \"README.md\"}");
}

#[test]
fn accumulator_accepts_null_tool_calls() {
    let mut acc = ChatAccumulator::new();
    acc.apply(delta(Some("hello"), Some("thinking"), Vec::new()));
    assert_eq!(acc.response.reasoning_content, "thinking");
    assert_eq!(acc.response.content, "hello");
    assert!(acc.tool_calls.is_empty());
    assert!(!acc.emitted_tool_calling);
}

#[test]
fn accumulator_accepts_null_function_object() {
    let mut acc = ChatAccumulator::new();
    acc.apply(delta(None, None, vec![call(0, "x", "function", None, None)]));
    let resp = acc.finish();
    let tc = resp.tool_calls.first().unwrap();
    assert_eq!(tc.id, "x");
    assert_eq!(tc.kind, "function");
    assert_eq!(tc.function.name, "");
    assert_eq!(tc.function.arguments, "");
}

#[test]
fn line_buffer_keeps_partial_lines_across_chunks() {
    let mut buf = SseLineBuffer::new();
    let first = buf.push(b"data: {\"a\":\"caf\xc3");
    assert!(first.is_empty());
    let second = buf.push(b"\xa9\"}\n\ndata: [DONE]\n");
    assert_eq!(second.len(), 3);
    let SseLine::Data(s) = decode_sse_line(&second[0]).unwrap() else {
        panic!("expected data");
    };
    assert_eq!(s, "{\"a\":\"café\"}");
    assert!(buf.rest().is_empty());
}

#[test]
fn stream_outcome_requires_done_only_when_asked() {
    assert!(stream_outcome(true, true).is_ok());
    assert!(matches!(stream_outcome(false, true), Err(SseError::TruncatedStream)));
    assert!(stream_outcome(false, false).is_ok());
}

/// A decoded data line as the library's chunk: content, reasoning and tool
/// call pieces of each choice.
fn chunk_of(json: &str) -> Result<StreamChunk, SseError> {
    let v: serde_json::Value = serde_json::from_str(json)
        .map_err(|e| SseError::JsonParse { data: json.to_string(), message: e.to_string() })?;
    let text = |x: &serde_json::Value| x.as_str().map(|s| s.to_string());
    let choices = v["choices"]
        .as_array()
        .map(|cs| {
            cs.iter()
                .map(|c| StreamChoice {
                    delta: StreamDelta {
                        content: text(&c["delta"]["content"]),
                        reasoning_content: text(&c["delta"]["reasoning_content"]),
                        tool_calls: c["delta"]["tool_calls"]
                            .as_array()
                            .map(|ts| {
                                ts.iter()
                                    .map(|t| DeltaToolCall {
                                        index: t["index"].as_u64().unwrap_or(0) as usize,
                                        id: text(&t["id"]).unwrap_or_default(),
                                        kind: text(&t["type"]).unwrap_or_default(),
                                        function: DeltaFunctionCall {
                                            name: text(&t["function"]["name"]),
                                            arguments: text(&t["function"]["arguments"]),
                                        },
                                    })
                                    .collect()
                            })
                            .unwrap_or_default(),
                    },
                })
                .collect()
        })
        .unwrap_or_default();
    Ok(StreamChunk { choices, usage: None })
}

/// Reads a streamed reply arriving in the given pieces.
fn parse_stream(pieces: Vec<Vec<u8>>, require_done: bool) -> Result<ogent::types::ChatResponse, SseError> {
    let mut buf = SseLineBuffer::new();
    let mut acc = ChatAccumulator::new();
    let mut done = false;
    'stream: for piece in pieces {
        for line in buf.push(&piece) {
            match decode_sse_line(&line)? {
                SseLine::Done => {
                    done = true;
                    break 'stream;
                }
                SseLine::Data(json) => {
                    acc.apply(chunk_of(&json)?);
                }
                SseLine::Other => {}
            }
        }
    }
    if !done && !buf.rest().is_empty() {
        match decode_sse_line(&buf.rest().clone())? {
            SseLine::Done => done = true,
            SseLine::Data(json) => {
                acc.apply(chunk_of(&json)?);
            }
            SseLine::Other => {}
        }
    }
    stream_outcome(done, require_done)?;
    Ok(acc.finish())
}

#[test]
fn parse_sse_response_ok_with_done() {
    let body = b"data: {\"choices\":[{\"delta\":{\"content\":\"hi\"}}]}\n\ndata: [DONE]\n\n".to_vec();
    let result = parse_stream(vec![body], true);
    assert!(result.is_ok(), "unexpected error: {result:?}");
    assert_eq!(result.unwrap().content, "hi");
}

#[test]
fn parse_sse_response_truncated_stream_without_done() {
    let body = b"data: {\"choices\":[{\"delta\":{\"content\":\"hi\"}}]}\n\n".to_vec();
    let result = parse_stream(vec![body], true);
    assert!(matches!(result, Err(SseError::TruncatedStream)), "expected TruncatedStream, got {result:?}");
}

#[test]
fn parse_sse_response_ok_without_done_when_not_required() {
    let body = b"data: {\"choices\":[{\"delta\":{\"content\":\"hi\"}}]}\n\n".to_vec();
    let result = parse_stream(vec![body], false);
    assert!(result.is_ok(), "unexpected error: {result:?}");
    assert_eq!(result.unwrap().content, "hi");
}

#[test]
fn parse_sse_response_json_parse_error_on_invalid_data() {
    let body = b"data: not-valid-json\n\ndata: [DONE]\n\n".to_vec();
    let result = parse_stream(vec![body], true);
    assert!(matches!(result, Err(SseError::JsonParse { .. })), "expected JsonParse, got {result:?}");
}

#[test]
fn parse_sse_byte_stream_multibyte_utf8_split_across_chunks() {
    let prefix = b"data: {\"choices\":[{\"delta\":{\"content\":\"caf".to_vec();
    let first_byte_of_e = b"\xc3".to_vec();
    let suffix = b"\xa9\"}}]}\n\ndata: [DONE]\n\n".to_vec();
    let result = parse_stream(vec![prefix, first_byte_of_e, suffix], true);
    assert!(result.is_ok(), "unexpected error: {result:?}");
    assert_eq!(result.unwrap().content, "café");
}
