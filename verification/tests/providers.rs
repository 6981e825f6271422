use ogent::providers::{request_extras, Backend};

#[test]
fn request_extras_follow_the_backend() {
    let d = request_extras(Backend::DeepSeek, "max", true);
    assert_eq!(d.thinking, Some(None));
    assert_eq!(d.reasoning_effort, Some("max".to_string()));
    assert_eq!(d.tool_choice, None);
    let k = request_extras(Backend::Kimi, "", true);
    assert_eq!(k.tool_choice, Some("auto"));
    assert_eq!(k.enable_thinking, Some(true));
    assert_eq!(request_extras(Backend::Kimi, "", false).tool_choice, None);
    let z = request_extras(Backend::Z, "", false);
    assert_eq!(z.thinking, Some(Some(false)));
    assert_eq!(z.reasoning_effort, None);
    let m = request_extras(Backend::MiniMax, "", false);
    assert_eq!(m.reasoning_split, Some(true));
    let x = request_extras(Backend::Xaomi, "", true);
    assert!(x.tool_choice.is_none() && x.thinking.is_none() && x.reasoning_split.is_none());
}
