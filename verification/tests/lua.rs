use ogent::tools::lua::{anchor_edit_target, subagent_call, subagent_reply, task_update_args, LuaArg};
use ogent::types::{ChatResponse, Message, MessageOrigin};

fn reply(t: &str) -> Message {
    Message::assistant(ChatResponse { content: t.to_string(), ..ChatResponse::default() })
}

fn s(t: &str) -> LuaArg {
    LuaArg::Str(t.to_string())
}

#[test]
fn task_update_needs_two_strings() {
    assert_eq!(
        task_update_args(&vec![s("done"), s("all good")]).unwrap(),
        ("done".to_string(), "all good".to_string())
    );
    assert_eq!(
        task_update_args(&vec![LuaArg::Other, s("x")]).unwrap_err(),
        "first argument status must be a string"
    );
    assert_eq!(
        task_update_args(&vec![s("done")]).unwrap_err(),
        "second argument summary must be a string"
    );
}

#[test]
fn subagent_calls_need_a_task_and_room_to_nest() {
    let c = subagent_call(None, Some("look".to_string()), None, 0).unwrap();
    assert_eq!(c.role, "subagent");
    assert_eq!(c.task, "look");
    let c = subagent_call(Some("planner".to_string()), Some("t".to_string()), Some("kimi".to_string()), 2).unwrap();
    assert_eq!(c.role, "planner");
    assert_eq!(c.profile, Some("kimi".to_string()));
    assert_eq!(
        subagent_call(None, None, None, 5).unwrap_err(),
        "missing 'task' parameter in agent call"
    );
    assert_eq!(
        subagent_call(None, Some("t".to_string()), None, 3).unwrap_err(),
        "max subagent depth (3) exceeded"
    );
}

#[test]
fn subagent_answers_with_its_last_reply() {
    let mut ms = vec![
        Message::system("sys".to_string()),
        Message::user("task".to_string(), MessageOrigin::Human),
    ];
    assert_eq!(subagent_reply(&ms), "");
    ms.push(reply("first"));
    ms.push(reply("second"));
    ms.push(Message::user("more".to_string(), MessageOrigin::Human));
    assert_eq!(subagent_reply(&ms), "second");
}

#[test]
fn anchor_edits_take_path_and_ops() {
    assert_eq!(
        anchor_edit_target(&vec![s("a.rs"), LuaArg::Table], None).unwrap(),
        ("a.rs".to_string(), 1)
    );
    assert_eq!(
        anchor_edit_target(&vec![LuaArg::Table], Some("b.rs".to_string())).unwrap(),
        ("b.rs".to_string(), 0)
    );
    assert_eq!(
        anchor_edit_target(&vec![LuaArg::Table], None).unwrap_err(),
        "no path specified and no previous read_hash_anchors call to infer path from"
    );
    assert_eq!(
        anchor_edit_target(&vec![s("a.rs")], None).unwrap_err(),
        "argument ops must be an array of EditOps"
    );
    assert_eq!(
        anchor_edit_target(&vec![LuaArg::Table, LuaArg::Table], None).unwrap_err(),
        "first argument path must be a string"
    );
    assert_eq!(
        anchor_edit_target(&vec![s("a.rs"), s("x")], None).unwrap_err(),
        "second argument ops must be an array of EditOps"
    );
    assert!(anchor_edit_target(&vec![], None).is_err());
}
