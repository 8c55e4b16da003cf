use econ_bridge::emoji::EmojiCollection;
use econ_bridge::envelope::{MsgBridge, MsgHandler};
use econ_bridge::reader::reader_decision;
use econ_bridge::rx::Pattern;
use econ_bridge::supervisor::Supervisor;
use econ_bridge::tasks::{LineState, Task, TaskType};
use econ_bridge::transform::transform_message;
use econ_bridge::value::Value;

fn mapping(entries: Vec<(&str, Value)>) -> Value {
    Value::Mapping(entries.into_iter().map(|(k, v)| (k.to_string(), v)).collect())
}

#[test]
fn console_to_bus_chat_extraction() {
    let bridge = MsgBridge {
        text: "[chat]: 3:-1:alice: hello world".to_string(),
        args: mapping(vec![("server_name", Value::Text("s".to_string()))]),
    };
    let payload = bridge.json();

    let rule = Pattern::compile("^\\[chat\\]: \\d+:-?\\d+:(.*): (.*)$").unwrap();
    let out = transform_message(
        payload.as_str(),
        &vec![rule],
        &vec!["tw.tg.42".to_string()],
        &Value::Null,
    );

    assert_eq!(out.len(), 1);
    assert_eq!(out[0].0, "tw.tg.42".to_string());
    let handler = MsgHandler::from_json(out[0].1.as_str()).unwrap();
    assert_eq!(handler.text, "[chat]: 3:-1:alice: hello world".to_string());
    assert_eq!(handler.value, vec!["alice".to_string(), "hello world".to_string()]);
}

#[test]
fn bus_to_chat_rendering() {
    let payload = MsgHandler::get_json(
        vec!["alice".to_string(), "hi".to_string()],
        "".to_string(),
        &mapping(vec![("chat_id", Value::Int(77))]),
    );
    let role_args = mapping(vec![("message_text", Value::Text("<{{0}}> {{1}}".to_string()))]);

    let decision = reader_decision(payload.as_str(), &role_args).unwrap();
    assert_eq!(decision.text, "<alice> hi".to_string());
    assert_eq!(decision.chat_id, 77);
    assert_eq!(decision.thread_id, -1);
}

#[test]
fn reconnect_pending_queue_preservation() {
    let mut sup = Supervisor::new(3, vec![]);
    let mut observed: Vec<String> = Vec::new();

    assert!(sup.submit("A".to_string()));
    // the first transmission of "A" fails; the queue must keep it in front
    let dropped = sup.on_send_err();
    assert!(dropped.is_none());
    assert_eq!(sup.head().unwrap(), "A");
    // the second connection attempt succeeds and the head is retried
    sup.on_reconnected();
    observed.push(sup.head().unwrap().clone());
    sup.on_send_ok();
    assert!(sup.submit("B".to_string()));
    observed.push(sup.head().unwrap().clone());
    sup.on_send_ok();
    assert!(sup.submit("C".to_string()));
    observed.push(sup.head().unwrap().clone());
    sup.on_send_ok();

    assert_eq!(observed, vec!["A".to_string(), "B".to_string(), "C".to_string()]);
    assert_eq!(sup.pending_len(), 0);
}

#[test]
fn task_suppression_during_reconnect() {
    let mut sup = Supervisor::new(5, vec!["ping".to_string()]);
    // while connected, even a task command is queued
    assert!(sup.submit("ping".to_string()));
    // the send fails: the supervisor is now reconnecting
    assert!(sup.on_send_err().is_none());
    // the periodic task fires again: its command is dropped
    assert!(!sup.submit("ping".to_string()));
    assert_eq!(sup.pending_len(), 1);
    // a user command is queued even while reconnecting
    assert!(sup.submit("say hello".to_string()));
    assert_eq!(sup.pending_len(), 2);
    // reconnect succeeds and the queue drains in order
    sup.on_reconnected();
    assert_eq!(sup.head().unwrap(), "ping");
    sup.on_send_ok();
    assert_eq!(sup.head().unwrap(), "say hello");
    sup.on_send_ok();
    assert_eq!(sup.pending_len(), 0);
}

#[test]
fn emoji_substitution() {
    let emojis = EmojiCollection::new("\u{1F642},smile\n\u{2764},heart");
    let out = emojis.replace_symbols_with_names("hi \u{1F642}".to_string());
    assert_eq!(out, "hi smile".to_string());
}

#[test]
fn cron_line_mode_round_robin() {
    let commands = vec!["a".to_string(), "b".to_string(), "c".to_string()];
    let mut task = Task::Cron {
        cron: "* * * * * *".to_string(),
        commands,
        mode: TaskType::Line,
        state: LineState::new(vec![]),
    };
    task.init_state();

    let mut emitted: Vec<String> = Vec::new();
    for _ in 0..3 {
        let batch = task.tick_commands();
        assert_eq!(batch.len(), 1);
        emitted.push(batch[0].clone());
    }
    assert_eq!(emitted, vec!["a".to_string(), "b".to_string(), "c".to_string()]);
}

#[test]
fn message_args_override_configured_args() {
    // on a shared key, the envelope's arguments win over the configured ones
    let payload = MsgHandler::get_json(
        vec!["a".to_string()],
        "".to_string(),
        &mapping(vec![
            ("message_text", Value::Text("msg: {{0}}".to_string())),
            ("chat_id", Value::Int(5)),
        ]),
    );
    let role_args = mapping(vec![("message_text", Value::Text("cfg: {{0}}".to_string()))]);
    let decision = reader_decision(payload.as_str(), &role_args).unwrap();
    assert_eq!(decision.text, "msg: a".to_string());

    let bridge = MsgBridge {
        text: "x".to_string(),
        args: mapping(vec![("tag", Value::Text("msg".to_string()))]),
    };
    let rule = Pattern::compile("^x$").unwrap();
    let out = transform_message(
        bridge.json().as_str(),
        &vec![rule],
        &vec!["out.{{tag}}".to_string()],
        &mapping(vec![("tag", Value::Text("cfg".to_string()))]),
    );
    assert_eq!(out.len(), 1);
    assert_eq!(out[0].0, "out.msg".to_string());
}
