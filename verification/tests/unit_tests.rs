use econ_bridge::autolog::caps_handler;
use econ_bridge::bridge::{bridge_line_json, handler_commands};
use econ_bridge::config::{
    connect_retry_decision, default_auth_message, default_format, default_paths_queue,
    default_ping_interval, ConnectOutcome, ConnectStep, ReconnectConfig,
};
use econ_bridge::envelope::{MsgBridge, MsgError, MsgHandler};
use econ_bridge::errors::ConfigError;
use econ_bridge::json::{from_json_str, to_json_pretty};
use econ_bridge::rcon::process_rcon;
use econ_bridge::rx::Pattern;
use econ_bridge::tasks::{default_tasks_delay_sec, LineState, Task, TaskType};
use econ_bridge::textops::{
    captures_to_list, format_mention, format_text, generate_text, normalize_truncate_in_place,
    TextEnv,
};
use econ_bridge::rx::format_regex;
use econ_bridge::value::{Args, Value};
use econ_bridge::writer::{msg_format, writer_args, writer_texts, ChatContent};
use econ_bridge::emoji::{replace_from_emoji, replace_to_emoji, EmojiCollection};

fn mapping(entries: Vec<(&str, Value)>) -> Value {
    Value::Mapping(entries.into_iter().map(|(k, v)| (k.to_string(), v)).collect())
}

#[test]
fn merge_overwrites_top_level_keys_only() {
    let original = mapping(vec![
        ("a", Value::Int(1)),
        ("nested", mapping(vec![("x", Value::Int(1)), ("y", Value::Int(2))])),
    ]);
    let new = mapping(vec![
        ("nested", mapping(vec![("x", Value::Int(9))])),
        ("b", Value::Int(2)),
    ]);
    let merged = Args::merge_yaml_values(&original, &new);

    assert_eq!(Args::get_i64(&merged, "a", -1), 1);
    assert_eq!(Args::get_i64(&merged, "b", -1), 2);
    // the nested mapping is replaced whole, not merged recursively
    match merged.get_key("nested").unwrap() {
        Value::Mapping(es) => {
            assert_eq!(es.len(), 1);
            assert_eq!(es[0].0, "x".to_string());
        },
        _ => panic!("nested value lost its shape"),
    }
}

#[test]
fn merge_mapping_wins_over_null() {
    let new = mapping(vec![("k", Value::Int(3))]);
    let merged = Args::merge_yaml_values(&Value::Null, &new);
    assert_eq!(Args::get_i64(&merged, "k", -1), 3);

    let kept = Args::merge_yaml_values(&Value::Int(7), &new);
    assert_eq!(Args::get_i64(&kept, "k", -1), -1);
}

#[test]
fn numeric_coercion_chain() {
    let args = mapping(vec![
        ("s", Value::Text("42".to_string())),
        ("n", Value::Int(7)),
        ("b", Value::Bool(true)),
        ("f", Value::Float("3".to_string())),
        ("g", Value::Float("3.5".to_string())),
        ("bad", Value::Text("x42".to_string())),
    ]);
    assert_eq!(Args::get_i64(&args, "s", -1), 42);
    assert_eq!(Args::get_i64(&args, "n", -1), 7);
    assert_eq!(Args::get_i64(&args, "b", -1), -1);
    assert_eq!(Args::get_i64(&args, "f", -1), 3);
    assert_eq!(Args::get_i64(&args, "g", -1), -1);
    assert_eq!(Args::get_i64(&args, "bad", -1), -1);
    assert_eq!(Args::get_i64(&args, "missing", -1), -1);

    assert_eq!(Args::get_string(&args, "n", "".to_string()), "7".to_string());
    assert_eq!(Args::get_string(&args, "b", "".to_string()), "true".to_string());
    assert_eq!(Args::get_bool(&args, "b", false), true);
    assert_eq!(Args::get_bool(&args, "n", true), true);
}

#[test]
fn json_round_trip_keeps_structure() {
    let v = mapping(vec![
        ("text", Value::Text("line \"quoted\"\nnext".to_string())),
        ("count", Value::Int(-12)),
        ("flag", Value::Bool(true)),
        ("items", Value::List(vec![Value::Int(1), Value::Null, Value::Text("x".to_string())])),
    ]);
    let encoded = to_json_pretty(&v);
    let back = from_json_str(encoded.as_str()).unwrap();
    assert_eq!(Args::get_i64(&back, "count", 0), -12);
    assert_eq!(Args::get_bool(&back, "flag", false), true);
    assert_eq!(
        Args::get_string(&back, "text", "".to_string()),
        "line \"quoted\"\nnext".to_string()
    );
    match back.get_key("items").unwrap() {
        Value::List(xs) => assert_eq!(xs.len(), 3),
        _ => panic!("items lost their shape"),
    }
}

#[test]
fn json_rejects_trailing_garbage() {
    assert!(from_json_str("{\"a\": 1} extra").is_none());
    assert!(from_json_str("not json").is_none());
    assert!(from_json_str("{\"a\": 01}").is_none());
}

#[test]
fn bridge_envelope_round_trip() {
    let json = bridge_line_json(
        "hello".to_string(),
        &mapping(vec![("server_name", Value::Text("s1".to_string()))]),
    );
    let back = MsgBridge::from_json(json.as_str()).unwrap();
    assert_eq!(back.text, "hello".to_string());
    assert_eq!(Args::get_string(&back.args, "server_name", "".to_string()), "s1".to_string());

    // a payload without the required fields is refused
    assert!(MsgBridge::from_json("{\"args\": {}}").is_none());
    assert!(MsgBridge::from_json("[1, 2]").is_none());
}

#[test]
fn handler_envelope_defaults_and_rejections() {
    let json = MsgHandler::get_json(
        vec!["a".to_string()],
        "t".to_string(),
        &Value::Null,
    );
    let back = MsgHandler::from_json(json.as_str()).unwrap();
    assert_eq!(back.text, "t".to_string());
    assert_eq!(back.value, vec!["a".to_string()]);

    // text may be absent; value may not
    assert!(MsgHandler::from_json("{\"value\": [\"x\"], \"args\": null}").is_some());
    assert!(MsgHandler::from_json("{\"args\": null}").is_none());
    assert!(MsgHandler::from_json("{\"value\": [1], \"args\": null}").is_none());
}

#[test]
fn error_envelope_and_config_error() {
    let e = MsgError { text: "cmd".to_string(), publish: "tw.errors".to_string() };
    let json = e.json();
    assert!(json.contains("\"publish\""));
    assert!(json.contains("tw.errors"));

    let err = ConfigError::yaml("config.yaml".to_string(), "bad indent".to_string());
    assert_eq!(
        err.message(),
        "Invalid YAML in config file 'config.yaml': bad indent".to_string()
    );
    let err2 = ConfigError::io("config.yaml".to_string(), "missing".to_string());
    assert_eq!(
        err2.message(),
        "Failed to access config file at 'config.yaml': missing".to_string()
    );
}

#[test]
fn handler_commands_split_and_join() {
    let divided = MsgHandler {
        text: "".to_string(),
        value: vec!["say a".to_string(), "say b".to_string()],
        args: mapping(vec![("econ_divide", Value::Bool(true))]),
    };
    assert_eq!(handler_commands(&divided), vec!["say a".to_string(), "say b".to_string()]);

    let joined = MsgHandler {
        text: "".to_string(),
        value: vec!["say".to_string(), "c".to_string()],
        args: Value::Null,
    };
    assert_eq!(handler_commands(&joined), vec!["say c".to_string()]);
}

#[test]
fn defaults_match_the_documented_values() {
    assert_eq!(default_ping_interval(), 15);
    assert_eq!(default_auth_message(), "Authentication successful".to_string());
    assert_eq!(default_paths_queue(), "handler_{{0}}".to_string());
    assert_eq!(default_tasks_delay_sec(), 60);
    let rc = ReconnectConfig::default();
    assert_eq!(rc.max_attempts, 20);
    assert_eq!(rc.sleep, 10);
    let f = default_format();
    assert_eq!(f.text.len(), 2);
    assert_eq!(f.text[0].format, "{{2}}[{{from.username}}] {{0}}".to_string());
    assert!(f.text[0].escape);
    assert_eq!(f.text[1].format, "say \"{{1}}\"".to_string());
    assert_eq!(f.media, "[MEDIA] ".to_string());
    assert_eq!(f.sticker, "[STICKER] ".to_string());
    match Task::default() {
        Task::Delay { commands, delay } => {
            assert_eq!(delay, 5);
            assert_eq!(commands, vec!["".to_string()]);
        },
        _ => panic!("the default task should be a delay task"),
    }
}

#[test]
fn connect_retry_steps() {
    assert_eq!(connect_retry_decision(1, 3, ConnectOutcome::AuthOk), ConnectStep::Done);
    assert_eq!(connect_retry_decision(1, 3, ConnectOutcome::AuthRejected), ConnectStep::Fail);
    assert_eq!(
        connect_retry_decision(1, 3, ConnectOutcome::ConnectFailed),
        ConnectStep::RetryAfterSleep
    );
    assert_eq!(connect_retry_decision(3, 3, ConnectOutcome::AuthErr), ConnectStep::Fail);
}

#[test]
fn text_utilities() {
    let mut t = "one\ntwo\rthree".to_string();
    let cut = normalize_truncate_in_place(&mut t, 7);
    assert_eq!(cut, "one two".to_string());
    assert_eq!(t, "one two".to_string());

    assert_eq!(format_mention("alice@server".to_string()), "alice@-server".to_string());
    assert_eq!(format_mention("@a".to_string()), "@a".to_string());
    assert_eq!(format_mention("".to_string()), "".to_string());

    let caps = vec![Some("all".to_string()), None, Some("x".to_string())];
    assert_eq!(captures_to_list(&caps), vec!["all".to_string(), "x".to_string()]);

    let out = format_text(
        "one two".to_string(),
        vec![("one".to_string(), "1".to_string()), ("two".to_string(), "2".to_string())],
    );
    assert_eq!(out, "1 2".to_string());
}

#[test]
fn generate_text_shapes() {
    let env = TextEnv {
        text: "{{player}} {{text}}".to_string(),
        text_leave: "left the game".to_string(),
        text_join: "joined the game".to_string(),
        text_edit_nickname: "renamed".to_string(),
    };
    let chat_caps = vec![
        Some("full".to_string()),
        Some("alice".to_string()),
        Some("hi".to_string()),
    ];
    let pair = generate_text(&chat_caps, "", &env).unwrap();
    assert_eq!(pair.0, "alice".to_string());
    assert_eq!(pair.1, "hi".to_string());

    let join_caps = vec![Some("full".to_string()), Some("bob".to_string())];
    let pair2 = generate_text(&join_caps, "{{text_join}}", &env).unwrap();
    assert_eq!(pair2.0, "".to_string());
    assert_eq!(pair2.1, "bob joined the game".to_string());
}

#[test]
fn format_regex_rewrites_first_group() {
    let rule = Pattern::compile("name=(\\w+)").unwrap();
    let out = format_regex(
        "name=alice rest".to_string(),
        vec![(rule, "bob".to_string())],
    );
    assert_eq!(out, "name=bob rest".to_string());

    let missing = Pattern::compile("zzz").unwrap();
    let out2 = format_regex("name=alice".to_string(), vec![(missing, "bob".to_string())]);
    assert_eq!(out2, "name=alice".to_string());
}

#[test]
fn rcon_classification() {
    let sync = vec!["ban".to_string()];
    let log = vec!["ban".to_string(), "kick".to_string()];
    let hit = process_rcon("ban 10.0.0.1 60 flood", &sync, &log);
    assert_eq!(hit.text, Some("ban 10.0.0.1 60 flood".to_string()));
    assert!(hit.sync);
    assert!(hit.log);

    let miss = process_rcon("ban somebody", &sync, &log);
    assert_eq!(miss.text, None);
    assert!(!miss.sync && !miss.log);

    let empty = process_rcon("", &sync, &log);
    assert_eq!(empty.text, None);

    // IPv6 second words are addresses too
    let v6 = process_rcon("ban ::1 60", &sync, &log);
    assert_eq!(v6.text, Some("ban ::1 60".to_string()));
    assert!(v6.sync && v6.log);
    let mapped = process_rcon("kick ::ffff:10.0.0.1", &sync, &log);
    assert_eq!(mapped.text, Some("kick ::ffff:10.0.0.1".to_string()));
    assert!(!mapped.sync && mapped.log);
    let full = process_rcon("ban 2001:db8:0:0:0:0:2:1", &sync, &log);
    assert_eq!(full.text, Some("ban 2001:db8:0:0:0:0:2:1".to_string()));
    let broken = process_rcon("ban 1::2::3", &sync, &log);
    assert_eq!(broken.text, None);
}

#[test]
fn log_record_classification() {
    let stamped = vec![
        Some("whole".to_string()),
        Some("2024-01-02 03:04:05".to_string()),
        Some("I".to_string()),
        Some("server".to_string()),
        Some("hello".to_string()),
    ];
    let rec = caps_handler(&stamped);
    assert_eq!(rec.timestamp, Some(1704164645));
    assert_eq!(rec.logging_level, "I".to_string());
    assert_eq!(rec.logging_name, "server".to_string());
    assert_eq!(rec.text, "hello".to_string());

    let plain = vec![
        Some("whole".to_string()),
        Some("chat".to_string()),
        Some("hey".to_string()),
    ];
    let rec2 = caps_handler(&plain);
    assert_eq!(rec2.timestamp, None);
    assert_eq!(rec2.logging_level, "INK".to_string());
    assert_eq!(rec2.logging_name, "chat".to_string());
}

#[test]
fn random_task_draws_one_of_the_commands() {
    let mut task = Task::Cron {
        cron: "* * * * * *".to_string(),
        commands: vec!["a".to_string(), "b".to_string(), "c".to_string()],
        mode: TaskType::Random,
        state: LineState::new(vec![]),
    };
    task.init_state();
    for _ in 0..10 {
        let batch = task.tick_commands();
        assert_eq!(batch.len(), 1);
        assert!(batch[0] == "a" || batch[0] == "b" || batch[0] == "c");
    }
    match &mut task {
        Task::Cron { mode, .. } => *mode = TaskType::All,
        _ => unreachable!(),
    }
    assert_eq!(
        task.tick_commands(),
        vec!["a".to_string(), "b".to_string(), "c".to_string()]
    );
    assert_eq!(
        task.get_all_commands(),
        vec!["a".to_string(), "b".to_string(), "c".to_string()]
    );
}

#[test]
fn writer_formats_a_plain_message() {
    let fr = default_format();
    let args = mapping(vec![(
        "from",
        mapping(vec![("username", Value::Text("alice".to_string()))]),
    )]);
    let out = msg_format(
        ChatContent::Plain { text: "hello \"there\"".to_string() },
        &args,
        &fr,
        false,
    );
    assert_eq!(out, "say \"[alice] hello \\\"there\\\"\"".to_string());
}

#[test]
fn writer_builds_payloads_with_emojis() {
    let fr = default_format();
    let emojis = EmojiCollection::new("\u{1F642},smile");
    let cfg_args = Value::Null;
    let update = mapping(vec![(
        "from",
        mapping(vec![("username", Value::Text("bob".to_string()))]),
    )]);
    let args = writer_args(&update, &cfg_args, "17".to_string(), "lobby".to_string(), 99);
    assert_eq!(Args::get_i64(&args, "chat_id", -1), 99);
    assert_eq!(Args::get_string(&args, "server_name", "".to_string()), "lobby".to_string());
    assert_eq!(Args::get_bool(&args, "econ_divide", false), true);

    let texts = writer_texts(
        None,
        ChatContent::Plain { text: "hi \u{1F642}".to_string() },
        &args,
        &fr,
        &emojis,
    );
    assert_eq!(texts.len(), 1);
    assert_eq!(texts[0], "say \"[bob] hi smile\"".to_string());
}

#[test]
fn emoji_both_directions() {
    let emojis = EmojiCollection::new("\u{1F642},smile\n\u{2764},heart");
    assert_eq!(
        replace_to_emoji(&emojis, "a \u{2764} b".to_string()),
        "a heart b".to_string()
    );
    assert_eq!(replace_from_emoji(&emojis, "a heart b".to_string()), "a \u{2764} b".to_string());
}

#[test]
fn encoder_matches_serde_json_pretty_form() {
    // keys in alphabetical order, so that serde_json's sorted object
    // order coincides with the declared order
    let v = mapping(vec![
        ("n", Value::Int(5)),
        ("text", Value::Text("a\"b\nc".to_string())),
        ("xs", Value::List(vec![Value::Int(1), Value::Int(2)])),
    ]);
    let mine = to_json_pretty(&v);

    let mut obj = serde_json::Map::new();
    obj.insert("n".to_string(), serde_json::Value::from(5));
    obj.insert(
        "text".to_string(),
        serde_json::Value::String("a\"b\nc".to_string()),
    );
    obj.insert("xs".to_string(), serde_json::Value::from(vec![1, 2]));
    let expected = serde_json::to_string_pretty(&serde_json::Value::Object(obj)).unwrap();
    assert_eq!(mine, expected);
}

#[test]
fn parser_reads_serde_json_output() {
    let mut obj = serde_json::Map::new();
    obj.insert("k".to_string(), serde_json::Value::from(-3));
    obj.insert("s".to_string(), serde_json::Value::String("x y".to_string()));
    let compact = serde_json::to_string(&serde_json::Value::Object(obj.clone())).unwrap();
    let pretty = serde_json::to_string_pretty(&serde_json::Value::Object(obj)).unwrap();

    for text in [compact, pretty] {
        let v = from_json_str(&text).unwrap();
        assert_eq!(Args::get_i64(&v, "k", 0), -3);
        assert_eq!(Args::get_string(&v, "s", "".to_string()), "x y".to_string());
    }
}

#[test]
fn template_synthesises_context_fields() {
    // the key named by path_server_name is surfaced as server_name
    let args = mapping(vec![
        ("path_server_name", Value::Text("srv".to_string())),
        ("srv", Value::Text("game1".to_string())),
    ]);
    let out = econ_bridge::template::get_and_format("{{server_name}}", &args, &vec![]);
    assert_eq!(out, "game1".to_string());

    // without a thread id, the synthesised field defaults to -1
    let out2 = econ_bridge::template::get_and_format(
        "{{message_thread_id}}",
        &Value::Null,
        &vec![],
    );
    assert_eq!(out2, "-1".to_string());

    // an unclosed placeholder is copied verbatim
    let out3 = econ_bridge::template::get_and_format("{{open", &Value::Null, &vec![]);
    assert_eq!(out3, "{{open".to_string());
}
