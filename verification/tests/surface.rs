//! Requests, errors, configuration, the bearer token, the host and the tools.

use ryu_tuition::api::{
    default_status, generation_count, not_blank, require_decision, require_hit, served_routes,
    session_minutes, SkillQuery, SubjectQuery,
};
use ryu_tuition::auth::{bearer_ok, bearer_token};
use ryu_tuition::config::{
    parse_unsigned, port_setting, token_configured, Config, CONNECT_TIMEOUT_MS, DEFAULT_PORT, EVENT_GOAL_AT_RISK,
    EVENT_MASTERY_DROPPED, EVENT_REVIEW_DUE, MOUNT, OUTBOUND_CALL_TIMEOUT_MS, PLUGIN_ID,
};
use ryu_tuition::draining::{keys_to_drain, stored_value};
use ryu_tuition::error::ApiError;
use ryu_tuition::host::{
    host_address, no_host_message, read_completion, read_result, CANDIDATE_KEY_PREFIX,
};
use ryu_tuition::mcp::{
    read_args, read_call, read_message, reply_to, tools, ArgKind, CallArgs, Reply, ToolCall,
};
use ryu_tuition::models::{CandidateStatus, SkillStatus};
use ryu_tuition::store::{DEFAULT_LIMIT, MAX_LIMIT};

/// The routes that the app's manifest declares.
fn declared_routes() -> Vec<String> {
    [
        "/subjects",
        "/subjects/:id",
        "/sources",
        "/sources/:id",
        "/skills",
        "/skills/:id",
        "/skills/:id/prereqs",
        "/items",
        "/items/generate",
        "/items/:id",
        "/sessions",
        "/sessions/plan",
        "/sessions/:id",
        "/sessions/:id/next",
        "/sessions/:id/answer",
        "/sessions/:id/finish",
        "/attempts",
        "/mastery",
        "/due",
        "/trajectory",
        "/candidates",
        "/candidates/:id/accept",
        "/candidates/:id/reject",
        "/settings",
    ]
    .iter()
    .map(|r| (*r).to_owned())
    .collect()
}

#[test]
fn every_served_route_is_declared_in_the_manifest() {
    let declared = declared_routes();
    for route in served_routes() {
        assert!(
            declared.iter().any(|d| d == route),
            "'{route}' is served but not declared in the manifest"
        );
    }
}

#[test]
fn every_declared_route_is_actually_served() {
    let served = served_routes();
    for route in declared_routes() {
        assert!(
            served.contains(&route.as_str()),
            "'{route}' is declared in the manifest but nothing serves it"
        );
    }
}

#[test]
fn the_openapi_document_is_not_a_declared_route() {
    assert!(!declared_routes().iter().any(|r| r.contains("openapi")));
    assert!(!served_routes().iter().any(|r| r.contains("openapi")));
}

#[test]
fn an_explicitly_created_skill_defaults_to_active_not_proposed() {
    assert_eq!(default_status(None), SkillStatus::Active);
    assert_eq!(default_status(Some("")), SkillStatus::Active);
    assert_eq!(default_status(Some("   ")), SkillStatus::Active);
    assert_eq!(default_status(Some("proposed")), SkillStatus::Proposed);
    assert_eq!(default_status(Some("archived")), SkillStatus::Archived);
}

#[test]
fn the_limit_clamp_refuses_a_hostile_page_size() {
    let huge = SubjectQuery { subject_id: Some("s".into()), limit: Some(1_000_000) };
    assert_eq!(huge.limit(), MAX_LIMIT);
    let zero = SubjectQuery { subject_id: Some("s".into()), limit: Some(0) };
    assert_eq!(zero.limit(), 1);
    let absent = SubjectQuery { subject_id: Some("s".into()), limit: None };
    assert_eq!(absent.limit(), DEFAULT_LIMIT);
}

#[test]
fn a_missing_subject_id_is_a_bad_request_not_a_silent_empty_list() {
    let query = SubjectQuery { subject_id: None, limit: None };
    assert!(query.subject().is_err());
    let empty = SubjectQuery { subject_id: Some(String::new()), limit: None };
    assert!(empty.subject().is_err());
    let there = SubjectQuery { subject_id: Some("sub_1".into()), limit: None };
    assert_eq!(there.subject().expect("there"), "sub_1");
    assert_eq!(query.subject().expect_err("missing").to_string(), "subject_id is required");
}

#[test]
fn an_item_list_is_asked_for_by_skill() {
    let query = SkillQuery { skill_id: None, include_archived: None, limit: Some(-3) };
    assert_eq!(query.skill().expect_err("missing").to_string(), "skill_id is required");
    assert_eq!(query.limit(), 1);
    assert!(!query.archived());
    let full =
        SkillQuery { skill_id: Some("skl_1".into()), include_archived: Some(true), limit: None };
    assert_eq!(full.skill().expect("there"), "skl_1");
    assert_eq!(full.limit(), DEFAULT_LIMIT);
    assert!(full.archived());
}

#[test]
fn requests_have_bounds_and_defaults() {
    assert_eq!(session_minutes(None), 15);
    assert_eq!(session_minutes(Some(0)), 1);
    assert_eq!(session_minutes(Some(241)), 240);
    assert_eq!(session_minutes(Some(25)), 25);
    assert_eq!(generation_count(None), 5);
    assert_eq!(generation_count(Some(0)), 1);
    assert_eq!(generation_count(Some(99)), 20);
    assert!(not_blank(" x ", "why").is_ok());
    assert_eq!(not_blank(" \t", "a subject needs a name").expect_err("blank").to_string(), "a subject needs a name");
    assert!(require_hit(true, "item").is_ok());
    assert_eq!(require_hit(false, "item").expect_err("gone").to_string(), "item not found");
    assert!(require_decision(Some(CandidateStatus::Pending)).is_ok());
    assert_eq!(require_decision(Some(CandidateStatus::Accepted)).expect_err("decided").status(), 409);
    assert_eq!(require_decision(None).expect_err("gone").status(), 404);
}

#[test]
fn statuses_and_codes_are_stable() {
    assert_eq!(ApiError::not_found("skill").status(), 404);
    assert_eq!(ApiError::not_found("skill").code(), "not_found");
    assert_eq!(ApiError::bad_request("cycle").status(), 400);
    assert_eq!(ApiError::conflict("decided").status(), 409);
    assert_eq!(ApiError::not_implemented("trajectory").status(), 501);
    assert_eq!(ApiError::upstream("parse").status(), 502);
    assert_eq!(ApiError::upstream("parse").code(), "upstream_error");
    assert_eq!(ApiError::Unavailable("host".into()).status(), 503);
    assert_eq!(ApiError::Unavailable("host".into()).code(), "unavailable");
    assert_eq!(ApiError::not_implemented("trajectory").to_string(), "trajectory is not implemented yet");
    assert_eq!(ApiError::not_found("skill").to_string(), "skill not found");
}

#[test]
fn internal_errors_do_not_leak_their_cause_to_the_client() {
    let err = ApiError::Internal(
        "UPDATE skills SET mastery = ?1 failed: /Users/me/.ryu/tuition.db is locked".into(),
    );
    assert_eq!(err.client_message(), "internal error");
    assert_eq!(err.status(), 500);
    assert!(err.to_string().contains("tuition.db"));
    assert_eq!(ApiError::conflict("decided").client_message(), "decided");
}

#[test]
fn the_gate_is_fail_closed_without_a_configured_token() {
    assert!(!bearer_ok(Some("anything"), None));
    assert!(!bearer_ok(None, None));
    assert!(!bearer_ok(Some(""), Some("")));
}

#[test]
fn a_missing_or_wrong_header_is_refused() {
    assert!(!bearer_ok(None, Some("secret")));
    assert!(!bearer_ok(Some("wrong"), Some("secret")));
    assert!(!bearer_ok(Some(""), Some("secret")));
}

#[test]
fn the_right_token_passes() {
    assert!(bearer_ok(Some("secret"), Some("secret")));
}

#[test]
fn a_prefix_of_the_token_does_not_pass() {
    assert!(!bearer_ok(Some("sec"), Some("secret")));
    assert!(!bearer_ok(Some("secretsecret"), Some("secret")));
}

#[test]
fn the_bearer_prefix_is_required_and_case_sensitive() {
    assert_eq!(bearer_token("Bearer abc").as_deref(), Some("abc"));
    assert!(bearer_token("abc").is_none());
    assert!(bearer_token("bearer abc").is_none());
    assert!(bearer_token("Bearer").is_none());
    assert_eq!(bearer_token("Bearer ").as_deref(), Some(""));
}

#[test]
fn a_blank_token_counts_as_none() {
    assert!(token_configured(Some(" t ")));
    assert!(!token_configured(Some("  ")));
    assert!(!token_configured(None));
}

#[test]
fn every_event_id_is_namespaced_to_this_plugin() {
    for id in [EVENT_REVIEW_DUE, EVENT_MASTERY_DROPPED, EVENT_GOAL_AT_RISK] {
        let (owner, name) = id.split_once('#').expect("event ids carry a `#`");
        assert_eq!(owner, PLUGIN_ID);
        assert!(!name.is_empty());
    }
    assert_eq!(PLUGIN_ID, "@ryu/tuition");
}

#[test]
fn config_defaults_hold_and_the_scheduler_switch_is_off_only_when_asked() {
    let config = Config::from_settings(8007, None, None, None, None);
    assert_eq!(config.port, 8007);
    assert!(config.scheduler_enabled);
    assert_eq!(config.tick_secs, 300);
    assert_eq!(config.drain_batch, 50);
    assert_eq!(config.token, None);
    for word in ["0", " false ", "off"] {
        assert!(!Config::from_settings(1, None, Some(word), None, None).scheduler_enabled);
    }
    for word in ["1", "FALSE", ""] {
        assert!(Config::from_settings(1, None, Some(word), None, None).scheduler_enabled);
    }
    let stated = Config::from_settings(1, Some("  s3 "), None, Some(" 7 "), Some("+9"));
    assert_eq!(stated.token.as_deref(), Some("s3"));
    assert_eq!(stated.tick_secs, 7);
    assert_eq!(stated.tick_period_secs(), 30);
    assert_eq!(stated.drain_batch, 9);
    let odd = Config::from_settings(1, Some("   "), None, Some("0"), Some("-4"));
    assert_eq!(odd.token, None);
    assert_eq!(odd.tick_secs, 300);
    assert_eq!(odd.tick_period_secs(), 300);
    assert_eq!(odd.drain_batch, 50);
}

#[test]
fn the_mount_matches_the_manifest() {
    assert_eq!(MOUNT, "/api/tuition");
    assert_eq!(DEFAULT_PORT, 8007);
}

#[test]
fn the_shared_client_carries_a_timeout() {
    assert!(OUTBOUND_CALL_TIMEOUT_MS > CONNECT_TIMEOUT_MS);
}

#[test]
fn numbers_are_read_whole_or_not_at_all() {
    assert_eq!(parse_unsigned("18446744073709551615"), Some(u64::MAX));
    assert_eq!(parse_unsigned("18446744073709551616"), None);
    assert_eq!(parse_unsigned("00012"), Some(12));
    assert_eq!(parse_unsigned("+"), None);
    assert_eq!(parse_unsigned(""), None);
    assert_eq!(parse_unsigned("1 2"), None);
    assert_eq!(port_setting(Some(" 9000 ")), 9000);
    assert_eq!(port_setting(Some("65536")), DEFAULT_PORT);
    assert_eq!(port_setting(None), DEFAULT_PORT);
}

#[test]
fn a_standalone_process_has_no_host_rather_than_a_broken_one() {
    assert!(host_address(None, None, None).is_none());
}

#[test]
fn a_partially_configured_host_is_no_host_at_all() {
    assert!(host_address(Some("t"), Some("@ryu/tuition"), None).is_none());
}

#[test]
fn whitespace_only_values_do_not_count_as_configured() {
    assert!(host_address(Some("   "), Some("@ryu/tuition"), Some("8080")).is_none());
}

#[test]
fn a_fully_configured_host_builds_a_loopback_base() {
    let host = host_address(Some("t"), Some("@ryu/tuition"), Some("8980")).expect("configured");
    assert_eq!(host.base, "http://127.0.0.1:8980");
    assert_eq!(host.token, "t");
    assert_eq!(host.plugin_id, "@ryu/tuition");
}

#[test]
fn the_candidate_key_prefix_is_namespaced_to_this_app() {
    assert!(CANDIDATE_KEY_PREFIX.starts_with("tuition/"));
    assert!(CANDIDATE_KEY_PREFIX.ends_with('/'));
}

#[test]
fn the_no_host_message_tells_the_reader_what_to_do() {
    let message = no_host_message();
    assert!(message.contains("Ryu"), "{message}");
    assert!(message.len() > 40, "too terse to act on: {message}");
}

fn json(text: &str) -> serde_json::Value {
    serde_json::from_str(text).expect("JSON")
}

#[test]
fn a_completion_is_read_or_refused() {
    let read = |payload: &str| read_completion(true, "200 OK", &json(payload));
    assert_eq!(read(r#"{"text": "hi", "content": "no"}"#), Ok("hi".into()));
    assert_eq!(read(r#"{"content": "yo"}"#), Ok("yo".into()));
    let none: Result<String, String> = Err("Core's model response carried no text".into());
    assert_eq!(read(r#"{"text": 3, "content": "yo"}"#), none);
    assert_eq!(read("[]"), none);
    assert_eq!(
        read_completion(false, "403 Forbidden", &json(r#"{"error": "no grant", "text": "hi"}"#)),
        Err("Core refused the model call (403 Forbidden): no grant".into())
    );
}

#[test]
fn a_host_call_gives_its_result_or_why_not() {
    let ok = |payload: &str| read_result(true, "200 OK", "storage.get", json(payload));
    assert_eq!(ok(r#"{"result": [1]}"#), Ok(json("[1]")));
    assert_eq!(ok(r#"{"value": 2}"#), Ok(json(r#"{"value": 2}"#)));
    assert_eq!(
        read_result(false, "500", "storage.get", json(r#"{"error": 7}"#)),
        Err("Core refused 'storage.get' (500): no detail".into())
    );
}

#[test]
fn no_more_keys_are_drained_than_asked_for() {
    let listed = json(r#"{"keys": ["a", 1, "b", "c"]}"#);
    assert_eq!(keys_to_drain(&listed, 2), ["a", "b"]);
    assert_eq!(keys_to_drain(&listed, 50), ["a", "b", "c"]);
    assert!(keys_to_drain(&listed, 0).is_empty());
    assert_eq!(keys_to_drain(&json(r#"["x"]"#), 9), ["x"]);
    assert!(keys_to_drain(&json(r#"{"keys": "a"}"#), 9).is_empty());
    assert!(keys_to_drain(&json("3"), 9).is_empty());
}

#[test]
fn a_stored_value_is_unwrapped_and_null_is_nothing() {
    assert_eq!(stored_value(json(r#"{"value": {"v": 1}}"#)), Some(json(r#"{"v": 1}"#)));
    assert_eq!(stored_value(json(r#"{"v": 1}"#)), Some(json(r#"{"v": 1}"#)));
    assert_eq!(stored_value(json(r#"{"value": null}"#)), None);
    assert_eq!(stored_value(json("null")), None);
}

#[test]
fn no_tool_name_is_self_prefixed() {
    for tool in tools() {
        assert!(
            !tool.name.contains("__"),
            "'{}' is self-prefixed; Core adds the server prefix",
            tool.name
        );
        assert!(!tool.name.starts_with("tuition"), "'{}' repeats the server name", tool.name);
    }
}

#[test]
fn every_tool_has_an_object_schema_and_a_real_description() {
    for tool in tools() {
        assert!(
            tool.description.len() > 40,
            "'{}' has a {}-character description",
            tool.name,
            tool.description.len()
        );
        assert!(!tool.args.is_empty(), "'{}' must take an object", tool.name);
    }
}

#[test]
fn the_tool_set_matches_what_the_manifest_advertises() {
    let table = tools();
    let mut names: Vec<&str> = table.iter().map(|t| t.name).collect();
    names.sort_unstable();
    assert_eq!(names, ["due", "grade", "log", "mastery", "quiz"]);
    let quiz = &table[1];
    assert_eq!(quiz.args[1].name, "minutes");
    assert_eq!(quiz.args[1].kind, ArgKind::Integer);
    assert!(quiz.args[0].required);
}

fn no_args() -> CallArgs {
    CallArgs {
        subject_id: None,
        limit: None,
        minutes: None,
        item_id: None,
        response: None,
        session_id: None,
        skill_id: None,
        correct: None,
        note: None,
    }
}

#[test]
fn a_tool_call_is_read_with_its_defaults_and_bounds() {
    match read_call("due", no_args()).expect("readable") {
        ToolCall::Due { subject_id, limit } => {
            assert_eq!(subject_id, None);
            assert_eq!(limit, 20);
        }
        other => panic!("got {other:?}"),
    }
    let args = CallArgs { subject_id: Some("".into()), limit: Some(900), ..no_args() };
    match read_call("due", args).expect("readable") {
        ToolCall::Due { subject_id, limit } => {
            assert_eq!(subject_id, None);
            assert_eq!(limit, 200);
        }
        other => panic!("got {other:?}"),
    }
    let args = CallArgs { subject_id: Some("sub_1".into()), minutes: Some(0), ..no_args() };
    match read_call("quiz", args).expect("readable") {
        ToolCall::Quiz { subject_id, minutes } => {
            assert_eq!(subject_id, "sub_1");
            assert_eq!(minutes, 1);
        }
        other => panic!("got {other:?}"),
    }
    let args = CallArgs { subject_id: Some("sub_1".into()), ..no_args() };
    assert!(matches!(
        read_call("quiz", args.clone()),
        Ok(ToolCall::Quiz { minutes: 10, .. })
    ));
    assert!(matches!(read_call("mastery", args), Ok(ToolCall::Mastery { .. })));
    let args = CallArgs {
        item_id: Some("itm_1".into()),
        response: Some("a".into()),
        skill_id: Some("skl_1".into()),
        correct: Some(false),
        ..no_args()
    };
    assert!(matches!(
        read_call("grade", args.clone()),
        Ok(ToolCall::Grade { session_id: None, .. })
    ));
    assert!(matches!(read_call("log", args), Ok(ToolCall::Log { correct: false, .. })));
    let why = |name: &str| read_call(name, no_args()).expect_err("refused");
    assert_eq!(why("quiz"), "subject_id is required");
    assert_eq!(why("mastery"), "subject_id is required");
    assert_eq!(why("grade"), "item_id is required");
    assert_eq!(why("log"), "skill_id is required");
    assert_eq!(why("tuition__due"), "unknown tool 'tuition__due'");
    let half = CallArgs { item_id: Some("i".into()), skill_id: Some("s".into()), ..no_args() };
    assert_eq!(read_call("grade", half.clone()).expect_err("half"), "response is required");
    assert_eq!(read_call("log", half).expect_err("half"), "correct is required");
}

#[test]
fn a_line_is_answered_only_where_it_asks() {
    let answer = |line: &str| reply_to(read_message(line));
    assert!(matches!(answer(""), Reply::Silence));
    assert!(matches!(answer("   "), Reply::Silence));
    assert!(matches!(answer("not json"), Reply::Silence));
    assert!(matches!(answer(r#"{"method": "ping"}"#), Reply::Silence));
    match answer("  {\"id\": 7, \"method\": \"initialize\"}\r\n") {
        Reply::Initialized { id } => assert_eq!(id, 7),
        other => panic!("got {other:?}"),
    }
    assert!(matches!(answer(r#"{"id": null, "method": "ping"}"#), Reply::Pong { .. }));
    assert!(matches!(answer(r#"{"id": "a", "method": "tools/list"}"#), Reply::ToolList { .. }));
    match answer(r#"{"id": "abc", "method": "x"}"#) {
        Reply::UnknownMethod { id, why } => {
            assert_eq!(id, "abc");
            assert_eq!(why, "unknown method 'x'");
        }
        other => panic!("got {other:?}"),
    }
    match answer(r#"{"id": 1, "method": 5}"#) {
        Reply::UnknownMethod { why, .. } => assert_eq!(why, "unknown method ''"),
        other => panic!("got {other:?}"),
    }
}

#[test]
fn a_call_is_read_off_its_line() {
    let call = |params: &str| {
        let line = format!("{{\"id\": 1, \"method\": \"tools/call\", \"params\": {params}}}");
        match reply_to(read_message(&line)) {
            Reply::CallTool { call, .. } => call,
            other => panic!("got {other:?}"),
        }
    };
    let quiz = r#"{"name": "quiz", "arguments": {"subject_id": "sub_1", "minutes": 25}}"#;
    match call(quiz).expect("readable") {
        ToolCall::Quiz { subject_id, minutes } => {
            assert_eq!(subject_id, "sub_1");
            assert_eq!(minutes, 25);
        }
        other => panic!("got {other:?}"),
    }
    let log = r#"{"name": "log", "arguments": {"skill_id": "s", "correct": true, "note": "n"}}"#;
    match call(log).expect("readable") {
        ToolCall::Log { skill_id, correct, note } => {
            assert_eq!(skill_id, "s");
            assert!(correct);
            assert_eq!(note.as_deref(), Some("n"));
        }
        other => panic!("got {other:?}"),
    }
    assert_eq!(call("{}").expect_err("no name"), "unknown tool ''");
    assert_eq!(call(r#"{"name": "grade"}"#).expect_err("no args"), "item_id is required");
    let wrong = r#"{"name": "quiz", "arguments": {"subject_id": 4}}"#;
    assert_eq!(call(wrong).expect_err("no text"), "subject_id is required");
}

#[test]
fn arguments_of_another_kind_count_as_not_given() {
    let given = json(
        r#"{"subject_id": "s", "limit": -3, "minutes": 9, "item_id": "i", "response": "r",
            "session_id": "t", "skill_id": "k", "correct": false, "note": "n"}"#,
    );
    let args = read_args(Some(&given));
    assert_eq!(args.subject_id.as_deref(), Some("s"));
    assert_eq!(args.limit, Some(-3));
    assert_eq!(args.minutes, Some(9));
    assert_eq!(args.item_id.as_deref(), Some("i"));
    assert_eq!(args.response.as_deref(), Some("r"));
    assert_eq!(args.session_id.as_deref(), Some("t"));
    assert_eq!(args.skill_id.as_deref(), Some("k"));
    assert_eq!(args.correct, Some(false));
    assert_eq!(args.note.as_deref(), Some("n"));
    let odd = json(r#"{"subject_id": 1, "limit": 2.5, "minutes": -9, "correct": "yes"}"#);
    let args = read_args(Some(&odd));
    assert_eq!(args.subject_id, None);
    assert_eq!(args.limit, None);
    assert_eq!(args.minutes, None);
    assert_eq!(args.correct, None);
    assert_eq!(read_args(None).note, None);
}
