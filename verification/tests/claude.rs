use bodega::agent::{PermissionDecision, PermissionMode, StartRequest};
use bodega::budget::Usage;
use bodega::claude::{
    build_args, parse_line, probe_report, truncate, try_parse_line, ClaudeCode, Incoming,
    ProbeOutcome, MAX_STDERR_LINES,
};
use bodega::events::{AgentEvent, LogLevel};
use bodega::json::Json;
use bodega::money::Usd;
use bodega::protocol::{
    exit_detail, initialize_message, line_of, user_message, Reaction, Session,
};

#[test]
fn builds_a_safe_command_line() {
    let args = build_args(&StartRequest {
        prompt: "ignored here".into(),
        model: Some("opus-5".into()),
        session_id: Some("-rf".into()),
        permission_mode: PermissionMode::AcceptEdits,
        allowed_tools: vec!["Read".into(), "Bash(git:*)".into()],
        max_turns: Some(30),
        ..StartRequest::default()
    });
    assert_eq!(
        &args[..7],
        &[
            "--output-format",
            "stream-json",
            "--verbose",
            "--input-format",
            "stream-json",
            "--permission-prompt-tool",
            "stdio"
        ]
    );
    assert!(args.contains(&"--permission-mode=acceptEdits".to_string()));
    assert!(args.contains(&"--model=opus-5".to_string()));
    // Values that look like flags stay attached to their flag.
    assert!(args.contains(&"--session-id=-rf".to_string()));
    assert!(args.contains(&"--allowedTools=Read,Bash(git:*)".to_string()));
    assert!(args.contains(&"--max-turns=30".to_string()));
    assert!(!args.iter().any(|a| a.starts_with("--resume")));
}

#[test]
fn resume_takes_precedence_over_a_new_session_id() {
    let args = build_args(&StartRequest {
        session_id: Some("new".into()),
        resume: Some("old".into()),
        ..StartRequest::default()
    });
    assert!(args.contains(&"--resume=old".to_string()));
    assert!(!args.iter().any(|a| a.starts_with("--session-id")));
}

#[test]
fn the_spend_cap_is_passed_on() {
    let args = build_args(&StartRequest {
        max_budget_usd: Some(Usd::from_nanos(500_000_000)),
        ..StartRequest::default()
    });
    assert!(args.contains(&"--max-budget-usd=0.5".to_string()), "{args:?}");
}

#[test]
fn parses_a_turn() {
    let lines = [
        r#"{"type":"system","subtype":"init","session_id":"s-1","model":"opus-5","tools":[]}"#,
        r#"{"type":"assistant","message":{"content":[{"type":"thinking","thinking":"plan"},{"type":"text","text":"Running tests"},{"type":"tool_use","id":"toolu_1","name":"Bash","input":{"command":"cargo test"}}]},"session_id":"s-1"}"#,
        r#"{"type":"user","message":{"content":[{"type":"tool_result","tool_use_id":"toolu_1","content":[{"type":"text","text":"ok"}],"is_error":false}]}}"#,
        r#"{"type":"result","subtype":"success","is_error":false,"result":"All green","total_cost_usd":0.42,"modelUsage":{"opus-5":{"inputTokens":100,"outputTokens":50,"cacheReadInputTokens":1000,"cacheCreationInputTokens":10,"costUSD":0.40}},"session_id":"s-1"}"#,
    ];
    let events: Vec<Incoming> = lines.iter().flat_map(|l| parse_line(l)).collect();
    assert_eq!(
        events[0],
        Incoming::Event(AgentEvent::SessionStarted {
            session_id: Some("s-1".into()),
            model: Some("opus-5".into()),
        })
    );
    assert!(matches!(&events[1], Incoming::Event(AgentEvent::Thinking { text }) if text == "plan"));
    assert!(
        matches!(&events[2], Incoming::Event(AgentEvent::Message { text }) if text == "Running tests")
    );
    assert!(matches!(
        &events[3],
        Incoming::Event(AgentEvent::ToolCall { call_id, tool, .. }) if call_id == "toolu_1" && tool == "Bash"
    ));
    assert!(matches!(
        &events[4],
        Incoming::Event(AgentEvent::ToolResult { output, is_error: false, .. }) if output == "ok"
    ));
    let Incoming::Event(AgentEvent::Finished { success, summary, usage }) = &events[6] else {
        panic!("expected finished, got {:?}", events[6]);
    };
    assert!(success);
    assert_eq!(summary.as_deref(), Some("All green"));
    assert_eq!(usage.cache_read_tokens, 1000);
    assert_eq!(usage.cost_usd, Usd::from_nanos(420_000_000), "total_cost_usd wins");
}

#[test]
fn errors_and_control_requests() {
    let finished = parse_line(
        r#"{"type":"result","subtype":"error_max_turns","is_error":true,"result":"","total_cost_usd":1.0}"#,
    );
    assert!(matches!(
        &finished[1],
        Incoming::Event(AgentEvent::Finished { success: false, summary: Some(s), .. }) if s == "error_max_turns"
    ));

    let ask = parse_line(
        r#"{"type":"control_request","request_id":"r1","request":{"subtype":"can_use_tool","tool_name":"Bash","input":{"command":"rm -rf target"}}}"#,
    );
    assert_eq!(
        ask,
        vec![Incoming::CanUseTool {
            request_id: "r1".into(),
            tool: "Bash".into(),
            input: Json::Object(vec![("command".into(), Json::Text("rm -rf target".into()))]),
        }]
    );
    let hook = parse_line(
        r#"{"type":"control_request","request_id":"r2","request":{"subtype":"hook_callback"}}"#,
    );
    assert!(
        matches!(&hook[0], Incoming::UnsupportedRequest { subtype, .. } if subtype == "hook_callback")
    );

    assert!(parse_line(r#"{"type":"keep_alive"}"#).is_empty());
    assert!(parse_line(r#"{"type":"some_future_message"}"#).is_empty());
    assert!(matches!(&parse_line("not json")[0], Incoming::Event(AgentEvent::Log { .. })));
}

#[test]
fn usage_that_cannot_be_counted_is_told() {
    let line = format!(
        r#"{{"type":"result","result":"x","modelUsage":{{"a":{{"inputTokens":{0}}},"b":{{"inputTokens":{0}}}}}}}"#,
        u64::MAX
    );
    assert_eq!(try_parse_line(&line), None);
    assert!(try_parse_line(r#"{"type":"keep_alive"}"#).is_some());
}

#[test]
fn truncation_respects_char_boundaries() {
    let s = "é".repeat(10);
    let t = truncate(&s, 5);
    assert!(t.starts_with("éé"));
    assert!(t.contains("more bytes"));
}

#[test]
fn truncation_counts_what_is_left_out() {
    assert_eq!(truncate(&"é".repeat(10), 5), "éé… [16 more bytes]");
    assert_eq!(truncate("short", 5), "short");
}

#[test]
fn probing_tells_what_is_wrong() {
    let ran = |success, stdout: &str, stderr: &str| ProbeOutcome::Ran {
        success,
        stdout: stdout.into(),
        stderr: stderr.into(),
    };
    let agent = ClaudeCode::new();
    assert_eq!(agent.name(), "code-cli");
    let ok = probe_report(&agent, &ran(true, "1.2.3\n", ""));
    assert!(ok.available);
    assert_eq!(ok.runtime, "code-cli");
    assert_eq!(ok.version.as_deref(), Some("1.2.3"));
    let bad = probe_report(&agent, &ran(false, "", " broken \n"));
    assert_eq!((bad.available, bad.detail.as_deref()), (false, Some("broken")));
    let none = probe_report(&agent, &ProbeOutcome::NotRun { error: "not found".into() });
    assert_eq!(none.detail.as_deref(), Some("could not run code-cli: not found"));
    let slow = probe_report(&agent, &ProbeOutcome::TimedOut);
    assert_eq!(slow.detail.as_deref(), Some("`code-cli --version` timed out"));
    assert!(ClaudeCode::with_program("x").capabilities().multi_turn);
}

#[test]
fn the_command_goes_by_the_name_it_is_given() {
    let agent = ClaudeCode::named("coder", "code");
    assert_eq!((agent.name(), agent.program.as_str()), ("coder", "code"));
    let none = probe_report(&agent, &ProbeOutcome::NotRun { error: "not found".into() });
    assert_eq!(none.runtime, "coder");
    assert_eq!(none.detail.as_deref(), Some("could not run code: not found"));
    let slow = probe_report(&agent, &ProbeOutcome::TimedOut);
    assert_eq!(slow.detail.as_deref(), Some("`code --version` timed out"));
    // A stand-in keeps the name of what it stands for.
    let stand_in = ClaudeCode::with_program("/tmp/fake");
    assert_eq!(stand_in.name(), "code-cli");
    let none = probe_report(&stand_in, &ProbeOutcome::NotRun { error: "gone".into() });
    assert_eq!(none.detail.as_deref(), Some("could not run /tmp/fake: gone"));
    let slow = probe_report(&stand_in, &ProbeOutcome::TimedOut);
    assert_eq!(slow.detail.as_deref(), Some("`code-cli --version` timed out"));
}

#[test]
fn a_session_answers_each_request_once() {
    let mut session = Session::new();
    let input = Json::Object(vec![("command".into(), Json::Text("make".into()))]);
    let ask = Incoming::CanUseTool {
        request_id: "r1".into(),
        tool: "Bash".into(),
        input: input.clone(),
    };
    assert!(matches!(
        session.take(ask),
        Reaction::Emit(AgentEvent::PermissionRequested { request_id, .. }) if request_id == "r1"
    ));
    let yes = session.answer("r1", PermissionDecision::Allow { updated_input: None }).unwrap();
    let text = line_of(&yes);
    assert!(text.ends_with('\n'));
    assert!(text.contains(r#""behavior":"allow""#), "{text}");
    assert!(text.contains(r#""command":"make""#), "{text}");
    assert_eq!(session.answer("r1", PermissionDecision::Allow { updated_input: None }), None);
    let hook = Incoming::UnsupportedRequest { request_id: "r2".into(), subtype: "hook".into() };
    assert!(matches!(session.take(hook), Reaction::Reply(_)));
}

#[test]
fn a_session_that_ends_mid_turn_has_failed() {
    let mut session = Session::new();
    assert!(matches!(
        session.ended("it exited".into()),
        Some(AgentEvent::Finished { success: false, summary: Some(s), .. }) if s == "it exited"
    ));
    let done = AgentEvent::Finished { success: true, summary: None, usage: Usage::default() };
    session.take(Incoming::Event(done));
    assert_eq!(session.ended("it exited".into()), None);
    session.follow_up("again");
    assert!(session.ended("it exited".into()).is_some());
}

#[test]
fn messages_are_lines_of_json() {
    assert_eq!(
        line_of(&user_message("say \"hi\"")),
        "{\"message\":{\"content\":\"say \\\"hi\\\"\",\"role\":\"user\"},\"parent_tool_use_id\":null,\"session_id\":\"default\",\"type\":\"user\"}\n"
    );
    let hello = line_of(&initialize_message());
    assert!(hello.contains(r#""subtype":"initialize""#), "{hello}");
    assert!(hello.contains("forgeline-init"), "{hello}");
}

#[test]
fn diagnostics_are_bounded() {
    let mut session = Session::new();
    assert_eq!(session.stderr_line("  \t"), None);
    let mut forwarded = 0;
    for i in 0..1000 {
        if let Some(event) = session.stderr_line(&format!("line {i}")) {
            assert_eq!(
                event,
                AgentEvent::Log { level: LogLevel::Warn, message: format!("line {forwarded}") }
            );
            forwarded += 1;
        }
    }
    assert_eq!(forwarded, MAX_STDERR_LINES);
    let long = Session::new().stderr_line(&"x".repeat(2001)).unwrap();
    let cut = format!("{}… [1 more bytes]", "x".repeat(2000));
    assert_eq!(long, AgentEvent::Log { level: LogLevel::Warn, message: cut });
    assert_eq!(
        exit_detail("code-cli", Some("exit status: 1"), ""),
        "code-cli exited (exit status: 1) before finishing its turn"
    );
    assert_eq!(exit_detail("code-cli", None, "gone"), "code-cli exited abnormally: gone");
}

#[test]
fn the_first_field_of_a_name_counts() {
    let field = |n: &str| ("a".to_string(), Json::Number(n.into()));
    let twice = Json::Object(vec![field("1"), ("b".into(), Json::Null), field("2")]);
    assert_eq!(twice.get("a"), Some(&Json::Number("1".into())));
    assert_eq!(line_of(&twice), "{\"a\":1,\"b\":null}\n");
}
