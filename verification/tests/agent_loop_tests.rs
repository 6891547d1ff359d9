use lib::agent::{add_tool_results, clear_suspension, confirmation_gate, input_signal_name, rebuild_conversation, resolve_agent, store_input, take_reply, ReplyAction, StepOutcome};
use lib::context::Verdict;
use lib::error::SuspendReason;
use lib::memory::InMemoryStorage;
use lib::types::{ExecutionId, ExecutionStatus};
use lib::conversation::Conversation;
use lib::error::DurableError;
use lib::llm::{Message, MessageContent, Role};
use lib::tool::{ToolCall, ToolResult};

fn call(id: &str, name: &str) -> ToolCall {
    ToolCall { id: id.to_string(), name: name.to_string(), arguments: "{}".to_string() }
}

fn describe(m: &Message) -> String {
    let role = match m.role {
        Role::System => "system",
        Role::User => "user",
        Role::Assistant => "assistant",
        Role::Tool => "tool",
    };
    match &m.content {
        MessageContent::Text(t) => format!("{}:text:{}", role, t),
        MessageContent::ToolCalls(cs) => {
            format!("{}:calls:{}", role, cs.iter().map(|c| c.id.clone()).collect::<Vec<_>>().join(","))
        }
        MessageContent::ToolResult { call_id, output, is_error } => format!("{}:result:{}:{}:{}", role, call_id, output, is_error),
    }
}

fn all(c: &Conversation) -> Vec<String> {
    c.messages().iter().map(describe).collect()
}

fn step(name: &str) -> StepOutcome {
    StepOutcome {
        name: name.to_string(),
        completed: true,
        kind: None,
        content: String::new(),
        tool_calls: None,
        call_id: String::new(),
        output: "null".to_string(),
        is_error: false,
    }
}

#[test]
fn replies_update_the_conversation() {
    let mut c = Conversation::new();
    match take_reply(&mut c, "tool_calls", String::new(), vec![call("c1", "search")]) {
        ReplyAction::RunTools => {}
        other => panic!("unexpected {:?}", other),
    }
    add_tool_results(
        &mut c,
        vec![ToolResult { call_id: "c1".to_string(), output: "\"found\"".to_string(), is_error: false }],
    );
    match take_reply(&mut c, "text", "done".to_string(), vec![]) {
        ReplyAction::Complete(t) => assert_eq!(t, "done"),
        other => panic!("unexpected {:?}", other),
    }
    assert_eq!(
        all(&c),
        vec!["assistant:calls:c1", "tool:result:c1:\"found\":false", "assistant:text:done"]
    );
    match take_reply(&mut c, "tool_calls", String::new(), vec![]) {
        ReplyAction::Complete(t) => assert_eq!(t, ""),
        other => panic!("unexpected {:?}", other),
    }
    match take_reply(&mut c, "image", String::new(), vec![]) {
        ReplyAction::Fail(DurableError::InvalidState(m)) => assert_eq!(m, "unknown LLM response type: image"),
        other => panic!("unexpected {:?}", other),
    }
    assert_eq!(c.len(), 3);
}

#[test]
fn conversation_is_rebuilt_from_recorded_steps() {
    let mut reply = step("llm_call");
    reply.kind = Some("tool_calls".to_string());
    reply.tool_calls = Some(vec![call("c1", "search"), call("c2", "fetch")]);
    let mut r1 = step("tool_search");
    r1.call_id = "c1".to_string();
    r1.output = "1".to_string();
    let mut r2 = step("tool_fetch");
    r2.call_id = "c2".to_string();
    r2.is_error = true;
    r2.output = "\"boom\"".to_string();
    let mut unfinished = step("tool_fetch");
    unfinished.completed = false;
    let mut answer = step("llm_call_2");
    answer.kind = Some("text".to_string());
    answer.content = "all done".to_string();
    let other = step("fetch_page");

    let mut c = Conversation::with_system_prompt("be brief".to_string());
    rebuild_conversation(&mut c, vec![reply, r1, r2, unfinished, other, answer]);
    assert_eq!(
        all(&c),
        vec![
            "system:text:be brief",
            "assistant:calls:c1,c2",
            "tool:result:c1:1:false",
            "tool:result:c2:\"boom\":true",
            "assistant:text:all done",
        ]
    );
}

#[test]
fn rebuilding_matches_the_live_loop() {
    let mut live = Conversation::new();
    take_reply(&mut live, "tool_calls", String::new(), vec![call("a", "x")]);
    add_tool_results(&mut live, vec![ToolResult { call_id: "a".to_string(), output: "7".to_string(), is_error: false }]);
    take_reply(&mut live, "text", "ok".to_string(), vec![]);

    let mut reply = step("llm_call");
    reply.kind = Some("tool_calls".to_string());
    reply.tool_calls = Some(vec![call("a", "x")]);
    let mut res = step("tool_x");
    res.call_id = "a".to_string();
    res.output = "7".to_string();
    let mut answer = step("llm_call");
    answer.kind = Some("text".to_string());
    answer.content = "ok".to_string();
    let mut rebuilt = Conversation::new();
    rebuild_conversation(&mut rebuilt, vec![reply, res, answer]);
    assert_eq!(all(&live), all(&rebuilt));
}

#[test]
fn user_input_goes_to_the_awaited_signal() {
    assert_eq!(input_signal_name(&None), "__user_input");
    assert_eq!(
        input_signal_name(&Some(SuspendReason::WaitingForSignal { signal_name: "go".to_string() })),
        "go"
    );
    let mut st = InMemoryStorage::new();
    let id = ExecutionId::new();
    match store_input(&mut st, id, "hi") {
        Err(DurableError::NotFound(m)) => assert_eq!(m, format!("execution {}", id.to_text())),
        other => panic!("unexpected {:?}", other),
    }
    st.create_execution(id).unwrap();
    store_input(&mut st, id, "say \"hi\"").unwrap();
    assert_eq!(st.peek_signal(id, "__user_input").unwrap().unwrap(), "\"say \\\"hi\\\"\"");
    st.set_suspend_reason(id, Some(SuspendReason::WaitingForSignal { signal_name: "go".to_string() })).unwrap();
    store_input(&mut st, id, "x").unwrap();
    assert_eq!(st.peek_signal(id, "go").unwrap().unwrap(), "\"x\"");
}

#[test]
fn confirmation_gate_suspends_then_follows_the_answer() {
    let mut st = InMemoryStorage::new();
    let id = ExecutionId::new();
    st.create_execution(id).unwrap();
    let key = format!("confirm_delete_{}_3", id.to_text());
    let reason = match confirmation_gate(&mut st, id, "delete", "{\"path\":\"/\"}", 3, |_d: String| Some(Verdict::Approved)) {
        Err(DurableError::Suspended(r)) => r,
        other => panic!("unexpected {:?}", other),
    };
    match &reason {
        SuspendReason::WaitingForConfirmation { tool_name, arguments, confirmation_id } => {
            assert_eq!(tool_name, "delete");
            assert_eq!(arguments, "{\"path\":\"/\"}");
            assert_eq!(confirmation_id, &key);
        }
        other => panic!("unexpected {:?}", other),
    }
    let meta = st.get_execution(id).unwrap().unwrap();
    assert_eq!(meta.status, ExecutionStatus::Suspended);
    clear_suspension(&mut st, id).unwrap();
    let meta = st.get_execution(id).unwrap().unwrap();
    assert_eq!(meta.status, ExecutionStatus::Running);
    assert!(meta.suspend_reason.is_none());

    st.store_signal(id, &key, "false").unwrap();
    match confirmation_gate(&mut st, id, "delete", "{}", 3, |_d: String| Some(Verdict::Rejected(None))) {
        Err(DurableError::Rejected { tool_name, reason }) => {
            assert_eq!(tool_name, "delete");
            assert_eq!(reason, "rejected by human");
        }
        other => panic!("unexpected {:?}", other),
    }
    assert!(st.peek_signal(id, &key).unwrap().is_none());
    st.store_signal(id, &key, "not json").unwrap();
    assert!(confirmation_gate(&mut st, id, "delete", "{}", 3, |_d: String| None).is_ok());
    st.store_signal(id, &key, "true").unwrap();
    assert!(confirmation_gate(&mut st, id, "delete", "{}", 3, |d: String| {
        assert_eq!(d, "true");
        Some(Verdict::Approved)
    })
    .is_ok());
}

#[test]
fn commands_find_their_agent() {
    let one = vec!["solo".to_string()];
    let two = vec!["a".to_string(), "b".to_string()];
    assert_eq!(resolve_agent(Some("x"), Some("y"), &one), "x");
    assert_eq!(resolve_agent(None, Some("y"), &one), "y");
    assert_eq!(resolve_agent(None, None, &one), "solo");
    assert_eq!(resolve_agent(None, None, &two), "default");
    assert_eq!(resolve_agent(None, None, &[]), "default");
}
