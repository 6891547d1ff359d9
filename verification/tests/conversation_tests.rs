use lib::conversation::Conversation;
use lib::llm::{LlmResponse, LlmResponseContent, Message, MessageContent, MockLlmClient, Role, TokenUsage};
use lib::tool::{ToolCall, ToolDefinition};

fn text_of(m: &Message) -> String {
    match &m.content {
        MessageContent::Text(t) => t.clone(),
        _ => String::new(),
    }
}

#[test]
fn conversation_push_and_last_user_message() {
    let mut c = Conversation::with_system_prompt("be brief".to_string());
    assert_eq!(c.len(), 1);
    assert!(!c.is_empty());
    assert_eq!(c.last_user_message(), None);
    c.push(Message::user("first".to_string()));
    c.push(Message::assistant_text("ok".to_string()));
    c.push(Message::user("second".to_string()));
    c.push(Message::tool_result("call-1".to_string(), "{\"r\":1}".to_string(), false));
    assert_eq!(c.last_user_message(), Some("second"));
    assert_eq!(c.messages().len(), 5);
    assert_eq!(c.messages()[0].role, Role::System);
    assert!(Conversation::new().is_empty());
    assert!(Conversation::default().is_empty());
}

#[test]
fn conversation_truncate_keeps_system_prompt() {
    let mut c = Conversation::with_system_prompt("sys".to_string());
    for i in 0..5 {
        c.push(Message::user(format!("m{}", i)));
    }
    c.truncate(3);
    let kept: Vec<String> = c.messages().iter().map(text_of).collect();
    assert_eq!(kept, vec!["sys", "m3", "m4"]);

    let mut d = Conversation::with_system_prompt("sys".to_string());
    d.push(Message::user("a".to_string()));
    d.push(Message::user("b".to_string()));
    d.truncate(1);
    let kept: Vec<String> = d.messages().iter().map(text_of).collect();
    assert_eq!(kept, vec!["b"]);
}

#[test]
fn conversation_truncate_without_system_prompt() {
    let mut c = Conversation::new();
    for i in 0..4 {
        c.push(Message::user(format!("m{}", i)));
    }
    c.truncate(10);
    assert_eq!(c.len(), 4);
    c.truncate(2);
    let kept: Vec<String> = c.messages().iter().map(text_of).collect();
    assert_eq!(kept, vec!["m2", "m3"]);
    c.truncate(0);
    assert!(c.is_empty());
}

#[test]
fn messages_and_tool_definitions() {
    let call = ToolCall { id: "c1".to_string(), name: "search".to_string(), arguments: "{\"q\":\"x\"}".to_string() };
    let m = Message::assistant_tool_calls(vec![call]);
    assert_eq!(m.role, Role::Assistant);
    match &m.content {
        MessageContent::ToolCalls(calls) => assert_eq!(calls[0].name, "search"),
        _ => panic!("expected tool calls"),
    }
    let d = ToolDefinition::new("search".to_string(), "Search".to_string());
    assert_eq!(d.parameters, "{\"properties\":{},\"type\":\"object\"}");
    assert!(!d.requires_confirmation);
    let d = d.with_parameters("{\"type\":\"object\"}".to_string()).with_confirmation();
    assert_eq!(d.parameters, "{\"type\":\"object\"}");
    assert!(d.requires_confirmation);
}

#[test]
fn llm_responses_and_scripted_client() {
    let r = LlmResponse::text("hi".to_string())
        .with_usage(TokenUsage { input_tokens: 3, output_tokens: 4 })
        .with_model("m1".to_string());
    assert_eq!(r.as_text(), Some("hi"));
    assert!(r.as_tool_calls().is_none());
    assert_eq!(r.usage.unwrap().total(), 7);
    assert_eq!(r.model.as_deref(), Some("m1"));
    let call = ToolCall { id: "1".to_string(), name: "t".to_string(), arguments: "{}".to_string() };
    let t = LlmResponse::tool_calls(vec![call]);
    assert!(t.as_text().is_none());
    assert_eq!(t.as_tool_calls().unwrap().len(), 1);

    let mut mock = MockLlmClient::new(vec![LlmResponse::text("one".to_string()), LlmResponse::text("two".to_string())]);
    assert_eq!(mock.chat().unwrap().as_text(), Some("one"));
    assert_eq!(mock.chat().unwrap().as_text(), Some("two"));
    let last = mock.chat().unwrap();
    match last.content {
        LlmResponseContent::Text(t) => assert_eq!(t, "No more scripted responses"),
        _ => panic!("expected text"),
    }
    assert_eq!(TokenUsage::default().total(), 0);
}
