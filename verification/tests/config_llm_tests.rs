use xclaw::config::{
    AgentConfig, AnthropicConfig, BindingConfig, ChannelConfig, ChatRoomConfig, Config, LlmConfig, OpenAiConfig,
    StorageConfig, default_anthropic_url, default_false, default_openai_url, default_true, env_placeholder,
};
use xclaw::llm::response::{AssistantPart, FinishReason, LLMResponse, join_all};
use xclaw::llm::{AnthropicClient, AnyLlmClient, LlmClient, MockLlmClient, OpenAiClient, create_llm_clients};
use xclaw::message::ToolCall;

fn llm(name: &str, anthropic: bool, openai: bool) -> LlmConfig {
    LlmConfig {
        name: name.to_string(),
        anthropic: if anthropic {
            Some(AnthropicConfig { token: "ak".to_string(), base_url: default_anthropic_url() })
        } else {
            None
        },
        openai: if openai {
            Some(OpenAiConfig { token: "ok".to_string(), base_url: default_openai_url() })
        } else {
            None
        },
        model: "m".to_string(),
    }
}

fn config(llms: Vec<LlmConfig>, storage: Option<StorageConfig>) -> Config {
    Config {
        llms,
        agents: vec![AgentConfig {
            name: "main".to_string(),
            llm: "a".to_string(),
            default_tools: default_true(),
            tools: vec![],
            default_skills: default_true(),
            skills: vec![],
        }],
        channels: vec![ChannelConfig { name: "ws".to_string(), channel_type: "websocket".to_string(), token: String::new() }],
        bindings: vec![],
        storage,
    }
}

#[test]
fn database_url_defaults() {
    assert_eq!(config(vec![], None).database_url(), "workspace/storage/xcraw.db");
    assert_eq!(config(vec![], Some(StorageConfig { database_url: None })).database_url(), "workspace/storage/xcraw.db");
    assert_eq!(config(vec![], Some(StorageConfig { database_url: Some("x.db".to_string()) })).database_url(), "x.db");
}

#[test]
fn binding_ids() {
    let mut b = BindingConfig {
        binding_id: BindingConfig::default_binding_id(),
        agent: "main".to_string(),
        channel: "discord".to_string(),
        require_mention: default_false(),
    };
    assert_eq!(b.get_binding_id(), "main@discord");
    b.binding_id = "custom".to_string();
    assert_eq!(b.get_binding_id(), "custom");
    let room = ChatRoomConfig { room_type: "group".to_string(), bindings: vec![b] };
    assert_eq!(room.bindings.len(), 1);
}

#[test]
fn defaults() {
    assert!(default_true());
    assert!(!default_false());
    assert_eq!(default_anthropic_url(), "https://api.anthropic.com");
    assert_eq!(default_openai_url(), "https://api.openai.com");
}

#[test]
fn environment_placeholders() {
    assert_eq!(env_placeholder("${API_KEY}").as_deref(), Some("API_KEY"));
    assert_eq!(env_placeholder("${}").as_deref(), Some(""));
    assert_eq!(env_placeholder("sk-123"), None);
    assert_eq!(env_placeholder("${OPEN"), None);
    assert_eq!(env_placeholder("$API}"), None);
}

#[test]
fn mock_client_replies() {
    let claim = MockLlmClient.complete("请认领任务 #a7b3c9d2").unwrap();
    assert!(claim.starts_with("我将认领任务 #a7b3c9d2。\n\n<tool_call>"));
    assert!(claim.contains("\"task_id\": \"a7b3c9d2\""));
    assert_eq!(MockLlmClient.complete("please claim task #a7b3c9d2").unwrap(), claim);
    assert_eq!(MockLlmClient.complete("claim task #other").unwrap(), "收到消息，正在处理中...");
    assert_eq!(MockLlmClient.complete("hello").unwrap(), "收到消息，正在处理中...");
    let a = AnthropicClient::new("k".to_string(), "u".to_string(), "m".to_string());
    assert_eq!(a.complete("hello").unwrap(), "收到消息，正在处理中...");
    let o = OpenAiClient::new("k".to_string(), "u".to_string(), "m".to_string());
    assert_eq!(LlmClient::complete(&o, "claim task #a7b3c9d2").unwrap(), claim);
}

#[test]
fn clients_by_name_later_wins() {
    let c = config(vec![llm("a", true, false), llm("b", false, true), llm("c", false, false), llm("a", false, true)], None);
    let clients = create_llm_clients(&c).unwrap();
    assert_eq!(clients.len(), 3);
    assert_eq!(clients[0].0, "a");
    assert!(matches!(clients[0].1, AnyLlmClient::OpenAi(_)));
    assert!(matches!(clients[1].1, AnyLlmClient::OpenAi(_)));
    assert!(matches!(clients[2].1, AnyLlmClient::Mock(_)));
    let both = config(vec![llm("x", true, true)], None);
    assert!(matches!(create_llm_clients(&both).unwrap()[0].1, AnyLlmClient::Anthropic(_)));
}

#[test]
fn responses_from_reply_parts() {
    let r = LLMResponse::new(vec![
        AssistantPart::Text("Hel".to_string()),
        AssistantPart::Text(String::new()),
        AssistantPart::Reasoning("think".to_string()),
        AssistantPart::Text("lo".to_string()),
        AssistantPart::Other,
    ]);
    assert_eq!(r.content.as_deref(), Some("Hello"));
    assert_eq!(r.thinking.as_deref(), Some("think"));
    assert_eq!(r.finish_reason, FinishReason::Stop);
    assert_eq!(r.input_tokens, 0);
    let r = LLMResponse::new(vec![AssistantPart::Reasoning("a".to_string()), AssistantPart::Reasoning("b".to_string())]);
    assert!(r.content.is_none());
    assert_eq!(r.thinking.as_deref(), Some("ab"));
    assert_eq!(r.finish_reason, FinishReason::Reasoning);
    let r = LLMResponse::new(vec![
        AssistantPart::Text("x".to_string()),
        AssistantPart::ToolCall(ToolCall { id: "1".to_string(), name: "t".to_string(), arguments: "{}".to_string() }),
    ]);
    assert_eq!(r.finish_reason, FinishReason::ToolUse);
    assert_eq!(r.tool_calls.len(), 1);
    let r = LLMResponse::new(vec![]);
    assert!(r.content.is_none() && r.thinking.is_none());
    assert_eq!(r.finish_reason, FinishReason::Stop);
    let r = LLMResponse::new(vec![AssistantPart::Text(String::new())]);
    assert!(r.content.is_none());
    assert_eq!(join_all(&vec!["a".to_string(), "b".to_string()]), "ab");
}
