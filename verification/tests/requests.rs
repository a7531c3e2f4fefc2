//! Reading requests: classification, privacy, cost, cache keys, translation, streams, headers.
use llmux::api::{
    self, asset_mime, check_auth, constant_time_eq, display_host, error_body, extract_user_text,
    feed_limit, header, header_bool, page_for, response_has_tool_call, trim_path, Page,
};
use llmux::cache::{
    cache_key, conversation_len, embedding_from_bytes, embedding_in, embedding_request,
    embedding_to_bytes, semantic_scope,
};
use llmux::classifier::{
    classify, classify_request, classify_with_llm, contains_any, parse_task_type,
    request_capabilities, requires_tools, TaskType,
};
use llmux::config::{LlmClassifierConfig, ModelEntry, ProviderConfig, ProviderKey, ProviderKind, RetryConfig, SemanticCacheConfig};
use llmux::cost::{estimate_cached_prefix_tokens, estimate_request_tokens};
use llmux::float::Real;
use llmux::json::Json;
use llmux::privacy::{contains_sensitive, request_is_sensitive, scan_surface};
use llmux::providers::{
    join_url, order_keys_weighted, resolve_keys, to_anthropic_request, to_openai_response,
    ProviderError, ResolvedKey, ANTHROPIC_DEFAULT_MAX_TOKENS,
};
use llmux::retry::{backoff_ms, backoff_varied, classify_status, Outcome};
use llmux::startup::{
    address, config_missing_text, config_source, eviction_interval, explicit_missing_text,
    log_place, parse_args, user_base, writes_config, Command, ConfigSource, LogPlace, UserBase,
};
use llmux::stream::{parse_stream_usage, sse_events};
use llmux::table::Table;
use llmux::text;
use std::hash::{Hash, Hasher};

fn json(s: &str) -> Json {
    Json::parse(s).expect("fixture parses")
}

fn double(x: f64) -> Real {
    Real::from_bits(x.to_bits())
}

fn user(content: &str) -> Json {
    let mut message = Json::object();
    message.set("role", Json::string("user"));
    message.set("content", Json::string(content));
    let mut body = Json::object();
    body.set("messages", Json::array(vec![message]));
    body
}

fn item<'a>(v: &'a Json, key: &str, i: usize) -> &'a Json {
    &v.array_at(key).unwrap()[i]
}

#[test]
fn classifies_each_task_type() {
    assert_eq!(classify("Erkläre mir die Architektur dieses Systems"), TaskType::Architecture);
    assert_eq!(classify("Bitte refactor diese function"), TaskType::CodeReview);
    assert_eq!(classify("Fasse zusammen, worum es geht"), TaskType::Summarize);
    assert_eq!(classify("Wie ist das Wetter heute?"), TaskType::SimpleText);
}

#[test]
fn detects_tool_definitions() {
    let body = json(r#"{ "tools": [{ "type": "function", "function": { "name": "x" } }] }"#);
    assert!(requires_tools(&body));
}

#[test]
fn detects_forced_tool_choice() {
    assert!(requires_tools(&json(r#"{ "tool_choice": "auto" }"#)));
    assert!(requires_tools(&json(r#"{ "tool_choice": { "type": "function" } }"#)));
    assert!(!requires_tools(&json(r#"{ "tool_choice": "none" }"#)));
}

#[test]
fn functions_count_as_tools() {
    assert!(requires_tools(&json(r#"{ "tools": [], "functions": [{ "name": "f" }] }"#)));
    assert!(requires_tools(&json(r#"{ "function_call": { "name": "f" } }"#)));
    assert!(requires_tools(&json(r#"{ "tool_choice": "none", "function_call": { "name": "f" } }"#)));
    assert!(requires_tools(&json(r#"{ "function_call": "auto" }"#)));
    assert!(!requires_tools(&json(r#"{ "function_call": "none" }"#)));
    assert!(!requires_tools(&json(r#"{ "tools": [], "functions": [] }"#)));
}

#[test]
fn detects_tool_role_in_history() {
    let body = json(r#"{ "messages": [{ "role": "tool", "content": "result" }] }"#);
    assert!(requires_tools(&body));
}

#[test]
fn plain_chat_requires_no_tools() {
    assert!(!requires_tools(&user("hi")));
}

#[test]
fn detects_json_schema_capability() {
    let body = json(
        r#"{
            "messages": [{ "role": "user", "content": "hi" }],
            "response_format": { "type": "json_schema", "json_schema": { "name": "x" } }
        }"#,
    );
    assert_eq!(request_capabilities(&body), vec!["json_schema"]);
}

#[test]
fn detects_vision_capability() {
    let body = json(
        r#"{
            "messages": [{ "role": "user", "content": [
                { "type": "text", "text": "what is this" },
                { "type": "image_url", "image_url": { "url": "data:..." } }
            ] }]
        }"#,
    );
    assert_eq!(request_capabilities(&body), vec!["vision"]);
}

#[test]
fn plain_request_has_no_extra_capabilities() {
    assert!(request_capabilities(&user("hi")).is_empty());
}

#[test]
fn parses_model_answer() {
    assert_eq!(parse_task_type("code_review"), Some(TaskType::CodeReview));
    assert_eq!(parse_task_type("Label: ARCHITECTURE"), Some(TaskType::Architecture));
    assert_eq!(parse_task_type("simple_text\n"), Some(TaskType::SimpleText));
    assert_eq!(parse_task_type("völliger Unsinn"), None);
}

fn llm(enabled: bool) -> LlmClassifierConfig {
    LlmClassifierConfig {
        enabled,
        base_url: "http://mock/".into(),
        model: "test".into(),
        api_key_env: None,
        timeout_ms: 2000,
    }
}

#[test]
fn llm_decides_task_type_when_enabled() {
    let reply = json(r#"{ "choices": [{ "message": { "content": "architecture" } }] }"#);
    let got = classify_with_llm(Some(&llm(true)), Some(&reply), "fix the bug in this function");
    assert_eq!(got, TaskType::Architecture);
    assert_eq!(classify("fix the bug in this function"), TaskType::CodeReview);
}

#[test]
fn falls_back_to_rules_on_llm_error() {
    let got = classify_with_llm(Some(&llm(true)), None, "fix the bug in this function");
    assert_eq!(got, TaskType::CodeReview);
}

#[test]
fn disabled_llm_uses_rules() {
    let reply = json(r#"{ "choices": [{ "message": { "content": "architecture" } }] }"#);
    let got = classify_with_llm(Some(&llm(false)), Some(&reply), "fix the bug");
    assert_eq!(got, TaskType::CodeReview);
}

#[test]
fn the_classifying_model_is_asked_at_its_endpoint() {
    let (url, body) = classify_request(&llm(true), "hello");
    assert_eq!(url, "http://mock/chat/completions");
    assert_eq!(body.text_at("model"), Some("test"));
    let last = body.array_at("messages").unwrap().last().unwrap();
    assert_eq!(last.text_at("content"), Some("hello"));
}

#[test]
fn keys_of_task_types_lead_back_to_them() {
    let keys = TaskType::all_keys();
    assert_eq!(keys.len(), 5);
    for task in [TaskType::SimpleText, TaskType::Summarize, TaskType::CodeReview, TaskType::Architecture] {
        assert_eq!(TaskType::from_key(task.as_key()), Some(task));
        assert!(keys.iter().any(|k| k == task.as_key()));
    }
    assert_eq!(TaskType::from_key("nope"), None);
}

#[test]
fn words_are_found_anywhere() {
    assert!(contains_any("a schema here", &["nothing", "schema"]));
    assert!(!contains_any("a schema here", &["nothing"]));
    assert!(!contains_any("a schema here", &[]));
}

fn patterns() -> Vec<String> {
    vec!["PRIVATE_KEY".to_string(), "secret".to_string()]
}

#[test]
fn matches_user_content() {
    assert!(request_is_sensitive(&user("hier ist mein PRIVATE_KEY"), &patterns(), false));
}

#[test]
fn matches_tool_role_content() {
    let body = json(r#"{ "messages": [{ "role": "tool", "content": "secret leaked" }] }"#);
    assert!(request_is_sensitive(&body, &patterns(), false));
}

#[test]
fn matches_tool_schema() {
    let body = json(
        r#"{
            "messages": [{ "role": "user", "content": "harmlos" }],
            "tools": [{
                "type": "function",
                "function": { "name": "deploy", "description": "uses secret token" }
            }]
        }"#,
    );
    assert!(request_is_sensitive(&body, &patterns(), false));
}

#[test]
fn ignores_system_content_by_default() {
    let body = json(
        r#"{ "messages": [{ "role": "system", "content": "interner PRIVATE_KEY im Prompt" }] }"#,
    );
    assert!(!request_is_sensitive(&body, &patterns(), false));
    assert!(request_is_sensitive(&body, &patterns(), true));
}

#[test]
fn no_patterns_never_matches() {
    assert!(!request_is_sensitive(&user("PRIVATE_KEY"), &[], false));
}

#[test]
fn patterns_match_in_any_case() {
    assert!(contains_sensitive("my Private_Key", &patterns()));
    assert!(contains_sensitive("SECRETS", &patterns()));
    assert!(!contains_sensitive("nothing", &patterns()));
    assert_eq!(scan_surface(&user("a"), false), "a\n");
}

#[test]
fn counts_message_content() {
    assert_eq!(estimate_request_tokens(&user("abcdefgh")), 2);
}

#[test]
fn includes_tool_schemas() {
    let no_tools = user("hi");
    let with_tools = json(
        r#"{
            "messages": [{ "role": "user", "content": "hi" }],
            "tools": [{ "type": "function", "function": { "name": "search", "description": "find things" } }]
        }"#,
    );
    assert!(estimate_request_tokens(&with_tools) > estimate_request_tokens(&no_tools));
}

#[test]
fn handles_content_parts_array() {
    let body = json(
        r#"{ "messages": [{ "role": "user", "content": [{ "type": "text", "text": "abcd" }] }] }"#,
    );
    assert_eq!(estimate_request_tokens(&body), 1);
}

#[test]
fn empty_body_is_zero() {
    assert_eq!(estimate_request_tokens(&json("{}")), 0);
    assert_eq!(estimate_cached_prefix_tokens(&json("{}")), 0);
}

#[test]
fn umlauts_count_as_their_bytes() {
    assert_eq!(estimate_request_tokens(&user("äöüß")), 2);
    assert_eq!(estimate_request_tokens(&user("äöüßx")), 3);
}

#[test]
fn the_last_message_is_not_part_of_the_prefix() {
    let body = json(
        r#"{ "messages": [
            { "role": "system", "content": "abcdefgh" },
            { "role": "user", "content": "abcdefghijklmnop" }
        ] }"#,
    );
    assert_eq!(estimate_cached_prefix_tokens(&body), 2);
    assert_eq!(estimate_request_tokens(&body), 6);
}

fn model(provider: &str, name: &str) -> ModelEntry {
    ModelEntry {
        provider: provider.into(),
        model: name.into(),
        tier: 1,
        context: 8000,
        supports_tools: false,
        capabilities: Vec::new(),
        input_per_mtok: double(0.0),
        output_per_mtok: double(0.0),
        strip_params: Vec::new(),
    }
}

#[test]
fn stable_across_reordered_keys() {
    let m = model("openai", "gpt");
    let a = json(r#"{ "temperature": 0.2, "messages": [{ "role": "user", "content": "hi" }] }"#);
    let b = json(r#"{ "messages": [{ "role": "user", "content": "hi" }], "temperature": 0.2 }"#);
    assert_eq!(cache_key(&m, &a), cache_key(&m, &b));
}

#[test]
fn volatile_fields_do_not_affect_key() {
    let m = model("openai", "gpt");
    let a = json(
        r#"{ "messages": [{ "role": "user", "content": "hi" }], "stream": true, "user": "alice" }"#,
    );
    assert_eq!(cache_key(&m, &a), cache_key(&m, &user("hi")));
}

#[test]
fn isolated_per_model() {
    let body = user("hi");
    assert_ne!(
        cache_key(&model("openai", "gpt"), &body),
        cache_key(&model("openai", "gpt-mini"), &body)
    );
    assert_ne!(cache_key(&model("openai", "gpt"), &body), cache_key(&model("azure", "gpt"), &body));
}

#[test]
fn different_content_differs() {
    let m = model("openai", "gpt");
    assert_ne!(cache_key(&m, &user("hi")), cache_key(&m, &user("bye")));
}

#[test]
fn conversation_len_counts_messages() {
    assert_eq!(conversation_len(&json(r#"{ "messages": [{}, {}, {}] }"#)), 3);
    assert_eq!(conversation_len(&json("{}")), 0);
}

#[test]
fn keys_name_the_model_and_end_in_a_digest() {
    let key = cache_key(&model("openai", "gpt"), &user("hi"));
    let digest = key.strip_prefix("openai/gpt:").unwrap();
    assert_eq!(digest.len(), 16);
    assert!(digest.chars().all(|c| c.is_ascii_hexdigit() && !c.is_ascii_uppercase()));
    let mut h = std::collections::hash_map::DefaultHasher::new();
    r#"{"messages":[{"content":"hi","role":"user"}]}"#.hash(&mut h);
    assert_eq!(digest, format!("{:016x}", h.finish()));
    assert_eq!(semantic_scope(&model("p", "m")), "p/m");
}

#[test]
fn embedding_roundtrip() {
    let v: Vec<u32> = [0.5f32, -1.25, 3.0, 0.0].iter().map(|f| f.to_bits()).collect();
    let bytes = embedding_to_bytes(&v);
    assert_eq!(&bytes[0..4], &0.5f32.to_le_bytes());
    assert_eq!(embedding_from_bytes(&bytes), v);
    let mut torn = bytes;
    torn.push(1);
    assert_eq!(embedding_from_bytes(&torn), v);
}

#[test]
fn fetch_embedding_parses_response() {
    let cfg = SemanticCacheConfig {
        enabled: true,
        base_url: "http://mock/".into(),
        model: "e".into(),
        api_key_env: None,
        timeout_ms: 2000,
        threshold: double(0.85),
    };
    let (url, body) = embedding_request(&cfg, "hallo");
    assert_eq!(url, "http://mock/embeddings");
    assert_eq!(body.text(), r#"{"input":"hallo","model":"e"}"#);
    let reply = json(r#"{ "data": [{ "embedding": [0.1, 0.2, 0.3] }] }"#);
    let got: Vec<String> = embedding_in(&reply).unwrap().iter().map(|x| x.text()).collect();
    assert_eq!(got, vec!["0.1", "0.2", "0.3"]);
    assert!(embedding_in(&json("{}")).is_none());
}

#[test]
fn request_extracts_system_and_messages() {
    let body = json(
        r#"{
            "model": "ignored",
            "max_tokens": 100,
            "messages": [
                { "role": "system", "content": "You are helpful." },
                { "role": "user", "content": "Hi" },
                { "role": "assistant", "content": "Hello" }
            ]
        }"#,
    );
    let out = to_anthropic_request(&body, "model-x");
    assert_eq!(out.text_at("model"), Some("model-x"));
    assert_eq!(out.uint_at("max_tokens"), Some(100));
    assert_eq!(out.text_at("system"), Some("You are helpful."));
    let msgs = out.array_at("messages").unwrap();
    assert_eq!(msgs.len(), 2);
    assert_eq!(msgs[0].text_at("role"), Some("user"));
    assert_eq!(msgs[1].text_at("role"), Some("assistant"));
}

#[test]
fn request_defaults_max_tokens_and_maps_tools() {
    let body = json(
        r#"{
            "messages": [{ "role": "user", "content": [{ "type": "text", "text": "hi" }] }],
            "stop": ["END"],
            "tools": [{ "type": "function", "function": { "name": "search", "description": "find", "parameters": { "type": "object" } } }]
        }"#,
    );
    let out = to_anthropic_request(&body, "model-x");
    assert_eq!(out.uint_at("max_tokens"), Some(ANTHROPIC_DEFAULT_MAX_TOKENS));
    assert_eq!(item(&out, "stop_sequences", 0).as_str(), Some("END"));
    assert_eq!(item(&out, "tools", 0).text_at("name"), Some("search"));
    assert!(item(&out, "tools", 0).get("input_schema").is_some());
    assert_eq!(item(&out, "messages", 0).text_at("content"), Some("hi"));
}

#[test]
fn response_maps_text_usage_and_finish() {
    let resp = json(
        r#"{
            "id": "msg_123",
            "model": "model-x",
            "stop_reason": "end_turn",
            "content": [{ "type": "text", "text": "Hello there" }],
            "usage": { "input_tokens": 12, "output_tokens": 7 }
        }"#,
    );
    let out = to_openai_response(&resp, 1700000000);
    assert_eq!(out.text_at("object"), Some("chat.completion"));
    assert_eq!(out.text_at("id"), Some("msg_123"));
    let choice = item(&out, "choices", 0);
    assert_eq!(choice.get("message").unwrap().text_at("content"), Some("Hello there"));
    assert_eq!(choice.text_at("finish_reason"), Some("stop"));
    let usage = out.get("usage").unwrap();
    assert_eq!(usage.uint_at("prompt_tokens"), Some(12));
    assert_eq!(usage.uint_at("completion_tokens"), Some(7));
    assert_eq!(usage.uint_at("total_tokens"), Some(19));
    assert_eq!(out.uint_at("created"), Some(1700000000));
}

#[test]
fn request_maps_assistant_tool_calls_to_tool_use() {
    let body = json(
        r#"{
            "messages": [
                { "role": "user", "content": "search x" },
                { "role": "assistant", "content": "", "tool_calls": [
                    { "id": "call_1", "type": "function", "function": { "name": "search", "arguments": "{\"q\":\"x\"}" } }
                ] }
            ]
        }"#,
    );
    let out = to_anthropic_request(&body, "model-x");
    let msg = item(&out, "messages", 1);
    assert_eq!(msg.text_at("role"), Some("assistant"));
    let block = item(msg, "content", 0);
    assert_eq!(block.text_at("type"), Some("tool_use"));
    assert_eq!(block.text_at("id"), Some("call_1"));
    assert_eq!(block.text_at("name"), Some("search"));
    assert_eq!(block.get("input").unwrap().text_at("q"), Some("x"));
}

#[test]
fn request_maps_tool_role_to_tool_result() {
    let body = json(
        r#"{
            "messages": [
                { "role": "assistant", "content": "", "tool_calls": [
                    { "id": "call_1", "type": "function", "function": { "name": "search", "arguments": "{}" } }
                ] },
                { "role": "tool", "tool_call_id": "call_1", "content": "result text" }
            ]
        }"#,
    );
    let out = to_anthropic_request(&body, "model-x");
    let last = out.array_at("messages").unwrap().last().unwrap();
    assert_eq!(last.text_at("role"), Some("user"));
    let block = item(last, "content", 0);
    assert_eq!(block.text_at("type"), Some("tool_result"));
    assert_eq!(block.text_at("tool_use_id"), Some("call_1"));
    assert_eq!(block.text_at("content"), Some("result text"));
}

#[test]
fn request_preserves_text_with_tool_use_and_merges_parallel_results() {
    let body = json(
        r#"{
            "messages": [
                { "role": "assistant", "content": "let me check", "tool_calls": [
                    { "id": "a", "type": "function", "function": { "name": "f", "arguments": "{}" } },
                    { "id": "b", "type": "function", "function": { "name": "g", "arguments": "{}" } }
                ] },
                { "role": "tool", "tool_call_id": "a", "content": "ra" },
                { "role": "tool", "tool_call_id": "b", "content": "rb" }
            ]
        }"#,
    );
    let out = to_anthropic_request(&body, "model-x");
    let msgs = out.array_at("messages").unwrap();
    assert_eq!(msgs[0].text_at("role"), Some("assistant"));
    assert_eq!(item(&msgs[0], "content", 0).text_at("type"), Some("text"));
    assert_eq!(item(&msgs[0], "content", 0).text_at("text"), Some("let me check"));
    assert_eq!(item(&msgs[0], "content", 1).text_at("type"), Some("tool_use"));
    assert_eq!(item(&msgs[0], "content", 2).text_at("type"), Some("tool_use"));
    assert_eq!(msgs.len(), 2);
    assert_eq!(msgs[1].text_at("role"), Some("user"));
    assert_eq!(msgs[1].array_at("content").unwrap().len(), 2);
    assert_eq!(item(&msgs[1], "content", 0).text_at("tool_use_id"), Some("a"));
    assert_eq!(item(&msgs[1], "content", 1).text_at("tool_use_id"), Some("b"));
}

#[test]
fn response_maps_tool_use() {
    let resp = json(
        r#"{
            "id": "msg_1",
            "model": "model-x",
            "stop_reason": "tool_use",
            "content": [
                { "type": "text", "text": "" },
                { "type": "tool_use", "id": "tu_1", "name": "search", "input": { "q": "x" } }
            ],
            "usage": { "input_tokens": 5, "output_tokens": 3 }
        }"#,
    );
    let out = to_openai_response(&resp, 0);
    let choice = item(&out, "choices", 0);
    assert_eq!(choice.text_at("finish_reason"), Some("tool_calls"));
    let call = item(choice.get("message").unwrap(), "tool_calls", 0);
    let function = call.get("function").unwrap();
    assert_eq!(function.text_at("name"), Some("search"));
    assert_eq!(function.text_at("arguments"), Some("{\"q\":\"x\"}"));
}

#[test]
fn turns_keep_every_block_in_order() {
    let body = json(
        r#"{
            "messages": [
                { "role": "system", "content": "be brief" },
                { "role": "user", "content": "one" },
                { "role": "user", "content": "two" },
                { "role": "assistant", "content": "three" },
                { "role": "user", "content": "" },
                { "role": "assistant", "content": "four" }
            ]
        }"#,
    );
    let out = to_anthropic_request(&body, "model-x");
    let msgs = out.array_at("messages").unwrap();
    assert_eq!(msgs.len(), 2);
    let texts: Vec<&str> = msgs
        .iter()
        .flat_map(|m| m.array_at("content").unwrap().iter())
        .map(|b| b.text_at("text").unwrap())
        .collect();
    assert_eq!(texts, vec!["one", "two", "three", "four"]);
    assert_eq!(out.text_at("system"), Some("be brief"));
}

#[test]
fn answered_calls_come_back_as_the_blocks_they_were() {
    let block = r#"{"id":"tu_1","input":{"n":-3,"q":["x"]},"name":"search","type":"tool_use"}"#;
    let reply = json(&format!("{{\"content\":[{block}]}}"));
    let out = to_openai_response(&reply, 0);
    let mut body = Json::object();
    body.set(
        "messages",
        Json::array(vec![item(&out, "choices", 0).get("message").unwrap().copy()]),
    );
    let sent = to_anthropic_request(&body, "model-x");
    assert_eq!(item(item(&sent, "messages", 0), "content", 0).text(), block);
}

#[test]
fn calls_of_tools_come_back_as_they_were_sent() {
    let body = json(
        r#"{ "messages": [{ "role": "assistant", "tool_calls": [
            { "id": "call_7", "type": "function", "function": { "name": "search", "arguments": "{ \"q\": [1, 2] }" } }
        ] }] }"#,
    );
    let sent = to_anthropic_request(&body, "model-x");
    let mut reply = Json::object();
    reply.set("content", item(&sent, "messages", 0).get("content").unwrap().copy());
    let out = to_openai_response(&reply, 0);
    let call = item(item(&out, "choices", 0).get("message").unwrap(), "tool_calls", 0);
    assert_eq!(call.text_at("id"), Some("call_7"));
    let function = call.get("function").unwrap();
    assert_eq!(function.text_at("name"), Some("search"));
    assert_eq!(function.text_at("arguments"), Some("{\"q\":[1,2]}"));
}

fn keys(weights: &[f64]) -> Vec<ResolvedKey> {
    weights.iter().map(|w| ResolvedKey { auth: Some("k".into()), weight: double(*w) }).collect()
}

#[test]
fn order_puts_weighted_choice_first() {
    let ordered = order_keys_weighted(keys(&[3.0, 1.0]), 1);
    assert_eq!(ordered.len(), 2);
    assert_eq!(ordered[0].weight.bits, 1.0f64.to_bits());
    assert_eq!(ordered[1].weight.bits, 3.0f64.to_bits());
    let same = order_keys_weighted(keys(&[3.0, 1.0]), 0);
    assert_eq!(same[0].weight.bits, 3.0f64.to_bits());
}

fn keyed(keys: Vec<ProviderKey>, api_key_env: Option<&str>) -> ProviderConfig {
    ProviderConfig {
        enabled: true,
        base_url: "http://x".into(),
        api_key_env: api_key_env.map(|s| s.to_string()),
        keys,
        local: false,
        kind: ProviderKind::Openai,
        strip_params: Vec::new(),
        prompt_caching: false,
        cache_billed_fraction: double(0.1),
    }
}

#[test]
fn keys_are_resolved_from_the_environment() {
    let mut env = Table::new();
    env.insert("A", "a".to_string());
    env.insert("B", "b".to_string());
    let slot = |name: &str, weight: f64, allow: Vec<String>, deny: Vec<String>| ProviderKey {
        env: name.into(),
        weight: double(weight),
        allow,
        deny,
    };
    let several = keyed(
        vec![
            slot("A", 2.0, vec!["m".into()], vec![]),
            slot("B", -1.0, vec![], vec!["n".into()]),
            slot("C", 1.0, vec![], vec![]),
        ],
        Some("A"),
    );
    let m = resolve_keys(&several, "m", &env);
    let auth: Vec<Option<&str>> = m.iter().map(|k| k.auth.as_deref()).collect();
    assert_eq!(auth, vec![Some("a"), Some("b")]);
    assert_eq!(m[1].weight.bits, 0.0f64.to_bits());
    assert!(resolve_keys(&several, "n", &env).is_empty());
    let single = resolve_keys(&keyed(vec![], Some("A")), "m", &env);
    assert_eq!(single[0].auth.as_deref(), Some("a"));
    assert!(resolve_keys(&keyed(vec![], Some("C")), "m", &env).is_empty());
    let open = resolve_keys(&keyed(vec![], None), "m", &env);
    assert_eq!(open.len(), 1);
    assert_eq!(open[0].auth, None);
}

#[test]
fn urls_are_joined_with_one_slash() {
    assert_eq!(join_url("http://x/v1//", "/messages"), "http://x/v1/messages");
    assert_eq!(join_url("http://x/v1", "/messages"), "http://x/v1/messages");
    assert_eq!(ProviderError::Http("refused".into()).message(), "HTTP-Fehler: refused");
}

#[test]
fn backoff_grows_and_is_capped() {
    let cfg = RetryConfig { max_retries: 5, backoff_initial_ms: 500, backoff_max_ms: 8000 };
    let b0 = backoff_ms(&cfg, 0);
    assert!((400..=600).contains(&b0), "attempt 0 außerhalb Jitter-Band: {b0}");
    let capped = backoff_ms(&cfg, 20);
    assert!(capped >= (8000.0 * 0.8) as u64, "untere Jitter-Grenze verletzt: {capped}");
    assert!(capped <= (8000.0 * 1.2) as u64, "Deckel verletzt: {capped}");
    assert_eq!(backoff_varied(&cfg, 0, 0), 400);
    assert_eq!(backoff_varied(&cfg, 1, 200), 1000);
    assert_eq!(backoff_varied(&cfg, 2, 399), 2398);
    assert_eq!(backoff_varied(&cfg, 20, 0), 6400);
    let odd = RetryConfig { max_retries: 5, backoff_initial_ms: 7000, backoff_max_ms: 8000 };
    assert_eq!(backoff_varied(&odd, 0, 350), 8049);
}

#[test]
fn pauses_are_multiplied_as_doubles() {
    let mut base: u64 = 1;
    for step in 0..5000_u32 {
        base = base.wrapping_mul(6364136223846793005).wrapping_add(1442695040888963407);
        let initial = base >> (step % 64);
        let nanos = step.wrapping_mul(7919);
        let cfg =
            RetryConfig { max_retries: 0, backoff_initial_ms: initial, backoff_max_ms: u64::MAX };
        let factor = 0.8 + (nanos % 400) as f64 / 1000.0;
        assert_eq!(backoff_varied(&cfg, 0, nanos), (initial as f64 * factor) as u64, "{initial}");
    }
    for nanos in 0..400_u32 {
        let cfg = RetryConfig { max_retries: 0, backoff_initial_ms: 7000, backoff_max_ms: u64::MAX };
        let factor = 0.8 + nanos as f64 / 1000.0;
        assert_eq!(backoff_varied(&cfg, 0, nanos), (7000.0 * factor) as u64, "{nanos}");
    }
}

#[test]
fn status_classification() {
    assert!(matches!(classify_status(500), Outcome::Transient));
    assert!(matches!(classify_status(408), Outcome::Transient));
    assert!(matches!(classify_status(429), Outcome::KeyExhausted));
    assert!(matches!(classify_status(401), Outcome::KeyExhausted));
    assert!(matches!(classify_status(402), Outcome::KeyExhausted));
    assert!(matches!(classify_status(400), Outcome::BadRequest));
}

#[test]
fn classifies_by_latest_user_message_not_system_prefix() {
    let body = json(
        r#"{
            "messages": [
                { "role": "system", "content": "You are an expert in software architecture, database schema design, scalability and security trade-offs. Tools available: ..." },
                { "role": "user", "content": "fix the bug in this function" }
            ]
        }"#,
    );
    let user_text = extract_user_text(&body, 1);
    assert_eq!(classify(&user_text), TaskType::CodeReview);
    assert_eq!(classify(&extract_user_text(&body, 99)), TaskType::CodeReview);
}

#[test]
fn extract_user_text_respects_message_count() {
    let body = json(
        r#"{
            "messages": [
                { "role": "user", "content": "first" },
                { "role": "assistant", "content": "reply" },
                { "role": "user", "content": "second" }
            ]
        }"#,
    );
    assert_eq!(extract_user_text(&body, 1).trim(), "second");
    let two = extract_user_text(&body, 2);
    assert!(two.contains("first") && two.contains("second"));
    assert_eq!(extract_user_text(&body, 0), "second\n");
}

#[test]
fn constant_time_eq_matches_semantics() {
    assert!(constant_time_eq(b"secret-key", b"secret-key"));
    assert!(!constant_time_eq(b"secret-key", b"secret-keX"));
    assert!(!constant_time_eq(b"short", b"longer-key"));
    assert!(constant_time_eq(b"", b""));
}

#[test]
fn detects_tool_call_in_response() {
    assert!(response_has_tool_call(&json(
        r#"{ "choices": [{ "finish_reason": "tool_calls", "message": {} }] }"#
    )));
    assert!(response_has_tool_call(&json(
        r#"{ "choices": [{ "finish_reason": "stop", "message": { "tool_calls": [{ "id": "x" }] } }] }"#
    )));
    assert!(!response_has_tool_call(&json(
        r#"{ "choices": [{ "finish_reason": "stop", "message": { "content": "hi" } }] }"#
    )));
}

#[test]
fn parses_usage_from_sse_stream() {
    let sse = "data: {\"choices\":[{\"delta\":{\"content\":\"hi\"}}]}\n\n\
               data: {\"choices\":[{\"delta\":{},\"finish_reason\":\"stop\"}]}\n\n\
               data: {\"choices\":[],\"usage\":{\"prompt_tokens\":12,\"completion_tokens\":7}}\n\n\
               data: [DONE]\n\n";
    let usage = parse_stream_usage(&sse.as_bytes().to_vec());
    assert_eq!(usage.prompt, Some(12));
    assert_eq!(usage.completion, Some(7));
    assert_eq!(usage.finish.as_deref(), Some("stop"));
}

#[test]
fn parse_usage_tolerates_missing_usage() {
    let sse = "data: {\"choices\":[{\"delta\":{\"content\":\"hi\"}}]}\n\ndata: [DONE]\n\n";
    let usage = parse_stream_usage(&sse.as_bytes().to_vec());
    assert_eq!(usage.prompt, None);
    assert_eq!(usage.completion, None);
}

#[test]
fn events_are_read_line_by_line() {
    let sse = "event: x\r\n  data:{\"a\":1}\r\nnoise\ndata: broken{\ndata: {\"b\":2}";
    let events: Vec<String> = sse_events(sse).iter().map(|e| e.text()).collect();
    assert_eq!(events, vec![r#"{"a":1}"#, r#"{"b":2}"#]);
    let mut bytes = b"data: {\"usage\":{\"prompt_tokens\":1}}\n".to_vec();
    bytes.push(0xff);
    assert_eq!(parse_stream_usage(&bytes).prompt, Some(1));
}

#[test]
fn headers_are_read_by_name() {
    let mut h: Table<String> = Table::new();
    h.insert("x-llmux-no-cache", "yes".to_string());
    h.insert("x-llmux-tool", "aider".to_string());
    assert_eq!(header(&h, "x-llmux-tool").as_deref(), Some("aider"));
    assert_eq!(header(&h, "missing"), None);
    assert!(header_bool(&h, "x-llmux-no-cache"));
    assert!(!header_bool(&h, "x-llmux-tool"));
    assert!(!header_bool(&h, "missing"));
}

#[test]
fn errors_have_a_body() {
    assert_eq!(
        error_body("nein").text(),
        r#"{"error":{"message":"nein","type":"llmux_error"}}"#
    );
}

#[test]
fn assets_are_served_with_their_type() {
    assert_eq!(asset_mime("index.html"), "text/html; charset=utf-8");
    assert_eq!(asset_mime("_astro/x.min.js"), "text/javascript; charset=utf-8");
    assert_eq!(asset_mime("x.map"), "application/json");
    assert_eq!(asset_mime("x.woff2"), "font/woff2");
    assert_eq!(asset_mime("css"), "text/css; charset=utf-8");
    assert_eq!(asset_mime("x."), "application/octet-stream");
    assert_eq!(trim_path("//a/b"), "a/b");
    assert_eq!(page_for("", false), Page::Index);
    assert_eq!(page_for("a.js", true), Page::File);
    assert_eq!(page_for("a.js", false), Page::NotFound);
    assert_eq!(page_for("settings", false), Page::Index);
}

#[test]
fn the_feed_is_limited() {
    assert_eq!(feed_limit(None), 50);
    assert_eq!(feed_limit(Some(0)), 1);
    assert_eq!(feed_limit(Some(2)), 2);
    assert_eq!(feed_limit(Some(9999)), 500);
    assert_eq!(display_host("0.0.0.0"), "localhost");
    assert_eq!(display_host("[::]"), "localhost");
    assert_eq!(display_host("10.0.0.1"), "10.0.0.1");
}

#[test]
fn texts_are_clipped_at_character_boundaries() {
    assert_eq!(text::truncate("abc", 3), "abc");
    assert_eq!(text::truncate("abcd", 3), "…");
    assert_eq!(text::truncate("abcdefgh", 5), "ab…");
    assert_eq!(text::truncate("aäbcdef", 5), "a…");
    assert_eq!(text::truncate("aäb", 2), "a");
    assert_eq!(text::truncate("äb", 1), "");
    assert_eq!(text::truncate("abcd", 1), "a");
    for max in 0..12 {
        assert!(text::truncate("äöü€abc", max).len() <= max);
    }
    assert_eq!(text::number(0), "0");
    assert_eq!(text::number(u64::MAX), "18446744073709551615");
}

#[test]
fn whole_numbers_read_back_exactly() {
    let t = r#"{"a":-9223372036854775808,"b":[18446744073709551615,0,-1]}"#;
    assert_eq!(json(t).text(), t);
    assert_eq!(json("-5").text(), "-5");
}

#[test]
fn the_reserved_key_does_not_read_back() {
    let mut v = Json::object();
    v.set("$serde_json::private::RawValue", Json::string("1"));
    assert_eq!(v.text(), r#"{"$serde_json::private::RawValue":"1"}"#);
    assert_eq!(json(&v.text()).as_u64(), Some(1));
    v.set("$serde_json::private::RawValue", Json::string("x"));
    assert!(Json::parse(&v.text()).is_none());
}

#[test]
fn json_texts_read_back() {
    let t = r#"{"a":[1,null,true,"x\n"],"b":{"c":-2.5}}"#;
    let v = json(t);
    assert_eq!(v.text(), t);
    assert_eq!(v.copy_without("a").text(), r#"{"b":{"c":-2.5}}"#);
    assert!(Json::parse("{").is_none());
    assert_eq!(json("7").as_u64(), Some(7));
    assert_eq!(json("-7").as_u64(), None);
    assert_eq!(json("7.0").as_u64(), None);
}

#[test]
fn json_members_are_found_by_the_first_item_too() {
    let v = json(r#"{"choices":{"0":{"finish_reason":"tool_calls"}}}"#);
    assert!(response_has_tool_call(&v));
    assert_eq!(api::extract_user_text(&json(r#"{"messages":{"0":1}}"#), 1), "");
}

fn words(ws: &[&str]) -> Vec<String> {
    ws.iter().map(|w| w.to_string()).collect()
}

#[test]
fn arguments_are_parsed() {
    assert_eq!(parse_args(&words(&[])), Command::Serve { demo: false });
    assert_eq!(parse_args(&words(&["--demo"])), Command::Serve { demo: true });
    assert_eq!(parse_args(&words(&["-h", "--demo"])), Command::Help);
    assert_eq!(parse_args(&words(&["help"])), Command::Help);
    assert_eq!(
        parse_args(&words(&["init", "--force"])),
        Command::Init { demo: false, force: true }
    );
    assert_eq!(parse_args(&words(&["x", "init"])), Command::Serve { demo: false });
}

#[test]
fn files_are_found_in_order() {
    assert_eq!(user_base(Some(true), true), UserBase::Xdg);
    assert_eq!(user_base(Some(false), true), UserBase::Home);
    assert_eq!(user_base(None, false), UserBase::Unknown);
    assert_eq!(config_source(Some(true), true, None), ConfigSource::Explicit);
    assert_eq!(config_source(Some(false), true, Some(true)), ConfigSource::ExplicitMissing);
    assert_eq!(config_source(None, true, Some(true)), ConfigSource::Local);
    assert_eq!(config_source(None, false, Some(true)), ConfigSource::User);
    assert_eq!(config_source(None, false, Some(false)), ConfigSource::Missing);
    assert_eq!(log_place(true, true, true), LogPlace::Explicit);
    assert_eq!(log_place(false, true, true), LogPlace::UserData);
    assert_eq!(log_place(false, true, false), LogPlace::Local);
    assert_eq!(log_place(false, false, true), LogPlace::Local);
    assert!(writes_config(false, false));
    assert!(!writes_config(true, false));
    assert!(writes_config(true, true));
    assert_eq!(
        explicit_missing_text("/a"),
        "LLMUX_CONFIG zeigt auf '/a', aber die Datei existiert nicht"
    );
    assert_eq!(
        config_missing_text(Some("/h"), Some("/h/llmux.yaml")),
        "Keine Konfiguration gefunden. Gesucht: ./config/llmux.yaml und /h/llmux.yaml.\n\
         Lege eine an, z. B.:\n  mkdir -p /h\n  cp config/llmux.example.yaml /h/llmux.yaml\n\
         oder setze LLMUX_CONFIG=/pfad/zur/llmux.yaml."
    );
    assert!(config_missing_text(None, None).contains("mkdir -p ~/.config/llmux\n"));
    assert_eq!(address("localhost", 3456), "localhost:3456");
}

#[test]
fn evictions_are_at_least_a_second_apart() {
    let mut cache = llmux::config::CacheConfig::default();
    assert_eq!(eviction_interval(&cache), None);
    cache.enabled = true;
    assert_eq!(eviction_interval(&cache), Some(300));
    cache.eviction_interval_seconds = 0;
    assert_eq!(eviction_interval(&cache), Some(1));
}

#[test]
fn no_key_admits_everyone() {
    let mut h: Table<String> = Table::new();
    let open = admitting("");
    assert!(check_auth(&open, &h));
    let closed = admitting("ä");
    assert!(!check_auth(&closed, &h));
    h.insert("authorization", "Bearer ä".to_string());
    assert!(check_auth(&closed, &h));
    h.insert("authorization", "bearer ä".to_string());
    assert!(!check_auth(&closed, &h));
}

fn admitting(key: &str) -> llmux::config::Config {
    llmux::config::Config {
        server: llmux::config::ServerConfig { host: "h".into(), port: 0 },
        auth: llmux::config::AuthConfig { llmux_key: key.into() },
        budgets: Default::default(),
        privacy: Default::default(),
        providers: Table::new(),
        models: Vec::new(),
        classification: Table::new(),
        aliases: Table::new(),
        projects: Table::new(),
        retry: RetryConfig::default(),
        routing: Default::default(),
        cache: Default::default(),
        classifier: Default::default(),
    }
}

#[test]
fn doubles_are_ordered_by_their_bits() {
    let nan = double(f64::NAN);
    assert!(double(-1.0).below(double(1.0)));
    assert!(!double(1.0).below(double(1.0)));
    assert!(!double(-0.0).below(double(0.0)));
    assert!(double(-0.0).at_most(double(0.0)));
    assert!(double(-2.0).below(double(-1.0)));
    assert!(!nan.below(double(1.0)) && !double(1.0).below(nan) && !nan.at_most(nan));
    assert!(nan.not_a_number() && !double(f64::INFINITY).not_a_number());
    assert_eq!(double(2.0).max(double(3.0)).bits, 3.0f64.to_bits());
    assert_eq!(nan.max(double(3.0)).bits, 3.0f64.to_bits());
    assert_eq!(double(2.0).min(nan).bits, 2.0f64.to_bits());
    assert_eq!(Real::one().bits, 1.0f64.to_bits());
    assert_eq!(Real::infinity().bits, f64::INFINITY.to_bits());
}
