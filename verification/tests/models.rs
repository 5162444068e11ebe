use bnu_core::models::{api_root, sse_payload, truncate, ChatMessage, ChatStreamAccum, ChatStreamEvent, EndpointConfig, ModelConfig};

#[test]
fn api_root_normalization() {
    assert_eq!(api_root("https://chatapi.bnu.edu.cn/"), "https://chatapi.bnu.edu.cn/v1");
    assert_eq!(api_root("https://chatapi.bnu.edu.cn/v1"), "https://chatapi.bnu.edu.cn/v1");
    assert_eq!(api_root("https://chatapi.bnu.edu.cn/bnuapi"), "https://chatapi.bnu.edu.cn/bnuapi/v1");
    assert_eq!(api_root("https://chatapi.bnu.edu.cn/bnuapi/v1/"), "https://chatapi.bnu.edu.cn/bnuapi/v1");
    assert_eq!(api_root("http://127.0.0.1:8080/v1/"), "http://127.0.0.1:8080/v1");
}

#[test]
fn sse_payload_only_matches_data_lines() {
    assert_eq!(sse_payload("data: {\"a\":1}\r").as_deref(), Some("{\"a\":1}"));
    assert_eq!(sse_payload("event: ping"), None);
    assert_eq!(sse_payload(": comment"), None);
}

#[test]
fn stream_accum_collects_deltas_reasoning_and_usage() {
    let mut acc = ChatStreamAccum::default();
    assert_eq!(acc.feed(" {\"choices\":[{\"delta\":{\"content\":\"你好\"}}]} "), Some(ChatStreamEvent::Delta("你好".into())));
    assert_eq!(
        acc.feed("{\"choices\":[{\"delta\":{\"reasoning_content\":\"想想\"}}]}"),
        Some(ChatStreamEvent::Reasoning("想想".into()))
    );
    assert_eq!(acc.feed("{\"choices\":[{\"delta\":{},\"finish_reason\":\"stop\"}]}"), None);
    assert_eq!(acc.feed("{\"choices\":[],\"usage\":{\"completion_tokens\":42}}"), None);
    assert_eq!(acc.feed("[DONE]"), None);
    assert_eq!(acc.feed("  "), None);
    assert_eq!(acc.feed("{oops"), None);

    assert!(acc.done);
    let reply = acc.into_reply();
    assert_eq!(reply.content, "你好");
    assert_eq!(reply.reasoning.as_deref(), Some("想想"));
    assert_eq!(reply.finish_reason, "stop");
    assert_eq!(reply.completion_tokens, Some(42));
}

#[test]
fn stream_accum_falls_back_to_reasoning_when_content_empty() {
    let mut acc = ChatStreamAccum::default();
    acc.feed("{\"choices\":[{\"delta\":{\"reasoning_content\":\"只有思考\"}}]}");
    let reply = acc.into_reply();
    assert!(reply.content.is_empty());
    assert_eq!(reply.reasoning.as_deref(), Some("只有思考"));
    assert_eq!(reply.finish_reason, "stop");
}

#[test]
fn merge_keeps_existing_key_and_supports_delete() {
    let mut cfg = ModelConfig {
        chat: Some(EndpointConfig {
            base_url: "https://a".into(),
            model: "m1".into(),
            params: serde_json::Value::Null,
            api_key: Some("k1".into()),
        }),
        ..Default::default()
    };
    let incoming = ModelConfig {
        chat: Some(EndpointConfig {
            base_url: "https://a".into(),
            model: "m2".into(),
            params: serde_json::Value::Null,
            api_key: None,
        }),
        ..Default::default()
    };
    cfg.merge(incoming);
    assert_eq!(cfg.chat.as_ref().unwrap().model, "m2");
    assert_eq!(cfg.chat.as_ref().unwrap().api_key.as_deref(), Some("k1"));
    cfg.merge(ModelConfig {
        chat: Some(EndpointConfig { base_url: "".into(), model: "".into(), params: serde_json::Value::Null, api_key: None }),
        ..Default::default()
    });
    assert!(cfg.chat.is_none());
}

#[test]
fn public_view_masks_key() {
    let cfg = ModelConfig {
        asr: Some(EndpointConfig {
            base_url: "https://x".into(),
            model: "qwen3-asr-1.7b".into(),
            params: serde_json::Value::Null,
            api_key: Some("k".into()),
        }),
        chat: Some(EndpointConfig {
            base_url: "https://y".into(),
            model: "c".into(),
            params: serde_json::Value::Null,
            api_key: Some(String::new()),
        }),
        ..Default::default()
    };
    let p = cfg.public();
    let asr = p.asr.unwrap();
    assert!(asr.has_key);
    assert_eq!(asr.model, "qwen3-asr-1.7b");
    assert!(!p.chat.unwrap().has_key);
    assert!(p.embedding.is_none());
}

#[test]
fn messages_and_truncation() {
    let m = ChatMessage::system("s");
    assert_eq!((m.role.as_str(), m.content.as_str()), ("system", "s"));
    let u = ChatMessage::user("问");
    assert_eq!((u.role.as_str(), u.content.as_str()), ("user", "问"));
    assert_eq!(truncate("你好世界", 2), "你好…");
    assert_eq!(truncate("你好", 2), "你好");
    assert_eq!(sse_payload("data:x\n\r\n").as_deref(), Some("x"));
    assert_eq!(sse_payload("data:  two").as_deref(), Some(" two"));
}
