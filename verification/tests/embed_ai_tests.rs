use system_health_report::ai::{
    api_error_message, extract_answer, extract_anthropic_text, extract_openai_content, provider_request,
    select_provider, JsonValue, ProviderError, ProviderKind,
};
use system_health_report::config::{AiAssistant, AiProviderConfig, AiProviders, EmbedConfig, Schedule};
use system_health_report::embed::{build_embed, build_report_embed, try_webhook_embed};
use system_health_report::logs::LogCollection;
use system_health_report::metrics::{CpuFigures, MetricsFigures};
use system_health_report::report::Report;

fn obj(members: Vec<(&str, JsonValue)>) -> JsonValue {
    JsonValue::Object(members.into_iter().map(|(k, v)| (k.to_string(), v)).collect())
}

fn s(t: &str) -> JsonValue {
    JsonValue::Str(t.to_string())
}

fn report(ai: &str, logs: LogCollection) -> Report {
    Report {
        ai_analysis: ai.to_string(),
        metrics: MetricsFigures {
            cpu: Some(CpuFigures { average_usage: "3.0".to_string(), interval_seconds: 5 }),
            memory: None,
            load_average: None,
            disks: vec![],
            collected_at: "t0".to_string(),
        },
        logs,
        generated_at: "2024-05-05T00:00:00Z".to_string(),
    }
}

fn embed_cfg(show_errors: bool) -> EmbedConfig {
    EmbedConfig { title: "Health".to_string(), color: 3066993, show_metrics: true, show_errors }
}

#[test]
fn bot_embed_cuts_analysis_by_characters() {
    let r = report(&"あ".repeat(2100), LogCollection::new());
    let e = build_report_embed(&r, &embed_cfg(true));
    assert_eq!(e.description.chars().count(), 2003);
    assert_eq!(e.title, "Health");
    assert_eq!(e.color, 3066993);
    assert_eq!(e.fields.len(), 1);
    assert_eq!(e.fields[0].name, "CPU Usage");
    assert_eq!(e.fields[0].value, "3.0% (avg over 5s)");
    assert!(e.fields[0].inline);
    assert_eq!(e.footer, "Generated at 2024-05-05T00:00:00Z");
}

#[test]
fn webhook_embed_lists_error_lines() {
    let mut logs = LogCollection::new();
    logs.insert("/var/log/syslog".to_string(), format!("ok\nWARNING disk\n{}\nFatal x", "error ".repeat(30)));
    let r = report("short", logs);
    let e = build_embed(&r, &embed_cfg(true));
    assert_eq!(e.description, "short");
    assert_eq!(e.fields.len(), 2);
    assert_eq!(e.fields[1].name, "Recent Errors/Warnings");
    assert!(!e.fields[1].inline);
    let long = "error ".repeat(30);
    let expected = format!("**/var/log/syslog**:\n`WARNING disk`\n`{}`\n`Fatal x`", &long[..100]);
    assert_eq!(e.fields[1].value, expected);
    let quiet = build_embed(&r, &embed_cfg(false));
    assert_eq!(quiet.fields.len(), 1);
}

#[test]
fn webhook_embed_cuts_description_in_bytes() {
    let r = report(&"a".repeat(3000), LogCollection::new());
    let e = try_webhook_embed(&r, &embed_cfg(true)).expect("ascii cuts are fine");
    assert_eq!(e.description.len(), 2048);
    assert!(e.description.ends_with("..."));
    // 2045 is not a character boundary in a text of three-byte characters.
    let r2 = report(&"あ".repeat(1000), LogCollection::new());
    assert!(try_webhook_embed(&r2, &embed_cfg(true)).is_none());
}

#[test]
fn json_answers_are_extracted() {
    let openai = obj(vec![(
        "choices",
        JsonValue::Array(vec![obj(vec![("message", obj(vec![("role", s("assistant")), ("content", s("hello"))]))])]),
    )]);
    assert_eq!(extract_openai_content(&openai).unwrap(), "hello");
    assert_eq!(extract_answer(ProviderKind::OpenRouter, &openai).unwrap(), "hello");
    let empty = obj(vec![("choices", JsonValue::Array(vec![]))]);
    assert_eq!(extract_openai_content(&empty).unwrap_err(), "Could not extract content from API response");
    let anthropic = obj(vec![("content", JsonValue::Array(vec![obj(vec![("type", s("text")), ("text", s("hi"))])]))]);
    assert_eq!(extract_anthropic_text(&anthropic).unwrap(), "hi");
    assert_eq!(extract_answer(ProviderKind::Anthropic, &openai).unwrap_err(), "Could not extract text from Anthropic response");
    let number = obj(vec![("content", JsonValue::Array(vec![obj(vec![("text", JsonValue::Number("1".to_string()))])]))]);
    assert!(extract_anthropic_text(&number).is_err());
    assert!(extract_openai_content(&JsonValue::Null).is_err());
}

fn assistant(active: &str, openai: bool) -> AiAssistant {
    AiAssistant {
        active_provider: active.to_string(),
        providers: AiProviders {
            openrouter: None,
            openai: if openai { Some(AiProviderConfig { api_key: "k".to_string(), model: "model-a".to_string() }) } else { None },
            anthropic: Some(AiProviderConfig { api_key: "ak".to_string(), model: "model-b".to_string() }),
        },
        schedule: Schedule { enabled: false, times: vec![], timezone: "UTC".to_string() },
        language: "english".to_string(),
    }
}

#[test]
fn provider_selection() {
    let ok = select_provider(&assistant("openai", true)).unwrap();
    assert_eq!(ok.kind, ProviderKind::OpenAi);
    assert_eq!(ok.model, "model-a");
    match select_provider(&assistant("openrouter", true)) {
        Err(e) => {
            assert!(matches!(e, ProviderError::MissingConfig(ProviderKind::OpenRouter)));
            assert_eq!(e.message(), "OpenRouter config not found");
        }
        Ok(_) => panic!("no openrouter section"),
    }
    match select_provider(&assistant("gemini", true)) {
        Err(e) => assert_eq!(e.message(), "Unknown AI provider: gemini"),
        Ok(_) => panic!("unknown provider"),
    }
}

#[test]
fn provider_requests() {
    let a = select_provider(&assistant("anthropic", false)).unwrap();
    let req = provider_request(&a, "p");
    assert_eq!(req.url, "https://api.anthropic.com/v1/messages");
    assert_eq!(req.max_tokens, Some(4096));
    assert_eq!(req.headers[0], ("x-api-key".to_string(), "ak".to_string()));
    assert_eq!(req.headers[1], ("anthropic-version".to_string(), "2023-06-01".to_string()));
    let o = select_provider(&assistant("openai", true)).unwrap();
    let req = provider_request(&o, "p");
    assert_eq!(req.url, "https://api.openai.com/v1/chat/completions");
    assert_eq!(req.headers[0], ("Authorization".to_string(), "Bearer k".to_string()));
    assert_eq!(req.max_tokens, None);
    assert_eq!(api_error_message(ProviderKind::OpenAi, "401 Unauthorized", "bad key"), "OpenAI API error 401 Unauthorized: bad key");
}
