use con_workspace::routing::{
    apply_agent_routing, default_agent_routing, set_model_override, set_provider_override,
    AgentConfig, AgentRouting, ProviderKind, ProviderSettings,
};

fn settings(provider: ProviderKind, model: Option<&str>, url: Option<&str>) -> ProviderSettings {
    ProviderSettings {
        provider,
        model: model.map(|m| m.to_string()),
        base_url: url.map(|u| u.to_string()),
    }
}

#[test]
fn default_routing_lists_configured_models_in_provider_order() {
    let config = AgentConfig {
        provider: ProviderKind::Gemini,
        providers: vec![
            settings(ProviderKind::XAI, Some("model-x"), None),
            settings(ProviderKind::OpenAI, None, None),
            settings(ProviderKind::Anthropic, Some("model-a"), None),
        ],
    };
    let r = default_agent_routing(&config);
    assert_eq!(r.provider, Some(ProviderKind::Gemini));
    assert_eq!(
        r.model_overrides,
        vec![(ProviderKind::Anthropic, "model-a".to_string()), (ProviderKind::XAI, "model-x".to_string())]
    );
    assert!(!r.is_empty());
    assert!(AgentRouting { provider: None, model_overrides: vec![] }.is_empty());
}

#[test]
fn routing_overrides_the_provider_and_non_blank_models() {
    let base = AgentConfig {
        provider: ProviderKind::Anthropic,
        providers: vec![settings(ProviderKind::Ollama, Some("a"), Some("http://h"))],
    };
    let routing = AgentRouting {
        provider: Some(ProviderKind::Ollama),
        model_overrides: vec![
            (ProviderKind::Ollama, "b".to_string()),
            (ProviderKind::Groq, "  ".to_string()),
            (ProviderKind::Mistral, "m".to_string()),
        ],
    };
    let c = apply_agent_routing(&base, &routing);
    assert_eq!(c.provider, ProviderKind::Ollama);
    assert_eq!(
        c.providers,
        vec![
            settings(ProviderKind::Ollama, Some("b"), Some("http://h")),
            settings(ProviderKind::Mistral, Some("m"), None),
        ]
    );
    let unrouted = apply_agent_routing(&base, &AgentRouting { provider: None, model_overrides: vec![] });
    assert_eq!(unrouted, base);
}

#[test]
fn picking_a_provider_or_model_updates_the_routing() {
    let mut r = AgentRouting { provider: None, model_overrides: vec![] };
    set_provider_override(&mut r, ProviderKind::Cohere);
    set_model_override(&mut r, ProviderKind::Cohere, "c1".to_string());
    set_model_override(&mut r, ProviderKind::Groq, "g".to_string());
    set_model_override(&mut r, ProviderKind::Cohere, "c2".to_string());
    assert_eq!(r.provider, Some(ProviderKind::Cohere));
    assert_eq!(
        r.model_overrides,
        vec![(ProviderKind::Cohere, "c2".to_string()), (ProviderKind::Groq, "g".to_string())]
    );
}
