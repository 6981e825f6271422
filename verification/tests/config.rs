use ogent::config::{config_paths, Config, Profile, ProviderConfig};
use ogent::profiles::get_profile;
use ogent::providers::{backend_of, client_config, missing_key_message, Backend};

fn profile(backend: &str, model: &str) -> Profile {
    Profile {
        backend: backend.to_string(),
        model: model.to_string(),
        effort: String::new(),
        context_limit: 1000,
    }
}

fn config() -> Config {
    Config {
        default_profile: "fast".to_string(),
        profiles: vec![
            ("fast".to_string(), profile("deepseek", "deepseek-v4-flash")),
            ("smart".to_string(), profile("kimi", "moonshotai/Kimi-K2.6")),
        ],
        providers: vec![(
            "deepseek".to_string(),
            ProviderConfig { base_url: "https://api.deepseek.com".to_string(), key_env: "DS_KEY".to_string() },
        )],
    }
}

#[test]
fn builtin_profiles_are_known_by_name() {
    let p = get_profile("ds-flash").unwrap();
    assert_eq!(p.backend, "deepseek");
    assert_eq!(p.model, "deepseek-v4-flash");
    assert_eq!(p.effort, "high");
    assert_eq!(p.context_limit, 1_000_000);
    assert_eq!(get_profile("kimi").unwrap().context_limit, 256_000);
    assert_eq!(get_profile("glm").unwrap().backend, "z");
    assert!(get_profile("gpt").is_none());
}

#[test]
fn configured_profiles_find_their_providers() {
    let cfg = config();
    let fast = cfg.get_profile("fast").unwrap();
    assert_eq!(fast.model, "deepseek-v4-flash");
    assert_eq!(cfg.provider_for(fast).unwrap().key_env, "DS_KEY");
    let smart = cfg.get_profile("smart").unwrap();
    assert!(cfg.provider_for(smart).is_none());
    assert!(cfg.get_profile("other").is_none());
    let (repo, home) = config_paths("/work/repo", "/home/u/");
    assert_eq!(repo, "/work/repo/.ogent/config.yaml");
    assert_eq!(home, "/home/u/.ogent/config.yaml");
}

#[test]
fn backends_are_named_and_differ_in_their_protocol() {
    assert_eq!(backend_of("minimax").unwrap(), Backend::MiniMax);
    assert_eq!(backend_of("deepseek").unwrap(), Backend::DeepSeek);
    assert_eq!(backend_of("openai").unwrap_err(), "unknown backend: openai");
    assert!(!Backend::MiniMax.requires_sse_done());
    assert!(Backend::Kimi.requires_sse_done());
    assert_eq!(Backend::Kimi.tool_choice(true), Some("auto"));
    assert_eq!(Backend::Kimi.tool_choice(false), None);
    assert_eq!(Backend::Z.tool_choice(true), None);
    assert_eq!(missing_key_message("KIMI_API_KEY"), "KIMI_API_KEY is not set");
}

#[test]
fn client_settings_need_the_key_then_a_known_backend() {
    let cfg = config();
    let fast = cfg.get_profile("fast").unwrap();
    let provider = cfg.provider_for(fast).unwrap();
    assert_eq!(client_config(fast, provider, None).unwrap_err(), "DS_KEY is not set");
    let (backend, c) = client_config(fast, provider, Some("k".to_string())).unwrap();
    assert_eq!(backend, Backend::DeepSeek);
    assert_eq!(c.url, "https://api.deepseek.com");
    assert_eq!(c.api_key, "k");
    assert_eq!(c.request_timeout_secs, 600);
    assert!(c.require_sse_done);
    let odd = Profile { backend: "other".to_string(), ..fast.clone() };
    assert_eq!(client_config(&odd, provider, Some("k".to_string())).unwrap_err(), "unknown backend: other");
}

#[test]
fn mimo_profiles_are_built_in() {
    let p = get_profile("mimo").unwrap();
    assert_eq!(p.backend, "xaomi");
    assert_eq!(p.model, "mimo-v2-flash");
    let p = get_profile("mimo-pro").unwrap();
    assert_eq!(p.backend, "xaomi");
    assert_eq!(p.model, "mimo-v2-pro");
    assert_eq!(p.context_limit, 256_000);
}
