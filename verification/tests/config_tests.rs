use ccem_core::config::{
    create_env_with_encrypted_key, get_app_config_path, get_config_path,
    get_env_with_decrypted_key, CcemConfig, EnvConfig, EnvEntry,
};
use ccem_core::tray::{read_config_state, set_current_env_internal, set_current_perm_internal};

#[test]
fn test_default_config_holds_builtin_environment() {
    let cfg = CcemConfig::default();
    assert_eq!(cfg.registries.len(), 1);
    assert_eq!(cfg.registries[0].name, "official");
    let env = &cfg.registries[0].config;
    assert_eq!(env.base_url.as_deref(), Some("https://api.anthropic.com"));
    assert!(env.api_key.is_none());
    assert_eq!(env.model.as_deref(), Some("sonnet-4-5-20250929"));
    assert_eq!(env.small_model.as_deref(), Some("haiku-4-5-20251001"));
    assert_eq!(cfg.current.as_deref(), Some("official"));
    assert!(cfg.default_mode.is_none());
}

#[test]
fn test_config_paths() {
    assert_eq!(get_config_path("/home/u/.ccem"), "/home/u/.ccem/config.json");
    assert_eq!(get_app_config_path("/home/u/.ccem"), "/home/u/.ccem/app.json");
}

#[test]
fn test_encrypted_key_roundtrip_through_env() {
    let env = create_env_with_encrypted_key(
        Some("https://api.anthropic.com".to_string()),
        Some("sk-ant-api03-test-key".to_string()),
        Some("sonnet-4-5-20250929".to_string()),
        None,
    );
    let stored = env.api_key.clone().unwrap();
    assert!(stored.starts_with("enc:"));

    let decrypted = get_env_with_decrypted_key(&env);
    assert_eq!(decrypted.api_key.as_deref(), Some("sk-ant-api03-test-key"));
    assert_eq!(decrypted.base_url, env.base_url);
    assert_eq!(decrypted.model, env.model);
    assert!(decrypted.small_model.is_none());
}

#[test]
fn test_plain_key_passes_through_decryption() {
    let env = EnvConfig {
        base_url: None,
        api_key: Some("not-encrypted".to_string()),
        model: None,
        small_model: None,
    };
    let decrypted = get_env_with_decrypted_key(&env);
    assert_eq!(decrypted.api_key.as_deref(), Some("not-encrypted"));
}

#[test]
fn test_empty_key_stored_as_is() {
    let env = create_env_with_encrypted_key(None, Some(String::new()), None, None);
    assert_eq!(env.api_key.as_deref(), Some(""));
}

#[test]
fn test_read_config_state_defaults() {
    let cfg = CcemConfig { registries: Vec::new(), current: None, default_mode: None };
    let (env, envs, perm) = read_config_state(&cfg);
    assert_eq!(env, "official");
    assert_eq!(perm, "dev");
    assert_eq!(envs, vec!["official".to_string()]);
}

#[test]
fn test_read_config_state_lists_official_first() {
    let mut cfg = CcemConfig::default();
    cfg.registries.push(EnvEntry {
        name: "staging".to_string(),
        config: EnvConfig { base_url: None, api_key: None, model: None, small_model: None },
    });
    cfg.current = Some("staging".to_string());
    cfg.default_mode = Some("safe".to_string());

    let (env, envs, perm) = read_config_state(&cfg);
    assert_eq!(env, "staging");
    assert_eq!(perm, "safe");
    assert_eq!(envs, vec!["official".to_string(), "staging".to_string()]);
}

#[test]
fn test_set_current_env_and_perm() {
    let mut cfg = CcemConfig::default();
    set_current_env_internal(&mut cfg, "staging");
    assert_eq!(cfg.current.as_deref(), Some("staging"));
    assert_eq!(cfg.registries.len(), 1);

    set_current_perm_internal(&mut cfg, "readonly");
    assert_eq!(cfg.default_mode.as_deref(), Some("readonly"));
    assert_eq!(cfg.current.as_deref(), Some("staging"));
}

#[test]
fn test_add_favorite_dedupes_by_path() {
    let mut cfg = ccem_core::config::AppConfig::default();
    ccem_core::config::add_favorite(&mut cfg, "/a".to_string(), "A".to_string());
    ccem_core::config::add_favorite(&mut cfg, "/b".to_string(), "B".to_string());
    ccem_core::config::add_favorite(&mut cfg, "/a".to_string(), "other name".to_string());
    assert_eq!(cfg.favorites.len(), 2);
    assert_eq!(cfg.favorites[0].path, "/a");
    assert_eq!(cfg.favorites[0].name, "A");
    assert_eq!(cfg.favorites[1].path, "/b");
}

#[test]
fn test_remove_favorite() {
    let mut cfg = ccem_core::config::AppConfig::default();
    ccem_core::config::add_favorite(&mut cfg, "/a".to_string(), "A".to_string());
    ccem_core::config::add_favorite(&mut cfg, "/b".to_string(), "B".to_string());
    ccem_core::config::remove_favorite(&mut cfg, "/a");
    assert_eq!(cfg.favorites.len(), 1);
    assert_eq!(cfg.favorites[0].path, "/b");
    ccem_core::config::remove_favorite(&mut cfg, "/missing");
    assert_eq!(cfg.favorites.len(), 1);
}

#[test]
fn test_add_recent_moves_to_front_and_caps() {
    let mut cfg = ccem_core::config::AppConfig::default();
    for i in 0..12 {
        ccem_core::config::add_recent(&mut cfg, format!("/p{}", i), format!("t{}", i));
    }
    // capped at ten, newest first
    assert_eq!(cfg.recent.len(), 10);
    assert_eq!(cfg.recent[0].path, "/p11");
    assert_eq!(cfg.recent[9].path, "/p2");

    // re-adding an existing path moves it to the front without duplicating
    ccem_core::config::add_recent(&mut cfg, "/p5".to_string(), "t99".to_string());
    assert_eq!(cfg.recent.len(), 10);
    assert_eq!(cfg.recent[0].path, "/p5");
    assert_eq!(cfg.recent[0].last_used, "t99");
    assert_eq!(cfg.recent.iter().filter(|r| r.path == "/p5").count(), 1);
}

#[test]
fn test_add_environment_refuses_duplicates() {
    let mut cfg = CcemConfig::default();
    let env = EnvConfig { base_url: None, api_key: None, model: None, small_model: None };
    let err = ccem_core::config::add_environment(&mut cfg, "official".to_string(), env).unwrap_err();
    assert_eq!(err, "Environment 'official' already exists");
    assert_eq!(cfg.registries.len(), 1);

    let env2 = EnvConfig { base_url: None, api_key: None, model: None, small_model: None };
    ccem_core::config::add_environment(&mut cfg, "staging".to_string(), env2).unwrap();
    assert_eq!(cfg.registries.len(), 2);
    assert_eq!(cfg.registries[1].name, "staging");
}

#[test]
fn test_update_environment() {
    let mut cfg = CcemConfig::default();
    let env = EnvConfig {
        base_url: Some("https://example.test".to_string()),
        api_key: None,
        model: None,
        small_model: None,
    };
    ccem_core::config::update_environment(&mut cfg, "official", env).unwrap();
    assert_eq!(
        cfg.registries[0].config.base_url.as_deref(),
        Some("https://example.test")
    );

    let env2 = EnvConfig { base_url: None, api_key: None, model: None, small_model: None };
    let err = ccem_core::config::update_environment(&mut cfg, "ghost", env2).unwrap_err();
    assert_eq!(err, "Environment 'ghost' does not exist");
}

#[test]
fn test_delete_environment_guards() {
    let mut cfg = CcemConfig::default();
    let err = ccem_core::config::delete_environment(&mut cfg, "official").unwrap_err();
    assert_eq!(err, "Cannot delete the 'official' environment");

    let err = ccem_core::config::delete_environment(&mut cfg, "ghost").unwrap_err();
    assert_eq!(err, "Environment 'ghost' does not exist");

    let env = EnvConfig { base_url: None, api_key: None, model: None, small_model: None };
    ccem_core::config::add_environment(&mut cfg, "staging".to_string(), env).unwrap();
    cfg.current = Some("staging".to_string());
    ccem_core::config::delete_environment(&mut cfg, "staging").unwrap();
    assert_eq!(cfg.registries.len(), 1);
    // deleting the selected environment falls back to the built-in one
    assert_eq!(cfg.current.as_deref(), Some("official"));
}
