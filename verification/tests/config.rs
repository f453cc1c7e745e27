//! The settings: defaults, files and the environment.

use kiro_rs::config::{
    default_system_version, system_version_at, Config, TlsBackend,
};
use kiro_rs::env::{parse_bool_env, read_env, read_non_empty_env, ConfigError, EnvVars};
use kiro_rs::json::Json;
use std::path::PathBuf;

fn env_map(values: &[(&str, &str)]) -> EnvVars {
    let mut env = EnvVars::new();
    for (key, value) in values {
        env.set(key, value);
    }
    env
}

#[test]
fn test_apply_env_overrides_from_env_vars() {
    let mut config = Config::default();
    let env = env_map(&[
        ("KIRO_RS_HOST", "0.0.0.0"),
        ("KIRO_RS_PORT", "8990"),
        ("KIRO_RS_API_KEY", "sk-test"),
        ("KIRO_RS_REGION", "eu-west-1"),
        ("KIRO_RS_AUTH_REGION", "us-east-1"),
        ("KIRO_RS_API_REGION", "us-west-2"),
        ("KIRO_RS_TLS_BACKEND", "native-tls"),
        ("KIRO_RS_ADMIN_API_KEY", "sk-admin"),
        ("KIRO_RS_LOAD_BALANCING_MODE", "balanced"),
        ("KIRO_RS_EXTRACT_THINKING", "false"),
        ("KIRO_RS_DEFAULT_ENDPOINT", "ide"),
        (
            "KIRO_RS_ENDPOINTS",
            r#"{"ide":{"baseUrl":"https://example.com"}}"#,
        ),
    ]);

    config.apply_env_overrides_from(&env).unwrap();

    assert_eq!(config.host, "0.0.0.0");
    assert_eq!(config.port, 8990);
    assert_eq!(config.api_key.as_deref(), Some("sk-test"));
    assert_eq!(config.region, "eu-west-1");
    assert_eq!(config.auth_region.as_deref(), Some("us-east-1"));
    assert_eq!(config.api_region.as_deref(), Some("us-west-2"));
    assert_eq!(config.tls_backend, TlsBackend::NativeTls);
    assert_eq!(config.admin_api_key.as_deref(), Some("sk-admin"));
    assert_eq!(config.load_balancing_mode, "balanced");
    assert!(!config.extract_thinking);
    assert_eq!(
        config
            .endpoints
            .get("ide")
            .and_then(|endpoint| endpoint.text_field("baseUrl")),
        Some("https://example.com")
    );
}

#[test]
fn test_empty_optional_env_clears_file_value() {
    let mut config = Config::default();
    config.admin_api_key = Some("sk-admin".to_string());
    let env = env_map(&[("KIRO_RS_ADMIN_API_KEY", "")]);

    config.apply_env_overrides_from(&env).unwrap();

    assert_eq!(config.admin_api_key, None);
}

#[test]
fn test_invalid_bool_env_is_rejected() {
    let mut config = Config::default();
    let env = env_map(&[("KIRO_RS_EXTRACT_THINKING", "maybe")]);

    assert!(config.apply_env_overrides_from(&env).is_err());
}

fn error_message(values: &[(&str, &str)]) -> String {
    Config::default()
        .apply_env_overrides_from(&env_map(values))
        .unwrap_err()
        .message()
}

#[test]
fn each_fault_has_its_message() {
    assert_eq!(
        error_message(&[("KIRO_RS_HOST", "  ")]),
        "环境变量 KIRO_RS_HOST 不能为空"
    );
    assert_eq!(
        error_message(&[("KIRO_RS_PORT", "")]),
        "环境变量 KIRO_RS_PORT 不能为空"
    );
    for port in ["http", "-1", "+", "65536", "80 80"] {
        let reason = port.parse::<u16>().unwrap_err();
        assert_eq!(
            error_message(&[("KIRO_RS_PORT", port)]),
            format!("解析环境变量 KIRO_RS_PORT 失败: {reason}")
        );
    }
    assert_eq!(
        error_message(&[("KIRO_RS_TLS_BACKEND", "OpenSSL")]),
        "解析环境变量 KIRO_RS_TLS_BACKEND 失败: 不支持的 TLS 后端: openssl"
    );
    assert_eq!(
        error_message(&[("KIRO_RS_EXTRACT_THINKING", "maybe")]),
        "解析环境变量 KIRO_RS_EXTRACT_THINKING 失败: 期望 true/false、1/0、yes/no 或 on/off"
    );
    assert_eq!(
        error_message(&[("KIRO_RS_LOAD_BALANCING_MODE", "Balanced")]),
        "环境变量 KIRO_RS_LOAD_BALANCING_MODE 只能是 priority 或 balanced"
    );
    assert_eq!(
        error_message(&[("KIRO_RS_ENDPOINTS", "[]")]),
        "解析环境变量 KIRO_RS_ENDPOINTS 失败，应为 JSON 对象"
    );
    let reason = serde_json::from_str::<std::collections::HashMap<String, serde_json::Value>>("[]")
        .unwrap_err()
        .to_string();
    let error = Config::default()
        .apply_env_overrides_from(&env_map(&[("KIRO_RS_ENDPOINTS", "[]")]))
        .unwrap_err();
    assert_eq!(error.cause(), Some(reason.as_str()));
    assert_eq!(Config::default().save_path().unwrap_err().cause(), None);
    assert_eq!(
        Config::default().save_path().unwrap_err().message(),
        "配置文件路径未知，无法保存配置"
    );
}

#[test]
fn ports_are_read_as_decimal_numbers() {
    for (text, port) in [("0", 0), ("+080", 80), (" 65535\t", 65535)] {
        let mut config = Config::default();
        config
            .apply_env_overrides_from(&env_map(&[("KIRO_RS_PORT", text)]))
            .unwrap();
        assert_eq!(config.port, port);
    }
}

#[test]
fn the_first_fault_stops_the_overrides() {
    let mut config = Config::default();
    let error = config
        .apply_env_overrides_from(&env_map(&[
            ("KIRO_RS_ENDPOINTS", "nothing"),
            ("KIRO_RS_REGION", ""),
            ("KIRO_RS_HOST", "0.0.0.0"),
            ("KIRO_RS_API_KEY", "sk-late"),
        ]))
        .unwrap_err();
    assert!(matches!(error, ConfigError::Empty { key } if key == "KIRO_RS_REGION"));
    assert_eq!(config.host, "0.0.0.0");
    assert_eq!(config.region, "us-east-1");
    assert_eq!(config.api_key, None);
}

#[test]
fn an_empty_environment_changes_nothing() {
    let mut config = Config::with_system_version("win32#10.0.22631".to_string());
    config.endpoints.insert("cli", Json::Null);
    config.apply_env_overrides_from(&EnvVars::new()).unwrap();
    assert_eq!(config.host, "127.0.0.1");
    assert_eq!(config.port, 8080);
    assert_eq!(config.region, "us-east-1");
    assert_eq!(config.auth_region, None);
    assert_eq!(config.api_region, None);
    assert_eq!(config.kiro_version, "0.11.107");
    assert_eq!(config.machine_id, None);
    assert_eq!(config.api_key, None);
    assert_eq!(config.system_version, "win32#10.0.22631");
    assert_eq!(config.node_version, "22.22.0");
    assert_eq!(config.tls_backend, TlsBackend::Rustls);
    assert_eq!(config.count_tokens_api_url, None);
    assert_eq!(config.count_tokens_api_key, None);
    assert_eq!(config.count_tokens_auth_type, "x-api-key");
    assert_eq!(config.proxy_url, None);
    assert_eq!(config.proxy_username, None);
    assert_eq!(config.proxy_password, None);
    assert_eq!(config.admin_api_key, None);
    assert_eq!(config.load_balancing_mode, "priority");
    assert!(config.extract_thinking);
    assert_eq!(config.default_endpoint, "ide");
    assert!(config.endpoints.contains_key("cli"));
    assert_eq!(config.config_path(), None);
}

#[test]
fn overriding_twice_is_overriding_once() {
    let env = env_map(&[
        ("KIRO_RS_KIRO_VERSION", " 1.2.3 "),
        ("KIRO_RS_MACHINE_ID", "m"),
        ("KIRO_RS_SYSTEM_VERSION", "linux#6"),
        ("KIRO_RS_NODE_VERSION", "24"),
        ("KIRO_RS_COUNT_TOKENS_API_URL", "http://count"),
        ("KIRO_RS_COUNT_TOKENS_API_KEY", "sk-count"),
        ("KIRO_RS_COUNT_TOKENS_AUTH_TYPE", "bearer"),
        ("KIRO_RS_PROXY_URL", "socks5://proxy:1"),
        ("KIRO_RS_PROXY_USERNAME", "user"),
        ("KIRO_RS_PROXY_PASSWORD", "word"),
        ("KIRO_RS_ENDPOINTS", "  "),
    ]);
    let mut config = Config::default();
    config.endpoints.insert("cli", Json::Null);
    config.apply_env_overrides_from(&env).unwrap();
    let once = config.clone();
    config.apply_env_overrides_from(&env).unwrap();
    assert_eq!(format!("{once:?}"), format!("{config:?}"));
    assert_eq!(config.kiro_version, "1.2.3");
    assert_eq!(config.machine_id.as_deref(), Some("m"));
    assert_eq!(config.system_version, "linux#6");
    assert_eq!(config.node_version, "24");
    assert_eq!(config.count_tokens_api_url.as_deref(), Some("http://count"));
    assert_eq!(config.count_tokens_api_key.as_deref(), Some("sk-count"));
    assert_eq!(config.count_tokens_auth_type, "bearer");
    assert_eq!(config.proxy_url.as_deref(), Some("socks5://proxy:1"));
    assert_eq!(config.proxy_username.as_deref(), Some("user"));
    assert_eq!(config.proxy_password.as_deref(), Some("word"));
    assert!(config.endpoints.is_empty());
}

#[test]
fn set_variables_decide() {
    let env = env_map(&[("KIRO_RS_HOST", "::1"), ("KIRO_RS_API_KEY", "")]);
    let mut config = Config::default();
    let mut other = Config::default();
    other.host = "example.com".to_string();
    other.api_key = Some("sk-file".to_string());
    config.apply_env_overrides_from(&env).unwrap();
    other.apply_env_overrides_from(&env).unwrap();
    assert_eq!(config.host, other.host);
    assert_eq!(config.api_key, other.api_key);
    assert_eq!(other.api_key, None);
}

#[test]
fn truth_has_several_names() {
    for text in ["true", " 1", "YES", "y", "On"] {
        assert!(parse_bool_env("KEY", text).unwrap());
    }
    for text in ["False", "0 ", "no", "N", "off"] {
        assert!(!parse_bool_env("KEY", text).unwrap());
    }
    for text in ["", "2", "truth"] {
        let error = parse_bool_env("KEY", text).unwrap_err();
        assert!(matches!(error, ConfigError::InvalidBool { key } if key == "KEY"));
    }
}

#[test]
fn backends_have_several_names() {
    assert_eq!(TlsBackend::default(), TlsBackend::Rustls);
    assert_eq!(TlsBackend::from_str(" RustLS "), Ok(TlsBackend::Rustls));
    for text in ["native-tls", "NATIVE_TLS", "nativetls"] {
        assert_eq!(TlsBackend::from_str(text), Ok(TlsBackend::NativeTls));
    }
    assert_eq!("Native_TLS".parse(), Ok(TlsBackend::NativeTls));
    assert_eq!(
        TlsBackend::from_str(" Schannel"),
        Err("不支持的 TLS 后端: schannel".to_string())
    );
}

#[test]
fn variables_are_read_without_whitespace_around_them() {
    let env = env_map(&[("A", " one\u{3000}"), ("B", "\n"), ("A", "\ttwo ")]);
    assert_eq!(read_env(&env, "A").as_deref(), Some("two"));
    assert_eq!(read_env(&env, "B").as_deref(), Some(""));
    assert_eq!(read_env(&env, "C"), None);
    assert_eq!(read_non_empty_env(&env, "A").as_deref(), Some("two"));
    assert_eq!(read_non_empty_env(&env, "B"), None);
}

#[test]
fn systems_are_chosen_among_two() {
    assert_eq!(system_version_at(0), "darwin#24.6.0");
    assert_eq!(system_version_at(1), "win32#10.0.22631");
    let mut seen = [false, false];
    for _ in 0..200 {
        let version = default_system_version();
        let index = (0..2).find(|at| system_version_at(*at) == version);
        seen[index.unwrap()] = true;
    }
    assert_eq!(seen, [true, true]);
}

#[test]
fn regions_fall_back() {
    let mut config = Config::default();
    assert_eq!(config.effective_auth_region(), "us-east-1");
    assert_eq!(config.effective_api_region(), "us-east-1");
    config.auth_region = Some("eu-west-1".to_string());
    config.api_region = Some("us-west-2".to_string());
    assert_eq!(config.effective_auth_region(), "eu-west-1");
    assert_eq!(config.effective_api_region(), "us-west-2");
}

#[test]
fn files_are_chosen_by_precedence() {
    let env = env_map(&[("KIRO_RS_CONFIG", " env.json ")]);
    let none = EnvVars::new();
    let blank = env_map(&[("KIRO_RS_CONFIG", " ")]);
    let select = Config::select_config_path;
    assert_eq!(
        select(Some("asked.json"), &env, true, true).as_deref(),
        Some("asked.json")
    );
    assert_eq!(select(None, &env, true, true).as_deref(), Some("env.json"));
    assert_eq!(select(None, &blank, true, true).as_deref(), Some("config.json"));
    assert_eq!(
        select(None, &none, false, true).as_deref(),
        Some("config/config.json")
    );
    assert_eq!(select(None, &none, false, false), None);
    assert_eq!(Config::default_config_path(), "config.json");
}

#[test]
fn files_keep_their_path() {
    let path = PathBuf::from("some.json");
    let missing = Config::load(None, path.clone());
    assert_eq!(missing.config_path(), Some(&path));
    assert_eq!(missing.save_path().unwrap(), &path);
    assert_eq!(missing.host, "127.0.0.1");
    let mut content = Config::default();
    content.host = "10.0.0.1".to_string();
    let found = Config::load(Some(content), path.clone());
    assert_eq!(found.config_path(), Some(&path));
    assert_eq!(found.host, "10.0.0.1");
    let env = env_map(&[("KIRO_RS_PORT", "1")]);
    let running = Config::load_runtime_with_env(Some(found), &env).unwrap();
    assert_eq!(running.host, "10.0.0.1");
    assert_eq!(running.port, 1);
    assert_eq!(running.config_path(), Some(&path));
    let bare = Config::load_runtime_with_env(None, &env).unwrap();
    assert_eq!(bare.host, "127.0.0.1");
    assert_eq!(bare.port, 1);
    assert_eq!(bare.config_path(), None);
    let wrong = env_map(&[("KIRO_RS_PORT", "x")]);
    let error = Config::load_runtime_with_env(None, &wrong).unwrap_err();
    assert!(matches!(error, ConfigError::Invalid { key, .. } if key == "KIRO_RS_PORT"));
}

#[test]
fn overrides_keep_settings_usable() {
    let mut config = Config::default();
    for values in [
        [("KIRO_RS_LOAD_BALANCING_MODE", "random")],
        [("KIRO_RS_NODE_VERSION", " ")],
        [("KIRO_RS_DEFAULT_ENDPOINT", "")],
    ] {
        assert!(config.apply_env_overrides_from(&env_map(&values)).is_err());
    }
    assert_eq!(config.load_balancing_mode, "priority");
    assert_eq!(config.node_version, "22.22.0");
    assert_eq!(config.default_endpoint, "ide");
}
