use squillion::config::default_connect_timeout;
use squillion::config::default_max_packet_size;
use squillion::config::generate_uuid;
use squillion::config::get_bool;
use squillion::config::get_connect_timeout;
use squillion::config::get_hostname;
use squillion::config::get_listeners;
use squillion::config::get_livez;
use squillion::config::get_max_packet_size;
use squillion::config::get_readyz;
use squillion::config::get_string;
use squillion::config::get_users;
use squillion::config::get_uuid;
use squillion::config::load_config;
use squillion::config::load_sqlite_test_config;
use squillion::config::load_test_config;
use squillion::config::secrets::get_secret;
use squillion::config::secrets::secret_reference;
use squillion::config::secrets::vault_kv_text;
use squillion::config::secrets::vault_kv_url;
use squillion::config::secrets::vault_kv_value;
use squillion::config::secrets::vault_login;
use squillion::config::secrets::vault_token;
use squillion::config::uuid_of;
use squillion::config::ConfigFile;
use squillion::config::GlobalConfig;
use squillion::config::ListenerConfig;
use squillion::config::State;
use squillion::config::SystemConfig;
use squillion::config::UsersConfig;

#[test]
fn names_are_random() {
    let a = generate_uuid();
    let b = generate_uuid();
    assert_eq!(a.len(), 30);
    assert!(a.chars().all(|c| c.is_ascii_alphanumeric()));
    assert_ne!(a, b);
    let global = GlobalConfig::new("host".to_string());
    assert_eq!(get_hostname(&global), "host");
    assert_eq!(get_uuid(&global).len(), 30);
}

#[test]
fn settings_are_found_by_name() {
    let mut c = SystemConfig::default();
    c.auth_method = "file".to_string();
    c.password_file = "users.txt".to_string();
    c.mqtt_database_host = "h".to_string();
    c.mqtt_database_db = "d".to_string();
    c.mqtt_database_username = "u".to_string();
    c.mqtt_database_password = "p".to_string();
    c.logging_endpoint = "l".to_string();
    c.logging_remote = true;
    assert_eq!(get_string(&c, "auth_method"), Some("file".to_string()));
    assert_eq!(get_string(&c, "password_file"), Some("users.txt".to_string()));
    assert_eq!(get_string(&c, "mqtt_database_host"), Some("h".to_string()));
    assert_eq!(get_string(&c, "mqtt_database_db"), Some("d".to_string()));
    assert_eq!(get_string(&c, "mqtt_database_username"), Some("u".to_string()));
    assert_eq!(get_string(&c, "mqtt_database_password"), Some("p".to_string()));
    assert_eq!(get_string(&c, "logging_endpoint"), Some("l".to_string()));
    assert_eq!(get_string(&c, "nothing"), None);
    assert_eq!(get_bool(&c, "logging_remote"), Some(true));
    assert_eq!(get_bool(&c, "enable_validation"), Some(false));
    assert_eq!(get_bool(&c, "enable_policy"), Some(false));
    assert_eq!(get_bool(&c, "auth_method"), None);
}

#[test]
fn test_settings() {
    let mut c = SystemConfig::default();
    load_test_config(&mut c);
    assert_eq!(get_string(&c, "persist_method"), Some("test".to_string()));
    load_sqlite_test_config(&mut c);
    assert_eq!(get_string(&c, "persist_method"), Some("sqlite".to_string()));
    assert_eq!(get_string(&c, "persist_data_store"), Some("./tests/data".to_string()));
}

#[test]
fn limits() {
    let mut c = SystemConfig::default();
    c.max_packet_size = default_max_packet_size();
    c.connect_timeout = default_connect_timeout();
    assert_eq!(get_max_packet_size(&c), 1_048_576);
    assert_eq!(get_connect_timeout(&c), 10);
    let state = State::new();
    assert!(!get_livez(&state));
    assert!(!get_readyz(&state));
}

#[test]
fn lists_are_copied() {
    let mut c = SystemConfig::default();
    c.listeners.push(ListenerConfig {
        port: 8883,
        websocket: true,
        tlscrt: Some("c".to_string()),
        tlskey: None,
    });
    c.users.push(UsersConfig {
        username: "u".to_string(),
        password: "p".to_string(),
        tenant: Some("t".to_string()),
    });
    let listeners = get_listeners(&c);
    assert_eq!(listeners.len(), 1);
    assert_eq!(listeners[0].port, 8883);
    assert!(listeners[0].websocket);
    assert_eq!(listeners[0].tlscrt, Some("c".to_string()));
    let users = get_users(&c);
    assert_eq!(users[0].username, "u");
    assert_eq!(users[0].tenant, Some("t".to_string()));
}

#[test]
fn secrets_are_located() {
    assert_eq!(secret_reference("secret:a/b"), Some("a/b".to_string()));
    assert_eq!(secret_reference("plain"), None);
    let plan = get_secret(
        Some("http://v".to_string()),
        Some("role".to_string()),
        "team/db/password",
    )
    .ok()
    .unwrap();
    assert_eq!(plan.login.url, "http://v/v1/auth/approle/login");
    assert_eq!(plan.login.body, "{\"role_id\":\"role\"}");
    assert_eq!(plan.path, "team/db");
    assert_eq!(plan.key, "password");
    assert_eq!(vault_kv_url(&plan.vault_addr, &plan.path), "http://v/v1/secret/data/team/db");
    assert_eq!(get_secret(None, None, "x").err(), Some("VAULT_ADDR not set"));
    assert_eq!(
        get_secret(Some("v".to_string()), None, "x").err(),
        Some("VAULT_ROLEID not set")
    );
}

#[test]
fn answers_of_the_vault() {
    let login: serde_json::Value =
        serde_json::from_str("{\"auth\":{\"client_token\":\"s.1\"}}").unwrap();
    let token = vault_login(Some(&login)).unwrap();
    assert_eq!(token, "\"s.1\"");
    assert_eq!(vault_token(&token), "s.1");
    let other: serde_json::Value = serde_json::from_str("{\"auth\":[1]}").unwrap();
    assert_eq!(vault_login(Some(&other)), Err("Error logging into vault"));
    assert_eq!(vault_login(None), Err("Error logging into vault"));
    let kv: serde_json::Value =
        serde_json::from_str("{\"data\":{\"data\":{\"password\":\"geheim\",\"n\":5}}}").unwrap();
    assert_eq!(vault_kv_text(&kv, "password"), Some("\"geheim\"".to_string()));
    assert_eq!(vault_kv_text(&kv, "nothing"), None);
    assert_eq!(
        vault_kv_value("p", "password", vault_kv_text(&kv, "password")),
        Ok(Some("geheim".to_string()))
    );
    assert_eq!(vault_kv_value("p", "n", vault_kv_text(&kv, "n")), Ok(None));
    assert_eq!(
        vault_kv_value("p", "k", None),
        Err("Error fetching secret p key k".to_string())
    );
}

fn bare_file() -> ConfigFile {
    ConfigFile {
        mqtt_database_host: None,
        mqtt_database_db: None,
        mqtt_database_username: None,
        mqtt_database_password: None,
        logging_remote: None,
        logging_endpoint: None,
        auth_method: "password_file".to_string(),
        password_file: None,
        persist_method: "none".to_string(),
        persist_data_store: None,
        max_packet_size: None,
        connect_timeout: None,
        listeners: Vec::new(),
        users: Vec::new(),
    }
}

#[test]
fn settings_left_out_have_defaults() {
    let mut global = GlobalConfig::new("host".to_string());
    let uuid = get_uuid(&global).clone();
    load_config(&mut global, bare_file());
    assert_eq!(get_max_packet_size(&global.config), 1_048_576);
    assert_eq!(get_connect_timeout(&global.config), 10);
    assert_eq!(get_string(&global.config, "auth_method"), Some("password_file".to_string()));
    assert_eq!(get_string(&global.config, "password_file"), Some(String::new()));
    assert_eq!(get_bool(&global.config, "logging_remote"), Some(false));
    assert_eq!(get_uuid(&global), &uuid);
    assert_eq!(get_hostname(&global), "host");
}

#[test]
fn settings_of_a_file_count() {
    let mut global = GlobalConfig::new("host".to_string());
    let mut file = bare_file();
    file.max_packet_size = Some(0);
    file.connect_timeout = Some(3);
    file.password_file = Some("users.txt".to_string());
    file.logging_remote = Some(true);
    file.listeners.push(ListenerConfig {
        port: 1883,
        websocket: false,
        tlscrt: None,
        tlskey: None,
    });
    load_config(&mut global, file);
    assert_eq!(get_max_packet_size(&global.config), 0);
    assert_eq!(get_connect_timeout(&global.config), 3);
    assert_eq!(get_string(&global.config, "password_file"), Some("users.txt".to_string()));
    assert_eq!(get_bool(&global.config, "logging_remote"), Some(true));
    assert_eq!(get_listeners(&global.config)[0].port, 1883);
}

#[test]
fn letters_become_a_name() {
    assert_eq!(uuid_of(&b"aZ09".to_vec()), "aZ09");
    assert_eq!(uuid_of(&Vec::new()), "");
}
