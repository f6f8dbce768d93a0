use parlyx_streamer::settings::{find_settings, load, Settings, StoredSettings};
use serde_json::Value;

#[test]
fn defaults() {
    let s = Settings::default();
    assert_eq!(s.parlyx_server_base_url, "http://localhost:5555");
    assert_eq!(s.api_key, "");
    assert_eq!(s.webhook_url, None);
}

#[test]
fn stored_settings_win_over_defaults() {
    let s = load(StoredSettings::Valid(Settings {
        parlyx_server_base_url: "http://10.1.0.75:5555".to_string(),
        api_key: "k".to_string(),
        webhook_url: Some("http://hook".to_string()),
    }));
    assert_eq!(s.parlyx_server_base_url, "http://10.1.0.75:5555");
    assert_eq!(s.api_key, "k");
    assert_eq!(s.webhook_url.as_deref(), Some("http://hook"));
}

#[test]
fn missing_or_malformed_settings_are_the_defaults() {
    for stored in [StoredSettings::Missing, StoredSettings::Malformed] {
        let s = load(stored);
        assert_eq!(s.parlyx_server_base_url, "http://localhost:5555");
        assert_eq!(s.api_key, "");
        assert_eq!(s.webhook_url, None);
    }
}

fn write(s: &Settings) -> String {
    let webhook = match &s.webhook_url {
        Some(url) => Value::from(url.as_str()),
        None => Value::Null,
    };
    Value::Array(vec![
        Value::from(s.parlyx_server_base_url.as_str()),
        Value::from(s.api_key.as_str()),
        webhook,
    ])
    .to_string()
}

fn parse(text: &str) -> Option<Settings> {
    let (parlyx_server_base_url, api_key, webhook_url) = serde_json::from_str(text).ok()?;
    Some(Settings { parlyx_server_base_url, api_key, webhook_url })
}

#[test]
fn the_settings_saved_last_are_loaded() {
    let mut file = None;
    assert_eq!(load(find_settings(file.clone(), parse)).api_key, "");
    for key in ["first", "sec\"ond\n"] {
        file = Some(write(&Settings {
            parlyx_server_base_url: "http://h".to_string(),
            api_key: key.to_string(),
            webhook_url: Some("w".to_string()),
        }));
    }
    let s = load(find_settings(file, parse));
    assert_eq!(s.parlyx_server_base_url, "http://h");
    assert_eq!(s.api_key, "sec\"ond\n");
    assert_eq!(s.webhook_url.as_deref(), Some("w"));
}

#[test]
fn what_the_settings_file_holds() {
    assert!(matches!(find_settings(None, parse), StoredSettings::Missing));
    assert!(matches!(find_settings(Some("{".to_string()), parse), StoredSettings::Malformed));
    assert!(matches!(
        find_settings(Some("[\"u\",\"k\",null]".to_string()), parse),
        StoredSettings::Valid(s) if s.api_key == "k" && s.webhook_url.is_none()
    ));
}
