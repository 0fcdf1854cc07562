use proxyjs::settings::{
    find_settings, pac_location, parse_key_val, split_proxy_override, validate_request,
    with_system_settings, ConfigError, PacLocation, ProxySettings, SettingsPlan, Strategy,
};

fn names(list: &[&str]) -> Vec<String> {
    list.iter().map(|name| name.to_string()).collect()
}

#[test]
fn key_and_value() {
    assert_eq!(parse_key_val("a=b"), Ok(("a".to_string(), "b".to_string())));
    assert_eq!(parse_key_val("a=b=c"), Ok(("a".to_string(), "b=c".to_string())));
    assert_eq!(parse_key_val("=b"), Ok(("".to_string(), "b".to_string())));
    assert_eq!(parse_key_val("a="), Ok(("a".to_string(), "".to_string())));
    assert_eq!(
        parse_key_val("ab"),
        Err("Define must be in KEY=VALUE format".to_string())
    );
    assert_eq!(
        parse_key_val(""),
        Err("Define must be in KEY=VALUE format".to_string())
    );
}

#[test]
fn override_list() {
    assert_eq!(split_proxy_override("a;b"), names(&["a", "b"]));
    assert_eq!(split_proxy_override("*.local;<local>;10.*"), names(&["*.local", "<local>", "10.*"]));
    assert_eq!(split_proxy_override(""), names(&[""]));
    assert_eq!(split_proxy_override("a;"), names(&["a", ""]));
    assert_eq!(split_proxy_override(";;"), names(&["", "", ""]));
    assert_eq!(split_proxy_override("abc"), names(&["abc"]));
}

#[test]
fn settings_of_a_request() {
    assert_eq!(
        find_settings(Some("proxy.pac".to_string()), None, names(&["a"])),
        Ok(SettingsPlan::Ready(ProxySettings {
            auto_config_url: Some("proxy.pac".to_string()),
            proxy_enable: false,
            proxy_server: None,
            proxy_override: names(&["a"]),
        }))
    );
    assert_eq!(
        find_settings(None, Some("proxy:8080".to_string()), names(&[])),
        Ok(SettingsPlan::Ready(ProxySettings {
            auto_config_url: None,
            proxy_enable: true,
            proxy_server: Some("proxy:8080".to_string()),
            proxy_override: names(&[]),
        }))
    );
    assert_eq!(
        find_settings(Some("p".to_string()), Some("q".to_string()), names(&[])),
        Err(ConfigError::ConflictingSources)
    );
    assert_eq!(
        find_settings(None, None, names(&["x", "y"])),
        Ok(SettingsPlan::FromSystem(names(&["x", "y"])))
    );
}

#[test]
fn settings_of_the_system() {
    let system = ProxySettings {
        auto_config_url: None,
        proxy_enable: true,
        proxy_server: Some("proxy:3128".to_string()),
        proxy_override: names(&["*.corp"]),
    };
    let merged = with_system_settings(system, names(&["*.lan", "localhost"]));
    assert_eq!(merged.auto_config_url, None);
    assert!(merged.proxy_enable);
    assert_eq!(merged.proxy_server, Some("proxy:3128".to_string()));
    assert_eq!(merged.proxy_override, names(&["*.corp", "*.lan", "localhost"]));
}

#[test]
fn strategy_of_settings() {
    let mut settings = ProxySettings {
        auto_config_url: Some("proxy.pac".to_string()),
        proxy_enable: false,
        proxy_server: Some("proxy:3128".to_string()),
        proxy_override: names(&[]),
    };
    assert_eq!(settings.strategy(), Ok(Strategy::Script));
    settings.auto_config_url = None;
    settings.proxy_enable = true;
    assert_eq!(settings.strategy(), Ok(Strategy::Static));
    settings.proxy_server = None;
    assert_eq!(settings.strategy(), Ok(Strategy::Static));
    settings.proxy_enable = false;
    assert_eq!(settings.strategy(), Ok(Strategy::Direct));
}

#[test]
fn script_and_static_proxy_at_once_are_refused() {
    let settings = ProxySettings {
        auto_config_url: Some("proxy.pac".to_string()),
        proxy_enable: true,
        proxy_server: Some("proxy:3128".to_string()),
        proxy_override: names(&[]),
    };
    assert_eq!(settings.strategy(), Err(ConfigError::ConflictingSources));
    let system = ProxySettings {
        auto_config_url: Some("http://lan.corp/proxy.pac".to_string()),
        proxy_enable: true,
        proxy_server: None,
        proxy_override: names(&["*.corp"]),
    };
    let merged = with_system_settings(system, names(&["localhost"]));
    assert_eq!(merged.strategy(), Err(ConfigError::ConflictingSources));
}

#[test]
fn requests() {
    let some = Some("x".to_string());
    assert_eq!(validate_request(&some, &some, &some, &None), Err(ConfigError::ConflictingSources));
    assert_eq!(validate_request(&some, &some, &None, &None), Err(ConfigError::ConflictingSources));
    assert_eq!(validate_request(&some, &None, &None, &None), Err(ConfigError::NothingAsked));
    assert_eq!(validate_request(&None, &None, &None, &None), Err(ConfigError::NothingAsked));
    assert_eq!(validate_request(&None, &some, &some, &None), Ok(()));
    assert_eq!(validate_request(&None, &None, &None, &some), Ok(()));
}

#[test]
fn locations_of_scripts() {
    assert_eq!(
        pac_location("https://lan.corp/proxy.pac"),
        PacLocation::Remote("https://lan.corp/proxy.pac".to_string())
    );
    assert_eq!(
        pac_location("http://lan.corp/proxy.pac"),
        PacLocation::Remote("http://lan.corp/proxy.pac".to_string())
    );
    assert_eq!(pac_location("httpd.pac"), PacLocation::Remote("httpd.pac".to_string()));
    assert_eq!(
        pac_location("file:///etc/proxy.pac"),
        PacLocation::Local("/etc/proxy.pac".to_string())
    );
    assert_eq!(
        pac_location("file://file://proxy.pac"),
        PacLocation::Local("proxy.pac".to_string())
    );
    assert_eq!(pac_location("proxy.pac"), PacLocation::Local("proxy.pac".to_string()));
    assert_eq!(pac_location("file:/x"), PacLocation::Local("file:/x".to_string()));
    assert_eq!(pac_location(""), PacLocation::Local("".to_string()));
}
