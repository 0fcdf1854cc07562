//! Proxy settings: where they come from, and which way of resolving they ask
//! for.

use vstd::prelude::*;
use crate::text::{
    chars_of, find_char, has_at, next_index_of, split_from, split_on, starts_at, texts_of,
};

verus! {

/// The proxy settings of a user or a system. A setting that is absent is not
/// configured.
#[derive(Clone, Debug, PartialEq, Eq)]
pub struct ProxySettings {
    /// Where the auto-configuration script is to be had.
    pub auto_config_url: Option<String>,
    /// Whether the static proxy server is to be used.
    pub proxy_enable: bool,
    /// The static proxy server.
    pub proxy_server: Option<String>,
    /// The wildcard patterns of the hosts that are reached without a proxy.
    pub proxy_override: Vec<String>,
}

/// What is wrong with what was asked for.
#[derive(Clone, Copy, Debug, PartialEq, Eq, Structural)]
pub enum ConfigError {
    /// An auto-configuration script and a static proxy were both asked for,
    /// in the request or in the settings.
    ConflictingSources,
    /// Neither a URL to resolve nor a script to run was given.
    NothingAsked,
}

/// How a proxy is found for a URL.
#[derive(Clone, Copy, Debug, PartialEq, Eq, Structural)]
pub enum Strategy {
    /// An auto-configuration script is asked.
    Script,
    /// The static proxy server is used.
    Static,
    /// No proxy is used.
    Direct,
}

/// What is known of the settings once the request has been read.
#[derive(Clone, Debug, PartialEq, Eq)]
pub enum SettingsPlan {
    /// The request gives the settings.
    Ready(ProxySettings),
    /// The request names no source: the settings of the system are to be
    /// read, and these patterns added to theirs.
    FromSystem(Vec<String>),
}

/// The strategy that settings ask for: the script if one is configured, the
/// static proxy if it is enabled, and none if neither is. Settings that
/// configure a script and enable the static proxy at once ask for two
/// strategies, and are refused: neither goes before the other.
pub open spec fn strategy_of(auto_config: bool, proxy_enable: bool) -> Result<
    Strategy,
    ConfigError,
> {
    if auto_config && proxy_enable {
        Err(ConfigError::ConflictingSources)
    } else if auto_config {
        Ok(Strategy::Script)
    } else if proxy_enable {
        Ok(Strategy::Static)
    } else {
        Ok(Strategy::Direct)
    }
}

impl ProxySettings {
    /// The strategy that the settings ask for, if they ask for one only.
    pub fn strategy(&self) -> (r: Result<Strategy, ConfigError>)
        ensures
            r == strategy_of(self.auto_config_url is Some, self.proxy_enable),
    {
        if self.auto_config_url.is_some() {
            if self.proxy_enable {
                Err(ConfigError::ConflictingSources)
            } else {
                Ok(Strategy::Script)
            }
        } else if self.proxy_enable {
            Ok(Strategy::Static)
        } else {
            Ok(Strategy::Direct)
        }
    }
}

/// Whether a request can be served: it may not ask for a script and a static
/// proxy at once, and it has to give a URL or a script to run. The first of
/// the two faults is the one reported where both are made.
pub fn validate_request(
    pac: &Option<String>,
    static_proxy: &Option<String>,
    url: &Option<String>,
    lua: &Option<String>,
) -> (r: Result<(), ConfigError>)
    ensures
        r == (if pac is Some && static_proxy is Some {
            Err::<(), ConfigError>(ConfigError::ConflictingSources)
        } else if url is None && lua is None {
            Err::<(), ConfigError>(ConfigError::NothingAsked)
        } else {
            Ok::<(), ConfigError>(())
        }),
{
    if pac.is_some() && static_proxy.is_some() {
        Err(ConfigError::ConflictingSources)
    } else if url.is_none() && lua.is_none() {
        Err(ConfigError::NothingAsked)
    } else {
        Ok(())
    }
}

/// The settings that a request gives. A script alone gives settings with the
/// script and no static proxy; a static proxy alone gives settings with the
/// proxy enabled; both are refused; neither leaves the settings to the system.
/// The patterns of the request are kept in each case.
pub fn find_settings(
    pac: Option<String>,
    static_proxy: Option<String>,
    proxy_override: Vec<String>,
) -> (r: Result<SettingsPlan, ConfigError>)
    ensures
        match (pac, static_proxy) {
            (Some(script), None) => r matches Ok(SettingsPlan::Ready(settings))
                && settings.auto_config_url == Some(script) && !settings.proxy_enable
                && settings.proxy_server is None && settings.proxy_override == proxy_override,
            (None, Some(server)) => r matches Ok(SettingsPlan::Ready(settings))
                && settings.auto_config_url is None && settings.proxy_enable
                && settings.proxy_server == Some(server) && settings.proxy_override
                == proxy_override,
            (Some(_), Some(_)) => r matches Err(ConfigError::ConflictingSources),
            (None, None) => r matches Ok(SettingsPlan::FromSystem(patterns)) && patterns
                == proxy_override,
        },
{
    match (pac, static_proxy) {
        (Some(script), None) => Ok(
            SettingsPlan::Ready(
                ProxySettings {
                    auto_config_url: Some(script),
                    proxy_enable: false,
                    proxy_server: None,
                    proxy_override,
                },
            ),
        ),
        (None, Some(server)) => Ok(
            SettingsPlan::Ready(
                ProxySettings {
                    auto_config_url: None,
                    proxy_enable: true,
                    proxy_server: Some(server),
                    proxy_override,
                },
            ),
        ),
        (Some(_), Some(_)) => Err(ConfigError::ConflictingSources),
        (None, None) => Ok(SettingsPlan::FromSystem(proxy_override)),
    }
}

/// The settings of the system with the patterns of the request added after
/// its own.
pub fn with_system_settings(system: ProxySettings, proxy_override: Vec<String>) -> (settings:
    ProxySettings)
    ensures
        settings.auto_config_url == system.auto_config_url,
        settings.proxy_enable == system.proxy_enable,
        settings.proxy_server == system.proxy_server,
        settings.proxy_override@ == system.proxy_override@ + proxy_override@,
{
    let mut patterns = system.proxy_override;
    let mut added = proxy_override;
    patterns.append(&mut added);
    ProxySettings {
        auto_config_url: system.auto_config_url,
        proxy_enable: system.proxy_enable,
        proxy_server: system.proxy_server,
        proxy_override: patterns,
    }
}

/// What the text of a list of patterns holds: the pieces between its `;`.
pub fn split_proxy_override(raw: &str) -> (patterns: Vec<String>)
    ensures
        texts_of(patterns@) == split_on(raw@, ';'),
{
    let chars = chars_of(raw);
    let n = chars.len();
    let mut patterns: Vec<String> = Vec::new();
    let mut start: usize = 0;
    loop
        invariant
            chars@ == raw@,
            n == chars@.len(),
            start <= n,
            split_on(raw@, ';') == texts_of(patterns@) + split_from(raw@, start as int, ';'),
        decreases n - start,
    {
        let end = find_char(&chars, start, ';');
        let piece = String::from_str(raw.substring_char(start, end));
        let ghost before = patterns@;
        patterns.push(piece);
        proof {
            assert(texts_of(patterns@) =~= texts_of(before) + seq![raw@.subrange(
                start as int,
                end as int,
            )]);
        }
        if end >= n {
            proof {
                assert(split_from(raw@, start as int, ';') =~= seq![raw@.subrange(
                    start as int,
                    n as int,
                )]);
            }
            return patterns;
        }
        proof {
            assert(split_from(raw@, start as int, ';') =~= seq![raw@.subrange(
                start as int,
                end as int,
            )] + split_from(raw@, end + 1, ';'));
        }
        start = end + 1;
    }
}

/// What every refusal of a definition says.
pub open spec fn key_val_message() -> Seq<char> {
    "Define must be in KEY=VALUE format"@
}

/// A definition cut at its first `=`: the key before it and the value after
/// it. A text without `=` is refused.
pub open spec fn key_val_of(text: Seq<char>) -> Option<(Seq<char>, Seq<char>)> {
    let at = next_index_of(text, 0, '=');
    if at < text.len() {
        Some((text.subrange(0, at), text.subrange(at + 1, text.len() as int)))
    } else {
        None
    }
}

/// The key and the value of a definition of the form `KEY=VALUE`. The key
/// ends at the first `=`; the value may hold more of them.
pub fn parse_key_val(s: &str) -> (r: Result<(String, String), String>)
    ensures
        match key_val_of(s@) {
            Some((key, value)) => r matches Ok(pair) && pair.0@ == key && pair.1@ == value,
            None => r matches Err(message) && message@ == key_val_message(),
        },
{
    let chars = chars_of(s);
    let at = find_char(&chars, 0, '=');
    if at >= chars.len() {
        return Err(String::from_str("Define must be in KEY=VALUE format"));
    }
    let key = String::from_str(s.substring_char(0, at));
    let value = String::from_str(s.substring_char(at + 1, chars.len()));
    Ok((key, value))
}

/// Where the text of an auto-configuration script is to be had.
#[derive(Clone, Debug, PartialEq, Eq)]
pub enum PacLocation {
    /// At this URL, over HTTP or HTTPS.
    Remote(String),
    /// In the file at this path.
    Local(String),
}

/// The characters `http`.
pub open spec fn http_prefix() -> Seq<char> {
    seq!['h', 't', 't', 'p']
}

/// The characters `file://`.
pub open spec fn file_prefix() -> Seq<char> {
    seq!['f', 'i', 'l', 'e', ':', '/', '/']
}

/// Where `text` goes on after the occurrences of `prefix` that stand at
/// `from`, one after the other.
pub open spec fn after_prefixes(text: Seq<char>, from: int, prefix: Seq<char>) -> int
    decreases text.len() - from,
{
    if prefix.len() > 0 && starts_at(text, from, prefix) {
        after_prefixes(text, from + prefix.len(), prefix)
    } else {
        from
    }
}

/// The location that the text of a script's source names: a text that begins
/// with `http` is a URL; any other is the path of a file, without the
/// `file://` that it may begin with, as often as it stands there.
pub open spec fn pac_location_of(source: Seq<char>) -> (bool, Seq<char>) {
    if starts_at(source, 0, http_prefix()) {
        (true, source)
    } else {
        (false, source.subrange(after_prefixes(source, 0, file_prefix()), source.len() as int))
    }
}

/// Where the text of the script that `source` names is to be had.
pub fn pac_location(source: &str) -> (location: PacLocation)
    ensures
        match location {
            PacLocation::Remote(url) => pac_location_of(source@) == (true, url@),
            PacLocation::Local(path) => pac_location_of(source@) == (false, path@),
        },
{
    proof {
        reveal_strlit("http");
        reveal_strlit("file://");
        assert("http"@ =~= http_prefix());
        assert("file://"@ =~= file_prefix());
    }
    let chars = chars_of(source);
    let http = chars_of("http");
    if has_at(&chars, 0, &http) {
        return PacLocation::Remote(String::from_str(source));
    }
    let file = chars_of("file://");
    let mut from: usize = 0;
    while has_at(&chars, from, &file)
        invariant
            chars@ == source@,
            file@ == file_prefix(),
            from <= chars@.len(),
            after_prefixes(source@, 0, file_prefix()) == after_prefixes(
                source@,
                from as int,
                file_prefix(),
            ),
        decreases chars@.len() - from,
    {
        assert(file_prefix().len() == 7);
        assert(from + 7 <= chars.len());
        from = from + 7;
    }
    PacLocation::Local(String::from_str(source.substring_char(from, chars.len())))
}

} // verus!
