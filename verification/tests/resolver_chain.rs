use proxyjs::directive::ProxyParseError;
use proxyjs::resolver::{
    get_resolver, is_bypassed, make_safe_resolver, validate, DirectResolver, PACResolver,
    ResolveError, Resolver, ResolverError, StaticResolver,
};
use proxyjs::script::{load_result, LoadedScript, Script, ScriptError};
use proxyjs::settings::{ConfigError, ProxySettings};

fn names(list: &[&str]) -> Vec<String> {
    list.iter().map(|name| name.to_string()).collect()
}

fn empty_context() -> rquickjs::Context {
    let runtime = rquickjs::Runtime::new().unwrap();
    rquickjs::Context::full(&runtime).unwrap()
}

fn script_context(source: &str) -> LoadedScript {
    LoadedScript {
        ctx: empty_context(),
        source: source.to_string(),
    }
}

fn static_resolver() -> StaticResolver {
    StaticResolver {
        proxy_server: "proxy:8080".to_string(),
        by_pass: names(&["*.internal"]),
    }
}

#[test]
fn static_resolver_bypass_comes_first() {
    let resolver = static_resolver();
    assert_eq!(resolver.resolve("http://a.internal"), Ok("DIRECT".to_string()));
    assert_eq!(
        resolver.resolve("http://a.example.com"),
        Ok("PROXY proxy:8080".to_string())
    );
}

#[test]
fn static_resolver_on_hosts() {
    let resolver = static_resolver();
    assert_eq!(resolver.resolve_host("a.internal"), "DIRECT");
    assert_eq!(resolver.resolve_host("internal"), "PROXY proxy:8080");
    assert_eq!(resolver.resolve_host(""), "PROXY proxy:8080");
    assert_eq!(resolver.no_proxy(), names(&["*.internal"]));
}

#[test]
fn host_is_taken_from_the_url() {
    let resolver = StaticResolver {
        proxy_server: "proxy:8080".to_string(),
        by_pass: names(&["www.example.com"]),
    };
    assert_eq!(
        resolver.resolve("https://user@WWW.Example.com:8443/path?query#part"),
        Ok("DIRECT".to_string())
    );
    assert_eq!(
        resolver.resolve("https://www.example.com.evil.org/www.example.com"),
        Ok("PROXY proxy:8080".to_string())
    );
}

#[test]
fn url_without_host_is_refused() {
    let resolver = static_resolver();
    assert_eq!(resolver.resolve("not a url"), Err(ResolveError::InvalidUrl));
    assert_eq!(resolver.resolve(""), Err(ResolveError::InvalidUrl));
    assert_eq!(resolver.resolve("data:text/plain,Stuff"), Err(ResolveError::InvalidUrl));
    assert_eq!(resolver.resolve("a.internal"), Err(ResolveError::InvalidUrl));
}

#[test]
fn direct_resolver() {
    let resolver = DirectResolver;
    assert_eq!(resolver.resolve("http://a.example.com"), "DIRECT");
    assert_eq!(resolver.resolve("not a url"), "DIRECT");
    assert!(resolver.no_proxy().is_empty());
    let any = Resolver::Direct(DirectResolver);
    assert_eq!(any.resolve("whatever"), Ok("DIRECT".to_string()));
    assert!(any.no_proxy().is_empty());
}

#[test]
fn bypass_list() {
    let patterns = names(&["*.internal", "localhost", "10.*"]);
    assert!(is_bypassed(&patterns, "a.internal"));
    assert!(is_bypassed(&patterns, "localhost"));
    assert!(is_bypassed(&patterns, "10.1.2.3"));
    assert!(!is_bypassed(&patterns, "LOCALHOST"));
    assert!(!is_bypassed(&patterns, "a.example.com"));
    assert!(!is_bypassed(&names(&[]), "a.example.com"));
}

#[test]
fn script_resolver_asks_the_script() {
    let context = script_context(
        "function FindProxyForURL(url, host) { return 'PROXY ' + host + ':3128'; }",
    );
    let resolver = PACResolver::new(context, names(&["*.internal"])).ok().unwrap();
    assert_eq!(
        resolver.resolve("http://www.example.com/index.html"),
        Ok("PROXY www.example.com:3128".to_string())
    );
    assert_eq!(resolver.resolve("http://a.internal/"), Ok("DIRECT".to_string()));
    assert_eq!(resolver.resolve("nothing"), Err(ResolveError::InvalidUrl));
    assert_eq!(resolver.no_proxy(), names(&["*.internal"]));
}

#[test]
fn script_resolver_on_hosts() {
    let context = script_context("function FindProxyForURL(url, host) { return host + '@' + url; }");
    let resolver = PACResolver::new(context, names(&["*.internal"])).ok().unwrap();
    assert_eq!(resolver.resolve_host("u", "a.internal"), "DIRECT");
    assert_eq!(resolver.resolve_host("u", "a.example.com"), "a.example.com@u");
}

#[test]
fn script_resolver_gets_url_and_host() {
    let context = script_context("function FindProxyForURL(url, host) { return url + '|' + host; }");
    let resolver = PACResolver::new(context, names(&[])).ok().unwrap();
    assert_eq!(
        resolver.resolve("http://www.example.com/a"),
        Ok("http://www.example.com/a|www.example.com".to_string())
    );
}

#[test]
fn bypassed_host_never_reaches_the_script() {
    let context = script_context(
        "var calls = 0; function FindProxyForURL(url, host) { calls += 1; return 'PROXY p:' + calls; }",
    );
    let resolver = PACResolver::new(context, names(&["*.internal"])).ok().unwrap();
    assert_eq!(resolver.resolve("http://a.example.com/"), Ok("PROXY p:1".to_string()));
    assert_eq!(resolver.resolve("http://a.internal/"), Ok("DIRECT".to_string()));
    assert_eq!(resolver.resolve("http://b.internal/"), Ok("DIRECT".to_string()));
    assert_eq!(resolver.resolve("http://b.example.com/"), Ok("PROXY p:2".to_string()));
}

#[test]
fn script_without_reply_means_direct() {
    let context = script_context("function FindProxyForURL(url, host) { throw new Error('no'); }");
    let resolver = PACResolver::new(context, names(&[])).ok().unwrap();
    assert_eq!(resolver.resolve("http://a.example.com/"), Ok("DIRECT".to_string()));
    assert_eq!(PACResolver::reply_text(None), "DIRECT");
    assert_eq!(PACResolver::reply_text(Some("PROXY a:1".to_string())), "PROXY a:1");
    assert_eq!(PACResolver::reply_text(Some("".to_string())), "");
}

#[test]
fn script_without_entry_point_is_refused() {
    let context = script_context("var FindProxyForURL = 3; function other() { return 'DIRECT'; }");
    assert_eq!(
        PACResolver::new(context, names(&[])).err(),
        Some(ScriptError::MissingEntryPoint)
    );
    assert_eq!(load_result(true, false), Err(ScriptError::MissingEntryPoint));
    assert_eq!(load_result(false, false), Err(ScriptError::EvaluationFailed));
    assert_eq!(load_result(false, true), Err(ScriptError::EvaluationFailed));
    assert_eq!(load_result(true, true), Ok(()));
    assert!(Script::ready(empty_context(), Ok(())).is_ok());
    assert_eq!(
        Script::ready(empty_context(), Err(ScriptError::MissingEntryPoint)).err(),
        Some(ScriptError::MissingEntryPoint)
    );
}

#[test]
fn script_that_fails_is_refused() {
    assert_eq!(
        PACResolver::new(script_context("function FindProxyForURL( {"), names(&[])).err(),
        Some(ScriptError::EvaluationFailed)
    );
    assert_eq!(
        PACResolver::new(
            script_context("function FindProxyForURL(u, h) { return 'DIRECT'; } throw 1;"),
            names(&[])
        )
        .err(),
        Some(ScriptError::EvaluationFailed)
    );
    assert_eq!(
        PACResolver::new(script_context(""), names(&[])).err(),
        Some(ScriptError::MissingEntryPoint)
    );
}

#[test]
fn script_is_asked_directly() {
    let script = Script::new(script_context(
        "function FindProxyForURL(url, host) { return host === 'a' ? 'DIRECT' : 7; }",
    ))
    .ok()
    .unwrap();
    assert_eq!(script.find_proxy_for_url("http://a/", "a"), Some("DIRECT".to_string()));
    let other = script.find_proxy_for_url("http://b/", "b");
    assert!(other.is_none() || other == Some("7".to_string()));
}

#[test]
fn script_keeps_its_state_between_calls() {
    let script = script_context(
        "var seen = []; function FindProxyForURL(url, host) { seen.push(host); return 'PROXY p:' + seen.length; }",
    );
    let resolver = PACResolver::new(script, names(&[])).ok().unwrap();
    assert_eq!(resolver.resolve("http://a.example.com/"), Ok("PROXY p:1".to_string()));
    assert_eq!(resolver.resolve("http://b.example.com/"), Ok("PROXY p:2".to_string()));
    assert_eq!(resolver.resolve("http://c.example.com/"), Ok("PROXY p:3".to_string()));
}

#[test]
fn validating_resolver_refuses_nonsense() {
    let context = script_context("function FindProxyForURL(url, host) { return 'NONSENSE'; }");
    let inner = Resolver::Pac(PACResolver::new(context, names(&["*.internal"])).ok().unwrap());
    assert_eq!(inner.resolve("http://a.example.com/"), Ok("NONSENSE".to_string()));
    let safe = make_safe_resolver(inner);
    assert_eq!(
        safe.resolve("http://a.example.com/"),
        Err(ResolveError::InvalidDirective {
            raw: "NONSENSE".to_string(),
            error: ProxyParseError::UnexpectedToken,
        })
    );
    assert_eq!(safe.resolve("http://a.internal/"), Ok("DIRECT".to_string()));
    assert_eq!(safe.resolve("nothing"), Err(ResolveError::InvalidUrl));
    assert_eq!(safe.no_proxy(), names(&["*.internal"]));
}

#[test]
fn validating_resolver_gives_the_canonical_form() {
    let context = script_context(
        "function FindProxyForURL(url, host) { return '  proxy proxy.example.com:8080 ;; '; }",
    );
    let safe = make_safe_resolver(Resolver::Pac(
        PACResolver::new(context, names(&[])).ok().unwrap(),
    ));
    assert_eq!(
        safe.resolve("http://a.example.com/"),
        Ok("PROXY proxy.example.com:8080".to_string())
    );
    let twice = make_safe_resolver(make_safe_resolver(Resolver::Static(static_resolver())));
    assert_eq!(twice.resolve("http://a.example.com"), Ok("PROXY proxy:8080".to_string()));
}

#[test]
fn validating_resolver_checks_the_static_proxy() {
    let safe = make_safe_resolver(Resolver::Static(StaticResolver {
        proxy_server: "proxy 8080".to_string(),
        by_pass: names(&[]),
    }));
    assert_eq!(
        safe.resolve("http://a.example.com"),
        Err(ResolveError::InvalidDirective {
            raw: "PROXY proxy 8080".to_string(),
            error: ProxyParseError::UnexpectedToken,
        })
    );
    let unnamed = make_safe_resolver(Resolver::Static(StaticResolver {
        proxy_server: "".to_string(),
        by_pass: names(&[]),
    }));
    assert_eq!(
        unnamed.resolve("http://a.example.com"),
        Err(ResolveError::InvalidDirective {
            raw: "PROXY ".to_string(),
            error: ProxyParseError::MissingAddress,
        })
    );
}

#[test]
fn validate_each_kind_of_answer() {
    assert_eq!(validate(Ok(" direct ".to_string())), Ok("DIRECT".to_string()));
    assert_eq!(
        validate(Ok("PROXY h:".to_string())),
        Err(ResolveError::InvalidDirective {
            raw: "PROXY h:".to_string(),
            error: ProxyParseError::InvalidPort,
        })
    );
    assert_eq!(
        validate(Ok("PROXY h.".to_string())),
        Err(ResolveError::InvalidDirective {
            raw: "PROXY h.".to_string(),
            error: ProxyParseError::InvalidAddress,
        })
    );
    assert_eq!(validate(Err(ResolveError::InvalidUrl)), Err(ResolveError::InvalidUrl));
}

#[test]
fn resolver_for_settings() {
    let direct = get_resolver(
        ProxySettings {
            auto_config_url: None,
            proxy_enable: false,
            proxy_server: Some("proxy:8080".to_string()),
            proxy_override: names(&["*.internal"]),
        },
        None,
    )
    .ok()
    .unwrap();
    assert!(matches!(direct, Resolver::Direct(_)));
    assert_eq!(direct.resolve("http://a.example.com"), Ok("DIRECT".to_string()));

    let fixed = get_resolver(
        ProxySettings {
            auto_config_url: None,
            proxy_enable: true,
            proxy_server: Some("proxy:8080".to_string()),
            proxy_override: names(&["*.internal"]),
        },
        None,
    )
    .ok()
    .unwrap();
    assert_eq!(fixed.resolve("http://a.example.com"), Ok("PROXY proxy:8080".to_string()));
    assert_eq!(fixed.resolve("http://a.internal"), Ok("DIRECT".to_string()));
    assert_eq!(fixed.no_proxy(), names(&["*.internal"]));

    let unnamed = get_resolver(
        ProxySettings {
            auto_config_url: None,
            proxy_enable: true,
            proxy_server: None,
            proxy_override: names(&[]),
        },
        None,
    )
    .ok()
    .unwrap();
    assert_eq!(unnamed.resolve("http://a.example.com"), Ok("PROXY ".to_string()));
}

#[test]
fn resolver_for_settings_with_a_script() {
    let settings = ProxySettings {
        auto_config_url: Some("proxy.pac".to_string()),
        proxy_enable: false,
        proxy_server: Some("proxy:8080".to_string()),
        proxy_override: names(&["*.internal"]),
    };
    assert_eq!(
        get_resolver(settings.clone(), None).err(),
        Some(ResolverError::Script(ScriptError::NotLoaded))
    );
    assert_eq!(
        get_resolver(settings.clone(), Some(script_context("var x = 1;"))).err(),
        Some(ResolverError::Script(ScriptError::MissingEntryPoint))
    );
    assert_eq!(
        get_resolver(settings.clone(), Some(script_context("var x = ;"))).err(),
        Some(ResolverError::Script(ScriptError::EvaluationFailed))
    );
    let context = script_context("function FindProxyForURL(url, host) { return 'PROXY pac:1'; }");
    let resolver = get_resolver(settings, Some(context)).ok().unwrap();
    assert!(matches!(resolver, Resolver::Pac(_)));
    assert_eq!(resolver.resolve("http://a.example.com"), Ok("PROXY pac:1".to_string()));
    assert_eq!(resolver.resolve("http://a.internal"), Ok("DIRECT".to_string()));
}

#[test]
fn resolver_for_settings_with_both_sources_is_refused() {
    let settings = ProxySettings {
        auto_config_url: Some("proxy.pac".to_string()),
        proxy_enable: true,
        proxy_server: Some("proxy:8080".to_string()),
        proxy_override: names(&["*.internal"]),
    };
    assert_eq!(
        get_resolver(settings.clone(), None).err(),
        Some(ResolverError::Config(ConfigError::ConflictingSources))
    );
    let context = script_context("function FindProxyForURL(url, host) { return 'PROXY pac:1'; }");
    assert_eq!(
        get_resolver(settings.clone(), Some(context)).err(),
        Some(ResolverError::Config(ConfigError::ConflictingSources))
    );
    let unnamed = ProxySettings {
        auto_config_url: Some("".to_string()),
        proxy_enable: true,
        proxy_server: None,
        proxy_override: names(&[]),
    };
    assert_eq!(
        get_resolver(unnamed, None).err(),
        Some(ResolverError::Config(ConfigError::ConflictingSources))
    );
}
