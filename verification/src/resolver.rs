//! Resolvers: the ways of finding the directive for a URL.
//!
//! A resolver answers with a directive for each URL. The direct resolver uses
//! no proxy; the static one names its proxy server unless the host of the URL
//! matches one of its bypass patterns; the script-driven one asks the
//! function `FindProxyForURL` of an auto-configuration script, again unless
//! the host is bypassed. A safe resolver stands around another and lets
//! nothing through that is no directive.

use vstd::prelude::*;
use crate::canonical::lemma_canonical_form_is_fixed;
use crate::directive::{direct_keyword, parse_directive, proxy_prefix, ProxyParseError};
use crate::fnmatch::{fnmatch, text_match};
use crate::parser::ProxyParser;
use crate::script::{LoadedScript, Script, ScriptError};
use crate::settings::{strategy_of, ConfigError, ProxySettings, Strategy};
use crate::text::texts_of;

verus! {

/// The host of the URL `url`, if `url` is a URL and has one.
pub uninterp spec fn url_host(url: Seq<char>) -> Option<Seq<char>>;

/// `Url::parse` and `Url::host_str` of the url crate: the host of a URL as
/// the crate writes it, and nothing where the text is no absolute URL or the
/// URL has no host. The result is a function of the text alone.
#[verifier::external_body]
fn host_of_url(url: &str) -> (host: Option<String>)
    ensures
        url_host(url@) == match host {
            Some(name) => Some(name@),
            None => None,
        },
{
    match url::Url::parse(url) {
        Ok(parsed) => parsed.host_str().map(|name| name.to_string()),
        Err(_) => None,
    }
}

/// Why no directive was found for a URL.
#[derive(Clone, Debug, PartialEq, Eq)]
pub enum ResolveError {
    /// The text is no URL, or the URL has no host.
    InvalidUrl,
    /// The resolver answered with `raw`, which is no directive.
    InvalidDirective { raw: String, error: ProxyParseError },
}

/// What a resolver may answer for a URL, as plain values.
pub enum Resolution {
    /// This directive.
    Directive(Seq<char>),
    /// The text is no URL, or the URL has no host.
    InvalidUrl,
    /// The answer `raw` is no directive, for the reason `error`.
    InvalidDirective { raw: Seq<char>, error: ProxyParseError },
}

/// What the result of a resolver says, as plain values.
pub open spec fn resolution_of(r: Result<String, ResolveError>) -> Resolution {
    match r {
        Ok(text) => Resolution::Directive(text@),
        Err(ResolveError::InvalidUrl) => Resolution::InvalidUrl,
        Err(ResolveError::InvalidDirective { raw, error }) => Resolution::InvalidDirective {
            raw: raw@,
            error,
        },
    }
}

/// Whether `host` matches one of the patterns of `by_pass`.
pub open spec fn bypassed(by_pass: Seq<Seq<char>>, host: Seq<char>) -> bool {
    exists|i: int| 0 <= i < by_pass.len() && text_match(#[trigger] by_pass[i], host)
}

/// What the static resolver answers for a host: `DIRECT` if the host is
/// bypassed, else `PROXY`, a space and the proxy server.
pub open spec fn static_answer(proxy_server: Seq<char>, by_pass: Seq<Seq<char>>, host: Seq<char>)
    -> Seq<char> {
    if bypassed(by_pass, host) {
        direct_keyword()
    } else {
        proxy_prefix() + proxy_server
    }
}

/// What the script-driven resolver may answer for a URL, whatever the script
/// replies: a directive if the URL has a host, and `DIRECT` if that host is
/// bypassed.
pub open spec fn script_may_answer(by_pass: Seq<Seq<char>>, url: Seq<char>, answer: Resolution)
    -> bool {
    match url_host(url) {
        Some(host) => answer is Directive && (bypassed(by_pass, host) ==> answer
            == Resolution::Directive(direct_keyword())),
        None => answer == Resolution::InvalidUrl,
    }
}

/// What a safe resolver makes of the answer of the resolver it stands
/// around: a directive in its canonical form, the raw answer with the reason
/// why it is no directive, or the failure as it came.
pub open spec fn validated(inner: Resolution) -> Resolution {
    match inner {
        Resolution::Directive(raw) => match parse_directive(raw) {
            Ok(canonical) => Resolution::Directive(canonical),
            Err(error) => Resolution::InvalidDirective { raw, error },
        },
        other => other,
    }
}

/// Whether `host` matches one of the wildcard patterns of `by_pass`.
pub fn is_bypassed(by_pass: &Vec<String>, host: &str) -> (found: bool)
    ensures
        found == bypassed(texts_of(by_pass@), host@),
{
    let mut i: usize = 0;
    while i < by_pass.len()
        invariant
            i <= by_pass@.len(),
            forall|k: int| 0 <= k < i ==> !text_match(#[trigger] texts_of(by_pass@)[k], host@),
        decreases by_pass@.len() - i,
    {
        if fnmatch(by_pass[i].as_str(), host) {
            assert(text_match(texts_of(by_pass@)[i as int], host@));
            return true;
        }
        i += 1;
    }
    false
}

/// A copy of a list of patterns.
fn copy_patterns(patterns: &Vec<String>) -> (copy: Vec<String>)
    ensures
        texts_of(copy@) == texts_of(patterns@),
{
    let mut copy: Vec<String> = Vec::new();
    let mut i: usize = 0;
    while i < patterns.len()
        invariant
            i <= patterns@.len(),
            copy@.len() == i,
            forall|k: int| 0 <= k < i ==> (#[trigger] copy@[k])@ == patterns@[k]@,
        decreases patterns@.len() - i,
    {
        copy.push(patterns[i].clone());
        i += 1;
    }
    assert(texts_of(copy@) =~= texts_of(patterns@));
    copy
}

/// The directive `DIRECT`.
fn direct() -> (text: String)
    ensures
        text@ == direct_keyword(),
{
    proof {
        reveal_strlit("DIRECT");
        assert("DIRECT"@ =~= direct_keyword());
    }
    String::from_str("DIRECT")
}

/// The resolver that uses no proxy.
pub struct DirectResolver;

impl DirectResolver {
    /// The directive for `url`: `DIRECT`, whatever the URL.
    pub fn resolve(&self, url: &str) -> (directive: String)
        ensures
            directive@ == direct_keyword(),
    {
        direct()
    }

    /// The bypass patterns of the resolver: none.
    pub fn no_proxy(&self) -> (patterns: Vec<String>)
        ensures
            patterns@.len() == 0,
    {
        Vec::new()
    }
}

/// The resolver that names one proxy server for every host that is not
/// bypassed.
pub struct StaticResolver {
    /// The proxy server, as it is written after `PROXY`.
    pub proxy_server: String,
    /// The wildcard patterns of the hosts that are reached directly.
    pub by_pass: Vec<String>,
}

impl StaticResolver {
    /// The directive for the host `host`.
    pub fn resolve_host(&self, host: &str) -> (directive: String)
        ensures
            directive@ == static_answer(self.proxy_server@, texts_of(self.by_pass@), host@),
    {
        if is_bypassed(&self.by_pass, host) {
            direct()
        } else {
            proof {
                reveal_strlit("PROXY ");
                assert("PROXY "@ =~= proxy_prefix());
            }
            String::from_str("PROXY ").concat(self.proxy_server.as_str())
        }
    }

    /// The directive for `url`: that for its host. A text that is no URL, or
    /// a URL without a host, is refused.
    pub fn resolve(&self, url: &str) -> (r: Result<String, ResolveError>)
        ensures
            resolution_of(r) == match url_host(url@) {
                Some(host) => Resolution::Directive(
                    static_answer(self.proxy_server@, texts_of(self.by_pass@), host),
                ),
                None => Resolution::InvalidUrl,
            },
    {
        match host_of_url(url) {
            Some(host) => Ok(self.resolve_host(host.as_str())),
            None => Err(ResolveError::InvalidUrl),
        }
    }

    /// The bypass patterns of the resolver.
    pub fn no_proxy(&self) -> (patterns: Vec<String>)
        ensures
            texts_of(patterns@) == texts_of(self.by_pass@),
    {
        copy_patterns(&self.by_pass)
    }
}

/// The resolver that asks an auto-configuration script. The script is the
/// resolver's own, and serves all its calls.
pub struct PACResolver {
    /// The script, evaluated in its context.
    pub script: Script,
    /// The wildcard patterns of the hosts that are reached directly.
    pub by_pass: Vec<String>,
}

impl PACResolver {
    /// A resolver on `script`, which is evaluated first. A script that does
    /// not run to its end is refused, and so is one that defines no
    /// `FindProxyForURL`.
    pub fn new(script: LoadedScript, by_pass: Vec<String>) -> (r: Result<PACResolver, ScriptError>)
        ensures
            match r {
                Ok(resolver) => resolver.script.context() == script.ctx && resolver.by_pass
                    == by_pass,
                Err(error) => error == ScriptError::EvaluationFailed || error
                    == ScriptError::MissingEntryPoint,
            },
    {
        match Script::new(script) {
            Ok(script) => Ok(PACResolver { script, by_pass }),
            Err(error) => Err(error),
        }
    }

    /// The directive for a host that is not bypassed, from what the script
    /// replied: the reply as it is, or `DIRECT` where there is none.
    pub fn reply_text(reply: Option<String>) -> (directive: String)
        ensures
            directive@ == match reply {
                Some(text) => text@,
                None => direct_keyword(),
            },
    {
        match reply {
            Some(text) => text,
            None => direct(),
        }
    }

    /// The directive for `url`, whose host is `host`: `DIRECT` if the host is
    /// bypassed, and the script is then not asked; else what the script
    /// replies for the URL and the host.
    pub fn resolve_host(&self, url: &str, host: &str) -> (directive: String)
        ensures
            bypassed(texts_of(self.by_pass@), host@) ==> directive@ == direct_keyword(),
    {
        if is_bypassed(&self.by_pass, host) {
            direct()
        } else {
            PACResolver::reply_text(self.script.find_proxy_for_url(url, host))
        }
    }

    /// The directive for `url`: that for the URL and its host. A text that is
    /// no URL, or a URL without a host, is refused.
    ///
    /// The script engine is entered where the script is asked, and it can be
    /// entered once at a time only: this may not be called from a function
    /// that a script of the same engine has called. The engine gives up on a
    /// second entry.
    pub fn resolve(&self, url: &str) -> (r: Result<String, ResolveError>)
        ensures
            script_may_answer(texts_of(self.by_pass@), url@, resolution_of(r)),
    {
        match host_of_url(url) {
            Some(host) => Ok(self.resolve_host(url, host.as_str())),
            None => Err(ResolveError::InvalidUrl),
        }
    }

    /// The bypass patterns of the resolver.
    pub fn no_proxy(&self) -> (patterns: Vec<String>)
        ensures
            texts_of(patterns@) == texts_of(self.by_pass@),
    {
        copy_patterns(&self.by_pass)
    }
}

/// The resolver that stands around another and answers with directives only.
pub struct SafeResolver {
    /// The resolver whose answers are checked.
    pub parent: Box<Resolver>,
}

/// A resolver of one of the four kinds.
pub enum Resolver {
    /// No proxy is used.
    Direct(DirectResolver),
    /// One proxy server is named.
    Static(StaticResolver),
    /// A script is asked.
    Pac(PACResolver),
    /// The answers of another resolver are checked.
    Safe(SafeResolver),
}

/// What is made of the answer of a resolver that is checked: a directive is
/// given in its canonical form, any other text is refused with the reason,
/// and a failure is handed on.
pub fn validate(inner: Result<String, ResolveError>) -> (r: Result<String, ResolveError>)
    ensures
        resolution_of(r) == validated(resolution_of(inner)),
{
    match inner {
        Ok(raw) => {
            let parsed = ProxyParser::new(raw.as_str()).parse();
            match parsed {
                Ok(canonical) => Ok(canonical),
                Err(error) => Err(ResolveError::InvalidDirective { raw, error }),
            }
        },
        Err(error) => Err(error),
    }
}

impl SafeResolver {
    /// What the resolver may answer for `url`: what is made of an answer of
    /// the resolver it stands around.
    pub open spec fn may_resolve(&self, url: Seq<char>, answer: Resolution) -> bool
        decreases self,
    {
        exists|inner: Resolution|
            answer == #[trigger] validated(inner) && self.parent.may_resolve(url, inner)
    }

    /// The directive for `url`, in its canonical form: the answer of the
    /// resolver that is checked, if it is a directive. Any other answer is
    /// refused, and comes back with the reason why it is no directive.
    pub fn resolve(&self, url: &str) -> (r: Result<String, ResolveError>)
        ensures
            self.may_resolve(url@, resolution_of(r)),
        decreases self,
    {
        let inner = self.parent.resolve(url);
        let ghost told = resolution_of(inner);
        let r = validate(inner);
        assert(self.parent.may_resolve(url@, told) && resolution_of(r) == validated(told));
        r
    }

    /// The bypass patterns of the resolver that is checked.
    pub fn no_proxy(&self) -> (patterns: Vec<String>)
        ensures
            texts_of(patterns@) == self.parent.bypass_patterns(),
        decreases self,
    {
        self.parent.no_proxy()
    }
}

impl Resolver {
    /// What the resolver may answer for `url`. The answer is fixed by the
    /// resolver and the URL, but for what a script replies.
    pub open spec fn may_resolve(&self, url: Seq<char>, answer: Resolution) -> bool
        decreases self,
    {
        match self {
            Resolver::Direct(_) => answer == Resolution::Directive(direct_keyword()),
            Resolver::Static(resolver) => answer == match url_host(url) {
                Some(host) => Resolution::Directive(
                    static_answer(resolver.proxy_server@, texts_of(resolver.by_pass@), host),
                ),
                None => Resolution::InvalidUrl,
            },
            Resolver::Pac(resolver) => script_may_answer(texts_of(resolver.by_pass@), url, answer),
            Resolver::Safe(resolver) => resolver.may_resolve(url, answer),
        }
    }

    /// The bypass patterns of the resolver: its own, those of the resolver
    /// that it checks, or none.
    pub open spec fn bypass_patterns(&self) -> Seq<Seq<char>>
        decreases self,
    {
        match self {
            Resolver::Direct(_) => Seq::<Seq<char>>::empty(),
            Resolver::Static(resolver) => texts_of(resolver.by_pass@),
            Resolver::Pac(resolver) => texts_of(resolver.by_pass@),
            Resolver::Safe(resolver) => resolver.parent.bypass_patterns(),
        }
    }

    /// The directive for `url`.
    pub fn resolve(&self, url: &str) -> (r: Result<String, ResolveError>)
        ensures
            self.may_resolve(url@, resolution_of(r)),
        decreases self,
    {
        match self {
            Resolver::Direct(resolver) => Ok(resolver.resolve(url)),
            Resolver::Static(resolver) => resolver.resolve(url),
            Resolver::Pac(resolver) => resolver.resolve(url),
            Resolver::Safe(resolver) => resolver.resolve(url),
        }
    }

    /// The bypass patterns of the resolver.
    pub fn no_proxy(&self) -> (patterns: Vec<String>)
        ensures
            texts_of(patterns@) == self.bypass_patterns(),
        decreases self,
    {
        match self {
            Resolver::Direct(resolver) => {
                let patterns = resolver.no_proxy();
                assert(texts_of(patterns@) =~= Seq::<Seq<char>>::empty());
                patterns
            },
            Resolver::Static(resolver) => resolver.no_proxy(),
            Resolver::Pac(resolver) => resolver.no_proxy(),
            Resolver::Safe(resolver) => resolver.no_proxy(),
        }
    }
}

/// The resolver that checks the answers of `resolver`.
pub fn make_safe_resolver(resolver: Resolver) -> (safe: Resolver)
    ensures
        safe == Resolver::Safe(SafeResolver { parent: Box::new(resolver) }),
{
    Resolver::Safe(SafeResolver { parent: Box::new(resolver) })
}

/// The name of the static proxy server of settings: the empty name where the
/// settings give none.
pub open spec fn named_server(proxy_server: Option<String>) -> Seq<char> {
    match proxy_server {
        Some(server) => server@,
        None => Seq::<char>::empty(),
    }
}

/// Why no resolver could be made.
#[derive(Clone, Copy, Debug, PartialEq, Eq, Structural)]
pub enum ResolverError {
    /// The settings are at fault.
    Config(ConfigError),
    /// The script is at fault.
    Script(ScriptError),
}

/// The resolver that the settings ask for: a script-driven one on `script`
/// if a script is configured, a static one if the static proxy is enabled,
/// and the direct one if neither is. Settings with a script and an enabled
/// static proxy are refused before anything is done with the script. The
/// bypass patterns are those of the settings. A static proxy that is enabled
/// and not named is the empty name.
pub fn get_resolver(settings: ProxySettings, script: Option<LoadedScript>) -> (r: Result<
    Resolver,
    ResolverError,
>)
    ensures
        match strategy_of(settings.auto_config_url is Some, settings.proxy_enable) {
            Err(error) => r matches Err(ResolverError::Config(reason)) && reason == error,
            Ok(Strategy::Script) => match script {
                Some(loaded) => match r {
                    Ok(resolver) => resolver matches Resolver::Pac(asking)
                        && asking.script.context() == loaded.ctx && asking.by_pass
                        == settings.proxy_override,
                    Err(error) => error == ResolverError::Script(ScriptError::EvaluationFailed)
                        || error == ResolverError::Script(ScriptError::MissingEntryPoint),
                },
                None => r matches Err(ResolverError::Script(ScriptError::NotLoaded)),
            },
            Ok(Strategy::Static) => r matches Ok(Resolver::Static(resolver)) && resolver.by_pass
                == settings.proxy_override && resolver.proxy_server@ == named_server(
                settings.proxy_server,
            ),
            Ok(Strategy::Direct) => r matches Ok(Resolver::Direct(_)),
        },
{
    match settings.strategy() {
        Err(error) => Err(ResolverError::Config(error)),
        Ok(Strategy::Script) => match script {
            Some(loaded) => match PACResolver::new(loaded, settings.proxy_override) {
                Ok(resolver) => Ok(Resolver::Pac(resolver)),
                Err(error) => Err(ResolverError::Script(error)),
            },
            None => Err(ResolverError::Script(ScriptError::NotLoaded)),
        },
        Ok(Strategy::Static) => {
            let proxy_server = match settings.proxy_server {
                Some(server) => server,
                None => String::new(),
            };
            Ok(Resolver::Static(StaticResolver { proxy_server, by_pass: settings.proxy_override }))
        },
        Ok(Strategy::Direct) => Ok(Resolver::Direct(DirectResolver)),
    }
}

/// Nothing that is no directive comes out of a safe resolver: every text it
/// answers with is a directive in its canonical form, and every answer that
/// it refuses comes back with the reason for which the parser refuses it.
pub proof fn lemma_safe_resolver_answers_with_directives(
    resolver: SafeResolver,
    url: Seq<char>,
    answer: Resolution,
)
    requires
        resolver.may_resolve(url, answer),
    ensures
        answer matches Resolution::Directive(text) ==> parse_directive(text) == Ok::<
            Seq<char>,
            ProxyParseError,
        >(text),
        answer matches Resolution::InvalidDirective { raw, error } ==> parse_directive(raw)
            == Err::<Seq<char>, ProxyParseError>(error),
    decreases resolver,
{
    let inner = choose|inner: Resolution|
        answer == #[trigger] validated(inner) && resolver.parent.may_resolve(url, inner);
    match inner {
        Resolution::Directive(raw) => {
            match parse_directive(raw) {
                Ok(canonical) => {
                    lemma_canonical_form_is_fixed(raw, canonical);
                },
                Err(_) => {},
            }
        },
        Resolution::InvalidUrl => {},
        Resolution::InvalidDirective { raw, error } => {
            lemma_refusals_are_founded(*resolver.parent, url, inner);
        },
    }
}

/// A resolver refuses an answer as no directive only for the reason for
/// which the parser refuses it.
pub proof fn lemma_refusals_are_founded(resolver: Resolver, url: Seq<char>, answer: Resolution)
    requires
        resolver.may_resolve(url, answer),
    ensures
        answer matches Resolution::InvalidDirective { raw, error } ==> parse_directive(raw)
            == Err::<Seq<char>, ProxyParseError>(error),
    decreases resolver,
{
    match resolver {
        Resolver::Safe(safe) => {
            lemma_safe_resolver_answers_with_directives(safe, url, answer);
        },
        _ => {},
    }
}

/// A host that is bypassed gets `DIRECT` from the static resolver and from
/// the script-driven one, whatever the proxy server and the script.
pub proof fn lemma_bypass_comes_first(resolver: Resolver, url: Seq<char>, answer: Resolution)
    requires
        resolver is Static || resolver is Pac,
        resolver.may_resolve(url, answer),
        url_host(url) matches Some(host) && bypassed(resolver.bypass_patterns(), host),
    ensures
        answer == Resolution::Directive(direct_keyword()),
{
}

} // verus!
