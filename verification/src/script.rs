//! The script engine: what is asked of an auto-configuration script, and of
//! the context in which it runs.
//!
//! The engine is entered through a context. Inside, a script is evaluated,
//! its function `FindProxyForURL` is looked up and called, and the engine
//! collects its garbage after each call, so that one context serves a
//! resolver for as long as it lives.

use vstd::prelude::*;

verus! {

/// The execution context of a script, which belongs to the script engine.
#[verifier::external_type_specification]
#[verifier::external_body]
pub struct ExContext(rquickjs::Context);

/// The engine as it is seen from inside a context.
#[verifier::external_type_specification]
#[verifier::external_body]
pub struct ExCtx<'js>(rquickjs::Ctx<'js>);

/// A function of a script.
#[verifier::external_type_specification]
#[verifier::external_body]
pub struct ExFunction<'js>(rquickjs::Function<'js>);

/// Why a script cannot serve a resolver.
#[derive(Clone, Copy, Debug, PartialEq, Eq, Structural)]
pub enum ScriptError {
    /// The settings ask for a script, and none was loaded.
    NotLoaded,
    /// The script did not run to its end.
    EvaluationFailed,
    /// The script defines no function `FindProxyForURL`.
    MissingEntryPoint,
}

/// `Ctx::eval` of rquickjs: evaluates the text of a script, and says whether
/// it ran to its end without an exception. Nothing is known of the answer:
/// it is the script's. A script that runs for ever keeps the call from
/// returning.
#[verifier::external_body]
fn evaluate(ctx: &rquickjs::Ctx<'_>, source: &str) -> (ran: bool) {
    ctx.eval::<(), _>(source).is_ok()
}

/// `Ctx::globals` and `Object::get` of rquickjs: the function that the
/// script has defined under the name `name`, if it has defined one.
#[verifier::external_body]
fn entry_point<'js>(ctx: &rquickjs::Ctx<'js>, name: &str) -> (function: Option<
    rquickjs::Function<'js>,
>) {
    ctx.globals().get(name).ok()
}

/// The name of the function that a script defines to be asked:
/// `FindProxyForURL`.
pub open spec fn entry_point_name() -> Seq<char> {
    "FindProxyForURL"@
}

/// The name of the function that a script defines to be asked.
pub fn find_proxy_for_url_name() -> (name: &'static str)
    ensures
        name@ == entry_point_name(),
{
    "FindProxyForURL"
}

/// `Function::call` of rquickjs: calls a function of the script with a URL
/// and a host, and gives what it returned if that is a text. Nothing is known
/// of the reply: it is the script's. A script that runs for ever keeps the
/// call from returning.
#[verifier::external_body]
fn call_with(function: &rquickjs::Function<'_>, url: &str, host: &str) -> (reply: Option<String>) {
    function.call((url.to_string(), host.to_string())).ok()
}

/// `Ctx::run_gc` of rquickjs: lets the engine collect its garbage.
#[verifier::external_body]
fn collect_garbage(ctx: &rquickjs::Ctx<'_>) {
    ctx.run_gc()
}

/// What the loading of a script comes to: a script that did not run to its
/// end has failed, and one that ran and left no entry point lacks it.
pub fn load_result(ran: bool, entry_point_found: bool) -> (r: Result<(), ScriptError>)
    ensures
        r == (if !ran {
            Err::<(), ScriptError>(ScriptError::EvaluationFailed)
        } else if !entry_point_found {
            Err::<(), ScriptError>(ScriptError::MissingEntryPoint)
        } else {
            Ok::<(), ScriptError>(())
        }),
{
    if !ran {
        Err(ScriptError::EvaluationFailed)
    } else if !entry_point_found {
        Err(ScriptError::MissingEntryPoint)
    } else {
        Ok(())
    }
}

/// Evaluates the text of a script inside the engine, and looks for its entry
/// point if it ran to its end: whether it ran, and whether the entry point was
/// found.
pub fn load(ctx: &rquickjs::Ctx<'_>, source: &str) -> (r: (bool, bool))
    ensures
        r.1 ==> r.0,
{
    let ran = evaluate(ctx, source);
    let found = ran && entry_point(ctx, find_proxy_for_url_name()).is_some();
    (ran, found)
}

/// Asks the script inside the engine for the proxy of a URL and its host:
/// what `FindProxyForURL` returns, or nothing where the script has no such
/// function or the call fails. The garbage is collected in each case.
pub fn ask(ctx: &rquickjs::Ctx<'_>, url: &str, host: &str) -> (reply: Option<String>) {
    let reply = match entry_point(ctx, find_proxy_for_url_name()) {
        Some(function) => call_with(&function, url, host),
        None => None,
    };
    collect_garbage(ctx);
    reply
}

/// `Context::with` of rquickjs: enters the engine and loads a script there.
#[verifier::external_body]
fn load_in(context: &rquickjs::Context, source: &str) -> (r: (bool, bool)) {
    context.with(|ctx| load(&ctx, source))
}

/// `Context::with` of rquickjs: enters the engine and asks the script there.
#[verifier::external_body]
fn ask_in(context: &rquickjs::Context, url: &str, host: &str) -> (reply: Option<String>) {
    context.with(|ctx| ask(&ctx, url, host))
}

/// The text of a script and the context in which it is to run. The context
/// holds what the script may call.
pub struct LoadedScript {
    /// The context of the script engine.
    pub ctx: rquickjs::Context,
    /// The text of the script.
    pub source: String,
}

/// A script that has been evaluated in its context and has an entry point.
pub struct Script {
    ctx: rquickjs::Context,
}

impl Script {
    /// The context in which the script runs.
    pub closed spec fn context(&self) -> rquickjs::Context {
        self.ctx
    }

    /// The script that is ready if loading came to `loaded`.
    pub fn ready(ctx: rquickjs::Context, loaded: Result<(), ScriptError>) -> (r: Result<
        Script,
        ScriptError,
    >)
        ensures
            match loaded {
                Ok(_) => r matches Ok(script) && script.context() == ctx,
                Err(error) => r matches Err(reason) && reason == error,
            },
    {
        match loaded {
            Ok(_) => Ok(Script { ctx }),
            Err(error) => Err(error),
        }
    }

    /// Evaluates the text of `script` in its context. A script that does not
    /// run to its end is refused, and so is one that defines no
    /// `FindProxyForURL`.
    ///
    /// The engine is entered for the evaluation, and it can be entered once
    /// at a time only: this may not be called from a function that a script
    /// of the same engine has called, nor from inside another entry of it.
    /// The engine gives up on a second entry.
    pub fn new(script: LoadedScript) -> (r: Result<Script, ScriptError>)
        ensures
            match r {
                Ok(ready) => ready.context() == script.ctx,
                Err(error) => error == ScriptError::EvaluationFailed || error
                    == ScriptError::MissingEntryPoint,
            },
    {
        let (ran, found) = load_in(&script.ctx, script.source.as_str());
        Script::ready(script.ctx, load_result(ran, found))
    }

    /// What the script replies for a URL and its host, if it replies.
    ///
    /// The engine is entered for the call, and it can be entered once at a
    /// time only: this may not be called from a function that a script of the
    /// same engine has called, nor from inside another entry of it. The
    /// engine gives up on a second entry.
    pub fn find_proxy_for_url(&self, url: &str, host: &str) -> (reply: Option<String>) {
        ask_in(&self.ctx, url, host)
    }
}

} // verus!
