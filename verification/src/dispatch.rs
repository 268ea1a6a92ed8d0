use vstd::prelude::*;
use crate::cmdline::{tokenize, tokenize_spec};
use crate::config::{resolved_manager, Config};
use crate::errors::ProxyError;
use crate::text::{chars_of, chars_to_string};

verus! {

/// The scheme this dispatcher is registered for.
pub open spec fn scheme_name() -> Seq<char> {
    "nxm"@
}

/// The scheme and host of a URL string: what the URL parser returns for it,
/// a function of the string alone. `None` where the string is no absolute
/// URL or has no host.
pub uninterp spec fn url_parts_of(s: Seq<char>) -> Option<(Seq<char>, Seq<char>)>;

/// The scheme and the host of a parsed URL. The host is read as the game
/// identifier; the URL itself is passed on verbatim.
pub struct UrlParts {
    pub scheme: String,
    pub host: String,
}

/// Relies on `url::Url::parse`, `Url::scheme` and `Url::host_str`: parsing
/// an absolute URL is a function of the input string alone and yields its
/// scheme and, when the URL has one, its host.
#[verifier::external_body]
pub fn parse_url_parts(s: &str) -> (r: Option<UrlParts>)
    ensures
        match r {
            Some(p) => url_parts_of(s@) == Some((p.scheme@, p.host@)),
            None => url_parts_of(s@) is None,
        },
{
    match url::Url::parse(s) {
        Ok(u) => match u.host_str() {
            Some(h) => {
                let host = h.to_string();
                Some(UrlParts { scheme: u.scheme().to_string(), host })
            },
            None => None,
        },
        Err(_) => None,
    }
}

/// The template with every placeholder token `%1` replaced by the URL.
pub open spec fn substitute(template: Seq<char>, url: Seq<char>) -> Seq<char>
    decreases template.len(),
{
    if template.len() == 0 {
        Seq::empty()
    } else if template.len() >= 2 && template[0] == '%' && template[1] == '1' {
        url + substitute(template.subrange(2, template.len() as int), url)
    } else {
        seq![template[0]] + substitute(template.drop_first(), url)
    }
}

/// Replaces every placeholder token `%1` in a command template by the URL.
pub fn substitute_placeholder(template: &str, url: &str) -> (r: String)
    ensures
        r@ == substitute(template@, url@),
{
    let tcs = chars_of(template);
    let ucs = chars_of(url);
    let n = tcs.len();
    let u_len = ucs.len();
    let mut out: Vec<char> = Vec::new();
    let mut i: usize = 0;
    proof {
        assert(template@.subrange(0, n as int) =~= template@);
    }
    while i < n
        invariant
            i <= n,
            n == template@.len(),
            tcs@ == template@,
            ucs@ == url@,
            u_len == url@.len(),
            out@ + substitute(template@.subrange(i as int, n as int), url@) == substitute(
                template@,
                url@,
            ),
        decreases n - i,
    {
        let ghost before = out@;
        if i + 1 < n && tcs[i] == '%' && tcs[i + 1] == '1' {
            proof {
                assert(template@.subrange(i as int, n as int).subrange(
                    2,
                    template@.subrange(i as int, n as int).len() as int,
                ) =~= template@.subrange(i + 2, n as int));
            }
            let mut j: usize = 0;
            while j < u_len
                invariant
                    j <= u_len,
                    u_len == url@.len(),
                    ucs@ == url@,
                    out@ == before + url@.take(j as int),
                decreases u_len - j,
            {
                out.push(ucs[j]);
                proof {
                    assert(out@ =~= before + url@.take(j + 1));
                }
                j = j + 1;
            }
            proof {
                assert(url@.take(u_len as int) =~= url@);
            }
            i = i + 2;
        } else {
            proof {
                assert(template@.subrange(i as int, n as int).drop_first() =~= template@.subrange(
                    i + 1,
                    n as int,
                ));
            }
            out.push(tcs[i]);
            proof {
                assert(out@ =~= before + seq![template@[i as int]]);
            }
            i = i + 1;
        }
    }
    proof {
        assert(template@.subrange(n as int, n as int) =~= Seq::<char>::empty());
    }
    chars_to_string(&out)
}

/// Builds the spawn command for a manager: the URL is substituted into the
/// command template and the result is split into executable and arguments.
pub fn build_spawn_command(template: &str, url: &str) -> (r: Result<
    (String, Vec<String>),
    ProxyError,
>)
    ensures
        match tokenize_spec(substitute(template@, url@)) {
            Some(p) => r matches Ok(q) && q.0@ == p.0 && q.1@.map_values(|a: String| a@) == p.1,
            None => r == Err::<(String, Vec<String>), ProxyError>(ProxyError::MalformedCommandLine),
        },
{
    let cmd = substitute_placeholder(template, url);
    tokenize(cmd.as_str())
}

/// The full channel path of a channel name.
pub fn pipe_path(name: &str) -> (r: String)
    ensures
        r@ == "\\\\.\\pipe\\"@ + name@,
{
    String::from_str("\\\\.\\pipe\\").concat(name)
}

/// The spawn half of a dispatch: the command of the resolved manager with
/// the URL substituted and split, `ManagerNotRegistered` where the manager
/// has no command, `MalformedCommandLine` where the substituted template is
/// blank. It is a function of the `managers` table, the manager and the URL
/// alone.
pub open spec fn spawn_plan_spec(
    managers: Map<Seq<char>, Seq<char>>,
    manager: Seq<char>,
    url: Seq<char>,
) -> Result<(Seq<char>, Seq<Seq<char>>), ProxyError> {
    if !managers.contains_key(manager) {
        Err(ProxyError::ManagerNotRegistered)
    } else {
        match tokenize_spec(substitute(managers[manager], url)) {
            Some(p) => Ok(p),
            None => Err(ProxyError::MalformedCommandLine),
        }
    }
}

/// Whether an executable spawn command agrees with its specification.
pub open spec fn spawn_matches(
    e: Result<(String, Vec<String>), ProxyError>,
    s: Result<(Seq<char>, Seq<Seq<char>>), ProxyError>,
) -> bool {
    match e {
        Ok(q) => s matches Ok(p) && q.0@ == p.0 && q.1@.map_values(|a: String| a@) == p.1,
        Err(e1) => s matches Err(e2) && e1 == e2,
    }
}

/// How one URL is delivered: which manager owns it, which channel to try
/// first if one is configured, and the spawn command to fall back on. The
/// channel is always tried before the spawn, never in parallel with it.
#[derive(Debug)]
pub struct DispatchPlan {
    pub manager: String,
    pub pipe: Option<String>,
    pub spawn: Result<(String, Vec<String>), ProxyError>,
}

/// Decides how a URL is delivered. A string that is no URL of the
/// registered scheme, or has no host, is `NotSupportedScheme`; a host with
/// no manager, not even through the wildcard, is `NoManagerForGame`. The
/// plan's spawn half is computed from the `managers` table and the URL
/// alone, so a failed channel delivery never affects it.
pub fn plan_dispatch(config: &Config, url: &str) -> (r: Result<DispatchPlan, ProxyError>)
    ensures
        match url_parts_of(url@) {
            None => r == Err::<DispatchPlan, ProxyError>(ProxyError::NotSupportedScheme),
            Some(parts) => if parts.0 != scheme_name() {
                r == Err::<DispatchPlan, ProxyError>(ProxyError::NotSupportedScheme)
            } else {
                match resolved_manager(config.games@, parts.1) {
                    None => r matches Err(e) && (e matches ProxyError::NoManagerForGame(g) && g@
                        == parts.1),
                    Some(m) => r matches Ok(plan) && plan.manager@ == m && (
                    config.pipes@.contains_key(m) ==> (plan.pipe matches Some(pn) && pn@
                        == config.pipes@[m])) && (!config.pipes@.contains_key(m)
                        ==> plan.pipe is None) && spawn_matches(
                        plan.spawn,
                        spawn_plan_spec(config.managers@, m, url@),
                    ),
                }
            },
        },
{
    let parts = match parse_url_parts(url) {
        Some(p) => p,
        None => {
            return Err(ProxyError::NotSupportedScheme);
        },
    };
    if !(parts.scheme == String::from_str("nxm")) {
        return Err(ProxyError::NotSupportedScheme);
    }
    let manager = match config.resolve(parts.host.as_str()) {
        Ok(m) => m,
        Err(e) => {
            return Err(e);
        },
    };
    let pipe = config.pipes.get(&manager);
    let spawn = match config.managers.get(&manager) {
        Some(template) => build_spawn_command(template.as_str(), url),
        None => Err(ProxyError::ManagerNotRegistered),
    };
    Ok(DispatchPlan { manager, pipe, spawn })
}

/// Law: a failed or impossible channel delivery never prevents the fallback
/// spawn. A manager with a configured channel and a registered command
/// whose substitution splits cleanly always has the substituted spawn
/// command in its plan: the spawn half is a function of the `managers`
/// table, the manager and the URL alone, and no channel outcome enters it.
pub proof fn lemma_channel_failure_preserves_spawn(
    managers: Map<Seq<char>, Seq<char>>,
    pipes: Map<Seq<char>, Seq<char>>,
    manager: Seq<char>,
    url: Seq<char>,
)
    requires
        pipes.contains_key(manager),
        managers.contains_key(manager),
        tokenize_spec(substitute(managers[manager], url)) is Some,
    ensures
        spawn_plan_spec(managers, manager, url) matches Ok(p) && tokenize_spec(
            substitute(managers[manager], url),
        ) == Some(p),
{
}

} // verus!
