//! The server's own decisions: how an error is answered, which mutations
//! pass the origin/CSRF/session protection, and how a launch is configured.
use vstd::prelude::*;
use crate::text::{append, chars_of, contains_exec, owned, str_eq, u128_to_decimal, usize_to_decimal};

verus! {

// ---------------------------------------------------------------------------
// Error statuses

/// An error that names a changed workspace or a stale basis is a conflict;
/// any other error is a bad request.
pub open spec fn spec_error_status(message: Seq<char>) -> u16 {
    if crate::text::contains_seq(message, "Workspace changed"@) || crate::text::contains_seq(
        message,
        "source changed"@,
    ) || crate::text::contains_seq(message, "stale"@) {
        409
    } else {
        400
    }
}

fn contains_str(text: &Vec<char>, needle: &str) -> (r: bool)
    ensures
        r == crate::text::contains_seq(text@, needle@),
{
    contains_exec(text, &chars_of(needle))
}

/// The HTTP status of an error answered with `message`.
pub fn api_error_status(message: &str) -> (r: u16)
    ensures
        r == spec_error_status(message@),
{
    let m = chars_of(message);
    if contains_str(&m, "Workspace changed") || contains_str(&m, "source changed") || contains_str(
        &m,
        "stale",
    ) {
        409
    } else {
        400
    }
}

/// The code of a refused work origin, from the lower-cased message.
pub open spec fn spec_origin_error_code(message: Seq<char>) -> Seq<char> {
    let m = crate::text::ascii_lowercase(message);
    let has = |p: Seq<char>| crate::text::contains_seq(m, p);
    if has("must start from an exact requirement criterion"@) || has(
        "does not resolve to an exact requirement criterion"@,
    ) || has(" unknown"@) || has("unknown "@) || has("does not resolve"@) {
        "unknown-origin"@
    } else if has("not implemented"@) || has("planned"@) {
        "planned-origin"@
    } else if has("not an implementation binding"@) {
        "non-implementation-binding"@
    } else if has("canonically sorted"@) || has("must be exact"@) {
        "unsupported-origin-shape"@
    } else if has("ambiguous"@) {
        "ambiguous-criterion"@
    } else if has("absent"@) {
        "target-lifecycle"@
    } else if has("no active"@) || has("no exact"@) {
        if has("verification"@) {
            "missing-verification-coverage"@
        } else {
            "missing-satisfies"@
        }
    } else if has("satisfies"@) || has("criterion"@) {
        "missing-satisfies"@
    } else if has("verification"@) {
        "missing-verification-coverage"@
    } else if has("contract"@) {
        "missing-contract-closure"@
    } else {
        "unknown-origin"@
    }
}

/// The code with which a work origin is refused, read from the error's
/// message.
pub fn origin_error_code(message: &str) -> (r: String)
    ensures
        r@ == spec_origin_error_code(message@),
{
    let m = crate::text::ascii_lowercase_exec(&chars_of(message));
    let code = if contains_str(&m, "must start from an exact requirement criterion")
        || contains_str(&m, "does not resolve to an exact requirement criterion") || contains_str(
        &m,
        " unknown",
    ) || contains_str(&m, "unknown ") || contains_str(&m, "does not resolve") {
        "unknown-origin"
    } else if contains_str(&m, "not implemented") || contains_str(&m, "planned") {
        "planned-origin"
    } else if contains_str(&m, "not an implementation binding") {
        "non-implementation-binding"
    } else if contains_str(&m, "canonically sorted") || contains_str(&m, "must be exact") {
        "unsupported-origin-shape"
    } else if contains_str(&m, "ambiguous") {
        "ambiguous-criterion"
    } else if contains_str(&m, "absent") {
        "target-lifecycle"
    } else if contains_str(&m, "no active") || contains_str(&m, "no exact") {
        if contains_str(&m, "verification") {
            "missing-verification-coverage"
        } else {
            "missing-satisfies"
        }
    } else if contains_str(&m, "satisfies") || contains_str(&m, "criterion") {
        "missing-satisfies"
    } else if contains_str(&m, "verification") {
        "missing-verification-coverage"
    } else if contains_str(&m, "contract") {
        "missing-contract-closure"
    } else {
        "unknown-origin"
    };
    owned(code)
}

/// The HTTP status that goes with an origin error code.
pub open spec fn spec_origin_error_status(code: Seq<char>) -> u16 {
    if code == "unknown-origin"@ {
        404
    } else if code == "unsupported-origin-shape"@ {
        400
    } else {
        422
    }
}

/// The status of a refused work origin.
pub fn origin_error_status(message: &str) -> (r: u16)
    ensures
        r == spec_origin_error_status(spec_origin_error_code(message@)),
{
    let code = origin_error_code(message);
    if str_eq(code.as_str(), "unknown-origin") {
        404
    } else if str_eq(code.as_str(), "unsupported-origin-shape") {
        400
    } else {
        422
    }
}

// ---------------------------------------------------------------------------
// Mutation protection

/// What protects the server's mutations.
#[derive(Debug, Clone)]
pub struct ServerSecurity {
    /// The only origin a mutation may come from.
    pub expected_origin: String,
    /// The token a mutation must echo.
    pub csrf_token: String,
    /// The session token a remote bind requires.
    pub remote_session_token: Option<String>,
}

pub open spec fn header_is(header: Option<&str>, value: Seq<char>) -> bool {
    match header {
        Some(h) => h@ == value,
        None => false,
    }
}

/// A request passes when it does not mutate (`POST`, `PUT`, `DELETE`), or
/// when it carries the CSRF token, comes from the expected origin, and (on
/// a remote bind) carries the session token.
pub open spec fn spec_mutation_allowed(
    security: ServerSecurity,
    mutating: bool,
    csrf: Option<&str>,
    origin: Option<&str>,
    session: Option<&str>,
) -> bool {
    !mutating || (header_is(csrf, security.csrf_token@) && header_is(
        origin,
        security.expected_origin@,
    ) && match security.remote_session_token {
        Some(t) => header_is(session, t@),
        None => true,
    })
}

fn header_matches(header: Option<&str>, value: &String) -> (r: bool)
    ensures
        r == header_is(header, value@),
{
    match header {
        Some(h) => str_eq(h, value.as_str()),
        None => false,
    }
}

/// Whether the protection lets a request through; headers that are absent
/// or not visible ASCII are `None`.
pub fn mutation_guard(
    security: &ServerSecurity,
    mutating: bool,
    csrf: Option<&str>,
    origin: Option<&str>,
    session: Option<&str>,
) -> (r: bool)
    ensures
        r == spec_mutation_allowed(*security, mutating, csrf, origin, session),
{
    if !mutating {
        return true;
    }
    let csrf_valid = header_matches(csrf, &security.csrf_token);
    let origin_valid = header_matches(origin, &security.expected_origin);
    let session_valid = match &security.remote_session_token {
        Some(token) => header_matches(session, token),
        None => true,
    };
    csrf_valid && origin_valid && session_valid
}

/// The body of a refused mutation.
pub fn mutation_rejection_message() -> (r: &'static str)
    ensures
        r@ == "Workbench mutation was rejected by origin, CSRF, or session-token protection."@,
{
    "Workbench mutation was rejected by origin, CSRF, or session-token protection."
}

// ---------------------------------------------------------------------------
// Launch

/// How the server is to be launched.
#[derive(Debug, Clone)]
pub struct LaunchSettings {
    /// The bind address as it is displayed.
    pub bind: String,
    /// Whether the bind address is a loopback address.
    pub bind_is_loopback: bool,
    pub port: u16,
    pub session_token: Option<String>,
    pub no_open: bool,
    /// The CSRF token of this server process.
    pub csrf_token: String,
}

/// A launch that may go ahead.
#[derive(Debug, Clone)]
pub struct LaunchPlan {
    /// `http://{bind}:{port}`.
    pub url: String,
    pub security: ServerSecurity,
    /// Whether to open a browser at `url`.
    pub open_browser: bool,
}

/// Why a launch is refused.
#[derive(Debug, Clone, Copy, PartialEq, Eq, Structural)]
pub enum LaunchRefusal {
    /// A remote bind was asked for without a session token.
    RemoteBindWithoutSessionToken,
}

impl LaunchRefusal {
    /// The message of the refusal.
    pub fn message(&self) -> (r: &'static str)
        ensures
            r@ == "remote --bind requires --session-token"@,
    {
        "remote --bind requires --session-token"
    }
}

pub open spec fn server_url(bind: Seq<char>, port: u16) -> Seq<char> {
    "http://"@ + bind + ":"@ + crate::text::decimal(port as nat)
}

/// A remote bind requires a non-empty session token.
pub open spec fn launch_allowed(settings: LaunchSettings) -> bool {
    settings.bind_is_loopback || match settings.session_token {
        Some(t) => t@.len() > 0,
        None => false,
    }
}

/// Decides a launch: a remote bind without a session token is refused;
/// otherwise the server serves `http://{bind}:{port}`, accepts mutations
/// from that origin only, requires the session token on a remote bind, and
/// opens a browser unless told not to.
pub fn run(settings: &LaunchSettings) -> (r: Result<LaunchPlan, LaunchRefusal>)
    ensures
        r is Ok <==> launch_allowed(*settings),
        r matches Ok(plan) ==> {
            &&& plan.url@ == server_url(settings.bind@, settings.port)
            &&& plan.security.expected_origin@ == plan.url@
            &&& plan.security.csrf_token@ == settings.csrf_token@
            &&& (if settings.bind_is_loopback {
                plan.security.remote_session_token is None
            } else {
                plan.security.remote_session_token matches Some(t) && settings.session_token
                    matches Some(s) && t@ == s@
            })
            &&& plan.open_browser == !settings.no_open
        },
{
    let remote_token = if settings.bind_is_loopback {
        None
    } else {
        match &settings.session_token {
            Some(t) => {
                if chars_of(t.as_str()).len() == 0 {
                    return Err(LaunchRefusal::RemoteBindWithoutSessionToken);
                }
                Some(owned(t.as_str()))
            },
            None => {
                return Err(LaunchRefusal::RemoteBindWithoutSessionToken);
            },
        }
    };
    let mut url = owned("http://");
    append(&mut url, settings.bind.as_str());
    append(&mut url, ":");
    let port = usize_to_decimal(settings.port as usize);
    append(&mut url, port.as_str());
    let security = ServerSecurity {
        expected_origin: owned(url.as_str()),
        csrf_token: owned(settings.csrf_token.as_str()),
        remote_session_token: remote_token,
    };
    Ok(LaunchPlan { url, security, open_browser: !settings.no_open })
}

// ---------------------------------------------------------------------------
// Times and paths

/// The current time as the decimal count of milliseconds since the epoch;
/// `since_epoch_ms` is `None` for a clock before the epoch, which counts as
/// zero.
pub fn timestamp(since_epoch_ms: Option<u128>) -> (r: String)
    ensures
        r@ == crate::text::decimal(
            match since_epoch_ms {
                Some(ms) => ms as nat,
                None => 0,
            },
        ),
{
    let ms = match since_epoch_ms {
        Some(ms) => ms,
        None => 0,
    };
    u128_to_decimal(ms)
}

/// `prefix` is a leading run of the components `path`.
pub open spec fn components_prefix(prefix: Seq<Seq<char>>, path: Seq<Seq<char>>) -> bool {
    prefix.len() <= path.len() && path.subrange(0, prefix.len() as int) =~~= prefix
}

/// The components joined by `/`.
pub open spec fn joined(components: Seq<Seq<char>>) -> Seq<char>
    decreases components.len(),
{
    if components.len() == 0 {
        Seq::empty()
    } else if components.len() == 1 {
        components[0]
    } else {
        joined(components.drop_last()) + "/"@ + components.last()
    }
}

pub open spec fn component_views(v: Seq<String>) -> Seq<Seq<char>> {
    v.map_values(|c: String| c@)
}

/// The path below the root: the rest of `path` when `root` is a leading run
/// of its components, else the same for the canonical forms when both have
/// them, else the path as it is displayed.
pub open spec fn spec_relative_display(
    root: Seq<Seq<char>>,
    path: Seq<Seq<char>>,
    canonical: Option<(Seq<Seq<char>>, Seq<Seq<char>>)>,
    display: Seq<char>,
) -> Seq<char> {
    if components_prefix(root, path) {
        joined(path.subrange(root.len() as int, path.len() as int))
    } else {
        match canonical {
            Some((croot, cpath)) => if components_prefix(croot, cpath) {
                joined(cpath.subrange(croot.len() as int, cpath.len() as int))
            } else {
                display
            },
            None => display,
        }
    }
}

fn strip_components(root: &Vec<String>, path: &Vec<String>) -> (r: Option<String>)
    ensures
        r is Some <==> components_prefix(component_views(root@), component_views(path@)),
        r matches Some(s) ==> s@ == joined(
            component_views(path@).subrange(root@.len() as int, path@.len() as int),
        ),
{
    let ghost rv = component_views(root@);
    let ghost pv = component_views(path@);
    if root.len() > path.len() {
        return None;
    }
    let mut i: usize = 0;
    while i < root.len()
        invariant
            i <= root.len() <= path.len(),
            rv == component_views(root@),
            pv == component_views(path@),
            forall|k: int| 0 <= k < i ==> rv[k] == pv[k],
        decreases root.len() - i,
    {
        if !str_eq(root[i].as_str(), path[i].as_str()) {
            proof {
                assert(rv[i as int] == root@[i as int]@ && pv[i as int] == path@[i as int]@);
                if components_prefix(rv, pv) {
                    assert(pv.subrange(0, rv.len() as int)[i as int] == pv[i as int]);
                }
            }
            return None;
        }
        proof {
            assert(rv[i as int] == root@[i as int]@ && pv[i as int] == path@[i as int]@);
        }
        i = i + 1;
    }
    proof {
        assert(pv.subrange(0, rv.len() as int) =~= rv);
    }
    let ghost rest = pv.subrange(root@.len() as int, path@.len() as int);
    let mut out = String::new();
    let mut j: usize = root.len();
    assert(rest.subrange(0, 0) =~= Seq::<Seq<char>>::empty());
    while j < path.len()
        invariant
            root.len() <= j <= path.len(),
            pv == component_views(path@),
            rest == pv.subrange(root@.len() as int, path@.len() as int),
            out@ == joined(rest.subrange(0, j - root.len())),
        decreases path.len() - j,
    {
        let ghost before = out@;
        let k = j - root.len();
        if k > 0 {
            append(&mut out, "/");
        }
        append(&mut out, path[j].as_str());
        proof {
            let pre = rest.subrange(0, k as int + 1);
            assert(pre.drop_last() =~= rest.subrange(0, k as int));
            assert(pre.last() == path@[j as int]@);
            if k == 0 {
                assert(pre.len() == 1);
                assert(out@ =~= pre[0]);
            } else {
                assert(out@ =~= joined(pre.drop_last()) + "/"@ + pre.last());
            }
        }
        j = j + 1;
    }
    proof {
        assert(rest.subrange(0, path.len() - root.len()) =~= rest);
    }
    Some(out)
}

/// How a path is shown relative to the workspace root.  `root` and `path`
/// are their components; `canonical` holds the components of both
/// canonical forms when both could be resolved; `display` is the path as
/// it is displayed.
pub fn relative_display(
    root: &Vec<String>,
    path: &Vec<String>,
    canonical: Option<(Vec<String>, Vec<String>)>,
    display: &str,
) -> (r: String)
    ensures
        r@ == spec_relative_display(
            component_views(root@),
            component_views(path@),
            match canonical {
                Some((cr, cp)) => Some((component_views(cr@), component_views(cp@))),
                None => None,
            },
            display@,
        ),
{
    match strip_components(root, path) {
        Some(s) => s,
        None => match canonical {
            Some((croot, cpath)) => match strip_components(&croot, &cpath) {
                Some(s) => s,
                None => owned(display),
            },
            None => owned(display),
        },
    }
}

} // verus!
