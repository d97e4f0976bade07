use mitase_workbench_server::hashing::{content_hash, hex_string};
use mitase_workbench_server::server::{
    api_error_status, mutation_guard, mutation_rejection_message, origin_error_code,
    origin_error_status, relative_display, run, timestamp, LaunchRefusal, LaunchSettings,
    ServerSecurity,
};

#[test]
fn stale_state_errors_are_conflicts() {
    assert_eq!(api_error_status("Workspace changed since this view was loaded."), 409);
    assert_eq!(api_error_status("candidate plan digest is stale"), 409);
    assert_eq!(api_error_status("specification source changed"), 409);
    assert_eq!(api_error_status("invalid Git range"), 400);
}

#[test]
fn origin_errors_are_classified_by_message() {
    assert_eq!(origin_error_code("Unknown criterion REQ-X#criterion.a"), "unknown-origin");
    assert_eq!(origin_error_code("criterion is planned, not implemented"), "planned-origin");
    assert_eq!(origin_error_code("binding is not an implementation binding"), "non-implementation-binding");
    assert_eq!(origin_error_code("targets must be canonically sorted"), "unsupported-origin-shape");
    assert_eq!(origin_error_code("the criterion is ambiguous"), "ambiguous-criterion");
    assert_eq!(origin_error_code("target is absent"), "target-lifecycle");
    assert_eq!(origin_error_code("no exact verification target"), "missing-verification-coverage");
    assert_eq!(origin_error_code("no active satisfies claim"), "missing-satisfies");
    assert_eq!(origin_error_code("satisfies claim missing"), "missing-satisfies");
    assert_eq!(origin_error_code("verification runner missing"), "missing-verification-coverage");
    assert_eq!(origin_error_code("contract closure incomplete"), "missing-contract-closure");
    assert_eq!(origin_error_code("something else"), "unknown-origin");
    assert_eq!(origin_error_status("Unknown origin"), 404);
    assert_eq!(origin_error_status("targets must be exact"), 400);
    assert_eq!(origin_error_status("the criterion is ambiguous"), 422);
}

fn security(remote: Option<&str>) -> ServerSecurity {
    ServerSecurity {
        expected_origin: "http://127.0.0.1:7737".into(),
        csrf_token: "csrf".into(),
        remote_session_token: remote.map(str::to_string),
    }
}

#[test]
fn mutations_need_origin_csrf_and_session_tokens() {
    let local = security(None);
    assert!(mutation_guard(&local, false, None, None, None));
    assert!(mutation_guard(&local, true, Some("csrf"), Some("http://127.0.0.1:7737"), None));
    assert!(!mutation_guard(&local, true, Some("other"), Some("http://127.0.0.1:7737"), None));
    assert!(!mutation_guard(&local, true, Some("csrf"), Some("http://evil"), None));
    assert!(!mutation_guard(&local, true, None, Some("http://127.0.0.1:7737"), None));
    let remote = security(Some("s3"));
    assert!(!mutation_guard(&remote, true, Some("csrf"), Some("http://127.0.0.1:7737"), None));
    assert!(mutation_guard(&remote, true, Some("csrf"), Some("http://127.0.0.1:7737"), Some("s3")));
    assert!(mutation_rejection_message().contains("CSRF"));
}

fn settings(bind: &str, loopback: bool, token: Option<&str>) -> LaunchSettings {
    LaunchSettings {
        bind: bind.into(),
        bind_is_loopback: loopback,
        port: 7737,
        session_token: token.map(str::to_string),
        no_open: true,
        csrf_token: "csrf".into(),
    }
}

#[test]
fn remote_binds_require_a_session_token() {
    let plan = run(&settings("127.0.0.1", true, None)).unwrap();
    assert_eq!(plan.url, "http://127.0.0.1:7737");
    assert_eq!(plan.security.expected_origin, plan.url);
    assert!(plan.security.remote_session_token.is_none());
    assert!(!plan.open_browser);
    assert_eq!(
        run(&settings("0.0.0.0", false, None)).unwrap_err(),
        LaunchRefusal::RemoteBindWithoutSessionToken
    );
    assert!(run(&settings("0.0.0.0", false, Some(""))).is_err());
    let remote = run(&settings("0.0.0.0", false, Some("s3"))).unwrap();
    assert_eq!(remote.security.remote_session_token.as_deref(), Some("s3"));
    assert_eq!(LaunchRefusal::RemoteBindWithoutSessionToken.message(), "remote --bind requires --session-token");
}

#[test]
fn timestamps_are_decimal_milliseconds() {
    assert_eq!(timestamp(Some(1_700_000_000_123)), "1700000000123");
    assert_eq!(timestamp(None), "0");
}

fn parts(path: &str) -> Vec<String> {
    path.split('/').filter(|p| !p.is_empty()).map(str::to_string).collect()
}

#[test]
fn paths_are_shown_relative_to_the_root() {
    assert_eq!(relative_display(&parts("/ws"), &parts("/ws/docs/a.yaml"), None, "/ws/docs/a.yaml"), "docs/a.yaml");
    assert_eq!(relative_display(&parts("/ws"), &parts("/other/a.yaml"), None, "/other/a.yaml"), "/other/a.yaml");
    assert_eq!(
        relative_display(
            &parts("/link"),
            &parts("/ws/a.yaml"),
            Some((parts("/real/ws"), parts("/real/ws/a.yaml"))),
            "/ws/a.yaml"
        ),
        "a.yaml"
    );
    assert_eq!(relative_display(&parts("/ws"), &parts("/ws"), None, "/ws"), "");
}

#[test]
fn content_hashes_are_prefixed_sha256_hex() {
    assert_eq!(hex_string(&vec![0x00, 0xab, 0x7f]), "00ab7f");
    assert_eq!(
        content_hash("abc"),
        "sha256:ba7816bf8f01cfea414140de5dae2223b00361a396177a9cb410ff61f20015ad"
    );
    assert_ne!(content_hash("abc"), content_hash("abd"));
}
