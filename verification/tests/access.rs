use kdj_server::activity::{activity_draft, http_activity, ActivityCategory, ActivityLevel};
use kdj_server::auth::{
    bearer, media_path_allowed, origin_allowed, request_authorized, require_auth, AuthState,
    AuthToken, MediaToken, Method, OriginHeader, RequestHead, Verdict,
};
use kdj_server::error::ApiError;

fn request(method: Method, uri: &str, authorization: Option<&str>) -> RequestHead {
    let (path, query) = match uri.split_once('?') {
        Some((path, query)) => (path.to_string(), Some(query.to_string())),
        None => (uri.to_string(), None),
    };
    RequestHead {
        method,
        path,
        query,
        authorization: authorization.map(str::to_string),
        origin: OriginHeader::Absent,
    }
}

#[test]
fn bearer_and_media_capability_have_separate_scopes() {
    let auth = AuthState {
        control: AuthToken("control-token".into()),
        media: MediaToken("media-token".into()),
    };
    assert!(request_authorized(
        &request(Method::Post, "/api/settings", Some("Bearer control-token")),
        &auth
    ));
    assert!(request_authorized(
        &request(Method::Get, "/api/library/audio/1?kdj_media_token=media-token", None),
        &auth
    ));
    assert!(request_authorized(
        &request(
            Method::Get,
            "/api/video/youtube/hls/opaque-ticket?kdj_media_token=media-token",
            None
        ),
        &auth
    ));
    assert!(!request_authorized(
        &request(Method::Get, "/api/settings?kdj_media_token=media-token", None),
        &auth
    ));
    assert!(!request_authorized(
        &request(
            Method::Get,
            "/api/song/preview/ticket/waveform?kdj_media_token=media-token",
            None
        ),
        &auth
    ));
    assert!(!request_authorized(
        &request(Method::Get, "/api/health", Some("Bearer media-token")),
        &auth
    ));
}

#[test]
fn origins_are_an_exact_allowlist() {
    assert!(origin_allowed("tauri://localhost", true));
    assert!(origin_allowed("http://localhost:5274", true));
    assert!(!origin_allowed("https://evil.example", true));
    assert!(!origin_allowed("null", true));
    assert!(!origin_allowed("http://localhost:5274", false));
}

#[test]
fn generated_token_has_256_bits_of_hex_material() {
    let token = AuthToken::generate();
    assert_eq!(token.expose().len(), 64);
    assert!(token.expose().bytes().all(|byte| byte.is_ascii_hexdigit()));
    let media = MediaToken::generate();
    assert_eq!(media.expose().len(), 64);
    assert!(media.expose().bytes().all(|byte| !byte.is_ascii_uppercase()));
    assert_ne!(token.expose(), media.expose());
}

#[test]
fn activity_routes_capture_semantics_without_interface_or_analysis_noise() {
    let search = http_activity(Method::Post, "/api/search").unwrap();
    assert!(matches!(search.category, ActivityCategory::Network));
    assert_eq!(search.action, "搜索 API");
    assert!(!search.only_failures);

    let analysis = http_activity(Method::Post, "/api/library/analyze").unwrap();
    assert!(matches!(analysis.category, ActivityCategory::Analysis));
    assert!(analysis.only_failures);

    let local = http_activity(Method::Post, "/api/library/folders/apply").unwrap();
    assert!(matches!(local.category, ActivityCategory::User));
    assert_eq!(local.action, "复制或移动本地文件");

    assert!(http_activity(Method::Get, "/api/settings").is_none());
    assert!(http_activity(Method::Put, "/api/settings").is_none());
    assert!(http_activity(Method::Get, "/api/activity/logs").is_none());
    assert!(http_activity(Method::Get, "/api/accounts/qqm/login/qr/session-id").is_none());
}

#[test]
fn router_rejects_missing_or_untrusted_credentials_and_hides_paths() {
    let auth = AuthState {
        control: AuthToken("0123456789abcdef".into()),
        media: MediaToken("fedcba9876543210".into()),
    };
    let verdict = require_auth(&request(Method::Get, "/api/health", None), &auth, true);
    assert_eq!(verdict.refusal().map(|refusal| refusal.0), Some(401));

    let query = "/api/health?kdj_media_token=fedcba9876543210";
    let verdict = require_auth(&request(Method::Get, query, None), &auth, true);
    assert_eq!(verdict.refusal().map(|refusal| refusal.0), Some(401));

    let query = "/api/library/audio/1?kdj_media_token=fedcba9876543210";
    let verdict = require_auth(&request(Method::Get, query, None), &auth, true);
    assert!(matches!(verdict, Verdict::Pass));

    let query = "/api/video/youtube/hls/not-a-real-ticket?kdj_media_token=fedcba9876543210";
    let verdict = require_auth(&request(Method::Get, query, None), &auth, true);
    assert!(matches!(verdict, Verdict::Pass));

    let mut foreign = request(Method::Get, "/api/health", Some("Bearer 0123456789abcdef"));
    foreign.origin = OriginHeader::Text("https://evil.example".into());
    assert_eq!(
        require_auth(&foreign, &auth, true).refusal().map(|refusal| refusal.0),
        Some(403)
    );
    foreign.origin = OriginHeader::Unreadable;
    assert_eq!(
        require_auth(&foreign, &auth, true).refusal().map(|refusal| refusal.0),
        Some(403)
    );
}

#[test]
fn tokens_are_compared_in_full() {
    let token = AuthToken("secret".into());
    assert!(token.matches("secret"));
    assert!(!token.matches("secre"));
    assert!(!token.matches("secreT"));
    assert!(!token.matches(""));
    let media = MediaToken("secret".into());
    assert!(media.matches("secret"));
    assert!(!media.matches("other"));
}

#[test]
fn a_bearer_needs_its_word_and_a_value() {
    assert_eq!(bearer(&Some("Bearer abc".into())).as_deref(), Some("abc"));
    assert_eq!(bearer(&Some("abc".into())), None);
    assert_eq!(bearer(&None), None);
    assert!(media_path_allowed("/api/library/audio/1"));
    assert!(!media_path_allowed("/api/library/audio/"));
    assert!(!media_path_allowed("/api/health"));
}

#[test]
fn only_a_full_queue_is_less_than_a_failure() {
    let ok = activity_draft(false, Method::Post, "/api/search", 200, 12).unwrap();
    assert!(matches!(ok.level, ActivityLevel::Info));
    assert_eq!(ok.duration_ms, 12);
    let client = activity_draft(false, Method::Post, "/api/search", 429, 12).unwrap();
    assert!(matches!(client.level, ActivityLevel::Warn));
    let server = activity_draft(false, Method::Post, "/api/search", 500, 12).unwrap();
    assert!(matches!(server.level, ActivityLevel::Error));
    assert!(activity_draft(true, Method::Post, "/api/search", 500, 12).is_none());
    assert!(activity_draft(false, Method::Post, "/api/library/analyze", 200, 12).is_none());
    let endless = activity_draft(false, Method::Post, "/api/search", 200, u128::MAX).unwrap();
    assert_eq!(endless.duration_ms, u64::MAX);
}

#[test]
fn qq_failures_preserve_status_stage_and_safe_correlation_id() {
    let reply = ApiError::from_provider(429, "限流".into(), "RATE_LIMITED")
        .media_context("resolve", "0123456789abcdef");
    assert_eq!(reply.status, 429);
    assert_eq!(reply.code, Some("RATE_LIMITED"));
    assert_eq!(reply.stage, Some("resolve"));
    assert_eq!(reply.attempt_id.as_deref(), Some("0123456789abcdef"));
}

#[test]
fn error_body_uses_the_detail_field() {
    let reply = ApiError::not_found("曲目不存在".into());
    assert_eq!(reply.status, 404);
    assert_eq!(reply.detail, "曲目不存在");
}

#[test]
fn a_number_that_is_no_status_becomes_a_bad_reply_of_the_platform() {
    assert_eq!(ApiError::from_provider(7, "x".into(), "UPSTREAM_ERROR").status, 502);
    assert!(ApiError::new(500, "x".into()).is_server_error());
    assert!(!ApiError::bad_request("x".into()).is_server_error());
    let reply = ApiError::bad_request("x".into()).media_context("media", "zz0!");
    assert_eq!(reply.attempt_id.as_deref(), Some("0"));
}
