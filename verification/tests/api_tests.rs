use std::cell::{Cell, RefCell};

use mail_pilot::api::{
    build_action_url, build_batch_emails, execute_with_retry, get_base_url,
    interpret_post_response, interpret_query_status, interpret_templates_result,
    is_redirect_status, ApiError, RetryConfig,
};
use mail_pilot::models::{Attachment, Template};

#[test]
fn default_retry_config() {
    let cfg = RetryConfig::default();
    assert_eq!(cfg.max_attempts, 3);
    assert_eq!(cfg.initial_delay_ms, 500);
    assert_eq!(cfg.max_delay_ms, 5000);
}

#[test]
fn retry_succeeds_on_third_attempt_with_doubling_backoff() {
    let cfg = RetryConfig::default();
    let calls = Cell::new(0u32);
    let sleeps = RefCell::new(Vec::<u64>::new());
    let op = || -> Result<u32, ApiError> {
        calls.set(calls.get() + 1);
        if calls.get() <= 2 {
            Err(ApiError::ServerError { status: 503, message: "busy".to_string() })
        } else {
            Ok(7)
        }
    };
    let sleep = |d: u64| {
        sleeps.borrow_mut().push(d);
    };
    let r = execute_with_retry(&cfg, op, sleep);
    assert!(matches!(r, Ok(7)));
    assert_eq!(calls.get(), 3);
    assert_eq!(*sleeps.borrow(), vec![500, 1000]);
}

#[test]
fn retry_backoff_is_clamped_at_the_maximum_delay() {
    let cfg = RetryConfig { max_attempts: 6, initial_delay_ms: 500, max_delay_ms: 5000 };
    let sleeps = RefCell::new(Vec::<u64>::new());
    let op = || -> Result<(), ApiError> { Err(ApiError::Timeout) };
    let r = execute_with_retry(&cfg, op, |d: u64| {
        sleeps.borrow_mut().push(d);
    });
    assert_eq!(*sleeps.borrow(), vec![500, 1000, 2000, 4000, 5000]);
    match r {
        Err(ApiError::RetryExhausted { attempts, last_error }) => {
            assert_eq!(attempts, 6);
            assert_eq!(last_error, "タイムアウト: サーバーからの応答がありません");
        }
        other => panic!("unexpected result: {:?}", other),
    }
}

#[test]
fn non_success_status_is_retried_but_a_bad_body_after_success_is_not() {
    let cfg = RetryConfig { max_attempts: 3, initial_delay_ms: 1, max_delay_ms: 4 };
    // A non-2xx status gives a ServerError, which is retried until the
    // attempts run out.
    let calls = Cell::new(0u32);
    let op = || -> Result<(), ApiError> {
        calls.set(calls.get() + 1);
        interpret_post_response(400, "{\"success\":true}", "失敗しました", "不明なエラー")
    };
    let r = execute_with_retry(&cfg, op, |_d: u64| {});
    assert_eq!(calls.get(), 3);
    assert!(matches!(r, Err(ApiError::RetryExhausted { attempts: 3, .. })));

    // A 2xx answer whose body fails to parse is a ParseError and consumes
    // only the first attempt.
    let calls2 = Cell::new(0u32);
    let op2 = || -> Result<(), ApiError> {
        calls2.set(calls2.get() + 1);
        interpret_post_response(200, "not json", "失敗しました", "不明なエラー")
    };
    let r2 = execute_with_retry(&cfg, op2, |_d: u64| {});
    assert_eq!(calls2.get(), 1);
    assert!(matches!(r2, Err(ApiError::ParseError(_))));
}

#[test]
fn backend_reported_errors_are_not_retried() {
    let cfg = RetryConfig::default();
    let calls = Cell::new(0u32);
    let op = || -> Result<(), ApiError> {
        calls.set(calls.get() + 1);
        interpret_post_response(200, "{\"success\":false,\"error\":\"boom\"}", "x", "y")
    };
    let r = execute_with_retry(&cfg, op, |_d: u64| {});
    assert_eq!(calls.get(), 1);
    match r {
        Err(ApiError::ApiResponseError(m)) => assert_eq!(m, "boom"),
        other => panic!("unexpected result: {:?}", other),
    }
}

#[test]
fn post_response_interpretation() {
    assert!(interpret_post_response(200, "{\"success\":true}", "f", "d").is_ok());
    assert!(interpret_post_response(204, "{\"success\":true,\"error\":null}", "f", "d").is_ok());
    match interpret_post_response(200, "{\"success\":false}", "f", "既定のエラー") {
        Err(ApiError::ApiResponseError(m)) => assert_eq!(m, "既定のエラー"),
        other => panic!("unexpected: {:?}", other),
    }
    match interpret_post_response(404, "{}", "保存に失敗しました", "d") {
        Err(ApiError::ServerError { status, message }) => {
            assert_eq!(status, 404);
            assert_eq!(message, "保存に失敗しました");
        }
        other => panic!("unexpected: {:?}", other),
    }
    match interpret_post_response(200, "{\"error\":\"no success field\"}", "f", "d") {
        Err(ApiError::ParseError(_)) => {}
        other => panic!("unexpected: {:?}", other),
    }
}

#[test]
fn query_status_interpretation() {
    assert!(interpret_query_status(200, "x").is_ok());
    assert!(interpret_query_status(299, "x").is_ok());
    match interpret_query_status(500, "取得に失敗しました") {
        Err(ApiError::ServerError { status, message }) => {
            assert_eq!(status, 500);
            assert_eq!(message, "取得に失敗しました");
        }
        other => panic!("unexpected: {:?}", other),
    }
}

#[test]
fn base_url_is_trimmed_and_cut_at_the_query() {
    assert_eq!(
        get_base_url("  https://example.com/exec?action=old&x=1  ").unwrap(),
        "https://example.com/exec"
    );
    assert_eq!(get_base_url("https://example.com/exec").unwrap(), "https://example.com/exec");
    // Trimming covers the whole Unicode white-space set, as str::trim does.
    assert_eq!(
        get_base_url("\u{A0}\u{2003} https://example.com/exec \u{0C}\u{2028}").unwrap(),
        "https://example.com/exec"
    );
    assert!(matches!(get_base_url(""), Err(ApiError::UrlNotSet)));
    assert!(matches!(get_base_url("   \t  "), Err(ApiError::UrlNotSet)));
    assert!(matches!(get_base_url("\u{A0}\u{1680}\u{205F}"), Err(ApiError::UrlNotSet)));
}

#[test]
fn action_urls_carry_the_action_parameter() {
    assert_eq!(
        build_action_url("https://example.com/exec?stale=1", "getTemplates").unwrap(),
        "https://example.com/exec?action=getTemplates"
    );
}

#[test]
fn redirect_statuses() {
    assert!(is_redirect_status(301));
    assert!(is_redirect_status(302));
    assert!(is_redirect_status(399));
    assert!(!is_redirect_status(200));
    assert!(!is_redirect_status(404));
}

#[test]
fn error_descriptions() {
    assert_eq!(ApiError::UrlNotSet.describe(), "GAS URLが設定されていません");
    assert_eq!(
        ApiError::NetworkError("down".to_string()).describe(),
        "ネットワークエラー: down"
    );
    assert_eq!(ApiError::Timeout.describe(), "タイムアウト: サーバーからの応答がありません");
    assert_eq!(
        ApiError::ServerError { status: 503, message: "busy".to_string() }.describe(),
        "サーバーエラー (HTTP 503): busy"
    );
    assert_eq!(
        ApiError::ParseError("p".to_string()).describe(),
        "レスポンス解析エラー: p"
    );
    assert_eq!(
        ApiError::ApiResponseError("a".to_string()).describe(),
        "API エラー: a"
    );
    assert_eq!(
        ApiError::RetryExhausted { attempts: 12, last_error: "L".to_string() }.describe(),
        "リトライ失敗 (12回試行): L"
    );
}

#[test]
fn templates_payload_interpretation() {
    let t = Template {
        id: "1".to_string(),
        name: "n".to_string(),
        subject: "s".to_string(),
        body: "b".to_string(),
    };
    match interpret_templates_result(Some(vec![t]), None) {
        Ok(ts) => {
            assert_eq!(ts.len(), 1);
            assert_eq!(ts[0].id, "1");
        }
        other => panic!("unexpected: {:?}", other),
    }
    assert_eq!(interpret_templates_result(None, None).unwrap().len(), 0);
    match interpret_templates_result(None, Some("backend failed".to_string())) {
        Err(ApiError::ApiResponseError(m)) => assert_eq!(m, "backend failed"),
        other => panic!("unexpected: {:?}", other),
    }
}

#[test]
fn batch_emails_embed_only_enabled_attachments() {
    let items = vec![
        ("a@x".to_string(), "S".to_string(), "B1".to_string()),
        ("b@x".to_string(), "S".to_string(), "B2".to_string()),
    ];
    let mut on = Attachment::default();
    on.file_name = "on.pdf".to_string();
    on.mime_type = "application/pdf".to_string();
    on.data = "AAAA".to_string();
    let mut off = Attachment::default();
    off.file_name = "off.pdf".to_string();
    off.enabled = false;
    let emails = build_batch_emails(&items, &[on, off]);
    assert_eq!(emails.len(), 2);
    assert_eq!(emails[0].to, "a@x");
    assert_eq!(emails[1].body, "B2");
    let atts = emails[0].attachments.as_ref().unwrap();
    assert_eq!(atts.len(), 1);
    assert_eq!(atts[0].file_name, "on.pdf");
    assert_eq!(atts[0].mime_type, "application/pdf");
    assert_eq!(atts[0].data, "AAAA");

    let plain = build_batch_emails(&items, &[]);
    assert!(plain[0].attachments.is_none());
    assert!(plain[1].attachments.is_none());
}
