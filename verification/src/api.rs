//! The remote mail client's logic: error taxonomy, retry policy with
//! exponential backoff, URL normalization, and interpretation of the
//! backend's responses. The HTTP transport itself is supplied by the caller.

use crate::text::{append_chars, append_str_chars, chars_to_string, dec_str, u64_to_dec_chars};
use vstd::prelude::*;

verus! {

/// Everything a backend call can fail with.
#[derive(Clone, Debug)]
pub enum ApiError {
    /// The endpoint URL is not configured.
    UrlNotSet,
    /// The connection failed.
    NetworkError(String),
    /// The server did not answer in time.
    Timeout,
    /// The server answered with a non-success status.
    ServerError { status: u16, message: String },
    /// The response body could not be read as the expected JSON.
    ParseError(String),
    /// The backend reported a failure of its own.
    ApiResponseError(String),
    /// Every attempt failed; carries the attempt count and the last error's
    /// description.
    RetryExhausted { attempts: u32, last_error: String },
}

/// The user-facing description of an error.
pub open spec fn describe_spec(e: ApiError) -> Seq<char> {
    match e {
        ApiError::UrlNotSet => "GAS URLが設定されていません"@,
        ApiError::NetworkError(m) => "ネットワークエラー: "@ + m@,
        ApiError::Timeout => "タイムアウト: サーバーからの応答がありません"@,
        ApiError::ServerError { status, message } => "サーバーエラー (HTTP "@ + dec_str(status as nat)
            + "): "@ + message@,
        ApiError::ParseError(m) => "レスポンス解析エラー: "@ + m@,
        ApiError::ApiResponseError(m) => "API エラー: "@ + m@,
        ApiError::RetryExhausted { attempts, last_error } => "リトライ失敗 ("@ + dec_str(
            attempts as nat,
        ) + "回試行): "@ + last_error@,
    }
}

/// Errors that another attempt might cure: network failures, timeouts and
/// server errors. Configuration, parse and backend-reported errors are not
/// retried.
pub open spec fn retryable_spec(e: ApiError) -> bool {
    match e {
        ApiError::UrlNotSet => false,
        ApiError::ParseError(_) => false,
        ApiError::ApiResponseError(_) => false,
        _ => true,
    }
}

impl ApiError {
    /// Renders the error as its user-facing message.
    pub fn describe(&self) -> (r: String)
        ensures
            r@ == describe_spec(*self),
    {
        let mut m: Vec<char> = Vec::new();
        match self {
            ApiError::UrlNotSet => {
                append_str_chars(&mut m, "GAS URLが設定されていません");
            },
            ApiError::NetworkError(msg) => {
                append_str_chars(&mut m, "ネットワークエラー: ");
                append_str_chars(&mut m, msg.as_str());
            },
            ApiError::Timeout => {
                append_str_chars(&mut m, "タイムアウト: サーバーからの応答がありません");
            },
            ApiError::ServerError { status, message } => {
                append_str_chars(&mut m, "サーバーエラー (HTTP ");
                let digits = u64_to_dec_chars(*status as u64);
                append_chars(&mut m, &digits);
                append_str_chars(&mut m, "): ");
                append_str_chars(&mut m, message.as_str());
            },
            ApiError::ParseError(msg) => {
                append_str_chars(&mut m, "レスポンス解析エラー: ");
                append_str_chars(&mut m, msg.as_str());
            },
            ApiError::ApiResponseError(msg) => {
                append_str_chars(&mut m, "API エラー: ");
                append_str_chars(&mut m, msg.as_str());
            },
            ApiError::RetryExhausted { attempts, last_error } => {
                append_str_chars(&mut m, "リトライ失敗 (");
                let digits = u64_to_dec_chars(*attempts as u64);
                append_chars(&mut m, &digits);
                append_str_chars(&mut m, "回試行): ");
                append_str_chars(&mut m, last_error.as_str());
            },
        }
        proof {
            assert(m@ =~= describe_spec(*self));
        }
        chars_to_string(&m)
    }

    /// Whether another attempt might cure this error.
    pub fn is_retryable(&self) -> (r: bool)
        ensures
            r == retryable_spec(*self),
    {
        match self {
            ApiError::UrlNotSet => false,
            ApiError::ParseError(_) => false,
            ApiError::ApiResponseError(_) => false,
            _ => true,
        }
    }
}

/// How often and how patiently an operation is retried.
#[derive(Clone, Copy, Debug)]
pub struct RetryConfig {
    pub max_attempts: u32,
    pub initial_delay_ms: u64,
    pub max_delay_ms: u64,
}

impl Default for RetryConfig {
    /// Three attempts, half a second before the second, capped at five
    /// seconds.
    fn default() -> (r: Self)
        ensures
            r.max_attempts == 3,
            r.initial_delay_ms == 500,
            r.max_delay_ms == 5000,
    {
        RetryConfig { max_attempts: 3, initial_delay_ms: 500, max_delay_ms: 5000 }
    }
}

/// The delay after one more failure: doubled, clamped at the maximum.
pub open spec fn next_delay(cfg: RetryConfig, delay: u64) -> u64 {
    if 2 * delay < cfg.max_delay_ms {
        (2 * delay) as u64
    } else {
        cfg.max_delay_ms
    }
}

fn next_delay_exec(cfg: &RetryConfig, delay: u64) -> (r: u64)
    ensures
        r == next_delay(*cfg, delay),
{
    if delay <= cfg.max_delay_ms / 2 {
        let doubled = delay * 2;
        if doubled < cfg.max_delay_ms {
            doubled
        } else {
            cfg.max_delay_ms
        }
    } else {
        cfg.max_delay_ms
    }
}

/// The delay slept after the `k`-th failed attempt: the initial delay after
/// the first, then doubled after each further failure, clamped at the
/// maximum.
pub open spec fn backoff_delay(cfg: RetryConfig, k: nat) -> u64
    decreases k,
{
    if k <= 1 {
        cfg.initial_delay_ms
    } else {
        next_delay(cfg, backoff_delay(cfg, (k - 1) as nat))
    }
}

/// The backoff law: when the initial delay is within the cap, every delay of
/// the schedule stays within the cap, the schedule never decreases, and each
/// delay is the double of the one before it until the cap is reached.
pub proof fn lemma_backoff_schedule(cfg: RetryConfig, k: nat)
    requires
        k >= 1,
        cfg.initial_delay_ms <= cfg.max_delay_ms,
    ensures
        backoff_delay(cfg, k) <= cfg.max_delay_ms,
        backoff_delay(cfg, k) <= backoff_delay(cfg, k + 1),
        2 * backoff_delay(cfg, k) < cfg.max_delay_ms ==> backoff_delay(cfg, k + 1) == 2
            * backoff_delay(cfg, k),
        2 * backoff_delay(cfg, k) >= cfg.max_delay_ms ==> backoff_delay(cfg, k + 1)
            == cfg.max_delay_ms,
    decreases k,
{
    if k == 1 {
    } else {
        lemma_backoff_schedule(cfg, (k - 1) as nat);
    }
}

/// Runs `operation` until it succeeds or fails unrecoverably, sleeping
/// through `sleep` between attempts with the exponential backoff schedule.
/// The result is the operation's own success, its own non-retryable error, or
/// — once every attempt has failed with a retryable error — a retries
/// exhausted error carrying the attempt count and the last error's
/// description.
pub fn execute_with_retry<T, F: Fn() -> Result<T, ApiError>, S: Fn(u64)>(
    cfg: &RetryConfig,
    operation: F,
    sleep: S,
) -> (r: Result<T, ApiError>)
    requires
        call_requires(operation, ()),
        forall|d: u64| call_requires(sleep, (d,)),
    ensures
        match r {
            Ok(v) => call_ensures(operation, (), Ok(v)),
            Err(e) => {
                ||| (!retryable_spec(e) && call_ensures(operation, (), Err(e)))
                ||| {
                    &&& e matches ApiError::RetryExhausted { attempts, last_error }
                    &&& attempts == cfg.max_attempts
                    &&& if cfg.max_attempts == 0 {
                        last_error@ == "ネットワークエラー: 不明なエラー"@
                    } else {
                        exists|e2: ApiError|
                            retryable_spec(e2) && #[trigger] call_ensures(operation, (), Err(e2))
                                && last_error@ == describe_spec(e2)
                    }
                }
            },
        },
{
    if cfg.max_attempts == 0 {
        let mut m: Vec<char> = Vec::new();
        append_str_chars(&mut m, "ネットワークエラー: 不明なエラー");
        return Err(
            ApiError::RetryExhausted { attempts: 0, last_error: chars_to_string(&m) },
        );
    }
    let mut delay_ms = cfg.initial_delay_ms;
    let mut attempt: u32 = 1;
    loop
        invariant
            cfg.max_attempts >= 1,
            1 <= attempt <= cfg.max_attempts,
            call_requires(operation, ()),
            forall|d: u64| call_requires(sleep, (d,)),
        decreases cfg.max_attempts - attempt,
    {
        match operation() {
            Ok(v) => {
                return Ok(v);
            },
            Err(e) => {
                if !e.is_retryable() {
                    return Err(e);
                }
                if attempt < cfg.max_attempts {
                    sleep(delay_ms);
                    delay_ms = next_delay_exec(cfg, delay_ms);
                    attempt += 1;
                } else {
                    let last_error = e.describe();
                    return Err(
                        ApiError::RetryExhausted { attempts: cfg.max_attempts, last_error },
                    );
                }
            },
        }
    }
}

/// The index of the first occurrence of `c` in `s` (the length when absent).
pub open spec fn first_index_of(s: Seq<char>, c: char) -> int
    decreases s.len(),
{
    if s.len() == 0 {
        0
    } else if s[0] == c {
        0
    } else {
        1 + first_index_of(s.drop_first(), c)
    }
}

proof fn lemma_first_index_of_is(s: Seq<char>, c: char, k: int)
    requires
        0 <= k <= s.len(),
        forall|j: int| 0 <= j < k ==> s[j] != c,
        k == s.len() || s[k] == c,
    ensures
        first_index_of(s, c) == k,
    decreases s.len(),
{
    if s.len() == 0 {
    } else if s[0] == c {
        assert(k == 0);
    } else {
        assert(k >= 1);
        lemma_first_index_of_is(s.drop_first(), c, k - 1);
    }
}

/// The normalized base endpoint: the configured URL trimmed of surrounding
/// whitespace and cut at its first query marker; `None` when nothing is
/// left.
pub open spec fn base_url_spec(url: Seq<char>) -> Option<Seq<char>> {
    let t = crate::text::trimmed(url);
    if t.len() == 0 {
        None
    } else {
        Some(t.take(first_index_of(t, '?')))
    }
}

/// Normalizes the configured URL: trims surrounding whitespace and drops any
/// existing query string. An empty result is a configuration error.
pub fn get_base_url(url: &str) -> (r: Result<String, ApiError>)
    ensures
        match r {
            Ok(b) => base_url_spec(url@) == Some(b@),
            Err(e) => base_url_spec(url@) is None && e is UrlNotSet,
        },
{
    let uc = crate::text::str_to_chars(url);
    let t = crate::text::trim_chars(&uc);
    let n = t.len();
    if n == 0 {
        return Err(ApiError::UrlNotSet);
    }
    let mut q: usize = 0;
    while q < n && t[q] != '?'
        invariant
            q <= n,
            n == t@.len(),
            forall|j: int| 0 <= j < q ==> t@[j] != '?',
        decreases n - q,
    {
        q += 1;
    }
    proof {
        lemma_first_index_of_is(t@, '?', q as int);
        assert(t@.take(q as int) =~= t@.subrange(0, q as int));
    }
    let b = crate::text::sub_chars(&t, 0, q);
    Ok(chars_to_string(&b))
}

/// Builds the query URL for a GET action: the normalized base followed by
/// the action parameter.
pub fn build_action_url(url: &str, action: &str) -> (r: Result<String, ApiError>)
    ensures
        match r {
            Ok(u) => base_url_spec(url@) matches Some(b) && u@ == b + "?action="@ + action@,
            Err(e) => base_url_spec(url@) is None && e is UrlNotSet,
        },
{
    let base = match get_base_url(url) {
        Ok(b) => b,
        Err(e) => {
            return Err(e);
        },
    };
    let mut m: Vec<char> = Vec::new();
    append_str_chars(&mut m, base.as_str());
    append_str_chars(&mut m, "?action=");
    append_str_chars(&mut m, action);
    Ok(chars_to_string(&m))
}

/// A success status as the backend uses it.
pub open spec fn is_success_status(status: u16) -> bool {
    200 <= status < 300
}

/// Whether `status` means success.
pub fn status_is_success(status: u16) -> (r: bool)
    ensures
        r == is_success_status(status),
{
    200 <= status && status < 300
}

/// A redirect status, after which the result must be fetched with a GET.
pub open spec fn is_redirect_spec(status: u16) -> bool {
    300 <= status < 400
}

/// Whether `status` is a redirect, whose `Location` must be fetched with a
/// plain GET to obtain the actual result.
pub fn is_redirect_status(status: u16) -> (r: bool)
    ensures
        r == is_redirect_spec(status),
{
    300 <= status && status < 400
}

/// Classifies a failed transport attempt: a timeout, a connection failure
/// with a fixed message, or any other transport error with its own message.
pub fn classify_transport(is_timeout: bool, is_connect: bool, message: String) -> (e: ApiError)
    ensures
        is_timeout ==> e is Timeout,
        !is_timeout && is_connect ==> (e matches ApiError::NetworkError(m) && m@
            == "接続できません。ネットワーク接続を確認してください。"@),
        !is_timeout && !is_connect ==> (e matches ApiError::NetworkError(m) && m@ == message@),
{
    if is_timeout {
        ApiError::Timeout
    } else if is_connect {
        let mut m: Vec<char> = Vec::new();
        append_str_chars(&mut m, "接続できません。ネットワーク接続を確認してください。");
        ApiError::NetworkError(chars_to_string(&m))
    } else {
        ApiError::NetworkError(message)
    }
}

/// What the mutation envelope of a response body holds: whether it is a JSON
/// object with a boolean `success` and an optional string `error`, and what
/// they are. The answer depends on the body text alone.
pub uninterp spec fn post_envelope_of(body: Seq<char>) -> Option<(bool, Option<Seq<char>>)>;

/// The view of a parsed envelope.
pub open spec fn envelope_view(r: Option<(bool, Option<String>)>) -> Option<
    (bool, Option<Seq<char>>),
> {
    match r {
        None => None,
        Some((s, e)) => Some(
            (
                s,
                match e {
                    Some(m) => Some(m@),
                    None => None,
                },
            ),
        ),
    }
}

/// Relies on `serde_json::from_str` into `serde_json::Value` and the
/// `Value` accessors: whether the body parses as an object holding a boolean
/// `success` and an optional string `error` is a function of the body text
/// alone.
#[verifier::external_body]
fn parse_post_envelope(body: &str) -> (r: Option<(bool, Option<String>)>)
    ensures
        envelope_view(r) == post_envelope_of(body@),
{
    let v: serde_json::Value = serde_json::from_str(body).ok()?;
    let obj = v.as_object()?;
    let success = obj.get("success")?.as_bool()?;
    let error = match obj.get("error") {
        None | Some(serde_json::Value::Null) => None,
        Some(e) => Some(e.as_str()?.to_string()),
    };
    Some((success, error))
}

/// The message of a parse failure on a mutation response.
pub open spec fn envelope_parse_error() -> Seq<char> {
    "JSON解析エラー: レスポンスを解析できません"@
}

/// Interprets a parsed mutation envelope: success means done; a reported
/// failure surfaces the backend's message, or `default_api_error` when it
/// gave none; an unparsable body is a parse error.
pub fn interpret_post_envelope(parsed: Option<(bool, Option<String>)>, default_api_error: &str)
    -> (r: Result<(), ApiError>)
    ensures
        match envelope_view(parsed) {
            None => r matches Err(e) && e matches ApiError::ParseError(m) && m@
                == envelope_parse_error(),
            Some((true, _)) => r is Ok,
            Some((false, err)) => r matches Err(e) && e matches ApiError::ApiResponseError(m)
                && m@ == (match err {
                Some(x) => x,
                None => default_api_error@,
            }),
        },
{
    match parsed {
        None => {
            let mut m: Vec<char> = Vec::new();
            append_str_chars(&mut m, "JSON解析エラー: レスポンスを解析できません");
            Err(ApiError::ParseError(chars_to_string(&m)))
        },
        Some((true, _)) => Ok(()),
        Some((false, err)) => {
            let msg = match err {
                Some(x) => x,
                None => <String as vstd::string::StringExecFns>::from_str(default_api_error),
            };
            Err(ApiError::ApiResponseError(msg))
        },
    }
}

/// Interprets a mutation response: a non-success status is a server error
/// with `server_error_message`; otherwise the body's envelope decides as in
/// `interpret_post_envelope`.
pub fn interpret_post_response(
    status: u16,
    body: &str,
    server_error_message: &str,
    default_api_error: &str,
) -> (r: Result<(), ApiError>)
    ensures
        !is_success_status(status) ==> (r matches Err(e) && e matches ApiError::ServerError {
            status: s,
            message,
        } && s == status && message@ == server_error_message@),
        is_success_status(status) ==> match post_envelope_of(body@) {
            None => r matches Err(e) && e matches ApiError::ParseError(m) && m@
                == envelope_parse_error(),
            Some((true, _)) => r is Ok,
            Some((false, err)) => r matches Err(e) && e matches ApiError::ApiResponseError(m)
                && m@ == (match err {
                Some(x) => x,
                None => default_api_error@,
            }),
        },
{
    if !status_is_success(status) {
        let message = <String as vstd::string::StringExecFns>::from_str(server_error_message);
        return Err(ApiError::ServerError { status, message });
    }
    let parsed = parse_post_envelope(body);
    interpret_post_envelope(parsed, default_api_error)
}

/// Interprets a query response's status: a non-success status is a server
/// error with `server_error_message`.
pub fn interpret_query_status(status: u16, server_error_message: &str) -> (r: Result<
    (),
    ApiError,
>)
    ensures
        is_success_status(status) <==> r is Ok,
        !is_success_status(status) ==> (r matches Err(e) && e matches ApiError::ServerError {
            status: s,
            message,
        } && s == status && message@ == server_error_message@),
{
    if status_is_success(status) {
        Ok(())
    } else {
        let message = <String as vstd::string::StringExecFns>::from_str(server_error_message);
        Err(ApiError::ServerError { status, message })
    }
}

/// Interprets the templates query's payload: a reported error wins;
/// otherwise a missing list stands for an empty one.
pub fn interpret_templates_result(
    templates: Option<Vec<crate::models::Template>>,
    error: Option<String>,
) -> (r: Result<Vec<crate::models::Template>, ApiError>)
    ensures
        error matches Some(e) ==> (r matches Err(ae) && ae matches ApiError::ApiResponseError(m)
            && m == e),
        error is None ==> (r matches Ok(ts) && (match templates {
            Some(t) => ts == t,
            None => ts@.len() == 0,
        })),
{
    match error {
        Some(e) => Err(ApiError::ApiResponseError(e)),
        None => match templates {
            Some(t) => Ok(t),
            None => Ok(Vec::new()),
        },
    }
}

/// One attachment as it is sent over the wire.
pub struct AttachmentPayload {
    pub file_name: String,
    pub mime_type: String,
    pub data: String,
}

/// One email of a batch as it is sent over the wire; `attachments` is absent
/// when no attachment at all was staged.
pub struct EmailPayload {
    pub to: String,
    pub subject: String,
    pub body: String,
    pub attachments: Option<Vec<AttachmentPayload>>,
}

/// The ghost view of a wire attachment.
#[verifier::ext_equal]
pub ghost struct AttachmentPayloadView {
    pub file_name: Seq<char>,
    pub mime_type: Seq<char>,
    pub data: Seq<char>,
}

impl DeepView for AttachmentPayload {
    type V = AttachmentPayloadView;

    open spec fn deep_view(&self) -> AttachmentPayloadView {
        AttachmentPayloadView {
            file_name: self.file_name@,
            mime_type: self.mime_type@,
            data: self.data@,
        }
    }
}

/// The ghost view of a wire email.
#[verifier::ext_equal]
pub ghost struct EmailPayloadView {
    pub to: Seq<char>,
    pub subject: Seq<char>,
    pub body: Seq<char>,
    pub attachments: Option<Seq<AttachmentPayloadView>>,
}

impl DeepView for EmailPayload {
    type V = EmailPayloadView;

    open spec fn deep_view(&self) -> EmailPayloadView {
        EmailPayloadView {
            to: self.to@,
            subject: self.subject@,
            body: self.body@,
            attachments: match self.attachments {
                Some(v) => Some(v.deep_view()),
                None => None,
            },
        }
    }
}

/// The wire form of the enabled attachments, in order.
pub open spec fn enabled_payloads(atts: Seq<crate::models::Attachment>) -> Seq<
    AttachmentPayloadView,
>
    decreases atts.len(),
{
    if atts.len() == 0 {
        Seq::empty()
    } else {
        let rest = enabled_payloads(atts.drop_first());
        if atts[0].enabled {
            seq![
                AttachmentPayloadView {
                    file_name: atts[0].file_name@,
                    mime_type: atts[0].mime_type@,
                    data: atts[0].data@,
                },
            ] + rest
        } else {
            rest
        }
    }
}

/// The wire form of a batch: one email per (to, subject, body) item, each
/// carrying the same enabled attachments — or none at all when nothing was
/// staged.
pub open spec fn batch_emails_spec(
    items: Seq<(String, String, String)>,
    atts: Seq<crate::models::Attachment>,
) -> Seq<EmailPayloadView> {
    items.map_values(
        |it: (String, String, String)|
            EmailPayloadView {
                to: it.0@,
                subject: it.1@,
                body: it.2@,
                attachments: if atts.len() == 0 {
                    None
                } else {
                    Some(enabled_payloads(atts))
                },
            },
    )
}

fn enabled_payload_list(attachments: &[crate::models::Attachment]) -> (r: Vec<AttachmentPayload>)
    ensures
        r.deep_view() == enabled_payloads(attachments@),
{
    let n = attachments.len();
    let mut r: Vec<AttachmentPayload> = Vec::new();
    let mut j: usize = 0;
    proof {
        assert(attachments@.skip(0) =~= attachments@);
        assert(r.deep_view() =~~= Seq::<AttachmentPayloadView>::empty());
        assert(Seq::<AttachmentPayloadView>::empty() + enabled_payloads(attachments@)
            =~= enabled_payloads(attachments@));
    }
    while j < n
        invariant
            j <= n,
            n == attachments@.len(),
            enabled_payloads(attachments@) == r.deep_view() + enabled_payloads(
                attachments@.skip(j as int),
            ),
        decreases n - j,
    {
        let ghost rest = attachments@.skip(j as int);
        let ghost rpre = r.deep_view();
        proof {
            assert(rest[0] == attachments@[j as int]);
            assert(rest.drop_first() =~= attachments@.skip(j + 1));
        }
        let a = &attachments[j];
        if a.enabled {
            r.push(
                AttachmentPayload {
                    file_name: a.file_name.clone(),
                    mime_type: a.mime_type.clone(),
                    data: a.data.clone(),
                },
            );
            proof {
                assert(r.deep_view() =~~= rpre + seq![
                    AttachmentPayloadView {
                        file_name: rest[0].file_name@,
                        mime_type: rest[0].mime_type@,
                        data: rest[0].data@,
                    },
                ]);
            }
        }
        j += 1;
        proof {
            assert(enabled_payloads(attachments@) == r.deep_view() + enabled_payloads(
                attachments@.skip(j as int),
            ));
        }
    }
    proof {
        assert(attachments@.skip(n as int) =~= Seq::<crate::models::Attachment>::empty());
        assert(r.deep_view() + Seq::<AttachmentPayloadView>::empty() =~= r.deep_view());
    }
    r
}

/// Assembles the wire form of a batch send: one email per item, each given
/// the same enabled-attachment set; the attachment field is left out
/// entirely when nothing at all was staged.
pub fn build_batch_emails(
    items: &[(String, String, String)],
    attachments: &[crate::models::Attachment],
) -> (r: Vec<EmailPayload>)
    ensures
        r.deep_view() == batch_emails_spec(items@, attachments@),
{
    let n = items.len();
    let mut r: Vec<EmailPayload> = Vec::new();
    let any_attachments = attachments.len() > 0;
    let mut i: usize = 0;
    proof {
        assert(r.deep_view() =~~= batch_emails_spec(items@.subrange(0, 0), attachments@));
    }
    while i < n
        invariant
            i <= n,
            n == items@.len(),
            any_attachments == (attachments@.len() > 0),
            r.deep_view() == batch_emails_spec(items@.subrange(0, i as int), attachments@),
        decreases n - i,
    {
        let ghost i0 = i as int;
        let ghost rpre = r.deep_view();
        let item = &items[i];
        let atts: Option<Vec<AttachmentPayload>> = if any_attachments {
            Some(enabled_payload_list(attachments))
        } else {
            None
        };
        let entry = EmailPayload {
            to: item.0.clone(),
            subject: item.1.clone(),
            body: item.2.clone(),
            attachments: atts,
        };
        let ghost ev = entry.deep_view();
        proof {
            let it = items@[i0];
            assert(ev.to == it.0@ && ev.subject == it.1@ && ev.body == it.2@);
            assert(ev.attachments == (if attachments@.len() == 0 {
                None::<Seq<AttachmentPayloadView>>
            } else {
                Some(enabled_payloads(attachments@))
            }));
            assert(items@.subrange(0, i0 + 1)[i0] == it);
            assert(batch_emails_spec(items@.subrange(0, i0 + 1), attachments@)[i0] =~~= ev);
        }
        r.push(entry);
        i += 1;
        proof {
            let target = batch_emails_spec(items@.subrange(0, i0 + 1), attachments@);
            assert(items@.subrange(0, i0 + 1).len() == i0 + 1);
            assert(target.len() == i0 + 1);
            assert(rpre.len() == i0);
            assert(r@.len() == i0 + 1);
            assert(r.deep_view().len() == i0 + 1);
            assert forall|k: int| 0 <= k < i0 + 1 implies r.deep_view()[k] == target[k] by {
                if k < i0 {
                    assert(r.deep_view()[k] == rpre[k]);
                    assert(items@.subrange(0, i0)[k] == items@.subrange(0, i0 + 1)[k]);
                    assert(rpre[k] == batch_emails_spec(items@.subrange(0, i0), attachments@)[k]);
                } else {
                    assert(r.deep_view()[k] == ev);
                    assert(target[i0] == ev);
                }
            }
            assert(r.deep_view() =~= target);
        }
    }
    proof {
        assert(items@.subrange(0, n as int) =~= items@);
    }
    r
}

} // verus!
