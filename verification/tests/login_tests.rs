use thu_learn_cli::json::JsonValue;
use thu_learn_cli::login::{
    cdp_cookies_to_raw, cookie_url, learn_host_text, login_step, webdriver_cookie_to_raw,
    LoginAction, LoginEvent, LoginWait, MAX_WAIT_MS, POLL_INTERVAL_MS,
};

fn obj(members: Vec<(&str, JsonValue)>) -> JsonValue {
    JsonValue::Object(members.into_iter().map(|(k, v)| (k.to_string(), v)).collect())
}

fn s(t: &str) -> JsonValue {
    JsonValue::Str(t.to_string())
}

#[test]
fn cdp_cookie_capture_keeps_cross_domain_cookies() {
    let value = obj(vec![(
        "cookies",
        JsonValue::Array(vec![
            obj(vec![
                ("name", s("LEARN")),
                ("value", s("learn-session")),
                ("domain", s("learn.tsinghua.edu.cn")),
                ("path", s("/")),
            ]),
            obj(vec![
                ("name", s("JSESSIONID")),
                ("value", s("id-session")),
                ("domain", s("id.tsinghua.edu.cn")),
                ("path", s("/")),
            ]),
        ]),
    )]);

    let cookies = cdp_cookies_to_raw(&value);

    assert_eq!(cookies.len(), 2);
    assert!(cookies.iter().any(|(_, _, domain, _)| domain == "learn.tsinghua.edu.cn"));
    assert!(cookies.iter().any(|(_, _, domain, _)| domain == "id.tsinghua.edu.cn"));
}

#[test]
fn cdp_cookies_default_domain_and_path_and_skip_nameless() {
    let value = obj(vec![(
        "cookies",
        JsonValue::Array(vec![
            obj(vec![("name", s("A")), ("value", s("1"))]),
            obj(vec![("name", s("B"))]),
            obj(vec![("name", s("C")), ("value", JsonValue::Number("2".to_string()))]),
            s("not a cookie"),
        ]),
    )]);
    let cookies = cdp_cookies_to_raw(&value);
    assert_eq!(
        cookies,
        vec![("A".to_string(), "1".to_string(), "learn.tsinghua.edu.cn".to_string(), "/".to_string())]
    );
    assert!(cdp_cookies_to_raw(&obj(vec![])).is_empty());
    assert!(cdp_cookies_to_raw(&obj(vec![("cookies", s("x"))])).is_empty());
}

#[test]
fn webdriver_cookies_get_defaults() {
    assert_eq!(
        webdriver_cookie_to_raw("n".to_string(), "v".to_string(), None, None),
        ("n".to_string(), "v".to_string(), learn_host_text(), "/".to_string())
    );
    assert_eq!(
        webdriver_cookie_to_raw("n".to_string(), "v".to_string(), Some(".x.cn".to_string()), Some("/p".to_string())),
        ("n".to_string(), "v".to_string(), ".x.cn".to_string(), "/p".to_string())
    );
}

#[test]
fn cookie_urls_use_a_concrete_host() {
    assert_eq!(cookie_url(".tsinghua.edu.cn"), "https://learn.tsinghua.edu.cn/");
    assert_eq!(cookie_url("..id.tsinghua.edu.cn"), "https://id.tsinghua.edu.cn/");
    assert_eq!(cookie_url("learn.tsinghua.edu.cn"), "https://learn.tsinghua.edu.cn/");
    assert_eq!(cookie_url(""), "https:///");
}

#[test]
fn login_wait_follows_the_authentication_round_trip() {
    let w = LoginWait::new();
    let learn = LoginEvent::Address("https://learn.tsinghua.edu.cn/f/wlxt/index".to_string());
    let auth = LoginEvent::Address("https://id.tsinghua.edu.cn/do/off/ui/auth/login".to_string());

    // Learn before authentication: keep waiting.
    let (w, a) = login_step(w, &learn);
    assert_eq!(a, LoginAction::Wait);
    assert!(!w.seen_auth);
    assert_eq!(w.waited, POLL_INTERVAL_MS);

    let (w, a) = login_step(w, &auth);
    assert_eq!(a, LoginAction::Wait);
    assert!(w.seen_auth);

    let (w, a) = login_step(w, &learn);
    assert_eq!(a, LoginAction::TryCapture { give_up: false });
    assert_eq!(w.waited, 3 * POLL_INTERVAL_MS);

    let (_, a) = login_step(w, &LoginEvent::Enter);
    assert_eq!(a, LoginAction::Capture);
    let (_, a) = login_step(w, &LoginEvent::AddressUnavailable);
    assert_eq!(a, LoginAction::Capture);
}

#[test]
fn login_wait_gives_up_after_five_minutes() {
    let mut w = LoginWait::new();
    let blank = LoginEvent::Address("about:blank".to_string());
    let mut polls = 0;
    loop {
        let (next, a) = login_step(w, &blank);
        polls += 1;
        if a == LoginAction::Capture {
            break;
        }
        assert_eq!(a, LoginAction::Wait);
        w = next;
    }
    assert_eq!(polls as u64, MAX_WAIT_MS / POLL_INTERVAL_MS);
    let last = LoginWait { seen_auth: true, waited: MAX_WAIT_MS - POLL_INTERVAL_MS };
    let learn = LoginEvent::Address("https://learn.tsinghua.edu.cn/".to_string());
    assert_eq!(login_step(last, &learn).1, LoginAction::TryCapture { give_up: true });
}
