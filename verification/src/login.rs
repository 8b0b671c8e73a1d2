//! Browser login: when to capture the session cookies while the user signs in, how the
//! captured cookies are read, and where each is stored.
use vstd::prelude::*;
use crate::json::{field, get_field, JsonValue};
use crate::text::{
    chars_of, contains_seq, contains_text, copy_range, extend_chars, lemma_scan, scan, scan_exec,
    seq_eq, string_of, Stop,
};

verus! {

broadcast use vstd::string::group_string_axioms;

/// How often the browser's address is looked at, in milliseconds.
pub const POLL_INTERVAL_MS: u64 = 1500;

/// How long the login may take before the cookies are captured anyway (five minutes).
pub const MAX_WAIT_MS: u64 = 300000;

/// How long cookies are given to settle once Learn is reached again, in milliseconds.
pub const SETTLE_MS: u64 = 800;

/// The unified authentication host.
pub open spec fn auth_host() -> Seq<char> {
    seq!['i', 'd', '.', 't', 's', 'i', 'n', 'g', 'h', 'u', 'a', '.', 'e', 'd', 'u', '.', 'c', 'n']
}

/// The Learn host, reached after a successful login.
pub open spec fn learn_host() -> Seq<char> {
    seq!['l', 'e', 'a', 'r', 'n', '.', 't', 's', 'i', 'n', 'g', 'h', 'u', 'a', '.', 'e', 'd', 'u', '.', 'c', 'n']
}

/// The Learn host.
pub fn learn_host_text() -> (r: String)
    ensures
        r@ == learn_host(),
{
    string_of(
        &vec!['l', 'e', 'a', 'r', 'n', '.', 't', 's', 'i', 'n', 'g', 'h', 'u', 'a', '.', 'e', 'd', 'u', '.', 'c', 'n'],
    )
}

// ---------------------------------------------------------------------------
// Waiting for the login
// ---------------------------------------------------------------------------

/// What the wait has seen so far: whether the authentication page was reached, and how
/// long it has waited.
#[derive(Debug, Clone, Copy, PartialEq, Eq, Structural)]
pub struct LoginWait {
    pub seen_auth: bool,
    pub waited: u64,
}

/// What happened while waiting.
#[derive(Debug)]
pub enum LoginEvent {
    /// The user pressed Enter.
    Enter,
    /// A poll interval passed and the browser shows this address.
    Address(String),
    /// A poll interval passed and the browser's address could not be read (it may have
    /// been closed).
    AddressUnavailable,
}

/// What to do next.
#[derive(Debug, Clone, Copy, PartialEq, Eq, Structural)]
pub enum LoginAction {
    /// Poll again after the interval.
    Wait,
    /// Capture the cookies and stop.
    Capture,
    /// Let the cookies settle and capture them; stop if any were captured. Otherwise
    /// capture once more and stop when `give_up`, else keep waiting.
    TryCapture { give_up: bool },
}

pub enum EventView {
    Enter,
    Address(Seq<char>),
    AddressUnavailable,
}

pub open spec fn event_view(e: LoginEvent) -> EventView {
    match e {
        LoginEvent::Enter => EventView::Enter,
        LoginEvent::Address(a) => EventView::Address(a@),
        LoginEvent::AddressUnavailable => EventView::AddressUnavailable,
    }
}

impl LoginWait {
    /// A wait in progress has not yet run out of time.
    pub open spec fn wf(self) -> bool {
        self.waited < MAX_WAIT_MS
    }

    pub fn new() -> (r: LoginWait)
        ensures
            r.wf(),
            !r.seen_auth && r.waited == 0,
    {
        LoginWait { seen_auth: false, waited: 0 }
    }
}

/// One step of the wait. Enter captures at once. Every poll adds the interval; an
/// unreadable address captures at once; the authentication host marks that the user is
/// signing in; Learn reached after that tries a capture; time running out captures.
pub open spec fn login_step_spec(w: LoginWait, e: EventView) -> (LoginWait, LoginAction) {
    match e {
        EventView::Enter => (w, LoginAction::Capture),
        EventView::AddressUnavailable => (
            LoginWait { seen_auth: w.seen_auth, waited: (w.waited + POLL_INTERVAL_MS) as u64 },
            LoginAction::Capture,
        ),
        EventView::Address(a) => {
            let waited = (w.waited + POLL_INTERVAL_MS) as u64;
            let out_of_time = waited >= MAX_WAIT_MS;
            if contains_seq(a, auth_host()) {
                (
                    LoginWait { seen_auth: true, waited },
                    if out_of_time {
                        LoginAction::Capture
                    } else {
                        LoginAction::Wait
                    },
                )
            } else if w.seen_auth && contains_seq(a, learn_host()) {
                (LoginWait { seen_auth: true, waited }, LoginAction::TryCapture { give_up: out_of_time })
            } else {
                (
                    LoginWait { seen_auth: w.seen_auth, waited },
                    if out_of_time {
                        LoginAction::Capture
                    } else {
                        LoginAction::Wait
                    },
                )
            }
        },
    }
}

/// Decides what to do on an event while waiting for the login.
pub fn login_step(w: LoginWait, e: &LoginEvent) -> (r: (LoginWait, LoginAction))
    requires
        w.wf(),
    ensures
        r == login_step_spec(w, event_view(*e)),
        (r.1 == LoginAction::Wait || r.1 == (LoginAction::TryCapture { give_up: false })) ==> r.0.wf(),
{
    match e {
        LoginEvent::Enter => (w, LoginAction::Capture),
        LoginEvent::AddressUnavailable => (
            LoginWait { seen_auth: w.seen_auth, waited: w.waited + POLL_INTERVAL_MS },
            LoginAction::Capture,
        ),
        LoginEvent::Address(a) => {
            let waited = w.waited + POLL_INTERVAL_MS;
            let out_of_time = waited >= MAX_WAIT_MS;
            let auth = vec!['i', 'd', '.', 't', 's', 'i', 'n', 'g', 'h', 'u', 'a', '.', 'e', 'd', 'u', '.', 'c', 'n'];
            let learn = vec!['l', 'e', 'a', 'r', 'n', '.', 't', 's', 'i', 'n', 'g', 'h', 'u', 'a', '.', 'e', 'd', 'u', '.', 'c', 'n'];
            if contains_text(a.as_str(), &auth) {
                (
                    LoginWait { seen_auth: true, waited },
                    if out_of_time {
                        LoginAction::Capture
                    } else {
                        LoginAction::Wait
                    },
                )
            } else if w.seen_auth && contains_text(a.as_str(), &learn) {
                (LoginWait { seen_auth: true, waited }, LoginAction::TryCapture { give_up: out_of_time })
            } else {
                (
                    LoginWait { seen_auth: w.seen_auth, waited },
                    if out_of_time {
                        LoginAction::Capture
                    } else {
                        LoginAction::Wait
                    },
                )
            }
        },
    }
}

/// The wait always ends: every poll brings it one interval closer to the limit, and it
/// captures once the limit is reached.
pub proof fn law_login_wait_ends(w: LoginWait, a: Seq<char>)
    requires
        w.wf(),
    ensures
        login_step_spec(w, EventView::Address(a)).0.waited == w.waited + POLL_INTERVAL_MS,
        w.waited + POLL_INTERVAL_MS >= MAX_WAIT_MS ==> match login_step_spec(
            w,
            EventView::Address(a),
        ).1 {
            LoginAction::Wait => false,
            LoginAction::Capture => true,
            LoginAction::TryCapture { give_up } => give_up,
        },
{
}

/// Learn is only trusted once the authentication page was seen: before that, reaching
/// Learn (with a stale session) never captures.
pub proof fn law_learn_before_auth_waits(w: LoginWait, a: Seq<char>)
    requires
        w.wf(),
        !w.seen_auth,
        !contains_seq(a, auth_host()),
        w.waited + POLL_INTERVAL_MS < MAX_WAIT_MS,
    ensures
        login_step_spec(w, EventView::Address(a)).1 == LoginAction::Wait,
{
}

// ---------------------------------------------------------------------------
// Captured cookies
// ---------------------------------------------------------------------------

/// A captured cookie: name, value, domain and path.
pub type RawCookie = (String, String, String, String);

pub open spec fn raw_cookie_view(c: RawCookie) -> (Seq<char>, Seq<char>, Seq<char>, Seq<char>) {
    (c.0@, c.1@, c.2@, c.3@)
}

/// The text of a JSON string; nothing for other values.
pub open spec fn str_of(v: JsonValue) -> Option<Seq<char>> {
    match v {
        JsonValue::Str(s) => Some(s@),
        _ => None,
    }
}

pub open spec fn or_else(o: Option<Seq<char>>, d: Seq<char>) -> Seq<char> {
    match o {
        Some(t) => t,
        None => d,
    }
}

/// A cookie of the browser's cookie list: it needs a text name and value; a missing
/// domain stands for the Learn host and a missing path for `/`.
pub open spec fn cookie_from_json(c: JsonValue) -> Option<(Seq<char>, Seq<char>, Seq<char>, Seq<char>)> {
    match (str_of(field(c, seq!['n', 'a', 'm', 'e'])), str_of(field(c, seq!['v', 'a', 'l', 'u', 'e']))) {
        (Some(n), Some(v)) => Some(
            (
                n,
                v,
                or_else(str_of(field(c, seq!['d', 'o', 'm', 'a', 'i', 'n'])), learn_host()),
                or_else(str_of(field(c, seq!['p', 'a', 't', 'h'])), seq!['/']),
            ),
        ),
        _ => None,
    }
}

pub open spec fn cookies_from(a: Seq<JsonValue>) -> Seq<(Seq<char>, Seq<char>, Seq<char>, Seq<char>)>
    decreases a.len(),
{
    if a.len() == 0 {
        seq![]
    } else {
        match cookie_from_json(a.last()) {
            Some(c) => cookies_from(a.drop_last()).push(c),
            None => cookies_from(a.drop_last()),
        }
    }
}

/// The cookies of a `Network.getAllCookies` reply: those under `cookies`, in order.
pub open spec fn cdp_cookies_spec(v: JsonValue) -> Seq<(Seq<char>, Seq<char>, Seq<char>, Seq<char>)> {
    match field(v, seq!['c', 'o', 'o', 'k', 'i', 'e', 's']) {
        JsonValue::Array(a) => cookies_from(a@),
        _ => seq![],
    }
}

fn str_field(c: &JsonValue, k: &[char]) -> (r: Option<String>)
    ensures
        r matches Some(t) ==> str_of(field(*c, k@)) == Some(t@),
        r is None ==> str_of(field(*c, k@)) is None,
{
    match get_field(c, k) {
        Some(JsonValue::Str(s)) => Some(s.clone()),
        _ => None,
    }
}

fn text_or(o: Option<String>, d: Vec<char>) -> (r: String)
    ensures
        r@ == match o {
            Some(t) => t@,
            None => d@,
        },
{
    match o {
        Some(t) => t,
        None => string_of(&d),
    }
}

/// Reads the cookies out of a `Network.getAllCookies` reply.
pub fn cdp_cookies_to_raw(value: &JsonValue) -> (r: Vec<RawCookie>)
    ensures
        r@.map_values(|c: RawCookie| raw_cookie_view(c)) == cdp_cookies_spec(*value),
{
    let key = vec!['c', 'o', 'o', 'k', 'i', 'e', 's'];
    assert(key@ == seq!['c', 'o', 'o', 'k', 'i', 'e', 's']);
    let mut out: Vec<RawCookie> = Vec::new();
    match get_field(value, &key) {
        Some(JsonValue::Array(a)) => {
            let mut i: usize = 0;
            assert(a@.take(0) =~= seq![]);
            assert(out@.map_values(|c: RawCookie| raw_cookie_view(c)) =~= seq![]);
            while i < a.len()
                invariant
                    i <= a@.len(),
                    out@.map_values(|c: RawCookie| raw_cookie_view(c)) == cookies_from(
                        a@.take(i as int),
                    ),
                decreases a.len() - i,
            {
                let c = &a[i];
                assert(a@.take(i + 1).drop_last() == a@.take(i as int));
                assert(a@.take(i + 1).last() == *c);
                let kn = vec!['n', 'a', 'm', 'e'];
                let kv = vec!['v', 'a', 'l', 'u', 'e'];
                let kd = vec!['d', 'o', 'm', 'a', 'i', 'n'];
                let kp = vec!['p', 'a', 't', 'h'];
                assert(kn@ == seq!['n', 'a', 'm', 'e']);
                assert(kv@ == seq!['v', 'a', 'l', 'u', 'e']);
                assert(kd@ == seq!['d', 'o', 'm', 'a', 'i', 'n']);
                assert(kp@ == seq!['p', 'a', 't', 'h']);
                let name = str_field(c, &kn);
                let val = str_field(c, &kv);
                match (name, val) {
                    (Some(n), Some(v)) => {
                        let host = vec!['l', 'e', 'a', 'r', 'n', '.', 't', 's', 'i', 'n', 'g', 'h', 'u', 'a', '.', 'e', 'd', 'u', '.', 'c', 'n'];
                        assert(host@ == learn_host());
                        let root = vec!['/'];
                        assert(root@ == seq!['/']);
                        let d = text_or(str_field(c, &kd), host);
                        let p = text_or(str_field(c, &kp), root);
                        assert(cookie_from_json(*c) == Some((n@, v@, d@, p@)));
                        let ghost before = out@;
                        let rc: RawCookie = (n, v, d, p);
                        out.push(rc);
                        assert(out@.map_values(|c: RawCookie| raw_cookie_view(c)) =~= before.map_values(
                            |c: RawCookie| raw_cookie_view(c),
                        ).push(raw_cookie_view(rc)));
                    },
                    _ => {},
                }
                i += 1;
            }
            assert(a@.take(a@.len() as int) == a@);
        },
        _ => {
            assert(out@.map_values(|c: RawCookie| raw_cookie_view(c)) =~= seq![]);
        },
    }
    out
}

/// A cookie read through WebDriver: a missing domain stands for the Learn host and a
/// missing path for `/`.
pub fn webdriver_cookie_to_raw(
    name: String,
    value: String,
    domain: Option<String>,
    path: Option<String>,
) -> (r: RawCookie)
    ensures
        raw_cookie_view(r) == (name@, value@, or_else(
            match domain {
                Some(d) => Some(d@),
                None => None,
            },
            learn_host(),
        ), or_else(
            match path {
                Some(p) => Some(p@),
                None => None,
            },
            seq!['/'],
        )),
{
    let host = vec!['l', 'e', 'a', 'r', 'n', '.', 't', 's', 'i', 'n', 'g', 'h', 'u', 'a', '.', 'e', 'd', 'u', '.', 'c', 'n'];
    assert(host@ == learn_host());
    let root = vec!['/'];
    assert(root@ == seq!['/']);
    let d = text_or(domain, host);
    let p = text_or(path, root);
    (name, value, d, p)
}

// ---------------------------------------------------------------------------
// Where a cookie is stored
// ---------------------------------------------------------------------------

/// The host a cookie is stored for: its domain without leading dots, and the Learn host
/// for the university-wide domain `tsinghua.edu.cn`.
pub open spec fn cookie_host_spec(domain: Seq<char>) -> Seq<char> {
    let bare = domain.skip(scan(domain, 0, Stop::NotChar, '.'));
    if bare == seq!['t', 's', 'i', 'n', 'g', 'h', 'u', 'a', '.', 'e', 'd', 'u', '.', 'c', 'n'] {
        learn_host()
    } else {
        bare
    }
}

/// The address a cookie is inserted under: `https://<host>/`.
pub open spec fn cookie_url_spec(domain: Seq<char>) -> Seq<char> {
    seq!['h', 't', 't', 'p', 's', ':', '/', '/'] + cookie_host_spec(domain) + seq!['/']
}

pub fn cookie_url(domain: &str) -> (r: String)
    ensures
        r@ == cookie_url_spec(domain@),
{
    let d = chars_of(domain);
    proof {
        lemma_scan(d@, 0, Stop::NotChar, '.');
    }
    let start = scan_exec(&d, 0, Stop::NotChar, '.');
    let bare = copy_range(&d, start, d.len());
    assert(bare@ == d@.skip(start as int));
    let broad = vec!['t', 's', 'i', 'n', 'g', 'h', 'u', 'a', '.', 'e', 'd', 'u', '.', 'c', 'n'];
    let mut out = vec!['h', 't', 't', 'p', 's', ':', '/', '/'];
    if seq_eq(&bare, &broad) {
        extend_chars(
            &mut out,
            &vec!['l', 'e', 'a', 'r', 'n', '.', 't', 's', 'i', 'n', 'g', 'h', 'u', 'a', '.', 'e', 'd', 'u', '.', 'c', 'n'],
        );
    } else {
        extend_chars(&mut out, &bare);
    }
    out.push('/');
    string_of(&out)
}

/// The URL type of the `url` crate, carried through unopened.
#[verifier::external_type_specification]
#[verifier::external_body]
pub struct ExUrl(url::Url);

/// Whether `url::Url::parse` accepts a text.
pub uninterp spec fn url_accepts(s: Seq<char>) -> bool;

/// `url::Url::parse`. Which texts it accepts (the WHATWG URL grammar) is named by
/// `url_accepts`; the parsed URL itself is not described.
#[verifier::external_body]
fn parse_url(s: &str) -> (r: Option<url::Url>)
    ensures
        r is Some <==> url_accepts(s@),
{
    url::Url::parse(s).ok()
}

/// The parsed address a cookie is inserted under; `None` when it does not parse (such a
/// cookie is skipped).
pub fn cookie_insert_url(domain: &str) -> (r: Option<url::Url>)
    ensures
        r is Some <==> url_accepts(cookie_url_spec(domain@)),
{
    let text = cookie_url(domain);
    parse_url(text.as_str())
}

} // verus!
