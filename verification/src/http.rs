//! The console's door: where it listens, who may come in, and where a request goes.
use vstd::prelude::*;
use vstd::string::*;
use crate::address::{is_ipv4, is_ipv4_text};
use crate::text::{
    alike, begins, cat3, cat4, chars_of, contains, cut, decimal, decimal_text, ends, find_char, has,
    is_alike, lemma_find_char, lemma_utf8_injective, occurs_at, opt_view, owned, pieces, same,
    split, split_once, starts_with, strip_prefix, strip_suffix, texts, trim, trimmed,
};
use crate::url::{
    lemma_url_encoded_is_plain, lemma_url_round_trip, url_decoded, url_encoded, urldecode,
    urlencode,
};

verus! {

// ---------------------------------------------------------------------------
// Addresses
// ---------------------------------------------------------------------------

/// Whether only this host can reach a bind address: one that is plainly a loopback address.
pub open spec fn loopback(bind: Seq<char>) -> bool {
    let text = trimmed(bind);
    alike(text, "localhost"@) || text == "::1"@ || text == "[::1]"@ || (is_ipv4(text) && pieces(
        text,
        '.',
    )[0] == "127"@)
}

/// Whether only this host can reach a bind address.
pub fn bind_is_loopback(bind: &str) -> (r: bool)
    ensures
        r == loopback(bind@),
{
    let text = trim(bind);
    if is_alike(text, "localhost") || same(text, "::1") || same(text, "[::1]") {
        return true;
    }
    if !is_ipv4_text(text) {
        return false;
    }
    let parts = split(text, '.');
    assert(texts(parts@).len() == parts@.len());
    assert(texts(parts@)[0] == parts@[0]@);
    same(parts[0].as_str(), "127")
}

/// The address to listen on. A bare IPv6 address gets its brackets.
pub open spec fn listen_text(bind: Seq<char>, port: u16) -> Seq<char> {
    let text = trimmed(bind);
    if has(text, ":"@) && !begins(text, "["@) {
        "["@ + text + "]:"@ + decimal(port as nat)
    } else {
        text + ":"@ + decimal(port as nat)
    }
}

/// The address to listen on.
pub fn listen_addr(bind: &str, port: u16) -> (r: String)
    ensures
        r@ == listen_text(bind@, port),
{
    let text = trim(bind);
    let number = decimal_text(port as u64);
    if contains(text, ":") && !starts_with(text, "[") {
        cat4("[", text, "]:", number.as_str())
    } else {
        cat3(text, ":", number.as_str())
    }
}

/// Whether a bind address means every interface.
pub open spec fn wildcard(bind: Seq<char>) -> bool {
    let text = trimmed(bind);
    text == "0.0.0.0"@ || text == "::"@ || text == "[::]"@
}

/// Whether a bind address means every interface.
pub fn bind_is_wildcard(bind: &str) -> (r: bool)
    ensures
        r == wildcard(bind@),
{
    let text = trim(bind);
    same(text, "0.0.0.0") || same(text, "::") || same(text, "[::]")
}

/// The host part of an address that a browser can open: a loopback address in place of every
/// interface.
pub open spec fn display_host(bind: Seq<char>) -> Seq<char> {
    let text = trimmed(bind);
    if text == "0.0.0.0"@ {
        "127.0.0.1"@
    } else if text == "::"@ || text == "[::]"@ {
        "[::1]"@
    } else {
        text
    }
}

/// The address that a browser can open.
pub fn display_addr(bind: &str, port: u16) -> (r: String)
    ensures
        r@ == listen_text(display_host(bind@), port),
{
    let text = trim(bind);
    if same(text, "0.0.0.0") {
        listen_addr("127.0.0.1", port)
    } else if same(text, "::") || same(text, "[::]") {
        listen_addr("[::1]", port)
    } else {
        listen_addr(text, port)
    }
}

/// Whether the console is to quit: once it was asked to, and once no run is under way.
pub fn should_shut_down(cancelled: bool, run_in_flight: bool) -> (r: bool)
    ensures
        r == (cancelled && !run_in_flight),
{
    cancelled && !run_in_flight
}

// ---------------------------------------------------------------------------
// Downloads
// ---------------------------------------------------------------------------

/// Whether a character may stand in the name of a download.
pub open spec fn name_char(c: char) -> bool {
    ('A' <= c <= 'Z') || ('a' <= c <= 'z') || ('0' <= c <= '9') || c == '-' || c == '_' || c == '.'
}

/// A run's name with all but plain characters replaced.
pub open spec fn safe_name(id: Seq<char>) -> Seq<char> {
    if id.len() == 0 {
        "run"@
    } else {
        Seq::new(
            id.len(),
            |i: int|
                if name_char(id[i]) {
                    id[i]
                } else {
                    '_'
                },
        )
    }
}

/// The `Content-Disposition` of a run's download.
pub fn bundle_disposition(id: &str) -> (r: String)
    ensures
        r@ == "attachment; filename=\""@ + safe_name(id@) + ".zip\""@,
{
    let cs = chars_of(id);
    let mut safe = String::new();
    let mut i: usize = 0;
    let ghost all = safe_name(id@);
    while i < cs.len()
        invariant
            cs@ == id@,
            i <= cs@.len(),
            all == safe_name(id@),
            cs@.len() > 0 ==> safe@ == all.take(i as int),
            cs@.len() == 0 ==> safe@.len() == 0,
        decreases cs@.len() - i,
    {
        let c = cs[i];
        let plain = ('A' <= c && c <= 'Z') || ('a' <= c && c <= 'z') || ('0' <= c && c <= '9') || c
            == '-' || c == '_' || c == '.';
        safe.push(
            if plain {
                c
            } else {
                '_'
            },
        );
        assert(all.take(i as int).push(all[i as int]) =~= all.take(i + 1));
        i += 1;
    }
    assert(cs@.len() > 0 ==> all.take(i as int) =~= all);
    if cs.len() == 0 {
        safe = owned("run");
    }
    cat3("attachment; filename=\"", safe.as_str(), ".zip\"")
}

/// The index of the first name that is `id`, from `i` on; the length where there is none.
pub open spec fn name_index(names: Seq<Seq<char>>, id: Seq<char>, i: int) -> int
    decreases names.len() - i,
{
    if i < 0 || i >= names.len() {
        names.len() as int
    } else if names[i] == id {
        i
    } else {
        name_index(names, id, i + 1)
    }
}

/// The run directory that an id means, by its place among the names of those that exist. Nothing but
/// an exact name finds one.
pub fn resolve_run_dir(names: &Vec<String>, id: &str) -> (r: Option<usize>)
    ensures
        match r {
            Some(at) => id@.len() > 0 && at == name_index(texts(names@), id@, 0) && at
                < names@.len() && names@[at as int]@ == id@,
            None => id@.len() == 0 || !texts(names@).contains(id@),
        },
{
    if id.is_empty() {
        return None;
    }
    let ghost list = texts(names@);
    let mut i: usize = 0;
    while i < names.len()
        invariant
            i <= names@.len(),
            id@.len() > 0,
            list == texts(names@),
            name_index(list, id@, 0) == name_index(list, id@, i as int),
            forall|k: int| 0 <= k < i ==> list[k] != id@,
        decreases names@.len() - i,
    {
        assert(list[i as int] == names@[i as int]@);
        if same(names[i].as_str(), id) {
            return Some(i);
        }
        i += 1;
    }
    None
}

// ---------------------------------------------------------------------------
// Credentials
// ---------------------------------------------------------------------------

/// The name of the cookie that holds the console's token.
pub const SESSION_COOKIE: &'static str = "cpe_ui_session";

/// Compares two secrets, looking at every byte of secrets of equal length.
pub fn secret_eq(given: &str, expected: &str) -> (r: bool)
    ensures
        r == (given@ == expected@),
{
    let a = given.as_bytes();
    let b = expected.as_bytes();
    if a.len() != b.len() {
        return false;
    }
    let mut diff: u8 = 0;
    let mut i: usize = 0;
    while i < a.len()
        invariant
            i <= a@.len(),
            a@.len() == b@.len(),
            (diff == 0) == (forall|k: int| 0 <= k < i ==> a@[k] == b@[k]),
        decreases a@.len() - i,
    {
        let x: u8 = a[i];
        let y: u8 = b[i];
        assert((diff | (x ^ y)) == 0 <==> diff == 0 && x == y) by (bit_vector);
        let ghost before = diff;
        diff = diff | (x ^ y);
        proof {
            if before == 0 && x == y {
                assert(forall|k: int| 0 <= k < i + 1 ==> a@[k] == b@[k]);
            }
            if !(before == 0 && x == y) {
                if x != y {
                    assert(a@[i as int] != b@[i as int]);
                }
            }
        }
        i += 1;
    }
    proof {
        if diff == 0 {
            assert(a@ =~= b@);
            lemma_utf8_injective(given@, expected@);
        }
    }
    diff == 0
}

/// Whether one of the parts of a query from index `i` on gives the token.
pub open spec fn query_gives(parts: Seq<Seq<char>>, token: Seq<char>) -> bool {
    exists|i: int| 0 <= i < parts.len() && gives_token(#[trigger] parts[i], token)
}

/// Whether a part of a query gives the token.
pub open spec fn gives_token(part: Seq<char>, token: Seq<char>) -> bool {
    begins(part, "token="@) && url_decoded(part.skip("token="@.len() as int)) == token
}

/// Whether a request shows the console's token: in its query, in a header or as a bearer token.
/// Without a token everyone may come in.
pub open spec fn authorized(
    token: Seq<char>,
    query: Seq<char>,
    header: Option<Seq<char>>,
    bearer: Option<Seq<char>>,
) -> bool {
    token.len() == 0 || header == Some(token) || bearer == Some(token) || query_gives(
        pieces(query, '&'),
        token,
    )
}

/// Whether an optional secret is the expected one.
pub fn opt_secret_eq(given: Option<&str>, expected: &str) -> (r: bool)
    ensures
        r == (opt_view(given) == Some(expected@)),
{
    match given {
        Some(value) => secret_eq(value, expected),
        None => false,
    }
}

/// Whether a request shows the console's token.
pub fn request_is_authorized(
    token: &str,
    query: &str,
    header_token: Option<&str>,
    bearer: Option<&str>,
) -> (r: bool)
    ensures
        r == authorized(token@, query@, opt_view(header_token), opt_view(bearer)),
{
    if token.is_empty() {
        return true;
    }
    if opt_secret_eq(header_token, token) || opt_secret_eq(bearer, token) {
        return true;
    }
    let parts = split(query, '&');
    let ghost list = pieces(query@, '&');
    let mut i: usize = 0;
    assert(list.len() == parts@.len());
    while i < parts.len()
        invariant
            i <= parts@.len(),
            list == texts(parts@),
            list == pieces(query@, '&'),
            list.len() == parts@.len(),
            forall|k: int| 0 <= k < i ==> !gives_token(#[trigger] list[k], token@),
        decreases parts@.len() - i,
    {
        assert(list[i as int] == parts@[i as int]@);
        if let Some(value) = strip_prefix(parts[i].as_str(), "token=") {
            let decoded = urldecode(value);
            if secret_eq(decoded.as_str(), token) {
                assert(gives_token(list[i as int], token@));
                return true;
            }
        }
        i += 1;
    }
    false
}

/// Whether a request for the page shows the console's token; the session cookie does here as well.
pub open spec fn page_authorized(
    token: Seq<char>,
    query: Seq<char>,
    header: Option<Seq<char>>,
    bearer: Option<Seq<char>>,
    cookie: Option<Seq<char>>,
) -> bool {
    authorized(token, query, header, bearer) || (token.len() > 0 && cookie == Some(token))
}

/// Whether a request for the page shows the console's token.
pub fn page_request_is_authorized(
    token: &str,
    query: &str,
    header_token: Option<&str>,
    bearer: Option<&str>,
    cookie: Option<&str>,
) -> (r: bool)
    ensures
        r == page_authorized(
            token@,
            query@,
            opt_view(header_token),
            opt_view(bearer),
            opt_view(cookie),
        ),
{
    request_is_authorized(token, query, header_token, bearer) || (!token.is_empty()
        && opt_secret_eq(cookie, token))
}

/// The session cookie that the page is delivered with; none without a token.
pub open spec fn session_cookie(token: Seq<char>) -> Option<Seq<char>> {
    if token.len() == 0 {
        None
    } else {
        Some(SESSION_COOKIE@ + "="@ + url_encoded(token) + "; Path=/; SameSite=Strict"@)
    }
}

/// The session cookie that the page is delivered with; none without a token.
pub fn page_cookie(token: &str) -> (r: Option<String>)
    ensures
        opt_view(r) == session_cookie(token@),
{
    if token.is_empty() {
        None
    } else {
        let value = urlencode(token);
        Some(cat4(SESSION_COOKIE, "=", value.as_str(), "; Path=/; SameSite=Strict"))
    }
}

/// What the cookies from index `i` on say of the console's token.
pub open spec fn cookie_from(cookies: Seq<Seq<char>>, i: int) -> Option<Seq<char>>
    decreases cookies.len() - i,
{
    if i < 0 || i >= cookies.len() {
        None
    } else {
        match cut(cookies[i], '=') {
            Some((name, value)) => if trimmed(name) == SESSION_COOKIE@ {
                Some(url_decoded(trimmed(value)))
            } else {
                cookie_from(cookies, i + 1)
            },
            None => cookie_from(cookies, i + 1),
        }
    }
}

/// The console's token in a `Cookie` header.
pub fn cookie_token(raw: &str) -> (r: Option<String>)
    ensures
        opt_view(r) == cookie_from(pieces(raw@, ';'), 0),
{
    let cookies = split(raw, ';');
    let ghost list = pieces(raw@, ';');
    let mut i: usize = 0;
    assert(list.len() == cookies@.len());
    while i < cookies.len()
        invariant
            i <= cookies@.len(),
            list == texts(cookies@),
            list == pieces(raw@, ';'),
            list.len() == cookies@.len(),
            cookie_from(list, 0) == cookie_from(list, i as int),
        decreases cookies@.len() - i,
    {
        assert(list[i as int] == cookies@[i as int]@);
        if let Some((name, value)) = split_once(cookies[i].as_str(), '=') {
            if same(trim(name), SESSION_COOKIE) {
                return Some(urldecode(trim(value)));
            }
        }
        i += 1;
    }
    None
}

// ---------------------------------------------------------------------------
// Requests
// ---------------------------------------------------------------------------

/// The method of a request.
#[derive(Clone, Copy, Debug, PartialEq, Eq, Structural)]
pub enum Method {
    Get,
    Post,
    Other,
}

/// One header of a request.
#[derive(Clone, Debug)]
pub struct HeaderLine {
    pub name: String,
    pub value: String,
}

/// A request, its body apart.
#[derive(Clone, Debug)]
pub struct ConsoleRequest {
    pub method: Method,
    /// Path and query.
    pub url: String,
    pub headers: Vec<HeaderLine>,
}

/// The value of the first header of that name from index `i` on; names differ in more than case.
pub open spec fn header_from(headers: Seq<HeaderLine>, name: Seq<char>, i: int) -> Option<Seq<char>>
    decreases headers.len() - i,
{
    if i < 0 || i >= headers.len() {
        None
    } else if alike(headers[i].name@, name) {
        Some(headers[i].value@)
    } else {
        header_from(headers, name, i + 1)
    }
}

/// The value of the first header of that name.
pub fn header_value(headers: &Vec<HeaderLine>, name: &str) -> (r: Option<String>)
    ensures
        opt_view(r) == header_from(headers@, name@, 0),
{
    let mut i: usize = 0;
    while i < headers.len()
        invariant
            i <= headers@.len(),
            header_from(headers@, name@, 0) == header_from(headers@, name@, i as int),
        decreases headers@.len() - i,
    {
        if is_alike(headers[i].name.as_str(), name) {
            return Some(headers[i].value.clone());
        }
        i += 1;
    }
    None
}

/// Whether a request carries the console's own header, which no foreign page can send.
pub open spec fn from_console(headers: Seq<HeaderLine>) -> bool {
    exists|i: int|
        0 <= i < headers.len() && alike((#[trigger] headers[i]).name@, "X-CPE-Console"@)
            && headers[i].value@ == "1"@
}

/// Whether a request carries the console's own header.
pub fn has_console_request_header(headers: &Vec<HeaderLine>) -> (r: bool)
    ensures
        r == from_console(headers@),
{
    let mut i: usize = 0;
    while i < headers.len()
        invariant
            i <= headers@.len(),
            forall|k: int|
                0 <= k < i ==> !(alike((#[trigger] headers@[k]).name@, "X-CPE-Console"@)
                    && headers@[k].value@ == "1"@),
        decreases headers@.len() - i,
    {
        if is_alike(headers[i].name.as_str(), "X-CPE-Console") && same(
            headers[i].value.as_str(),
            "1",
        ) {
            return true;
        }
        i += 1;
    }
    false
}

/// The bearer token of an `Authorization` header.
pub open spec fn bearer_in(value: Option<Seq<char>>) -> Option<Seq<char>> {
    match value {
        Some(text) => if begins(text, "Bearer "@) {
            Some(trimmed(text.skip("Bearer "@.len() as int)))
        } else {
            None
        },
        None => None,
    }
}

/// The bearer token of an `Authorization` header.
pub fn bearer_token(value: &Option<String>) -> (r: Option<String>)
    ensures
        opt_view(r) == bearer_in(opt_view(*value)),
{
    match value {
        Some(text) => match strip_prefix(text.as_str(), "Bearer ") {
            Some(rest) => Some(owned(trim(rest))),
            None => None,
        },
        None => None,
    }
}

/// The path of an address.
pub open spec fn path_of(url: Seq<char>) -> Seq<char> {
    match cut(url, '?') {
        Some((path, _)) => path,
        None => url,
    }
}

/// The query of an address.
pub open spec fn query_of(url: Seq<char>) -> Seq<char> {
    match cut(url, '?') {
        Some((_, query)) => query,
        None => Seq::empty(),
    }
}

// ---------------------------------------------------------------------------
// Routes
// ---------------------------------------------------------------------------

/// What the console can be asked.
#[derive(Clone, Copy, Debug, PartialEq, Eq, Structural)]
pub enum Api {
    Bootstrap,
    Local,
    Connect,
    Plan,
    Config,
    Import,
    Run,
    Stop,
    OpenReport,
    Progress,
    Runs,
    RunsRequest,
    RunsReport,
    MonitorStart,
    MonitorSamples,
    MonitorStop,
}

/// Where a request goes.
#[derive(Clone, Debug)]
pub enum Route {
    /// Refused for want of the token.
    Refused,
    /// The page.
    Page,
    /// The download of a run.
    Bundle(String),
    /// Refused as a request from a foreign page.
    Foreign,
    Api(Api),
    /// Nothing that the console knows.
    Unknown,
}

/// Where a request goes.
pub ghost enum RouteView {
    Refused,
    Page,
    Bundle(Seq<char>),
    Foreign,
    Api(Api),
    Unknown,
}

impl View for Route {
    type V = RouteView;

    open spec fn view(&self) -> RouteView {
        match self {
            Route::Refused => RouteView::Refused,
            Route::Page => RouteView::Page,
            Route::Bundle(id) => RouteView::Bundle(id@),
            Route::Foreign => RouteView::Foreign,
            Route::Api(api) => RouteView::Api(*api),
            Route::Unknown => RouteView::Unknown,
        }
    }
}

/// What a GET of a path asks.
pub open spec fn api_get(path: Seq<char>) -> Option<Api> {
    if path == "/api/bootstrap"@ {
        Some(Api::Bootstrap)
    } else if path == "/api/local"@ {
        Some(Api::Local)
    } else if path == "/api/progress"@ {
        Some(Api::Progress)
    } else if path == "/api/runs"@ {
        Some(Api::Runs)
    } else {
        None
    }
}

/// What a POST to a path asks.
pub open spec fn api_post(path: Seq<char>) -> Option<Api> {
    if path == "/api/connect"@ {
        Some(Api::Connect)
    } else if path == "/api/plan"@ {
        Some(Api::Plan)
    } else if path == "/api/config"@ {
        Some(Api::Config)
    } else if path == "/api/import"@ {
        Some(Api::Import)
    } else if path == "/api/run"@ {
        Some(Api::Run)
    } else if path == "/api/stop"@ {
        Some(Api::Stop)
    } else if path == "/api/open-report"@ {
        Some(Api::OpenReport)
    } else if path == "/api/runs/request"@ {
        Some(Api::RunsRequest)
    } else if path == "/api/runs/report"@ {
        Some(Api::RunsReport)
    } else if path == "/api/monitor/start"@ {
        Some(Api::MonitorStart)
    } else if path == "/api/monitor/samples"@ {
        Some(Api::MonitorSamples)
    } else if path == "/api/monitor/stop"@ {
        Some(Api::MonitorStop)
    } else {
        None
    }
}

/// What a GET of a path asks.
pub fn find_api_get(path: &str) -> (r: Option<Api>)
    ensures
        r == api_get(path@),
{
    if same(path, "/api/bootstrap") {
        Some(Api::Bootstrap)
    } else if same(path, "/api/local") {
        Some(Api::Local)
    } else if same(path, "/api/progress") {
        Some(Api::Progress)
    } else if same(path, "/api/runs") {
        Some(Api::Runs)
    } else {
        None
    }
}

/// What a POST to a path asks.
pub fn find_api_post(path: &str) -> (r: Option<Api>)
    ensures
        r == api_post(path@),
{
    if same(path, "/api/connect") {
        Some(Api::Connect)
    } else if same(path, "/api/plan") {
        Some(Api::Plan)
    } else if same(path, "/api/config") {
        Some(Api::Config)
    } else if same(path, "/api/import") {
        Some(Api::Import)
    } else if same(path, "/api/run") {
        Some(Api::Run)
    } else if same(path, "/api/stop") {
        Some(Api::Stop)
    } else if same(path, "/api/open-report") {
        Some(Api::OpenReport)
    } else if same(path, "/api/runs/request") {
        Some(Api::RunsRequest)
    } else if same(path, "/api/runs/report") {
        Some(Api::RunsReport)
    } else if same(path, "/api/monitor/start") {
        Some(Api::MonitorStart)
    } else if same(path, "/api/monitor/samples") {
        Some(Api::MonitorSamples)
    } else if same(path, "/api/monitor/stop") {
        Some(Api::MonitorStop)
    } else {
        None
    }
}

/// The run whose download a path asks for.
pub open spec fn bundle_id(path: Seq<char>) -> Option<Seq<char>> {
    if begins(path, "/api/runs/"@) {
        let rest = path.skip("/api/runs/"@.len() as int);
        if ends(rest, "/bundle.zip"@) {
            Some(rest.take(rest.len() - "/bundle.zip"@.len()))
        } else {
            None
        }
    } else {
        None
    }
}

/// Whether a path is that of the page.
pub open spec fn is_page(path: Seq<char>) -> bool {
    path == "/"@ || path == "/index.html"@
}

/// The console's token as far as a request shows it outside its query and its cookies.
pub open spec fn header_token(req: ConsoleRequest) -> Option<Seq<char>> {
    header_from(req.headers@, "X-CPE-Token"@, 0)
}

/// The bearer token of a request.
pub open spec fn request_bearer(req: ConsoleRequest) -> Option<Seq<char>> {
    bearer_in(header_from(req.headers@, "Authorization"@, 0))
}

/// The console's token in the cookies of a request.
pub open spec fn request_cookie(req: ConsoleRequest) -> Option<Seq<char>> {
    match header_from(req.headers@, "Cookie"@, 0) {
        Some(raw) => cookie_from(pieces(raw, ';'), 0),
        None => None,
    }
}

/// Whether a request may come in.
pub open spec fn admitted(token: Seq<char>, req: ConsoleRequest) -> bool {
    let query = query_of(req.url@);
    if is_page(path_of(req.url@)) {
        page_authorized(token, query, header_token(req), request_bearer(req), request_cookie(req))
    } else {
        authorized(token, query, header_token(req), request_bearer(req))
    }
}

/// Where a request goes. The token comes before everything else, and a POST must carry the console's
/// own header.
pub open spec fn route_of(token: Seq<char>, req: ConsoleRequest) -> RouteView {
    let path = path_of(req.url@);
    if !admitted(token, req) {
        RouteView::Refused
    } else if is_page(path) {
        RouteView::Page
    } else if req.method == Method::Get && bundle_id(path) is Some {
        RouteView::Bundle(bundle_id(path)->0)
    } else if req.method == Method::Post && !from_console(req.headers@) {
        RouteView::Foreign
    } else {
        let api = match req.method {
            Method::Get => api_get(path),
            Method::Post => api_post(path),
            Method::Other => None,
        };
        match api {
            Some(api) => RouteView::Api(api),
            None => RouteView::Unknown,
        }
    }
}

/// A reference to an optional text.
pub fn opt_str<'a>(v: &'a Option<String>) -> (r: Option<&'a str>)
    ensures
        opt_view(r) == opt_view(*v),
{
    match v {
        Some(s) => Some(s.as_str()),
        None => None,
    }
}

/// Where a request goes.
pub fn route(token: &str, req: &ConsoleRequest) -> (r: Route)
    ensures
        r@ == route_of(token@, *req),
{
    let (path, query) = match split_once(req.url.as_str(), '?') {
        Some((path, query)) => (path, query),
        None => (req.url.as_str(), ""),
    };
    proof {
        reveal_strlit("");
        assert(""@ =~= Seq::<char>::empty());
    }
    let shown = header_value(&req.headers, "X-CPE-Token");
    let bearer = bearer_token(&header_value(&req.headers, "Authorization"));
    let page = same(path, "/") || same(path, "/index.html");
    let admitted = if page {
        let cookie = match header_value(&req.headers, "Cookie") {
            Some(raw) => cookie_token(raw.as_str()),
            None => None,
        };
        page_request_is_authorized(
            token,
            query,
            opt_str(&shown),
            opt_str(&bearer),
            opt_str(&cookie),
        )
    } else {
        request_is_authorized(token, query, opt_str(&shown), opt_str(&bearer))
    };
    if !admitted {
        return Route::Refused;
    }
    if page {
        return Route::Page;
    }
    if req.method == Method::Get {
        if let Some(rest) = strip_prefix(path, "/api/runs/") {
            if let Some(id) = strip_suffix(rest, "/bundle.zip") {
                return Route::Bundle(owned(id));
            }
        }
    }
    if req.method == Method::Post && !has_console_request_header(&req.headers) {
        return Route::Foreign;
    }
    let api = match req.method {
        Method::Get => find_api_get(path),
        Method::Post => find_api_post(path),
        Method::Other => None,
    };
    match api {
        Some(api) => Route::Api(api),
        None => Route::Unknown,
    }
}

/// What is answered where a request goes nowhere, and with which status.
pub open spec fn refusal(route: RouteView) -> Option<(u16, Seq<char>)> {
    match route {
        RouteView::Refused => Some(
            (
                401,
                "未认证：控制台已启用访问口令，请用启动时打印的完整地址（带 ?token=）打开"@,
            ),
        ),
        RouteView::Foreign => Some((200, "拒绝跨站请求：缺少 X-CPE-Console 请求头"@)),
        RouteView::Unknown => Some((200, "未知接口或请求方法"@)),
        _ => None,
    }
}

/// What is answered where a request goes nowhere, and with which status.
pub fn refusal_of(route: &Route) -> (r: Option<(u16, String)>)
    ensures
        match r {
            Some(answer) => refusal(route@) == Some((answer.0, answer.1@)),
            None => refusal(route@) is None,
        },
{
    match route {
        Route::Refused => Some(
            (
                401,
                owned("未认证：控制台已启用访问口令，请用启动时打印的完整地址（带 ?token=）打开"),
            ),
        ),
        Route::Foreign => Some((200, owned("拒绝跨站请求：缺少 X-CPE-Console 请求头"))),
        Route::Unknown => Some((200, owned("未知接口或请求方法"))),
        _ => None,
    }
}

// ---------------------------------------------------------------------------
// Laws
// ---------------------------------------------------------------------------

/// With a token set, the session cookie opens nothing but the page.
pub proof fn lemma_cookie_opens_only_the_page(token: Seq<char>, req: ConsoleRequest)
    requires
        token.len() > 0,
        header_token(req) != Some(token),
        request_bearer(req) != Some(token),
        !query_gives(pieces(query_of(req.url@), '&'), token),
    ensures
        is_page(path_of(req.url@)) && request_cookie(req) == Some(token) ==> route_of(token, req)
            == RouteView::Page,
        !(is_page(path_of(req.url@)) && request_cookie(req) == Some(token)) ==> route_of(token, req)
            == RouteView::Refused,
{
}

/// A POST without the console's own header asks nothing of the console.
pub proof fn lemma_foreign_posts_do_nothing(token: Seq<char>, req: ConsoleRequest)
    requires
        req.method == Method::Post,
        !from_console(req.headers@),
    ensures
        !(route_of(token, req) is Api),
        !(route_of(token, req) is Bundle),
{
}

/// The token as the printed address shows it lets the request in, whatever characters it holds.
pub proof fn lemma_printed_token_opens(
    token: Seq<char>,
    header: Option<Seq<char>>,
    bearer: Option<Seq<char>>,
)
    ensures
        authorized(token, "token="@ + url_encoded(token), header, bearer),
{
    let query = "token="@ + url_encoded(token);
    reveal_strlit("token=");
    lemma_find_char(query, '&', 0);
    let k = find_char(query, '&', 0);
    if k < query.len() {
        if k < 6 {
            assert(query[k] == "token="@[k]);
        } else {
            lemma_url_encoded_is_plain(token, k - 6);
            assert(query[k] == url_encoded(token)[k - 6]);
        }
    }
    let parts = pieces(query, '&');
    assert(parts =~= seq![query]);
    assert(query.subrange(0, 6) =~= "token="@);
    assert(occurs_at(query, "token="@, 0));
    assert(query.skip(6) =~= url_encoded(token));
    lemma_url_round_trip(token);
    assert(gives_token(parts[0], token));
}

} // verus!
