//! What the console makes of a request, and of the addresses that it is told.
use vstd::prelude::*;
use vstd::string::*;
use crate::address::{is_ipv4, octet};
use crate::http::{
    admitted, api_get, api_post, authorized, bearer_in, bundle_id, cookie_from, display_host,
    from_console, gives_token, header_from, is_page, listen_text, loopback, name_char, name_index,
    page_authorized, path_of, query_of, refusal, route_of, safe_name, session_cookie, wildcard, Api,
    ConsoleRequest, HeaderLine, Method, RouteView, SESSION_COOKIE,
};
use crate::meaning::text::{
    lemma_cut_at_the_first_char, lemma_joined_pieces_come_back, lemma_no_cut_without_the_char,
    lemma_numbers_are_written_in_digits, lemma_trimming_takes_space_off_the_ends,
};
use crate::text::{
    alike, all_digits, begins, cut, decimal, digit, digits_value, ends, has, joined, lowered,
    occurs_at, pieces, space, trimmed,
};
use crate::url::{lemma_url_encoded_is_plain, lemma_url_round_trip, url_decoded, url_encoded};

verus! {

// ---------------------------------------------------------------------------
// Addresses
// ---------------------------------------------------------------------------

/// An IPv4 address written out.
pub open spec fn dotted(a: nat, b: nat, c: nat, d: nat) -> Seq<char> {
    joined(seq![decimal(a), decimal(b), decimal(c), decimal(d)], seq!['.'])
}

proof fn lemma_short_digits(s: Seq<char>)
    requires
        all_digits(s),
        s.len() > 1 ==> s[0] != '0',
    ensures
        decimal(digits_value(s)) == s,
        s[0] != '0' ==> digits_value(s) > 0,
    decreases s.len(),
{
    let head = s.drop_last();
    let d = (s.last() as nat - 48) as nat;
    assert(digit(s.last()));
    assert(digit(s[0]));
    if s.len() == 1 {
        assert(digits_value(head) == 0);
        assert(decimal(d) =~= s);
    } else {
        assert forall|i: int| 0 <= i < head.len() implies digit(#[trigger] head[i]) by {
            assert(head[i] == s[i]);
        }
        assert(head[0] == s[0]);
        lemma_short_digits(head);
        let v = digits_value(head);
        assert(digits_value(s) == v * 10 + d);
        assert((v * 10 + d) / 10 == v);
        assert((v * 10 + d) % 10 == d);
        assert(decimal(v * 10 + d) == decimal(v).push(crate::text::digit_char(d)));
        assert(decimal(v * 10 + d) =~= s);
    }
}

proof fn lemma_small_decimal(n: nat)
    requires
        n <= 255,
    ensures
        octet(decimal(n)),
        !(decimal(n).contains('.')),
{
    lemma_numbers_are_written_in_digits(n);
    reveal_with_fuel(decimal, 4);
    let s = decimal(n);
    if s.contains('.') {
        let i = choose|i: int| 0 <= i < s.len() && s[i] == '.';
        assert(digit(s[i]));
    }
}

/// Four numbers up to 255 between dots make an IPv4 address.
pub proof fn lemma_dotted_numbers_are_addresses(a: nat, b: nat, c: nat, d: nat)
    requires
        a <= 255,
        b <= 255,
        c <= 255,
        d <= 255,
    ensures
        is_ipv4(dotted(a, b, c, d)),
        pieces(dotted(a, b, c, d), '.') == seq![decimal(a), decimal(b), decimal(c), decimal(d)],
{
    lemma_small_decimal(a);
    lemma_small_decimal(b);
    lemma_small_decimal(c);
    lemma_small_decimal(d);
    let v = seq![decimal(a), decimal(b), decimal(c), decimal(d)];
    lemma_joined_pieces_come_back(v, '.');
}

/// An IPv4 address is four numbers up to 255 between dots, written without zeros in front.
pub proof fn lemma_addresses_are_dotted_numbers(s: Seq<char>) -> (n: (nat, nat, nat, nat))
    requires
        is_ipv4(s),
    ensures
        n.0 <= 255,
        n.1 <= 255,
        n.2 <= 255,
        n.3 <= 255,
        s == dotted(n.0, n.1, n.2, n.3),
{
    let parts = pieces(s, '.');
    crate::meaning::text::lemma_pieces_make_up_the_text(s, '.');
    lemma_short_digits(parts[0]);
    lemma_short_digits(parts[1]);
    lemma_short_digits(parts[2]);
    lemma_short_digits(parts[3]);
    let n = (
        digits_value(parts[0]),
        digits_value(parts[1]),
        digits_value(parts[2]),
        digits_value(parts[3]),
    );
    assert(parts =~= seq![decimal(n.0), decimal(n.1), decimal(n.2), decimal(n.3)]);
    n
}

proof fn lemma_nothing_to_trim(s: Seq<char>)
    requires
        s.len() > 0,
        !space(s[0]),
        !space(s.last()),
    ensures
        trimmed(s) == s,
{
    let none = Seq::<char>::empty();
    lemma_trimming_takes_space_off_the_ends(none, s, none);
    assert(none + s + none =~= s);
}

proof fn lemma_dotted_is_trim(a: nat, b: nat, c: nat, d: nat)
    ensures
        trimmed(dotted(a, b, c, d)) == dotted(a, b, c, d),
        dotted(a, b, c, d).len() > 0,
        dotted(a, b, c, d)[0] == decimal(a)[0],
        digit(dotted(a, b, c, d)[0]),
{
    let v = seq![decimal(a), decimal(b), decimal(c), decimal(d)];
    let s = dotted(a, b, c, d);
    reveal_with_fuel(crate::text::joined_to, 5);
    lemma_numbers_are_written_in_digits(a);
    lemma_numbers_are_written_in_digits(d);
    assert(s == ((((decimal(a) + seq!['.']) + decimal(b)) + seq!['.'] + decimal(c)) + seq!['.']
        + decimal(d)));
    assert(s[0] == decimal(a)[0]);
    assert(s.last() == decimal(d).last());
    assert(digit(decimal(a)[0]));
    assert(digit(decimal(d)[decimal(d).len() - 1]));
    lemma_nothing_to_trim(s);
}

/// An IPv4 address is a loopback address when its first number is 127.
pub proof fn lemma_loopback_begins_with_127(a: nat, b: nat, c: nat, d: nat)
    requires
        a <= 255,
        b <= 255,
        c <= 255,
        d <= 255,
    ensures
        loopback(dotted(a, b, c, d)) <==> a == 127,
{
    lemma_dotted_numbers_are_addresses(a, b, c, d);
    lemma_dotted_is_trim(a, b, c, d);
    lemma_numbers_are_written_in_digits(a);
    let s = dotted(a, b, c, d);
    reveal_strlit("localhost");
    reveal_strlit("::1");
    reveal_strlit("[::1]");
    reveal_strlit("127");
    assert(!(alike(s, "localhost"@))) by {
        if alike(s, "localhost"@) {
            assert(lowered(s).len() == s.len());
            assert(lowered(s)[0] == lowered("localhost"@)[0]);
        }
    }
    assert(s != "::1"@ && s != "[::1]"@) by {
        assert("::1"@[0] == ':' && "[::1]"@[0] == '[');
    }
    assert(decimal(127) =~= "127"@) by {
        reveal_with_fuel(decimal, 4);
    }
    assert(pieces(s, '.')[0] == decimal(a));
    if decimal(a) == "127"@ {
        lemma_numbers_are_written_in_digits(127);
    }
}

/// The name of the host itself and its IPv6 address are loopback addresses; white space around them
/// does not count.
pub proof fn lemma_own_names_are_loopback(bind: Seq<char>)
    ensures
        alike(trimmed(bind), "localhost"@) ==> loopback(bind),
        trimmed(bind) == "::1"@ ==> loopback(bind),
        trimmed(bind) == "[::1]"@ ==> loopback(bind),
        loopback(bind) && !(is_ipv4(trimmed(bind))) ==> alike(trimmed(bind), "localhost"@)
            || trimmed(bind) == "::1"@ || trimmed(bind) == "[::1]"@,
{
}

/// The console listens on the host and the port that it is told, an IPv6 host in brackets.
pub proof fn lemma_listens_where_told(bind: Seq<char>, port: u16)
    ensures
        ({
            let host = trimmed(bind);
            &&& !(has(host, ":"@)) ==> listen_text(bind, port) == host + ":"@ + decimal(
                port as nat,
            )
            &&& has(host, ":"@) && !(begins(host, "["@)) ==> listen_text(bind, port) == "["@ + host
                + "]:"@ + decimal(port as nat)
            &&& begins(host, "["@) ==> listen_text(bind, port) == host + ":"@ + decimal(
                port as nat,
            )
        }),
{
}

/// A host that stands for all addresses is shown as a loopback address, any other as it is.
pub proof fn lemma_wildcards_are_shown_as_loopback(bind: Seq<char>)
    ensures
        wildcard(bind) <==> trimmed(bind) == "0.0.0.0"@ || trimmed(bind) == "::"@ || trimmed(bind)
            == "[::]"@,
        trimmed(bind) == "0.0.0.0"@ ==> display_host(bind) == "127.0.0.1"@,
        trimmed(bind) == "::"@ || trimmed(bind) == "[::]"@ ==> display_host(bind) == "[::1]"@,
        wildcard(bind) ==> loopback(display_host(bind)),
        !wildcard(bind) ==> display_host(bind) == trimmed(bind),
{
    reveal_strlit("0.0.0.0");
    reveal_strlit("::");
    reveal_strlit("[::]");
    reveal_strlit("127.0.0.1");
    reveal_strlit("[::1]");
    assert("0.0.0.0"@.len() == 7 && "::"@.len() == 2 && "[::]"@.len() == 4);
    lemma_nothing_to_trim("[::1]"@);
    let home = dotted(127, 0, 0, 1);
    assert(home =~= "127.0.0.1"@) by {
        reveal_with_fuel(decimal, 4);
        reveal_with_fuel(crate::text::joined_to, 5);
        assert(decimal(127) =~= seq!['1', '2', '7']);
        assert(decimal(0) =~= seq!['0']);
        assert(decimal(1) =~= seq!['1']);
    }
    lemma_loopback_begins_with_127(127, 0, 0, 1);
}

// ---------------------------------------------------------------------------
// Names
// ---------------------------------------------------------------------------

/// A name for a file has as many characters as the id, keeps those that a file may have and has an
/// underscore for each other; no id is left without a name.
pub proof fn lemma_names_are_fit_for_files(id: Seq<char>, i: int)
    ensures
        safe_name(id).len() > 0,
        0 <= i < safe_name(id).len() ==> name_char(safe_name(id)[i]),
        id.len() > 0 ==> safe_name(id).len() == id.len(),
        0 <= i < id.len() && name_char(id[i]) ==> safe_name(id)[i] == id[i],
        0 <= i < id.len() && !name_char(id[i]) ==> safe_name(id)[i] == '_',
        id.len() == 0 ==> safe_name(id) == "run"@,
{
    reveal_strlit("run");
}

/// The characters of a file's name are letters, digits, dashes, underscores and dots.
pub proof fn lemma_no_separators_in_names(c: char)
    ensures
        name_char(c) <==> ('A' <= c <= 'Z') || ('a' <= c <= 'z') || ('0' <= c <= '9') || c == '-'
            || c == '_' || c == '.',
        !name_char('/'),
        !name_char('\\'),
        !name_char(' '),
{
}

/// The first entry of a name is found; where there is none, none is.
pub proof fn lemma_first_of_the_name_is_found(names: Seq<Seq<char>>, id: Seq<char>, i: int)
    requires
        0 <= i <= names.len(),
    ensures
        i <= name_index(names, id, i) <= names.len(),
        name_index(names, id, i) < names.len() ==> names[name_index(names, id, i)] == id,
        forall|j: int| i <= j < name_index(names, id, i) ==> #[trigger] names[j] != id,
    decreases names.len() - i,
{
    if i < names.len() && names[i] != id {
        lemma_first_of_the_name_is_found(names, id, i + 1);
    }
}

// ---------------------------------------------------------------------------
// Who may ask
// ---------------------------------------------------------------------------

/// Without a token set everyone may ask. With one, only who gives it: in a header, as a bearer, or
/// in the query.
pub proof fn lemma_token_is_asked_for(
    token: Seq<char>,
    query: Seq<char>,
    header: Option<Seq<char>>,
    bearer: Option<Seq<char>>,
)
    ensures
        token.len() == 0 ==> authorized(token, query, header, bearer),
        header == Some(token) ==> authorized(token, query, header, bearer),
        bearer == Some(token) ==> authorized(token, query, header, bearer),
        token.len() > 0 && header != Some(token) && bearer != Some(token) && authorized(
            token,
            query,
            header,
            bearer,
        ) ==> exists|i: int|
            0 <= i < pieces(query, '&').len() && begins(
                #[trigger] pieces(query, '&')[i],
                "token="@,
            ) && url_decoded(pieces(query, '&')[i].skip(6)) == token,
{
    reveal_strlit("token=");
    assert("token="@.len() == 6);
    let parts = pieces(query, '&');
    if token.len() > 0 && header != Some(token) && bearer != Some(token) && authorized(
        token,
        query,
        header,
        bearer,
    ) {
        let i = choose|i: int| 0 <= i < parts.len() && gives_token(#[trigger] parts[i], token);
        assert(begins(parts[i], "token="@));
    }
}

/// The token opens wherever it stands among the parts of a query.
pub proof fn lemma_token_opens_anywhere_in_the_query(
    token: Seq<char>,
    parts: Seq<Seq<char>>,
    i: int,
    header: Option<Seq<char>>,
    bearer: Option<Seq<char>>,
)
    requires
        0 <= i < parts.len(),
        parts[i] == "token="@ + url_encoded(token),
        forall|j: int| 0 <= j < parts.len() ==> !(#[trigger] parts[j]).contains('&'),
    ensures
        authorized(token, joined(parts, seq!['&']), header, bearer),
{
    lemma_joined_pieces_come_back(parts, '&');
    reveal_strlit("token=");
    assert(parts[i].subrange(0, 6) =~= "token="@);
    assert(occurs_at(parts[i], "token="@, 0));
    assert(parts[i].skip(6) =~= url_encoded(token));
    lemma_url_round_trip(token);
    assert(gives_token(parts[i], token));
}

/// The page may be opened by the session's cookie too, where a token is set.
pub proof fn lemma_page_takes_the_cookie(
    token: Seq<char>,
    query: Seq<char>,
    header: Option<Seq<char>>,
    bearer: Option<Seq<char>>,
    cookie: Option<Seq<char>>,
)
    ensures
        cookie == Some(token) ==> page_authorized(token, query, header, bearer, cookie),
        authorized(token, query, header, bearer) ==> page_authorized(
            token,
            query,
            header,
            bearer,
            cookie,
        ),
        cookie != Some(token) ==> (page_authorized(token, query, header, bearer, cookie)
            <==> authorized(token, query, header, bearer)),
{
}

/// The cookie that the console sets is read back as the token, and stays with the site. Without a
/// token none is set.
pub proof fn lemma_cookie_holds_the_token(token: Seq<char>)
    ensures
        session_cookie(token) is Some <==> token.len() > 0,
        session_cookie(token) matches Some(text) ==> cookie_from(pieces(text, ';'), 0) == Some(token)
            && ends(text, "; Path=/; SameSite=Strict"@),
{
    if token.len() > 0 {
        reveal_strlit("; Path=/; SameSite=Strict");
        reveal_strlit("cpe_ui_session");
        reveal_strlit("=");
        let (name, code, tail) = (SESSION_COOKIE@, url_encoded(token), "; Path=/; SameSite=Strict"@);
        let text = name + "="@ + code + tail;
        assert(session_cookie(token) == Some(text));
        assert(text.subrange(text.len() - tail.len(), text.len() as int) =~= tail);
        let head = name + "="@ + code;
        assert forall|i: int| 0 <= i < code.len() implies code[i] != ';' && code[i] != '=' && !space(
            #[trigger] code[i],
        ) by {
            lemma_url_encoded_is_plain(token, i);
        }
        assert(!(head.contains(';'))) by {
            if head.contains(';') {
                let i = choose|i: int| 0 <= i < head.len() && head[i] == ';';
                if i < name.len() {
                    assert(head[i] == name[i]);
                } else if i > name.len() {
                    assert(head[i] == code[i - name.len() - 1]);
                }
            }
        }
        assert(tail[0] == ';');
        assert(text =~= head.push(';') + tail.skip(1));
        lemma_cut_at_the_first_char(head, ';', tail.skip(1));
        assert(pieces(text, ';')[0] == head);
        assert(!(name.contains('='))) by {
            if name.contains('=') {
                let i = choose|i: int| 0 <= i < name.len() && name[i] == '=';
            }
        }
        assert(head =~= name.push('=') + code);
        lemma_cut_at_the_first_char(name, '=', code);
        lemma_nothing_to_trim(name);
        lemma_url_round_trip(token);
        if code.len() == 0 {
            assert(trimmed(code) =~= code) by {
                let none = Seq::<char>::empty();
                lemma_trimming_takes_space_off_the_ends(none, code, none);
                assert(none + code + none =~= code);
            }
        } else {
            lemma_nothing_to_trim(code);
        }
        assert(cookie_from(pieces(text, ';'), 0) == Some(token));
    }
}

/// A cookie of another name is passed over.
pub proof fn lemma_other_cookies_are_passed_over(cookies: Seq<Seq<char>>, i: int)
    requires
        0 <= i < cookies.len(),
    ensures
        !(cookies[i].contains('=')) ==> cookie_from(cookies, i) == cookie_from(cookies, i + 1),
        cut(cookies[i], '=') matches Some((name, value)) ==> {
            &&& trimmed(name) != "cpe_ui_session"@ ==> cookie_from(cookies, i) == cookie_from(
                cookies,
                i + 1,
            )
            &&& trimmed(name) == "cpe_ui_session"@ ==> cookie_from(cookies, i) == Some(
                url_decoded(trimmed(value)),
            )
        },
{
    lemma_no_cut_without_the_char(cookies[i], '=');
}

/// The first header of a name counts, whatever the case of its letters.
pub proof fn lemma_first_header_counts(headers: Seq<HeaderLine>, name: Seq<char>, i: int, at: int)
    requires
        0 <= i <= at <= headers.len(),
        forall|j: int| i <= j < at ==> !(alike((#[trigger] headers[j]).name@, name)),
        at < headers.len() ==> alike(headers[at].name@, name),
    ensures
        at < headers.len() ==> header_from(headers, name, i) == Some(headers[at].value@),
        at == headers.len() ==> header_from(headers, name, i) is None,
    decreases at - i,
{
    if i < at {
        assert(!(alike(headers[i].name@, name)));
        lemma_first_header_counts(headers, name, i + 1, at);
    }
}

/// A bearer is what follows the word, without the white space around it.
pub proof fn lemma_bearer_follows_its_word(token: Seq<char>, value: Seq<char>)
    ensures
        bearer_in(Some("Bearer "@ + token)) == Some(trimmed(token)),
        !(begins(value, "Bearer "@)) ==> bearer_in(Some(value)) is None,
        bearer_in(None) is None,
{
    reveal_strlit("Bearer ");
    let word = "Bearer "@;
    let text = word + token;
    assert(text.subrange(0, word.len() as int) =~= word);
    assert(occurs_at(text, word, 0));
    assert(text.skip(word.len() as int) =~= token);
}

/// An address is a path and, after the first question mark, a query.
pub proof fn lemma_query_follows_the_path(path: Seq<char>, query: Seq<char>)
    requires
        !(path.contains('?')),
    ensures
        path_of(path.push('?') + query) == path,
        query_of(path.push('?') + query) == query,
        path_of(path) == path,
        query_of(path).len() == 0,
{
    lemma_cut_at_the_first_char(path, '?', query);
    lemma_no_cut_without_the_char(path, '?');
}

// ---------------------------------------------------------------------------
// What is asked for
// ---------------------------------------------------------------------------

/// Each call that only reads has its own path.
pub proof fn lemma_reading_calls_have_paths(path: Seq<char>)
    ensures
        path == "/api/bootstrap"@ ==> api_get(path) == Some(Api::Bootstrap),
        path == "/api/local"@ ==> api_get(path) == Some(Api::Local),
        path == "/api/progress"@ ==> api_get(path) == Some(Api::Progress),
        path == "/api/runs"@ ==> api_get(path) == Some(Api::Runs),
        path != "/api/bootstrap"@ && path != "/api/local"@ && path != "/api/progress"@ && path
            != "/api/runs"@ ==> api_get(path) is None,
{
    reveal_strlit("/api/bootstrap");
    reveal_strlit("/api/local");
    reveal_strlit("/api/progress");
    reveal_strlit("/api/runs");
    assert("/api/bootstrap"@.len() == 14 && "/api/local"@.len() == 10 && "/api/progress"@.len()
        == 13 && "/api/runs"@.len() == 9);
}

/// Each call that changes something, or needs a body, has its own path.
#[verifier::rlimit(40)]
pub proof fn lemma_posted_calls_have_paths(path: Seq<char>)
    ensures
        path == "/api/connect"@ ==> api_post(path) == Some(Api::Connect),
        path == "/api/plan"@ ==> api_post(path) == Some(Api::Plan),
        path == "/api/config"@ ==> api_post(path) == Some(Api::Config),
        path == "/api/import"@ ==> api_post(path) == Some(Api::Import),
        path == "/api/run"@ ==> api_post(path) == Some(Api::Run),
        path == "/api/stop"@ ==> api_post(path) == Some(Api::Stop),
        path == "/api/open-report"@ ==> api_post(path) == Some(Api::OpenReport),
        path == "/api/runs/request"@ ==> api_post(path) == Some(Api::RunsRequest),
        path == "/api/runs/report"@ ==> api_post(path) == Some(Api::RunsReport),
        path == "/api/monitor/start"@ ==> api_post(path) == Some(Api::MonitorStart),
        path == "/api/monitor/samples"@ ==> api_post(path) == Some(Api::MonitorSamples),
        path == "/api/monitor/stop"@ ==> api_post(path) == Some(Api::MonitorStop),
        path == "/api/runs"@ ==> api_post(path) is None,
        !(begins(path, "/api/"@)) ==> api_post(path) is None,
{
    reveal_strlit("/api/");
    reveal_strlit("/api/runs");
    reveal_strlit("/api/connect");
    reveal_strlit("/api/plan");
    reveal_strlit("/api/config");
    reveal_strlit("/api/import");
    reveal_strlit("/api/run");
    reveal_strlit("/api/stop");
    reveal_strlit("/api/open-report");
    reveal_strlit("/api/runs/request");
    reveal_strlit("/api/runs/report");
    reveal_strlit("/api/monitor/start");
    reveal_strlit("/api/monitor/samples");
    reveal_strlit("/api/monitor/stop");
    assert("/api/connect"@.len() == 12 && "/api/connect"@[5] == 'c');
    assert("/api/plan"@.len() == 9 && "/api/plan"@[5] == 'p');
    assert("/api/config"@.len() == 11 && "/api/config"@[5] == 'c');
    assert("/api/import"@.len() == 11 && "/api/import"@[5] == 'i');
    assert("/api/run"@.len() == 8);
    assert("/api/runs"@.len() == 9 && "/api/runs"@[5] == 'r');
    assert("/api/stop"@.len() == 9 && "/api/stop"@[5] == 's');
    assert("/api/open-report"@.len() == 16 && "/api/open-report"@[5] == 'o');
    assert("/api/runs/request"@.len() == 17 && "/api/runs/request"@[5] == 'r');
    assert("/api/runs/report"@.len() == 16 && "/api/runs/report"@[5] == 'r');
    assert("/api/monitor/start"@.len() == 18);
    assert("/api/monitor/samples"@.len() == 20);
    assert("/api/monitor/stop"@.len() == 17 && "/api/monitor/stop"@[5] == 'm');
    if api_post(path) is Some {
        assert(path.subrange(0, 5) =~= "/api/"@);
        assert(occurs_at(path, "/api/"@, 0));
    }
}

/// A run's bundle is asked for by the run's id, between the words around it.
pub proof fn lemma_bundles_are_asked_for_by_id(id: Seq<char>, path: Seq<char>)
    ensures
        bundle_id("/api/runs/"@ + id + "/bundle.zip"@) == Some(id),
        bundle_id(path) matches Some(x) ==> path == "/api/runs/"@ + x + "/bundle.zip"@,
{
    reveal_strlit("/api/runs/");
    reveal_strlit("/bundle.zip");
    let (head, tail) = ("/api/runs/"@, "/bundle.zip"@);
    let full = head + id + tail;
    assert(full.subrange(0, head.len() as int) =~= head);
    assert(occurs_at(full, head, 0));
    let rest = full.skip(head.len() as int);
    assert(rest =~= id + tail);
    assert(rest.subrange(rest.len() - tail.len(), rest.len() as int) =~= tail);
    assert(rest.take(rest.len() - tail.len()) =~= id);
    if bundle_id(path) is Some {
        let more = path.skip(head.len() as int);
        let x = more.take(more.len() - tail.len());
        assert(path =~= path.subrange(0, head.len() as int) + more);
        assert(more =~= x + more.subrange(more.len() - tail.len(), more.len() as int));
        assert(path =~= head + x + tail);
    }
}

/// A request that is let in gets the page, a bundle or the call that its method and path name. A
/// call by POST needs the console's own header.
pub proof fn lemma_requests_are_routed(
    token: Seq<char>,
    req: ConsoleRequest,
    id: Seq<char>,
    api: Api,
)
    ensures
        ({
            let path = path_of(req.url@);
            let route = route_of(token, req);
            let asks = !(is_page(path)) && admitted(token, req);
            &&& route == RouteView::Refused <==> !admitted(token, req)
            &&& route == RouteView::Page <==> admitted(token, req) && (path == "/"@ || path
                == "/index.html"@)
            &&& route == RouteView::Bundle(id) <==> asks && req.method == Method::Get && bundle_id(
                path,
            ) == Some(id)
            &&& route == RouteView::Foreign <==> asks && req.method == Method::Post
                && !(from_console(req.headers@))
            &&& route == RouteView::Api(api) <==> asks && ((req.method == Method::Get && bundle_id(
                path,
            ) is None && api_get(path) == Some(api)) || (req.method == Method::Post && from_console(
                req.headers@,
            ) && api_post(path) == Some(api)))
        }),
{
}

/// The console's own header has its name and the value `1`.
pub proof fn lemma_console_marks_its_requests(headers: Seq<HeaderLine>)
    ensures
        from_console(headers) ==> exists|i: int|
            0 <= i < headers.len() && alike((#[trigger] headers[i]).name@, "x-cpe-console"@)
                && headers[i].value@ == "1"@,
        (exists|i: int|
            0 <= i < headers.len() && alike((#[trigger] headers[i]).name@, "x-cpe-console"@)
                && headers[i].value@ == "1"@) ==> from_console(headers),
{
    reveal_strlit("x-cpe-console");
    reveal_strlit("X-CPE-Console");
    assert(lowered("X-CPE-Console"@) =~= lowered("x-cpe-console"@));
    if exists|i: int|
        0 <= i < headers.len() && alike((#[trigger] headers[i]).name@, "x-cpe-console"@)
            && headers[i].value@ == "1"@ {
        let i = choose|i: int|
            0 <= i < headers.len() && alike((#[trigger] headers[i]).name@, "x-cpe-console"@)
                && headers[i].value@ == "1"@;
        assert(alike(headers[i].name@, "X-CPE-Console"@));
    }
    if from_console(headers) {
        let i = choose|i: int|
            0 <= i < headers.len() && alike((#[trigger] headers[i]).name@, "X-CPE-Console"@)
                && headers[i].value@ == "1"@;
        assert(alike(headers[i].name@, "x-cpe-console"@));
    }
}

/// Only a request that is not let in is answered as unauthorized; what is served is not refused.
pub proof fn lemma_refusals_have_a_status(route: RouteView)
    ensures
        refusal(route) is None <==> route is Page || route is Bundle || route is Api,
        refusal(route) matches Some((status, _)) ==> (status == 401 <==> route is Refused) && (status
            == 401 || status == 200),
{
}

} // verus!
