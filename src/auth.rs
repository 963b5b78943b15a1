//! The local authorization handshake: the token arrives in a URL fragment,
//! which a browser never sends, so a first page bounces it back as a query.
use vstd::prelude::*;
use vstd::string::StrSliceExecFns;
use vstd::utf8::encode_utf8;

use crate::text::{decimal, decimal_string};

verus! {

/// The application's client id at the authorization server.
pub const CLIENT_ID: &'static str = "bda57df0ca3244ea96cc8f16dfe04ab7";

/// The permissions asked for, separated by spaces.
pub const SCOPES: &'static str = "playlist-read-private playlist-read-collaborative playlist-modify-private playlist-modify-public user-library-read user-library-modify";

/// Where the authorization server is reached.
pub const AUTHORIZE_ENDPOINT: &'static str = "https://accounts.spotify.com/authorize";

/// The local origin the browser is sent back to, without its port.
pub const LOCALHOST: &'static str = "http://localhost";

/// The local port listened on.
pub const PORT: u32 = 8000;

/// The path the authorization server redirects to.
pub const CALLBACK: &'static str = "/callback";

/// The path the callback page forwards the token to.
pub const REDIRECT: &'static str = "/redirect";

/// The query key that carries the token.
pub const TOKEN_KEY: &'static str = "access_token";

/// Where the handshake stands.
#[derive(Clone, Copy, Debug, PartialEq, Eq, Structural)]
pub enum AuthStage {
    /// The browser will now visit the callback path, whose page forwards it
    /// to the redirect path.
    ShouldCallback,
    /// The browser will now visit the redirect path, with the token in the query.
    ShouldRedirect,
}

/// The page served for a request.
#[derive(Clone, Copy, Debug, PartialEq, Eq, Structural)]
pub enum Response {
    /// Forwards the fragment of the callback URL to the redirect path as a query.
    Callback,
    /// Tells the user that the token arrived.
    Redirect,
    BadRequest,
}

/// A line break on the wire.
pub open spec fn crlf() -> Seq<char> {
    "\r\n"@
}

/// The style sheet of every page.
pub open spec fn style_sheet() -> Seq<char> {
    "body {"@ + crlf() + "margin: 2.5em;"@ + crlf() + "font-family: sans-serif;"@ + crlf()
        + "text-align: center;"@ + crlf() + "}"@
}

/// The HTML document around a page body.
pub open spec fn html_document(body: Seq<char>) -> Seq<char> {
    "<!DOCTYPE html>"@ + crlf() + "<html>"@ + crlf() + "<head>"@ + crlf()
        + "<title>spotify-tools</title>"@ + crlf() + "<style>"@ + style_sheet() + "</style>"@
        + crlf() + "</head>"@ + crlf() + "<body>"@ + body + "</body>"@ + crlf() + "</html>"@
}

/// A full HTTP response carrying the document around `body`.
pub open spec fn http_response(body: Seq<char>, status: Seq<char>) -> Seq<char> {
    let document = html_document(body);
    "HTTP/1.1 "@ + status + crlf() + "Server: spotify-tools"@ + crlf()
        + "Content-Type: text/html; charset=utf-8"@ + crlf() + "Content-Length: "@ + decimal(
        encode_utf8(document).len(),
    ) + crlf() + crlf() + document
}

/// The script that sends the browser on to the redirect path, with the URL
/// fragment as the query.
pub open spec fn forward_script() -> Seq<char> {
    "<script>window.location = window.location.origin + '"@ + REDIRECT@
        + "?' + window.location.hash.substring(1);</script>"@
}

impl Response {
    /// The page body of this response.
    pub open spec fn body(self) -> Seq<char> {
        match self {
            Response::Callback => forward_script(),
            Response::Redirect => "Authorization complete. Please return to your terminal. This tab can be closed."@,
            Response::BadRequest => "Bad Request"@,
        }
    }

    /// The status line's code and reason.
    pub open spec fn status(self) -> Seq<char> {
        match self {
            Response::Callback => "200 OK"@,
            Response::Redirect => "200 OK"@,
            Response::BadRequest => "400 Bad Request"@,
        }
    }

    /// The bytes of an HTTP response whose page shows `body`.
    pub fn html_response(body: &str, status: &str) -> (r: Vec<u8>)
        ensures
            r@ == encode_utf8(http_response(body@, status@)),
    {
        let mut style = String::from_str("body {");
        style.append("\r\n");
        style.append("margin: 2.5em;");
        style.append("\r\n");
        style.append("font-family: sans-serif;");
        style.append("\r\n");
        style.append("text-align: center;");
        style.append("\r\n");
        style.append("}");

        let mut content = String::from_str("<!DOCTYPE html>");
        content.append("\r\n");
        content.append("<html>");
        content.append("\r\n");
        content.append("<head>");
        content.append("\r\n");
        content.append("<title>spotify-tools</title>");
        content.append("\r\n");
        content.append("<style>");
        content.append(style.as_str());
        content.append("</style>");
        content.append("\r\n");
        content.append("</head>");
        content.append("\r\n");
        content.append("<body>");
        content.append(body);
        content.append("</body>");
        content.append("\r\n");
        content.append("</html>");
        assert(content@ == html_document(body@));

        let length = content.as_str().as_bytes().len();
        let mut response = String::from_str("HTTP/1.1 ");
        response.append(status);
        response.append("\r\n");
        response.append("Server: spotify-tools");
        response.append("\r\n");
        response.append("Content-Type: text/html; charset=utf-8");
        response.append("\r\n");
        response.append("Content-Length: ");
        response.append(decimal_string(length as u64).as_str());
        response.append("\r\n");
        response.append("\r\n");
        response.append(content.as_str());
        response.as_str().as_bytes_vec()
    }

    /// The bytes sent for this response.
    pub fn content(&self) -> (r: Vec<u8>)
        ensures
            r@ == encode_utf8(http_response(self.body(), self.status())),
    {
        match self {
            Response::Callback => {
                let mut script = String::from_str(
                    "<script>window.location = window.location.origin + '",
                );
                script.append(REDIRECT);
                script.append("?' + window.location.hash.substring(1);</script>");
                Response::html_response(script.as_str(), "200 OK")
            },
            Response::Redirect => Response::html_response(
                "Authorization complete. Please return to your terminal. This tab can be closed.",
                "200 OK",
            ),
            Response::BadRequest => Response::html_response("Bad Request", "400 Bad Request"),
        }
    }
}

/// The link that asks the user to authorize this application; the server
/// sends the browser back to the local callback path.
pub open spec fn authorization_link() -> Seq<char> {
    AUTHORIZE_ENDPOINT@ + "?response_type=token&client_id="@ + CLIENT_ID@ + "&redirect_uri="@
        + LOCALHOST@ + ":"@ + decimal(PORT as nat) + CALLBACK@ + "&scope="@ + SCOPES@
}

/// The link that asks the user to authorize this application.
pub fn authorization_url() -> (r: String)
    ensures
        r@ == authorization_link(),
{
    let mut url = String::from_str(AUTHORIZE_ENDPOINT);
    url.append("?response_type=token&client_id=");
    url.append(CLIENT_ID);
    url.append("&redirect_uri=");
    url.append(LOCALHOST);
    url.append(":");
    url.append(decimal_string(PORT as u64).as_str());
    url.append(CALLBACK);
    url.append("&scope=");
    url.append(SCOPES);
    url
}

/// Whether `c` has Unicode's White_Space property.
pub uninterp spec fn is_white_space(c: char) -> bool;

/// Relies on `char::is_whitespace`: true exactly for the chars with Unicode's
/// White_Space property.
#[verifier::external_body]
fn is_whitespace(c: char) -> (r: bool)
    ensures
        r == is_white_space(c),
{
    c.is_whitespace()
}

/// The maximal runs of chars without white space, in order.
pub open spec fn fields(s: Seq<char>) -> Seq<Seq<char>>
    decreases s.len(),
{
    if s.len() == 0 {
        Seq::empty()
    } else {
        let before = fields(s.drop_last());
        let c = s.last();
        if is_white_space(c) {
            before
        } else if s.len() > 1 && !is_white_space(s[s.len() - 2]) && before.len() > 0 {
            before.update(before.len() - 1, before.last().push(c))
        } else {
            before.push(seq![c])
        }
    }
}

/// The target of a request line: its second field, or nothing.
pub open spec fn target_of(line: Seq<char>) -> Seq<char> {
    if fields(line).len() > 1 {
        fields(line)[1]
    } else {
        Seq::empty()
    }
}

/// The target of an HTTP request line (`GET /path?query HTTP/1.1`): its
/// second whitespace-separated field, or nothing when it has none.
pub fn request_target(line: &str) -> (r: String)
    ensures
        r@ == target_of(line@),
{
    let n = line.unicode_len();
    let mut count: usize = 0;
    let mut prev_ws = true;
    let mut start: usize = 0;
    let mut end: usize = 0;
    let mut i: usize = 0;
    while i < n
        invariant
            n == line@.len(),
            i <= n,
            count == fields(line@.subrange(0, i as int)).len(),
            count <= i,
            prev_ws == (i == 0 || is_white_space(line@[i - 1])),
            !prev_ws ==> count > 0,
            count >= 2 ==> start <= end <= i && fields(line@.subrange(0, i as int))[1]
                == line@.subrange(start as int, end as int),
            count == 2 && !prev_ws ==> end == i,
        decreases n - i,
    {
        let c = line.get_char(i);
        let ghost prefix = line@.subrange(0, i as int);
        let ghost next = line@.subrange(0, i + 1);
        assert(next.drop_last() =~= prefix);
        assert(next.last() == c);
        assert(i > 0 ==> next[i - 1] == line@[i - 1]);
        let ws = is_whitespace(c);
        if !ws {
            if prev_ws {
                count = count + 1;
                if count == 2 {
                    start = i;
                }
            }
            if count == 2 {
                end = i + 1;
                assert(line@.subrange(start as int, end as int) =~= line@.subrange(
                    start as int,
                    i as int,
                ).push(c));
            }
        }
        prev_ws = ws;
        i = i + 1;
    }
    if count >= 2 {
        assert(line@.subrange(0, n as int) =~= line@);
        line.substring_char(start, end).to_owned()
    } else {
        assert(line@.subrange(0, n as int) =~= line@);
        String::new()
    }
}

/// What parsing a URL gives: its path, and its query as decoded key and value
/// pairs in order; nothing when the text is no absolute URL.
pub uninterp spec fn url_parts(s: Seq<char>) -> Option<(Seq<char>, Seq<(Seq<char>, Seq<char>)>)>;

/// The error of `url::Url::parse`.
#[verifier::external_type_specification]
#[verifier::external_body]
pub struct ExParseError(url::ParseError);

/// Relies on `url::Url::parse`, read through `Url::path` and
/// `Url::query_pairs`: the parts depend on the text alone.
#[verifier::external_body]
fn parse_url(s: &str) -> (r: Result<(String, Vec<(String, String)>), url::ParseError>)
    ensures
        r is Ok <==> url_parts(s@) is Some,
        r matches Ok(parts) ==> url_parts(s@) == Some((parts.0@, parts.1.deep_view())),
{
    match url::Url::parse(s) {
        Ok(u) => Ok(
            (
                u.path().to_string(),
                u.query_pairs().map(|(k, v)| (k.into_owned(), v.into_owned())).collect(),
            ),
        ),
        Err(e) => Err(e),
    }
}

/// The value of the first query pair whose key is the token key.
pub open spec fn token_in(query: Seq<(Seq<char>, Seq<char>)>) -> Option<Seq<char>>
    decreases query.len(),
{
    if query.len() == 0 {
        None
    } else if query[0].0 == TOKEN_KEY@ {
        Some(query[0].1)
    } else {
        token_in(query.drop_first())
    }
}

/// One move of the handshake on a request for `path` with `query`: the next
/// stage, the page to serve, and the token once it has arrived.
pub open spec fn auth_step(stage: AuthStage, path: Seq<char>, query: Seq<(Seq<char>, Seq<char>)>) -> (
    AuthStage,
    Response,
    Option<Seq<char>>,
) {
    match stage {
        AuthStage::ShouldCallback => if path == CALLBACK@ {
            (AuthStage::ShouldRedirect, Response::Callback, None)
        } else {
            (AuthStage::ShouldCallback, Response::BadRequest, None)
        },
        AuthStage::ShouldRedirect => if path == REDIRECT@ {
            match token_in(query) {
                Some(token) => (AuthStage::ShouldRedirect, Response::Redirect, Some(token)),
                None => (AuthStage::ShouldCallback, Response::BadRequest, None),
            }
        } else {
            (AuthStage::ShouldRedirect, Response::BadRequest, None)
        },
    }
}

/// The chars of an optional string.
pub open spec fn opt_view(o: Option<String>) -> Option<Seq<char>> {
    match o {
        Some(s) => Some(s@),
        None => None,
    }
}

/// What one request does to the handshake.
pub struct Step {
    pub stage: AuthStage,
    pub response: Response,
    pub token: Option<String>,
}

impl Step {
    /// Whether this step is the move `auth_step` gives.
    pub open spec fn is_move(self, expected: (AuthStage, Response, Option<Seq<char>>)) -> bool {
        self.stage == expected.0 && self.response == expected.1 && opt_view(self.token)
            == expected.2
    }
}

/// The value of the first pair of `query` whose key is the token key.
pub fn find_token(query: &Vec<(String, String)>) -> (r: Option<String>)
    ensures
        opt_view(r) == token_in(query.deep_view()),
{
    let ghost q = query.deep_view();
    let mut i: usize = 0;
    assert(q.skip(0) =~= q);
    while i < query.len()
        invariant
            i <= query@.len(),
            q == query.deep_view(),
            token_in(q) == token_in(q.skip(i as int)),
        decreases query.len() - i,
    {
        assert(q.skip(i as int)[0] == (query@[i as int].0@, query@[i as int].1@));
        if crate::text::str_eq(query[i].0.as_str(), TOKEN_KEY) {
            return Some(query[i].1.clone());
        }
        assert(q.skip(i as int).drop_first() =~= q.skip(i + 1));
        i = i + 1;
    }
    assert(q.skip(i as int).len() == 0);
    None
}

/// One move of the handshake on a request for `path` with `query`.
pub fn step(stage: AuthStage, path: &str, query: &Vec<(String, String)>) -> (r: Step)
    ensures
        r.is_move(auth_step(stage, path@, query.deep_view())),
{
    match stage {
        AuthStage::ShouldCallback => {
            if crate::text::str_eq(path, CALLBACK) {
                Step { stage: AuthStage::ShouldRedirect, response: Response::Callback, token: None }
            } else {
                Step { stage: AuthStage::ShouldCallback, response: Response::BadRequest, token: None }
            }
        },
        AuthStage::ShouldRedirect => {
            if crate::text::str_eq(path, REDIRECT) {
                match find_token(query) {
                    Some(token) => Step {
                        stage: AuthStage::ShouldRedirect,
                        response: Response::Redirect,
                        token: Some(token),
                    },
                    None => Step {
                        stage: AuthStage::ShouldCallback,
                        response: Response::BadRequest,
                        token: None,
                    },
                }
            } else {
                Step { stage: AuthStage::ShouldRedirect, response: Response::BadRequest, token: None }
            }
        },
    }
}

/// The local URL a request line asks for.
pub open spec fn request_url(line: Seq<char>) -> Seq<char> {
    LOCALHOST@ + ":"@ + decimal(PORT as nat) + target_of(line)
}

/// The move of the handshake on a request line whose target makes no URL:
/// a client error, the stage unchanged.
pub open spec fn malformed_step(stage: AuthStage) -> (AuthStage, Response, Option<Seq<char>>) {
    (stage, Response::BadRequest, None)
}

/// The move of the handshake on one request line; a line whose target makes
/// no URL gets a client error and leaves the stage as it was.
pub fn handle_request(stage: AuthStage, line: &str) -> (r: Step)
    ensures
        url_parts(request_url(line@)) is None ==> r.is_move(malformed_step(stage)),
        url_parts(request_url(line@)) matches Some(parts) ==> r.is_move(
            auth_step(stage, parts.0, parts.1),
        ),
{
    let target = request_target(line);
    let mut url = String::from_str(LOCALHOST);
    url.append(":");
    url.append(decimal_string(PORT as u64).as_str());
    url.append(target.as_str());
    match parse_url(url.as_str()) {
        Ok(parts) => step(stage, parts.0.as_str(), &parts.1),
        Err(_) => Step { stage, response: Response::BadRequest, token: None },
    }
}

/// A request as the handshake sees it: a path and its query pairs.
pub type Request = (Seq<char>, Seq<(Seq<char>, Seq<char>)>);

/// The token that a run of requests yields from `stage`: the first one that
/// arrives, or nothing.
pub open spec fn run_requests(stage: AuthStage, requests: Seq<Request>) -> Option<Seq<char>>
    decreases requests.len(),
{
    if requests.len() == 0 {
        None
    } else {
        let moved = auth_step(stage, requests[0].0, requests[0].1);
        match moved.2 {
            Some(token) => Some(token),
            None => run_requests(moved.0, requests.drop_first()),
        }
    }
}

proof fn lemma_paths_differ()
    ensures
        CALLBACK@ != REDIRECT@,
{
    reveal_strlit("/callback");
    reveal_strlit("/redirect");
    assert(CALLBACK@[1] != REDIRECT@[1]);
}

/// A visit to the callback path followed by one to the redirect path whose
/// query carries a token yields that token.
pub proof fn lemma_callback_then_redirect_yields_token(
    callback_query: Seq<(Seq<char>, Seq<char>)>,
    redirect_query: Seq<(Seq<char>, Seq<char>)>,
)
    requires
        token_in(redirect_query) is Some,
    ensures
        run_requests(
            AuthStage::ShouldCallback,
            seq![(CALLBACK@, callback_query), (REDIRECT@, redirect_query)],
        ) == token_in(redirect_query),
{
    lemma_paths_differ();
    let requests = seq![(CALLBACK@, callback_query), (REDIRECT@, redirect_query)];
    let tail = seq![(REDIRECT@, redirect_query)];
    assert(requests.drop_first() =~= tail);
    assert(auth_step(AuthStage::ShouldCallback, CALLBACK@, callback_query).0
        == AuthStage::ShouldRedirect);
    assert(run_requests(AuthStage::ShouldRedirect, tail) == token_in(redirect_query));
}

/// A visit to the redirect path without a token sends the handshake back to
/// its start, and a second callback and redirect still yield the token.
pub proof fn lemma_missing_token_recovers(
    first_callback: Seq<(Seq<char>, Seq<char>)>,
    tokenless: Seq<(Seq<char>, Seq<char>)>,
    second_callback: Seq<(Seq<char>, Seq<char>)>,
    redirect_query: Seq<(Seq<char>, Seq<char>)>,
)
    requires
        token_in(tokenless) is None,
        token_in(redirect_query) is Some,
    ensures
        run_requests(
            AuthStage::ShouldCallback,
            seq![
                (CALLBACK@, first_callback),
                (REDIRECT@, tokenless),
                (CALLBACK@, second_callback),
                (REDIRECT@, redirect_query),
            ],
        ) == token_in(redirect_query),
{
    let requests = seq![
        (CALLBACK@, first_callback),
        (REDIRECT@, tokenless),
        (CALLBACK@, second_callback),
        (REDIRECT@, redirect_query),
    ];
    lemma_paths_differ();
    let rest = seq![(CALLBACK@, second_callback), (REDIRECT@, redirect_query)];
    let after_first = seq![(REDIRECT@, tokenless), (CALLBACK@, second_callback), (REDIRECT@, redirect_query)];
    assert(requests.drop_first() =~= after_first);
    assert(after_first.drop_first() =~= rest);
    lemma_callback_then_redirect_yields_token(second_callback, redirect_query);
    assert(run_requests(AuthStage::ShouldRedirect, after_first) == run_requests(
        AuthStage::ShouldCallback,
        rest,
    ));
}

} // verus!
