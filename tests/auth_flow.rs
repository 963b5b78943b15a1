use spotify_tools::auth::{
    authorization_url, handle_request, request_target, step, AuthStage, Response,
};

fn page(body: &str, status: &str) -> Vec<u8> {
    let style = "body {\r\nmargin: 2.5em;\r\nfont-family: sans-serif;\r\ntext-align: center;\r\n}";
    let content = format!(
        "<!DOCTYPE html>\r\n<html>\r\n<head>\r\n<title>spotify-tools</title>\r\n<style>{}</style>\r\n</head>\r\n<body>{}</body>\r\n</html>",
        style, body
    );
    format!(
        "HTTP/1.1 {}\r\nServer: spotify-tools\r\nContent-Type: text/html; charset=utf-8\r\nContent-Length: {}\r\n\r\n{}",
        status,
        content.len(),
        content
    )
    .into_bytes()
}

fn token_of(stage: AuthStage, line: &str) -> (AuthStage, Response, Option<String>) {
    let s = handle_request(stage, line);
    (s.stage, s.response, s.token)
}

#[test]
fn bad_request_page_is_exact() {
    assert_eq!(Response::BadRequest.content(), page("Bad Request", "400 Bad Request"));
}

#[test]
fn completion_page_is_exact() {
    assert_eq!(
        Response::Redirect.content(),
        page(
            "Authorization complete. Please return to your terminal. This tab can be closed.",
            "200 OK"
        )
    );
}

#[test]
fn callback_page_forwards_fragment_as_query() {
    let script = "<script>window.location = window.location.origin + '/redirect?' + window.location.hash.substring(1);</script>";
    assert_eq!(Response::Callback.content(), page(script, "200 OK"));
}

#[test]
fn content_length_counts_bytes_not_chars() {
    let r = Response::html_response("é", "200 OK");
    let text = String::from_utf8(r.clone()).unwrap();
    assert!(text.contains("Content-Length: 185\r\n"));
    assert_eq!(r, page("é", "200 OK"));
}

#[test]
fn authorization_url_is_exact() {
    assert_eq!(
        authorization_url(),
        "https://accounts.spotify.com/authorize?response_type=token&client_id=bda57df0ca3244ea96cc8f16dfe04ab7&redirect_uri=http://localhost:8000/callback&scope=playlist-read-private playlist-read-collaborative playlist-modify-private playlist-modify-public user-library-read user-library-modify"
    );
}

#[test]
fn request_target_is_second_field() {
    assert_eq!(request_target("GET /callback HTTP/1.1\r\n"), "/callback");
    assert_eq!(request_target("  GET \t /a?b=c   HTTP/1.1"), "/a?b=c");
    assert_eq!(request_target("GET"), "");
    assert_eq!(request_target(""), "");
}

#[test]
fn callback_then_redirect_yields_token() {
    let (stage, response, token) =
        token_of(AuthStage::ShouldCallback, "GET /callback HTTP/1.1\r\n");
    assert_eq!(stage, AuthStage::ShouldRedirect);
    assert_eq!(response, Response::Callback);
    assert_eq!(token, None);
    let (_, response, token) = token_of(
        stage,
        "GET /redirect?access_token=XYZ&token_type=Bearer&expires_in=3600 HTTP/1.1\r\n",
    );
    assert_eq!(response, Response::Redirect);
    assert_eq!(token, Some(String::from("XYZ")));
}

#[test]
fn missing_token_returns_to_start_then_recovers() {
    let (stage, _, _) = token_of(AuthStage::ShouldCallback, "GET /callback HTTP/1.1");
    let (stage, response, token) = token_of(stage, "GET /redirect?error=access_denied HTTP/1.1");
    assert_eq!(stage, AuthStage::ShouldCallback);
    assert_eq!(response, Response::BadRequest);
    assert_eq!(token, None);
    let (stage, response, _) = token_of(stage, "GET /callback HTTP/1.1");
    assert_eq!(response, Response::Callback);
    let (_, response, token) = token_of(stage, "GET /redirect?access_token=XYZ HTTP/1.1");
    assert_eq!(response, Response::Redirect);
    assert_eq!(token, Some(String::from("XYZ")));
}

#[test]
fn unexpected_paths_get_bad_request_and_keep_stage() {
    let (stage, response, token) = token_of(AuthStage::ShouldCallback, "GET /favicon.ico HTTP/1.1");
    assert_eq!((stage, response, token), (AuthStage::ShouldCallback, Response::BadRequest, None));
    let (stage, response, _) =
        token_of(AuthStage::ShouldCallback, "GET /redirect?access_token=XYZ HTTP/1.1");
    assert_eq!((stage, response), (AuthStage::ShouldCallback, Response::BadRequest));
    let (stage, response, _) = token_of(AuthStage::ShouldRedirect, "GET /callback HTTP/1.1");
    assert_eq!((stage, response), (AuthStage::ShouldRedirect, Response::BadRequest));
}

#[test]
fn token_is_percent_decoded() {
    let (_, _, token) = token_of(AuthStage::ShouldRedirect, "GET /redirect?access_token=a%2Fb%20c HTTP/1.1");
    assert_eq!(token, Some(String::from("a/b c")));
}

#[test]
fn first_token_pair_wins() {
    let (_, _, token) = token_of(
        AuthStage::ShouldRedirect,
        "GET /redirect?x=1&access_token=first&access_token=second HTTP/1.1",
    );
    assert_eq!(token, Some(String::from("first")));
}

#[test]
fn unparsable_target_gets_bad_request_and_keeps_stage() {
    let (stage, response, token) = token_of(AuthStage::ShouldRedirect, "GET x HTTP/1.1");
    assert_eq!((stage, response, token), (AuthStage::ShouldRedirect, Response::BadRequest, None));
    let (stage, response, _) = token_of(AuthStage::ShouldCallback, "GET :99999 HTTP/1.1");
    assert_eq!((stage, response), (AuthStage::ShouldCallback, Response::BadRequest));
}

#[test]
fn step_on_parsed_parts() {
    let query = vec![
        (String::from("token_type"), String::from("Bearer")),
        (String::from("access_token"), String::from("XYZ")),
    ];
    let s = step(AuthStage::ShouldRedirect, "/redirect", &query);
    assert_eq!(s.response, Response::Redirect);
    assert_eq!(s.token, Some(String::from("XYZ")));
    let s = step(AuthStage::ShouldRedirect, "/redirect", &vec![]);
    assert_eq!(s.stage, AuthStage::ShouldCallback);
    assert_eq!(s.token, None);
}
