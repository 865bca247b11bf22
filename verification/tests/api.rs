use messi::api::handlers::route::{error_json, Reply, Route};
use messi::api::handlers::{get, patch, post, put};
use messi::api::server::{get_mime_type, Repositories};
use messi::api::utils::headers::Headers;
use messi::api::utils::method::Method;
use messi::api::utils::mime_type::MimeType;
use messi::api::utils::query_string::QueryString;
use messi::api::utils::request::Request;
use messi::api::utils::response::Response;
use messi::api::utils::status_code::{Error, StatusCode};
use messi::pull_request::{PullRequestCreate, PullRequestPatch, Repository};

#[test]
fn headers_are_kept_in_lower_case() {
    let mut h = Headers::new();
    h.insert("Content-Type", "Application/JSON");
    assert_eq!(h.get("content-type"), Some("application/json"));
    assert_eq!(h.get("CONTENT-TYPE"), Some("application/json"));
    h.add("Accept: text/html");
    assert_eq!(h.get("accept"), Some("text/html"));
    assert_eq!(h.to_string(), "\r\ncontent-type: application/json\r\naccept: text/html");
    assert_eq!(Headers::new().to_string(), "\r\n");
}

#[test]
fn query_strings_are_split_in_pairs() {
    let q = QueryString::from_query("a=1&b=2&c");
    assert_eq!(q.get("a"), Some("1"));
    assert_eq!(q.get("b"), Some("2"));
    assert_eq!(q.get("c"), Some(""));
    assert_eq!(q.get("d"), None);
}

#[test]
fn methods_and_mime_types_are_named() {
    assert_eq!(Method::from_name("POST"), Method::POST);
    assert_eq!(Method::from_name("DELETE"), Method::GET);
    assert_eq!(MimeType::try_from_name("application/xml"), Ok(MimeType::XML));
    assert_eq!(MimeType::try_from_name("text/html"), Err("Mime type text/html not found".to_string()));
    assert_eq!(MimeType::JSON.to_string(), "application/json");
}

#[test]
fn status_codes_read_back_but_conflict() {
    assert_eq!(StatusCode::from_u16(404), Ok(StatusCode::NotFound));
    assert_eq!(StatusCode::from_u16(409), Err(Error::InvalidRequest));
    assert_eq!(StatusCode::Conflict.to_u16(), 409);
    assert_eq!(StatusCode::BadRequest.reason_phrase(), "Bad Request");
    assert_eq!(StatusCode::OK.to_string(), "200 Ok");
}

#[test]
fn requests_are_parsed() {
    let text = "POST /repos/r/pulls?x=1 HTTP/1.1\r\nHost: localhost\r\nContent-Type: application/json\r\n\r\n{\"title\": \"t\"}\r\n";
    let r = Request::new(text);
    assert_eq!(r.method, Method::POST);
    assert_eq!(r.path, "/repos/r/pulls");
    assert_eq!(r.qs.get("x"), Some("1"));
    assert_eq!(r.headers.get("host"), Some("localhost"));
    assert_eq!(r.body, "{\"title\": \"t\"}");
    assert_eq!(r.get_path_split(), vec!["repos".to_string(), "r".to_string(), "pulls".to_string()]);
}

#[test]
fn xml_bodies_become_json() {
    let body = "<pr>   <title>T</title>   <description>D</description>   <source_branch>S</source_branch>   <target_branch>M</target_branch>";
    let text = format!("POST /repos/r/pulls HTTP/1.1\r\nContent-Type: application/xml\r\n\r\n{}\r\n", body);
    assert!(Request::readable(&text));
    let r = Request::new(&text);
    assert_eq!(
        r.body,
        "{    \"title\": \"T\",    \"description\": \"D\",    \"source_branch\": \"S\",    \"target_branch\": \"M\"}"
    );
}

#[test]
fn unreadable_xml_bodies_are_refused() {
    let short = "POST /repos/r/pulls HTTP/1.1\r\nContent-Type: application/xml\r\n\r\n<pr>   <title>T</title>\r\n";
    assert!(!Request::readable(short));
    assert!(Request::try_new(short).is_none());
    let reversed = "<pr>   <title>T</title>   <description>D</description>   </source_branch>S<source_branch>   <target_branch>M</target_branch>";
    let text = format!("POST /repos/r/pulls HTTP/1.1\r\nContent-Type: application/xml\r\n\r\n{}\r\n", reversed);
    assert!(Request::try_new(&text).is_none());
    let json = "POST /repos/r/pulls HTTP/1.1\r\nContent-Type: application/json\r\n\r\n{}\r\n";
    assert!(Request::try_new(json).is_some());
}

#[test]
fn responses_are_written() {
    let r = Response::new(StatusCode::OK, Some("{}".to_string()), MimeType::JSON);
    assert_eq!(
        r.to_string(),
        "HTTP/1.1 200 Ok\r\ncontent-type: application/json\r\ncontent-length: 2\r\n\r\n{}"
    );
    let r = Response::new(StatusCode::NotFound, None, MimeType::JSON);
    assert_eq!(r.to_string(), "HTTP/1.1 404 Not Found\r\n\r\n");
}

#[test]
fn mime_type_of_the_accept_header() {
    assert_eq!(get_mime_type(Some("text/html, application/xml")), MimeType::XML);
    assert_eq!(get_mime_type(Some("text/html")), MimeType::JSON);
    assert_eq!(get_mime_type(None), MimeType::JSON);
}

fn request(method: &str, path: &str) -> Request {
    Request::new(&format!("{} {} HTTP/1.1\r\n\r\n", method, path))
}

#[test]
fn requests_are_routed() {
    assert!(matches!(get::handle(&request("GET", "/repos/r/pulls")), Route::ListPulls(r) if r == "r"));
    assert!(matches!(get::handle(&request("GET", "/repos/r/pulls/3")), Route::GetPull(r, 3) if r == "r"));
    assert!(matches!(get::handle(&request("GET", "/repos/r/pulls/3/commits")), Route::ListCommits(r, 3) if r == "r"));
    assert!(matches!(post::handle(&request("POST", "/repos/r/pulls")), Route::CreatePull(r) if r == "r"));
    assert!(matches!(patch::handle(&request("PATCH", "/repos/r/pulls/2")), Route::UpdatePull(r, 2) if r == "r"));
    assert!(matches!(put::handle(&request("PUT", "/repos/r/pulls/2/merge")), Route::MergePull(r, 2) if r == "r"));
    assert!(matches!(get::handle(&request("GET", "/other")), Route::Respond(StatusCode::BadRequest, None)));
    match get::handle(&request("GET", "/repos/r/pulls/x")) {
        Route::Respond(StatusCode::BadRequest, Some(body)) => {
            assert_eq!(body, "{\"error\":\"Invalid pull number: not a number.\"}")
        }
        other => panic!("unexpected {:?}", other),
    }
    assert_eq!(error_json("a \"quote\""), "{\"error\":\"a \\\"quote\\\"\"}");
}

#[test]
fn repositories_are_found_or_created() {
    let mut repos = Repositories::new();
    assert_eq!(repos.get("r", false), None);
    let i = repos.get("r", true).unwrap();
    assert_eq!(repos.repository(i).name(), "r");
    assert_eq!(repos.get("r", false), Some(i));
    repos.insert(Repository::new("s"));
    assert_eq!(repos.get("s", false), Some(1));
}

fn new_pull(title: &str) -> PullRequestCreate {
    PullRequestCreate {
        title: title.to_string(),
        description: "d".to_string(),
        source_branch: "feature".to_string(),
        target_branch: "master".to_string(),
    }
}

#[test]
fn handlers_answer_from_the_repositories() {
    let mut repos = Repositories::new();
    let missing = get::list_pull_requests(&mut repos, "r", false);
    assert!(matches!(missing, Reply::Respond(StatusCode::NotFound, Some(ref b)) if b == "{\"error\":\"Repository not found.\"}"));

    let created = post::create_pull_request(&mut repos, "r", new_pull("first"), true);
    assert!(matches!(created, Reply::Saved(0, ref pr) if pr.pull_number == 1 && pr.title == "first"));
    let created = post::create_pull_request(&mut repos, "r", new_pull("second"), true);
    assert!(matches!(created, Reply::Saved(0, ref pr) if pr.pull_number == 2));

    match get::list_pull_requests(&mut repos, "r", true) {
        Reply::Pulls(prs) => assert_eq!(prs.iter().map(|p| p.pull_number).collect::<Vec<_>>(), vec![1, 2]),
        _ => panic!("expected the pull requests"),
    }
    assert!(matches!(get::get_pull_request(&mut repos, "r", 2, true), Reply::Pull(ref pr) if pr.title == "second"));
    assert!(matches!(
        get::get_pull_request(&mut repos, "r", 9, true),
        Reply::Respond(StatusCode::NotFound, Some(ref b)) if b == "{\"error\":\"Pull request not found.\"}"
    ));

    let patch_title = PullRequestPatch { title: Some("renamed".to_string()), description: None, target_branch: None };
    assert!(matches!(patch::update_pull_request(&mut repos, "r", 1, patch_title, true), Reply::Saved(0, ref pr) if pr.title == "renamed"));
    let patch_missing = PullRequestPatch { title: None, description: None, target_branch: None };
    assert!(matches!(
        patch::update_pull_request(&mut repos, "r", 7, patch_missing, true),
        Reply::Respond(StatusCode::BadRequest, Some(_))
    ));

    match put::merge_pull_request(&mut repos, "r", 1, true, "/srv", ".mgit") {
        Reply::Merge(0, 1, b) => {
            assert_eq!(b.git_dir, "/srv/r/.mgit");
            assert_eq!(b.source_branch, "feature");
            assert_eq!(b.target_branch, "master");
        }
        _ => panic!("expected the branches to merge"),
    }
    assert!(matches!(put::merge_pull_request(&mut repos, "r", 5, true, "/srv", ".mgit"), Reply::Respond(StatusCode::NotFound, _)));
    assert!(matches!(get::list_pull_request_commits(&mut repos, "r", 2, true, "/srv", ".mgit"), Reply::Commits(_)));
    assert!(matches!(get::list_pull_request_commits(&mut repos, "r", 5, true, "/srv", ".mgit"), Reply::Respond(StatusCode::BadRequest, _)));
}

#[test]
fn header_names_are_found_whatever_their_case() {
    let mut h = Headers::new();
    h.add("Accept: text/html");
    assert_eq!(h.get("Accept"), h.get("accept"));
    assert_eq!(h.get("ACCEPT"), Some("text/html"));
    assert_eq!(Headers::new().get("Accept"), None);
}

#[test]
fn error_messages_are_escaped_as_json_strings() {
    assert_eq!(error_json("a\tb\u{1}\\\u{1f}é"), r#"{"error":"a\tb\u0001\\\u001fé"}"#);
    assert_eq!(error_json("\u{8}\u{c}\r\n"), r#"{"error":"\b\f\r\n"}"#);
}
