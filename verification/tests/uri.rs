use esp32_lb::outgoing::{build_outgoing, Request};
use esp32_lb::uri::{InvalidUriParts, MalformedUri, Uri, UriParts};

fn parts(scheme: Option<&str>, authority: Option<&str>, path: Option<&str>) -> UriParts {
    UriParts {
        scheme: scheme.map(|s| s.to_owned()),
        authority: authority.map(|s| s.to_owned()),
        path_and_query: path.map(|s| s.to_owned()),
    }
}

fn components(uri: Uri) -> (Option<String>, Option<String>, Option<String>) {
    let p = uri.into_parts();
    (p.scheme, p.authority, p.path_and_query)
}

fn some(s: &str) -> Option<String> {
    Some(s.to_owned())
}

const TEXTS: [&str; 14] = [
    "http://127.0.0.1:8080",
    "http://127.0.0.1:8080/",
    "HTTP://Example.org/Path?q=1",
    "https://user@example.org:444/a/b?x=y&z",
    "http://example.org?a=b",
    "http://example.org#top",
    "http://example.org/p?#top",
    "ftp://files/x",
    "localhost:8080",
    "localhost",
    "/only/a/path?with=query",
    "/",
    "*",
    "x",
];

#[test]
fn parsing_cuts_a_uri_into_components() {
    let uri = Uri::parse("HTTP://example.org:81/a/b?c=d#e").unwrap();
    assert_eq!(
        components(uri),
        (some("http"), some("example.org:81"), some("/a/b?c=d"))
    );
    let uri = Uri::parse("http://127.0.0.1:8080").unwrap();
    assert_eq!(
        components(uri),
        (some("http"), some("127.0.0.1:8080"), some("/"))
    );
    assert_eq!(
        components(Uri::parse("localhost:8080").unwrap()),
        (None, some("localhost:8080"), None)
    );
    assert_eq!(components(Uri::parse("/x?y").unwrap()), (None, None, some("/x?y")));
}

#[test]
fn malformed_texts_are_rejected() {
    for text in ["", "http://", "not a uri", "http:/x/y", "a\nb"] {
        assert_eq!(Uri::parse(text).err(), Some(MalformedUri));
    }
}

#[test]
fn text_is_that_of_the_http_crate() {
    for text in TEXTS {
        let theirs: hyper::Uri = text.parse().unwrap();
        assert_eq!(Uri::parse(text).unwrap().to_string(), theirs.to_string());
    }
    assert_eq!(
        Uri::parse("http://example.org?a=b").unwrap().to_string(),
        "http://example.org/?a=b"
    );
    assert_eq!(
        Uri::parse("http://127.0.0.1:8080").unwrap().to_string(),
        "http://127.0.0.1:8080/"
    );
}

#[test]
fn components_are_put_together_as_in_the_http_crate() {
    for scheme in [None, Some("http")] {
        for authority in [None, Some("h:1")] {
            for path in [None, Some("/p?q")] {
                let mut theirs = hyper::http::uri::Parts::default();
                theirs.scheme = scheme.map(|s| s.parse().unwrap());
                theirs.authority = authority.map(|s| s.parse().unwrap());
                theirs.path_and_query = path.map(|s| s.parse().unwrap());
                let ours = Uri::from_parts(parts(scheme, authority, path));
                match hyper::Uri::from_parts(theirs) {
                    Ok(uri) => assert_eq!(ours.unwrap().to_string(), uri.to_string()),
                    Err(_) => assert!(ours.is_err()),
                }
            }
        }
    }
}

#[test]
fn incomplete_components_are_told_apart() {
    assert_eq!(
        Uri::from_parts(parts(Some("http"), None, Some("/"))).err(),
        Some(InvalidUriParts::AuthorityMissing)
    );
    assert_eq!(
        Uri::from_parts(parts(Some("http"), Some("h"), None)).err(),
        Some(InvalidUriParts::PathAndQueryMissing)
    );
    assert_eq!(
        Uri::from_parts(parts(None, Some("h"), Some("/"))).err(),
        Some(InvalidUriParts::SchemeMissing)
    );
}

#[test]
fn clones_are_equal() {
    for text in TEXTS {
        let uri = Uri::parse(text).unwrap();
        assert_eq!(components(uri.clone()), components(uri));
    }
}

fn sent(original: &str, target: &str) -> String {
    let req = Request {
        head: "head",
        uri: Uri::parse(original).unwrap(),
        body: (),
    };
    let target = Uri::parse(target).unwrap();
    assert!(target.is_routable());
    let out = build_outgoing(req, vec![1u8, 2], &target);
    assert_eq!(out.head, "head");
    assert_eq!(out.body, vec![1u8, 2]);
    out.uri.to_string()
}

#[test]
fn outgoing_requests_keep_path_and_query() {
    assert_eq!(
        sent("/api/v1?x=1", "http://127.0.0.1:8080/ignored?too"),
        "http://127.0.0.1:8080/api/v1?x=1"
    );
    assert_eq!(
        sent("https://front.example/a", "http://10.0.0.1:81"),
        "http://10.0.0.1:81/a"
    );
}

#[test]
fn outgoing_requests_without_a_path_get_one() {
    assert_eq!(sent("front:443", "http://10.0.0.1"), "http://10.0.0.1/");
}

#[test]
fn relative_targets_take_the_authority_away() {
    assert_eq!(sent("http://front/a?b", "/somewhere"), "/a?b");
}

#[test]
fn last_target_is_the_one_that_counts() {
    let once = sent("/p?q", "http://one:1");
    assert_eq!(sent(&once, "https://two:2"), sent("/p?q", "https://two:2"));
}

#[test]
fn addresses_without_a_scheme_are_not_routable() {
    assert!(!Uri::parse("localhost:8080").unwrap().is_routable());
    assert!(Uri::parse("/x").unwrap().is_routable());
}
