use url_md::spike::{classify_response, tally, Outcome};

#[test]
fn non_2xx_is_an_http_error() {
    assert!(matches!(classify_response(404, "Hacker News", "Hacker News", 3), Outcome::HttpError(404)));
    assert!(matches!(classify_response(199, "", "", 3), Outcome::HttpError(199)));
    assert!(matches!(classify_response(300, "", "", 3), Outcome::HttpError(300)));
}

#[test]
fn page_without_marker_is_blocked() {
    match classify_response(200, "验证码", "id=\"js_content\"", 3) {
        Outcome::Blocked { bytes, reason } => {
            assert_eq!(bytes, 9);
            assert_eq!(reason, "missing marker `id=\"js_content\"`");
        }
        other => panic!("unexpected {other:?}"),
    }
}

#[test]
fn page_with_marker_is_fetched() {
    match classify_response(299, "<title>Hacker News</title>", "Hacker News", 42) {
        Outcome::Fetched { bytes, ms } => {
            assert_eq!(bytes, 26);
            assert_eq!(ms, 42);
        }
        other => panic!("unexpected {other:?}"),
    }
}

#[test]
fn tally_counts_each_kind() {
    let v = vec![
        Outcome::Fetched { bytes: 1, ms: 1 },
        Outcome::HttpError(500),
        Outcome::Blocked { bytes: 1, reason: "r".into() },
        Outcome::Network("dns".into()),
        Outcome::Fetched { bytes: 2, ms: 2 },
    ];
    assert_eq!(tally(&v), (2, 1, 2));
    assert_eq!(tally(&Vec::new()), (0, 0, 0));
}
