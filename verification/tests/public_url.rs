use queenui::hex::encode_hex;
use queenui::public_url::{
    canonical_public_url, pairing_payload, public_url_plan, trim_trailing_slashes, UrlParts,
};

fn parts(scheme: &str, port: Option<u16>, path: &str) -> UrlParts {
    UrlParts {
        scheme: scheme.into(),
        host: Some("runner.example".into()),
        username: String::new(),
        password: None,
        query: None,
        fragment: None,
        port,
        path: path.into(),
    }
}

#[test]
fn pairing_url_is_canonical_https_only() {
    assert_eq!(
        canonical_public_url("HTTPS://BÜCHER.example:443/runner/").unwrap(),
        "https://xn--bcher-kva.example/runner"
    );
    assert!(canonical_public_url("http://127.0.0.1:7788").is_err());
    assert!(canonical_public_url("https://user@runner.example").is_err());
}

#[test]
fn public_urls_keep_host_port_and_base_path_only() {
    assert_eq!(canonical_public_url("  https://runner.example:8443//  ").unwrap(), "https://runner.example:8443");
    assert_eq!(canonical_public_url("https://runner.example").unwrap(), "https://runner.example");
    assert_eq!(canonical_public_url("not a url").unwrap_err(), "QUEEN_RUNNER_PUBLIC_URL is invalid");
    assert_eq!(
        canonical_public_url("https://runner.example/?x=1").unwrap_err(),
        "QUEEN_RUNNER_PUBLIC_URL must be HTTPS and contain only host, port, and base path"
    );
    assert!(canonical_public_url("https://runner.example/#top").is_err());
    assert!(canonical_public_url("https://:secret@runner.example").is_err());
}

#[test]
fn the_plan_drops_the_default_port_and_trailing_slashes() {
    assert_eq!(public_url_plan(&parts("https", Some(443), "/a//")).unwrap(), (None, "/a".to_string()));
    assert_eq!(public_url_plan(&parts("https", Some(8443), "///")).unwrap(), (Some(8443), "/".to_string()));
    assert!(public_url_plan(&parts("http", None, "/")).is_err());
    let mut no_host = parts("https", None, "/");
    no_host.host = None;
    assert!(public_url_plan(&no_host).is_err());
    assert_eq!(trim_trailing_slashes("a/b//"), "a/b");
    assert_eq!(trim_trailing_slashes("///"), "");
}

#[test]
fn pairing_payload_carries_version_url_fingerprint_and_code() {
    let fingerprint = [0xab; 32];
    let payload = pairing_payload("https://runner.example/base", &fingerprint, "code+/=&").unwrap();
    assert!(payload.starts_with("queenui://pair?v=2&url=https%3A%2F%2Frunner.example%2Fbase&fp="));
    let parsed = url::Url::parse(&payload).unwrap();
    let pairs: Vec<(String, String)> =
        parsed.query_pairs().map(|(k, v)| (k.into_owned(), v.into_owned())).collect();
    assert_eq!(
        pairs,
        vec![
            ("v".to_string(), "2".to_string()),
            ("url".to_string(), "https://runner.example/base".to_string()),
            ("fp".to_string(), encode_hex(&fingerprint)),
            ("enroll".to_string(), "code+/=&".to_string()),
        ]
    );
}
