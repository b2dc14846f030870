use codex_logic::proxy_bypass::proxy_bypass_matches_origin;
use codex_logic::proxy_bypass::RequestOrigin;

fn origin(host: &str) -> RequestOrigin {
    RequestOrigin { scheme: "https".to_string(), host: host.to_string(), port: 443 }
}

#[test]
fn proxy_bypass_matches_whitespace_separated_winhttp_entries() {
    let local_origin = RequestOrigin {
        scheme: "https".to_string(),
        host: "intranet".to_string(),
        port: 443,
    };
    assert!(proxy_bypass_matches_origin("<local> *.corp", &local_origin));

    let corp_origin = RequestOrigin {
        scheme: "https".to_string(),
        host: "service.corp".to_string(),
        port: 443,
    };
    assert!(proxy_bypass_matches_origin("<local> *.corp", &corp_origin));
}

#[test]
fn proxy_bypass_rejects_unlisted_hosts() {
    assert!(!proxy_bypass_matches_origin("<local> *.corp", &origin("example.com")));
    assert!(!proxy_bypass_matches_origin("", &origin("intranet")));
    assert!(!proxy_bypass_matches_origin("*.corp", &origin("intranet")));
}

#[test]
fn proxy_bypass_entries_by_semicolon_case_insensitive() {
    assert!(proxy_bypass_matches_origin("foo.com;Example.COM", &origin("example.com")));
    assert!(proxy_bypass_matches_origin(" ;*.Corp; ", &origin("A.CORP")));
    assert!(!proxy_bypass_matches_origin("example.com", &origin("www.example.com")));
    assert!(proxy_bypass_matches_origin("*", &origin("anything.at.all")));
}
