use m87::router::{decide_route, forward_sni_host, forward_url, Route};

#[test]
fn test_route_apex_to_rest() {
    assert_eq!(decide_route("nexus.example.test", "nexus.example.test"), Route::Rest);
}

#[test]
fn test_route_control_prefix() {
    assert_eq!(decide_route("control.nexus.example.test", "nexus.example.test"), Route::Control);
}

#[test]
fn test_route_forward_labels() {
    assert_eq!(decide_route("4a1d62.nexus.example.test", "nexus.example.test"), Route::Forward);
    assert_eq!(
        decide_route("web.4a1d62.nexus.example.test", "nexus.example.test"),
        Route::Forward
    );
}

#[test]
fn test_route_closes_everything_else() {
    assert_eq!(decide_route("", "nexus.example.test"), Route::Close);
    assert_eq!(decide_route("other.host", "nexus.example.test"), Route::Close);
    assert_eq!(decide_route(".nexus.example.test", "nexus.example.test"), Route::Close);
    assert_eq!(
        decide_route("a.b.c.nexus.example.test", "nexus.example.test"),
        Route::Close
    );
    assert_eq!(decide_route("a..nexus.example.test", "nexus.example.test"), Route::Close);
}

#[test]
fn test_forward_sni_host_builder() {
    // the spec's canonical forward name and the two-label variant
    assert_eq!(forward_sni_host("", "4a1d62", "example.test"), "4a1d62.example.test");
    assert_eq!(forward_sni_host("web", "4a1d62", "example.test"), "web.4a1d62.example.test");
    assert_eq!(
        forward_url("https://", "4a1d62.example.test"),
        "https://4a1d62.example.test"
    );
    // and the built names dispatch to the forward handler
    assert_eq!(
        decide_route(&forward_sni_host("", "4a1d62", "example.test"), "example.test"),
        Route::Forward
    );
    assert_eq!(
        decide_route(&forward_sni_host("web", "4a1d62", "example.test"), "example.test"),
        Route::Forward
    );
}
