use cf::network::{build_default_headers, ACCEPT_ENCODING, CHROME_UA};

#[test]
fn default_headers_in_order() {
    let h = build_default_headers();
    assert_eq!(h.len(), 11);
    assert_eq!(h[0].0, "accept");
    assert_eq!(h[2], ("user-agent".to_string(), CHROME_UA.to_string()));
    assert_eq!(h[10], ("accept-encoding".to_string(), ACCEPT_ENCODING.to_string()));
    assert_eq!(h[5].1, "\"Windows\"");
    assert!(CHROME_UA.contains("Chrome/136.0.0.0"));
}
