//! Settings of the tracing bridge.

use tessera::observability::init_otlp_tracing;

#[test]
fn init_with_empty_endpoint_is_noop() {
    assert!(init_otlp_tracing("", "tessera").unwrap().is_none());
}

#[test]
fn blank_endpoints_disable_tracing() {
    assert!(init_otlp_tracing(" \t\n", "tessera").unwrap().is_none());
    assert!(init_otlp_tracing("\u{3000}\u{85}", "tessera").unwrap().is_none());
}

#[test]
fn an_endpoint_is_taken_as_given() {
    let s = init_otlp_tracing(" http://localhost:4317", "tessera")
        .unwrap()
        .unwrap();
    assert_eq!(s.endpoint, " http://localhost:4317");
    assert_eq!(s.service_name, "tessera");
}

#[test]
fn blankness_is_what_trimming_leaves_nothing_of() {
    for c in (0..0x3100u32).filter_map(char::from_u32) {
        let text = c.to_string();
        assert_eq!(
            init_otlp_tracing(&text, "tessera").unwrap().is_none(),
            text.trim().is_empty(),
            "U+{:04X}",
            c as u32
        );
    }
}
