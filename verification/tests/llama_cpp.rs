use ezllama::llama_cpp::{compute_cap_to_architecture, parse_compute_caps};

#[test]
fn compute_capability_is_converted_to_cmake_architecture() {
    assert_eq!(compute_cap_to_architecture("6.1").as_deref(), Some("61"));
    assert_eq!(compute_cap_to_architecture("8.9").as_deref(), Some("89"));
    assert_eq!(compute_cap_to_architecture("9.0").as_deref(), Some("90"));
}

#[test]
fn multiple_gpus_are_deduplicated_and_sorted() {
    let output = "8.9\n6.1\n8.9\n";
    assert_eq!(parse_compute_caps(output).as_deref(), Some("61;89"));
}

#[test]
fn invalid_compute_capability_is_rejected() {
    assert!(compute_cap_to_architecture("not-supported").is_none());
    assert!(parse_compute_caps("6.1\nnot-supported\n").is_none());
}
