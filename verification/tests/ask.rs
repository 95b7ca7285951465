use devhub::ask::concise_error;

#[test]
fn short_errors_are_trimmed_only() {
    assert_eq!(concise_error("  provider refused the request \n"), "provider refused the request");
    assert_eq!(concise_error(""), "");
}

#[test]
fn long_errors_keep_their_first_180_bytes() {
    let exact = "x".repeat(180);
    assert_eq!(concise_error(&exact), exact);
    let long = format!("{}{}", "a".repeat(180), "b".repeat(40));
    assert_eq!(concise_error(&long), format!("{}...", "a".repeat(180)));
    let wide = format!("{}{}", "é".repeat(90), "tail");
    assert_eq!(concise_error(&wide), format!("{}...", "é".repeat(90)));
}
