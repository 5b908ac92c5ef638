use af_coding_challenge::invocation::invocation_from_args;

fn args(list: &[&str]) -> Vec<String> {
    list.iter().map(|s| s.to_string()).collect()
}

#[test]
fn three_arguments_make_an_invocation() {
    let inv = invocation_from_args(&args(&["finder", "47.6", "-122.4", "https://example.com/data.csv"]))
        .unwrap();
    assert_eq!(inv.y, "47.6");
    assert_eq!(inv.x, "-122.4");
    assert_eq!(inv.url, "https://example.com/data.csv");
}

#[test]
fn missing_arguments_are_refused() {
    assert!(invocation_from_args(&args(&["finder", "47.6", "-122.4"])).is_none());
    assert!(invocation_from_args(&args(&[])).is_none());
    assert!(invocation_from_args(&args(&["finder", "1", "2", "3", "4"])).is_none());
}
