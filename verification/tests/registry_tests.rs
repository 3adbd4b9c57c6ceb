use syntree::{resolve, SUPPORTED_ABI};

#[test]
fn resolve_known_languages() {
    let rust = resolve("Rust").unwrap();
    assert_eq!(rust.id, 12);
    assert_eq!(rust.abi, SUPPORTED_ABI);
    let c = resolve("C").unwrap();
    assert_eq!(c.id, 1);
    assert_eq!(resolve("JSON").unwrap().id, 9);
    assert_eq!(resolve("Regular Expression").unwrap().id, 11);
    assert_eq!(resolve("TypeScript").unwrap().id, 14);
}

#[test]
fn resolve_total_on_arbitrary_input() {
    // never panics, yields nothing for anything unknown
    assert!(resolve("").is_none());
    assert!(resolve("rust").is_none()); // case-sensitive, exact
    assert!(resolve("Rust ").is_none());
    assert!(resolve("Swift").is_none());
    assert!(resolve("C++").is_none());
    assert!(resolve("\u{0}weird\u{7f}").is_none());
    let long = "x".repeat(10_000);
    assert!(resolve(&long).is_none());
}

#[test]
fn shared_handles_are_equal() {
    assert_eq!(resolve("Go"), resolve("Go"));
    assert_ne!(resolve("Go"), resolve("Java"));
}
