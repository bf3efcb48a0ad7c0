use cargo_overlay_registry::quote::get_quote;

#[test]
fn test_get_quote() {
    let q = get_quote();
    assert!(!q.is_empty());
    assert!(q.contains("Steve Jobs"));
}
