use skypier_blackhole::matcher::BlocklistManager;

#[test]
fn test_blocklist() {
    let mut manager = BlocklistManager::new();

    manager.add_domain("example.com".to_string());
    assert!(manager.is_blocked("example.com"));
    assert!(!manager.is_blocked("other.com"));

    manager.remove_domain("example.com");
    assert!(!manager.is_blocked("example.com"));
}

#[test]
fn test_reload() {
    let mut manager = BlocklistManager::new();

    manager.load_domains(vec!["domain1.com".to_string()]);
    assert_eq!(manager.count(), 1);

    manager.reload(vec!["domain2.com".to_string(), "domain3.com".to_string()]);
    assert_eq!(manager.count(), 2);
    assert!(!manager.is_blocked("domain1.com"));
    assert!(manager.is_blocked("domain2.com"));
}

#[test]
fn test_wildcard_basic() {
    let mut manager = BlocklistManager::new();

    // Add wildcard *.example.com
    manager.add_domain("*.example.com".to_string());

    // Should block subdomains
    assert!(manager.is_blocked("sub.example.com"));
    assert!(manager.is_blocked("deep.sub.example.com"));
    assert!(manager.is_blocked("ads.example.com"));

    // Should NOT block the base domain itself
    assert!(!manager.is_blocked("example.com"));

    // Should NOT block unrelated domains
    assert!(!manager.is_blocked("other.com"));
    assert!(!manager.is_blocked("example.org"));
}

#[test]
fn test_wildcard_multi_level() {
    let mut manager = BlocklistManager::new();

    // Add wildcard *.ads.example.com
    manager.add_domain("*.ads.example.com".to_string());

    // Should block subdomains of ads.example.com
    assert!(manager.is_blocked("tracker.ads.example.com"));
    assert!(manager.is_blocked("banner.ads.example.com"));

    // Should NOT block ads.example.com itself
    assert!(!manager.is_blocked("ads.example.com"));

    // Should NOT block parent or sibling domains
    assert!(!manager.is_blocked("example.com"));
    assert!(!manager.is_blocked("cdn.example.com"));
}

#[test]
fn test_wildcard_and_exact() {
    let mut manager = BlocklistManager::new();

    // Add both wildcard and exact matches
    manager.add_domain("*.ads.com".to_string());
    manager.add_domain("exact.com".to_string());

    // Wildcard should work
    assert!(manager.is_blocked("tracker.ads.com"));
    assert!(!manager.is_blocked("ads.com"));

    // Exact should work
    assert!(manager.is_blocked("exact.com"));
    assert!(!manager.is_blocked("sub.exact.com"));

    // Count should include both
    assert_eq!(manager.count(), 2);
}

#[test]
fn test_wildcard_removal() {
    let mut manager = BlocklistManager::new();

    manager.add_domain("*.example.com".to_string());
    assert!(manager.is_blocked("sub.example.com"));

    manager.remove_domain("*.example.com");
    assert!(!manager.is_blocked("sub.example.com"));
}

#[test]
fn test_wildcard_case_insensitive() {
    let mut manager = BlocklistManager::new();

    manager.add_domain("*.Example.COM".to_string());

    // Should match regardless of case
    assert!(manager.is_blocked("sub.example.com"));
    assert!(manager.is_blocked("SUB.EXAMPLE.COM"));
    assert!(manager.is_blocked("Sub.Example.Com"));
}

#[test]
fn test_wildcard_from_file() {
    let mut manager = BlocklistManager::new();

    // Simulate loading from file with mixed content
    let domains = vec![
        "exact1.com".to_string(),
        "*.wildcard.com".to_string(),
        "exact2.com".to_string(),
        "*.ads.example.com".to_string(),
    ];

    manager.load_domains(domains);

    // Exact matches
    assert!(manager.is_blocked("exact1.com"));
    assert!(manager.is_blocked("exact2.com"));

    // Wildcard matches
    assert!(manager.is_blocked("sub.wildcard.com"));
    assert!(manager.is_blocked("tracker.ads.example.com"));

    // Should not match base domains
    assert!(!manager.is_blocked("wildcard.com"));
    assert!(!manager.is_blocked("ads.example.com"));

    assert_eq!(manager.count(), 4);
}

#[test]
fn test_trailing_dot_and_normalization() {
    let mut manager = BlocklistManager::new();
    manager.add_domain("foo.bar".to_string());

    // A single trailing dot on the query is ignored.
    assert!(manager.is_blocked("foo.bar."));
    assert_eq!(manager.is_blocked("foo.bar."), manager.is_blocked("foo.bar"));

    // Upper-cased queries and entries meet in normalized form.
    assert!(manager.is_blocked("FOO.BAR"));

    // Entries with a trailing dot are normalized before storage.
    manager.add_domain("dotted.example.".to_string());
    assert!(manager.is_blocked("dotted.example"));
    assert_eq!(manager.count(), 2);
}

#[test]
fn test_duplicate_entries_collapse() {
    let mut manager = BlocklistManager::new();
    manager.add_domain("dup.com".to_string());
    manager.add_domain("dup.com".to_string());
    manager.add_domain("DUP.com".to_string());
    assert_eq!(manager.count(), 1);

    // Installing the same list twice changes neither the count nor answers.
    manager.load_domains(vec!["dup.com".to_string(), "*.w.com".to_string()]);
    let count_once = manager.count();
    manager.load_domains(vec!["dup.com".to_string(), "*.w.com".to_string()]);
    assert_eq!(manager.count(), count_once);
    assert!(manager.is_blocked("dup.com"));
    assert!(manager.is_blocked("a.w.com"));
}

#[test]
fn test_wildcard_exact_interplay() {
    // A wildcard base is blocked only when an exact entry names it too.
    let mut manager = BlocklistManager::new();
    manager.add_domain("*.ads.example.com".to_string());
    manager.add_domain("other.com".to_string());

    assert!(!manager.is_blocked("ads.example.com"));
    assert!(manager.is_blocked("tracker.ads.example.com"));
    assert!(manager.is_blocked("other.com"));
    assert!(!manager.is_blocked("sub.other.com"));
}

#[test]
fn test_clear_empties_policy() {
    let mut manager = BlocklistManager::new();
    manager.load_domains(vec!["a.com".to_string(), "*.b.com".to_string()]);
    assert_eq!(manager.count(), 2);
    manager.clear();
    assert_eq!(manager.count(), 0);
    assert!(!manager.is_blocked("a.com"));
    assert!(!manager.is_blocked("x.b.com"));
}

#[test]
fn test_reload_is_atomic_value_swap() {
    // A reload replaces the whole policy: afterwards only the new entries
    // answer, exactly as if the old policy had never existed.
    let mut manager = BlocklistManager::new();
    manager.reload(vec!["a.example.com".to_string()]);
    assert!(manager.is_blocked("a.example.com"));
    assert!(!manager.is_blocked("b.example.com"));

    manager.reload(vec!["b.example.com".to_string()]);
    assert!(!manager.is_blocked("a.example.com"));
    assert!(manager.is_blocked("b.example.com"));
    assert_eq!(manager.count(), 1);
}
