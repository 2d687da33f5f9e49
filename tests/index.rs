use pw_cli::entry::Entry;
use pw_cli::index::{Index, TagFilter};

fn pairs(v: &[Entry]) -> Vec<(String, Option<String>)> {
    v.iter().map(|e| (e.key.clone(), e.tag.clone())).collect()
}

fn make_entry(k: &str, t: Option<&str>) -> Entry {
    Entry::new(k.to_string(), t.map(|s| s.to_string()))
}

#[test]
fn new_index_is_empty() {
    let i = Index::new();
    assert!(i.is_empty());
    assert_eq!(i.len(), 0);
    assert!(i.to_entries().is_empty());
}

#[test]
fn register_is_idempotent() {
    let mut i = Index::new();
    assert!(i.register("k".to_string(), Some("t".to_string())));
    let after_first = pairs(&i.to_entries());
    assert!(!i.register("k".to_string(), Some("t".to_string())));
    assert_eq!(pairs(&i.to_entries()), after_first);
    assert_eq!(i.len(), 1);
}

#[test]
fn register_tells_tag_presence_apart() {
    let mut i = Index::new();
    assert!(i.register("k".to_string(), None));
    assert!(i.register("k".to_string(), Some("t".to_string())));
    assert!(i.register("k".to_string(), Some("".to_string())));
    assert_eq!(i.len(), 3);
    assert!(i.contains("k", None));
    assert!(i.contains("k", Some("")));
    assert!(!i.contains("k", Some("u")));
}

#[test]
fn unregister_removes_only_the_exact_entry() {
    let mut i = Index::new();
    i.register("a".to_string(), None);
    i.register("b".to_string(), Some("x".to_string()));
    i.register("c".to_string(), None);
    assert!(!i.unregister("b", None));
    assert_eq!(i.len(), 3);
    assert!(i.unregister("b", Some("x")));
    assert_eq!(
        pairs(&i.to_entries()),
        vec![("a".to_string(), None), ("c".to_string(), None)]
    );
    assert!(!i.unregister("b", Some("x")));
}

#[test]
fn entries_round_trip() {
    let mut i = Index::new();
    i.register("k1".to_string(), None);
    i.register("k2".to_string(), Some("x".to_string()));
    i.register("k1".to_string(), Some("y".to_string()));
    let saved = i.to_entries();
    let loaded = Index::from_entries(&saved);
    assert_eq!(loaded.to_entries(), saved);
    let again = Index::from_entries(&loaded.to_entries());
    assert_eq!(again.to_entries(), saved);
}

#[test]
fn from_entries_drops_repeats() {
    let v = vec![make_entry("a", None), make_entry("b", Some("t")), make_entry("a", None)];
    let i = Index::from_entries(&v);
    assert_eq!(i.to_entries(), vec![make_entry("a", None), make_entry("b", Some("t"))]);
}

#[test]
fn find_matches_by_key_and_tag() {
    let i = Index::from_entries(&vec![
        make_entry("k", None),
        make_entry("j", Some("a")),
        make_entry("k", Some("a")),
    ]);
    assert_eq!(i.find_matches("k", None), vec![make_entry("k", None), make_entry("k", Some("a"))]);
    assert_eq!(i.find_matches("k", Some("a")), vec![make_entry("k", Some("a"))]);
    assert!(i.find_matches("k", Some("b")).is_empty());
    assert!(i.find_matches("z", None).is_empty());
}

#[test]
fn list_no_tag_only() {
    let i = Index::from_entries(&vec![make_entry("k1", None), make_entry("k2", Some("x"))]);
    assert_eq!(i.list(&TagFilter::NoTagOnly), vec![make_entry("k1", None)]);
}

#[test]
fn list_by_tag_and_unfiltered() {
    let i = Index::from_entries(&vec![
        make_entry("k1", None),
        make_entry("k2", Some("x")),
        make_entry("k3", Some("y")),
    ]);
    assert_eq!(i.list(&TagFilter::Tag("x".to_string())), vec![make_entry("k2", Some("x"))]);
    assert!(i.list(&TagFilter::Tag("z".to_string())).is_empty());
    assert_eq!(i.list(&TagFilter::All).len(), 3);
    assert!(Index::new().list(&TagFilter::All).is_empty());
}
