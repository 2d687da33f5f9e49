use pw_cli::command::{identifiers, render_bullets};
use pw_cli::entry::{derive_identifier, str_eq, Entry};

#[test]
fn identifier_with_tag_joins_key_and_tag() {
    assert_eq!(derive_identifier("db", Some("prod")), "db:prod");
}

#[test]
fn identifier_without_tag_is_the_key() {
    assert_eq!(derive_identifier("db", None), "db");
}

#[test]
fn identifier_with_empty_parts() {
    assert_eq!(derive_identifier("", Some("")), ":");
    assert_eq!(derive_identifier("", None), "");
}

#[test]
fn identifier_collision_between_key_and_tag() {
    assert_eq!(derive_identifier("a:b", None), derive_identifier("a", Some("b")));
}

#[test]
fn identifiers_differ_for_distinct_plain_pairs() {
    assert_ne!(derive_identifier("a", Some("b")), derive_identifier("a", None));
    assert_ne!(derive_identifier("a", Some("b")), derive_identifier("a", Some("c")));
    assert_ne!(derive_identifier("ab", None), derive_identifier("a", Some("b")));
}

#[test]
fn entry_identifier_matches_derivation() {
    let e = Entry::new("mail".to_string(), Some("work".to_string()));
    assert_eq!(e.identifier(), "mail:work");
    assert_eq!(Entry::new("mail".to_string(), None).identifier(), "mail");
}

#[test]
fn entry_is_compares_key_and_tag() {
    let e = Entry::new("k".to_string(), Some("t".to_string()));
    assert!(e.is("k", Some("t")));
    assert!(!e.is("k", None));
    assert!(!e.is("k", Some("u")));
    assert!(!e.is("j", Some("t")));
    assert_eq!(e.duplicate(), e);
}

#[test]
fn str_eq_compares_by_character() {
    assert!(str_eq("héllo", "héllo"));
    assert!(!str_eq("hello", "hellò"));
    assert!(!str_eq("abc", "ab"));
    assert!(str_eq("", ""));
}

#[test]
fn identifiers_follow_entry_order() {
    let v = vec![
        Entry::new("db".to_string(), None),
        Entry::new("db".to_string(), Some("prod".to_string())),
    ];
    assert_eq!(identifiers(&v), vec!["db".to_string(), "db:prod".to_string()]);
}

#[test]
fn bullets_render_one_line_each() {
    let ids = vec!["db".to_string(), "db:prod".to_string()];
    assert_eq!(render_bullets(&ids), "* db\n* db:prod");
    assert_eq!(render_bullets(&vec!["x".to_string()]), "* x");
    assert_eq!(render_bullets(&Vec::new()), "");
}
