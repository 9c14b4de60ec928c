use my_dns::domain::Domain;

#[test]
fn test_new_with_empty_string() {
    let domain = Domain::new("".to_string());
    assert!(domain.is_root());
}

#[test]
fn test_new_with_dot() {
    let domain = Domain::new(".".to_string());
    assert!(domain.is_root());
}

#[test]
fn test_new_with_domain() {
    let domain = Domain::new("example.com".to_string());
    assert_eq!(domain.getparts(), &vec!["example".to_string(), "com".to_string()]);
}

#[test]
fn test_trailing_dot_domain() {
    let domain = Domain::new("example.com".to_string());
    let domain2 = Domain::new("example.com.".to_string());
    assert_eq!(domain.to_string(), domain2.to_string());
}

#[test]
fn test_is_subdomain_of() {
    let example_com = Domain::new("example.com".to_string());
    let foo_example_com = Domain::new("foo.example.com".to_string());
    let bar_foo_example_com = Domain::new("bar.foo.example.com".to_string());
    let root_with_dot = Domain::new(".".to_string());
    let root_without_dot = Domain::new("".to_string());

    assert!(foo_example_com.is_subdomain_of(&example_com));
    assert!(!example_com.is_subdomain_of(&foo_example_com));
    assert!(bar_foo_example_com.is_subdomain_of(&foo_example_com));
    assert!(!foo_example_com.is_subdomain_of(&bar_foo_example_com));
    assert!(!root_with_dot.is_subdomain_of(&foo_example_com));
    assert!(!root_without_dot.is_subdomain_of(&foo_example_com));
}

#[test]
fn test_is_root() {
    let domain = Domain::new("".to_string());
    assert!(domain.is_root());

    let domain = Domain::new(".".to_string());
    assert!(domain.is_root());

    let domain = Domain::new("example.com".to_string());
    assert!(!domain.is_root());
}

#[test]
fn test_to_string() {
    let mut domain = Domain::new("".to_string());
    assert_eq!(domain.to_string(), ".");

    domain.set_parts(vec!["example".to_string(), "com".to_string()]);
    assert_eq!(domain.to_string(), "example.com");

    domain.set_parts(vec![]);
    assert_eq!(domain.to_string(), ".");
}

#[test]
fn subdomain_is_reflexive() {
    for text in ["example.com", "a.b.example.com.", "com", "x..y"] {
        let a = Domain::new(text.to_string());
        let b = Domain::new(text.to_string());
        assert!(a.is_subdomain_of(&b));
    }
}

#[test]
fn every_domain_is_below_root() {
    let root = Domain::new_empty();
    for text in ["example.com", "www.example.com.", "", "."] {
        assert!(Domain::new(text.to_string()).is_subdomain_of(&root));
    }
}

#[test]
fn parse_keeps_empty_inner_labels_and_drops_trailing_dots() {
    let d = Domain::new("a..b...".to_string());
    assert_eq!(d.getparts(), &vec!["a".to_string(), "".to_string(), "b".to_string()]);
    let d = Domain::new("..".to_string());
    assert!(d.is_root());
    let d = Domain::new(".a".to_string());
    assert_eq!(d.getparts(), &vec!["".to_string(), "a".to_string()]);
}

#[test]
fn qualified_text_ends_with_dot() {
    let d = Domain::new("www.example.com".to_string());
    assert_eq!(d.to_qualified_string(), "www.example.com.");
    assert_eq!(Domain::new_empty().to_qualified_string(), ".");
    assert_eq!(d.label_count(), 3);
}

#[test]
fn equality_compares_labels() {
    assert_eq!(Domain::new("example.com".to_string()), Domain::new("example.com.".to_string()));
    assert_ne!(Domain::new("example.com".to_string()), Domain::new("example.org".to_string()));
    assert!(!Domain::new("ample.com".to_string()).is_subdomain_of(&Domain::new("example.com".to_string())));
}
