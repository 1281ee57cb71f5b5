use borsh_derive_internal::{contains_initialize_with, contains_skip, Attribute, Meta};

fn attr(path: &[&str], meta: Meta) -> Attribute {
    Attribute { path: path.iter().map(|s| s.to_string()).collect(), meta }
}

#[test]
fn skip_found_on_borsh_skip() {
    let attrs = vec![attr(&["doc"], Meta::NameValue("\" x\"".to_string())), attr(&["borsh_skip"], Meta::Path)];
    assert!(contains_skip(&attrs));
}

#[test]
fn other_borsh_options_are_no_skip() {
    let attrs = vec![
        attr(&["borsh"], Meta::List("serialize_with = \"f\"".to_string())),
        attr(&["borsh"], Meta::List("bound(serialize = \"\")".to_string())),
        attr(&["a", "borsh_skip"], Meta::Path),
    ];
    assert!(!contains_skip(&attrs));
    assert!(!contains_skip(&[]));
}

#[test]
fn initialize_with_borsh_init() {
    let attrs = vec![
        attr(&["borsh"], Meta::List("use_discriminant = true".to_string())),
        attr(&["borsh_init"], Meta::List("init".to_string())),
        attr(&["borsh_init"], Meta::List("later".to_string())),
    ];
    assert_eq!(contains_initialize_with(&attrs), Some("init".to_string()));
}

#[test]
fn initialize_with_absent() {
    let attrs = vec![
        attr(&["borsh"], Meta::NameValue("\"init\"".to_string())),
        attr(&["borsh"], Meta::Path),
        attr(&["borsh_init"], Meta::Path),
        attr(&["doc"], Meta::NameValue("\"x\"".to_string())),
    ];
    assert_eq!(contains_initialize_with(&attrs), None);
    assert_eq!(contains_initialize_with(&[]), None);
}
