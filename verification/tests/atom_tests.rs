use portage_tools::Atom;
use portage_tools::AtomVersionOperator;
use portage_tools::ParseError;

fn atom(cat: &str, pkg: &str) -> Atom {
    Atom::new(cat.to_string(), pkg.to_string(), None)
}

fn vatom(op: AtomVersionOperator, cat: &str, pkg: &str, ver: &str) -> Atom {
    Atom::new(cat.to_string(), pkg.to_string(), Some((op, ver.to_string())))
}

#[test]
fn parse_unversioned_yields_no_constraint() {
    let a = Atom::try_from("category/package").unwrap();
    assert_eq!(a, atom("category", "package"));
    assert_eq!(a.render(), "category/package");
}

#[test]
fn parse_versioned_each_operator() {
    let cases = vec![
        ("<", AtomVersionOperator::LessThan),
        ("<=", AtomVersionOperator::LessOrEqual),
        ("=", AtomVersionOperator::Equal),
        (">=", AtomVersionOperator::GreaterOrEqual),
        (">", AtomVersionOperator::GreaterThan),
    ];
    for (tok, op) in cases {
        let text = format!("{}category/package-1.0", tok);
        let a = Atom::try_from(&text).unwrap();
        assert_eq!(a, vatom(op, "category", "package", "1.0"));
        assert_eq!(a.render(), text);
    }
}

#[test]
fn roundtrip_canonical_texts() {
    let texts = vec![
        "cat/pkg",
        "=cat/pkg-1.0",
        "<=a/b-2.3.4",
        ">=x/y-0abc",
        ">cat/pkg-1.0-r1",
        "=cat/pkg-1",
        "a/b/c",
    ];
    for t in texts {
        let a = Atom::try_from(t).unwrap();
        assert_eq!(a.render(), t);
    }
}

#[test]
fn parse_invalid_no_slash() {
    match Atom::try_from("invalid-no-slash") {
        Err(ParseError::InvalidAtom { text }) => assert_eq!(text, "invalid-no-slash"),
        other => panic!("expected an invalid-atom error, got {:?}", other),
    }
}

#[test]
fn parse_unrecognized_operator() {
    match Atom::try_from(">>category/package-1.0") {
        Err(ParseError::InvalidVersionOperator { token }) => assert_eq!(token, ">>"),
        other => panic!("expected an invalid-operator error, got {:?}", other),
    }
}

#[test]
fn equality_is_structural() {
    assert_eq!(
        Atom::try_from("cat/pkg").unwrap(),
        Atom::try_from("cat/pkg").unwrap()
    );
    assert_ne!(
        Atom::try_from("cat/pkg").unwrap(),
        Atom::try_from("=cat/pkg-1.0").unwrap()
    );
    assert_ne!(atom("a", "b"), vatom(AtomVersionOperator::Equal, "a", "b", "1.0"));
    assert_ne!(
        vatom(AtomVersionOperator::LessThan, "a", "b", "1.0"),
        vatom(AtomVersionOperator::GreaterThan, "a", "b", "1.0")
    );
}

#[test]
fn operator_token_roundtrip() {
    let cases = vec![
        ("<", AtomVersionOperator::LessThan),
        ("<=", AtomVersionOperator::LessOrEqual),
        ("=", AtomVersionOperator::Equal),
        (">=", AtomVersionOperator::GreaterOrEqual),
        (">", AtomVersionOperator::GreaterThan),
    ];
    for (tok, op) in cases {
        assert_eq!(AtomVersionOperator::try_from(tok).unwrap(), op);
        assert_eq!(op.token(), tok);
    }
    assert!(matches!(
        AtomVersionOperator::try_from("=="),
        Err(ParseError::InvalidVersionOperator { .. })
    ));
}

#[test]
fn version_split_uses_rightmost_digit_led_hyphen() {
    let a = Atom::try_from("=cat/pkg-1-2x").unwrap();
    assert_eq!(a, vatom(AtomVersionOperator::Equal, "cat", "pkg-1", "2x"));
    let b = Atom::try_from(">cat/pkg-1.0-r1").unwrap();
    assert_eq!(b, vatom(AtomVersionOperator::GreaterThan, "cat", "pkg", "1.0-r1"));
}

#[test]
fn category_split_uses_rightmost_slash() {
    let a = Atom::try_from("a/b/c").unwrap();
    assert_eq!(a, atom("a/b", "c"));
}

#[test]
fn single_digit_version_parses() {
    let a = Atom::try_from("=cat/pkg-1").unwrap();
    assert_eq!(a, vatom(AtomVersionOperator::Equal, "cat", "pkg", "1"));
    assert_eq!(a.render(), "=cat/pkg-1");
}

#[test]
fn render_versioned_atom() {
    let a = vatom(
        AtomVersionOperator::GreaterOrEqual,
        "sys-apps",
        "portage",
        "3.0.30",
    );
    assert_eq!(a.render(), ">=sys-apps/portage-3.0.30");
}

#[test]
fn in_world_set_matches_exact_lines() {
    let world = vec![
        "app-editors/vim".to_string(),
        "sys-apps/portage".to_string(),
    ];
    assert!(atom("app-editors", "vim").in_world_set(&world));
    assert!(!atom("app-editors", "emacs").in_world_set(&world));
    assert!(!atom("app-editors", "vi").in_world_set(&world));
}
