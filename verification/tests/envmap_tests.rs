use portage_tools::Atom;
use portage_tools::AtomEnvironmentMap;
use portage_tools::ParseError;
use portage_tools::envmap::find_conflict;

fn lines(texts: &[&str]) -> Vec<String> {
    texts.iter().map(|t| t.to_string()).collect()
}

#[test]
fn new_map_is_empty_and_named_by_its_path() {
    let m = AtomEnvironmentMap::new("/etc/portage/package.env", "no-lto");
    assert_eq!(m.name(), "/etc/portage/package.env/no-lto");
    assert_eq!(m.atoms().len(), 0);
}

#[test]
fn empty_store_loads_to_empty_set() {
    let mut m = AtomEnvironmentMap::new("/tmp/env", "default");
    assert!(m.load_lines(&lines(&[])).is_ok());
    assert_eq!(m.atoms().len(), 0);
}

#[test]
fn blank_lines_and_trailing_tokens_are_ignored() {
    let mut m = AtomEnvironmentMap::new("/tmp/env", "default");
    let store = lines(&[
        "app-editors/vim extra tokens ignored",
        "",
        "   \t  ",
        "\u{00A0}\u{2003}",
        "dev-lang/rust\u{000B}tail",
        "=sys-apps/portage-3.0",
    ]);
    assert!(m.load_lines(&store).is_ok());
    assert_eq!(m.atoms().len(), 3);
    assert!(m.contains(&Atom::try_from("app-editors/vim").unwrap()));
    assert!(m.contains(&Atom::try_from("dev-lang/rust").unwrap()));
    assert!(m.contains(&Atom::try_from("=sys-apps/portage-3.0").unwrap()));
}

#[test]
fn duplicate_lines_keep_set_semantics() {
    let mut m = AtomEnvironmentMap::new("/tmp/env", "default");
    assert!(m.load_lines(&lines(&["a/b", "a/b", "a/b x"])).is_ok());
    assert_eq!(m.atoms().len(), 1);
}

#[test]
fn reload_is_monotonic() {
    let mut m = AtomEnvironmentMap::new("/tmp/env", "default");
    assert!(m.load_lines(&lines(&["cat/a", "cat/b"])).is_ok());
    assert_eq!(m.atoms().len(), 2);
    // The store changed outside: `cat/b` was removed, `cat/c` appended.
    assert!(m.load_lines(&lines(&["cat/a", "cat/c"])).is_ok());
    assert_eq!(m.atoms().len(), 3);
    assert!(m.contains(&Atom::try_from("cat/a").unwrap()));
    assert!(m.contains(&Atom::try_from("cat/b").unwrap()));
    assert!(m.contains(&Atom::try_from("cat/c").unwrap()));
}

#[test]
fn load_aborts_on_first_bad_line() {
    let mut m = AtomEnvironmentMap::new("/tmp/env", "default");
    let r = m.load_lines(&lines(&["cat/a", "nonsense", "cat/b"]));
    match r {
        Err(ParseError::InvalidAtom { text }) => assert_eq!(text, "nonsense"),
        other => panic!("expected an invalid-atom error, got {:?}", other),
    }
    assert!(m.contains(&Atom::try_from("cat/a").unwrap()));
    assert!(!m.contains(&Atom::try_from("cat/b").unwrap()));
}

#[test]
fn load_aborts_on_bad_operator() {
    let mut m = AtomEnvironmentMap::new("/tmp/env", "default");
    let r = m.load_lines(&lines(&[">>cat/pkg-1.0"]));
    match r {
        Err(ParseError::InvalidVersionOperator { token }) => assert_eq!(token, ">>"),
        other => panic!("expected an invalid-operator error, got {:?}", other),
    }
    assert_eq!(m.atoms().len(), 0);
}

#[test]
fn insert_deduplicates() {
    let mut m = AtomEnvironmentMap::new("/tmp/env", "default");
    assert!(m.insert(Atom::try_from("cat/a").unwrap()));
    assert!(!m.insert(Atom::try_from("cat/a").unwrap()));
    assert_eq!(m.atoms().len(), 1);
}

#[test]
fn cross_mapping_conflict_names_the_holder() {
    let mut m1 = AtomEnvironmentMap::new("/tmp/env", "no-lto");
    let mut m2 = AtomEnvironmentMap::new("/tmp/env", "debug");
    assert!(m1.load_lines(&lines(&["app-editors/vim"])).is_ok());
    assert!(m2.load_lines(&lines(&[])).is_ok());
    let maps = vec![m1, m2];

    let held = Atom::try_from("app-editors/vim").unwrap();
    let i = find_conflict(&maps, &held).unwrap();
    assert_eq!(i, 0);
    assert_eq!(maps[i].name(), "/tmp/env/no-lto");
    assert_eq!(maps[1].atoms().len(), 0);

    let fresh = Atom::try_from("app-editors/emacs").unwrap();
    assert!(find_conflict(&maps, &fresh).is_none());
}
