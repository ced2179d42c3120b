use colophon::identity::{to_base36, Id, IdentityPolicy, Minter, NoIdentity, Registration};

#[test]
fn no_identity_is_off() {
    assert!(!NoIdentity.registration().is_active());
}

#[test]
fn lazy_registers_on_link_and_publish_only() {
    let p = Minter::lazy();
    let r = p.registration();
    assert!(!r.on_create && r.on_link && r.on_publish);
}

#[test]
fn eager_registers_on_create() {
    assert!(Minter::eager().registration().on_create);
}

#[test]
fn mints_distinct_ids() {
    let mut p = Minter::eager();
    let a = p.mint("a.md");
    let b = p.mint("b.md");
    assert_ne!(a, b);
    assert_eq!(a, Id("0".into()));
    assert_eq!(b, Id("1".into()));
}

#[test]
fn base36_wraps_past_ten() {
    assert_eq!(to_base36(35), "z");
    assert_eq!(to_base36(36), "10");
}

#[test]
fn base36_of_known_values() {
    assert_eq!(to_base36(0), "0");
    assert_eq!(to_base36(9), "9");
    assert_eq!(to_base36(10), "a");
    assert_eq!(to_base36(36 * 36 - 1), "zz");
    assert_eq!(to_base36(u64::MAX), "3w5e11264sgsf");
}

#[test]
fn minted_ids_follow_the_sequence() {
    let mut p = Minter::with(Registration::lazy());
    let ids: Vec<Id> = (0..37).map(|_| p.mint("x.md")).collect();
    assert_eq!(ids[10], Id("a".into()));
    assert_eq!(ids[36], Id("10".into()));
    let mut seen = std::collections::HashSet::new();
    assert!(ids.iter().all(|id| seen.insert(id.clone())));
}

#[test]
fn activity_follows_the_triggers() {
    assert!(!Registration::off().is_active());
    assert!(Registration::lazy().is_active());
    assert!(Registration::eager().is_active());
    assert!(Registration { on_create: false, on_link: false, on_publish: true }.is_active());
}

#[test]
fn no_identity_mints_nothing_meaningful() {
    let mut p = NoIdentity;
    assert_eq!(p.mint("a.md"), Id(String::new()));
}

#[test]
fn base36_spellings_parse_back_without_leading_zeros() {
    for n in [0u64, 1, 35, 36, 1295, 1296, 46655, 123_456_789, u64::MAX] {
        let s = to_base36(n);
        assert!(!s.is_empty());
        assert!(s.chars().all(|c| c.is_ascii_digit() || c.is_ascii_lowercase()));
        assert!(s == "0" || !s.starts_with('0'));
        assert_eq!(u64::from_str_radix(&s, 36), Ok(n));
    }
}
