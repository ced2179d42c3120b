use colophon::identity::Id;
use colophon::records::RecordSet;

#[test]
fn records_stay_sorted_and_upsert_in_place() {
    let mut r = RecordSet::new();
    r.upsert(&Id("m".into()), Some("m.md".into()));
    r.upsert(&Id("b".into()), None);
    r.upsert(&Id("z".into()), Some("z.md".into()));
    r.upsert(&Id("m".into()), None);
    let ids: Vec<(&str, Option<&str>)> = r.as_slice().iter().map(|(i, v)| (i.as_str(), v.as_deref())).collect();
    assert_eq!(ids, vec![("b", None), ("m", None), ("z", Some("z.md"))]);
    assert_eq!(r.len(), 3);
    assert_eq!(r.get(&Id("z".into())), Some(Some("z.md".to_string())));
    assert_eq!(r.get(&Id("b".into())), Some(None));
    assert_eq!(r.get(&Id("q".into())), None);
}

#[test]
fn same_records_compare_equal_whatever_the_insertion_order() {
    let mut a = RecordSet::new();
    a.upsert(&Id("x".into()), Some("x.md".into()));
    a.upsert(&Id("y".into()), None);
    let mut b = RecordSet::new();
    b.upsert(&Id("y".into()), None);
    b.upsert(&Id("x".into()), Some("x.md".into()));
    assert!(a.same_as(&b));
    b.upsert(&Id("x".into()), Some("moved.md".into()));
    assert!(!a.same_as(&b));
}
