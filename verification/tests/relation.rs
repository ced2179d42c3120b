use colophon::document::Document;
use colophon::meta::{Mapping, Value};
use colophon::relation::{Cardinality, Edge, Relation, RelationSet};

fn doc(text: &str) -> Document {
    Document::parse("index.md", text).unwrap()
}

/// The metadata `contents: [..]` + `part_of: ..` a document declares.
fn meta(pairs: &[(&str, Value)]) -> Value {
    let mut m = Mapping::new();
    for (k, v) in pairs {
        m.insert((*k).to_string(), clone_value(v));
    }
    Value::Mapping(m)
}

fn clone_value(v: &Value) -> Value {
    match v {
        Value::String(s) => Value::String(s.clone()),
        Value::Sequence(items) => Value::Sequence(items.iter().map(clone_value).collect()),
        Value::Bool(b) => Value::Bool(*b),
        Value::Int(i) => Value::Int(*i),
        _ => Value::Null,
    }
}

fn list(items: &[&str]) -> Value {
    Value::Sequence(items.iter().map(|s| Value::String((*s).to_string())).collect())
}

#[test]
fn extracts_edges_tagged_by_relation() {
    let d = doc("---\ncontents:\n- a.md\n- b.md\npart_of: ../root.md\n---\nbody\n");
    let set = RelationSet::diaryx();
    let edges = set.edges(&d.meta);
    assert_eq!(edges.len(), 3);
    assert!(edges.contains(&Edge { relation: "contents".into(), target: "a.md".into() }));
    assert!(edges.contains(&Edge { relation: "part_of".into(), target: "../root.md".into() }));
}

#[test]
fn children_reads_the_spanning_relation() {
    let d = doc("---\ncontents:\n- a.md\n- b.md\n---\nbody\n");
    let set = RelationSet::diaryx();
    assert_eq!(set.children(&d.meta), vec!["a.md".to_string(), "b.md".to_string()]);
    assert_eq!(set.spanning_relation(), Some("contents"));
}

#[test]
fn custom_vocabulary_is_honored() {
    let set = RelationSet::new()
        .with(Relation::many("part").inverse("whole"))
        .with(Relation::one("whole").inverse("part"))
        .spanning("part");
    let d = doc("---\npart:\n- one.md\n- two.md\n---\nbody\n");
    assert_eq!(set.children(&d.meta), vec!["one.md".to_string(), "two.md".to_string()]);
}

#[test]
fn edges_follow_relation_order_then_field_order() {
    let m = meta(&[
        ("links", list(&["x.md", "y.md"])),
        ("contents", list(&["a.md"])),
        ("title", Value::String("T".into())),
    ]);
    let edges = RelationSet::diaryx().edges(&m);
    let pairs: Vec<(&str, &str)> = edges.iter().map(|e| (e.relation.as_str(), e.target.as_str())).collect();
    assert_eq!(pairs, vec![("contents", "a.md"), ("links", "x.md"), ("links", "y.md")]);
}

#[test]
fn non_string_link_values_declare_nothing() {
    let m = meta(&[("contents", Value::Sequence(vec![Value::Int(3), Value::String("a.md".into()), Value::Bool(true)]))]);
    assert_eq!(RelationSet::diaryx().children(&m), vec!["a.md".to_string()]);
    let m = meta(&[("contents", Value::Int(7))]);
    assert!(RelationSet::diaryx().children(&m).is_empty());
    assert!(RelationSet::new().children(&m).is_empty());
    assert!(RelationSet::diaryx().edges(&Value::Null).is_empty());
}

#[test]
fn the_diaryx_vocabulary_declares_four_relations() {
    let set = RelationSet::diaryx();
    let rels = set.relations();
    assert_eq!(rels.len(), 4);
    assert_eq!(rels[0].name, "contents");
    assert_eq!(rels[0].inverse.as_deref(), Some("part_of"));
    assert_eq!(rels[0].cardinality, Cardinality::Many);
    assert_eq!(rels[1].name, "part_of");
    assert_eq!(rels[1].cardinality, Cardinality::One);
    assert_eq!(rels[3].inverse.as_deref(), Some("links"));
    assert!(RelationSet::new().spanning_relation().is_none());
}
