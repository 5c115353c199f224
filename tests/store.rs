use shio::context::{Parameters, RequestId, TypeMap, WorkerThreads};

#[test]
fn empty_store_holds_nothing() {
    let m = TypeMap::new();
    assert!(m.get::<RequestId>().is_none());
    assert!(m.get::<WorkerThreads>().is_none());
    assert!(m.get::<Parameters>().is_none());
}

#[test]
fn insert_then_get_returns_value() {
    let mut m = TypeMap::custom();
    assert!(m.insert::<RequestId>(RequestId { id: 7 }).is_none());
    assert_eq!(m.get::<RequestId>().map(|r| r.id), Some(7));
}

#[test]
fn second_insert_returns_previous() {
    let mut m = TypeMap::new();
    m.insert::<RequestId>(RequestId { id: 7 });
    let prev = m.insert::<RequestId>(RequestId { id: 9 });
    assert_eq!(prev.map(|r| r.id), Some(7));
    assert_eq!(m.get::<RequestId>().map(|r| r.id), Some(9));
}

#[test]
fn other_type_is_unaffected() {
    let mut m = TypeMap::new();
    m.insert::<WorkerThreads>(WorkerThreads { count: 4 });
    m.insert::<RequestId>(RequestId { id: 1 });
    m.insert::<RequestId>(RequestId { id: 2 });
    assert_eq!(m.get::<WorkerThreads>().map(|w| w.count), Some(4));
    assert!(m.get::<Parameters>().is_none());
}

#[test]
fn parameters_lookup_first_match() {
    let mut p = Parameters::new();
    p.push("name".to_string(), "x".to_string());
    p.push("filepath".to_string(), "a.txt".to_string());
    p.push("filepath".to_string(), "b.txt".to_string());
    assert_eq!(p.get("filepath").map(|s| s.as_str()), Some("a.txt"));
    assert_eq!(p.get("name").map(|s| s.as_str()), Some("x"));
    assert!(p.get("other").is_none());
}

#[test]
fn parameters_stored_in_request_scope() {
    let mut p = Parameters::new();
    p.push("filepath".to_string(), "a.txt".to_string());
    let mut m = TypeMap::new();
    m.insert::<Parameters>(p);
    let got = m.get::<Parameters>().and_then(|p| p.get("filepath")).cloned();
    assert_eq!(got, Some("a.txt".to_string()));
}
