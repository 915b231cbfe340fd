use s2d2::lookup_traditional::TraditionalLookUp;
use s2d2::shared::Record;
use serde_json::Value;

fn health(h: f64) -> Value {
    serde_json::from_str(&format!("{{\"health\": {:?}}}", h)).unwrap()
}

fn test_data() -> Vec<(&'static str, Value)> {
    vec![
        ("12ewr", health(50.0)),
        ("345fs", health(60.0)),
        ("31sds", health(70.0)),
        ("45ass", health(80.0)),
        ("54fas", health(90.0)),
    ]
}

fn init() -> TraditionalLookUp {
    let mut lookup: TraditionalLookUp = TraditionalLookUp::new(5);
    let shard_ids: Vec<String> = lookup.shard_ids();
    for (i, (record_id, data)) in test_data().iter().enumerate() {
        let shard_id = &shard_ids[i % shard_ids.len()];
        lookup.insert_record(shard_id, record_id, data.clone());
    }
    lookup
}

#[test]
fn lookup_traditional_test_record_peek() {
    let lookup: TraditionalLookUp = init();
    let record: Record = lookup.get_record(test_data()[0].0).expect("Record should exist");

    assert_eq!(record.peek(), test_data()[0].1);
}

#[test]
fn lookup_traditional_test_updated_record() {
    let new_data = health(90.0);
    let mut lookup: TraditionalLookUp = init();
    let result = lookup.update_record(test_data()[0].0, new_data.clone());
    assert_eq!(result, true);
    let record: Record = lookup.get_record(test_data()[0].0).expect("Record should exist");
    assert_eq!(record.peek(), new_data);
}

#[test]
fn lookup_traditional_test_insert_record() {
    let id: &str = "12fgh";
    let new_data = health(90.0);
    let mut lookup: TraditionalLookUp = init();
    let shard_ids = lookup.shard_ids();
    let shard_id = shard_ids.first().expect("No Shard IDs available");
    let result = lookup.insert_record(shard_id, id, new_data.clone());
    assert_eq!(result, true);
    let record: Record = lookup.get_record(id).expect("Record should exist");
    assert_eq!(record.peek(), new_data);
}

#[test]
fn lookup_traditional_test_delete_record() {
    let mut lookup: TraditionalLookUp = init();
    lookup.delete_record(test_data()[0].0);
    assert!(lookup.get_record(test_data()[0].0).is_none())
}

#[test]
fn traditional_shards_are_named_by_position() {
    let lookup = TraditionalLookUp::new(3);
    let mut ids = lookup.shard_ids();
    ids.sort();
    assert_eq!(ids, vec!["shard_0".to_string(), "shard_1".to_string(), "shard_2".to_string()]);
    assert!(lookup.get_shard("shard_2").is_some());
    assert!(lookup.get_shard("shard_3").is_none());
}

#[test]
fn traditional_insert_into_unknown_shard_is_refused() {
    let mut lookup = TraditionalLookUp::new(2);
    assert!(!lookup.insert_record("shard_9", "x", health(1.0)));
    assert!(!lookup.has_record("x"));
}

#[test]
fn traditional_record_is_found_through_its_shard() {
    let mut lookup = TraditionalLookUp::new(2);
    assert!(lookup.insert_record("shard_1", "x", health(1.0)));
    assert!(lookup.has_record("x"));
    assert_eq!(lookup.get_shard("shard_1").unwrap().get("x").unwrap().peek(), health(1.0));
    assert!(lookup.get_shard("shard_0").unwrap().get("x").is_none());
    assert_eq!(lookup.get_record("x").unwrap().peek(), health(1.0));
}
