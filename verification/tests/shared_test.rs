use s2d2::shared::{Record, Shard};
use serde_json::Value;

fn health(h: f64) -> Value {
    serde_json::from_str(&format!("{{\"health\": {:?}}}", h)).unwrap()
}

#[test]
fn shared_test_record_peek() {
    let id = "record_001".to_string();
    let data = health(50.0);
    let record: Record = Record::new(id.clone(), data.clone());
    let peek_data = record.peek();
    assert_eq!(peek_data, data);
}

#[test]
fn record_commit() {
    let id = "record_001".to_string();
    let data = health(50.0);
    let mut record: Record = Record::new(id.clone(), data.clone());
    let new_data = health(100.0);
    record.commit(new_data.clone());
    let peek_data = record.peek();
    assert_eq!(peek_data, new_data);
}

#[test]
fn shard_add() {
    let id = "record_001".to_string();
    let data = health(50.0);
    let mut shard = Shard::new();
    shard.add(id.clone(), data.clone());
    let fetched_option = shard.get(&id);
    let fetched_record = fetched_option.unwrap().peek();
    assert_eq!(fetched_record, data)
}

#[test]
fn shard_update() {
    let id = "record_001".to_string();
    let data = health(50.0);
    let mut shard = Shard::new();
    shard.add(id.clone(), data.clone());
    let fetched_option = shard.get(&id);
    let fetched_record = fetched_option.unwrap().peek();
    assert_eq!(fetched_record, data);

    let new_data = health(100.0);
    shard.update(&id, new_data.clone());
    let new_record = shard.get(&id).unwrap().peek();
    assert_eq!(new_record, new_data)
}

#[test]
fn shard_delete() {
    let id = "record_001".to_string();
    let data = health(50.0);
    let mut shard = Shard::new();
    shard.add(id.clone(), data.clone());
    let fetched_option = shard.get(&id);
    let fetched_record = fetched_option.unwrap().peek();
    assert_eq!(fetched_record, data);

    shard.delete(&id);
    let new_record = shard.get(&id);
    assert!(new_record.is_none())
}

#[test]
fn get_ids() {
    let id = "record_001".to_string();
    let id2 = "record_002".to_string();
    let data = health(50.0);
    let mut shard = Shard::new();
    shard.add(id.clone(), data.clone());
    shard.add(id2.clone(), data.clone());

    let mut ids = shard.get_ids();
    ids.sort();

    let mut expected = vec![id, id2];
    expected.sort();

    assert_eq!(ids, expected);
}

#[test]
fn get_usage() {
    let id = "record_001".to_string();
    let id2 = "record_002".to_string();
    let data = health(50.0);
    let mut shard = Shard::new();
    shard.add(id.clone(), data.clone());
    shard.add(id2.clone(), data.clone());

    let usage: usize = shard.get_usage();
    assert_eq!(usage, 2)
}

#[test]
fn shard_add_reports_new_records_only() {
    let mut shard = Shard::new();
    assert!(shard.add("a".to_string(), health(1.0)));
    assert!(!shard.add("a".to_string(), health(2.0)));
    assert_eq!(shard.get("a").unwrap().peek(), health(2.0));
    assert_eq!(shard.get_usage(), 1);
}

#[test]
fn shard_update_and_delete_of_missing_record() {
    let mut shard = Shard::new();
    assert!(!shard.update("ghost", health(1.0)));
    assert!(shard.get("ghost").is_none());
    assert!(!shard.delete("ghost"));
    shard.add("a".to_string(), health(1.0));
    assert!(shard.delete("a"));
    assert_eq!(shard.get_usage(), 0);
}
