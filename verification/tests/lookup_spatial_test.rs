use s2d2::lookup_spatial::SpatialLookup;
use s2d2::shared::Record;
use serde_json::Value;

fn health(h: f64) -> Value {
    serde_json::from_str(&format!("{{\"health\": {:?}}}", h)).unwrap()
}

fn test_data() -> Vec<(u64, Value)> {
    vec![
        (0, health(50.0)),
        (20, health(60.0)),
        (40, health(70.0)),
        (60, health(80.0)),
        (80, health(90.0)),
    ]
}

fn init() -> SpatialLookup {
    let mut lookup = SpatialLookup::new(5, 100);
    for (record_id, data) in test_data().iter() {
        lookup.insert_record(*record_id, data.clone());
    }
    lookup
}

fn get_record(lookup: &SpatialLookup, record_id: u64) -> Option<Record> {
    lookup.get_shard(record_id).and_then(|shard| shard.get(&record_id.to_string()))
}

#[test]
fn lookup_spatial_test_record_peek() {
    let lookup = init();
    let record: Record = get_record(&lookup, test_data()[0].0).expect("Record should exist");

    assert_eq!(record.peek(), test_data()[0].1);
}

#[test]
fn lookup_spatial_test_updated_record() {
    let new_data = health(99.0);
    let mut lookup = init();
    let result = lookup.update_record(test_data()[0].0, new_data.clone());
    assert_eq!(result, true);
    let record: Record = get_record(&lookup, test_data()[0].0).expect("Record should exist");
    assert_eq!(record.peek(), new_data);
}

#[test]
fn lookup_spatial_test_insert_record() {
    let record_id: u64 = 5;
    let new_data = health(100.0);
    let mut lookup = init();
    let result = lookup.insert_record(record_id, new_data.clone());
    assert_eq!(result, true);
    let record: Record = get_record(&lookup, record_id).expect("Record should exist");
    assert_eq!(record.peek(), new_data);
}

#[test]
fn lookup_spatial_test_delete_record() {
    let mut lookup = init();
    let result = lookup.delete_record(test_data()[0].0);
    assert_eq!(result, true);
    assert!(get_record(&lookup, test_data()[0].0).is_none());
}

#[test]
fn spatial_ids_outside_the_range_have_no_shard() {
    let mut lookup = SpatialLookup::new(5, 100);
    assert!(lookup.get_shard(100).is_none());
    assert!(!lookup.insert_record(100, health(1.0)));
    assert!(!lookup.update_record(100, health(1.0)));
    assert!(!lookup.delete_record(100));
}

#[test]
fn spatial_ids_share_a_shard_by_range() {
    let mut lookup = SpatialLookup::new(5, 100);
    assert!(lookup.insert_record(21, health(1.0)));
    // 21 and 39 fall in the same shard of 20 identifiers.
    let shard = lookup.get_shard(39).unwrap();
    assert_eq!(shard.get("21").unwrap().peek(), health(1.0));
    assert!(lookup.get_shard(40).unwrap().get("21").is_none());
}

#[test]
fn spatial_second_insert_is_not_new() {
    let mut lookup = SpatialLookup::new(5, 100);
    assert!(lookup.insert_record(7, health(1.0)));
    assert!(!lookup.insert_record(7, health(2.0)));
    assert_eq!(get_record(&lookup, 7).unwrap().peek(), health(2.0));
}

#[test]
fn spatial_update_of_missing_record_is_refused() {
    let mut lookup = SpatialLookup::new(5, 100);
    assert!(!lookup.update_record(3, health(1.0)));
    assert!(get_record(&lookup, 3).is_none());
}
