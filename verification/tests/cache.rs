use dx_cli::ds_parser::{DsRecord, RecordValue};
use dx_cli::ds_result::{
    cached_value, get_cached_property, save_result_data, CacheStatus, ResultData, ResultDataManager,
};
use dx_cli::keyed_list::KeyedList;

#[test]
fn a_keyed_list_keeps_one_value_per_key() {
    let mut l: KeyedList<u64> = KeyedList::new();
    l.insert("a".to_string(), 1);
    l.insert("b".to_string(), 2);
    l.insert("a".to_string(), 3);
    assert_eq!(l.entries().len(), 2);
    assert_eq!(l.get(&"a".to_string()), Some(&3));
    assert_eq!(l.get(&"c".to_string()), None);
    assert_eq!(l.take(&"a".to_string()), Some(3));
    assert_eq!(l.get(&"a".to_string()), None);
    assert_eq!(l.entries().len(), 1);
}

#[test]
fn a_record_is_read_back() {
    let mut r = ResultData::new();
    r.add_record("Music", "ph1S", 4096);
    assert_eq!(r.get_file_property("Music", "ph1S"), Ok(4096));
}

#[test]
fn missing_files_and_keys_are_told_apart() {
    let mut r = ResultData::default();
    r.add_record("Music", "ph1S", 4096);
    assert_eq!(r.get_file_property("Films", "ph1S"), Err("folder not found".to_string()));
    assert_eq!(r.get_file_property("Music", "phyS"), Err("Key not found".to_string()));
}

#[test]
fn a_later_record_replaces_an_earlier_one() {
    let mut r = ResultData::new();
    r.add_record("a", "ph1S", 1);
    r.add_record("a", "phyS", 2);
    r.add_record("b", "ph1S", 3);
    r.add_record("a", "ph1S", 4);
    assert_eq!(r.get_file_property("a", "ph1S"), Ok(4));
    assert_eq!(r.get_file_property("a", "phyS"), Ok(2));
    assert_eq!(r.get_file_property("b", "ph1S"), Ok(3));
    assert_eq!(r.get_files().len(), 2);
}

#[test]
fn large_values_read_back_as_i64() {
    let mut r = ResultData::new();
    r.add_record("x", "moDD", u64::MAX);
    assert_eq!(r.get_file_property("x", "moDD"), Ok(-1));
}

#[test]
fn the_cache_answers_hit_miss_and_not_found() {
    let mut m = ResultDataManager::new();
    assert_eq!(get_cached_property(&m, "/d/.DS_Store", "a", "ph1S"), Ok(CacheStatus::NotFound));
    let mut r = ResultData::new();
    r.add_record("a", "ph1S", 10);
    save_result_data(&mut m, "/d/.DS_Store", r);
    assert_eq!(get_cached_property(&m, "/d/.DS_Store", "a", "ph1S"), Ok(CacheStatus::CacheHit(10)));
    assert_eq!(get_cached_property(&m, "/d/.DS_Store", "a", "phyS"), Ok(CacheStatus::CacheMiss));
    assert_eq!(get_cached_property(&m, "/d/.DS_Store", "b", "ph1S"), Ok(CacheStatus::CacheMiss));
    assert_eq!(get_cached_property(&m, "/e/.DS_Store", "a", "ph1S"), Ok(CacheStatus::NotFound));
}

#[test]
fn saving_again_replaces_and_keeps_others() {
    let mut m = ResultDataManager::default();
    let mut r1 = ResultData::new();
    r1.add_record("a", "ph1S", 1);
    save_result_data(&mut m, "/one", r1);
    let mut r2 = ResultData::new();
    r2.add_record("a", "ph1S", 2);
    save_result_data(&mut m, "/two", r2);
    let r3 = ResultData::new();
    save_result_data(&mut m, "/two", r3);
    assert_eq!(get_cached_property(&m, "/one", "a", "ph1S"), Ok(CacheStatus::CacheHit(1)));
    assert_eq!(get_cached_property(&m, "/two", "a", "ph1S"), Ok(CacheStatus::CacheMiss));
}

fn rec(name: &str, field: &str, value: RecordValue) -> DsRecord {
    DsRecord { name: name.to_string(), field: field.to_string(), value }
}

#[test]
fn records_are_added_in_order_with_their_dates() {
    let records = vec![
        rec("a", "ph1S", RecordValue::Size(10)),
        rec("a", "moDD", RecordValue::Date(vec![0; 8])),
        rec("b", "phyS", RecordValue::Size(7)),
        rec("a", "ph1S", RecordValue::Size(11)),
    ];
    let dates = vec![999, 1234, 999, 999];
    let mut r = ResultData::new();
    r.add_records(&records, &dates);
    assert_eq!(r.get_file_property("a", "ph1S"), Ok(11));
    assert_eq!(r.get_file_property("a", "moDD"), Ok(1234));
    assert_eq!(r.get_file_property("b", "phyS"), Ok(7));
    assert_eq!(r.get_files().len(), 2);
}

#[test]
fn cache_statuses_answer_or_ask_for_a_read() {
    assert_eq!(cached_value(CacheStatus::CacheHit(5)), Some(Ok(5)));
    assert_eq!(cached_value(CacheStatus::CacheMiss), Some(Err("Key not found".to_string())));
    assert_eq!(cached_value(CacheStatus::NotFound), None);
}

#[test]
fn adding_records_keeps_what_was_there() {
    let mut r = ResultData::new();
    r.add_record("a", "lg1S", 3);
    r.add_record("c", "ph1S", 4);
    let records = vec![rec("a", "ph1S", RecordValue::Size(10)), rec("b", "modD", RecordValue::Date(vec![0; 8]))];
    r.add_records(&records, &vec![0, 77]);
    assert_eq!(r.get_file_property("a", "lg1S"), Ok(3));
    assert_eq!(r.get_file_property("c", "ph1S"), Ok(4));
    assert_eq!(r.get_file_property("a", "ph1S"), Ok(10));
    assert_eq!(r.get_file_property("b", "modD"), Ok(77));
}
