use hurrahdb::log_format::split_lines;
use hurrahdb::persistance::aof;
use hurrahdb::persistance::Persist;
use hurrahdb::{log_file, AofConfig, Config, ConfigMissing, Storage, StoreError, Type};
use serde_json::Value;

fn model(field: &str, text: &str) -> Value {
    let mut m = serde_json::Map::new();
    m.insert(field.to_string(), Value::String(text.to_string()));
    Value::Object(m)
}

fn aof_config(file: &str, sync_time: u64) -> Config {
    Config {
        aof_config: Some(AofConfig {
            sync_time,
            file_name: file.to_string(),
        }),
        persistance_type: Type::Aof,
    }
}

#[test]
fn set_get_key_value_from_cache_without_persistance() {
    let mut storage = match Storage::new(None, "") {
        Ok(storage) => storage,
        Err(err) => panic!("unable to create storage {:?}", err),
    };
    match storage.set("some-key".to_string(), &model("value", "some-value")) {
        Ok(()) => {}
        Err(err) => panic!("unable to set in cache {:?}", err),
    }
    let result_option = match storage.get("some-key".to_string()) {
        Ok(result) => result,
        Err(err) => panic!("unable to get from cache {:?}", err),
    };
    match result_option {
        Some(result) => assert_eq!("some-value".to_string(), result["value"]),
        None => panic!("unable to find data in cache"),
    }
}

#[test]
fn set_get_key_value_from_cache_with_aof() {
    let mut storage = match Storage::new(Some(aof_config("memory-cache-test-1", 100)), "") {
        Ok(storage) => storage,
        Err(err) => panic!("unable to create storage {:?}", err),
    };
    match storage.set("some-key".to_string(), &model("value", "some-value")) {
        Ok(()) => {}
        Err(err) => panic!("unable to set in cache {:?}", err),
    }
    let result_option = match storage.get("some-key".to_string()) {
        Ok(result) => result,
        Err(err) => panic!("unable to get from cache {:?}", err),
    };
    match result_option {
        Some(result) => assert_eq!("some-value".to_string(), result["value"]),
        None => panic!("unable to find data in cache"),
    }
    let contents = storage.take_pending();
    assert_eq!(contents, "Set\nsome-key\n{\"value\":\"some-value\"}\n");
}

#[test]
fn validate_write() {
    let (_, mut log) = match aof::Storage::new("somefile".to_string(), 100, "") {
        Ok((map, log)) => (map, log),
        Err(err) => panic!("{:?}", err),
    };
    log.set(&"some-key-1".to_string(), &"some-val".to_string());
    log.set(&"some-key-2".to_string(), &"some-val".to_string());
    log.del(&"some-key-2".to_string());
    let contents = log.take_pending();
    assert_eq!(
        contents,
        "Set\nsome-key-1\nsome-val\nSet\nsome-key-2\nsome-val\nDel\nsome-key-2\n"
    );
}

#[test]
fn validate_reading_from_aof_file() {
    let text = "Set\nsome-key-1\nsome-val\nSet\nsome-key-2\nsome-val\nDel\nsome-key-2\n";
    let (map_value, _) = match aof::Storage::new("somefile-write".to_string(), 1, text) {
        Ok((map, log)) => (map, log),
        Err(err) => panic!("{:?}", err),
    };
    assert_eq!(map_value.get(&"some-key-1".to_string()).unwrap(), "some-val");
    assert!(map_value.get(&"some-key-2".to_string()).is_none());
}

#[test]
fn round_trip_returns_value_set() {
    let mut storage = Storage::new(None, "").unwrap();
    let v = model("name", "x");
    storage.set("a".to_string(), &v).unwrap();
    assert_eq!(storage.get("a".to_string()).unwrap(), Some(v));
    storage.set_text("b".to_string(), "[1,2]".to_string());
    assert_eq!(storage.get_text(&"b".to_string()), Some("[1,2]".to_string()));
}

#[test]
fn get_missing_key_is_none() {
    let storage = Storage::new(None, "").unwrap();
    assert_eq!(storage.get("nope".to_string()).unwrap(), None);
    assert_eq!(storage.get_text(&"nope".to_string()), None);
}

#[test]
fn get_undecodable_text_is_codec_error() {
    let mut storage = Storage::new(None, "").unwrap();
    storage.set_text("k".to_string(), "not json".to_string());
    assert_eq!(storage.get("k".to_string()), Err(StoreError::Codec));
}

#[test]
fn delete_absent_key_keeps_others() {
    let mut storage = Storage::new(Some(aof_config("f", 100)), "").unwrap();
    storage.set_text("a".to_string(), "1".to_string());
    storage.del(&"missing".to_string());
    assert_eq!(storage.get_text(&"a".to_string()), Some("1".to_string()));
    assert_eq!(storage.get_text(&"missing".to_string()), None);
    assert_eq!(storage.take_pending(), "Set\na\n1\nDel\nmissing\n");
}

#[test]
fn delete_removes_present_key() {
    let mut storage = Storage::new(None, "").unwrap();
    storage.set_text("a".to_string(), "1".to_string());
    storage.set_text("b".to_string(), "2".to_string());
    storage.del(&"a".to_string());
    assert_eq!(storage.get_text(&"a".to_string()), None);
    assert_eq!(storage.get_text(&"b".to_string()), Some("2".to_string()));
}

#[test]
fn replay_reproduces_cache() {
    let mut storage = Storage::new(Some(aof_config("f", 100)), "").unwrap();
    storage.set_text("a".to_string(), "1".to_string());
    storage.set_text("b".to_string(), "2".to_string());
    storage.set_text("a".to_string(), "3".to_string());
    storage.del(&"b".to_string());
    storage.set_text("c".to_string(), "4".to_string());
    let log = storage.take_pending();
    let reopened = Storage::new(Some(aof_config("f", 100)), &log).unwrap();
    for k in ["a", "b", "c"] {
        let key = k.to_string();
        assert_eq!(reopened.get_text(&key), storage.get_text(&key));
    }
    assert_eq!(reopened.get_text(&"a".to_string()), Some("3".to_string()));
    assert_eq!(reopened.get_text(&"b".to_string()), None);
}

#[test]
fn format_of_set_and_delete_records() {
    let mut storage = Storage::new(Some(aof_config("f", 100)), "").unwrap();
    storage.set_text("k".to_string(), "v".to_string());
    assert_eq!(storage.take_pending(), "Set\nk\nv\n");
    storage.del(&"k".to_string());
    assert_eq!(storage.take_pending(), "Del\nk\n");
    assert_eq!(storage.take_pending(), "");
}

#[test]
fn truncated_record_is_corrupt() {
    let r = Storage::new(Some(aof_config("f", 100)), "Set\na\n1\nSet\nb\n");
    assert!(matches!(r, Err(StoreError::CorruptLog)));
    let r = aof::Storage::new("f".to_string(), 100, "Del\n");
    assert!(matches!(r, Err(StoreError::CorruptLog)));
}

#[test]
fn unknown_tag_is_corrupt() {
    let r = Storage::new(Some(aof_config("f", 100)), "Set\na\n1\nPut\nb\n2\n");
    assert!(matches!(r, Err(StoreError::CorruptLog)));
    let r = aof::Storage::new("f".to_string(), 100, "set\na\n1\n");
    assert!(matches!(r, Err(StoreError::CorruptLog)));
}

#[test]
fn extra_line_after_record_is_corrupt() {
    let r = aof::Storage::new("f".to_string(), 100, "Del\na\nb\n");
    assert!(matches!(r, Err(StoreError::CorruptLog)));
}

#[test]
fn empty_key_is_corrupt() {
    let r = aof::Storage::new("f".to_string(), 100, "Set\n\nv\n");
    assert!(matches!(r, Err(StoreError::CorruptLog)));
    let r = aof::Storage::new("f".to_string(), 100, "Del\n\n");
    assert!(matches!(r, Err(StoreError::CorruptLog)));
}

#[test]
fn empty_log_and_unterminated_last_line() {
    let (map, _) = aof::Storage::new("f".to_string(), 100, "").unwrap();
    assert!(map.get(&"a".to_string()).is_none());
    let (map, _) = aof::Storage::new("f".to_string(), 100, "Set\na\nx").unwrap();
    assert_eq!(map.get(&"a".to_string()).unwrap(), "x");
}

#[test]
fn empty_value_is_kept() {
    let (map, _) = aof::Storage::new("f".to_string(), 100, "Set\na\n\n").unwrap();
    assert_eq!(map.get(&"a".to_string()).unwrap(), "");
}

#[test]
fn memory_store_writes_nothing() {
    let config = Config {
        aof_config: None,
        persistance_type: Type::Memory,
    };
    let mut storage = Storage::new(Some(config), "Set\nx\n1\n").unwrap();
    assert_eq!(storage.get_text(&"x".to_string()), None);
    storage.set_text("a".to_string(), "1".to_string());
    storage.del(&"b".to_string());
    assert_eq!(storage.get_text(&"a".to_string()), Some("1".to_string()));
    assert_eq!(storage.take_pending(), "");
    assert_eq!(storage.log_settings(), None);
}

#[test]
fn missing_log_settings_is_config_error() {
    let config = Config {
        aof_config: None,
        persistance_type: Type::Aof,
    };
    let r = Storage::new(Some(config), "");
    assert!(matches!(
        r,
        Err(StoreError::ConfigMissing(ConfigMissing {
            persistance_type: Type::Aof
        }))
    ));
}

#[test]
fn log_file_of_config() {
    assert_eq!(log_file(&Some(aof_config("f", 100))), Some("f".to_string()));
    assert_eq!(log_file(&None), None);
    let config = Config {
        aof_config: Some(AofConfig {
            sync_time: 5,
            file_name: "g".to_string(),
        }),
        persistance_type: Type::Memory,
    };
    assert_eq!(log_file(&Some(config)), None);
}

#[test]
fn log_settings_of_log_store() {
    let storage = Storage::new(Some(aof_config("f", 100)), "").unwrap();
    assert_eq!(storage.log_settings(), Some(("f".to_string(), 100)));
}

#[test]
fn end_to_end_scenario() {
    let mut storage = Storage::new(Some(aof_config("f", 100)), "").unwrap();
    storage.set("a".to_string(), &model("name", "x")).unwrap();
    storage.set("b".to_string(), &model("value", "y")).unwrap();
    assert_eq!(storage.get("a".to_string()).unwrap(), Some(model("name", "x")));
    assert_eq!(
        storage.take_pending(),
        "Set\na\n{\"name\":\"x\"}\nSet\nb\n{\"value\":\"y\"}\n"
    );
}

#[test]
fn action_tags() {
    assert_eq!(aof::ActionType::Put.as_str(), "Set");
    assert_eq!(aof::ActionType::Del.as_str(), "Del");
    assert_eq!(aof::ActionType::from(&"Set".to_string()), Some(aof::ActionType::Put));
    assert_eq!(aof::ActionType::from(&"Del".to_string()), Some(aof::ActionType::Del));
    assert_eq!(aof::ActionType::from(&"Set ".to_string()), None);
}

#[test]
fn split_lines_of_text() {
    assert_eq!(split_lines(""), Vec::<String>::new());
    assert_eq!(split_lines("a\n\nb"), vec!["a".to_string(), "".to_string(), "b".to_string()]);
    assert_eq!(split_lines("é\n"), vec!["é".to_string()]);
}

#[test]
fn crlf_log_replays() {
    let (map, _) = aof::Storage::new("f".to_string(), 100, "Set\r\na\r\n1\r\nDel\r\nb\r\n").unwrap();
    assert_eq!(map.get(&"a".to_string()).unwrap(), "1");
    assert_eq!(split_lines("x\r\ny\r"), vec!["x".to_string(), "y\r".to_string()]);
}

#[test]
fn bare_tag_at_end_is_corrupt() {
    let r = aof::Storage::new("f".to_string(), 100, "Set\na\n1\nSet");
    assert!(matches!(r, Err(StoreError::CorruptLog)));
    let r = aof::Storage::new("f".to_string(), 100, "Set\na\n1\nSet\n\n");
    assert!(matches!(r, Err(StoreError::CorruptLog)));
    let r = aof::Storage::new("f".to_string(), 100, "Set\na\n1\nPut");
    assert!(matches!(r, Err(StoreError::CorruptLog)));
}
