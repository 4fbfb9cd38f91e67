use kv_crud_core::{Page, Sort};
use kv_crud_sqlite::{CodecFault, Entity, Key, MyData, SqliteStorage, StorageError};

#[test]
fn deleting_an_absent_id_reports_success() {
    let mut storage = SqliteStorage::new(":memory:").unwrap();
    assert!(storage.remove_by_id(&42u32).is_ok());
}

#[test]
fn deleting_twice_reports_success_twice() {
    let mut storage = SqliteStorage::new(":memory:").unwrap();
    let entity = MyData { id: 42, data: 24 };
    storage.save(&entity).unwrap();
    assert!(storage.remove_by_id(&42u32).is_ok());
    assert!(storage.remove_by_id(&42u32).is_ok());
}

#[test]
fn removing_by_entity_removes_the_row() {
    let mut storage = SqliteStorage::new(":memory:").unwrap();
    let entity = MyData { id: 7, data: 9 };
    storage.save(&entity).unwrap();
    storage.remove(&entity).unwrap();
    assert!(matches!(
        storage.find_by_id::<MyData, u32>(&7u32),
        Err(StorageError::NotFound(_))
    ));
}

#[test]
fn update_creates_a_missing_record() {
    let mut storage = SqliteStorage::new(":memory:").unwrap();
    let entity = MyData { id: 5, data: 55 };
    storage.update(&entity).unwrap();
    let loaded: MyData = storage.find_by_id(&5u32).unwrap();
    assert_eq!(entity, loaded);
}

#[test]
fn malformed_stored_value_fails_point_lookup() {
    let mut storage = SqliteStorage::new(":memory:").unwrap();
    storage.put_raw("42", "not a stored record").unwrap();
    assert!(matches!(
        storage.find_by_id::<MyData, u32>(&42u32),
        Err(StorageError::FormattingError(_))
    ));
}

#[test]
fn malformed_stored_value_fails_the_whole_page() {
    let mut storage = SqliteStorage::new(":memory:").unwrap();
    storage.save(&MyData { id: 1, data: 10 }).unwrap();
    storage.put_raw("2", "{\"id\":2,\"data\":}").unwrap();
    storage.save(&MyData { id: 3, data: 30 }).unwrap();
    let page: Result<Vec<MyData>, StorageError> = storage.find_all_with_page(&Page::new(0, 10));
    assert!(matches!(page, Err(StorageError::FormattingError(_))));
}

#[test]
fn a_repaired_value_reads_back() {
    let mut storage = SqliteStorage::new(":memory:").unwrap();
    storage.put_raw("8", "garbage").unwrap();
    storage.save(&MyData { id: 8, data: 80 }).unwrap();
    let loaded: MyData = storage.find_by_id(&8u32).unwrap();
    assert_eq!(MyData { id: 8, data: 80 }, loaded);
}

#[test]
fn pagination_windows_clip_at_the_end() {
    let mut storage = SqliteStorage::new(":memory:").unwrap();
    storage.save(&MyData { id: 1, data: 10 }).unwrap();
    storage.save(&MyData { id: 2, data: 20 }).unwrap();
    let all: Vec<MyData> = storage.find_all_with_page(&Page::new(0, 5)).unwrap();
    assert_eq!(2, all.len());
    let past_the_end: Vec<MyData> = storage.find_all_with_page(&Page::new(3, 2)).unwrap();
    assert!(past_the_end.is_empty());
}

#[test]
fn the_empty_store_yields_an_empty_page() {
    let storage = SqliteStorage::new(":memory:").unwrap();
    let page: Vec<MyData> = storage.find_all_with_page(&Page::new(0, 10)).unwrap();
    assert!(page.is_empty());
}

#[test]
fn the_sorted_variant_is_unimplemented() {
    let storage = SqliteStorage::new(":memory:").unwrap();
    let r: Result<Vec<MyData>, StorageError> =
        storage.find_all_with_page_and_sort(&Page::new(0, 1), &Sort::ASCENDING);
    assert!(matches!(r, Err(StorageError::Unimplemented)));
}

#[test]
fn opening_an_unusable_locator_is_an_engine_error() {
    let r = SqliteStorage::new(".");
    assert!(matches!(r, Err(StorageError::SqliteError(_))));
}

#[test]
fn reopening_the_same_locator_never_fails_on_schema() {
    let first = SqliteStorage::new(":memory:").unwrap();
    drop(first);
    assert!(SqliteStorage::new(":memory:").is_ok());
}

#[test]
fn keys_are_decimal_numerals() {
    assert_eq!("0", 0u32.to_key());
    assert_eq!("42", 42u32.to_key());
    assert_eq!("4294967295", 4294967295u32.to_key());
}

#[test]
fn the_codec_writes_the_object_form() {
    let encoded = MyData { id: 42, data: 24 }.encode().unwrap();
    assert_eq!("{\"id\":42,\"data\":24}", encoded);
}

#[test]
fn the_codec_reads_the_object_form_back() {
    let decoded = MyData::decode("{\"id\":42,\"data\":24}").unwrap();
    assert_eq!(MyData { id: 42, data: 24 }, decoded);
}

#[test]
fn the_codec_rejects_what_it_never_writes() {
    assert!(matches!(MyData::decode(""), Err(CodecFault::Malformed)));
    assert!(matches!(MyData::decode("{}"), Err(CodecFault::Malformed)));
    assert!(matches!(
        MyData::decode("{\"id\":,\"data\":2}"),
        Err(CodecFault::Malformed)
    ));
    assert!(matches!(
        MyData::decode("{\"id\":1,\"data\":2} "),
        Err(CodecFault::Malformed)
    ));
    assert!(matches!(
        MyData::decode("{\"id\":1,\"data\":4294967296}"),
        Err(CodecFault::OutOfRange)
    ));
}

#[test]
fn a_saved_record_survives_in_one_piece() {
    let mut storage = SqliteStorage::new(":memory:").unwrap();
    let entity = MyData {
        id: 4294967295,
        data: 4294967295,
    };
    storage.save(&entity).unwrap();
    let loaded: MyData = storage.find_by_id(&4294967295u32).unwrap();
    assert_eq!(entity, loaded);
}

#[test]
fn a_value_holding_a_nul_byte_is_refused() {
    let mut storage = SqliteStorage::new(":memory:").unwrap();
    let refused = storage.put_raw("1", "a\0b");
    assert!(matches!(refused, Err(StorageError::FormattingError(_))));
    assert!(matches!(
        storage.find_by_id::<MyData, u32>(&1u32),
        Err(StorageError::NotFound(_))
    ));
}
