use kv_crud_core::Page;
use kv_crud_sqlite::{MyData, SqliteStorage, StorageError};

#[test]
fn should_be_able_to_save_and_read() {
    // given
    let mut storage = SqliteStorage::new(":memory:").unwrap();
    let entity = MyData { id: 42, data: 24 };

    // when
    storage.save(&entity).unwrap();
    let read_entity: MyData = storage.find_by_id(&42u32).unwrap();

    // then
    assert_eq!(entity, read_entity);
}

#[test]
fn should_result_in_an_error_when_searching_for_unset_key() {
    // given
    let storage = SqliteStorage::new(":memory:").unwrap();

    // when
    let result: Result<MyData, StorageError> = storage.find_by_id(&42u32);

    // then
    match result {
        Err(StorageError::NotFound(id)) => assert_eq!("42", id),
        _ => assert!(false, "Invalid result!"),
    };
}

#[test]
fn should_overwrite_values_upon_save() {
    // given
    let mut storage = SqliteStorage::new(":memory:").unwrap();
    let entity = MyData { id: 42, data: 24 };
    storage.save(&entity).unwrap();

    // when
    let updated_entity = MyData { id: 42, data: 100 };
    storage.save(&updated_entity).unwrap();

    // then
    let loaded: MyData = storage.find_by_id(&42u32).unwrap();
    assert_eq!(updated_entity, loaded);
}

#[test]
fn should_find_with_pagination() {
    // given
    let mut storage = SqliteStorage::new(":memory:").unwrap();
    let a = MyData { id: 42, data: 24 };
    let b = MyData { id: 53, data: 35 };
    let c = MyData { id: 64, data: 46 };

    storage.save(&a).unwrap();
    storage.save(&b).unwrap();
    storage.save(&c).unwrap();

    // when
    let first: Vec<MyData> = storage.find_all_with_page(&Page::new(0, 1)).unwrap();
    let second: Vec<MyData> = storage.find_all_with_page(&Page::new(1, 2)).unwrap();
    let third: Vec<MyData> = storage.find_all_with_page(&Page::new(0, 3)).unwrap();

    // then
    assert_eq!(vec![a.clone()], first);
    assert_eq!(vec![c.clone()], second);
    assert_eq!(vec![a, b, c], third);
}

#[test]
fn should_delete_entry_by_id() {
    // given a storage with one entity
    let mut storage = SqliteStorage::new(":memory:").unwrap();
    let entity = MyData { id: 42, data: 24 };
    storage.save(&entity).unwrap();

    // when removing by id
    storage.remove_by_id(&entity.id).unwrap();

    // then entity should be removed
    match storage.find_by_id::<MyData, u32>(&42u32) {
        Ok(_) => panic!("Entity shouldn't be in storage"),
        Err(_) => assert!(true),
    }
}
