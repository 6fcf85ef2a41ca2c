use storage::{
    CreateObjectError, DropObjectError, Key, OperationOnObjectError, ReadCursor, Row, SledBackendStorage, SystemError,
};

fn create_object(storage: &mut SledBackendStorage, namespace: &str, object_name: &str) {
    storage
        .create_namespace(namespace)
        .expect("no system errors")
        .expect("namespace created");
    storage
        .create_object(namespace, object_name)
        .expect("no system errors")
        .expect("object created");
}

fn as_rows(items: Vec<(u8, Vec<&'static str>)>) -> Vec<Row> {
    items
        .into_iter()
        .map(|(key, values)| {
            let k = key.to_be_bytes().to_vec();
            let v = values
                .into_iter()
                .map(|s| s.as_bytes())
                .collect::<Vec<&[u8]>>()
                .join(&b'|');
            (k, v)
        })
        .collect()
}

fn as_keys(items: Vec<u8>) -> Vec<Key> {
    items.into_iter().map(|key| key.to_be_bytes().to_vec()).collect()
}

fn as_read_cursor(items: Vec<(u8, Vec<&'static str>)>) -> Vec<Result<Row, SystemError>> {
    as_rows(items).into_iter().map(Ok).collect()
}

fn collect(mut cursor: ReadCursor<'_>) -> Vec<Result<Row, SystemError>> {
    let mut items = Vec::new();
    while let Some(item) = cursor.next() {
        items.push(item);
    }
    items
}

#[test]
fn create_objects_with_different_names() {
    let mut storage = SledBackendStorage::default();

    storage
        .create_namespace("namespace")
        .expect("no system errors")
        .expect("namespace created");

    assert_eq!(
        storage
            .create_object("namespace", "object_name_1")
            .expect("no system errors"),
        Ok(())
    );
    assert_eq!(
        storage
            .create_object("namespace", "object_name_2")
            .expect("no system errors"),
        Ok(())
    );
}

#[test]
fn create_object_with_the_same_name() {
    let mut storage = SledBackendStorage::default();

    create_object(&mut storage, "namespace", "object_name");

    assert_eq!(
        storage
            .create_object("namespace", "object_name")
            .expect("no system errors"),
        Err(CreateObjectError::ObjectAlreadyExists)
    );
}

#[test]
fn create_object_with_the_same_name_in_different_namespaces() {
    let mut storage = SledBackendStorage::default();

    storage
        .create_namespace("namespace_1")
        .expect("no system errors")
        .expect("namespace created");
    storage
        .create_namespace("namespace_2")
        .expect("no system errors")
        .expect("namespace created");
    assert_eq!(
        storage
            .create_object("namespace_1", "object_name")
            .expect("no system errors"),
        Ok(())
    );
    assert_eq!(
        storage
            .create_object("namespace_2", "object_name")
            .expect("no system errors"),
        Ok(())
    );
}

#[test]
fn create_object_in_not_existent_namespace() {
    let mut storage = SledBackendStorage::default();

    assert_eq!(
        storage
            .create_object("not_existent", "object_name")
            .expect("no system errors"),
        Err(CreateObjectError::NamespaceDoesNotExist)
    );
}

#[test]
fn drop_object() {
    let mut storage = SledBackendStorage::default();

    create_object(&mut storage, "namespace", "object_name");
    assert_eq!(
        storage
            .drop_object("namespace", "object_name")
            .expect("no system errors"),
        Ok(())
    );
    assert_eq!(
        storage
            .create_object("namespace", "object_name")
            .expect("no system errors"),
        Ok(())
    );
}

#[test]
fn drop_not_created_object() {
    let mut storage = SledBackendStorage::default();

    storage
        .create_namespace("namespace")
        .expect("no system errors")
        .expect("namespace created");
    assert_eq!(
        storage
            .drop_object("namespace", "not_existed_object")
            .expect("no system errors"),
        Err(DropObjectError::ObjectDoesNotExist)
    );
}

#[test]
fn drop_object_in_not_existent_namespace() {
    let mut storage = SledBackendStorage::default();

    assert_eq!(
        storage.drop_object("not_existent", "object").expect("no system errors"),
        Err(DropObjectError::NamespaceDoesNotExist)
    );
}

#[test]
fn insert_row_into_object() {
    let mut storage = SledBackendStorage::default();

    create_object(&mut storage, "namespace", "object_name");
    assert_eq!(
        storage
            .write("namespace", "object_name", as_rows(vec![(1u8, vec!["123"])]))
            .expect("no system errors"),
        Ok(1)
    );

    assert_eq!(
        storage
            .read("namespace", "object_name")
            .expect("no system errors")
            .map(collect),
        Ok(as_read_cursor(vec![(1u8, vec!["123"])]))
    );
}

#[test]
fn insert_many_rows_into_object() {
    let mut storage = SledBackendStorage::default();

    create_object(&mut storage, "namespace", "object_name");
    storage
        .write("namespace", "object_name", as_rows(vec![(1u8, vec!["123"])]))
        .expect("no system errors")
        .expect("values are written");
    storage
        .write("namespace", "object_name", as_rows(vec![(2u8, vec!["456"])]))
        .expect("no system errors")
        .expect("values are written");

    assert_eq!(
        storage
            .read("namespace", "object_name")
            .expect("no system errors")
            .map(collect),
        Ok(as_read_cursor(vec![(1u8, vec!["123"]), (2u8, vec!["456"])]))
    );
}

#[test]
fn insert_into_non_existent_object() {
    let mut storage = SledBackendStorage::default();

    storage
        .create_namespace("namespace")
        .expect("no system errors")
        .expect("namespace created");
    assert_eq!(
        storage
            .write("namespace", "not_existed", as_rows(vec![(1u8, vec!["123"])],))
            .expect("no system errors"),
        Err(OperationOnObjectError::ObjectDoesNotExist)
    );
}

#[test]
fn insert_into_object_in_non_existent_namespace() {
    let mut storage = SledBackendStorage::default();

    assert_eq!(
        storage
            .write("not_existed", "object", as_rows(vec![(1u8, vec!["123"])],))
            .expect("no system errors"),
        Err(OperationOnObjectError::NamespaceDoesNotExist)
    );
}

#[test]
fn select_from_object_that_does_not_exist() {
    let mut storage = SledBackendStorage::default();

    storage
        .create_namespace("namespace")
        .expect("no system errors")
        .expect("namespace created");
    assert_eq!(
        storage
            .read("namespace", "not_existed")
            .expect("no system errors")
            .map(collect),
        Err(OperationOnObjectError::ObjectDoesNotExist)
    );
}

#[test]
fn select_from_object_in_not_existent_namespace() {
    let storage = SledBackendStorage::default();

    assert_eq!(
        storage
            .read("not_existed", "object")
            .expect("no system errors")
            .map(collect),
        Err(OperationOnObjectError::NamespaceDoesNotExist)
    );
}

#[test]
fn delete_some_records_from_object() {
    let mut storage = SledBackendStorage::default();

    create_object(&mut storage, "namespace", "object_name");
    storage
        .write(
            "namespace",
            "object_name",
            as_rows(vec![(1u8, vec!["123"]), (2u8, vec!["456"]), (3u8, vec!["789"])]),
        )
        .expect("no system errors")
        .expect("write occurred");

    assert_eq!(
        storage
            .delete("namespace", "object_name", as_keys(vec![2u8]))
            .expect("no system errors"),
        Ok(1)
    );

    assert_eq!(
        storage
            .read("namespace", "object_name")
            .expect("no system errors")
            .map(collect),
        Ok(as_read_cursor(vec![(1u8, vec!["123"]), (3u8, vec!["789"])]))
    );
}

#[test]
fn delete_from_not_existed_object() {
    let mut storage = SledBackendStorage::default();

    storage
        .create_namespace("namespace")
        .expect("no system errors")
        .expect("namespace created");

    assert_eq!(
        storage
            .delete("namespace", "not_existent", vec![])
            .expect("no system errors"),
        Err(OperationOnObjectError::ObjectDoesNotExist)
    );
}

#[test]
fn delete_from_not_existent_namespace() {
    let mut storage = SledBackendStorage::default();

    assert_eq!(
        storage
            .delete("not existent", "object", vec![])
            .expect("no system errors"),
        Err(OperationOnObjectError::NamespaceDoesNotExist)
    );
}

#[test]
fn select_all_from_object_with_many_columns() {
    let mut storage = SledBackendStorage::default();

    create_object(&mut storage, "namespace", "object_name");
    storage
        .write("namespace", "object_name", as_rows(vec![(1u8, vec!["1", "2", "3"])]))
        .expect("no system errors")
        .expect("write occurred");

    assert_eq!(
        storage
            .read("namespace", "object_name")
            .expect("no system errors")
            .map(collect),
        Ok(as_read_cursor(vec![(1u8, vec!["1", "2", "3"])]))
    );
}

#[test]
fn insert_multiple_rows() {
    let mut storage = SledBackendStorage::default();

    create_object(&mut storage, "namespace", "object_name");
    storage
        .write(
            "namespace",
            "object_name",
            as_rows(vec![
                (1u8, vec!["1", "2", "3"]),
                (2u8, vec!["4", "5", "6"]),
                (3u8, vec!["7", "8", "9"]),
            ]),
        )
        .expect("no system errors")
        .expect("write occurred");

    assert_eq!(
        storage
            .read("namespace", "object_name")
            .expect("no system errors")
            .map(collect),
        Ok(as_read_cursor(vec![
            (1u8, vec!["1", "2", "3"]),
            (2u8, vec!["4", "5", "6"]),
            (3u8, vec!["7", "8", "9"])
        ])),
    );
}

#[test]
fn write_read_delete_read_scenario() {
    let mut storage = SledBackendStorage::default();
    assert_eq!(storage.create_namespace("ns").unwrap(), Ok(()));
    assert_eq!(storage.create_object("ns", "t").unwrap(), Ok(()));
    assert_eq!(storage.write("ns", "t", as_rows(vec![(1u8, vec!["123"])])).unwrap(), Ok(1));
    assert_eq!(
        storage.read("ns", "t").unwrap().map(collect),
        Ok(as_read_cursor(vec![(1u8, vec!["123"])]))
    );
    assert_eq!(storage.delete("ns", "t", as_keys(vec![1u8])).unwrap(), Ok(1));
    assert_eq!(storage.read("ns", "t").unwrap().map(collect), Ok(vec![]));
}

#[test]
fn last_write_of_a_key_wins() {
    let mut storage = SledBackendStorage::default();
    create_object(&mut storage, "ns", "t");
    assert_eq!(
        storage
            .write("ns", "t", as_rows(vec![(2u8, vec!["a"]), (1u8, vec!["b"]), (2u8, vec!["c"])]))
            .unwrap(),
        Ok(3)
    );
    assert_eq!(
        storage.read("ns", "t").unwrap().map(collect),
        Ok(as_read_cursor(vec![(1u8, vec!["b"]), (2u8, vec!["c"])]))
    );
}

#[test]
fn write_order_does_not_change_what_is_read() {
    let mut storage = SledBackendStorage::default();
    create_object(&mut storage, "ns", "a");
    storage.create_object("ns", "b").unwrap().unwrap();
    storage.write("ns", "a", as_rows(vec![(1u8, vec!["x"]), (2u8, vec!["y"])])).unwrap().unwrap();
    storage.write("ns", "b", as_rows(vec![(2u8, vec!["y"]), (1u8, vec!["x"])])).unwrap().unwrap();
    let a = storage.read("ns", "a").unwrap().map(collect);
    let b = storage.read("ns", "b").unwrap().map(collect);
    assert_eq!(a, b);
}

#[test]
fn deleting_absent_keys_counts_nothing() {
    let mut storage = SledBackendStorage::default();
    create_object(&mut storage, "ns", "t");
    storage.write("ns", "t", as_rows(vec![(1u8, vec!["1"]), (2u8, vec!["2"])])).unwrap().unwrap();
    assert_eq!(storage.delete("ns", "t", as_keys(vec![7u8, 9u8])).unwrap(), Ok(0));
    assert_eq!(storage.delete("ns", "t", as_keys(vec![1u8, 1u8, 5u8])).unwrap(), Ok(1));
    assert_eq!(
        storage.read("ns", "t").unwrap().map(collect),
        Ok(as_read_cursor(vec![(2u8, vec!["2"])]))
    );
}

#[test]
fn namespaces_do_not_affect_each_other() {
    let mut storage = SledBackendStorage::default();
    create_object(&mut storage, "one", "t");
    create_object(&mut storage, "two", "t");
    storage.write("one", "t", as_rows(vec![(1u8, vec!["1"])])).unwrap().unwrap();
    assert_eq!(storage.read("two", "t").unwrap().map(collect), Ok(vec![]));
    storage.drop_object("one", "t").unwrap().unwrap();
    assert_eq!(storage.write("two", "t", as_rows(vec![(5u8, vec!["5"])])).unwrap(), Ok(1));
    assert_eq!(
        storage.read("two", "t").unwrap().map(collect),
        Ok(as_read_cursor(vec![(5u8, vec!["5"])]))
    );
}

#[test]
fn dropped_object_starts_empty_when_created_again() {
    let mut storage = SledBackendStorage::default();
    create_object(&mut storage, "ns", "t");
    storage.write("ns", "t", as_rows(vec![(1u8, vec!["1"])])).unwrap().unwrap();
    assert_eq!(storage.drop_object("ns", "t").unwrap(), Ok(()));
    assert_eq!(storage.drop_object("ns", "t").unwrap(), Err(DropObjectError::ObjectDoesNotExist));
    assert_eq!(storage.write("ns", "t", vec![]).unwrap(), Err(OperationOnObjectError::ObjectDoesNotExist));
    storage.create_object("ns", "t").unwrap().unwrap();
    assert_eq!(storage.read("ns", "t").unwrap().map(collect), Ok(vec![]));
}

#[test]
fn engine_default_keyspace_is_not_an_object() {
    let mut storage = SledBackendStorage::default();
    storage.create_namespace("ns").unwrap().unwrap();
    assert_eq!(
        storage.create_object("ns", "__sled__default").unwrap(),
        Err(CreateObjectError::ObjectAlreadyExists)
    );
    assert!(storage.drop_object("ns", "__sled__default").is_err());
    assert!(matches!(
        storage.read("ns", "__sled__default").unwrap(),
        Err(OperationOnObjectError::ObjectDoesNotExist)
    ));
}

#[test]
fn read_cursor_is_lazy_and_ends() {
    let mut storage = SledBackendStorage::default();
    create_object(&mut storage, "ns", "t");
    storage.write("ns", "t", as_rows(vec![(1u8, vec!["1"]), (2u8, vec!["2"])])).unwrap().unwrap();
    let mut cursor = storage.read("ns", "t").unwrap().unwrap();
    assert_eq!(cursor.next().map(|r| r.unwrap()), Some((vec![1u8], b"1".to_vec())));
    assert_eq!(cursor.next().map(|r| r.unwrap()), Some((vec![2u8], b"2".to_vec())));
    assert!(cursor.next().is_none());
}

#[test]
fn read_all_drains_in_key_order() {
    let mut storage = SledBackendStorage::default();
    create_object(&mut storage, "ns", "t");
    storage
        .write("ns", "t", as_rows(vec![(3u8, vec!["c"]), (1u8, vec!["a"]), (2u8, vec!["b"])]))
        .unwrap()
        .unwrap();
    let mut cursor = storage.read("ns", "t").unwrap().unwrap();
    let rows = cursor.read_all().unwrap();
    assert_eq!(rows, as_rows(vec![(1u8, vec!["a"]), (2u8, vec!["b"]), (3u8, vec!["c"])]));
    assert!(cursor.next().is_none());
}

#[test]
fn empty_write_and_delete_count_nothing() {
    let mut storage = SledBackendStorage::default();
    create_object(&mut storage, "ns", "t");
    assert_eq!(storage.write("ns", "t", vec![]).unwrap(), Ok(0));
    assert_eq!(storage.delete("ns", "t", vec![]).unwrap(), Ok(0));
    assert_eq!(storage.read("ns", "t").unwrap().map(collect), Ok(vec![]));
}
