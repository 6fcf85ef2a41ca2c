use storage::{CreateObjectError, NamespaceAlreadyExists, NamespaceDoesNotExist, OperationOnObjectError, SledBackendStorage};

#[test]
fn create_namespaces_with_different_names() {
    let mut storage = SledBackendStorage::default();

    assert_eq!(
        storage.create_namespace("namespace_1").expect("namespace created"),
        Ok(())
    );
    assert_eq!(
        storage.create_namespace("namespace_2").expect("namespace created"),
        Ok(())
    );
}

#[test]
fn create_namespace_with_existing_name() {
    let mut storage = SledBackendStorage::default();

    storage
        .create_namespace("namespace")
        .expect("no system errors")
        .expect("namespace created");

    assert_eq!(
        storage.create_namespace("namespace").expect("no system errors"),
        Err(NamespaceAlreadyExists)
    );
}

#[test]
fn drop_namespace() {
    let mut storage = SledBackendStorage::default();

    storage
        .create_namespace("namespace")
        .expect("no system errors")
        .expect("namespace created");

    assert_eq!(storage.drop_namespace("namespace").expect("no system errors"), Ok(()));
    assert_eq!(storage.create_namespace("namespace").expect("no system errors"), Ok(()));
}

#[test]
fn drop_namespace_that_was_not_created() {
    let mut storage = SledBackendStorage::default();

    assert_eq!(
        storage.drop_namespace("does_not_exists").expect("no system errors"),
        Err(NamespaceDoesNotExist)
    );
}

#[test]
fn dropping_namespace_drops_objects_in_it() {
    let mut storage = SledBackendStorage::default();

    storage
        .create_namespace("namespace")
        .expect("no system errors")
        .expect("namespace created");
    storage
        .create_object("namespace", "object_name_1")
        .expect("no system errors")
        .expect("object created");
    storage
        .create_object("namespace", "object_name_2")
        .expect("no system errors")
        .expect("object created");

    assert_eq!(storage.drop_namespace("namespace").expect("no system errors"), Ok(()));
    assert_eq!(
        storage.create_namespace("namespace").expect("namespace created"),
        Ok(())
    );
    assert_eq!(
        storage
            .create_object("namespace", "object_name_1")
            .expect("no system errors"),
        Ok(())
    );
    assert_eq!(
        storage
            .create_object("namespace", "object_name_2")
            .expect("no system errors"),
        Ok(())
    );
}

#[test]
fn objects_of_dropped_namespace_are_unreachable() {
    let mut storage = SledBackendStorage::default();
    storage.create_namespace("ns").unwrap().unwrap();
    storage.create_object("ns", "t").unwrap().unwrap();
    storage.write("ns", "t", vec![(vec![1], b"123".to_vec())]).unwrap().unwrap();
    storage.drop_namespace("ns").unwrap().unwrap();

    assert_eq!(
        storage.write("ns", "t", vec![(vec![2], b"456".to_vec())]).unwrap(),
        Err(OperationOnObjectError::NamespaceDoesNotExist)
    );
    assert!(matches!(storage.read("ns", "t").unwrap(), Err(OperationOnObjectError::NamespaceDoesNotExist)));

    storage.create_namespace("ns").unwrap().unwrap();
    assert!(matches!(storage.read("ns", "t").unwrap(), Err(OperationOnObjectError::ObjectDoesNotExist)));
    assert_eq!(storage.delete("ns", "t", vec![vec![1]]).unwrap(), Err(OperationOnObjectError::ObjectDoesNotExist));
}

#[test]
fn create_drop_create_namespace_again() {
    let mut storage = SledBackendStorage::new();
    assert_eq!(storage.create_namespace("n").unwrap(), Ok(()));
    assert_eq!(storage.create_namespace("n").unwrap(), Err(NamespaceAlreadyExists));
    assert_eq!(storage.drop_namespace("n").unwrap(), Ok(()));
    assert_eq!(storage.drop_namespace("n").unwrap(), Err(NamespaceDoesNotExist));
    assert_eq!(storage.create_namespace("n").unwrap(), Ok(()));
    assert_eq!(storage.create_object("n", "o").unwrap(), Ok(()));
    assert_eq!(storage.create_object("n", "o").unwrap(), Err(CreateObjectError::ObjectAlreadyExists));
}
