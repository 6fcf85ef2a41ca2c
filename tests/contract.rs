use storage::{BackendStorage, CreateObjectError, OperationOnObjectError, SledBackendStorage};

fn write_then_count<S: BackendStorage>(storage: &mut S) -> usize {
    storage.create_namespace("ns").unwrap().unwrap();
    assert_eq!(
        storage.create_object("missing", "t").unwrap(),
        Err(CreateObjectError::NamespaceDoesNotExist)
    );
    storage.create_object("ns", "t").unwrap().unwrap();
    let written = storage
        .write("ns", "t", vec![(vec![1], b"a".to_vec()), (vec![2], b"b".to_vec())])
        .unwrap()
        .unwrap();
    assert_eq!(written, 2);
    assert_eq!(storage.delete("ns", "t", vec![vec![2], vec![3]]).unwrap(), Ok(1));
    assert!(matches!(storage.read("ns", "u").unwrap(), Err(OperationOnObjectError::ObjectDoesNotExist)));
    storage.drop_object("ns", "t").unwrap().unwrap();
    storage.drop_namespace("ns").unwrap().unwrap();
    written
}

#[test]
fn sled_backend_through_the_storage_contract() {
    let mut storage = SledBackendStorage::default();
    assert_eq!(write_then_count(&mut storage), 2);
}
