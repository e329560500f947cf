use vecstore::api::FindSimilarVectorsDto;
use vecstore::api::VectorsError;
use vecstore::api::create_dense_vector;
use vecstore::api::find_similar_vectors;
use vecstore::api::get_vector_by_id;
use vecstore::api::init_vector_store;
use vecstore::meta::retrieve_current_version;
use vecstore::types::VectorId;

fn bits(values: &[f32]) -> Vec<u32> {
    values.iter().map(|v| v.to_bits()).collect()
}

#[test]
fn empty_query_is_rejected() {
    // Searching with an empty vector answers the exact validation
    // error.
    let store = init_vector_store(
        String::from("query-collection"),
        3,
        Some((-1.0f32).to_bits()),
        Some(1.0f32.to_bits()),
        2,
    )
    .unwrap();
    let dto = FindSimilarVectorsDto { vector: Vec::new(), k: 1 };
    match find_similar_vectors(&store, dto) {
        Err(VectorsError::FailedToFindSimilarVectors(msg)) => {
            assert_eq!(msg, "Vector shouldn't be empty");
        },
        _ => assert!(false),
    }
}

#[test]
fn search_answers_at_most_k_sorted_hits() {
    let mut store = init_vector_store(
        String::from("query-collection-2"),
        3,
        Some((-1.0f32).to_bits()),
        Some(1.0f32.to_bits()),
        2,
    )
    .unwrap();
    for i in 0..5i64 {
        let v = 0.1f32 * (i as f32 + 1.0);
        create_dense_vector(&mut store, VectorId::Int(i), bits(&[v, 0.2, -v])).unwrap();
    }
    let dto = FindSimilarVectorsDto { vector: bits(&[0.1, 0.2, 0.3]), k: 2 };
    let hits = find_similar_vectors(&store, dto).unwrap();
    assert!(hits.len() <= 2);
    for w in hits.windows(2) {
        assert!(w[0].score >= w[1].score);
    }
    // A zero budget yields no hits.
    let dto0 = FindSimilarVectorsDto { vector: bits(&[0.1, 0.2, 0.3]), k: 0 };
    assert_eq!(find_similar_vectors(&store, dto0).unwrap().len(), 0);
}

#[test]
fn round_trip_dense_vector() {
    // Create a dim-4 collection over [-1, 1]; insert {id: 42, values:
    // [0.1, 0.2, 0.3, 0.4]}; fetching by id answers the same values.
    let mut store = init_vector_store(
        String::from("test-collection"),
        4,
        Some((-1.0f32).to_bits()),
        Some(1.0f32.to_bits()),
        2,
    )
    .unwrap();
    let values = bits(&[0.1, 0.2, 0.3, 0.4]);
    let resp = create_dense_vector(&mut store, VectorId::Int(42), values.clone()).unwrap();
    assert_eq!(resp.values, values);
    let fetched = get_vector_by_id(&mut store, &VectorId::Int(42)).unwrap();
    match fetched.id {
        VectorId::Int(v) => assert_eq!(v, 42),
        _ => assert!(false),
    }
    assert_eq!(fetched.values, values);
}

#[test]
fn missing_vector_is_not_found() {
    let mut store = init_vector_store(
        String::from("test-collection-2"),
        3,
        None,
        None,
        1,
    )
    .unwrap();
    match get_vector_by_id(&mut store, &VectorId::Int(7)) {
        Err(VectorsError::NotFound) => {},
        _ => assert!(false),
    }
}

#[test]
fn ongoing_transaction_blocks_bare_insert() {
    // Open a transaction, then a non-transactional create fails with
    // the exact ongoing-transaction error; after committing, the same
    // create succeeds.
    let mut store = init_vector_store(
        String::from("txn-collection"),
        3,
        Some((-1.0f32).to_bits()),
        Some(1.0f32.to_bits()),
        2,
    )
    .unwrap();
    let txn = store.create_transaction("main").unwrap();
    match create_dense_vector(&mut store, VectorId::Int(1), bits(&[0.1, 0.2, 0.3])) {
        Err(VectorsError::FailedToCreateVector(msg)) => {
            assert_eq!(msg, "there is an ongoing transaction!");
        },
        _ => assert!(false),
    }
    store.commit_transaction(txn).unwrap();
    assert!(create_dense_vector(&mut store, VectorId::Int(1), bits(&[0.1, 0.2, 0.3])).is_ok());
}

#[test]
fn at_most_one_open_transaction() {
    let mut store = init_vector_store(
        String::from("txn-collection-2"),
        3,
        None,
        None,
        1,
    )
    .unwrap();
    let txn = store.create_transaction("main").unwrap();
    // A second open fails while the slot is taken.
    assert!(store.create_transaction("main").is_err());
    store.abort_transaction(txn).unwrap();
    // After the abort the slot is free again.
    assert!(store.create_transaction("main").is_ok());
}

#[test]
fn commit_advances_version_by_one() {
    let mut store = init_vector_store(
        String::from("txn-collection-3"),
        3,
        None,
        None,
        1,
    )
    .unwrap();
    let before = retrieve_current_version(&store.lmdb).unwrap();
    let txn = store.create_transaction("main").unwrap();
    store.commit_transaction(txn).unwrap();
    let after = retrieve_current_version(&store.lmdb).unwrap();
    assert_eq!(after.version, before.version + 1);
}

#[test]
fn abort_keeps_version_and_drains_queue() {
    let mut store = init_vector_store(
        String::from("txn-collection-4"),
        3,
        None,
        None,
        1,
    )
    .unwrap();
    let before = retrieve_current_version(&store.lmdb).unwrap();
    let txn = store.create_transaction("main").unwrap();
    store.abort_transaction(txn).unwrap();
    let after = retrieve_current_version(&store.lmdb).unwrap();
    assert_eq!(after.version, before.version);
    assert_eq!(store.exec_queue_nodes.len(), 0);
}

#[test]
fn neighbors_bounded_after_inserts() {
    // After any sequence of inserts, every node keeps at most 20
    // neighbors.
    let mut store = init_vector_store(
        String::from("bound-collection"),
        4,
        Some((-1.0f32).to_bits()),
        Some(1.0f32.to_bits()),
        2,
    )
    .unwrap();
    for i in 0..12i64 {
        let v = 0.05f32 * (i as f32 + 1.0);
        create_dense_vector(&mut store, VectorId::Int(i), bits(&[v, -v, v * 0.5, 0.3])).unwrap();
    }
    for node in &store.nodes {
        assert!(node.neighbors.len() <= 20);
    }
}

#[test]
fn empty_name_is_invalid() {
    assert!(init_vector_store(String::new(), 3, None, None, 1).is_err());
}

#[test]
fn commit_without_open_transaction_fails() {
    let mut store = init_vector_store(
        String::from("txn-collection-5"),
        3,
        None,
        None,
        1,
    )
    .unwrap();
    match store.commit_transaction(vecstore::versioning::CommitHash(1)) {
        Err(vecstore::common::WaCustomError::DatabaseError(_)) => {},
        _ => assert!(false),
    }
}

#[test]
fn error_status_codes() {
    // A missing entity is 404, internal faults 500, the rest 400.
    assert_eq!(VectorsError::NotFound.status_code(), 404);
    assert_eq!(VectorsError::FailedToGetAppEnv.status_code(), 500);
    assert_eq!(
        VectorsError::WaCustom(vecstore::common::WaCustomError::InvalidParams).status_code(),
        500
    );
    assert_eq!(
        VectorsError::FailedToCreateVector(String::from("x")).status_code(),
        400
    );
    assert_eq!(VectorsError::NotImplemented.status_code(), 400);
}

#[test]
fn inverted_bounds_are_invalid() {
    // A lower bound at or above the upper bound is rejected outright.
    match init_vector_store(
        String::from("bad-bounds"),
        3,
        Some(1.0f32.to_bits()),
        Some((-1.0f32).to_bits()),
        1,
    ) {
        Err(vecstore::common::WaCustomError::InvalidParams) => {},
        _ => assert!(false),
    }
}
