use std::hash::Hasher;
use vecstore::api::CreateCollectionDto;
use vecstore::api::create_collection;
use vecstore::api::get_collection_by_id;
use vecstore::collection::Collection;
use vecstore::collection::CollectionConfig;
use vecstore::collection::DenseVectorOptions;
use vecstore::collection::SparseVectorOptions;
use vecstore::meta::MetaDb;

fn sample_collection(name: &str) -> Collection {
    Collection::new(
        String::from(name),
        Some(String::from("a sample collection")),
        DenseVectorOptions { enabled: true, auto_create_index: true, dimension: 4 },
        SparseVectorOptions { enabled: false, auto_create_index: false },
        None,
        CollectionConfig { max_vectors: Some(100), replication_factor: None },
    )
}

#[test]
fn collection_key_is_siphash_of_name() {
    // The primary key is the SipHash-2-4 digest of the name, little
    // endian: computed independently with the hasher itself.
    let c = sample_collection("my-vectors");
    let mut hasher = siphasher::sip::SipHasher24::new();
    hasher.write("my-vectors".as_bytes());
    let expected = hasher.finish();
    assert_eq!(c.get_hash(), expected);
    assert_eq!(c.get_key(), expected.to_le_bytes().to_vec());
}

#[test]
fn collection_serialize_layout() {
    let c = Collection::new(
        String::from("ab"),
        None,
        DenseVectorOptions { enabled: true, auto_create_index: false, dimension: 3 },
        SparseVectorOptions { enabled: false, auto_create_index: true },
        None,
        CollectionConfig { max_vectors: None, replication_factor: Some(2) },
    );
    let bytes = c.serialize().unwrap();
    let expected: Vec<u8> = vec![
        2, 0, 0, 0, // name length
        b'a', b'b', // name bytes
        0, // no description
        1, 0, // dense: enabled, no auto index
        3, 0, 0, 0, // dimension
        0, 1, // sparse: disabled, auto index
        0, // no metadata schema
        0, // no max_vectors
        1, 2, 0, 0, 0, // replication factor 2
    ];
    assert_eq!(bytes, expected);
}

#[test]
fn collection_persist_stores_blob() {
    let c = sample_collection("persisted");
    let mut db = MetaDb::new();
    c.persist(&mut db).unwrap();
    assert_eq!(db.collections.len(), 1);
    assert_eq!(db.collections[0].0, c.get_hash());
    assert_eq!(db.collections[0].1, c.serialize().unwrap());
    // Persisting again replaces the blob instead of duplicating it.
    c.persist(&mut db).unwrap();
    assert_eq!(db.collections.len(), 1);
}

#[test]
fn create_collection_validates_dimension() {
    let dto = CreateCollectionDto {
        name: String::from("bad"),
        description: None,
        dense_vector: DenseVectorOptions { enabled: true, auto_create_index: true, dimension: 0 },
        sparse_vector: SparseVectorOptions { enabled: false, auto_create_index: false },
        metadata_schema: None,
        config: CollectionConfig { max_vectors: None, replication_factor: None },
        min_val: None,
        max_val: None,
    };
    assert!(create_collection(dto).is_err());
}

#[test]
fn create_and_find_collection() {
    let dto = CreateCollectionDto {
        name: String::from("catalogued"),
        description: None,
        dense_vector: DenseVectorOptions { enabled: true, auto_create_index: true, dimension: 5 },
        sparse_vector: SparseVectorOptions { enabled: false, auto_create_index: false },
        metadata_schema: None,
        config: CollectionConfig { max_vectors: None, replication_factor: None },
        min_val: Some((-1.0f32).to_bits()),
        max_val: Some(1.0f32.to_bits()),
    };
    let (collection, response) = create_collection(dto).unwrap();
    assert_eq!(response.name, "catalogued");
    assert_eq!(response.dimensions, 5);
    let catalog = vec![collection];
    let found = get_collection_by_id(&catalog, "catalogued").unwrap();
    assert_eq!(found.dimensions, 5);
    assert_eq!(found.vector_db_name, "catalogued");
    assert!(get_collection_by_id(&catalog, "missing").is_none());
}
