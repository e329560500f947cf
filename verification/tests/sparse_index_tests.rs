use vecstore::api::VectorsError;
use vecstore::api::create_sparse_vector;
use vecstore::inverted_index::InvertedIndex;
use vecstore::meta::MetaDb;
use vecstore::quantization::QuantizationMetric;
use vecstore::quantization::StorageType;
use vecstore::types::DistanceMetric;
use vecstore::versioning::VersionControl;
use vecstore::sparse::InvertedIndexNewDSNode;
use vecstore::sparse::InvertedIndexSparseAnnNewDS;
use vecstore::sparse::SparseVector;
use vecstore::sparse::calculate_path;
use vecstore::sparse::largest_power_of_4_below;

fn fixed(v: f32) -> i64 {
    (v * 65536.0).round() as i64
}

#[test]
fn sparse_quantization_lookup() {
    // Insert (dim 5, value 0.5, id 7) and (dim 5, value 0.5, id 8):
    // get(5, 7) answers bucket 31 = floor(0.5 * 63), and an id never
    // inserted answers nothing.
    let mut index = InvertedIndexSparseAnnNewDS::new();
    index.insert(5, fixed(0.5), 7);
    index.insert(5, fixed(0.5), 8);
    assert_eq!(index.get(5, 7), Some(31));
    assert_eq!(index.get(5, 8), Some(31));
    assert_eq!(index.get(5, 9), None);
}

#[test]
fn path_decomposition() {
    // 21 = 16 + 4 + 1, so the greedy path is [2, 1, 0].
    assert_eq!(calculate_path(21, 0), vec![2, 1, 0]);
    assert_eq!(calculate_path(0, 0), Vec::<usize>::new());
    assert_eq!(calculate_path(1, 0), vec![0]);
    assert_eq!(calculate_path(16384, 0), vec![7]);
}

#[test]
fn largest_power_of_4_bounds() {
    // For every n >= 1 the answer (i, p) satisfies p <= n < 4 * p
    // within the table.
    assert_eq!(largest_power_of_4_below(1), (0, 1));
    assert_eq!(largest_power_of_4_below(3), (0, 1));
    assert_eq!(largest_power_of_4_below(4), (1, 4));
    assert_eq!(largest_power_of_4_below(21), (2, 16));
    assert_eq!(largest_power_of_4_below(16384), (7, 16384));
    // Past the table the largest entry answers.
    assert_eq!(largest_power_of_4_below(1_000_000), (7, 16384));
    for n in 1u32..2000 {
        let (_, p) = largest_power_of_4_below(n);
        assert!(p <= n);
        assert!(n < 4 * p);
    }
}

#[test]
fn quantize_buckets() {
    assert_eq!(InvertedIndexNewDSNode::quantize(fixed(0.0)), 0);
    assert_eq!(InvertedIndexNewDSNode::quantize(fixed(0.5)), 31);
    assert_eq!(InvertedIndexNewDSNode::quantize(fixed(1.0)), 63);
    assert_eq!(InvertedIndexNewDSNode::quantize(fixed(2.0)), 63);
    assert_eq!(InvertedIndexNewDSNode::quantize(fixed(-0.5)), 0);
}

#[test]
fn sparse_insert_then_get_returns_quantized_value() {
    // For a fresh id, a sparse insert of (d, v, id) with v != 0 is
    // found again at exactly quantize(v).
    let mut index = InvertedIndexSparseAnnNewDS::new();
    index.insert(77, fixed(0.25), 40);
    assert_eq!(index.get(77, 40), Some((0.25f32 * 63.0) as u8));
    index.insert(16389, fixed(0.99), 41);
    assert_eq!(index.get(16389, 41), Some((0.99f32 * 63.0) as u8));
}

#[test]
fn add_sparse_vector_inserts_nonzero_entries() {
    let mut index = InvertedIndexSparseAnnNewDS::new();
    let vector = SparseVector {
        vector_id: 9,
        entries: vec![(1, fixed(0.5)), (2, 0), (3, fixed(1.0))],
    };
    assert!(index.add_sparse_vector(vector).is_ok());
    assert_eq!(index.get(1, 9), Some(31));
    // The zero entry is skipped entirely.
    assert_eq!(index.get(2, 9), None);
    assert_eq!(index.get(3, 9), Some(63));
}

#[test]
fn find_node_walks_existing_paths_only() {
    let mut index = InvertedIndexSparseAnnNewDS::new();
    assert!(index.find_node(0).is_some());
    assert!(index.find_node(21).is_none());
    index.insert(21, fixed(0.1), 3);
    assert!(index.find_node(21).is_some());
    // Dimension 20 exists implicitly along the path to 21, but no
    // path was ever grown toward 22.
    assert!(index.find_node(20).is_some());
    assert!(index.find_node(22).is_none());
}

#[test]
fn sparse_create_is_gated_and_unfinished() {
    let mut index = InvertedIndex::new(
        String::from("sparse-collection"),
        None,
        true,
        None,
        None,
        None,
        MetaDb::new(),
        None,
        QuantizationMetric::Scalar,
        DistanceMetric::Cosine,
        StorageType::UnsignedByte,
        VersionControl::new(),
    );
    // Outside a transaction the entries land in the trie, and the
    // unsettled response surfaces as not-implemented.
    match create_sparse_vector(&mut index, 7, vec![(5, fixed(0.5))]) {
        Err(VectorsError::NotImplemented) => {},
        _ => assert!(false),
    }
    assert_eq!(index.root.get(5, 7), Some(31));
    // With an open transaction the write is refused outright.
    index.current_open_transaction = Some(vecstore::versioning::CommitHash(9));
    match create_sparse_vector(&mut index, 8, vec![(5, fixed(0.5))]) {
        Err(VectorsError::FailedToCreateVector(msg)) => {
            assert_eq!(msg, "there is an ongoing transaction!");
        },
        _ => assert!(false),
    }
    assert_eq!(index.root.get(5, 8), None);
}
