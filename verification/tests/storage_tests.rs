use vecstore::buffer::BufferManager;
use vecstore::buffer::SeekPos;
use vecstore::fixed::bits_to_fixed;
use vecstore::quantization::QuantizationMetric;
use vecstore::quantization::QuantizationError;
use vecstore::quantization::StorageType;
use vecstore::quantization::scalar_quantize_value;
use vecstore::serializer::NodeRecord;
use vecstore::serializer::deserialize_node;
use vecstore::serializer::serialize_node;
use vecstore::types::DistanceMetric;
use vecstore::types::Storage;
use vecstore::types::isqrt;
use vecstore::versioning::VersionControl;

#[test]
fn cursor_read_write_round_trip() {
    let mut bm = BufferManager::new();
    let c = bm.open_cursor();
    bm.write_u32_with_cursor(c, 0xAABBCCDD).unwrap();
    bm.write_u8_with_cursor(c, 7).unwrap();
    bm.seek_with_cursor(c, SeekPos::Start(0)).unwrap();
    assert_eq!(bm.read_u32_with_cursor(c).unwrap(), 0xAABBCCDD);
    assert_eq!(bm.read_u8_with_cursor(c).unwrap(), 7);
    // Reading past the end is an end-of-file error.
    assert!(bm.read_u8_with_cursor(c).is_err());
    // Seeking from the end and overwriting patches in place.
    bm.seek_with_cursor(c, SeekPos::End(-1)).unwrap();
    bm.write_u8_with_cursor(c, 9).unwrap();
    assert_eq!(bm.len(), 5);
    bm.seek_with_cursor(c, SeekPos::Start(4)).unwrap();
    assert_eq!(bm.read_u8_with_cursor(c).unwrap(), 9);
    bm.close_cursor(c).unwrap();
}

#[test]
fn node_record_round_trip() {
    // A serialized node record reads back with the same level,
    // payload location, pointers and neighbors.
    let mut bm = BufferManager::new();
    let record = NodeRecord {
        hnsw_level: 3,
        prop_offset: 100,
        prop_length: 32,
        parent: Some((11, 1)),
        child: Some((22, 1)),
        neighbors_offset: 0,
        neighbors: vec![(5, 1, 900), (6, 1, 800)],
    };
    let start = serialize_node(&mut bm, None, &record).unwrap();
    let back = deserialize_node(&mut bm, start).unwrap();
    assert_eq!(back.hnsw_level, 3);
    assert_eq!(back.prop_offset, 100);
    assert_eq!(back.prop_length, 32);
    assert_eq!(back.parent, Some((11, 1)));
    assert_eq!(back.child, Some((22, 1)));
    assert_eq!(back.neighbors, vec![(5, 1, 900), (6, 1, 800)]);
}

#[test]
fn node_record_without_links() {
    let mut bm = BufferManager::new();
    let record = NodeRecord {
        hnsw_level: 0,
        prop_offset: 4,
        prop_length: 9,
        parent: None,
        child: None,
        neighbors_offset: 0,
        neighbors: Vec::new(),
    };
    let start = serialize_node(&mut bm, None, &record).unwrap();
    let back = deserialize_node(&mut bm, start).unwrap();
    assert_eq!(back.hnsw_level, 0);
    assert_eq!(back.parent, None);
    assert_eq!(back.child, None);
    assert_eq!(back.neighbors.len(), 0);
}

#[test]
fn fixed_point_decoding() {
    assert_eq!(bits_to_fixed(0.5f32.to_bits()), 32768);
    assert_eq!(bits_to_fixed(1.0f32.to_bits()), 65536);
    assert_eq!(bits_to_fixed((-1.0f32).to_bits()), -65536);
    assert_eq!(bits_to_fixed(0.0f32.to_bits()), 0);
    assert_eq!(bits_to_fixed(2.0f32.to_bits()), 131072);
    assert_eq!(bits_to_fixed(0.25f32.to_bits()), 16384);
}

#[test]
fn scalar_quantization_values() {
    // The range [-1, 1] maps linearly onto [0, 255].
    assert_eq!(scalar_quantize_value(-65536), 0);
    assert_eq!(scalar_quantize_value(0), 127);
    assert_eq!(scalar_quantize_value(65536), 255);
    assert_eq!(scalar_quantize_value(-100000), 0);
    assert_eq!(scalar_quantize_value(100000), 255);
}

#[test]
fn quantization_metric_paths() {
    let metric = QuantizationMetric::Scalar;
    match metric.quantize(&vec![0, 65536], StorageType::UnsignedByte).unwrap() {
        Storage::UnsignedByte(b) => assert_eq!(b, vec![127, 255]),
        _ => assert!(false),
    }
    // Layouts other than one byte per value are not implemented.
    match metric.quantize(&vec![0], StorageType::HalfPrecisionFP) {
        Err(QuantizationError::NotImplemented) => {},
        _ => assert!(false),
    }
}

#[test]
fn cosine_score_of_identical_vectors() {
    // cos(v, v) = 1.0, which the fixed-point metric reports as 65536
    // up to truncation from the integer square root.
    let metric = DistanceMetric::Cosine;
    let a = Storage::UnsignedByte(vec![3, 4]);
    let b = Storage::UnsignedByte(vec![3, 4]);
    let score = metric.calculate(&a, &b).unwrap();
    assert_eq!(score.get_value(), 65536);
    // Mismatched lengths are invalid.
    let c = Storage::UnsignedByte(vec![3]);
    assert!(metric.calculate(&a, &c).is_err());
    // A zero vector has no cosine.
    let z = Storage::UnsignedByte(vec![0, 0]);
    assert!(metric.calculate(&a, &z).is_err());
}

#[test]
fn integer_square_root_bounds() {
    assert_eq!(isqrt(0), 0);
    assert_eq!(isqrt(1), 1);
    assert_eq!(isqrt(24), 4);
    assert_eq!(isqrt(25), 5);
    assert_eq!(isqrt(0xffff_fffe), 65535);
}

#[test]
fn version_hashes_are_recorded_per_branch() {
    let mut vcs = VersionControl::new();
    let h0 = vcs.generate_hash("main", 0).unwrap();
    let h1 = vcs.generate_hash("main", 1).unwrap();
    assert_eq!(vcs.versions.len(), 2);
    let v0 = vcs.get_version_hash(&h0).unwrap();
    assert_eq!(v0.version, 0);
    assert_eq!(v0.parent_hash, None);
    let v1 = vcs.get_version_hash(&h1).unwrap();
    assert_eq!(v1.version, 1);
    assert_eq!(v1.parent_hash, Some(h0.0));
}
