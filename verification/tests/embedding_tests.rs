use rand::Rng;
use vecstore::buffer::BufferManager;
use vecstore::embedding::EmbeddingOffset;
use vecstore::embedding::RawVectorEmbedding;
use vecstore::embedding::read_embedding;
use vecstore::embedding::write_embedding;
use vecstore::types::VectorId;
use vecstore::versioning::CommitHash;

fn get_random_embedding(rng: &mut rand::rngs::ThreadRng) -> RawVectorEmbedding {
    let count = rng.gen_range(100..200);
    let raw_vec: Vec<u32> = (0..count)
        .map(|_| rng.gen_range(-1.0f32..1.0f32).to_bits())
        .collect();

    RawVectorEmbedding {
        raw_vec,
        hash_vec: VectorId::Int(rng.gen()),
    }
}

fn assert_emb_eq(a: &RawVectorEmbedding, b: &RawVectorEmbedding) {
    assert_eq!(a.raw_vec, b.raw_vec);
    match (&a.hash_vec, &b.hash_vec) {
        (VectorId::Int(x), VectorId::Int(y)) => assert_eq!(x, y),
        (VectorId::Str(x), VectorId::Str(y)) => assert_eq!(x, y),
        _ => assert!(false),
    }
}

#[test]
fn test_embedding_serialization() {
    let mut rng = rand::thread_rng();
    let embedding = get_random_embedding(&mut rng);

    let mut bufman = BufferManager::new();
    let offset = write_embedding(&mut bufman, &embedding).unwrap();

    let (deserialized, _) = read_embedding(&mut bufman, offset).unwrap();

    assert_emb_eq(&embedding, &deserialized);
}

#[test]
fn test_embeddings_serialization() {
    let mut rng = rand::thread_rng();
    let embeddings: Vec<_> = (0..20).map(|_| get_random_embedding(&mut rng)).collect();

    let mut bufman = BufferManager::new();

    for embedding in &embeddings {
        write_embedding(&mut bufman, embedding).unwrap();
    }

    let mut offset = 0;

    for embedding in embeddings {
        let (deserialized, next) = read_embedding(&mut bufman, offset).unwrap();
        offset = next;

        assert_emb_eq(&embedding, &deserialized);
    }
}

#[test]
fn string_id_round_trip() {
    let embedding = RawVectorEmbedding {
        raw_vec: vec![0.1f32.to_bits(), 0.2f32.to_bits()],
        hash_vec: VectorId::Str(String::from("alpha")),
    };
    let mut bufman = BufferManager::new();
    let offset = write_embedding(&mut bufman, &embedding).unwrap();
    let (deserialized, _) = read_embedding(&mut bufman, offset).unwrap();
    assert_emb_eq(&embedding, &deserialized);
}

#[test]
fn embedding_offset_round_trip() {
    // serialize is exactly 8 bytes and deserialize inverts it.
    let x = EmbeddingOffset { version: CommitHash(0xDEAD_BEEF), offset: 12345 };
    let bytes = x.serialize();
    assert_eq!(bytes.len(), 8);
    let y = EmbeddingOffset::deserialize(&bytes).unwrap();
    assert_eq!(x, y);
}

#[test]
fn embedding_offset_layout() {
    let x = EmbeddingOffset { version: CommitHash(1), offset: 2 };
    assert_eq!(x.serialize(), vec![1, 0, 0, 0, 2, 0, 0, 0]);
}

#[test]
fn embedding_offset_rejects_wrong_length() {
    let short = vec![0u8; 7];
    assert!(EmbeddingOffset::deserialize(&short).is_err());
    let long = vec![0u8; 9];
    assert!(EmbeddingOffset::deserialize(&long).is_err());
}

#[test]
fn read_embedding_rejects_garbage() {
    let mut bufman = BufferManager::with_data(vec![5, 0, 0, 0, 9, 9, 9, 9, 9]);
    assert!(read_embedding(&mut bufman, 0).is_err());
}

#[test]
fn image_bytes_copies_the_whole_image() {
    // The image accessor hands back exactly the bytes the engine
    // holds, so a caller can move images in and out of other stores.
    let bufman = BufferManager::with_data(vec![7, 0, 255, 42]);
    assert_eq!(bufman.image_bytes(), vec![7, 0, 255, 42]);
    let empty = BufferManager::new();
    assert_eq!(empty.image_bytes(), Vec::<u8>::new());
}
