//! The transport-agnostic API surface: collection creation and
//! lookup, dense and sparse vector ingestion with the transaction
//! gate, similarity search, and the transaction coordinator.

use vstd::prelude::*;
use vstd::string::StringSliceAdditionalSpecFns;

use crate::collection::Collection;
use crate::collection::CollectionConfig;
use crate::collection::DenseVectorOptions;
use crate::collection::SparseVectorOptions;
use crate::common::WaCustomError;
use crate::embedding::RawVectorEmbedding;
use crate::embedding::EmbeddingOffset;
use crate::embedding::read_embedding;
use crate::fixed::bits_to_fixed;
use crate::inverted_index::InvertedIndex;
use crate::meta::MetaDb;
use crate::meta::retrieve_current_version;
use crate::meta::store_current_version;
use crate::quantization::QuantizationMetric;
use crate::quantization::StorageType;
use crate::quantization::scalar_quantize_value;
use crate::types::DistanceMetric;
use crate::types::HNSWLevel;
use crate::types::MetricResult;
use crate::types::Storage;
use crate::types::VectorId;
use crate::types::vid_eq;
use crate::types::bytes_eq;
use crate::vector_store::MergedNode;
use crate::vector_store::NodeProp;
use crate::vector_store::PropState;
use crate::vector_store::QuantizedVectorEmbedding;
use crate::vector_store::VectorStore;
use crate::vector_store::clone_vector_id;
use crate::vector_store::generate_level_probs;
use crate::vector_store::get_vector_id_from_node;
use crate::versioning::CommitHash;
use crate::versioning::VersionControl;
use crate::buffer::BufferManager;
use crate::buffer::BufferManagerFactory;

verus! {

/// The vector API's error taxonomy, mirrored onto HTTP status codes
/// by the transport layer.
#[derive(Debug, PartialEq)]
pub enum VectorsError {
    NotFound,
    FailedToGetAppEnv,
    FailedToCreateVector(String),
    FailedToUpdateVector(String),
    FailedToFindSimilarVectors(String),
    FailedToDeleteVector(String),
    WaCustom(WaCustomError),
    NotImplemented,
}

impl VectorsError {
    /// The HTTP status code the error maps to: a missing entity is
    /// 404, internal faults are 500, everything else a client error.
    pub fn status_code(&self) -> (r: u16)
        ensures
            r == match self {
                VectorsError::NotFound => 404u16,
                VectorsError::FailedToGetAppEnv => 500u16,
                VectorsError::WaCustom(_) => 500u16,
                _ => 400u16,
            },
    {
        match self {
            VectorsError::NotFound => 404,
            VectorsError::FailedToGetAppEnv => 500,
            VectorsError::WaCustom(_) => 500,
            _ => 400,
        }
    }

    /// The error as a human-readable line.
    pub fn message(&self) -> (r: String)
        ensures
            match self {
                VectorsError::FailedToCreateVector(m) => r@ == "Failed to create vector due to: "@
                    + m@,
                VectorsError::FailedToUpdateVector(m) => r@ == "Failed to update vector due to: "@
                    + m@,
                VectorsError::FailedToFindSimilarVectors(m) => r@
                    == "Failed to find similar vectors due to: "@ + m@,
                VectorsError::NotFound => r@ == "Vector Not Found!"@,
                _ => true,
            },
    {
        match self {
            VectorsError::NotFound => String::from_str("Vector Not Found!"),
            VectorsError::FailedToGetAppEnv => String::from_str("Failed to get App Env!"),
            VectorsError::FailedToCreateVector(m) => String::from_str(
                "Failed to create vector due to: ",
            ).concat(m.as_str()),
            VectorsError::FailedToUpdateVector(m) => String::from_str(
                "Failed to update vector due to: ",
            ).concat(m.as_str()),
            VectorsError::FailedToFindSimilarVectors(m) => String::from_str(
                "Failed to find similar vectors due to: ",
            ).concat(m.as_str()),
            VectorsError::FailedToDeleteVector(m) => String::from_str(
                "Failed to delete vector due to: ",
            ).concat(m.as_str()),
            VectorsError::WaCustom(_) => String::from_str("storage fault"),
            VectorsError::NotImplemented => String::from_str("This is not supported yet!"),
        }
    }
}

/// A dense or sparse vector submitted for creation.
pub enum CreateVectorDtox {
    Dense { id: VectorId, values: Vec<u32> },
    Sparse { id: u32, values: Vec<(u32, i64)> },
}

/// A dense vector submitted for creation: the raw values are 32-bit
/// value patterns.
pub struct CreateVectorDto {
    pub id: VectorId,
    pub values: Vec<u32>,
}

/// The vector handed back after creation or lookup.
pub struct CreateVectorResponseDto {
    pub id: VectorId,
    pub values: Vec<u32>,
}

/// New raw values for an existing vector.
pub struct UpdateVectorDto {
    pub values: Vec<u32>,
}

/// The vector handed back after an update.
pub struct UpdateVectorResponseDto {
    pub id: VectorId,
    pub values: Vec<u32>,
}

/// A batch of vectors for a transactional upsert.
pub struct UpsertDto {
    pub vectors: Vec<CreateVectorDto>,
}

/// A similarity query: the query values and how many matches to
/// return.
pub struct FindSimilarVectorsDto {
    pub vector: Vec<u32>,
    pub k: i64,
}

/// One search hit: the vector's id and its similarity score, larger
/// meaning closer.
pub struct SimilarVector {
    pub id: VectorId,
    pub score: u64,
}

impl VectorStore {
    /// Opens a transaction: the one open slot per index is taken, so
    /// a second open transaction is refused and nothing changes.
    pub fn create_transaction(&mut self, branch: &str) -> (r: Result<CommitHash, WaCustomError>)
        requires
            old(self).wf(),
        ensures
            final(self).wf(),
            old(self).current_open_transaction is Some ==> r is Err && *final(self) == *old(self),
            r matches Ok(h) ==> old(self).current_open_transaction is None && final(self).current_open_transaction == Some(h),
            r is Err ==> final(self).current_open_transaction == old(self).current_open_transaction,
            (r is Ok) == ({
                let key = crate::hashing::sip24_of(branch.spec_bytes());
                let parent = crate::versioning::latest_of_branch(old(self).vcs.versions@, key);
                &&& old(self).current_open_transaction is None
                &&& old(self).lmdb.current_version matches Some(cur) && cur.version < u32::MAX
                    && !crate::versioning::branch_collision(
                    old(self).vcs.versions@,
                    key,
                    crate::versioning::spec_mix(
                        key,
                        (cur.version + 1) as u32,
                        match parent {
                            Option::Some(p) => Some(p.hash),
                            Option::None => None,
                        },
                    ),
                )
            }),
    {
        if self.current_open_transaction.is_some() {
            return Err(
                WaCustomError::DatabaseError(String::from_str("there is an ongoing transaction!")),
            );
        }
        let cur = match retrieve_current_version(&self.lmdb) {
            Ok(v) => v,
            Err(e) => {
                return Err(e);
            },
        };
        if cur.version == u32::MAX {
            return Err(WaCustomError::DatabaseError(String::from_str("version space exhausted")));
        }
        let hash = match self.vcs.generate_hash(branch, cur.version + 1) {
            Ok(h) => h,
            Err(e) => {
                return Err(e);
            },
        };
        self.current_open_transaction = Some(hash);
        Ok(hash)
    }

    /// Commits the open transaction: the queued dirty nodes are
    /// persisted, the recorded current version advances by exactly
    /// one, and the transaction slot is cleared.
    pub fn commit_transaction(&mut self, txn: CommitHash) -> (r: Result<(), WaCustomError>)
        requires
            old(self).wf(),
        ensures
            final(self).wf(),
            r is Ok ==> {
                &&& final(self).current_open_transaction is None
                &&& final(self).exec_queue_nodes@.len() == 0
                &&& old(self).lmdb.current_version matches Some(ov) && final(self).lmdb.current_version matches Some(nv) && nv.version == ov.version + 1
                &&& (old(self).current_open_transaction matches Some(h) && h.0 == txn.0)
                &&& forall|t: int|
                    0 <= t < old(self).exec_queue_nodes@.len() ==> final(self).nodes@[(
                    #[trigger] old(self).exec_queue_nodes@[t]) as int].file_index is Valid
            },
            ({
                &&& old(self).current_open_transaction matches Some(h) && h.0 == txn.0
                &&& old(self).lmdb.current_version matches Some(cur) && cur.version < u32::MAX
                    && (crate::versioning::first_with_hash(old(self).vcs.versions@, txn.0)
                    matches Some(vh) && vh.version == cur.version + 1)
                &&& old(self).exec_queue_nodes@.len() == 0
            }) ==> r is Ok,
    {
        match self.current_open_transaction {
            Option::Some(h) => {
                if h.0 != txn.0 {
                    return Err(
                        WaCustomError::DatabaseError(String::from_str("unknown transaction")),
                    );
                }
            },
            Option::None => {
                return Err(
                    WaCustomError::DatabaseError(String::from_str("no open transaction")),
                );
            },
        }
        let cur = match retrieve_current_version(&self.lmdb) {
            Ok(v) => v,
            Err(e) => {
                return Err(e);
            },
        };
        let vh = match self.vcs.get_version_hash(&txn) {
            Option::Some(v) => v,
            Option::None => {
                return Err(
                    WaCustomError::DatabaseError(String::from_str("transaction version missing")),
                );
            },
        };
        if cur.version == u32::MAX || vh.version != cur.version + 1 {
            return Err(
                WaCustomError::DatabaseError(String::from_str("version does not advance by one")),
            );
        }
        match self.auto_commit_transaction() {
            Ok(_) => {},
            Err(e) => {
                return Err(e);
            },
        }
        self.lmdb.current_version = Some(vh);
        self.current_open_transaction = None;
        Ok(())
    }

    /// Aborts the open transaction: the dirty-node queue is drained
    /// and discarded, the recorded current version stays as it was,
    /// and the transaction slot is cleared.
    pub fn abort_transaction(&mut self, txn: CommitHash) -> (r: Result<(), WaCustomError>)
        requires
            old(self).wf(),
        ensures
            final(self).wf(),
            (r is Ok) == (old(self).current_open_transaction matches Some(h) && h.0 == txn.0),
            r is Ok ==> final(self).current_open_transaction is None && final(self).exec_queue_nodes@.len() == 0 && final(self).lmdb.current_version == old(self).lmdb.current_version && final(self).nodes == old(self).nodes,
            r is Err ==> *final(self) == *old(self),
    {
        match self.current_open_transaction {
            Option::Some(h) => {
                if h.0 != txn.0 {
                    return Err(
                        WaCustomError::DatabaseError(String::from_str("unknown transaction")),
                    );
                }
            },
            Option::None => {
                return Err(
                    WaCustomError::DatabaseError(String::from_str("no open transaction")),
                );
            },
        }
        self.exec_queue_nodes = Vec::new();
        self.current_open_transaction = None;
        Ok(())
    }
}

/// The metadata store points, under `id`, at a raw-log record of
/// version `ver` that encodes an embedding carrying `id` and exactly
/// `values`.
pub open spec fn stored_uploaded_record(
    store: VectorStore,
    id: VectorId,
    values: Seq<u32>,
    ver: u32,
) -> bool {
    &&& crate::meta::emb_has_key(store.lmdb.embeddings@, id)
    &&& store.vec_raw_manager.has_version(ver)
    &&& exists|e: RawVectorEmbedding, off: u32|
        #![trigger crate::embedding::spec_emb_body(e), store.vec_raw_manager.version_data(ver).subrange(off as int, off + 4)]
        {
            let data = store.vec_raw_manager.version_data(ver);
            let body = crate::embedding::spec_emb_body(e);
            &&& crate::embedding::emb_wf(e)
            &&& vid_eq(e.hash_vec, id)
            &&& e.raw_vec@ == values
            &&& store.lmdb.embeddings@[crate::meta::emb_idx_of(store.lmdb.embeddings@, id)].1@
                == crate::embedding::spec_serialize_offset(
                EmbeddingOffset { version: CommitHash(ver), offset: off },
            )
            &&& off + 4 + body.len() <= data.len()
            &&& crate::bytes::spec_u32_from_le(data.subrange(off as int, off + 4)) == body.len()
            &&& data.subrange(off + 4, off + 4 + body.len()) == body
        }
}

/// A stored record survives any step that keeps the metadata records
/// and the version's log bytes.
pub proof fn lemma_stored_record_stable(
    a: VectorStore,
    b: VectorStore,
    id: VectorId,
    values: Seq<u32>,
    ver: u32,
)
    requires
        stored_uploaded_record(a, id, values, ver),
        a.lmdb.embeddings == b.lmdb.embeddings,
        b.vec_raw_manager.has_version(ver),
        b.vec_raw_manager.version_data(ver) == a.vec_raw_manager.version_data(ver),
    ensures
        stored_uploaded_record(b, id, values, ver),
{
}

/// Uploads a batch of raw vectors under the collection's current
/// version: each embedding is logged, then the pending log is indexed
/// and the dirty nodes are committed.  On success every id of the
/// batch has a metadata record, and every id whose entry is the last
/// of the batch carrying it points at a raw-log record of the current
/// version encoding exactly the uploaded values.
pub fn run_upload(vec_store: &mut VectorStore, vecxx: Vec<(VectorId, Vec<u32>)>) -> (r: Result<
    (),
    WaCustomError,
>)
    requires
        old(vec_store).wf(),
    ensures
        final(vec_store).wf(),
        r is Ok ==> forall|t: int|
            0 <= t < vecxx@.len() ==> crate::meta::emb_has_key(
                final(vec_store).lmdb.embeddings@,
                (#[trigger] vecxx@[t]).0,
            ),
        r is Ok ==> (old(vec_store).lmdb.current_version matches Some(cv) && forall|t: int|
            0 <= t < vecxx@.len() && (forall|u: int|
                t < u < vecxx@.len() ==> !vid_eq((#[trigger] vecxx@[u]).0, vecxx@[t].0))
                ==> stored_uploaded_record(
                *final(vec_store),
                (#[trigger] vecxx@[t]).0,
                vecxx@[t].1@,
                cv.hash,
            )),
{
    let cur = match retrieve_current_version(&vec_store.lmdb) {
        Ok(v) => v,
        Err(e) => {
            return Err(e);
        },
    };
    let version = CommitHash(cur.hash);
    let mut i: usize = 0;
    while i < vecxx.len()
        invariant
            vec_store.wf(),
            i <= vecxx@.len(),
            forall|t: int|
                0 <= t < i ==> crate::meta::emb_has_key(
                    vec_store.lmdb.embeddings@,
                    (#[trigger] vecxx@[t]).0,
                ),
            i > 0 ==> vec_store.lmdb.next_version == Some(version.0),
            forall|t: int|
                0 <= t < i && (forall|u: int|
                    t < u < i ==> !vid_eq((#[trigger] vecxx@[u]).0, vecxx@[t].0))
                    ==> stored_uploaded_record(
                    *vec_store,
                    (#[trigger] vecxx@[t]).0,
                    vecxx@[t].1@,
                    version.0,
                ),
        decreases vecxx@.len() - i,
    {
        let (id, values) = &vecxx[i];
        let emb = RawVectorEmbedding {
            raw_vec: crate::meta::copy_bytes_u32(values),
            hash_vec: clone_vector_id(id),
        };
        let ghost pre = *vec_store;
        match vec_store.insert_embedding(&emb, version) {
            Ok(_) => {},
            Err(e) => {
                return Err(e);
            },
        }
        proof {
            assert(crate::meta::emb_has_key(vec_store.lmdb.embeddings@, vecxx@[i as int].0)) by {
                crate::meta::lemma_vid_eq_lift(
                    vec_store.lmdb.embeddings@,
                    emb.hash_vec,
                    vecxx@[i as int].0,
                );
            }
            let body = crate::embedding::spec_emb_body(emb);
            let pre_data = if pre.vec_raw_manager.has_version(version.0) {
                pre.vec_raw_manager.version_data(version.0)
            } else {
                Seq::<u8>::empty()
            };
            let start = pre.vec_raw_manager.version_len(version.0);
            let data = vec_store.vec_raw_manager.version_data(version.0);
            let prefix = crate::bytes::spec_u32_to_le(body.len() as u32);
            assert(pre_data.len() == start);
            assert(data =~= pre_data + prefix + body);
            assert(stored_uploaded_record(
                *vec_store,
                vecxx@[i as int].0,
                vecxx@[i as int].1@,
                version.0,
            )) by {
                let w = crate::meta::emb_idx_of(vec_store.lmdb.embeddings@, vecxx@[i as int].0);
                let w2 = crate::meta::emb_idx_of(vec_store.lmdb.embeddings@, emb.hash_vec);
                assert(vid_eq(vec_store.lmdb.embeddings@[w].0, vecxx@[i as int].0));
                assert(vid_eq(vec_store.lmdb.embeddings@[w2].0, emb.hash_vec));
                crate::meta::lemma_vid_eq_trans3(
                    vec_store.lmdb.embeddings@[w2].0,
                    emb.hash_vec,
                    emb.hash_vec,
                );
                crate::meta::lemma_emb_slot_unique(
                    vec_store.lmdb.embeddings@,
                    vecxx@[i as int].0,
                    w,
                    w2,
                );
                assert(data.subrange(start as int, start + 4) =~= prefix);
                crate::bytes::lemma_u32_le_round_trip(body.len() as u32);
                assert(data.subrange(start + 4, start + 4 + body.len() as int) =~= body);
                assert(vid_eq(emb.hash_vec, vecxx@[i as int].0));
                assert(emb.raw_vec@ == vecxx@[i as int].1@);
            }
            assert forall|t: int|
                0 <= t < i + 1 && (forall|u: int|
                    t < u < i + 1 ==> !vid_eq((#[trigger] vecxx@[u]).0, vecxx@[t].0))
                    implies stored_uploaded_record(
                *vec_store,
                (#[trigger] vecxx@[t]).0,
                vecxx@[t].1@,
                version.0,
            ) by {
                if t < i {
                    assert(!vid_eq(vecxx@[i as int].0, vecxx@[t].0));
                    assert(stored_uploaded_record(
                        pre,
                        vecxx@[t].0,
                        vecxx@[t].1@,
                        version.0,
                    ));
                    assert(!vid_eq(emb.hash_vec, vecxx@[t].0));
                    let (e, off) = choose|e: RawVectorEmbedding, off: u32|
                        #![trigger crate::embedding::spec_emb_body(e), pre.vec_raw_manager.version_data(version.0).subrange(off as int, off + 4)]
                        {
                            let data2 = pre.vec_raw_manager.version_data(version.0);
                            let body2 = crate::embedding::spec_emb_body(e);
                            &&& crate::embedding::emb_wf(e)
                            &&& vid_eq(e.hash_vec, vecxx@[t].0)
                            &&& e.raw_vec@ == vecxx@[t].1@
                            &&& pre.lmdb.embeddings@[crate::meta::emb_idx_of(
                                pre.lmdb.embeddings@,
                                vecxx@[t].0,
                            )].1@ == crate::embedding::spec_serialize_offset(
                                EmbeddingOffset { version: CommitHash(version.0), offset: off },
                            )
                            &&& off + 4 + body2.len() <= data2.len()
                            &&& crate::bytes::spec_u32_from_le(
                                data2.subrange(off as int, off + 4),
                            ) == body2.len()
                            &&& data2.subrange(off + 4, off + 4 + body2.len()) == body2
                        };
                    let body2 = crate::embedding::spec_emb_body(e);
                    assert(data.subrange(off as int, off + 4) =~= pre_data.subrange(
                        off as int,
                        off + 4,
                    ));
                    assert(data.subrange(off + 4, off + 4 + body2.len() as int)
                        =~= pre_data.subrange(off + 4, off + 4 + body2.len() as int));
                }
            }
        }
        i = i + 1;
    }
    let ghost mid1 = *vec_store;
    match vec_store.index_embeddings(100) {
        Ok(_) => {},
        Err(e) => {
            return Err(e);
        },
    }
    proof {
        assert forall|t: int|
            0 <= t < vecxx@.len() && (forall|u: int|
                t < u < vecxx@.len() ==> !vid_eq((#[trigger] vecxx@[u]).0, vecxx@[t].0))
                implies stored_uploaded_record(
            *vec_store,
            (#[trigger] vecxx@[t]).0,
            vecxx@[t].1@,
            version.0,
        ) by {
            lemma_stored_record_stable(
                mid1,
                *vec_store,
                vecxx@[t].0,
                vecxx@[t].1@,
                version.0,
            );
        }
    }
    let ghost mid2 = *vec_store;
    match vec_store.auto_commit_transaction() {
        Ok(_) => {},
        Err(e) => {
            return Err(e);
        },
    }
    proof {
        assert forall|t: int|
            0 <= t < vecxx@.len() && (forall|u: int|
                t < u < vecxx@.len() ==> !vid_eq((#[trigger] vecxx@[u]).0, vecxx@[t].0))
                implies stored_uploaded_record(
            *vec_store,
            (#[trigger] vecxx@[t]).0,
            vecxx@[t].1@,
            version.0,
        ) by {
            lemma_stored_record_stable(
                mid2,
                *vec_store,
                vecxx@[t].0,
                vecxx@[t].1@,
                version.0,
            );
        }
    }
    Ok(())
}

/// Uploads a batch inside an open transaction, logging the embeddings
/// under the transaction's version.  On success every id of the batch
/// has a metadata record, and every id whose entry is the last of the
/// batch carrying it points at a raw-log record of the transaction's
/// version encoding exactly the uploaded values.
pub fn run_upload_in_transaction(
    vec_store: &mut VectorStore,
    transaction: CommitHash,
    vecxx: Vec<(VectorId, Vec<u32>)>,
) -> (r: Result<(), WaCustomError>)
    requires
        old(vec_store).wf(),
    ensures
        final(vec_store).wf(),
        r is Ok ==> forall|t: int|
            0 <= t < vecxx@.len() ==> crate::meta::emb_has_key(
                final(vec_store).lmdb.embeddings@,
                (#[trigger] vecxx@[t]).0,
            ),
        r is Ok ==> forall|t: int|
            0 <= t < vecxx@.len() && (forall|u: int|
                t < u < vecxx@.len() ==> !vid_eq((#[trigger] vecxx@[u]).0, vecxx@[t].0))
                ==> stored_uploaded_record(
                *final(vec_store),
                (#[trigger] vecxx@[t]).0,
                vecxx@[t].1@,
                transaction.0,
            ),
{
    let version = transaction;
    let mut i: usize = 0;
    while i < vecxx.len()
        invariant
            vec_store.wf(),
            i <= vecxx@.len(),
            forall|t: int|
                0 <= t < i ==> crate::meta::emb_has_key(
                    vec_store.lmdb.embeddings@,
                    (#[trigger] vecxx@[t]).0,
                ),
            i > 0 ==> vec_store.lmdb.next_version == Some(version.0),
            forall|t: int|
                0 <= t < i && (forall|u: int|
                    t < u < i ==> !vid_eq((#[trigger] vecxx@[u]).0, vecxx@[t].0))
                    ==> stored_uploaded_record(
                    *vec_store,
                    (#[trigger] vecxx@[t]).0,
                    vecxx@[t].1@,
                    version.0,
                ),
        decreases vecxx@.len() - i,
    {
        let (id, values) = &vecxx[i];
        let emb = RawVectorEmbedding {
            raw_vec: crate::meta::copy_bytes_u32(values),
            hash_vec: clone_vector_id(id),
        };
        let ghost pre = *vec_store;
        match vec_store.insert_embedding(&emb, version) {
            Ok(_) => {},
            Err(e) => {
                return Err(e);
            },
        }
        proof {
            assert(crate::meta::emb_has_key(vec_store.lmdb.embeddings@, vecxx@[i as int].0)) by {
                crate::meta::lemma_vid_eq_lift(
                    vec_store.lmdb.embeddings@,
                    emb.hash_vec,
                    vecxx@[i as int].0,
                );
            }
            let body = crate::embedding::spec_emb_body(emb);
            let pre_data = if pre.vec_raw_manager.has_version(version.0) {
                pre.vec_raw_manager.version_data(version.0)
            } else {
                Seq::<u8>::empty()
            };
            let start = pre.vec_raw_manager.version_len(version.0);
            let data = vec_store.vec_raw_manager.version_data(version.0);
            let prefix = crate::bytes::spec_u32_to_le(body.len() as u32);
            assert(pre_data.len() == start);
            assert(data =~= pre_data + prefix + body);
            assert(stored_uploaded_record(
                *vec_store,
                vecxx@[i as int].0,
                vecxx@[i as int].1@,
                version.0,
            )) by {
                let w = crate::meta::emb_idx_of(vec_store.lmdb.embeddings@, vecxx@[i as int].0);
                let w2 = crate::meta::emb_idx_of(vec_store.lmdb.embeddings@, emb.hash_vec);
                assert(vid_eq(vec_store.lmdb.embeddings@[w].0, vecxx@[i as int].0));
                assert(vid_eq(vec_store.lmdb.embeddings@[w2].0, emb.hash_vec));
                crate::meta::lemma_vid_eq_trans3(
                    vec_store.lmdb.embeddings@[w2].0,
                    emb.hash_vec,
                    emb.hash_vec,
                );
                crate::meta::lemma_emb_slot_unique(
                    vec_store.lmdb.embeddings@,
                    vecxx@[i as int].0,
                    w,
                    w2,
                );
                assert(data.subrange(start as int, start + 4) =~= prefix);
                crate::bytes::lemma_u32_le_round_trip(body.len() as u32);
                assert(data.subrange(start + 4, start + 4 + body.len() as int) =~= body);
                assert(vid_eq(emb.hash_vec, vecxx@[i as int].0));
                assert(emb.raw_vec@ == vecxx@[i as int].1@);
            }
            assert forall|t: int|
                0 <= t < i + 1 && (forall|u: int|
                    t < u < i + 1 ==> !vid_eq((#[trigger] vecxx@[u]).0, vecxx@[t].0))
                    implies stored_uploaded_record(
                *vec_store,
                (#[trigger] vecxx@[t]).0,
                vecxx@[t].1@,
                version.0,
            ) by {
                if t < i {
                    assert(!vid_eq(vecxx@[i as int].0, vecxx@[t].0));
                    assert(stored_uploaded_record(
                        pre,
                        vecxx@[t].0,
                        vecxx@[t].1@,
                        version.0,
                    ));
                    assert(!vid_eq(emb.hash_vec, vecxx@[t].0));
                    let (e, off) = choose|e: RawVectorEmbedding, off: u32|
                        #![trigger crate::embedding::spec_emb_body(e), pre.vec_raw_manager.version_data(version.0).subrange(off as int, off + 4)]
                        {
                            let data2 = pre.vec_raw_manager.version_data(version.0);
                            let body2 = crate::embedding::spec_emb_body(e);
                            &&& crate::embedding::emb_wf(e)
                            &&& vid_eq(e.hash_vec, vecxx@[t].0)
                            &&& e.raw_vec@ == vecxx@[t].1@
                            &&& pre.lmdb.embeddings@[crate::meta::emb_idx_of(
                                pre.lmdb.embeddings@,
                                vecxx@[t].0,
                            )].1@ == crate::embedding::spec_serialize_offset(
                                EmbeddingOffset { version: CommitHash(version.0), offset: off },
                            )
                            &&& off + 4 + body2.len() <= data2.len()
                            &&& crate::bytes::spec_u32_from_le(
                                data2.subrange(off as int, off + 4),
                            ) == body2.len()
                            &&& data2.subrange(off + 4, off + 4 + body2.len()) == body2
                        };
                    let body2 = crate::embedding::spec_emb_body(e);
                    assert(data.subrange(off as int, off + 4) =~= pre_data.subrange(
                        off as int,
                        off + 4,
                    ));
                    assert(data.subrange(off + 4, off + 4 + body2.len() as int)
                        =~= pre_data.subrange(off + 4, off + 4 + body2.len() as int));
                }
            }
        }
        i = i + 1;
    }
    let ghost mid1 = *vec_store;
    match vec_store.index_embeddings(100) {
        Ok(_) => {},
        Err(e) => {
            return Err(e);
        },
    }
    proof {
        assert forall|t: int|
            0 <= t < vecxx@.len() && (forall|u: int|
                t < u < vecxx@.len() ==> !vid_eq((#[trigger] vecxx@[u]).0, vecxx@[t].0))
                implies stored_uploaded_record(
            *vec_store,
            (#[trigger] vecxx@[t]).0,
            vecxx@[t].1@,
            version.0,
        ) by {
            lemma_stored_record_stable(
                mid1,
                *vec_store,
                vecxx@[t].0,
                vecxx@[t].1@,
                version.0,
            );
        }
    }
    Ok(())
}

/// Creates a dense vector outside any transaction; while a
/// transaction is open the write is refused with the exact ongoing-
/// transaction error.
pub fn create_dense_vector(
    vec_store: &mut VectorStore,
    vector_id: VectorId,
    values: Vec<u32>,
) -> (r: Result<CreateVectorResponseDto, VectorsError>)
    requires
        old(vec_store).wf(),
    ensures
        final(vec_store).wf(),
        old(vec_store).current_open_transaction is Some ==> *final(vec_store) == *old(vec_store)
            && (r matches Err(e) && e matches VectorsError::FailedToCreateVector(m) && m@
            == "there is an ongoing transaction!"@),
        r matches Ok(dto) ==> dto.values == values && vid_eq(dto.id, vector_id)
            && crate::meta::emb_has_key(final(vec_store).lmdb.embeddings@, vector_id),
        old(vec_store).current_open_transaction is None && r is Err ==> (r matches Err(e) && e
            matches VectorsError::WaCustom(_)),
{
    if vec_store.current_open_transaction.is_some() {
        proof {
            reveal_strlit("there is an ongoing transaction!");
        }
        return Err(
            VectorsError::FailedToCreateVector(
                String::from_str("there is an ongoing transaction!"),
            ),
        );
    }
    let id_copy = clone_vector_id(&vector_id);
    let values_copy = crate::meta::copy_bytes_u32(&values);
    match run_upload(vec_store, vec![(id_copy, values_copy)]) {
        Ok(_) => {},
        Err(e) => {
            return Err(VectorsError::WaCustom(e));
        },
    }
    proof {
        crate::meta::lemma_vid_eq_refl(vector_id);
    }
    Ok(CreateVectorResponseDto { id: vector_id, values })
}

/// Creates a sparse vector: the write is gated on the sparse index's
/// transaction slot, every nonzero entry is inserted, and — the
/// response shape being unsettled — the call reports not implemented,
/// as the storage-side effects are its contract.
pub fn create_sparse_vector(
    inverted_index: &mut InvertedIndex,
    vector_id: u32,
    values: Vec<(u32, i64)>,
) -> (r: Result<CreateVectorResponseDto, VectorsError>)
    requires
        old(inverted_index).wf(),
    ensures
        final(inverted_index).wf(),
        old(inverted_index).current_open_transaction is Some ==> *final(inverted_index) == *old(inverted_index) && (r matches Err(e) && e matches VectorsError::FailedToCreateVector(m) && m@
            == "there is an ongoing transaction!"@),
        old(inverted_index).current_open_transaction is None ==> r == Result::<
            CreateVectorResponseDto,
            VectorsError,
        >::Err(VectorsError::NotImplemented) && (forall|k: int|
            0 <= k < values@.len() && (#[trigger] values@[k]).1 != 0 ==> crate::sparse::spec_present(
                final(inverted_index).root.nodes@,
                values@[k].0,
                crate::sparse::spec_quantize(values@[k].1 as int) as int,
                vector_id,
            )),
{
    if inverted_index.current_open_transaction.is_some() {
        proof {
            reveal_strlit("there is an ongoing transaction!");
        }
        return Err(
            VectorsError::FailedToCreateVector(
                String::from_str("there is an ongoing transaction!"),
            ),
        );
    }
    let vector = crate::sparse::SparseVector { vector_id, entries: values };
    let ghost entries_view = vector.entries@;
    let _ = inverted_index.root.add_sparse_vector(vector);
    proof {
        assert(entries_view == values@);
        assert(forall|k: int|
            0 <= k < values@.len() && (#[trigger] values@[k]).1 != 0
                ==> crate::sparse::spec_present(
                inverted_index.root.nodes@,
                values@[k].0,
                crate::sparse::spec_quantize(values@[k].1 as int) as int,
                vector_id,
            ));
    }
    Err(VectorsError::NotImplemented)
}

/// Creates a vector of either kind, dispatching on the payload's
/// variant.
pub fn create_vector(
    vec_store: &mut VectorStore,
    inverted_index: &mut InvertedIndex,
    create_vector_dto: CreateVectorDtox,
) -> (r: Result<CreateVectorResponseDto, VectorsError>)
    requires
        old(vec_store).wf(),
        old(inverted_index).wf(),
    ensures
        final(vec_store).wf(),
        final(inverted_index).wf(),
{
    match create_vector_dto {
        CreateVectorDtox::Dense { id, values } => create_dense_vector(vec_store, id, values),
        CreateVectorDtox::Sparse { id, values } => create_sparse_vector(
            inverted_index,
            id,
            values,
        ),
    }
}

/// Creates a dense vector inside an open transaction, without the
/// bare-write gate.
pub fn create_vector_in_transaction(
    vec_store: &mut VectorStore,
    transaction: CommitHash,
    create_vector_dto: CreateVectorDto,
) -> (r: Result<CreateVectorResponseDto, VectorsError>)
    requires
        old(vec_store).wf(),
    ensures
        final(vec_store).wf(),
{
    let id_copy = clone_vector_id(&create_vector_dto.id);
    let values_copy = crate::meta::copy_bytes_u32(&create_vector_dto.values);
    match run_upload_in_transaction(vec_store, transaction, vec![(id_copy, values_copy)]) {
        Ok(_) => {},
        Err(e) => {
            return Err(VectorsError::WaCustom(e));
        },
    }
    Ok(CreateVectorResponseDto { id: create_vector_dto.id, values: create_vector_dto.values })
}

/// The metadata store names a complete raw record for this id: the id
/// is catalogued, its stored bytes are an offset record, and a
/// readable record sits at that offset of that version's log.
pub open spec fn stored_vector_ok(store: VectorStore, id: VectorId) -> bool {
    &&& crate::meta::emb_has_key(store.lmdb.embeddings@, id)
    &&& exists|off_rec: EmbeddingOffset|
        {
            &&& #[trigger] crate::embedding::spec_serialize_offset(off_rec)
                == store.lmdb.embeddings@[crate::meta::emb_idx_of(
                store.lmdb.embeddings@,
                id,
            )].1@
            &&& store.vec_raw_manager.has_version(off_rec.version.0)
            &&& crate::embedding::spec_record_at(
                store.vec_raw_manager.version_data(off_rec.version.0),
                off_rec.offset as int,
            )
        }
}

/// Fetches a vector by id: the embedding's offset record is looked up
/// in the metadata store and the raw record read back from the log of
/// the version it was written under.  A vector whose record the store
/// names completely is always found; a missing id is not found.
pub fn get_vector_by_id(vec_store: &mut VectorStore, vector_id: &VectorId) -> (r: Result<
    CreateVectorResponseDto,
    VectorsError,
>)
    requires
        old(vec_store).wf(),
    ensures
        final(vec_store).wf(),
        !crate::meta::emb_has_key(old(vec_store).lmdb.embeddings@, *vector_id) ==> r
            == Result::<CreateVectorResponseDto, VectorsError>::Err(VectorsError::NotFound),
        stored_vector_ok(*old(vec_store), *vector_id) ==> r is Ok,
        final(vec_store).lmdb == old(vec_store).lmdb,
        final(vec_store).nodes == old(vec_store).nodes,
        r matches Ok(dto) ==> crate::embedding::emb_wf(
            crate::embedding::RawVectorEmbedding { raw_vec: dto.values, hash_vec: dto.id },
        ) && crate::meta::emb_has_key(old(vec_store).lmdb.embeddings@, *vector_id) && exists|
            off_rec: EmbeddingOffset,
        |
            {
                let file = final(vec_store).vec_raw_manager.version_data(off_rec.version.0);
                let body = crate::embedding::spec_emb_body(
                    crate::embedding::RawVectorEmbedding {
                        raw_vec: dto.values,
                        hash_vec: dto.id,
                    },
                );
                &&& #[trigger] crate::embedding::spec_serialize_offset(off_rec) == old(
                    vec_store,
                ).lmdb.embeddings@[crate::meta::emb_idx_of(
                    old(vec_store).lmdb.embeddings@,
                    *vector_id,
                )].1@
                &&& final(vec_store).vec_raw_manager.has_version(off_rec.version.0)
                &&& off_rec.offset + 4 + body.len() <= file.len()
                &&& file.subrange(
                    off_rec.offset + 4,
                    off_rec.offset + 4 + body.len() as int,
                ) == body
            },
{
    let ghost pre = *vec_store;
    let bytes = match vec_store.lmdb.get_embedding(vector_id) {
        Option::Some(b) => b,
        Option::None => {
            return Err(VectorsError::NotFound);
        },
    };
    proof {
        if stored_vector_ok(pre, *vector_id) {
            let i = choose|i: int|
                0 <= i < pre.lmdb.embeddings@.len() && vid_eq(
                    (#[trigger] pre.lmdb.embeddings@[i]).0,
                    *vector_id,
                ) && bytes@ == pre.lmdb.embeddings@[i].1@;
            crate::meta::lemma_emb_slot_unique(
                pre.lmdb.embeddings@,
                *vector_id,
                i,
                crate::meta::emb_idx_of(pre.lmdb.embeddings@, *vector_id),
            );
        }
    }
    let offset_rec = match EmbeddingOffset::deserialize(&bytes) {
        Ok(o) => o,
        Err(e) => {
            proof {
                if stored_vector_ok(pre, *vector_id) {
                    let off_rec = choose|off_rec: EmbeddingOffset|
                        #[trigger] crate::embedding::spec_serialize_offset(off_rec)
                            == pre.lmdb.embeddings@[crate::meta::emb_idx_of(
                            pre.lmdb.embeddings@,
                            *vector_id,
                        )].1@ && pre.vec_raw_manager.has_version(off_rec.version.0)
                            && crate::embedding::spec_record_at(
                            pre.vec_raw_manager.version_data(off_rec.version.0),
                            off_rec.offset as int,
                        );
                    assert(bytes@.len() == 8);
                    assert(false);
                }
            }
            return Err(VectorsError::WaCustom(e));
        },
    };
    proof {
        if stored_vector_ok(pre, *vector_id) {
            let off_rec = choose|off_rec: EmbeddingOffset|
                #[trigger] crate::embedding::spec_serialize_offset(off_rec)
                    == pre.lmdb.embeddings@[crate::meta::emb_idx_of(
                    pre.lmdb.embeddings@,
                    *vector_id,
                )].1@ && pre.vec_raw_manager.has_version(off_rec.version.0)
                    && crate::embedding::spec_record_at(
                    pre.vec_raw_manager.version_data(off_rec.version.0),
                    off_rec.offset as int,
                );
            crate::embedding::lemma_offset_round_trip(off_rec, offset_rec);
        }
    }
    let slot = vec_store.vec_raw_manager.get(offset_rec.version.0);
    proof {
        if pre.vec_raw_manager.has_version(offset_rec.version.0) {
            pre.vec_raw_manager.lemma_slot_of(offset_rec.version.0, slot as int);
        }
    }
    let ghost mid_manager = vec_store.vec_raw_manager;
    let bufman = vec_store.vec_raw_manager.at(slot);
    let ghost file_view = bufman@;
    let (emb, _next) = match read_embedding(bufman, offset_rec.offset) {
        Ok(v) => v,
        Err(e) => {
            return Err(VectorsError::WaCustom(e));
        },
    };
    proof {
        vec_store.vec_raw_manager.lemma_slot_of(offset_rec.version.0, slot as int);
        assert(vec_store.vec_raw_manager.version_data(offset_rec.version.0) == file_view);
        let i = choose|i: int|
            0 <= i < pre.lmdb.embeddings@.len() && vid_eq(
                (#[trigger] pre.lmdb.embeddings@[i]).0,
                *vector_id,
            ) && bytes@ == pre.lmdb.embeddings@[i].1@;
        crate::meta::lemma_emb_slot_unique(
            pre.lmdb.embeddings@,
            *vector_id,
            i,
            crate::meta::emb_idx_of(pre.lmdb.embeddings@, *vector_id),
        );
        assert(crate::embedding::spec_serialize_offset(offset_rec) == bytes@);
    }
    Ok(CreateVectorResponseDto { id: emb.hash_vec, values: emb.raw_vec })
}

/// Replaces a vector's values outside any transaction; gated exactly
/// like a bare create.
pub fn update_vector(
    vec_store: &mut VectorStore,
    vector_id: VectorId,
    update_vector_dto: UpdateVectorDto,
) -> (r: Result<UpdateVectorResponseDto, VectorsError>)
    requires
        old(vec_store).wf(),
    ensures
        final(vec_store).wf(),
        old(vec_store).current_open_transaction is Some ==> *final(vec_store) == *old(vec_store)
            && (r matches Err(e) && e matches VectorsError::FailedToUpdateVector(m) && m@
            == "there is an ongoing transaction!"@),
        r matches Ok(dto) ==> dto.values == update_vector_dto.values && vid_eq(dto.id, vector_id)
            && crate::meta::emb_has_key(final(vec_store).lmdb.embeddings@, vector_id),
        old(vec_store).current_open_transaction is None && r is Err ==> (r matches Err(e) && e
            matches VectorsError::WaCustom(_)),
{
    if vec_store.current_open_transaction.is_some() {
        proof {
            reveal_strlit("there is an ongoing transaction!");
        }
        return Err(
            VectorsError::FailedToUpdateVector(
                String::from_str("there is an ongoing transaction!"),
            ),
        );
    }
    let id_copy = clone_vector_id(&vector_id);
    let values_copy = crate::meta::copy_bytes_u32(&update_vector_dto.values);
    match run_upload(vec_store, vec![(id_copy, values_copy)]) {
        Ok(_) => {},
        Err(e) => {
            return Err(VectorsError::WaCustom(e));
        },
    }
    Ok(UpdateVectorResponseDto { id: vector_id, values: update_vector_dto.values })
}

/// Similarity search over the submitted values: an empty query is
/// rejected with the exact validation error; otherwise the hits come
/// from the ANN walk over the index, best first, at most `k` of them.
pub fn find_similar_vectors(
    vec_store: &VectorStore,
    find_similar_vectors_dto: FindSimilarVectorsDto,
) -> (r: Result<Vec<SimilarVector>, VectorsError>)
    requires
        vec_store.wf(),
    ensures
        find_similar_vectors_dto.vector@.len() == 0 ==> (r matches Err(e) && e
            matches VectorsError::FailedToFindSimilarVectors(m) && m@
            == "Vector shouldn't be empty"@),
        (find_similar_vectors_dto.vector@.len() > 0 && query_searchable(
            *vec_store,
            spec_query_bytes(find_similar_vectors_dto.vector@),
        )) ==> r is Ok,
        r matches Ok(v) ==> {
            &&& v@.len() <= (if find_similar_vectors_dto.k >= 0 {
                find_similar_vectors_dto.k as int
            } else {
                0
            })
            &&& forall|i: int, j: int|
                0 <= i < j < v@.len() ==> (#[trigger] v@[i]).score >= (#[trigger] v@[j]).score
        },
{
    if find_similar_vectors_dto.vector.len() == 0 {
        proof {
            reveal_strlit("Vector shouldn't be empty");
        }
        return Err(
            VectorsError::FailedToFindSimilarVectors(
                String::from_str("Vector shouldn't be empty"),
            ),
        );
    }
    let hits = match ann_vector_query(vec_store, find_similar_vectors_dto.vector) {
        Ok(Some(h)) => h,
        Ok(None) => Vec::new(),
        Err(e) => {
            return Err(VectorsError::WaCustom(e));
        },
    };
    let mut out: Vec<SimilarVector> = Vec::new();
    let k = find_similar_vectors_dto.k;
    let mut i: usize = 0;
    while i < hits.len()
        invariant
            i <= hits@.len(),
            forall|a: int, b: int|
                0 <= a < b < hits@.len() ==> (#[trigger] hits@[a]).1 >= (#[trigger] hits@[b]).1,
            out@.len() <= (if k >= 0 {
                k as int
            } else {
                0
            }),
            forall|a: int, b: int|
                0 <= a < b < out@.len() ==> (#[trigger] out@[a]).score >= (
                #[trigger] out@[b]).score,
            forall|a: int, j: int|
                0 <= a < out@.len() && i <= j < hits@.len() ==> (#[trigger] out@[a]).score >= (
                #[trigger] hits@[j]).1,
        decreases hits@.len() - i,
    {
        if k <= 0 || out.len() >= k as usize {
            break ;
        }
        let (id, score) = &hits[i];
        out.push(SimilarVector { id: clone_vector_id(id), score: *score });
        i = i + 1;
    }
    Ok(out)
}

/// Deletes a vector by id; deletion is idempotent and the underlying
/// removal is not wired up yet, so the call succeeds without effect.
pub fn delete_vector_by_id(vec_store: &mut VectorStore, _vector_id: VectorId) -> (r: Result<
    (),
    VectorsError,
>)
    requires
        old(vec_store).wf(),
    ensures
        final(vec_store).wf(),
        r is Ok,
        *final(vec_store) == *old(vec_store),
{
    Ok(())
}

/// Upserts a batch inside an open transaction.
pub fn upsert_in_transaction(
    vec_store: &mut VectorStore,
    transaction: CommitHash,
    upsert_dto: UpsertDto,
) -> (r: Result<(), VectorsError>)
    requires
        old(vec_store).wf(),
    ensures
        final(vec_store).wf(),
{
    let mut batch: Vec<(VectorId, Vec<u32>)> = Vec::new();
    let mut i: usize = 0;
    while i < upsert_dto.vectors.len()
        invariant
            i <= upsert_dto.vectors@.len(),
        decreases upsert_dto.vectors@.len() - i,
    {
        let dto = &upsert_dto.vectors[i];
        batch.push((clone_vector_id(&dto.id), crate::meta::copy_bytes_u32(&dto.values)));
        i = i + 1;
    }
    match run_upload_in_transaction(vec_store, transaction, batch) {
        Ok(_) => Ok(()),
        Err(e) => Err(VectorsError::WaCustom(e)),
    }
}

/// A request to create a collection; the value bounds are 32-bit
/// value patterns.
pub struct CreateCollectionDto {
    pub name: String,
    pub description: Option<String>,
    pub dense_vector: DenseVectorOptions,
    pub sparse_vector: SparseVectorOptions,
    pub metadata_schema: Option<String>,
    pub config: CollectionConfig,
    pub min_val: Option<u32>,
    pub max_val: Option<u32>,
}

/// What collection creation answers.
pub struct CreateCollectionDtoResponse {
    pub id: String,
    pub name: String,
    pub dimensions: i32,
    pub min_val: Option<u32>,
    pub max_val: Option<u32>,
}

/// What a collection lookup answers.
pub struct FindCollectionDto {
    pub id: String,
    pub dimensions: i32,
    pub vector_db_name: String,
}

/// Creates a collection from the request: the dimension must be
/// positive, and the catalog entry is built from the request's parts.
pub fn create_collection(create_collection_dto: CreateCollectionDto) -> (r: Result<
    (Collection, CreateCollectionDtoResponse),
    VectorsError,
>)
    ensures
        (r is Ok) == (create_collection_dto.dense_vector.dimension > 0),
        r matches Ok((c, resp)) ==> c.name == create_collection_dto.name && resp.dimensions
            == create_collection_dto.dense_vector.dimension && c.dense_vector
            == create_collection_dto.dense_vector,
{
    if create_collection_dto.dense_vector.dimension <= 0 {
        return Err(
            VectorsError::FailedToCreateVector(String::from_str("dimension must be positive")),
        );
    }
    let dimensions = create_collection_dto.dense_vector.dimension;
    let name_copy = String::from_str(create_collection_dto.name.as_str());
    let id_copy = String::from_str(create_collection_dto.name.as_str());
    let collection = Collection::new(
        create_collection_dto.name,
        create_collection_dto.description,
        create_collection_dto.dense_vector,
        create_collection_dto.sparse_vector,
        create_collection_dto.metadata_schema,
        create_collection_dto.config,
    );
    let response = CreateCollectionDtoResponse {
        id: id_copy,
        name: name_copy,
        dimensions,
        min_val: create_collection_dto.min_val,
        max_val: create_collection_dto.max_val,
    };
    Ok((collection, response))
}

/// Looks a collection up by id (its name) among the known catalog
/// entries.
#[verifier::loop_isolation(false)]
pub fn get_collection_by_id(collections: &Vec<Collection>, collection_id: &str) -> (r: Option<
    FindCollectionDto,
>)
    ensures
        r is Some ==> exists|i: int|
            0 <= i < collections@.len() && (#[trigger] collections@[i]).name@ == collection_id@,
        r is None ==> forall|i: int|
            0 <= i < collections@.len() ==> (#[trigger] collections@[i]).name@ != collection_id@,
{
    let target = collection_id.as_bytes_vec();
    let mut i: usize = 0;
    while i < collections.len()
        invariant
            i <= collections@.len(),
            forall|j: int|
                0 <= j < i ==> (#[trigger] collections@[j]).name@ != collection_id@,
        decreases collections@.len() - i,
    {
        let nm = collections[i].name.as_str();
        let cand = nm.as_bytes_vec();
        proof {
            assert(nm@ == collections@[i as int].name@);
            assert(cand@ == nm.spec_bytes());
            assert(target@ == collection_id.spec_bytes());
            if collections@[i as int].name@ == collection_id@ {
                assert(cand@ == target@);
            }
        }
        if bytes_eq(&cand, &target) {
            proof {
                assert(nm@ == collections@[i as int].name@);
                assert(cand@ == nm.spec_bytes());
                assert(nm.spec_bytes() == vstd::utf8::encode_utf8(nm@));
                assert(target@ == collection_id.spec_bytes());
                assert(collection_id.spec_bytes() == vstd::utf8::encode_utf8(collection_id@));
                crate::types::lemma_utf8_injective(collections@[i as int].name@, collection_id@);
                assert((#[trigger] collections@[i as int]).name@ == collection_id@);
            }
            return Some(
                FindCollectionDto {
                    id: String::from_str(collections[i].name.as_str()),
                    dimensions: collections[i].dense_vector.dimension,
                    vector_db_name: String::from_str(collections[i].name.as_str()),
                },
            );
        }
        i = i + 1;
    }
    None
}

/// A placeholder summary of a batch of measurements.
pub struct Statistics {
    pub count: u32,
}

/// Placeholder for batch statistics; nothing is computed yet.
pub fn calculate_statistics(_values: &Vec<i32>) -> (r: Option<Statistics>)
    ensures
        r is None,
{
    None
}

/// Initializes a collection's dense index: validates the name,
/// builds the skeleton chain of one node per level linked
/// parent-to-child around a quantized seed vector, persists the
/// chain, and records the initial commit on the main branch.
#[verifier::loop_isolation(false)]
#[verifier::rlimit(100)]
#[verifier::spinoff_prover]
pub fn init_vector_store(
    name: String,
    size: usize,
    lower_bound: Option<u32>,
    upper_bound: Option<u32>,
    max_cache_level: u8,
) -> (r: Result<VectorStore, WaCustomError>)
    requires
        size >= 1,
    ensures
        name@.len() == 0 ==> r == Result::<VectorStore, WaCustomError>::Err(
            WaCustomError::InvalidParams,
        ),
        (name@.len() > 0 && crate::fixed::spec_bits_to_fixed(
            match lower_bound {
                Option::Some(b) => b,
                Option::None => 0xBF800000u32,
            },
        ) >= crate::fixed::spec_bits_to_fixed(
            match upper_bound {
                Option::Some(b) => b,
                Option::None => 0x3F800000u32,
            },
        )) ==> r == Result::<VectorStore, WaCustomError>::Err(WaCustomError::InvalidParams),
        r matches Ok(store) ==> {
            &&& store.wf()
            &&& store.current_open_transaction is None
            &&& store.max_cache_level == max_cache_level
            &&& store.nodes@.len() == max_cache_level + 1
        },
{
    if name.as_str().unicode_len() == 0 {
        return Err(WaCustomError::InvalidParams);
    }
    let min_bits = match lower_bound {
        Option::Some(b) => b,
        Option::None => 0xBF800000u32,
    };
    let max_bits = match upper_bound {
        Option::Some(b) => b,
        Option::None => 0x3F800000u32,
    };
    let min_f = bits_to_fixed(min_bits);
    let max_f = bits_to_fixed(max_bits);
    if min_f >= max_f {
        return Err(WaCustomError::InvalidParams);
    }
    let mut seed: Vec<u8> = Vec::new();
    let mut d: usize = 0;
    let ghost span = max_f - min_f;
    while d < size
        invariant
            d <= size,
            seed@.len() == d,
            min_f < max_f,
        decreases size - d,
    {
        let draw = crate::vector_store::random_u32();
        let range = (max_f - min_f) as u64;
        let val = min_f + ((draw as u64) % (range + 1)) as i64;
        seed.push(scalar_quantize_value(val));
        d = d + 1;
    }
    let vector_list = Storage::UnsignedByte(seed);
    let vec_hash = VectorId::Int(-1);
    let mut store = VectorStore {
        nodes: Vec::new(),
        root_vec: 0,
        max_cache_level,
        levels_prob: generate_level_probs(10, max_cache_level),
        database_name: name,
        quant_dim: size / 32,
        exec_queue_nodes: Vec::new(),
        lmdb: MetaDb::new(),
        vcs: VersionControl::new(),
        current_version: None,
        current_open_transaction: None,
        quantization_metric: QuantizationMetric::Scalar,
        distance_metric: DistanceMetric::Cosine,
        storage_type: StorageType::UnsignedByte,
        prop_file: BufferManager::new(),
        index_manager: BufferManagerFactory::new(),
        vec_raw_manager: BufferManagerFactory::new(),
    };
    let mut l: u8 = 0;
    loop
        invariant
            store.lmdb.wf(),
            l <= max_cache_level + 1,
            store.nodes@.len() == l,
            store.root_vec == 0,
            store.max_cache_level == max_cache_level,
            store.exec_queue_nodes@.len() == 0,
            forall|i: int|
                0 <= i < store.nodes@.len() ==> crate::vector_store::node_ok(
                    #[trigger] store.nodes@[i],
                    store.nodes@.len() as int,
                ) && crate::vector_store::child_link_ok(store.nodes@, i),
            forall|i: int|
                0 <= i < store.nodes@.len() ==> (#[trigger] store.nodes@[i]).hnsw_level.0 == i
                    && (store.nodes@[i].prop matches PropState::Ready(p) && vid_eq(
                    p.id,
                    VectorId::Int(-1i64),
                )) && (i > 0 ==> store.nodes@[i].child == Some((i - 1) as usize)),
            store.current_open_transaction is None,
            store.current_version is None,
            store.vec_raw_manager.spec_versions().len() == 0,
            store.index_manager.spec_versions().len() == 0,
        decreases max_cache_level + 1 - l,
    {
        if l > max_cache_level {
            break ;
        }
        let prop = PropState::Ready(
            NodeProp {
                id: VectorId::Int(-1i64),
                value: crate::vector_store::clone_storage(&vector_list),
                location: Some(
                    (crate::types::FileOffset(0), crate::types::BytesToRead(0)),
                ),
            },
        );
        let child: Option<usize> = if l == 0 {
            None
        } else {
            Some((l - 1) as usize)
        };
        let node = MergedNode {
            version_id: 0,
            hnsw_level: HNSWLevel(l),
            prop,
            neighbors: Vec::new(),
            parent: None,
            child,
            persist_flag: true,
            file_index: crate::types::FileIndex::Invalid,
        };
        let ghost pre = store.nodes@;
        store.nodes.push(node);
        proof {
            assert forall|i: int|
                0 <= i < store.nodes@.len() implies crate::vector_store::node_ok(
                #[trigger] store.nodes@[i],
                store.nodes@.len() as int,
            ) && crate::vector_store::child_link_ok(store.nodes@, i) by {
                if i < pre.len() {
                    assert(store.nodes@[i] == pre[i]);
                    assert(crate::vector_store::node_ok(pre[i], pre.len() as int));
                    assert(crate::vector_store::child_link_ok(pre, i));
                }
            }
        }
        if l == u8::MAX {
            break ;
        }
        l = l + 1;
    }
    if store.nodes.len() != max_cache_level as usize + 1 {
        return Err(WaCustomError::DatabaseError(String::from_str("level chain incomplete")));
    }
    store.root_vec = store.nodes.len() - 1;
    proof {
        assert(store.wf());
    }
    let mut pl: usize = 0;
    while pl + 1 < store.nodes.len()
        invariant
            store.wf(),
            store.nodes@.len() == max_cache_level + 1,
            store.root_vec == max_cache_level as int,
            store.max_cache_level == max_cache_level,
            store.exec_queue_nodes@.len() == 0,
            store.current_open_transaction is None,
            store.current_version is None,
            pl <= store.nodes@.len(),
        decreases store.nodes@.len() - pl,
    {
        let ghost pre = store.nodes@;
        crate::vector_store::set_node_parent(&mut store.nodes, pl, pl + 1);
        proof {
            assert forall|i: int|
                0 <= i < store.nodes@.len() implies crate::vector_store::node_ok(
                #[trigger] store.nodes@[i],
                store.nodes@.len() as int,
            ) && crate::vector_store::child_link_ok(store.nodes@, i) by {
                assert(crate::vector_store::node_ok(pre[i], pre.len() as int));
                assert(crate::vector_store::child_link_ok(pre, i));
                if i != pl {
                    assert(store.nodes@[i] == pre[i]);
                }
                if i == pl {
                    assert(store.nodes@[i].child == pre[i].child);
                    assert(store.nodes@[i].prop == pre[i].prop);
                }
            }
        }
        pl = pl + 1;
    }
    let mut q: usize = 0;
    while q < store.nodes.len()
        invariant
            store.wf(),
            q <= store.nodes@.len(),
            store.max_cache_level == max_cache_level,
            store.nodes@.len() == max_cache_level + 1,
            store.current_open_transaction is None,
        decreases store.nodes@.len() - q,
    {
        match store.queue_node_prop_exec(q) {
            Ok(_) => {},
            Err(e) => {
                return Err(e);
            },
        }
        q = q + 1;
    }
    match store.auto_commit_transaction() {
        Ok(_) => {},
        Err(e) => {
            return Err(e);
        },
    }
    match store_current_version(&mut store.lmdb, &mut store.vcs, "main", 0) {
        Ok(_) => {},
        Err(e) => {
            return Err(e);
        },
    }
    store.current_version = store.lmdb.current_version;
    proof {
        assert(store.wf());
    }
    Ok(store)
}

/// The hit names a node of the index: some materialized payload
/// carries the hit's id.
pub open spec fn hit_of_some_node(
    nodes: Seq<crate::vector_store::MergedNode>,
    pair: (VectorId, u64),
) -> bool {
    exists|n: int|
        0 <= n < nodes.len() && ((#[trigger] nodes[n]).prop matches PropState::Ready(p) && vid_eq(
            pair.0,
            p.id,
        ))
}

/// Runs an ANN query from the index's entry point and flattens the
/// per-level candidates into scored ids, best first, deduplicated.
/// The byte payload a raw query quantizes to: each 32-bit value
/// pattern read as fixed point, then scalar-quantized.
pub open spec fn spec_query_bytes(query: Seq<u32>) -> Seq<u8> {
    crate::quantization::spec_scalar_quantize_vec(
        query.map_values(|b: u32| crate::fixed::spec_bits_to_fixed(b) as i64),
    )
}

/// A query with these quantized bytes is answerable by the store:
/// scalar quantization over byte payloads is configured, the query is
/// comparable, and every node holds a materialized payload of the
/// query's width.
pub open spec fn query_searchable(store: VectorStore, qb: Seq<u8>) -> bool {
    &&& store.quantization_metric is Scalar
    &&& store.storage_type is UnsignedByte
    &&& qb.len() <= 65536
    &&& (store.distance_metric is Cosine ==> crate::types::spec_dot(qb, qb) != 0)
    &&& forall|i: int|
        0 <= i < store.nodes@.len() ==> ((#[trigger] store.nodes@[i]).prop
            matches PropState::Ready(p) && (p.value matches Storage::UnsignedByte(y) && y@.len()
            == qb.len() && (store.distance_metric is Cosine ==> crate::types::spec_dot(y@, y@)
            != 0)))
}

pub fn ann_vector_query(vec_store: &VectorStore, query: Vec<u32>) -> (r: Result<
    Option<Vec<(VectorId, u64)>>,
    WaCustomError,
>)
    requires
        vec_store.wf(),
    ensures
        query_searchable(*vec_store, spec_query_bytes(query@)) ==> (r matches Ok(o) && o is Some),
        r matches Ok(Some(v)) ==> {
            &&& v@.len() <= 5
            &&& forall|a: int, b: int|
                0 <= a < b < v@.len() ==> (#[trigger] v@[a]).1 >= (#[trigger] v@[b]).1
            &&& forall|a: int|
                0 <= a < v@.len() ==> hit_of_some_node(vec_store.nodes@, #[trigger] v@[a])
        },
{
    let mut fixed: Vec<i64> = Vec::new();
    let mut i: usize = 0;
    while i < query.len()
        invariant
            i <= query@.len(),
            fixed@ =~= query@.take(i as int).map_values(
                |b: u32| crate::fixed::spec_bits_to_fixed(b) as i64,
            ),
        decreases query@.len() - i,
    {
        let ghost pre_fixed = fixed@;
        fixed.push(bits_to_fixed(query[i]));
        proof {
            assert(query@.take(i + 1).map_values(
                |b: u32| crate::fixed::spec_bits_to_fixed(b) as i64,
            ) =~= pre_fixed.push(crate::fixed::spec_bits_to_fixed(query@[i as int]) as i64));
        }
        i = i + 1;
    }
    proof {
        assert(query@.take(query@.len() as int) =~= query@);
    }
    let vector_list = match vec_store.quantization_metric.quantize(
        &fixed,
        vec_store.storage_type,
    ) {
        Ok(s) => s,
        Err(_) => {
            proof {
                if vec_store.quantization_metric is Scalar && vec_store.storage_type
                    is UnsignedByte {
                    assert(false);
                }
            }
            return Err(WaCustomError::SerializationError(String::from_str("quantization failed")));
        },
    };
    let vec_emb = QuantizedVectorEmbedding {
        quantized_vec: vector_list,
        hash_vec: VectorId::Str(String::from_str("query")),
    };
    proof {
        if query_searchable(*vec_store, spec_query_bytes(query@)) {
            assert(crate::vector_store::search_ok_store(*vec_store, vec_emb.quantized_vec)) by {
                assert(vec_emb.quantized_vec matches Storage::UnsignedByte(b) && b@
                    == spec_query_bytes(query@));
            }
        }
    }
    let results = match vec_store.ann_search(
        &vec_emb,
        vec_store.root_vec,
        HNSWLevel(vec_store.max_cache_level),
    ) {
        Ok(r) => r,
        Err(e) => {
            proof {
                if query_searchable(*vec_store, spec_query_bytes(query@)) {
                    assert(false);
                }
            }
            return Err(e);
        },
    };
    match results {
        Option::None => {
            proof {
                if query_searchable(*vec_store, spec_query_bytes(query@)) {
                    assert(false);
                }
            }
            Ok(None)
        },
        Option::Some(list) => {
            let mut list = list;
            crate::vector_store::sort_candidates_desc(&mut list);
            let top = crate::vector_store::dedup_by_id_take(&vec_store.nodes, list, 5);
            let mut out: Vec<(VectorId, u64)> = Vec::new();
            let mut k: usize = 0;
            while k < top.len()
                invariant
                    vec_store.wf(),
                    k <= top@.len(),
                    out@.len() <= k,
                    crate::vector_store::sorted_desc(top@),
                    forall|t: int|
                        0 <= t < top@.len() ==> (#[trigger] top@[t]).0 < vec_store.nodes@.len(),
                    forall|a: int, b: int|
                        0 <= a < b < out@.len() ==> (#[trigger] out@[a]).1 >= (
                        #[trigger] out@[b]).1,
                    forall|a: int, t: int|
                        0 <= a < out@.len() && k <= t < top@.len() ==> (#[trigger] out@[a]).1 >= (
                        #[trigger] top@[t]).1.value,
                    forall|a: int|
                        0 <= a < out@.len() ==> hit_of_some_node(
                            vec_store.nodes@,
                            #[trigger] out@[a],
                        ),
                decreases top@.len() - k,
            {
                let (idx, score) = top[k];
                match get_vector_id_from_node(&vec_store.nodes[idx]) {
                    Option::Some(id) => {
                        let copied = clone_vector_id(id);
                        let ghost pre_out = out@;
                        proof {
                            assert(vec_store.nodes@[idx as int].prop matches PropState::Ready(p)
                                && vid_eq(copied, p.id));
                        }
                        proof {
                            assert(hit_of_some_node(vec_store.nodes@, (copied, score.value)));
                        }
                        out.push((copied, score.value));
                        proof {
                            assert forall|a: int|
                                0 <= a < out@.len() implies hit_of_some_node(
                                vec_store.nodes@,
                                #[trigger] out@[a],
                            ) by {
                                if a < pre_out.len() {
                                    assert(out@[a] == pre_out[a]);
                                } else {
                                    assert(out@[a] == (copied, score.value));
                                }
                            }
                        }
                    },
                    Option::None => {},
                }
                k = k + 1;
            }
            proof {
                assert(out@.len() <= 5);
            }
            Ok(Some(out))
        },
    }
}

/// Fetches a vector's neighborhood per level.
pub fn fetch_vector_neighbors(vec_store: &VectorStore, vector_id: &VectorId) -> (r: Result<
    Vec<Option<(VectorId, Vec<(VectorId, MetricResult)>)>>,
    WaCustomError,
>)
    requires
        vec_store.wf(),
    ensures
        r is Ok,
        r matches Ok(v) ==> v@.len() == vec_store.max_cache_level as int && (forall|lev: int|
            0 <= lev < v@.len() ==> ((#[trigger] v@[lev]) is Some <==> exists|n: int|
                0 <= n < vec_store.nodes@.len() && (#[trigger] vec_store.nodes@[n]).hnsw_level.0
                    == lev && (vec_store.nodes@[n].prop matches PropState::Ready(p) && vid_eq(
                    p.id,
                    *vector_id,
                )))),
{
    vec_store.vector_fetch(vector_id)
}

} // verus!
