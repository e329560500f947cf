//! The collection-level sparse index: the 4-ary trie with its
//! metadata store, version control and transaction gate.

use vstd::prelude::*;

use crate::common::WaCustomError;
use crate::meta::MetaDb;
use crate::quantization::QuantizationMetric;
use crate::quantization::StorageType;
use crate::sparse::InvertedIndexSparseAnnNewDS;
use crate::sparse::index_leq;
use crate::sparse::spec_present;
use crate::sparse::spec_quantize;
use crate::types::DistanceMetric;
use crate::versioning::CommitHash;
use crate::versioning::VersionControl;
use crate::versioning::VersionHash;

verus! {

/// One collection's sparse inverted index and its bookkeeping.
pub struct InvertedIndex {
    pub name: String,
    pub description: Option<String>,
    pub auto_create_index: bool,
    pub metadata_schema: Option<String>,
    pub max_vectors: Option<i32>,
    pub replication_factor: Option<i32>,
    pub root: InvertedIndexSparseAnnNewDS,
    pub lmdb: MetaDb,
    pub current_version: Option<VersionHash>,
    pub current_open_transaction: Option<CommitHash>,
    pub quantization_metric: QuantizationMetric,
    pub distance_metric: DistanceMetric,
    pub storage_type: StorageType,
    pub vcs: VersionControl,
}

impl InvertedIndex {
    /// The trie and the metadata store are intact.
    pub open spec fn wf(&self) -> bool {
        &&& self.root.wf()
        &&& self.lmdb.wf()
    }

    /// A fresh index with an empty trie and no open transaction.
    pub fn new(
        name: String,
        description: Option<String>,
        auto_create_index: bool,
        metadata_schema: Option<String>,
        max_vectors: Option<i32>,
        replication_factor: Option<i32>,
        lmdb: MetaDb,
        current_version: Option<VersionHash>,
        quantization_metric: QuantizationMetric,
        distance_metric: DistanceMetric,
        storage_type: StorageType,
        vcs: VersionControl,
    ) -> (r: Self)
        requires
            lmdb.wf(),
        ensures
            r.wf(),
            r.current_open_transaction is None,
            r.name == name,
            r.current_version == current_version,
            r.root.nodes@.len() == 1,
    {
        InvertedIndex {
            name,
            description,
            auto_create_index,
            metadata_schema,
            max_vectors,
            replication_factor,
            root: InvertedIndexSparseAnnNewDS::new(),
            lmdb,
            current_version,
            current_open_transaction: None,
            quantization_metric,
            distance_metric,
            storage_type,
            vcs,
        }
    }

    /// Inserts `(vector_id, value)` under a dimension of the trie.
    pub fn add_dim_index(&mut self, dim_index: u32, value: i64, vector_id: u32) -> (r: Result<
        (),
        String,
    >)
        requires
            old(self).wf(),
        ensures
            final(self).wf(),
            r is Ok,
            index_leq(old(self).root.nodes@, final(self).root.nodes@),
            spec_present(
                final(self).root.nodes@,
                dim_index,
                spec_quantize(value as int) as int,
                vector_id,
            ),
    {
        self.root.insert(dim_index, value, vector_id);
        Ok(())
    }

    /// The collection's current version hash.
    pub fn get_current_version(&self) -> (r: Option<VersionHash>)
        ensures
            r == self.current_version,
    {
        self.current_version
    }

    /// Replaces the collection's current version hash.
    pub fn set_current_version(&mut self, new_version: VersionHash)
        ensures
            final(self).current_version == Some(new_version),
            final(self).root == old(self).root,
            final(self).lmdb == old(self).lmdb,
            final(self).current_open_transaction == old(self).current_open_transaction,
    {
        self.current_version = Some(new_version);
    }
}

} // verus!
