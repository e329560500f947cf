//! The metadata key-value store of a collection: the current and next
//! version, the indexed and unindexed counters, the per-embedding
//! offset records and the catalog blobs.

use vstd::prelude::*;
use vstd::string::StringSliceAdditionalSpecFns;

use crate::common::WaCustomError;
use crate::types::VectorId;
use crate::types::vector_id_eq;
use crate::types::vid_eq;
use crate::versioning::CommitHash;
use crate::versioning::VersionControl;
use crate::versioning::VersionHash;
use crate::versioning::latest_of_branch;
use crate::versioning::branch_collision;
use crate::versioning::spec_mix;
use crate::hashing::sip24_of;

verus! {

/// Some record carries an id equal to `id`.
pub open spec fn emb_has_key(s: Seq<(VectorId, Vec<u8>)>, id: VectorId) -> bool {
    exists|i: int| 0 <= i < s.len() && vid_eq((#[trigger] s[i]).0, id)
}

/// The slot of the record keyed by `id`.
pub open spec fn emb_idx_of(s: Seq<(VectorId, Vec<u8>)>, id: VectorId) -> int {
    choose|i: int| 0 <= i < s.len() && vid_eq((#[trigger] s[i]).0, id)
}

/// Record ids never repeat.
pub open spec fn emb_keys_unique(s: Seq<(VectorId, Vec<u8>)>) -> bool {
    forall|i: int, j: int|
        0 <= i < j < s.len() ==> !vid_eq((#[trigger] s[i]).0, (#[trigger] s[j]).0)
}

/// Some blob is stored under `key`.
pub open spec fn blob_has_key(s: Seq<(u64, Vec<u8>)>, key: u64) -> bool {
    exists|i: int| 0 <= i < s.len() && (#[trigger] s[i]).0 == key
}

/// The slot of the blob stored under `key`.
pub open spec fn blob_idx_of(s: Seq<(u64, Vec<u8>)>, key: u64) -> int {
    choose|i: int| 0 <= i < s.len() && (#[trigger] s[i]).0 == key
}

/// Blob keys never repeat.
pub open spec fn blob_keys_unique(s: Seq<(u64, Vec<u8>)>) -> bool {
    forall|i: int, j: int| 0 <= i < j < s.len() ==> (#[trigger] s[i]).0 != (#[trigger] s[j]).0
}

/// The embedded metadata store, holding typed values in place of the
/// raw database records: version bookkeeping, ingest counters, the
/// per-embedding offset records, and the collection catalog.
pub struct MetaDb {
    pub current_version: Option<VersionHash>,
    pub next_version: Option<u32>,
    pub count_indexed: u32,
    pub count_unindexed: u32,
    pub embeddings: Vec<(VectorId, Vec<u8>)>,
    pub collections: Vec<(u64, Vec<u8>)>,
}

impl MetaDb {
    /// Record ids and catalog keys never repeat.
    pub open spec fn wf(&self) -> bool {
        &&& emb_keys_unique(self.embeddings@)
        &&& blob_keys_unique(self.collections@)
    }

    /// An empty store with zeroed counters.
    pub fn new() -> (r: Self)
        ensures
            r.wf(),
            r.current_version is None,
            r.next_version is None,
            r.count_indexed == 0,
            r.count_unindexed == 0,
            r.embeddings@.len() == 0,
            r.collections@.len() == 0,
    {
        MetaDb {
            current_version: None,
            next_version: None,
            count_indexed: 0,
            count_unindexed: 0,
            embeddings: Vec::new(),
            collections: Vec::new(),
        }
    }

    /// The slot of the record keyed by `id`, if one exists.
    fn find_embedding(&self, id: &VectorId) -> (r: Option<usize>)
        ensures
            r is Some <==> emb_has_key(self.embeddings@, *id),
            r matches Some(i) ==> i < self.embeddings@.len() && vid_eq(
                self.embeddings@[i as int].0,
                *id,
            ),
    {
        let mut i: usize = 0;
        while i < self.embeddings.len()
            invariant
                i <= self.embeddings@.len(),
                forall|j: int| 0 <= j < i ==> !vid_eq((#[trigger] self.embeddings@[j]).0, *id),
            decreases self.embeddings@.len() - i,
        {
            if vector_id_eq(&self.embeddings[i].0, id) {
                return Some(i);
            }
            i = i + 1;
        }
        None
    }

    /// Stores `bytes` under `id`, replacing any record the id already
    /// has.
    pub fn put_embedding(&mut self, id: VectorId, bytes: Vec<u8>)
        requires
            old(self).wf(),
        ensures
            final(self).wf(),
            emb_has_key(final(self).embeddings@, id),
            final(self).embeddings@[emb_idx_of(final(self).embeddings@, id)].1@ == bytes@,
            final(self).current_version == old(self).current_version,
            final(self).next_version == old(self).next_version,
            final(self).count_indexed == old(self).count_indexed,
            final(self).count_unindexed == old(self).count_unindexed,
            final(self).collections == old(self).collections,
            old(self).emb_len() <= final(self).emb_len() <= old(self).emb_len() + 1,
            forall|id2: VectorId|
                emb_has_key(old(self).embeddings@, id2) ==> emb_has_key(
                    final(self).embeddings@,
                    id2,
                ),
            forall|id2: VectorId|
                emb_has_key(old(self).embeddings@, id2) && !vid_eq(id, id2) ==> emb_has_key(
                    final(self).embeddings@,
                    id2,
                ) && final(self).embeddings@[emb_idx_of(final(self).embeddings@, id2)]
                    == old(self).embeddings@[emb_idx_of(old(self).embeddings@, id2)],
    {
        let ghost pre = self.embeddings@;
        match self.find_embedding(&id) {
            Some(i) => {
                let ghost idv = id;
                self.embeddings.set(i, (id, bytes));
                proof {
                    assert forall|a: int, b: int|
                        0 <= a < b < self.embeddings@.len() implies !vid_eq(
                        (#[trigger] self.embeddings@[a]).0,
                        (#[trigger] self.embeddings@[b]).0,
                    ) by {
                        if a != i && b != i {
                            assert(!vid_eq(pre[a].0, pre[b].0));
                        } else if a == i {
                            assert(!vid_eq(pre[a].0, pre[b].0));
                            assert(vid_eq(self.embeddings@[a].0, idv));
                            if vid_eq(self.embeddings@[a].0, self.embeddings@[b].0) {
                                assert(vid_eq(pre[a].0, pre[b].0)) by {
                                    lemma_vid_eq_trans(pre[a].0, idv, pre[b].0);
                                }
                            }
                        } else {
                            assert(!vid_eq(pre[a].0, pre[b].0));
                            if vid_eq(self.embeddings@[a].0, self.embeddings@[b].0) {
                                assert(vid_eq(pre[a].0, pre[b].0)) by {
                                    lemma_vid_eq_trans2(pre[a].0, idv, pre[b].0);
                                }
                            }
                        }
                    }
                    let w = emb_idx_of(self.embeddings@, idv);
                    assert(vid_eq(self.embeddings@[i as int].0, idv));
                    assert(emb_has_key(self.embeddings@, idv));
                    assert forall|id2: VectorId|
                        emb_has_key(pre, id2) implies emb_has_key(self.embeddings@, id2) by {
                        let j = choose|j: int|
                            0 <= j < pre.len() && vid_eq((#[trigger] pre[j]).0, id2);
                        if j == i {
                            lemma_vid_eq_trans(pre[i as int].0, idv, id2);
                            assert(vid_eq(self.embeddings@[i as int].0, id2)) by {
                                lemma_vid_eq_trans3(self.embeddings@[i as int].0, idv, id2);
                            }
                        } else {
                            assert(self.embeddings@[j] == pre[j]);
                        }
                    }
                    if w != i {
                        if w < i {
                            assert(!vid_eq(self.embeddings@[w].0, self.embeddings@[i as int].0));
                            lemma_vid_eq_trans3(self.embeddings@[w].0, idv, self.embeddings@[i as int].0);
                        } else {
                            assert(!vid_eq(self.embeddings@[i as int].0, self.embeddings@[w].0));
                            lemma_vid_eq_trans3(self.embeddings@[w].0, idv, self.embeddings@[i as int].0);
                        }
                    }
                    assert forall|id2: VectorId|
                        emb_has_key(pre, id2) && !vid_eq(idv, id2) implies emb_has_key(
                        self.embeddings@,
                        id2,
                    ) && self.embeddings@[emb_idx_of(self.embeddings@, id2)] == pre[emb_idx_of(
                        pre,
                        id2,
                    )] by {
                        let j = emb_idx_of(pre, id2);
                        assert(0 <= j < pre.len() && vid_eq(pre[j].0, id2));
                        if j == i {
                            lemma_vid_eq_trans(pre[i as int].0, idv, id2);
                            assert(false);
                        }
                        assert(self.embeddings@[j] == pre[j]);
                        assert(emb_has_key(self.embeddings@, id2));
                        let w2 = emb_idx_of(self.embeddings@, id2);
                        assert(0 <= w2 < self.embeddings@.len() && vid_eq(
                            self.embeddings@[w2].0,
                            id2,
                        ));
                        lemma_emb_slot_unique(self.embeddings@, id2, w2, j);
                    }
                }
            },
            None => {
                self.embeddings.push((id, bytes));
                proof {
                    assert forall|id2: VectorId|
                        emb_has_key(pre, id2) implies emb_has_key(self.embeddings@, id2) by {
                        let j = choose|j: int|
                            0 <= j < pre.len() && vid_eq((#[trigger] pre[j]).0, id2);
                        assert(self.embeddings@[j] == pre[j]);
                    }
                    let n = pre.len() as int;
                    assert(vid_eq(self.embeddings@[n].0, id)) by {
                        lemma_vid_eq_refl(id);
                    }
                    assert(emb_has_key(self.embeddings@, id));
                    let w = emb_idx_of(self.embeddings@, id);
                    if w != n {
                        assert(vid_eq(pre[w].0, id));
                        assert(emb_has_key(pre, id));
                        assert(false);
                    }
                    assert forall|id2: VectorId|
                        emb_has_key(pre, id2) && !vid_eq(id, id2) implies emb_has_key(
                        self.embeddings@,
                        id2,
                    ) && self.embeddings@[emb_idx_of(self.embeddings@, id2)] == pre[emb_idx_of(
                        pre,
                        id2,
                    )] by {
                        let j = emb_idx_of(pre, id2);
                        assert(0 <= j < pre.len() && vid_eq(pre[j].0, id2));
                        assert(self.embeddings@[j] == pre[j]);
                        assert(emb_has_key(self.embeddings@, id2));
                        let w2 = emb_idx_of(self.embeddings@, id2);
                        assert(0 <= w2 < self.embeddings@.len() && vid_eq(
                            self.embeddings@[w2].0,
                            id2,
                        ));
                        if w2 == n {
                            lemma_vid_eq_trans(self.embeddings@[n].0, id, id2);
                            assert(false);
                        }
                        lemma_emb_slot_unique(self.embeddings@, id2, w2, j);
                    }
                }
            },
        }
    }

    /// The number of embedding records.
    pub open spec fn emb_len(&self) -> int {
        self.embeddings@.len() as int
    }

    /// The bytes stored under `id`, if any.
    pub fn get_embedding(&self, id: &VectorId) -> (r: Option<Vec<u8>>)
        ensures
            r is Some <==> emb_has_key(self.embeddings@, *id),
            r matches Some(v) ==> exists|i: int|
                0 <= i < self.embeddings@.len() && vid_eq((#[trigger] self.embeddings@[i]).0, *id)
                    && v@ == self.embeddings@[i].1@,
    {
        match self.find_embedding(id) {
            Some(i) => {
                let bytes = copy_bytes(&self.embeddings[i].1);
                proof {
                    assert(exists|j: int|
                        0 <= j < self.embeddings@.len() && vid_eq(
                            (#[trigger] self.embeddings@[j]).0,
                            *id,
                        ) && bytes@ == self.embeddings@[j].1@) by {
                        assert(vid_eq(self.embeddings@[i as int].0, *id));
                        assert(bytes@ == self.embeddings@[i as int].1@);
                    }
                }
                Some(bytes)
            },
            None => None,
        }
    }

    /// The slot of the blob stored under `key`, if one exists.
    fn find_collection(&self, key: u64) -> (r: Option<usize>)
        ensures
            r is Some <==> blob_has_key(self.collections@, key),
            r matches Some(i) ==> i < self.collections@.len() && self.collections@[i as int].0
                == key,
            r is None ==> forall|j: int|
                0 <= j < self.collections@.len() ==> (#[trigger] self.collections@[j]).0 != key,
    {
        let mut i: usize = 0;
        while i < self.collections.len()
            invariant
                i <= self.collections@.len(),
                forall|j: int| 0 <= j < i ==> (#[trigger] self.collections@[j]).0 != key,
            decreases self.collections@.len() - i,
        {
            if self.collections[i].0 == key {
                return Some(i);
            }
            i = i + 1;
        }
        None
    }

    /// Stores a catalog blob under `key`, replacing any blob the key
    /// already has.
    pub fn put_collection(&mut self, key: u64, bytes: Vec<u8>)
        requires
            old(self).wf(),
        ensures
            final(self).wf(),
            blob_has_key(final(self).collections@, key),
            final(self).collections@[blob_idx_of(final(self).collections@, key)].1@ == bytes@,
            final(self).current_version == old(self).current_version,
            final(self).next_version == old(self).next_version,
            final(self).count_indexed == old(self).count_indexed,
            final(self).count_unindexed == old(self).count_unindexed,
            final(self).embeddings == old(self).embeddings,
    {
        let ghost pre = self.collections@;
        match self.find_collection(key) {
            Some(t) => {
                self.collections.set(t, (key, bytes));
                proof {
                    assert forall|a: int|
                        0 <= a < self.collections@.len() implies (
                    #[trigger] self.collections@[a]).0 == pre[a].0 by {
                        if a == t {
                            assert(pre[a].0 == key);
                        }
                    }
                    assert(blob_keys_unique(self.collections@));
                    assert(self.collections@[t as int].0 == key);
                    assert(blob_has_key(self.collections@, key));
                    let w = blob_idx_of(self.collections@, key);
                    assert(self.collections@[w].0 == key);
                    if w != t {
                        assert(false);
                    }
                }
            },
            None => {
                self.collections.push((key, bytes));
                proof {
                    let n = pre.len() as int;
                    assert(self.collections@[n].0 == key);
                    assert(blob_has_key(self.collections@, key));
                    assert(blob_keys_unique(self.collections@)) by {
                        assert forall|a: int, b: int|
                            0 <= a < b < self.collections@.len() implies (
                        #[trigger] self.collections@[a]).0 != (#[trigger] self.collections@[b]).0
                            by {
                            if b < n {
                                assert(pre[a].0 != pre[b].0);
                            } else {
                                assert(pre[a].0 != key);
                            }
                        }
                    }
                    let w = blob_idx_of(self.collections@, key);
                    if w != n {
                        assert(pre[w].0 == key);
                        assert(false);
                    }
                }
            },
        }
    }
}

/// Copies a byte vector.
pub fn copy_bytes(v: &Vec<u8>) -> (r: Vec<u8>)
    ensures
        r@ == v@,
{
    let mut r: Vec<u8> = Vec::new();
    let mut i: usize = 0;
    while i < v.len()
        invariant
            i <= v@.len(),
            r@ =~= v@.take(i as int),
        decreases v@.len() - i,
    {
        r.push(v[i]);
        i = i + 1;
    }
    proof {
        assert(r@ =~= v@);
    }
    r
}

/// Copies a vector of 32-bit values.
pub fn copy_bytes_u32(v: &Vec<u32>) -> (r: Vec<u32>)
    ensures
        r@ == v@,
{
    let mut r: Vec<u32> = Vec::new();
    let mut i: usize = 0;
    while i < v.len()
        invariant
            i <= v@.len(),
            r@ =~= v@.take(i as int),
        decreases v@.len() - i,
    {
        r.push(v[i]);
        i = i + 1;
    }
    proof {
        assert(r@ =~= v@);
    }
    r
}

/// Id equality is reflexive.
pub proof fn lemma_vid_eq_refl(a: VectorId)
    ensures
        vid_eq(a, a),
{
}

/// Ids equal to a common id are equal to each other.
pub proof fn lemma_vid_eq_trans(a: VectorId, m: VectorId, b: VectorId)
    requires
        vid_eq(a, m),
        vid_eq(a, b),
    ensures
        vid_eq(m, b),
{
}

/// Ids equal to a common id are equal to each other, the other way
/// round.
pub proof fn lemma_vid_eq_trans2(a: VectorId, m: VectorId, b: VectorId)
    requires
        vid_eq(b, m),
        vid_eq(a, b),
    ensures
        vid_eq(a, m),
{
}

/// Two ids both equal to a third are equal.
pub proof fn lemma_vid_eq_trans3(a: VectorId, m: VectorId, b: VectorId)
    requires
        vid_eq(a, m),
        vid_eq(b, m),
    ensures
        vid_eq(a, b),
        vid_eq(b, a),
{
}

/// Two slots keyed by the same id are one slot.
pub proof fn lemma_emb_slot_unique(s: Seq<(VectorId, Vec<u8>)>, id: VectorId, i: int, j: int)
    requires
        emb_keys_unique(s),
        0 <= i < s.len(),
        0 <= j < s.len(),
        vid_eq(s[i].0, id),
        vid_eq(s[j].0, id),
    ensures
        i == j,
{
    if i != j {
        lemma_vid_eq_trans3(s[i].0, id, s[j].0);
        if i < j {
            assert(!vid_eq(s[i].0, s[j].0));
        } else {
            assert(!vid_eq(s[j].0, s[i].0));
        }
    }
}

/// A key present under one id is present under any equal id.
pub proof fn lemma_vid_eq_lift(s: Seq<(VectorId, Vec<u8>)>, a: VectorId, b: VectorId)
    requires
        emb_has_key(s, a),
        vid_eq(a, b),
    ensures
        emb_has_key(s, b),
{
    let j = choose|j: int| 0 <= j < s.len() && vid_eq((#[trigger] s[j]).0, a);
    lemma_vid_eq_trans2(s[j].0, b, a);
    assert(vid_eq(s[j].0, b));
}

/// Generates the next commit hash for `branch` and records it in the
/// store as the current version.
pub fn store_current_version(
    lmdb: &mut MetaDb,
    vcs: &mut VersionControl,
    branch: &str,
    version: u32,
) -> (r: Result<CommitHash, WaCustomError>)
    ensures
        ({
            let key = sip24_of(branch.spec_bytes());
            let parent = latest_of_branch(old(vcs).versions@, key);
            let h = spec_mix(
                key,
                version,
                match parent {
                    Option::Some(p) => Some(p.hash),
                    Option::None => None,
                },
            );
            &&& (r is Err) == branch_collision(old(vcs).versions@, key, h)
            &&& r is Err ==> *final(vcs) == *old(vcs) && *final(lmdb) == *old(lmdb)
            &&& r matches Ok(c) ==> {
                &&& c == CommitHash(h)
                &&& final(vcs).versions@ =~= old(vcs).versions@.push(
                    VersionHash {
                        hash: h,
                        branch_key: key,
                        version,
                        parent_hash: match parent {
                            Option::Some(p) => Some(p.hash),
                            Option::None => None,
                        },
                    },
                )
                &&& final(lmdb).current_version == Some(final(vcs).versions@.last())
                &&& final(lmdb).next_version == old(lmdb).next_version
                &&& final(lmdb).count_indexed == old(lmdb).count_indexed
                &&& final(lmdb).count_unindexed == old(lmdb).count_unindexed
                &&& final(lmdb).embeddings == old(lmdb).embeddings
                &&& final(lmdb).collections == old(lmdb).collections
            }
        }),
{
    let hash = match vcs.generate_hash(branch, version) {
        Ok(h) => h,
        Err(e) => {
            return Err(e);
        },
    };
    let n = vcs.versions.len();
    let record = vcs.versions[n - 1];
    lmdb.current_version = Some(record);
    Ok(hash)
}

/// Reads the current version back from the store; a missing record is
/// a database error.
pub fn retrieve_current_version(lmdb: &MetaDb) -> (r: Result<VersionHash, WaCustomError>)
    ensures
        match lmdb.current_version {
            Option::Some(v) => r == Result::<VersionHash, WaCustomError>::Ok(v),
            Option::None => r matches Err(e) && e matches WaCustomError::DatabaseError(_),
        },
{
    match lmdb.current_version {
        Some(v) => Ok(v),
        None => Err(
            WaCustomError::DatabaseError(String::from_str("record not found: current_version")),
        ),
    }
}

} // verus!
