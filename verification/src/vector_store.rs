//! The dense HNSW index: a multi-level small-world graph over
//! quantized embeddings, with versioned nodes, an execution queue of
//! dirty nodes, and the embedding ingest pipeline.
//!
//! Nodes live in an arena; handles are arena slots.  Every node keeps
//! at most 20 neighbors — the graph's central invariant — and a node
//! above level 0 is linked to a child one level below carrying the
//! same vector id.

use vstd::prelude::*;

use crate::buffer::BufferManager;
use crate::buffer::BufferManagerFactory;
use crate::buffer::SeekPos;
use crate::common::WaCustomError;
use crate::embedding::RawVectorEmbedding;
use crate::embedding::EmbeddingOffset;
use crate::embedding::spec_emb_body;
use crate::embedding::emb_wf;
use crate::embedding::spec_enc_vid;
use crate::embedding::encode_embedding;
use crate::embedding::write_embedding;
use crate::embedding::read_embedding;
use crate::fixed::bits_vec_to_fixed;
use crate::meta::MetaDb;
use crate::quantization::QuantizationMetric;
use crate::quantization::StorageType;
use crate::types::BytesToRead;
use crate::types::DistanceMetric;
use crate::types::FileIndex;
use crate::types::FileOffset;
use crate::types::HNSWLevel;
use crate::types::MetricResult;
use crate::types::Storage;
use crate::types::VectorId;
use crate::types::vector_id_eq;
use crate::types::vid_eq;
use crate::versioning::CommitHash;
use crate::versioning::VersionControl;
use crate::versioning::VersionHash;
use crate::chunked_list::SyncPersist;

verus! {

/// A node's payload: the vector id, the quantized value, and where
/// the payload sits in the prop file once persisted.
#[derive(Debug, Clone)]
pub struct NodeProp {
    pub id: VectorId,
    pub value: Storage,
    pub location: Option<(FileOffset, BytesToRead)>,
}

/// A node payload in memory, or still pending at a prop-file
/// location.
#[derive(Debug)]
pub enum PropState {
    Ready(NodeProp),
    Pending((FileOffset, BytesToRead)),
}

/// One graph node: its level, payload, outgoing edges with their
/// scores, the parent one level above and the child one level below,
/// its version stamp, and its persistence state.
#[derive(Debug)]
pub struct MergedNode {
    pub version_id: u32,
    pub hnsw_level: HNSWLevel,
    pub prop: PropState,
    pub neighbors: Vec<(usize, MetricResult)>,
    pub parent: Option<usize>,
    pub child: Option<usize>,
    pub persist_flag: bool,
    pub file_index: FileIndex,
}

impl SyncPersist for MergedNode {
    fn set_persistence(&mut self, flag: bool) {
        self.persist_flag = flag;
    }

    fn needs_persistence(&self) -> bool {
        self.persist_flag
    }
}

/// The vector id a node carries, when its payload is in memory.
pub fn get_vector_id_from_node(node: &MergedNode) -> (r: Option<&VectorId>)
    ensures
        match node.prop {
            PropState::Ready(p) => r matches Some(id) && *id == p.id,
            PropState::Pending(_) => r is None,
        },
{
    match &node.prop {
        PropState::Ready(p) => Some(&p.id),
        PropState::Pending(_) => None,
    }
}

/// Copies a vector id.
pub fn clone_vector_id(v: &VectorId) -> (r: VectorId)
    ensures
        vid_eq(r, *v),
{
    match v {
        VectorId::Int(x) => VectorId::Int(*x),
        VectorId::Str(s) => VectorId::Str(String::from_str(s.as_str())),
    }
}

/// A node's edges stay inside an arena of `len` nodes and never
/// exceed 20.
pub open spec fn node_ok(n: MergedNode, len: int) -> bool {
    &&& n.neighbors@.len() <= 20
    &&& forall|j: int| 0 <= j < n.neighbors@.len() ==> (#[trigger] n.neighbors@[j]).0 < len
    &&& (n.parent matches Some(p) ==> p < len)
    &&& (n.child matches Some(c) ==> c < len)
}

/// The child sits one level below and carries the same vector id
/// (when both payloads are in memory).
pub open spec fn child_link_ok(nodes: Seq<MergedNode>, i: int) -> bool {
    nodes[i].child matches Some(c) ==> {
        &&& nodes[c as int].hnsw_level.0 + 1 == nodes[i].hnsw_level.0
        &&& match (nodes[i].prop, nodes[c as int].prop) {
            (PropState::Ready(p1), PropState::Ready(p2)) => vid_eq(p1.id, p2.id),
            _ => true,
        }
    }
}

/// The dense index of one collection.
pub struct VectorStore {
    pub nodes: Vec<MergedNode>,
    pub root_vec: usize,
    pub max_cache_level: u8,
    pub levels_prob: Vec<(u32, u8)>,
    pub database_name: String,
    pub quant_dim: usize,
    pub exec_queue_nodes: Vec<usize>,
    pub lmdb: MetaDb,
    pub vcs: VersionControl,
    pub current_version: Option<VersionHash>,
    pub current_open_transaction: Option<CommitHash>,
    pub quantization_metric: QuantizationMetric,
    pub distance_metric: DistanceMetric,
    pub storage_type: StorageType,
    pub prop_file: BufferManager,
    pub index_manager: BufferManagerFactory,
    pub vec_raw_manager: BufferManagerFactory,
}

impl VectorStore {
    /// The index is intact: the entry point and every link stay
    /// inside the arena, no node has more than 20 neighbors, child
    /// links descend one level keeping the vector id, and the
    /// metadata store is intact.
    pub open spec fn wf(&self) -> bool {
        &&& self.nodes@.len() >= 1
        &&& self.root_vec < self.nodes@.len()
        &&& forall|i: int|
            0 <= i < self.nodes@.len() ==> node_ok(#[trigger] self.nodes@[i], self.nodes@.len() as int)
        &&& forall|i: int| 0 <= i < self.nodes@.len() ==> child_link_ok(self.nodes@, i)
        &&& forall|q: int|
            0 <= q < self.exec_queue_nodes@.len() ==> (#[trigger] self.exec_queue_nodes@[q])
                < self.nodes@.len()
        &&& self.lmdb.wf()
        &&& self.vec_raw_manager.versions_unique()
        &&& self.index_manager.versions_unique()
    }
}

/// The store's configuration — everything but the graph, the queue,
/// the metadata store, the version history and the file images — is
/// unchanged between two states.
pub open spec fn same_store_config(a: VectorStore, b: VectorStore) -> bool {
    &&& a.root_vec == b.root_vec
    &&& a.max_cache_level == b.max_cache_level
    &&& a.levels_prob == b.levels_prob
    &&& a.database_name == b.database_name
    &&& a.quant_dim == b.quant_dim
    &&& a.current_version == b.current_version
    &&& a.current_open_transaction == b.current_open_transaction
    &&& a.quantization_metric == b.quantization_metric
    &&& a.distance_metric == b.distance_metric
    &&& a.storage_type == b.storage_type
}

/// Addition capped at the counter's maximum.
pub open spec fn sat_add(a: int, k: int) -> u32 {
    if a + k > u32::MAX {
        u32::MAX
    } else {
        (a + k) as u32
    }
}

/// Subtraction floored at zero.
pub open spec fn sat_sub(a: int, k: int) -> u32 {
    if a - k < 0 {
        0u32
    } else {
        (a - k) as u32
    }
}

/// Candidate lists are sorted by descending score.
pub open spec fn sorted_desc(s: Seq<(usize, MetricResult)>) -> bool {
    forall|i: int, j: int|
        0 <= i < j < s.len() ==> (#[trigger] s[i]).1.value >= (#[trigger] s[j]).1.value
}

/// Every element of `s` occurs in `t`.
pub open spec fn elems_among(s: Seq<(usize, MetricResult)>, t: Seq<(usize, MetricResult)>) -> bool {
    forall|i: int| 0 <= i < s.len() ==> t.contains(#[trigger] s[i])
}

/// Sorts a candidate list by descending score; the result holds only
/// elements of the input and keeps its length.
pub fn sort_candidates_desc(v: &mut Vec<(usize, MetricResult)>)
    ensures
        sorted_desc(final(v)@),
        final(v)@.len() == old(v)@.len(),
        elems_among(final(v)@, old(v)@),
{
    let mut out: Vec<(usize, MetricResult)> = Vec::new();
    let ghost orig = v@;
    let mut remaining_len = v.len();
    while out.len() < remaining_len
        invariant
            out@.len() + v@.len() == orig.len(),
            remaining_len == orig.len(),
            sorted_desc(out@),
            elems_among(out@, orig),
            elems_among(v@, orig),
            forall|i: int, j: int|
                0 <= i < out@.len() && 0 <= j < v@.len() ==> (#[trigger] out@[i]).1.value >= (
                #[trigger] v@[j]).1.value,
        decreases remaining_len - out.len(),
    {
        let mut best: usize = 0;
        let mut k: usize = 1;
        while k < v.len()
            invariant
                best < k,
                k <= v@.len(),
                v@.len() >= 1,
                forall|j: int|
                    0 <= j < k ==> (#[trigger] v@[j]).1.value <= v@[best as int].1.value,
            decreases v@.len() - k,
        {
            if v[k].1.value > v[best].1.value {
                best = k;
            }
            k = k + 1;
        }
        let ghost prev = v@;
        let picked = v.remove(best);
        proof {
            assert(prev[best as int] == picked);
            assert(orig.contains(picked));
        }
        out.push(picked);
        proof {
            assert forall|i2: int| 0 <= i2 < v@.len() implies orig.contains(#[trigger] v@[i2])
                && picked.1.value >= v@[i2].1.value by {
                if i2 < best {
                    assert(v@[i2] == prev[i2]);
                } else {
                    assert(v@[i2] == prev[i2 + 1]);
                }
            }
        }
    }
    proof {
        assert(v@.len() == 0);
    }
    *v = out;
}

/// The hop budget at a level: the full budget scaled down as the
/// level descends from the top.
pub open spec fn spec_tapered_total_hops(full_hops: u8, cur_level: u8, max_level: u8) -> u8 {
    if max_level == 0 {
        full_hops
    } else if cur_level >= max_level {
        full_hops
    } else {
        ((full_hops as int) * ((cur_level as int) + 1) / ((max_level as int) + 1)) as u8
    }
}

/// The hop budget at a level, as executable code.
pub fn tapered_total_hops(full_hops: u8, cur_level: u8, max_level: u8) -> (r: u8)
    ensures
        r == spec_tapered_total_hops(full_hops, cur_level, max_level),
        r <= full_hops,
{
    if max_level == 0 || cur_level >= max_level {
        full_hops
    } else {
        proof {
            assert(0 <= (full_hops as int) * ((cur_level as int) + 1) <= 255 * 256)
                by (nonlinear_arith)
                requires
                    0 <= full_hops as int <= 255,
                    0 <= cur_level as int <= 255,
            ;
            assert((full_hops as int) * ((cur_level as int) + 1) / ((max_level as int) + 1)
                <= full_hops as int) by (nonlinear_arith)
                requires
                    0 <= full_hops,
                    0 <= cur_level as int,
                    cur_level as int + 1 <= max_level as int + 1,
            ;
        }
        let scaled = (full_hops as u32) * ((cur_level as u32) + 1) / ((max_level as u32) + 1);
        scaled as u8
    }
}

/// The store can score every node against this query: the query is a
/// byte payload of a supported dimension, every node's payload is in
/// memory with the same dimension, and under the cosine metric every
/// vector involved is nonzero.  Under this condition no search or
/// insert traversal can fail.
pub open spec fn search_ok_store(store: VectorStore, q: Storage) -> bool {
    &&& q is UnsignedByte
    &&& forall|i: int|
        0 <= i < store.nodes@.len() ==> ((#[trigger] store.nodes@[i]).prop matches PropState::Ready(
            p,
        ) && crate::types::calculate_ok(store.distance_metric, q, p.value))
}

/// Every reported neighbor pair carries the id of a materialized node
/// together with an edge score of the graph.
pub open spec fn neighbors_reported(store: VectorStore, nes: Seq<(VectorId, MetricResult)>) -> bool {
    forall|e: int|
        0 <= e < nes.len() ==> exists|n: int, k: int|
            0 <= n < store.nodes@.len() && 0 <= k < store.nodes@[n].neighbors@.len() && (
            #[trigger] nes[e]).1 == (#[trigger] store.nodes@[n].neighbors@[k]).1 && (store.nodes@[(
            store.nodes@[n].neighbors@[k].0) as int].prop matches PropState::Ready(p) && vid_eq(
                nes[e].0,
                p.id,
            ))
}

/// A node created at level `l` of an insert descending from
/// `cur_level` with drawn level `max_l` gets a parent: one was also
/// created one level up.
pub open spec fn column_chained(cur_level: u8, max_l: u8, l: int) -> bool {
    l + 1 <= cur_level && l + 1 <= max_l
}

/// Some node appended past `old_len` sits at level `l`, carries `id`
/// with the inserted payload, is queued for persistence, and — when
/// `chained` — hangs under a parent one level up carrying the same
/// id.
pub open spec fn inserted_column_node(
    old_len: int,
    nodes: Seq<MergedNode>,
    queue: Seq<usize>,
    id: VectorId,
    val: Storage,
    l: int,
    chained: bool,
) -> bool {
    exists|n: int|
        old_len <= n < nodes.len() && (#[trigger] nodes[n]).hnsw_level.0 == l && (nodes[n].prop
            matches PropState::Ready(p) && vid_eq(p.id, id) && storage_eq(p.value, val))
            && queue.contains(n as usize) && (chained ==> (nodes[n].parent matches Some(pn)
            && pn < nodes.len() && nodes[pn as int].hnsw_level.0 == l + 1 && (nodes[pn as int].prop
            matches PropState::Ready(pp) && vid_eq(pp.id, id))))
}

/// The candidate names a node whose in-memory payload scores against
/// the query exactly as the pair's score says.
pub open spec fn scored_entry(store: VectorStore, q: Storage, e: (usize, MetricResult)) -> bool {
    &&& e.0 < store.nodes@.len()
    &&& (store.nodes@[e.0 as int].prop matches PropState::Ready(p) && crate::types::calculate_ok(
        store.distance_metric,
        q,
        p.value,
    ) && e.1.value == crate::types::calculate_val(store.distance_metric, q, p.value))
}

/// The id a candidate's node carries.
pub open spec fn entry_id(store: VectorStore, e: (usize, MetricResult)) -> VectorId
    recommends
        e.0 < store.nodes@.len(),
        store.nodes@[e.0 as int].prop is Ready,
{
    store.nodes@[e.0 as int].prop->Ready_0.id
}

/// Some slot at or past `lo` of the visited set carries `id`.
pub open spec fn vid_recorded(ids: Seq<VectorId>, lo: int, id: VectorId) -> bool {
    exists|t: int| lo <= t < ids.len() && vid_eq(#[trigger] ids[t], id)
}

/// A recorded id stays recorded when the visited set only grows, and
/// under a weaker lower bound.
pub proof fn lemma_vid_recorded_grow(
    pre: Seq<VectorId>,
    post: Seq<VectorId>,
    lo: int,
    lo2: int,
    id: VectorId,
)
    requires
        vid_recorded(pre, lo, id),
        pre.len() <= post.len(),
        post.take(pre.len() as int) == pre,
        0 <= lo2 <= lo,
    ensures
        vid_recorded(post, lo2, id),
{
    let t = choose|t: int| lo <= t < pre.len() && vid_eq(#[trigger] pre[t], id);
    assert(post.take(pre.len() as int)[t] == post[t]);
    assert(vid_eq(post[t], id));
}

/// A candidate whose id was absent from the grown visited set has an
/// id outside the original visited set.
proof fn lemma_fresh_entry_outside(
    store: VectorStore,
    skip0: Seq<VectorId>,
    pre: Seq<VectorId>,
    e: (usize, MetricResult),
    id: VectorId,
)
    requires
        skip0.len() <= pre.len(),
        pre.take(skip0.len() as int) == skip0,
        forall|t: int| 0 <= t < pre.len() ==> !vid_eq(#[trigger] pre[t], id),
        e.0 < store.nodes@.len(),
        store.nodes@[e.0 as int].prop matches PropState::Ready(p) && p.id == id,
    ensures
        forall|t: int|
            0 <= t < skip0.len() ==> !vid_eq(#[trigger] skip0[t], entry_id(store, e)),
{
    assert forall|t: int| 0 <= t < skip0.len() implies !vid_eq(
        #[trigger] skip0[t],
        entry_id(store, e),
    ) by {
        assert(pre.take(skip0.len() as int)[t] == pre[t]);
    }
}

/// Whether an id is already in the visited set.
pub fn vid_in(list: &Vec<VectorId>, id: &VectorId) -> (r: bool)
    ensures
        r == exists|i: int| 0 <= i < list@.len() && vid_eq(#[trigger] list@[i], *id),
{
    let mut i: usize = 0;
    while i < list.len()
        invariant
            i <= list@.len(),
            forall|j: int| 0 <= j < i ==> !vid_eq(#[trigger] list@[j], *id),
        decreases list@.len() - i,
    {
        if vector_id_eq(&list[i], id) {
            proof {
                assert(vid_eq(list@[i as int], *id));
            }
            return true;
        }
        i = i + 1;
    }
    false
}

impl VectorStore {
    /// Neighborhood expansion with a visited set: walks the entry
    /// node's neighbors, recursing while the hop budget of the level
    /// allows, and returns up to 5 candidates sorted by descending
    /// score, skipping odd-indexed far neighbors when `skip_hop` is
    /// set.  Neighbors whose payload is still pending stop the
    /// traversal with a node error.
    #[verifier::loop_isolation(false)]
    pub fn traverse_find_nearest(
        &self,
        vtm: usize,
        fvec: &Storage,
        hs: &VectorId,
        hops: u8,
        skipm: &mut Vec<VectorId>,
        cur_level: HNSWLevel,
        skip_hop: bool,
    ) -> (r: Result<Vec<(usize, MetricResult)>, WaCustomError>)
        requires
            self.wf(),
            vtm < self.nodes@.len(),
            hops <= 31,
        ensures
            search_ok_store(*self, *fvec) ==> r is Ok,
            old(skipm)@.len() <= final(skipm)@.len() && final(skipm)@.take(
                old(skipm)@.len() as int,
            ) == old(skipm)@,
            r matches Ok(v) ==> {
                &&& v@.len() <= 5
                &&& sorted_desc(v@)
                &&& forall|i: int|
                    0 <= i < v@.len() ==> scored_entry(*self, *fvec, #[trigger] v@[i])
                &&& forall|i: int, j: int|
                    0 <= i < j < v@.len() ==> !vid_eq(
                        entry_id(*self, #[trigger] v@[i]),
                        entry_id(*self, #[trigger] v@[j]),
                    )
                &&& forall|i: int, t: int|
                    0 <= i < v@.len() && 0 <= t < old(skipm)@.len() ==> !vid_eq(
                        #[trigger] old(skipm)@[t],
                        entry_id(*self, #[trigger] v@[i]),
                    )
            },
            r matches Ok(v) ==> forall|i: int|
                0 <= i < v@.len() ==> vid_recorded(
                    final(skipm)@,
                    old(skipm)@.len() as int,
                    entry_id(*self, #[trigger] v@[i]),
                ),
            r is Ok ==> forall|kq: int|
                0 <= kq < self.nodes@[vtm as int].neighbors@.len() ==> (kq % 2 == 1 && skip_hop
                    && kq > 4) || vid_recorded(
                    final(skipm)@,
                    0,
                    entry_id(*self, (#[trigger] self.nodes@[vtm as int].neighbors@[kq])),
                ),
        decreases 32 - hops,
    {
        let node = &self.nodes[vtm];
        let mut tasks: Vec<(usize, MetricResult)> = Vec::new();
        let neighbor_count = node.neighbors.len();
        let mut index: usize = 0;
        while index < neighbor_count
            invariant
                neighbor_count == node.neighbors@.len(),
                index <= neighbor_count,
                old(skipm)@.len() <= skipm@.len(),
                skipm@.take(old(skipm)@.len() as int) == old(skipm)@,
                forall|i: int|
                    0 <= i < tasks@.len() ==> scored_entry(*self, *fvec, #[trigger] tasks@[i]),
                forall|i: int, t: int|
                    0 <= i < tasks@.len() && 0 <= t < old(skipm)@.len() ==> !vid_eq(
                        #[trigger] old(skipm)@[t],
                        entry_id(*self, #[trigger] tasks@[i]),
                    ),
                forall|i: int|
                    0 <= i < tasks@.len() ==> vid_recorded(
                        skipm@,
                        old(skipm)@.len() as int,
                        entry_id(*self, #[trigger] tasks@[i]),
                    ),
                forall|kq: int|
                    0 <= kq < index ==> (kq % 2 == 1 && skip_hop && kq > 4) || vid_recorded(
                        skipm@,
                        0,
                        entry_id(*self, (#[trigger] self.nodes@[vtm as int].neighbors@[kq])),
                    ),
            decreases neighbor_count - index,
        {
            let (nbr, _) = node.neighbors[index];
            proof {
                assert(node_ok(self.nodes@[vtm as int], self.nodes@.len() as int));
            }
            let neighbor = &self.nodes[nbr];
            let node_prop = match &neighbor.prop {
                PropState::Ready(p) => p,
                PropState::Pending(_) => {
                    proof {
                        assert(!search_ok_store(*self, *fvec));
                    }
                    return Err(
                        WaCustomError::NodeError(
                            String::from_str("neighbor prop is in pending state"),
                        ),
                    );
                },
            };
            proof {
                assert(self.nodes@[vtm as int].neighbors@[index as int].0 == nbr);
                assert(entry_id(*self, self.nodes@[vtm as int].neighbors@[index as int])
                    == node_prop.id);
            }
            if index % 2 != 0 && skip_hop && index > 4 {
                index = index + 1;
                continue ;
            }
            if !vid_in(skipm, &node_prop.id) {
                let ghost pre_insert = skipm@;
                skipm.push(clone_vector_id(&node_prop.id));
                proof {
                    assert(skipm@.take(old(skipm)@.len() as int) =~= pre_insert.take(
                        old(skipm)@.len() as int,
                    ));
                    assert(vid_eq(skipm@[pre_insert.len() as int], node_prop.id));
                    assert(vid_recorded(skipm@, pre_insert.len() as int, node_prop.id));
                    assert(skipm@.take(pre_insert.len() as int) =~= pre_insert);
                    assert forall|i: int| 0 <= i < tasks@.len() implies vid_recorded(
                        skipm@,
                        old(skipm)@.len() as int,
                        entry_id(*self, #[trigger] tasks@[i]),
                    ) by {
                        lemma_vid_recorded_grow(
                            pre_insert,
                            skipm@,
                            old(skipm)@.len() as int,
                            old(skipm)@.len() as int,
                            entry_id(*self, tasks@[i]),
                        );
                    }
                    assert forall|kq: int|
                        0 <= kq < index && !(kq % 2 == 1 && skip_hop && kq > 4) implies vid_recorded(
                        skipm@,
                        0,
                        entry_id(*self, (#[trigger] self.nodes@[vtm as int].neighbors@[kq])),
                    ) by {
                        lemma_vid_recorded_grow(
                            pre_insert,
                            skipm@,
                            0,
                            0,
                            entry_id(*self, self.nodes@[vtm as int].neighbors@[kq]),
                        );
                    }
                }
                let dist = match self.distance_metric.calculate(fvec, &node_prop.value) {
                    Ok(d) => d,
                    Err(e) => {
                        proof {
                            assert(!search_ok_store(*self, *fvec));
                        }
                        return Err(e);
                    },
                };
                let full_hops: u8 = 30;
                let budget = tapered_total_hops(full_hops, cur_level.0, self.max_cache_level);
                if hops <= budget {
                    let ghost pre_rec = skipm@;
                    let mut z = match self.traverse_find_nearest(
                        nbr,
                        fvec,
                        hs,
                        hops + 1,
                        skipm,
                        cur_level,
                        skip_hop,
                    ) {
                        Ok(z) => z,
                        Err(e) => {
                            return Err(e);
                        },
                    };
                    proof {
                        assert(skipm@.take(old(skipm)@.len() as int) =~= skipm@.take(
                            pre_rec.len() as int,
                        ).take(old(skipm)@.len() as int));
                        assert forall|i: int, t: int|
                            0 <= i < z@.len() && 0 <= t < old(skipm)@.len() implies !vid_eq(
                            #[trigger] old(skipm)@[t],
                            entry_id(*self, #[trigger] z@[i]),
                        ) by {
                            assert(pre_rec[t] == old(skipm)@[t]);
                        }
                        assert(vid_recorded(pre_rec, pre_insert.len() as int, node_prop.id))
                            by {
                            assert(vid_eq(pre_rec[pre_insert.len() as int], node_prop.id));
                        }
                        lemma_vid_recorded_grow(
                            pre_rec,
                            skipm@,
                            pre_insert.len() as int,
                            pre_insert.len() as int,
                            node_prop.id,
                        );
                        assert forall|i: int| 0 <= i < tasks@.len() implies vid_recorded(
                            skipm@,
                            old(skipm)@.len() as int,
                            entry_id(*self, #[trigger] tasks@[i]),
                        ) by {
                            lemma_vid_recorded_grow(
                                pre_rec,
                                skipm@,
                                old(skipm)@.len() as int,
                                old(skipm)@.len() as int,
                                entry_id(*self, tasks@[i]),
                            );
                        }
                        assert(skipm@.take(skipm@.len() as int) =~= skipm@);
                        assert forall|i: int| 0 <= i < z@.len() implies vid_recorded(
                            skipm@,
                            old(skipm)@.len() as int,
                            entry_id(*self, #[trigger] z@[i]),
                        ) by {
                            lemma_vid_recorded_grow(
                                skipm@,
                                skipm@,
                                pre_rec.len() as int,
                                old(skipm)@.len() as int,
                                entry_id(*self, z@[i]),
                            );
                        }
                        assert forall|kq: int|
                            0 <= kq < index && !(kq % 2 == 1 && skip_hop && kq > 4) implies vid_recorded(
                            skipm@,
                            0,
                            entry_id(*self, (#[trigger] self.nodes@[vtm as int].neighbors@[kq])),
                        ) by {
                            lemma_vid_recorded_grow(
                                pre_rec,
                                skipm@,
                                0,
                                0,
                                entry_id(*self, self.nodes@[vtm as int].neighbors@[kq]),
                            );
                        }
                    }
                    let mut zi: usize = 0;
                    while zi < z.len()
                        invariant
                            zi <= z@.len(),
                            forall|i: int|
                                0 <= i < z@.len() ==> scored_entry(
                                    *self,
                                    *fvec,
                                    #[trigger] z@[i],
                                ),
                            forall|i: int|
                                0 <= i < tasks@.len() ==> scored_entry(
                                    *self,
                                    *fvec,
                                    #[trigger] tasks@[i],
                                ),
                            forall|i: int, t: int|
                                0 <= i < z@.len() && 0 <= t < old(skipm)@.len() ==> !vid_eq(
                                    #[trigger] old(skipm)@[t],
                                    entry_id(*self, #[trigger] z@[i]),
                                ),
                            forall|i: int, t: int|
                                0 <= i < tasks@.len() && 0 <= t < old(skipm)@.len() ==> !vid_eq(
                                    #[trigger] old(skipm)@[t],
                                    entry_id(*self, #[trigger] tasks@[i]),
                                ),
                            forall|i: int|
                                0 <= i < tasks@.len() ==> vid_recorded(
                                    skipm@,
                                    old(skipm)@.len() as int,
                                    entry_id(*self, #[trigger] tasks@[i]),
                                ),
                            forall|i: int|
                                0 <= i < z@.len() ==> vid_recorded(
                                    skipm@,
                                    old(skipm)@.len() as int,
                                    entry_id(*self, #[trigger] z@[i]),
                                ),
                        decreases z@.len() - zi,
                    {
                        tasks.push(z[zi]);
                        zi = zi + 1;
                    }
                    proof {
                        lemma_fresh_entry_outside(
                            *self,
                            old(skipm)@,
                            pre_insert,
                            (nbr, dist),
                            node_prop.id,
                        );
                    }
                    tasks.push((nbr, dist));
                } else {
                    proof {
                        lemma_fresh_entry_outside(
                            *self,
                            old(skipm)@,
                            pre_insert,
                            (nbr, dist),
                            node_prop.id,
                        );
                    }
                    tasks.push((nbr, dist));
                }
            }
            index = index + 1;
        }
        let ghost raw_tasks = tasks@;
        sort_candidates_desc(&mut tasks);
        let deduped = dedup_by_id_take(&self.nodes, tasks, 5);
        proof {
            assert forall|i: int|
                0 <= i < deduped@.len() implies scored_entry(*self, *fvec, #[trigger] deduped@[i])
                && (forall|t: int|
                0 <= t < old(skipm)@.len() ==> !vid_eq(
                    #[trigger] old(skipm)@[t],
                    entry_id(*self, deduped@[i]),
                )) && vid_recorded(
                skipm@,
                old(skipm)@.len() as int,
                entry_id(*self, deduped@[i]),
            ) by {
                assert(tasks@.contains(deduped@[i]));
                let w = choose|w: int| 0 <= w < tasks@.len() && tasks@[w] == deduped@[i];
                assert(raw_tasks.contains(tasks@[w]));
                let w2 = choose|w2: int|
                    0 <= w2 < raw_tasks.len() && raw_tasks[w2] == deduped@[i];
                assert(scored_entry(*self, *fvec, raw_tasks[w2]));
                assert(vid_recorded(
                    skipm@,
                    old(skipm)@.len() as int,
                    entry_id(*self, raw_tasks[w2]),
                ));
            }
        }
        Ok(deduped)
    }

    /// The ANN query walk: from the entry node, collect candidates at
    /// this level, then descend through the best candidate until
    /// level 0, gathering every level's candidates.  An entry whose
    /// payload is pending is a node error.
    pub fn ann_search(
        &self,
        vector_emb: &crate::vector_store::QuantizedVectorEmbedding,
        cur_entry: usize,
        cur_level: HNSWLevel,
    ) -> (r: Result<Option<Vec<(usize, MetricResult)>>, WaCustomError>)
        requires
            self.wf(),
            cur_entry < self.nodes@.len(),
        ensures
            r matches Ok(o) ==> o is Some,
            search_ok_store(*self, vector_emb.quantized_vec) ==> r is Ok,
            self.nodes@[cur_entry as int].prop is Pending ==> (r matches Err(e) && e
                matches WaCustomError::NodeError(_)),
            r matches Ok(Some(v)) ==> cur_level.0 + 1 <= v@.len() <= 5 * (cur_level.0 + 1) && (
            forall|i: int|
                0 <= i < v@.len() ==> scored_entry(
                    *self,
                    vector_emb.quantized_vec,
                    #[trigger] v@[i],
                )),
        decreases cur_level.0,
    {
        let fvec = &vector_emb.quantized_vec;
        let mut skipm: Vec<VectorId> = Vec::new();
        skipm.push(clone_vector_id(&vector_emb.hash_vec));
        let cur_node = &self.nodes[cur_entry];
        let node_prop = match &cur_node.prop {
            PropState::Ready(p) => p,
            PropState::Pending(_) => {
                proof {
                    assert(!search_ok_store(*self, vector_emb.quantized_vec));
                }
                return Err(
                    WaCustomError::NodeError(String::from_str("node prop is in pending state")),
                );
            },
        };
        let z = match self.traverse_find_nearest(
            cur_entry,
            fvec,
            &vector_emb.hash_vec,
            0,
            &mut skipm,
            cur_level,
            false,
        ) {
            Ok(z) => z,
            Err(e) => {
                return Err(e);
            },
        };
        let dist = match self.distance_metric.calculate(fvec, &node_prop.value) {
            Ok(d) => d,
            Err(e) => {
                proof {
                    assert(!search_ok_store(*self, vector_emb.quantized_vec));
                }
                return Err(e);
            },
        };
        let mut z = z;
        if z.len() == 0 {
            proof {
                assert(scored_entry(*self, vector_emb.quantized_vec, (cur_entry, dist)));
            }
            z.push((cur_entry, dist));
        }
        proof {
            assert(z@.len() <= 5);
        }
        let result: Option<Vec<(usize, MetricResult)>> = if cur_level.0 == 0 {
            Some(Vec::new())
        } else {
            match self.ann_search(vector_emb, z[0].0, HNSWLevel(cur_level.0 - 1)) {
                Ok(r) => r,
                Err(e) => {
                    return Err(e);
                },
            }
        };
        match result {
            Option::None => {
                proof {
                    assert(false);
                }
                Ok(Some(z))
            },
            Option::Some(mut acc) => {
                let ghost acc0 = acc@.len();
                let mut i: usize = 0;
                while i < z.len()
                    invariant
                        i <= z@.len(),
                        acc@.len() == acc0 + i,
                        acc0 + z@.len() <= 5 * (cur_level.0 as int + 1),
                        forall|k: int|
                            0 <= k < z@.len() ==> scored_entry(
                                *self,
                                vector_emb.quantized_vec,
                                #[trigger] z@[k],
                            ),
                        forall|k: int|
                            0 <= k < acc@.len() ==> scored_entry(
                                *self,
                                vector_emb.quantized_vec,
                                #[trigger] acc@[k],
                            ),
                    decreases z@.len() - i,
                {
                    acc.push(z[i]);
                    i = i + 1;
                }
                Ok(Some(acc))
            },
        }
    }
}

/// Keeps the first candidate of each distinct vector id, up to `max`
/// entries; candidates with pending payloads are dropped.
pub(crate) fn dedup_by_id_take(
    nodes: &Vec<MergedNode>,
    v: Vec<(usize, MetricResult)>,
    max: usize,
) -> (r: Vec<(usize, MetricResult)>)
    requires
        sorted_desc(v@),
        forall|i: int| 0 <= i < v@.len() ==> (#[trigger] v@[i]).0 < nodes@.len(),
    ensures
        r@.len() <= max,
        sorted_desc(r@),
        elems_among(r@, v@),
        forall|i: int|
            0 <= i < r@.len() ==> (#[trigger] r@[i]).0 < nodes@.len()
                && nodes@[r@[i].0 as int].prop is Ready,
        forall|i: int, j: int|
            0 <= i < j < r@.len() ==> !vid_eq(
                nodes@[(#[trigger] r@[i]).0 as int].prop->Ready_0.id,
                nodes@[(#[trigger] r@[j]).0 as int].prop->Ready_0.id,
            ),
{
    let mut seen: Vec<VectorId> = Vec::new();
    let mut out: Vec<(usize, MetricResult)> = Vec::new();
    let mut i: usize = 0;
    while i < v.len()
        invariant
            i <= v@.len(),
            out@.len() <= max,
            sorted_desc(v@),
            forall|k: int| 0 <= k < v@.len() ==> (#[trigger] v@[k]).0 < nodes@.len(),
            forall|k: int|
                0 <= k < out@.len() ==> (#[trigger] out@[k]).0 < nodes@.len()
                    && nodes@[out@[k].0 as int].prop is Ready,
            elems_among(out@, v@),
            sorted_desc(out@),
            forall|a: int, j: int|
                0 <= a < out@.len() && i <= j < v@.len() ==> (#[trigger] out@[a]).1.value >= (
                #[trigger] v@[j]).1.value,
            forall|a: int|
                #![trigger out@[a]]
                0 <= a < out@.len() ==> exists|t: int|
                    0 <= t < seen@.len() && vid_eq(
                        #[trigger] seen@[t],
                        nodes@[out@[a].0 as int].prop->Ready_0.id,
                    ),
            forall|a: int, b: int|
                0 <= a < b < out@.len() ==> !vid_eq(
                    nodes@[(#[trigger] out@[a]).0 as int].prop->Ready_0.id,
                    nodes@[(#[trigger] out@[b]).0 as int].prop->Ready_0.id,
                ),
        decreases v@.len() - i,
    {
        if out.len() >= max {
            break ;
        }
        let (idx, dist) = v[i];
        match &nodes[idx].prop {
            PropState::Ready(p) => {
                if !vid_in(&seen, &p.id) {
                    let ghost pre_seen = seen@;
                    seen.push(clone_vector_id(&p.id));
                    proof {
                        assert(v@.contains(v@[i as int]));
                        assert((idx, dist) == v@[i as int]);
                        assert forall|a: int|
                            0 <= a < out@.len() implies !vid_eq(
                            nodes@[(#[trigger] out@[a]).0 as int].prop->Ready_0.id,
                            p.id,
                        ) by {
                            let oid = nodes@[out@[a].0 as int].prop->Ready_0.id;
                            let t = choose|t: int|
                                0 <= t < pre_seen.len() && vid_eq(#[trigger] pre_seen[t], oid);
                            if vid_eq(oid, p.id) {
                                crate::meta::lemma_vid_eq_trans2(pre_seen[t], p.id, oid);
                            }
                        }
                    }
                    out.push((idx, dist));
                    proof {
                        assert(vid_eq(seen@[pre_seen.len() as int], p.id));
                        assert forall|a: int| #![trigger out@[a]]
                            0 <= a < out@.len() implies exists|t: int|
                            0 <= t < seen@.len() && vid_eq(
                                #[trigger] seen@[t],
                                nodes@[out@[a].0 as int].prop->Ready_0.id,
                            ) by {
                            if a < out@.len() - 1 {
                                let t0 = choose|t0: int|
                                    0 <= t0 < pre_seen.len() && vid_eq(
                                        #[trigger] pre_seen[t0],
                                        nodes@[out@[a].0 as int].prop->Ready_0.id,
                                    );
                                assert(seen@[t0] == pre_seen[t0]);
                            } else {
                                assert(seen@[pre_seen.len() as int] == seen@.last());
                            }
                        }
                    }
                }
            },
            PropState::Pending(_) => {},
        }
        i = i + 1;
    }
    out
}

/// A quantized embedding ready for indexing.
#[derive(Debug)]
pub struct QuantizedVectorEmbedding {
    pub quantized_vec: Storage,
    pub hash_vec: VectorId,
}

/// Copies a quantized payload.
pub fn clone_storage(v: &Storage) -> (r: Storage)
    ensures
        storage_eq(r, *v),
{
    match v {
        Storage::UnsignedByte(b) => Storage::UnsignedByte(crate::meta::copy_bytes(b)),
        Storage::SubByte(k, b) => Storage::SubByte(*k, crate::meta::copy_bytes(b)),
        Storage::HalfPrecisionFP(h) => {
            let mut out: Vec<u16> = Vec::new();
            let mut i: usize = 0;
            while i < h.len()
                invariant
                    i <= h@.len(),
                    out@ =~= h@.take(i as int),
                decreases h@.len() - i,
            {
                out.push(h[i]);
                i = i + 1;
            }
            proof {
                assert(out@ =~= h@);
            }
            Storage::HalfPrecisionFP(out)
        },
    }
}

/// Two payloads hold the same data.
pub open spec fn storage_eq(a: Storage, b: Storage) -> bool {
    match (a, b) {
        (Storage::UnsignedByte(x), Storage::UnsignedByte(y)) => x@ == y@,
        (Storage::SubByte(k1, x), Storage::SubByte(k2, y)) => k1 == k2 && x@ == y@,
        (Storage::HalfPrecisionFP(x), Storage::HalfPrecisionFP(y)) => x@ == y@,
        _ => false,
    }
}

/// Replaces node `i`'s edge list; every other field and node stays.
fn set_node_neighbors(nodes: &mut Vec<MergedNode>, i: usize, list: Vec<(usize, MetricResult)>)
    requires
        i < old(nodes)@.len(),
    ensures
        final(nodes)@.len() == old(nodes)@.len(),
        forall|j: int| 0 <= j < old(nodes)@.len() && j != i ==> final(nodes)@[j] == old(nodes)@[j],
        final(nodes)@[i as int].neighbors == list,
        final(nodes)@[i as int].version_id == old(nodes)@[i as int].version_id,
        final(nodes)@[i as int].hnsw_level == old(nodes)@[i as int].hnsw_level,
        final(nodes)@[i as int].prop == old(nodes)@[i as int].prop,
        final(nodes)@[i as int].parent == old(nodes)@[i as int].parent,
        final(nodes)@[i as int].child == old(nodes)@[i as int].child,
        final(nodes)@[i as int].persist_flag == old(nodes)@[i as int].persist_flag,
        final(nodes)@[i as int].file_index == old(nodes)@[i as int].file_index,
{
    let node = &mut nodes[i];
    node.neighbors = list;
}

/// Points node `i` at child `c`; every other field and node stays.
fn set_node_child(nodes: &mut Vec<MergedNode>, i: usize, c: usize)
    requires
        i < old(nodes)@.len(),
    ensures
        final(nodes)@.len() == old(nodes)@.len(),
        forall|j: int| 0 <= j < old(nodes)@.len() && j != i ==> final(nodes)@[j] == old(nodes)@[j],
        final(nodes)@[i as int].child == Some(c),
        final(nodes)@[i as int].version_id == old(nodes)@[i as int].version_id,
        final(nodes)@[i as int].hnsw_level == old(nodes)@[i as int].hnsw_level,
        final(nodes)@[i as int].prop == old(nodes)@[i as int].prop,
        final(nodes)@[i as int].parent == old(nodes)@[i as int].parent,
        final(nodes)@[i as int].neighbors == old(nodes)@[i as int].neighbors,
        final(nodes)@[i as int].persist_flag == old(nodes)@[i as int].persist_flag,
        final(nodes)@[i as int].file_index == old(nodes)@[i as int].file_index,
{
    let node = &mut nodes[i];
    node.child = Some(c);
}

/// Stamps node `i` with a version number; every other field and node
/// stays.
fn set_node_version(nodes: &mut Vec<MergedNode>, i: usize, version_id: u32)
    requires
        i < old(nodes)@.len(),
    ensures
        final(nodes)@.len() == old(nodes)@.len(),
        forall|j: int| 0 <= j < old(nodes)@.len() && j != i ==> final(nodes)@[j] == old(nodes)@[j],
        final(nodes)@[i as int].version_id == version_id,
        final(nodes)@[i as int].hnsw_level == old(nodes)@[i as int].hnsw_level,
        final(nodes)@[i as int].prop == old(nodes)@[i as int].prop,
        final(nodes)@[i as int].parent == old(nodes)@[i as int].parent,
        final(nodes)@[i as int].child == old(nodes)@[i as int].child,
        final(nodes)@[i as int].neighbors == old(nodes)@[i as int].neighbors,
        final(nodes)@[i as int].persist_flag == old(nodes)@[i as int].persist_flag,
        final(nodes)@[i as int].file_index == old(nodes)@[i as int].file_index,
{
    let node = &mut nodes[i];
    node.version_id = version_id;
}

/// Marks node `i`'s persistence flag; every other field and node
/// stays.
fn set_node_persist(nodes: &mut Vec<MergedNode>, i: usize, flag: bool)
    requires
        i < old(nodes)@.len(),
    ensures
        final(nodes)@.len() == old(nodes)@.len(),
        forall|j: int| 0 <= j < old(nodes)@.len() && j != i ==> final(nodes)@[j] == old(nodes)@[j],
        final(nodes)@[i as int].persist_flag == flag,
        final(nodes)@[i as int].version_id == old(nodes)@[i as int].version_id,
        final(nodes)@[i as int].hnsw_level == old(nodes)@[i as int].hnsw_level,
        final(nodes)@[i as int].prop == old(nodes)@[i as int].prop,
        final(nodes)@[i as int].parent == old(nodes)@[i as int].parent,
        final(nodes)@[i as int].child == old(nodes)@[i as int].child,
        final(nodes)@[i as int].neighbors == old(nodes)@[i as int].neighbors,
        final(nodes)@[i as int].file_index == old(nodes)@[i as int].file_index,
{
    let node = &mut nodes[i];
    node.persist_flag = flag;
}

/// Records node `i`'s prop-file location; the payload's id and value
/// stay, as does everything else.
fn set_prop_location(nodes: &mut Vec<MergedNode>, i: usize, off: FileOffset, len: BytesToRead)
    requires
        i < old(nodes)@.len(),
        old(nodes)@[i as int].prop is Ready,
    ensures
        final(nodes)@.len() == old(nodes)@.len(),
        forall|j: int| 0 <= j < old(nodes)@.len() && j != i ==> final(nodes)@[j] == old(nodes)@[j],
        (final(nodes)@[i as int].prop matches PropState::Ready(p2) && p2.location == Some(
            (off, len),
        ) && p2.id == old(nodes)@[i as int].prop->Ready_0.id && p2.value == old(nodes)@[i as int].prop->Ready_0.value),
        final(nodes)@[i as int].version_id == old(nodes)@[i as int].version_id,
        final(nodes)@[i as int].hnsw_level == old(nodes)@[i as int].hnsw_level,
        final(nodes)@[i as int].parent == old(nodes)@[i as int].parent,
        final(nodes)@[i as int].child == old(nodes)@[i as int].child,
        final(nodes)@[i as int].neighbors == old(nodes)@[i as int].neighbors,
        final(nodes)@[i as int].persist_flag == old(nodes)@[i as int].persist_flag,
        final(nodes)@[i as int].file_index == old(nodes)@[i as int].file_index,
{
    let node = &mut nodes[i];
    match &mut node.prop {
        PropState::Ready(p) => {
            p.location = Some((off, len));
        },
        PropState::Pending(_) => {
            proof {
                assert(false);
            }
        },
    }
}

/// The byte encoding of a quantized payload: a layout tag, a length,
/// and the data.
pub open spec fn spec_enc_storage(s: Storage) -> Seq<u8> {
    match s {
        Storage::UnsignedByte(b) => seq![0u8] + crate::bytes::spec_u32_to_le(b@.len() as u32) + b@,
        Storage::SubByte(k, b) => seq![1u8, k] + crate::bytes::spec_u32_to_le(b@.len() as u32) + b@,
        Storage::HalfPrecisionFP(h) => seq![2u8] + crate::bytes::spec_u32_to_le(h@.len() as u32)
            + spec_enc_u16s(h@),
    }
}

/// The little-endian concatenation of 16-bit values.
pub open spec fn spec_enc_u16s(s: Seq<u16>) -> Seq<u8>
    decreases s.len(),
{
    if s.len() == 0 {
        Seq::empty()
    } else {
        seq![(s[0] & 0xff) as u8, ((s[0] >> 8) & 0xff) as u8] + spec_enc_u16s(s.skip(1))
    }
}

/// The byte encoding of a node payload: the id, then the value.
pub open spec fn spec_enc_prop(p: NodeProp) -> Seq<u8> {
    spec_enc_vid(p.id) + spec_enc_storage(p.value)
}

/// The payload's id and value fit their length prefixes.
pub open spec fn prop_wf(p: NodeProp) -> bool {
    &&& (p.id matches VectorId::Str(s) ==> vstd::utf8::encode_utf8(s@).len() <= u32::MAX)
    &&& match p.value {
        Storage::UnsignedByte(b) => b@.len() <= u32::MAX,
        Storage::SubByte(_, b) => b@.len() <= u32::MAX,
        Storage::HalfPrecisionFP(h) => h@.len() <= u32::MAX,
    }
}

/// Payloads with the same id and data encode alike.
pub proof fn lemma_enc_prop_by_content(p1: NodeProp, p2: NodeProp)
    requires
        vid_eq(p1.id, p2.id),
        storage_eq(p1.value, p2.value),
    ensures
        spec_enc_prop(p1) == spec_enc_prop(p2),
        prop_wf(p1) == prop_wf(p2),
{
    lemma_enc_vid_by_id(p1.id, p2.id);
    match (p1.value, p2.value) {
        (Storage::UnsignedByte(a), Storage::UnsignedByte(b)) => {
            assert(spec_enc_storage(p1.value) =~= spec_enc_storage(p2.value));
        },
        (Storage::SubByte(k1, a), Storage::SubByte(k2, b)) => {
            assert(spec_enc_storage(p1.value) =~= spec_enc_storage(p2.value));
        },
        (Storage::HalfPrecisionFP(a), Storage::HalfPrecisionFP(b)) => {
            assert(spec_enc_u16s(a@) == spec_enc_u16s(b@));
            assert(spec_enc_storage(p1.value) =~= spec_enc_storage(p2.value));
        },
        _ => {},
    }
    match (p1.id, p2.id) {
        (VectorId::Str(s1), VectorId::Str(s2)) => {},
        _ => {},
    }
}

/// The payload can be appended to the prop file: it is encodable and
/// the append stays within the file's offset space.
pub open spec fn prop_append_ok(file: Seq<u8>, p: NodeProp) -> bool {
    &&& prop_wf(p)
    &&& file.len() <= u32::MAX
    &&& spec_enc_prop(p).len() <= u32::MAX
    &&& file.len() + spec_enc_prop(p).len() <= usize::MAX
}

/// Encodes a node payload.
#[verifier::loop_isolation(false)]
pub fn encode_prop(p: &NodeProp) -> (r: Result<Vec<u8>, WaCustomError>)
    ensures
        (r is Ok) == prop_wf(*p),
        r matches Ok(v) ==> v@ =~= spec_enc_prop(*p),
{
    let emb = RawVectorEmbedding { raw_vec: Vec::new(), hash_vec: clone_vector_id(&p.id) };
    let id_part = match encode_embedding(&emb) {
        Ok(v) => v,
        Err(e) => {
            return Err(e);
        },
    };
    let mut out: Vec<u8> = Vec::new();
    let id_len = id_part.len() - 4;
    let mut i: usize = 0;
    proof {
        crate::embedding::lemma_enc_u32s_len(Seq::<u32>::empty());
        assert(spec_emb_body(emb) =~= spec_enc_vid(emb.hash_vec) + crate::bytes::spec_u32_to_le(
            0u32,
        ));
        assert(spec_enc_vid(emb.hash_vec).len() + 4 == id_part@.len());
    }
    while i < id_len
        invariant
            i <= id_len,
            out@ =~= id_part@.take(i as int),
        decreases id_len - i,
    {
        out.push(id_part[i]);
        i = i + 1;
    }
    proof {
        assert(out@ =~= spec_enc_vid(p.id)) by {
            assert(id_part@.take(id_len as int) =~= spec_enc_vid(emb.hash_vec));
            assert(spec_enc_vid(emb.hash_vec) == spec_enc_vid(p.id)) by {
                lemma_enc_vid_by_id(emb.hash_vec, p.id);
            }
        }
    }
    let ghost vid_part = out@;
    match &p.value {
        Storage::UnsignedByte(b) => {
            if b.len() > 0xffff_ffffusize {
                return Err(
                    WaCustomError::SerializationError(String::from_str("payload too long")),
                );
            }
            out.push(0u8);
            let lenb = crate::bytes::u32_to_le_bytes(b.len() as u32);
            crate::collection::push_bytes(&mut out, &lenb);
            crate::collection::push_bytes(&mut out, b);
            proof {
                assert(out@ =~= vid_part + spec_enc_storage(p.value));
            }
        },
        Storage::SubByte(k, b) => {
            if b.len() > 0xffff_ffffusize {
                return Err(
                    WaCustomError::SerializationError(String::from_str("payload too long")),
                );
            }
            out.push(1u8);
            out.push(*k);
            let lenb = crate::bytes::u32_to_le_bytes(b.len() as u32);
            crate::collection::push_bytes(&mut out, &lenb);
            crate::collection::push_bytes(&mut out, b);
            proof {
                assert(out@ =~= vid_part + spec_enc_storage(p.value));
            }
        },
        Storage::HalfPrecisionFP(h) => {
            if h.len() > 0xffff_ffffusize {
                return Err(
                    WaCustomError::SerializationError(String::from_str("payload too long")),
                );
            }
            out.push(2u8);
            let lenb = crate::bytes::u32_to_le_bytes(h.len() as u32);
            crate::collection::push_bytes(&mut out, &lenb);
            let ghost mid = out@;
            let mut j: usize = 0;
            while j < h.len()
                invariant
                    j <= h@.len(),
                    out@ =~= mid + spec_enc_u16s(h@.take(j as int)),
                decreases h@.len() - j,
            {
                let w = h[j];
                out.push((w & 0xff) as u8);
                out.push(((w >> 8) & 0xff) as u8);
                proof {
                    lemma_enc_u16s_snoc(h@, j as int);
                }
                j = j + 1;
            }
            proof {
                assert(h@.take(h@.len() as int) =~= h@);
                assert(out@ =~= vid_part + spec_enc_storage(p.value));
            }
        },
    }
    Ok(out)
}

/// Id encodings agree for equal ids.
proof fn lemma_enc_vid_by_id(a: VectorId, b: VectorId)
    requires
        vid_eq(a, b),
    ensures
        spec_enc_vid(a) == spec_enc_vid(b),
{
    match (a, b) {
        (VectorId::Str(s1), VectorId::Str(s2)) => {
            assert(spec_enc_vid(a) =~= spec_enc_vid(b));
        },
        _ => {},
    }
}

/// Extending the encoded prefix by one 16-bit value appends its two
/// bytes.
proof fn lemma_enc_u16s_snoc(s: Seq<u16>, k: int)
    requires
        0 <= k < s.len(),
    ensures
        spec_enc_u16s(s.take(k + 1)) =~= spec_enc_u16s(s.take(k)) + seq![
            (s[k] & 0xff) as u8,
            ((s[k] >> 8) & 0xff) as u8,
        ],
    decreases k,
{
    if k == 0 {
        assert(s.take(1)[0] == s[0]);
        assert(s.take(1).skip(1) =~= Seq::<u16>::empty());
        assert(s.take(0) =~= Seq::<u16>::empty());
    } else {
        lemma_enc_u16s_snoc(s.skip(1), k - 1);
        assert(s.take(k + 1)[0] == s[0]);
        assert(s.take(k + 1).skip(1) =~= s.skip(1).take(k));
        assert(s.take(k).skip(1) =~= s.skip(1).take(k - 1));
        assert(s.take(k)[0] == s[0]);
        assert(s.skip(1)[k - 1] == s[k]);
    }
}

/// Two payload states carry the same id and value (the location may
/// differ).
pub open spec fn prop_same_content(a: PropState, b: PropState) -> bool {
    match (a, b) {
        (PropState::Ready(x), PropState::Ready(y)) => x.id == y.id && x.value == y.value,
        (PropState::Pending(x), PropState::Pending(y)) => x == y,
        _ => false,
    }
}

/// Appends a serialized payload to the prop file and returns where it
/// landed.
pub fn write_prop_to_file(prop: &NodeProp, prop_file: &mut BufferManager) -> (r: Result<
    (FileOffset, BytesToRead),
    WaCustomError,
>)
    ensures
        (r is Ok) == prop_append_ok(old(prop_file)@, *prop),
        r matches Ok((off, len)) ==> off.0 == old(prop_file)@.len() && len.0 == spec_enc_prop(
            *prop,
        ).len() && final(prop_file)@ =~= old(prop_file)@ + spec_enc_prop(*prop),
        r is Err ==> final(prop_file)@ == old(prop_file)@,
{
    let bytes = match encode_prop(prop) {
        Ok(v) => v,
        Err(e) => {
            return Err(e);
        },
    };
    let start = prop_file.len();
    if start > 0xffff_ffffusize || bytes.len() > 0xffff_ffffusize || start > usize::MAX
        - bytes.len() {
        return Err(WaCustomError::FsError(String::from_str("prop file too large")));
    }
    let cursor = prop_file.open_cursor();
    let ghost pre = prop_file@;
    match prop_file.seek_with_cursor(cursor, SeekPos::End(0)) {
        Ok(_) => {},
        Err(_) => {
            proof {
                assert(false);
            }
            return Err(WaCustomError::FsError(String::from_str("seek failed")));
        },
    }
    let _ = prop_file.write_with_cursor(cursor, &bytes);
    let _ = prop_file.close_cursor(cursor);
    proof {
        assert(prop_file@ =~= pre + bytes@);
    }
    Ok((FileOffset(start as u32), BytesToRead(bytes.len() as u32)))
}

impl VectorStore {
    /// Builds a fresh node at a level with the given payload and
    /// parent, with no edges yet.
    pub fn create_node_extract_neighbours(
        version: u32,
        hnsw_level: HNSWLevel,
        prop: PropState,
        parent: Option<usize>,
    ) -> (r: MergedNode)
        ensures
            r.version_id == version,
            r.hnsw_level == hnsw_level,
            r.prop == prop,
            r.parent == parent,
            r.child is None,
            r.neighbors@.len() == 0,
            r.persist_flag == true,
            r.file_index is Invalid,
    {
        MergedNode {
            version_id: version,
            hnsw_level,
            prop,
            neighbors: Vec::new(),
            parent,
            child: None,
            persist_flag: true,
            file_index: FileIndex::Invalid,
        }
    }

    /// Writes node `idx`'s payload to the prop file, marks its
    /// neighbors for persistence, and queues the node for the next
    /// commit.  It succeeds exactly when the payload is in memory and
    /// fits the prop file; then the payload's recorded location names
    /// the append.  A failure changes nothing but scratch cursors.
    #[verifier::loop_isolation(false)]
    pub fn queue_node_prop_exec(&mut self, idx: usize) -> (r: Result<(), WaCustomError>)
        requires
            old(self).wf(),
            idx < old(self).nodes@.len(),
        ensures
            same_store_config(*old(self), *final(self)),
            final(self).wf(),
            final(self).lmdb == old(self).lmdb,
            final(self).vec_raw_manager == old(self).vec_raw_manager,
            final(self).nodes@.len() == old(self).nodes@.len(),
            (r is Ok) == (old(self).nodes@[idx as int].prop matches PropState::Ready(p)
                && prop_append_ok(old(self).prop_file@, p)),
            r is Ok ==> {
                let p = old(self).nodes@[idx as int].prop->Ready_0;
                &&& final(self).exec_queue_nodes@ =~= old(self).exec_queue_nodes@.push(idx)
                &&& (final(self).nodes@[idx as int].prop matches PropState::Ready(p2)
                    && p2.location == Some(
                    (
                        FileOffset(old(self).prop_file@.len() as u32),
                        BytesToRead(spec_enc_prop(p).len() as u32),
                    ),
                ))
                &&& final(self).prop_file@ =~= old(self).prop_file@ + spec_enc_prop(p)
                &&& forall|k: int|
                    0 <= k < old(self).nodes@[idx as int].neighbors@.len() ==> final(self).nodes@[(#[trigger] old(self).nodes@[idx as int].neighbors@[k]).0 as int].persist_flag
                        == true
            },
            r is Err ==> final(self).nodes == old(self).nodes && final(self).exec_queue_nodes
                == old(self).exec_queue_nodes && final(self).lmdb == old(self).lmdb && final(self).prop_file@ == old(self).prop_file@,
            forall|j: int|
                0 <= j < old(self).nodes@.len() ==> (#[trigger] final(self).nodes@[j]).hnsw_level
                    == old(self).nodes@[j].hnsw_level && final(self).nodes@[j].neighbors == old(self).nodes@[j].neighbors && final(self).nodes@[j].child == old(self).nodes@[j].child
                    && final(self).nodes@[j].parent == old(self).nodes@[j].parent && final(self).nodes@[j].version_id == old(self).nodes@[j].version_id
                    && prop_same_content(old(self).nodes@[j].prop, final(self).nodes@[j].prop),
    {
        let location = match &self.nodes[idx].prop {
            PropState::Ready(p) => {
                let prop_copy = NodeProp {
                    id: clone_vector_id(&p.id),
                    value: clone_storage(&p.value),
                    location: None,
                };
                proof {
                    lemma_enc_prop_by_content(
                        prop_copy,
                        old(self).nodes@[idx as int].prop->Ready_0,
                    );
                }
                match write_prop_to_file(&prop_copy, &mut self.prop_file) {
                    Ok(loc) => loc,
                    Err(e) => {
                        return Err(e);
                    },
                }
            },
            PropState::Pending(_) => {
                return Err(
                    WaCustomError::NodeError(String::from_str("node prop is not ready")),
                );
            },
        };
        let ghost mid = self.nodes@;
        set_prop_location(&mut self.nodes, idx, location.0, location.1);
        proof {
            assert forall|i: int| 0 <= i < self.nodes@.len() implies node_ok(
                #[trigger] self.nodes@[i],
                self.nodes@.len() as int,
            ) && child_link_ok(self.nodes@, i) by {
                assert(node_ok(mid[i], mid.len() as int));
                assert(child_link_ok(mid, i));
                if i == idx {
                } else {
                    assert(self.nodes@[i] == mid[i]);
                }
            }
        }
        let mut k: usize = 0;
        let neighbor_count = self.nodes[idx].neighbors.len();
        while k < neighbor_count
            invariant
                self.wf(),
                idx < self.nodes@.len(),
                neighbor_count == self.nodes@[idx as int].neighbors@.len(),
                k <= neighbor_count,
                self.nodes@.len() == old(self).nodes@.len(),
                self.exec_queue_nodes == old(self).exec_queue_nodes,
                self.lmdb == old(self).lmdb,
                self.vec_raw_manager == old(self).vec_raw_manager,
                same_store_config(*old(self), *self),
                self.prop_file@ == old(self).prop_file@ + spec_enc_prop(
                    old(self).nodes@[idx as int].prop->Ready_0,
                ),
                (self.nodes@[idx as int].prop matches PropState::Ready(p2) && p2.location == Some(
                    (location.0, location.1),
                )),
                forall|j: int|
                    0 <= j < old(self).nodes@.len() ==> (#[trigger] self.nodes@[j]).hnsw_level
                        == old(self).nodes@[j].hnsw_level && self.nodes@[j].neighbors == old(self).nodes@[j].neighbors && self.nodes@[j].child == old(self).nodes@[j].child
                        && self.nodes@[j].parent == old(self).nodes@[j].parent && self.nodes@[j].version_id == old(self).nodes@[j].version_id
                        && prop_same_content(old(self).nodes@[j].prop, self.nodes@[j].prop),
                forall|t: int|
                    0 <= t < k ==> self.nodes@[(#[trigger] old(self).nodes@[idx as int].neighbors@[t]).0 as int].persist_flag == true,
            decreases neighbor_count - k,
        {
            let (t, _) = self.nodes[idx].neighbors[k];
            let ghost pre = self.nodes@;
            set_node_persist(&mut self.nodes, t, true);
            proof {
                assert forall|i: int| 0 <= i < self.nodes@.len() implies node_ok(
                    #[trigger] self.nodes@[i],
                    self.nodes@.len() as int,
                ) && child_link_ok(self.nodes@, i) by {
                    assert(node_ok(pre[i], pre.len() as int));
                    assert(child_link_ok(pre, i));
                    if i != t {
                        assert(self.nodes@[i] == pre[i]);
                    }
                }
            }
            k = k + 1;
        }
        self.exec_queue_nodes.push(idx);
        Ok(())
    }

    /// Allocates a new node at `cur_level` with the given payload and
    /// wires it to at most the 20 closest candidates; each chosen
    /// neighbor is version-forked, its edge list extended with the new
    /// node, re-sorted by descending score and truncated to 20, and
    /// queued for persistence along with the new node.
    #[verifier::loop_isolation(false)]
    #[verifier::rlimit(100)]
    pub fn insert_node_create_edges(
        &mut self,
        parent: Option<usize>,
        fvec: Storage,
        hs: VectorId,
        nbs: Vec<(usize, MetricResult)>,
        cur_level: HNSWLevel,
        version: u32,
        version_number: u32,
    ) -> (r: Result<usize, WaCustomError>)
        requires
            old(self).wf(),
            nbs@.len() <= 20,
            forall|i: int| 0 <= i < nbs@.len() ==> (#[trigger] nbs@[i]).0 < old(self).nodes@.len(),
            parent matches Some(p) ==> p < old(self).nodes@.len() && old(self).nodes@[p as int].hnsw_level.0 == cur_level.0 + 1 && (old(self).nodes@[p as int].prop matches PropState::Ready(pp) ==> vid_eq(pp.id, hs)),
        ensures
            same_store_config(*old(self), *final(self)),
            final(self).wf(),
            final(self).lmdb == old(self).lmdb,
            final(self).vec_raw_manager == old(self).vec_raw_manager,
            final(self).nodes@.len() == old(self).nodes@.len() + 1,
            forall|j: int|
                0 <= j < old(self).nodes@.len() ==> (#[trigger] final(self).nodes@[j]).hnsw_level
                    == old(self).nodes@[j].hnsw_level && prop_same_content(
                    old(self).nodes@[j].prop,
                    final(self).nodes@[j].prop,
                ) && final(self).nodes@[j].parent == old(self).nodes@[j].parent,
            r matches Ok(idx) ==> old(self).exec_queue_nodes@.is_prefix_of(
                final(self).exec_queue_nodes@,
            ) && final(self).exec_queue_nodes@.len() > old(self).exec_queue_nodes@.len() && final(self).exec_queue_nodes@.last() == idx,
            (r is Ok) == prop_append_ok(
                old(self).prop_file@,
                NodeProp { id: hs, value: fvec, location: None },
            ),
            r is Ok ==> final(self).prop_file@ =~= old(self).prop_file@ + spec_enc_prop(
                NodeProp { id: hs, value: fvec, location: None },
            ),
            r matches Ok(idx) ==> {
                let nn = final(self).nodes@[idx as int];
                &&& idx == old(self).nodes@.len()
                &&& nn.hnsw_level == cur_level
                &&& (nn.prop matches PropState::Ready(p) && vid_eq(p.id, hs) && p.value == fvec)
                &&& nn.neighbors@ == nbs@
                &&& nn.parent == parent
                &&& nn.version_id == version
                &&& (parent matches Some(pr) ==> final(self).nodes@[pr as int].child == Some(idx))
                &&& forall|k: int|
                    0 <= k < nbs@.len() ==> sorted_desc(
                        final(self).nodes@[(#[trigger] nbs@[k]).0 as int].neighbors@,
                    ) && final(self).nodes@[nbs@[k].0 as int].version_id == version_number
            },
    {
        let idx = self.nodes.len();
        let prop = PropState::Ready(NodeProp { id: hs, value: fvec, location: None });
        let node = Self::create_node_extract_neighbours(version, cur_level, prop, parent);
        let ghost pre = self.nodes@;
        self.nodes.push(node);
        proof {
            assert forall|i: int| 0 <= i < self.nodes@.len() implies node_ok(
                #[trigger] self.nodes@[i],
                self.nodes@.len() as int,
            ) && child_link_ok(self.nodes@, i) by {
                if i < pre.len() {
                    assert(self.nodes@[i] == pre[i]);
                    assert(node_ok(pre[i], pre.len() as int));
                    assert(child_link_ok(pre, i));
                }
            }
        }
        match parent {
            Option::Some(p) => {
                let ghost before_child = self.nodes@;
                set_node_child(&mut self.nodes, p, idx);
                proof {
                    assert forall|i: int| 0 <= i < self.nodes@.len() implies node_ok(
                        #[trigger] self.nodes@[i],
                        self.nodes@.len() as int,
                    ) && child_link_ok(self.nodes@, i) by {
                        assert(node_ok(before_child[i], before_child.len() as int));
                        assert(child_link_ok(before_child, i));
                        if i != p {
                            assert(self.nodes@[i] == before_child[i]);
                        }
                        if i == p {
                            assert(self.nodes@[idx as int] == before_child[idx as int]);
                        }
                    }
                }
            },
            Option::None => {},
        }
        let mut new_edges: Vec<(usize, MetricResult)> = Vec::new();
        let mut k: usize = 0;
        while k < nbs.len()
            invariant
                self.wf(),
                same_store_config(*old(self), *self),
                self.lmdb == old(self).lmdb,
                self.vec_raw_manager == old(self).vec_raw_manager,
                self.prop_file == old(self).prop_file,
                old(self).exec_queue_nodes@.is_prefix_of(self.exec_queue_nodes@),
                k <= nbs@.len(),
                nbs@.len() <= 20,
                idx < self.nodes@.len(),
                self.nodes@.len() == old(self).nodes@.len() + 1,
                forall|i: int| 0 <= i < nbs@.len() ==> (#[trigger] nbs@[i]).0 < old(self).nodes@.len(),
                new_edges@ == nbs@.take(k as int),
                self.nodes@[idx as int].hnsw_level == cur_level,
                self.nodes@[idx as int].prop == PropState::Ready(
                    NodeProp { id: hs, value: fvec, location: None },
                ),
                self.nodes@[idx as int].neighbors@.len() == 0,
                self.nodes@[idx as int].parent == parent,
                self.nodes@[idx as int].version_id == version,
                parent matches Some(pr) ==> self.nodes@[pr as int].child == Some(idx),
                forall|j: int|
                    0 <= j < old(self).nodes@.len() ==> (#[trigger] self.nodes@[j]).hnsw_level
                        == old(self).nodes@[j].hnsw_level && prop_same_content(
                        old(self).nodes@[j].prop,
                        self.nodes@[j].prop,
                    ) && self.nodes@[j].parent == old(self).nodes@[j].parent,
                forall|j: int|
                    0 <= j < k ==> sorted_desc(
                        self.nodes@[(#[trigger] nbs@[j]).0 as int].neighbors@,
                    ) && self.nodes@[nbs@[j].0 as int].version_id == version_number,
            decreases nbs@.len() - k,
        {
            let (nbr, dist) = nbs[k];
            let ghost pre_fork = self.nodes@;
            set_node_version(&mut self.nodes, nbr, version_number);
            proof {
                assert forall|i: int| 0 <= i < self.nodes@.len() implies node_ok(
                    #[trigger] self.nodes@[i],
                    self.nodes@.len() as int,
                ) && child_link_ok(self.nodes@, i) by {
                    assert(node_ok(pre_fork[i], pre_fork.len() as int));
                    assert(child_link_ok(pre_fork, i));
                    if i != nbr {
                        assert(self.nodes@[i] == pre_fork[i]);
                    }
                    if i == nbr {
                        assert(self.nodes@[i].child == pre_fork[i].child);
                    }
                }
            }
            let mut neighbor_list: Vec<(usize, MetricResult)> = Vec::new();
            let nbr_edge_count = self.nodes[nbr].neighbors.len();
            let mut t: usize = 0;
            while t < nbr_edge_count
                invariant
                    nbr < self.nodes@.len(),
                    nbr_edge_count == self.nodes@[nbr as int].neighbors@.len(),
                    t <= nbr_edge_count,
                    self.wf(),
                    neighbor_list@.len() == t,
                    forall|i: int|
                        0 <= i < neighbor_list@.len() ==> (#[trigger] neighbor_list@[i]).0
                            < self.nodes@.len(),
                decreases nbr_edge_count - t,
            {
                let e = self.nodes[nbr].neighbors[t];
                proof {
                    assert(node_ok(self.nodes@[nbr as int], self.nodes@.len() as int));
                }
                neighbor_list.push(e);
                t = t + 1;
            }
            neighbor_list.push((idx, dist));
            sort_candidates_desc(&mut neighbor_list);
            let ghost sorted_full = neighbor_list@;
            if neighbor_list.len() > 20 {
                neighbor_list.truncate(20);
            }
            proof {
                assert(neighbor_list@.len() <= 20);
                assert(sorted_desc(neighbor_list@)) by {
                    assert forall|a: int, b: int|
                        0 <= a < b < neighbor_list@.len() implies (
                    #[trigger] neighbor_list@[a]).1.value >= (
                    #[trigger] neighbor_list@[b]).1.value by {
                        assert(neighbor_list@[a] == sorted_full[a]);
                        assert(neighbor_list@[b] == sorted_full[b]);
                    }
                }
            }
            let ghost pre_set = self.nodes@;
            let ghost the_list = neighbor_list@;
            set_node_neighbors(&mut self.nodes, nbr, neighbor_list);
            proof {
                assert forall|i: int| 0 <= i < self.nodes@.len() implies node_ok(
                    #[trigger] self.nodes@[i],
                    self.nodes@.len() as int,
                ) && child_link_ok(self.nodes@, i) by {
                    assert(node_ok(pre_set[i], pre_set.len() as int));
                    assert(child_link_ok(pre_set, i));
                    if i != nbr {
                        assert(self.nodes@[i] == pre_set[i]);
                    }
                    if i == nbr {
                        assert(self.nodes@[i].neighbors@ == the_list);
                        assert(self.nodes@[i].child == pre_set[i].child);
                    }
                }
            }
            let ghost pre_q = self.exec_queue_nodes@;
            self.exec_queue_nodes.push(nbr);
            proof {
                assert(self.exec_queue_nodes@.take(old(self).exec_queue_nodes@.len() as int)
                    =~= pre_q.take(old(self).exec_queue_nodes@.len() as int));
            }
            new_edges.push((nbr, dist));
            k = k + 1;
        }
        let ghost pre_wire = self.nodes@;
        set_node_neighbors(&mut self.nodes, idx, new_edges);
        proof {
            assert forall|i: int| 0 <= i < self.nodes@.len() implies node_ok(
                #[trigger] self.nodes@[i],
                self.nodes@.len() as int,
            ) && child_link_ok(self.nodes@, i) by {
                assert(node_ok(pre_wire[i], pre_wire.len() as int));
                assert(child_link_ok(pre_wire, i));
                if i != idx {
                    assert(self.nodes@[i] == pre_wire[i]);
                }
                if i == idx {
                    assert(self.nodes@[i].child == pre_wire[i].child);
                }
            }
        }
        let ghost pre_q2 = self.exec_queue_nodes@;
        match self.queue_node_prop_exec(idx) {
            Ok(_) => {},
            Err(e) => {
                return Err(e);
            },
        }
        proof {
            assert(new_edges@ == nbs@.take(nbs@.len() as int));
            assert(nbs@.take(nbs@.len() as int) =~= nbs@);
            assert(self.exec_queue_nodes@ =~= pre_q2.push(idx));
            assert(self.exec_queue_nodes@.take(old(self).exec_queue_nodes@.len() as int)
                =~= pre_q2.take(old(self).exec_queue_nodes@.len() as int));
        }
        Ok(idx)
    }

    /// Indexes one quantized embedding: descend from the entry level,
    /// gathering candidates per level; at levels at or below the drawn
    /// insert level, allocate a node wired to the closest candidates
    /// and chain it under the node created one level above.
    #[verifier::loop_isolation(false)]
    pub fn index_embedding(
        &mut self,
        parent: Option<usize>,
        vector_emb: &QuantizedVectorEmbedding,
        cur_entry: usize,
        cur_level: HNSWLevel,
        max_insert_level: HNSWLevel,
        version: u32,
        version_number: u32,
    ) -> (r: Result<(), WaCustomError>)
        requires
            old(self).wf(),
            cur_entry < old(self).nodes@.len(),
            parent matches Some(p) ==> p < old(self).nodes@.len() && old(self).nodes@[p as int].hnsw_level.0 == cur_level.0 + 1 && (old(self).nodes@[p as int].prop matches PropState::Ready(pp) ==> vid_eq(
                pp.id,
                vector_emb.hash_vec,
            )),
        ensures
            same_store_config(*old(self), *final(self)),
            final(self).wf(),
            final(self).lmdb == old(self).lmdb,
            final(self).vec_raw_manager == old(self).vec_raw_manager,
            final(self).nodes@.len() >= old(self).nodes@.len(),
            old(self).nodes@[cur_entry as int].prop is Pending ==> (r matches Err(e) && e
                matches WaCustomError::NodeError(_)) && *final(self) == *old(self),
            forall|j: int|
                0 <= j < old(self).nodes@.len() ==> (#[trigger] final(self).nodes@[j]).hnsw_level
                    == old(self).nodes@[j].hnsw_level && prop_same_content(
                    old(self).nodes@[j].prop,
                    final(self).nodes@[j].prop,
                ) && final(self).nodes@[j].parent == old(self).nodes@[j].parent,
            r is Ok ==> old(self).exec_queue_nodes@.is_prefix_of(final(self).exec_queue_nodes@)
                && final(self).nodes@.len() > old(self).nodes@.len(),
            r is Ok ==> forall|l: int|
                0 <= l <= cur_level.0 && l <= max_insert_level.0
                    ==> #[trigger] inserted_column_node(
                    old(self).nodes@.len() as int,
                    final(self).nodes@,
                    final(self).exec_queue_nodes@,
                    vector_emb.hash_vec,
                    vector_emb.quantized_vec,
                    l,
                    column_chained(cur_level.0, max_insert_level.0, l),
                ),
            (r is Ok && cur_level.0 <= max_insert_level.0) ==> exists|n: int|
                old(self).nodes@.len() <= n < final(self).nodes@.len() && (#[trigger] final(self).nodes@[n]).hnsw_level == cur_level && (final(self).nodes@[n].prop
                    matches PropState::Ready(p) && vid_eq(p.id, vector_emb.hash_vec)
                    && storage_eq(p.value, vector_emb.quantized_vec)) && final(self).exec_queue_nodes@.contains(n as usize) && final(self).nodes@[n].parent == parent,
        decreases cur_level.0,
    {
        let fvec = &vector_emb.quantized_vec;
        let mut skipm: Vec<VectorId> = Vec::new();
        skipm.push(clone_vector_id(&vector_emb.hash_vec));
        match &self.nodes[cur_entry].prop {
            PropState::Ready(_) => {},
            PropState::Pending(_) => {
                return Err(
                    WaCustomError::NodeError(String::from_str("node prop is in pending state")),
                );
            },
        }
        let mut z = match self.traverse_find_nearest(
            cur_entry,
            fvec,
            &vector_emb.hash_vec,
            0,
            &mut skipm,
            cur_level,
            true,
        ) {
            Ok(z) => z,
            Err(e) => {
                return Err(e);
            },
        };
        if z.len() == 0 {
            let prop_value = match &self.nodes[cur_entry].prop {
                PropState::Ready(p) => &p.value,
                PropState::Pending(_) => {
                    return Err(
                        WaCustomError::NodeError(
                            String::from_str("node prop is in pending state"),
                        ),
                    );
                },
            };
            let dist = match self.distance_metric.calculate(fvec, prop_value) {
                Ok(d) => d,
                Err(e) => {
                    return Err(e);
                },
            };
            z.push((cur_entry, dist));
        }
        let z_first = z[0].0;
        let new_parent: Option<usize> = if cur_level.0 <= max_insert_level.0 {
            let node_idx = match self.insert_node_create_edges(
                parent,
                clone_storage(fvec),
                clone_vector_id(&vector_emb.hash_vec),
                z,
                cur_level,
                version,
                version_number,
            ) {
                Ok(i) => i,
                Err(e) => {
                    return Err(e);
                },
            };
            Some(node_idx)
        } else {
            None
        };
        let ghost mid = self.nodes@;
        let ghost mid_q = self.exec_queue_nodes@;
        proof {
            match new_parent {
                Option::Some(ni) => {
                    assert(mid[ni as int].hnsw_level == cur_level);
                    assert(mid[ni as int].prop matches PropState::Ready(p) && vid_eq(
                        p.id,
                        vector_emb.hash_vec,
                    ) && storage_eq(p.value, vector_emb.quantized_vec));
                    assert(mid_q.contains(ni as usize)) by {
                        assert(mid_q.last() == ni);
                    }
                    assert(mid[ni as int].parent == parent);
                },
                Option::None => {},
            }
        }
        if cur_level.0 != 0 {
            match self.index_embedding(
                new_parent,
                vector_emb,
                z_first,
                HNSWLevel(cur_level.0 - 1),
                max_insert_level,
                version,
                version_number,
            ) {
                Ok(_) => {},
                Err(e) => {
                    return Err(e);
                },
            }
            proof {
                assert(self.exec_queue_nodes@.take(old(self).exec_queue_nodes@.len() as int)
                    =~= self.exec_queue_nodes@.take(mid_q.len() as int).take(
                    old(self).exec_queue_nodes@.len() as int,
                ));
                assert forall|l: int|
                    0 <= l <= cur_level.0 && l <= max_insert_level.0 implies
                    #[trigger] inserted_column_node(
                    old(self).nodes@.len() as int,
                    self.nodes@,
                    self.exec_queue_nodes@,
                    vector_emb.hash_vec,
                    vector_emb.quantized_vec,
                    l,
                    column_chained(cur_level.0, max_insert_level.0, l),
                ) by {
                    if l == cur_level.0 {
                        let ni = new_parent->0 as int;
                        assert(self.nodes@[ni].hnsw_level == mid[ni].hnsw_level);
                        assert(prop_same_content(mid[ni].prop, self.nodes@[ni].prop));
                        assert(old(self).nodes@.len() <= ni < self.nodes@.len());
                        assert(self.exec_queue_nodes@.contains(ni as usize)) by {
                            let t = choose|t: int| 0 <= t < mid_q.len() && mid_q[t] == ni as usize;
                            assert(self.exec_queue_nodes@.take(mid_q.len() as int)[t]
                                == mid_q[t]);
                        }
                    } else if l == cur_level.0 - 1 && cur_level.0 <= max_insert_level.0 {
                        let n = choose|n: int|
                            mid.len() <= n < self.nodes@.len() && (
                            #[trigger] self.nodes@[n]).hnsw_level == HNSWLevel(
                                (cur_level.0 - 1) as u8,
                            ) && (self.nodes@[n].prop matches PropState::Ready(p) && vid_eq(
                                p.id,
                                vector_emb.hash_vec,
                            ) && storage_eq(p.value, vector_emb.quantized_vec))
                                && self.exec_queue_nodes@.contains(n as usize)
                                && self.nodes@[n].parent == new_parent;
                        let ni = new_parent->0 as int;
                        assert(self.nodes@[ni].hnsw_level == mid[ni].hnsw_level);
                        assert(prop_same_content(mid[ni].prop, self.nodes@[ni].prop));
                        assert(inserted_column_node(
                            old(self).nodes@.len() as int,
                            self.nodes@,
                            self.exec_queue_nodes@,
                            vector_emb.hash_vec,
                            vector_emb.quantized_vec,
                            l,
                            true,
                        )) by {
                            assert(old(self).nodes@.len() <= n < self.nodes@.len());
                            assert(self.nodes@[n].parent == Some(ni as usize));
                        }
                    } else {
                        assert(inserted_column_node(
                            mid.len() as int,
                            self.nodes@,
                            self.exec_queue_nodes@,
                            vector_emb.hash_vec,
                            vector_emb.quantized_vec,
                            l,
                            column_chained((cur_level.0 - 1) as u8, max_insert_level.0, l),
                        ));
                        assert(column_chained(cur_level.0, max_insert_level.0, l)
                            == column_chained((cur_level.0 - 1) as u8, max_insert_level.0, l));
                        let n = choose|n: int|
                            mid.len() <= n < self.nodes@.len() && (
                            #[trigger] self.nodes@[n]).hnsw_level.0 == l && (self.nodes@[n].prop
                                matches PropState::Ready(p) && vid_eq(p.id, vector_emb.hash_vec)
                                && storage_eq(p.value, vector_emb.quantized_vec))
                                && self.exec_queue_nodes@.contains(n as usize) && (column_chained(
                                (cur_level.0 - 1) as u8,
                                max_insert_level.0,
                                l,
                            ) ==> (
                            self.nodes@[n].parent matches Some(pn) && pn < self.nodes@.len()
                                && self.nodes@[pn as int].hnsw_level.0 == l + 1 && (self.nodes@[pn as int].prop matches PropState::Ready(pp) && vid_eq(
                                pp.id,
                                vector_emb.hash_vec,
                            ))));
                        assert(old(self).nodes@.len() <= n);
                    }
                }
                if cur_level.0 <= max_insert_level.0 {
                    let ni = new_parent->0 as int;
                    assert(self.nodes@[ni].hnsw_level == mid[ni].hnsw_level);
                    assert(prop_same_content(mid[ni].prop, self.nodes@[ni].prop));
                    assert(self.nodes@[ni].prop matches PropState::Ready(p) && vid_eq(
                        p.id,
                        vector_emb.hash_vec,
                    ) && storage_eq(p.value, vector_emb.quantized_vec));
                    assert(self.nodes@[ni].parent == mid[ni].parent);
                    assert(self.exec_queue_nodes@.contains(ni as usize)) by {
                        let t = choose|t: int| 0 <= t < mid_q.len() && mid_q[t] == ni as usize;
                        assert(self.exec_queue_nodes@.take(mid_q.len() as int)[t] == mid_q[t]);
                    }
                    assert(old(self).nodes@.len() <= ni < self.nodes@.len());
                }
            }
        } else {
            proof {
                assert forall|l: int|
                    0 <= l <= cur_level.0 && l <= max_insert_level.0 implies
                    #[trigger] inserted_column_node(
                    old(self).nodes@.len() as int,
                    self.nodes@,
                    self.exec_queue_nodes@,
                    vector_emb.hash_vec,
                    vector_emb.quantized_vec,
                    l,
                    column_chained(cur_level.0, max_insert_level.0, l),
                ) by {
                    let ni = new_parent->0 as int;
                    assert(self.nodes@[ni].hnsw_level.0 == 0);
                    assert(old(self).nodes@.len() <= ni < self.nodes@.len());
                }
            }
        }
        Ok(())
    }
}

/// Relies on `rand::random`: a fresh 32-bit draw; nothing is
/// promised of its value.
#[verifier::external_body]
pub(crate) fn random_u32() -> u32 {
    rand::random::<u32>()
}

/// The insert level a draw selects: the level of the last table entry
/// whose threshold the draw reaches.
pub open spec fn spec_max_insert_level(u: u32, s: Seq<(u32, u8)>) -> u8
    decreases s.len(),
{
    if s.len() == 0 {
        0u8
    } else if s.last().0 <= u {
        s.last().1
    } else {
        spec_max_insert_level(u, s.drop_last())
    }
}

/// Picks the maximum insert level for a uniform draw `u` from the
/// reversed ascending threshold table.
pub fn get_max_insert_level(u: u32, levels_prob: &Vec<(u32, u8)>) -> (r: u8)
    ensures
        r == spec_max_insert_level(u, levels_prob@),
{
    proof {
        assert(levels_prob@.take(levels_prob@.len() as int) =~= levels_prob@);
    }
    let mut i: usize = levels_prob.len();
    while i > 0
        invariant
            i <= levels_prob@.len(),
            spec_max_insert_level(u, levels_prob@) == spec_max_insert_level(
                u,
                levels_prob@.take(i as int),
            ),
        decreases i,
    {
        i = i - 1;
        let (threshold, level) = levels_prob[i];
        proof {
            let t = levels_prob@.take(i as int + 1);
            assert(t.last() == levels_prob@[i as int]);
            assert(t.drop_last() =~= levels_prob@.take(i as int));
        }
        if threshold <= u {
            return level;
        }
    }
    proof {
        assert(levels_prob@.take(0) =~= Seq::<(u32, u8)>::empty());
    }
    0
}

/// Builds the level-probability table for a decay factor: level `i`
/// is drawn with probability `factor^-i`, so its threshold is
/// `u32::MAX - u32::MAX / factor^i`.
#[verifier::loop_isolation(false)]
pub fn generate_level_probs(factor: u32, max_level: u8) -> (r: Vec<(u32, u8)>)
    requires
        factor >= 2,
    ensures
        r@.len() == max_level + 1,
        forall|i: int| 0 <= i < r@.len() ==> (#[trigger] r@[i]).1 == i,
{
    let mut r: Vec<(u32, u8)> = Vec::new();
    let mut p: u64 = 1;
    let mut level: u8 = 0;
    loop
        invariant
            level <= max_level + 1,
            r@.len() == level,
            p >= 1,
            forall|i: int| 0 <= i < r@.len() ==> (#[trigger] r@[i]).1 == i,
        decreases max_level + 1 - level,
    {
        if level > max_level {
            break ;
        }
        proof {
            assert(0xffff_ffffu64 / p <= 0xffff_ffffu64) by (nonlinear_arith)
                requires
                    p >= 1,
            ;
        }
        let threshold = (0xffff_ffffu64 - 0xffff_ffffu64 / p) as u32;
        r.push((threshold, level));
        p = if p > 0xffff_ffff_ffff_ffffu64 / (factor as u64) {
            u64::MAX
        } else {
            proof {
                assert(p * (factor as u64) >= 1 && p * (factor as u64)
                    <= 0xffff_ffff_ffff_ffffu64) by (nonlinear_arith)
                    requires
                        1 <= p <= 0xffff_ffff_ffff_ffffu64 / (factor as u64),
                        2 <= factor as u64,
                ;
            }
            p * (factor as u64)
        };
        if level == u8::MAX {
            break ;
        }
        level = level + 1;
    }
    proof {
        assert(r@.len() == max_level + 1);
    }
    r
}

impl VectorStore {
    /// Stores one raw embedding: the record is appended to the raw
    /// log of `current_version`, its offset recorded in the metadata
    /// store under the embedding's id, the pending version advanced,
    /// and the unindexed counter bumped.  It succeeds exactly when the
    /// embedding is well-formed, the counter has room and the record
    /// fits the log's offset space; an error leaves the metadata store
    /// as it was.
    pub fn insert_embedding(&mut self, emb: &RawVectorEmbedding, current_version: CommitHash) -> (r:
        Result<(), WaCustomError>)
        requires
            old(self).wf(),
        ensures
            final(self).wf(),
            final(self).nodes == old(self).nodes,
            same_store_config(*old(self), *final(self)),
            (r is Ok) == (old(self).lmdb.count_unindexed < u32::MAX && emb_wf(*emb) && old(self).vec_raw_manager.version_len(current_version.0) + 4 + spec_emb_body(*emb).len()
                <= u32::MAX),
            r is Ok ==> {
                let start = old(self).vec_raw_manager.version_len(current_version.0);
                &&& crate::meta::emb_has_key(final(self).lmdb.embeddings@, emb.hash_vec)
                &&& final(self).lmdb.embeddings@[crate::meta::emb_idx_of(
                    final(self).lmdb.embeddings@,
                    emb.hash_vec,
                )].1@ == crate::embedding::spec_serialize_offset(
                    EmbeddingOffset { version: current_version, offset: start as u32 },
                )
                &&& forall|id2: VectorId|
                    crate::meta::emb_has_key(old(self).lmdb.embeddings@, id2)
                        ==> crate::meta::emb_has_key(final(self).lmdb.embeddings@, id2)
                &&& forall|id2: VectorId|
                    crate::meta::emb_has_key(old(self).lmdb.embeddings@, id2) && !vid_eq(
                        emb.hash_vec,
                        id2,
                    ) ==> crate::meta::emb_has_key(final(self).lmdb.embeddings@, id2) && final(self).lmdb.embeddings@[crate::meta::emb_idx_of(
                        final(self).lmdb.embeddings@,
                        id2,
                    )] == old(self).lmdb.embeddings@[crate::meta::emb_idx_of(
                        old(self).lmdb.embeddings@,
                        id2,
                    )]
                &&& final(self).lmdb.count_unindexed == old(self).lmdb.count_unindexed + 1
                &&& final(self).lmdb.next_version == Some(current_version.0)
                &&& final(self).vec_raw_manager.has_version(current_version.0)
                &&& crate::embedding::spec_record_at(
                    final(self).vec_raw_manager.version_data(current_version.0),
                    start,
                )
                &&& final(self).vec_raw_manager.version_data(current_version.0) =~= (if old(self).vec_raw_manager.has_version(current_version.0) {
                    old(self).vec_raw_manager.version_data(current_version.0)
                } else {
                    Seq::<u8>::empty()
                }) + crate::bytes::spec_u32_to_le(spec_emb_body(*emb).len() as u32)
                    + spec_emb_body(*emb)
            },
            r is Err ==> final(self).lmdb == old(self).lmdb,
    {
        if self.lmdb.count_unindexed == u32::MAX {
            return Err(
                WaCustomError::DatabaseError(String::from_str("unindexed counter overflow")),
            );
        }
        let slot = self.vec_raw_manager.get(current_version.0);
        proof {
            if old(self).vec_raw_manager.has_version(current_version.0) {
                old(self).vec_raw_manager.lemma_slot_of(current_version.0, slot as int);
            }
        }
        let bufman = self.vec_raw_manager.at(slot);
        let ghost pre_file = bufman@;
        proof {
            assert(pre_file.len() == old(self).vec_raw_manager.version_len(current_version.0));
        }
        let offset = match write_embedding(bufman, emb) {
            Ok(o) => o,
            Err(e) => {
                proof {
                    assert(self.vec_raw_manager.versions_unique());
                }
                return Err(e);
            },
        };
        proof {
            self.vec_raw_manager.lemma_slot_of(current_version.0, slot as int);
            crate::embedding::lemma_written_record_readable(pre_file, *emb);
        }
        let offset_rec = EmbeddingOffset { version: current_version, offset };
        let serialized = offset_rec.serialize();
        let idc = clone_vector_id(&emb.hash_vec);
        let ghost pre_emb = self.lmdb.embeddings@;
        self.lmdb.put_embedding(idc, serialized);
        proof {
            crate::meta::lemma_vid_eq_refl(emb.hash_vec);
            assert(crate::meta::emb_has_key(self.lmdb.embeddings@, emb.hash_vec));
            assert forall|id2: VectorId|
                crate::meta::emb_has_key(pre_emb, id2) && !vid_eq(emb.hash_vec, id2) implies
                crate::meta::emb_has_key(self.lmdb.embeddings@, id2) && self.lmdb.embeddings@[crate::meta::emb_idx_of(
                self.lmdb.embeddings@,
                id2,
            )] == pre_emb[crate::meta::emb_idx_of(pre_emb, id2)] by {
                if vid_eq(idc, id2) {
                    crate::meta::lemma_vid_eq_trans(idc, emb.hash_vec, id2);
                    assert(false);
                }
            }
        }
        self.lmdb.next_version = Some(current_version.0);
        self.lmdb.count_unindexed = self.lmdb.count_unindexed + 1;
        Ok(())
    }

    /// Indexes every embedding in the pending version's raw log:
    /// each record is read back, quantized, and inserted from the
    /// root at the top level down to a randomly drawn insert level;
    /// the indexed and unindexed counters move by the number of
    /// records handled.
    #[verifier::loop_isolation(false)]
    pub fn index_embeddings(&mut self, upload_process_batch_size: usize) -> (r: Result<
        (),
        WaCustomError,
    >)
        requires
            old(self).wf(),
            upload_process_batch_size >= 1,
        ensures
            same_store_config(*old(self), *final(self)),
            final(self).wf(),
            final(self).nodes@.len() >= old(self).nodes@.len(),
            final(self).lmdb.embeddings == old(self).lmdb.embeddings,
            final(self).lmdb.collections == old(self).lmdb.collections,
            final(self).lmdb.next_version == old(self).lmdb.next_version,
            final(self).lmdb.current_version == old(self).lmdb.current_version,
            r is Ok ==> (old(self).lmdb.next_version matches Some(v) && {
                let log = if old(self).vec_raw_manager.has_version(v) {
                    old(self).vec_raw_manager.version_data(v)
                } else {
                    Seq::<u8>::empty()
                };
                let k = crate::embedding::spec_log_record_count(log, 0) as int;
                &&& final(self).lmdb.count_indexed == sat_add(
                    old(self).lmdb.count_indexed as int,
                    k,
                )
                &&& final(self).lmdb.count_unindexed == sat_sub(
                    old(self).lmdb.count_unindexed as int,
                    k,
                )
                &&& final(self).nodes@.len() >= old(self).nodes@.len() + k
                &&& (old(self).vec_raw_manager.has_version(v)
                    ==> final(self).vec_raw_manager.has_version(v) && final(self).vec_raw_manager.version_data(v) == log)
            }),
    {
        let version = match self.lmdb.next_version {
            Option::Some(v) => v,
            Option::None => {
                return Err(
                    WaCustomError::DatabaseError(String::from_str("no pending version")),
                );
            },
        };
        let version_hash = match self.vcs.get_version_hash(&CommitHash(version)) {
            Option::Some(v) => v,
            Option::None => {
                return Err(
                    WaCustomError::DatabaseError(
                        String::from_str("current version hash not found"),
                    ),
                );
            },
        };
        let version_number = version_hash.version;
        let slot = self.vec_raw_manager.get(version);
        let ghost log: Seq<u8> = self.vec_raw_manager.files_at(slot as int)@;
        let ghost vers0 = self.vec_raw_manager.spec_versions();
        proof {
            if old(self).vec_raw_manager.has_version(version) {
                old(self).vec_raw_manager.lemma_slot_of(version, slot as int);
                assert(log == old(self).vec_raw_manager.version_data(version));
            } else {
                assert(log =~= Seq::<u8>::empty());
            }
        }
        let bufman = self.vec_raw_manager.at(slot);
        let file_len = bufman.len();
        if file_len > 0xffff_ffffusize {
            return Err(WaCustomError::FsError(String::from_str("raw log too large")));
        }
        let mut embeddings: Vec<RawVectorEmbedding> = Vec::new();
        let mut i: u32 = 0;
        while (i as usize) < file_len
            invariant
                self.wf(),
                same_store_config(*old(self), *self),
                self.nodes == old(self).nodes,
                self.lmdb == old(self).lmdb,
                slot < self.vec_raw_manager.spec_versions().len(),
                self.vec_raw_manager.spec_versions() == vers0,
                self.vec_raw_manager.spec_versions()[slot as int] == version,
                self.vec_raw_manager.files_at(slot as int)@ == log,
                file_len <= 0xffff_ffff,
                file_len == log.len(),
                embeddings@.len() + crate::embedding::spec_log_record_count(log, i as int)
                    == crate::embedding::spec_log_record_count(log, 0),
            decreases file_len - i,
        {
            let bufman = self.vec_raw_manager.at(slot);
            let (embedding, next) = match read_embedding(bufman, i) {
                Ok(v) => v,
                Err(e) => {
                    return Err(e);
                },
            };
            proof {
                assert(spec_emb_body(embedding).len() >= 9) by {
                    match embedding.hash_vec {
                        VectorId::Int(_) => {},
                        VectorId::Str(_) => {},
                    }
                }
                let len = crate::bytes::spec_u32_from_le(
                    log.subrange(i as int, i as int + 4),
                ) as int;
                assert(len == spec_emb_body(embedding).len());
                assert(crate::embedding::spec_decodable(
                    log.subrange(i as int + 4, i as int + 4 + len),
                )) by {
                    assert(log.subrange(i as int + 4, i as int + 4 + len) == spec_emb_body(
                        embedding,
                    ));
                }
                assert(crate::embedding::spec_record_at(log, i as int));
                assert(crate::embedding::spec_log_record_count(log, i as int) == 1
                    + crate::embedding::spec_log_record_count(log, next as int));
            }
            embeddings.push(embedding);
            i = next;
        }
        proof {
            assert(!crate::embedding::spec_record_at(log, i as int));
            assert(embeddings@.len() == crate::embedding::spec_log_record_count(log, 0));
        }
        let ghost vrm1 = self.vec_raw_manager;
        let mut count_indexed = self.lmdb.count_indexed;
        let mut count_unindexed = self.lmdb.count_unindexed;
        let ghost base_indexed = self.lmdb.count_indexed as int;
        let ghost base_unindexed = self.lmdb.count_unindexed as int;
        let mut k: usize = 0;
        while k < embeddings.len()
            invariant
                self.wf(),
                same_store_config(*old(self), *self),
                self.nodes@.len() >= old(self).nodes@.len(),
                k <= embeddings@.len(),
                base_indexed == old(self).lmdb.count_indexed as int,
                base_unindexed == old(self).lmdb.count_unindexed as int,
                count_indexed == sat_add(base_indexed, k as int),
                count_unindexed == sat_sub(base_unindexed, k as int),
                self.nodes@.len() >= old(self).nodes@.len() + k,
                self.vec_raw_manager == vrm1,
                self.lmdb.embeddings == old(self).lmdb.embeddings,
                self.lmdb.collections == old(self).lmdb.collections,
                self.lmdb.next_version == old(self).lmdb.next_version,
                self.lmdb.current_version == old(self).lmdb.current_version,
                k == 0 ==> self.lmdb == old(self).lmdb,
                (k > 0 && (k % upload_process_batch_size == 0 || k == embeddings@.len()))
                    ==> self.lmdb.count_indexed == sat_add(base_indexed, k as int)
                    && self.lmdb.count_unindexed == sat_sub(base_unindexed, k as int),
            decreases embeddings@.len() - k,
        {
            let emb = &embeddings[k];
            let fixed = bits_vec_to_fixed(&emb.raw_vec);
            let quantized_vec = match self.quantization_metric.quantize(
                &fixed,
                self.storage_type,
            ) {
                Ok(s) => s,
                Err(_) => {
                    return Err(
                        WaCustomError::SerializationError(
                            String::from_str("quantization failed"),
                        ),
                    );
                },
            };
            let embedding = QuantizedVectorEmbedding {
                quantized_vec,
                hash_vec: clone_vector_id(&emb.hash_vec),
            };
            let draw = random_u32();
            let iv = get_max_insert_level(draw, &self.levels_prob);
            let insert_level = if iv > self.max_cache_level {
                self.max_cache_level
            } else {
                iv
            };
            let root = self.root_vec;
            let top = self.max_cache_level;
            match self.index_embedding(
                None,
                &embedding,
                root,
                HNSWLevel(top),
                HNSWLevel(insert_level),
                version,
                version_number,
            ) {
                Ok(_) => {},
                Err(e) => {
                    return Err(e);
                },
            }
            count_indexed = if count_indexed == u32::MAX {
                u32::MAX
            } else {
                count_indexed + 1
            };
            count_unindexed = if count_unindexed == 0 {
                0
            } else {
                count_unindexed - 1
            };
            if (k + 1) % upload_process_batch_size == 0 || k + 1 == embeddings.len() {
                self.lmdb.count_indexed = count_indexed;
                self.lmdb.count_unindexed = count_unindexed;
            }
            k = k + 1;
        }
        proof {
            let recs = crate::embedding::spec_log_record_count(log, 0) as int;
            assert(k == recs);
            if k == 0 {
                assert(self.lmdb.count_indexed == sat_add(base_indexed, 0));
                assert(self.lmdb.count_unindexed == sat_sub(base_unindexed, 0));
            }
            self.vec_raw_manager.lemma_slot_of(version, slot as int);
            assert(self.vec_raw_manager.version_data(version) == log);
        }
        Ok(())
    }

    /// Persists every queued dirty node into the index file of its
    /// version and clears the execution queue.  Records are laid down
    /// in two rounds so that by the second round every pointer names
    /// a persisted offset; a node's record position is fixed by the
    /// first round.
    #[verifier::loop_isolation(false)]
    pub fn auto_commit_transaction(&mut self) -> (r: Result<(), WaCustomError>)
        requires
            old(self).wf(),
        ensures
            final(self).lmdb == old(self).lmdb,
            final(self).vec_raw_manager == old(self).vec_raw_manager,
            final(self).nodes@.len() == old(self).nodes@.len(),
            same_store_config(*old(self), *final(self)),
            final(self).wf(),
            r is Ok ==> final(self).exec_queue_nodes@.len() == 0 && (forall|t: int|
                0 <= t < old(self).exec_queue_nodes@.len() ==> final(self).nodes@[(#[trigger] old(self).exec_queue_nodes@[t]) as int].file_index is Valid && !final(self).nodes@[old(self).exec_queue_nodes@[t] as int].persist_flag),
            old(self).exec_queue_nodes@.len() == 0 ==> r is Ok,
    {
        let mut round: u8 = 0;
        while round < 2
            invariant
                self.wf(),
                same_store_config(*old(self), *self),
                self.nodes@.len() == old(self).nodes@.len(),
                self.lmdb == old(self).lmdb,
                self.vec_raw_manager == old(self).vec_raw_manager,
                self.exec_queue_nodes == old(self).exec_queue_nodes,
                round >= 1 ==> forall|t: int|
                    0 <= t < old(self).exec_queue_nodes@.len() ==> self.nodes@[(#[trigger] old(self).exec_queue_nodes@[t]) as int].file_index is Valid && !self.nodes@[old(self).exec_queue_nodes@[t] as int].persist_flag,
            decreases 2 - round,
        {
            let mut q: usize = 0;
            while q < self.exec_queue_nodes.len()
                invariant
                    self.wf(),
                    q <= self.exec_queue_nodes@.len(),
                    same_store_config(*old(self), *self),
                    self.nodes@.len() == old(self).nodes@.len(),
                    self.lmdb == old(self).lmdb,
                    self.vec_raw_manager == old(self).vec_raw_manager,
                    self.exec_queue_nodes == old(self).exec_queue_nodes,
                    forall|t: int|
                        0 <= t < q ==> self.nodes@[(#[trigger] old(self).exec_queue_nodes@[t]) as int].file_index is Valid && !self.nodes@[old(self).exec_queue_nodes@[t] as int].persist_flag,
                decreases self.exec_queue_nodes@.len() - q,
            {
                let idx = self.exec_queue_nodes[q];
                let ghost pre = self.nodes@;
                match self.persist_node(idx, round == 1) {
                    Ok(_) => {},
                    Err(e) => {
                        return Err(e);
                    },
                }
                proof {
                    assert forall|t: int|
                        0 <= t < q + 1 implies self.nodes@[(#[trigger] old(self).exec_queue_nodes@[t]) as int].file_index is Valid && !self.nodes@[old(self).exec_queue_nodes@[t] as int].persist_flag by {
                        let target = old(self).exec_queue_nodes@[t] as int;
                        assert(old(self).exec_queue_nodes@[t] == self.exec_queue_nodes@[t]);
                        assert(self.exec_queue_nodes@[t] < self.nodes@.len());
                        if t == q {
                            assert(old(self).exec_queue_nodes@[t] == idx);
                        } else if target != idx {
                            assert(self.nodes@[target] == pre[target]);
                        }
                    }
                }
                q = q + 1;
            }
            round = round + 1;
        }
        self.exec_queue_nodes = Vec::new();
        Ok(())
    }

    /// Writes one node's record into its version's index file.  On
    /// the first round the record is appended and its position
    /// remembered; on the rewrite round it is laid down again at that
    /// position with the pointers now resolved.
    #[verifier::loop_isolation(false)]
    fn persist_node(&mut self, idx: usize, rewrite: bool) -> (r: Result<(), WaCustomError>)
        requires
            old(self).wf(),
            idx < old(self).nodes@.len(),
        ensures
            final(self).lmdb == old(self).lmdb,
            final(self).vec_raw_manager == old(self).vec_raw_manager,
            same_store_config(*old(self), *final(self)),
            final(self).wf(),
            final(self).nodes@.len() == old(self).nodes@.len(),
            final(self).exec_queue_nodes == old(self).exec_queue_nodes,
            forall|j: int|
                0 <= j < old(self).nodes@.len() && j != idx ==> final(self).nodes@[j] == old(self).nodes@[j],
            r is Ok ==> final(self).nodes@[idx as int].file_index is Valid && !final(self).nodes@[idx as int].persist_flag,
            r is Err ==> final(self).nodes == old(self).nodes,
            (old(self).nodes@[idx as int].prop matches PropState::Ready(p) && p.location is None)
                ==> (r matches Err(e) && e matches WaCustomError::NodeError(_)),
    {
        let node = &self.nodes[idx];
        let (prop_offset, prop_length) = match &node.prop {
            PropState::Ready(p) => {
                match p.location {
                    Option::Some((off, len)) => (off.0, len.0),
                    Option::None => {
                        return Err(
                            WaCustomError::NodeError(
                                String::from_str("node prop has no location"),
                            ),
                        );
                    },
                }
            },
            PropState::Pending((off, len)) => (off.0, len.0),
        };
        let parent: Option<(u32, u32)> = match node.parent {
            Option::Some(p) => {
                proof {
                    assert(node_ok(self.nodes@[idx as int], self.nodes@.len() as int));
                }
                match self.nodes[p].file_index {
                    FileIndex::Valid { offset, version } => Some((offset, version)),
                    FileIndex::Invalid => Some((0xffff_ffffu32, 0)),
                }
            },
            Option::None => None,
        };
        let child: Option<(u32, u32)> = match node.child {
            Option::Some(c) => {
                proof {
                    assert(node_ok(self.nodes@[idx as int], self.nodes@.len() as int));
                }
                match self.nodes[c].file_index {
                    FileIndex::Valid { offset, version } => Some((offset, version)),
                    FileIndex::Invalid => Some((0xffff_ffffu32, 0)),
                }
            },
            Option::None => None,
        };
        let mut nbrs: Vec<(u32, u32, u64)> = Vec::new();
        let edge_count = self.nodes[idx].neighbors.len();
        let mut t: usize = 0;
        while t < edge_count
            invariant
                self.wf(),
                idx < self.nodes@.len(),
                edge_count == self.nodes@[idx as int].neighbors@.len(),
                t <= edge_count,
                nbrs@.len() == t,
            decreases edge_count - t,
        {
            let (target, score) = self.nodes[idx].neighbors[t];
            proof {
                assert(node_ok(self.nodes@[idx as int], self.nodes@.len() as int));
            }
            let ptr = match self.nodes[target].file_index {
                FileIndex::Valid { offset, version } => (offset, version, score.value),
                FileIndex::Invalid => (0xffff_ffffu32, 0u32, score.value),
            };
            nbrs.push(ptr);
            t = t + 1;
        }
        if nbrs.len() > 0xffff_ffffusize {
            return Err(WaCustomError::NodeError(String::from_str("edge list too large")));
        }
        let node_version = self.nodes[idx].version_id;
        let at: Option<u32> = if rewrite {
            match self.nodes[idx].file_index {
                FileIndex::Valid { offset, version: _ } => Some(offset),
                FileIndex::Invalid => None,
            }
        } else {
            None
        };
        let record = crate::serializer::NodeRecord {
            hnsw_level: self.nodes[idx].hnsw_level.0,
            prop_offset,
            prop_length,
            parent,
            child,
            neighbors_offset: 0,
            neighbors: nbrs,
        };
        let slot = self.index_manager.get(node_version);
        let bufman = self.index_manager.at(slot);
        let start = match crate::serializer::serialize_node(bufman, at, &record) {
            Ok(s) => s,
            Err(e) => {
                return Err(e);
            },
        };
        let ghost pre = self.nodes@;
        set_node_file_index(
            &mut self.nodes,
            idx,
            FileIndex::Valid { offset: start, version: node_version },
        );
        set_node_persist(&mut self.nodes, idx, false);
        proof {
            assert forall|i: int| 0 <= i < self.nodes@.len() implies node_ok(
                #[trigger] self.nodes@[i],
                self.nodes@.len() as int,
            ) && child_link_ok(self.nodes@, i) by {
                assert(node_ok(pre[i], pre.len() as int));
                assert(child_link_ok(pre, i));
                if i != idx {
                    assert(self.nodes@[i] == pre[i]);
                }
                if i == idx {
                    assert(self.nodes@[i].child == pre[i].child);
                    assert(self.nodes@[i].prop == pre[i].prop);
                }
            }
        }
        Ok(())
    }

    /// Fetches, per level, the vector's node and its neighbor ids
    /// with their scores; a level where the id has no materialized
    /// node yields nothing.
    #[verifier::loop_isolation(false)]
    pub fn vector_fetch(&self, vector_id: &VectorId) -> (r: Result<
        Vec<Option<(VectorId, Vec<(VectorId, MetricResult)>)>>,
        WaCustomError,
    >)
        requires
            self.wf(),
        ensures
            r is Ok,
            r matches Ok(v) ==> v@.len() == self.max_cache_level as int && (forall|lev: int|
                0 <= lev < v@.len() && (#[trigger] v@[lev]) is Some ==> vid_eq(
                    (v@[lev]->0).0,
                    *vector_id,
                ) && neighbors_reported(*self, (v@[lev]->0).1@)) && (forall|lev: int|
                0 <= lev < v@.len() ==> ((#[trigger] v@[lev]) is Some <==> exists|n: int|
                    0 <= n < self.nodes@.len() && (#[trigger] self.nodes@[n]).hnsw_level.0 == lev
                        && (self.nodes@[n].prop matches PropState::Ready(p) && vid_eq(
                        p.id,
                        *vector_id,
                    )))),
    {
        let mut results: Vec<Option<(VectorId, Vec<(VectorId, MetricResult)>)>> = Vec::new();
        let mut lev: u8 = 0;
        while lev < self.max_cache_level
            invariant
                self.wf(),
                lev <= self.max_cache_level,
                results@.len() == lev,
                forall|t: int|
                    0 <= t < results@.len() && (#[trigger] results@[t]) is Some ==> vid_eq(
                        (results@[t]->0).0,
                        *vector_id,
                    ) && neighbors_reported(*self, (results@[t]->0).1@),
                forall|t: int|
                    0 <= t < results@.len() ==> ((#[trigger] results@[t]) is Some <==> exists|
                        n: int,
                    |
                        0 <= n < self.nodes@.len() && (#[trigger] self.nodes@[n]).hnsw_level.0 == t
                            && (self.nodes@[n].prop matches PropState::Ready(p) && vid_eq(
                            p.id,
                            *vector_id,
                        ))),
            decreases self.max_cache_level - lev,
        {
            let found = self.find_node_at_level(vector_id, lev);
            let entry: Option<(VectorId, Vec<(VectorId, MetricResult)>)> = match found {
                Option::Some(n) => {
                    let mut nes: Vec<(VectorId, MetricResult)> = Vec::new();
                    let edge_count = self.nodes[n].neighbors.len();
                    let mut t: usize = 0;
                    while t < edge_count
                        invariant
                            self.wf(),
                            n < self.nodes@.len(),
                            edge_count == self.nodes@[n as int].neighbors@.len(),
                            t <= edge_count,
                            neighbors_reported(*self, nes@),
                        decreases edge_count - t,
                    {
                        let (target, score) = self.nodes[n].neighbors[t];
                        proof {
                            assert(node_ok(self.nodes@[n as int], self.nodes@.len() as int));
                        }
                        match get_vector_id_from_node(&self.nodes[target]) {
                            Option::Some(id) => {
                                let copied = clone_vector_id(id);
                                let ghost pre_nes = nes@;
                                nes.push((copied, score));
                                proof {
                                    assert forall|e: int|
                                        0 <= e < nes@.len() implies exists|n2: int, k2: int|
                                        0 <= n2 < self.nodes@.len() && 0 <= k2
                                            < self.nodes@[n2].neighbors@.len() && (
                                        #[trigger] nes@[e]).1 == (
                                        #[trigger] self.nodes@[n2].neighbors@[k2]).1 && (
                                        self.nodes@[(self.nodes@[n2].neighbors@[k2].0) as int].prop
                                            matches PropState::Ready(p) && vid_eq(
                                            nes@[e].0,
                                            p.id,
                                        )) by {
                                        if e < pre_nes.len() {
                                            assert(nes@[e] == pre_nes[e]);
                                        } else {
                                            assert(nes@[e] == (copied, score));
                                            assert(self.nodes@[n as int].neighbors@[t as int]
                                                == (target, score));
                                            assert(self.nodes@[(self.nodes@[n as int].neighbors@[t as int].0) as int].prop
                                                matches PropState::Ready(p) && vid_eq(
                                                copied,
                                                p.id,
                                            ));
                                        }
                                    }
                                }
                            },
                            Option::None => {},
                        }
                        t = t + 1;
                    }
                    Some((clone_vector_id(vector_id), nes))
                },
                Option::None => None,
            };
            proof {
                match found {
                    Option::Some(n) => {
                        assert(exists|n2: int|
                            0 <= n2 < self.nodes@.len() && (
                            #[trigger] self.nodes@[n2]).hnsw_level.0 == lev as int
                                && (self.nodes@[n2].prop matches PropState::Ready(p) && vid_eq(
                                p.id,
                                *vector_id,
                            ))) by {
                            assert(self.nodes@[n as int].hnsw_level.0 == lev as int);
                        }
                    },
                    Option::None => {
                        assert(!exists|n2: int|
                            0 <= n2 < self.nodes@.len() && (
                            #[trigger] self.nodes@[n2]).hnsw_level.0 == lev as int
                                && (self.nodes@[n2].prop matches PropState::Ready(p) && vid_eq(
                                p.id,
                                *vector_id,
                            ))) by {
                            if exists|n2: int|
                                0 <= n2 < self.nodes@.len() && (
                                #[trigger] self.nodes@[n2]).hnsw_level.0 == lev as int
                                    && (self.nodes@[n2].prop matches PropState::Ready(p) && vid_eq(
                                    p.id,
                                    *vector_id,
                                )) {
                                let n2 = choose|n2: int|
                                    0 <= n2 < self.nodes@.len() && (
                                    #[trigger] self.nodes@[n2]).hnsw_level.0 == lev as int && (
                                    self.nodes@[n2].prop matches PropState::Ready(p) && vid_eq(
                                        p.id,
                                        *vector_id,
                                    ));
                                assert(self.nodes@[n2].hnsw_level.0 == lev);
                                assert(!(self.nodes@[n2].prop matches PropState::Ready(p)
                                    && vid_eq(p.id, *vector_id)));
                                assert(false);
                            }
                        }
                    },
                }
            }
            results.push(entry);
            lev = lev + 1;
        }
        Ok(results)
    }

    /// The arena slot of the node carrying `vector_id` at `level`, if
    /// one is materialized.
    pub fn find_node_at_level(&self, vector_id: &VectorId, level: u8) -> (r: Option<usize>)
        requires
            self.wf(),
        ensures
            r matches Some(n) ==> n < self.nodes@.len() && self.nodes@[n as int].hnsw_level.0
                == level && (self.nodes@[n as int].prop matches PropState::Ready(p) && vid_eq(
                p.id,
                *vector_id,
            )),
            r is None ==> forall|n: int|
                0 <= n < self.nodes@.len() && (#[trigger] self.nodes@[n]).hnsw_level.0 == level
                    ==> !(self.nodes@[n].prop matches PropState::Ready(p) && vid_eq(
                    p.id,
                    *vector_id,
                )),
    {
        let mut i: usize = 0;
        while i < self.nodes.len()
            invariant
                self.wf(),
                i <= self.nodes@.len(),
                forall|n: int|
                    0 <= n < i && (#[trigger] self.nodes@[n]).hnsw_level.0 == level ==> !(
                    self.nodes@[n].prop matches PropState::Ready(p) && vid_eq(p.id, *vector_id)),
            decreases self.nodes@.len() - i,
        {
            if self.nodes[i].hnsw_level.0 == level {
                match get_vector_id_from_node(&self.nodes[i]) {
                    Option::Some(id) => {
                        if vector_id_eq(id, vector_id) {
                            return Some(i);
                        }
                    },
                    Option::None => {},
                }
            }
            i = i + 1;
        }
        None
    }
}

/// Points node `i` at its parent one level above; everything else
/// stays.
pub(crate) fn set_node_parent(nodes: &mut Vec<MergedNode>, i: usize, p: usize)
    requires
        i < old(nodes)@.len(),
    ensures
        final(nodes)@.len() == old(nodes)@.len(),
        forall|j: int| 0 <= j < old(nodes)@.len() && j != i ==> final(nodes)@[j] == old(nodes)@[j],
        final(nodes)@[i as int].parent == Some(p),
        final(nodes)@[i as int].version_id == old(nodes)@[i as int].version_id,
        final(nodes)@[i as int].hnsw_level == old(nodes)@[i as int].hnsw_level,
        final(nodes)@[i as int].prop == old(nodes)@[i as int].prop,
        final(nodes)@[i as int].child == old(nodes)@[i as int].child,
        final(nodes)@[i as int].neighbors == old(nodes)@[i as int].neighbors,
        final(nodes)@[i as int].persist_flag == old(nodes)@[i as int].persist_flag,
        final(nodes)@[i as int].file_index == old(nodes)@[i as int].file_index,
{
    let node = &mut nodes[i];
    node.parent = Some(p);
}

/// Records where node `i` now lives on disk; everything else stays.
fn set_node_file_index(nodes: &mut Vec<MergedNode>, i: usize, fi: FileIndex)
    requires
        i < old(nodes)@.len(),
    ensures
        final(nodes)@.len() == old(nodes)@.len(),
        forall|j: int| 0 <= j < old(nodes)@.len() && j != i ==> final(nodes)@[j] == old(nodes)@[j],
        final(nodes)@[i as int].file_index == fi,
        final(nodes)@[i as int].version_id == old(nodes)@[i as int].version_id,
        final(nodes)@[i as int].hnsw_level == old(nodes)@[i as int].hnsw_level,
        final(nodes)@[i as int].prop == old(nodes)@[i as int].prop,
        final(nodes)@[i as int].parent == old(nodes)@[i as int].parent,
        final(nodes)@[i as int].child == old(nodes)@[i as int].child,
        final(nodes)@[i as int].neighbors == old(nodes)@[i as int].neighbors,
        final(nodes)@[i as int].persist_flag == old(nodes)@[i as int].persist_flag,
{
    let node = &mut nodes[i];
    node.file_index = fi;
}

/// In an intact index, every node keeps at most 20 neighbors — the
/// bound every insert preserves.
pub proof fn lemma_neighbors_bounded(store: VectorStore, i: int)
    requires
        store.wf(),
        0 <= i < store.nodes@.len(),
    ensures
        store.nodes@[i].neighbors@.len() <= 20,
{
    assert(node_ok(store.nodes@[i], store.nodes@.len() as int));
}

/// The graph half of the persisted-child law: in an intact index, a
/// node above level 0 with a child is linked to a node one level
/// below carrying the same vector id.
pub proof fn lemma_child_resolves_one_level_down(store: VectorStore, i: int)
    requires
        store.wf(),
        0 <= i < store.nodes@.len(),
        store.nodes@[i].child is Some,
    ensures
        ({
            let c = store.nodes@[i].child->0 as int;
            &&& 0 <= c < store.nodes@.len()
            &&& store.nodes@[c].hnsw_level.0 + 1 == store.nodes@[i].hnsw_level.0
            &&& match (store.nodes@[i].prop, store.nodes@[c].prop) {
                (PropState::Ready(p1), PropState::Ready(p2)) => vid_eq(p1.id, p2.id),
                _ => true,
            }
        }),
{
    assert(node_ok(store.nodes@[i], store.nodes@.len() as int));
    assert(child_link_ok(store.nodes@, i));
}

/// Placeholder for loading a node's neighbors from the database; the
/// lazy-loading path is not implemented and says so.
pub fn load_node_from_persist(_offset: FileIndex, _vec_store: &VectorStore) -> (r: Result<
    Option<(VectorId, Vec<(VectorId, MetricResult)>)>,
    WaCustomError,
>)
    ensures
        r matches Err(e) && e matches WaCustomError::LazyLoadingError(_),
{
    Err(WaCustomError::LazyLoadingError(String::from_str("not implemented")))
}

/// Placeholder for loading one neighbor from the database; the
/// lazy-loading path is not implemented and says so.
pub fn load_neighbor_from_db(_offset: FileIndex, _vec_store: &VectorStore) -> (r: Result<
    Option<(VectorId, MetricResult)>,
    WaCustomError,
>)
    ensures
        r matches Err(e) && e matches WaCustomError::LazyLoadingError(_),
{
    Err(WaCustomError::LazyLoadingError(String::from_str("not implemented")))
}

/// Linking a node to its previous on-disk version happens during file
/// persistence; nothing to do here yet.
pub fn _link_prev_version(_prev_loc: Option<u32>, _offset: u32) {
}

} // verus!
