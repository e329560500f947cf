//! Sparse inverted index: a 4-ary trie over dimension indices.
//!
//! Nodes live in an arena; slot 0 is the root at dimension 0.  Each
//! node has 16 child slots, child `i` adding the `i`-th power of 4 to
//! the dimension, and 64 append-only posting lists indexed by the
//! quantized value bucket.  Values are carried in fixed point with
//! 16 fractional bits, so `FIXED_ONE` stands for 1.0.

use vstd::prelude::*;

verus! {

/// The fixed-point representation of 1.0: values use 16 fractional
/// bits.
pub const FIXED_ONE: i64 = 65536;

/// The powers of 4 that the trie's child slots stand for, as a table
/// (the trie uses the first eight; the remaining slots are reserved).
pub open spec fn pow4(i: int) -> int {
    if i <= 0 {
        1
    } else if i == 1 {
        4
    } else if i == 2 {
        16
    } else if i == 3 {
        64
    } else if i == 4 {
        256
    } else if i == 5 {
        1024
    } else if i == 6 {
        4096
    } else {
        16384
    }
}

/// The index of the largest power of 4 that is at most `n` (capped by
/// the table bound).
pub open spec fn spec_lpo4(n: int) -> int
    recommends
        n >= 1,
{
    if n >= 16384 {
        7
    } else if n >= 4096 {
        6
    } else if n >= 1024 {
        5
    } else if n >= 256 {
        4
    } else if n >= 64 {
        3
    } else if n >= 16 {
        2
    } else if n >= 4 {
        1
    } else {
        0
    }
}

/// Returns the largest power of 4 that is at most `n`, with its table
/// index: the pair `(i, p)` satisfies `p <= n`, and `n < 4 * p` unless
/// the table bound was hit.
pub fn largest_power_of_4_below(n: u32) -> (r: (usize, u32))
    requires
        n >= 1,
    ensures
        r.0 == spec_lpo4(n as int),
        r.1 == pow4(r.0 as int),
        r.0 <= 7,
        r.1 <= n,
        r.0 < 7 ==> n < 4 * r.1,
{
    if n >= 16384 {
        (7, 16384)
    } else if n >= 4096 {
        (6, 4096)
    } else if n >= 1024 {
        (5, 1024)
    } else if n >= 256 {
        (4, 256)
    } else if n >= 64 {
        (3, 64)
    } else if n >= 16 {
        (2, 16)
    } else if n >= 4 {
        (1, 4)
    } else {
        (0, 1)
    }
}

/// The greedy power-of-4 decomposition of `rem`: the largest power
/// first, repeated until nothing remains.
pub open spec fn spec_path(rem: nat) -> Seq<usize>
    decreases rem,
{
    if rem == 0 {
        Seq::empty()
    } else {
        seq![spec_lpo4(rem as int) as usize] + spec_path((rem - pow4(spec_lpo4(rem as int))) as nat)
    }
}

/// The total dimension step a path stands for.
pub open spec fn path_sum(p: Seq<usize>) -> int
    decreases p.len(),
{
    if p.len() == 0 {
        0
    } else {
        pow4(p[0] as int) + path_sum(p.skip(1))
    }
}

/// A greedy decomposition adds up to what it decomposes, and every
/// step stays inside the table.
pub proof fn lemma_spec_path_sum(rem: nat)
    ensures
        path_sum(spec_path(rem)) == rem,
        forall|i: int| 0 <= i < spec_path(rem).len() ==> (#[trigger] spec_path(rem)[i]) <= 7,
    decreases rem,
{
    if rem != 0 {
        let idx = spec_lpo4(rem as int);
        let rest = (rem - pow4(idx)) as nat;
        lemma_spec_path_sum(rest);
        let p = spec_path(rem);
        assert(p[0] == idx as usize);
        assert(p.skip(1) =~= spec_path(rest));
    }
}

/// Calculates the path from `current_dim_index` to
/// `target_dim_index`: the greedy power-of-4 decomposition of their
/// difference.
pub fn calculate_path(target_dim_index: u32, current_dim_index: u32) -> (r: Vec<usize>)
    requires
        current_dim_index <= target_dim_index,
    ensures
        r@ =~= spec_path((target_dim_index - current_dim_index) as nat),
{
    let mut path: Vec<usize> = Vec::new();
    let mut remaining: u32 = target_dim_index - current_dim_index;
    let ghost total = remaining as nat;
    while remaining > 0
        invariant
            path@ + spec_path(remaining as nat) =~= spec_path(total),
        decreases remaining,
    {
        let (child_index, pow_4) = largest_power_of_4_below(remaining);
        let ghost pre_path = path@;
        let ghost pre_rem = remaining as nat;
        path.push(child_index);
        remaining = remaining - pow_4;
        proof {
            assert(spec_path(pre_rem) =~= seq![child_index] + spec_path(remaining as nat));
            assert(path@ + spec_path(remaining as nat) =~= pre_path + spec_path(pre_rem));
        }
    }
    proof {
        assert(path@ =~= path@ + spec_path(0));
    }
    path
}

/// The bucket a fixed-point value quantizes to: `floor(v * 63)`
/// clamped to `[0, 63]`.
pub open spec fn spec_quantize(v: int) -> u8 {
    if v < 0 {
        0u8
    } else if v >= 65536 {
        63u8
    } else {
        ((v * 63) / 65536) as u8
    }
}

/// One trie node: its dimension index, whether it was created
/// implicitly along a path, 64 posting lists, and 16 child slots
/// holding arena indices.
pub struct InvertedIndexNewDSNode {
    pub dim_index: u32,
    pub implicit: bool,
    pub data: Vec<Vec<u32>>,
    pub lazy_children: Vec<Option<usize>>,
}

impl InvertedIndexNewDSNode {
    /// A node with the given dimension and no postings or children.
    pub fn new(dim_index: u32, implicit: bool) -> (r: Self)
        ensures
            r.dim_index == dim_index,
            r.implicit == implicit,
            r.data@.len() == 64,
            forall|b: int| 0 <= b < 64 ==> (#[trigger] r.data@[b])@.len() == 0,
            r.lazy_children@.len() == 16,
            forall|c: int| 0 <= c < 16 ==> (#[trigger] r.lazy_children@[c]) is None,
    {
        let mut data: Vec<Vec<u32>> = Vec::new();
        let mut b: usize = 0;
        while b < 64
            invariant
                b <= 64,
                data@.len() == b,
                forall|i: int| 0 <= i < b ==> (#[trigger] data@[i])@.len() == 0,
            decreases 64 - b,
        {
            data.push(Vec::new());
            b = b + 1;
        }
        let mut lazy_children: Vec<Option<usize>> = Vec::new();
        let mut c: usize = 0;
        while c < 16
            invariant
                c <= 16,
                lazy_children@.len() == c,
                forall|i: int| 0 <= i < c ==> (#[trigger] lazy_children@[i]) is None,
            decreases 16 - c,
        {
            lazy_children.push(None);
            c = c + 1;
        }
        InvertedIndexNewDSNode { dim_index, implicit, data, lazy_children }
    }

    /// Appends `vector_id` to the posting list of the bucket the
    /// value quantizes to.
    pub fn insert(&mut self, value: i64, vector_id: u32)
        requires
            old(self).data@.len() == 64,
        ensures
            final(self).data@.len() == 64,
            final(self).dim_index == old(self).dim_index,
            final(self).implicit == old(self).implicit,
            final(self).lazy_children == old(self).lazy_children,
            forall|b: int|
                0 <= b < 64 && b != spec_quantize(value as int) ==> final(self).data@[b] == old(
                    self,
                ).data@[b],
            final(self).data@[spec_quantize(value as int) as int]@ =~= old(self).data@[spec_quantize(
                value as int,
            ) as int]@.push(vector_id),
    {
        let quantized_value = Self::quantize(value);
        let bucket = &mut self.data[quantized_value as usize];
        bucket.push(vector_id);
    }

    /// The fixed-point value's bucket, as executable code.
    pub fn quantize(value: i64) -> (r: u8)
        ensures
            r == spec_quantize(value as int),
    {
        if value < 0 {
            0
        } else if value >= FIXED_ONE {
            63
        } else {
            ((value * 63) / 65536) as u8
        }
    }
}

/// A node's shape is intact and its child slots point into an arena
/// of length `len`.
pub open spec fn node_wf(n: InvertedIndexNewDSNode, len: int) -> bool {
    &&& n.data@.len() == 64
    &&& n.lazy_children@.len() == 16
    &&& forall|c: int|
        0 <= c < 16 && (#[trigger] n.lazy_children@[c]) is Some ==> n.lazy_children@[c]->0 < len
}

/// The arena slot reached from `cur` by following the child slots
/// that `path` names; `None` where a slot is empty or out of range.
pub open spec fn follow(nodes: Seq<InvertedIndexNewDSNode>, cur: int, path: Seq<usize>) -> Option<
    int,
>
    decreases path.len(),
{
    if !(0 <= cur < nodes.len()) {
        None
    } else if path.len() == 0 {
        Some(cur)
    } else if path[0] >= 16 || nodes[cur].lazy_children@.len() != 16 {
        None
    } else {
        match nodes[cur].lazy_children@[path[0] as int] {
            Option::None => None,
            Option::Some(c) => follow(nodes, c as int, path.skip(1)),
        }
    }
}

/// Following a concatenated path is following its halves in turn.
pub proof fn lemma_follow_append(
    nodes: Seq<InvertedIndexNewDSNode>,
    cur: int,
    a: Seq<usize>,
    b: Seq<usize>,
)
    ensures
        follow(nodes, cur, a + b) == match follow(nodes, cur, a) {
            Option::None => None::<int>,
            Option::Some(m) => follow(nodes, m, b),
        },
    decreases a.len(),
{
    if !(0 <= cur < nodes.len()) {
        assert((a + b).len() == a.len() + b.len());
    } else if a.len() == 0 {
        assert(a + b =~= b);
    } else {
        assert((a + b)[0] == a[0]);
        if a[0] >= 16 || nodes[cur].lazy_children@.len() != 16 {
        } else {
            match nodes[cur].lazy_children@[a[0] as int] {
                Option::None => {},
                Option::Some(c) => {
                    assert((a + b).skip(1) =~= a.skip(1) + b);
                    lemma_follow_append(nodes, c as int, a.skip(1), b);
                },
            }
        }
    }
}

/// A resolved path lands inside the arena.
pub proof fn lemma_follow_in_range(nodes: Seq<InvertedIndexNewDSNode>, cur: int, path: Seq<usize>)
    requires
        follow(nodes, cur, path) is Some,
    ensures
        0 <= follow(nodes, cur, path)->0 < nodes.len(),
    decreases path.len(),
{
    if path.len() == 0 {
    } else {
        match nodes[cur].lazy_children@[path[0] as int] {
            Option::None => {},
            Option::Some(c) => {
                lemma_follow_in_range(nodes, c as int, path.skip(1));
            },
        }
    }
}

/// The first bucket at or after `from` whose posting list holds `id`.
pub open spec fn first_bucket_from(data: Seq<Vec<u32>>, id: u32, from: int) -> Option<u8>
    decreases 64 - from,
{
    if !(0 <= from < 64) {
        None
    } else if data.len() == 64 && data[from]@.contains(id) {
        Some(from as u8)
    } else {
        first_bucket_from(data, id, from + 1)
    }
}

/// When the buckets below `q` are free of `id` and bucket `q` holds
/// it, the scan starting anywhere at or below `q` finds exactly `q`.
pub proof fn lemma_first_bucket(data: Seq<Vec<u32>>, id: u32, q: int, from: int)
    requires
        data.len() == 64,
        0 <= from <= q < 64,
        data[q]@.contains(id),
        forall|b: int| from <= b < q ==> !(#[trigger] data[b])@.contains(id),
    ensures
        first_bucket_from(data, id, from) == Some(q as u8),
    decreases q - from,
{
    if from < q {
        lemma_first_bucket(data, id, q, from + 1);
    }
}

/// Node `b` extends node `a`: postings only grow at the tail and
/// filled child slots never change.
pub open spec fn node_leq(a: InvertedIndexNewDSNode, b: InvertedIndexNewDSNode) -> bool {
    &&& a.dim_index == b.dim_index
    &&& a.data@.len() == b.data@.len()
    &&& forall|i: int| 0 <= i < a.data@.len() ==> (#[trigger] a.data@[i])@.is_prefix_of(b.data@[i]@)
    &&& a.lazy_children@.len() == b.lazy_children@.len()
    &&& forall|c: int|
        0 <= c < a.lazy_children@.len() && (#[trigger] a.lazy_children@[c]) is Some
            ==> b.lazy_children@[c] == a.lazy_children@[c]
}

/// Arena `y` extends arena `x` node by node, possibly with new nodes
/// appended.
pub open spec fn index_leq(x: Seq<InvertedIndexNewDSNode>, y: Seq<InvertedIndexNewDSNode>) -> bool {
    &&& x.len() <= y.len()
    &&& forall|i: int| 0 <= i < x.len() ==> node_leq(#[trigger] x[i], #[trigger] y[i])
}

/// Extension is transitive.
pub proof fn lemma_index_leq_trans(
    x: Seq<InvertedIndexNewDSNode>,
    y: Seq<InvertedIndexNewDSNode>,
    z: Seq<InvertedIndexNewDSNode>,
)
    requires
        index_leq(x, y),
        index_leq(y, z),
    ensures
        index_leq(x, z),
{
    assert forall|i: int| 0 <= i < x.len() implies node_leq(#[trigger] x[i], #[trigger] z[i]) by {
        assert(node_leq(x[i], y[i]));
        assert(node_leq(y[i], z[i]));
        assert forall|k: int|
            0 <= k < x[i].data@.len() implies (#[trigger] x[i].data@[k])@.is_prefix_of(
            z[i].data@[k]@,
        ) by {
            assert(x[i].data@[k]@.is_prefix_of(y[i].data@[k]@));
            assert(y[i].data@[k]@.is_prefix_of(z[i].data@[k]@));
        }
    }
}

/// A resolvable path resolves to the same slot in any extension.
pub proof fn lemma_follow_monotone(
    x: Seq<InvertedIndexNewDSNode>,
    y: Seq<InvertedIndexNewDSNode>,
    cur: int,
    path: Seq<usize>,
)
    requires
        index_leq(x, y),
        follow(x, cur, path) is Some,
    ensures
        follow(y, cur, path) == follow(x, cur, path),
    decreases path.len(),
{
    if path.len() == 0 {
    } else {
        assert(node_leq(x[cur], y[cur]));
        match x[cur].lazy_children@[path[0] as int] {
            Option::None => {},
            Option::Some(c) => {
                lemma_follow_monotone(x, y, c as int, path.skip(1));
            },
        }
    }
}

/// A posting present in an arena is present in any extension of it.
pub proof fn lemma_present_monotone(
    x: Seq<InvertedIndexNewDSNode>,
    y: Seq<InvertedIndexNewDSNode>,
    dim: u32,
    b: int,
    id: u32,
)
    requires
        index_leq(x, y),
        spec_present(x, dim, b, id),
    ensures
        spec_present(y, dim, b, id),
{
    let path = spec_path(dim as nat);
    lemma_follow_monotone(x, y, 0, path);
    lemma_follow_in_range(x, 0, path);
    let n = follow(x, 0, path)->0;
    assert(node_leq(x[n], y[n]));
    let xs = x[n].data@[b]@;
    let ys = y[n].data@[b]@;
    assert(xs.is_prefix_of(ys));
    assert(xs =~= ys.take(xs.len() as int));
    let j = choose|j: int| 0 <= j < xs.len() && xs[j] == id;
    assert(ys[j] == xs[j]);
    assert(ys.contains(id)) by {
        assert(ys[j] == id);
    }
}

/// Posting `id` sits in bucket `b` of the node at dimension `dim`.
pub open spec fn spec_present(
    nodes: Seq<InvertedIndexNewDSNode>,
    dim: u32,
    b: int,
    id: u32,
) -> bool {
    match follow(nodes, 0, spec_path(dim as nat)) {
        Option::None => false,
        Option::Some(n) => 0 <= b < nodes[n].data@.len() && nodes[n].data@[b]@.contains(id),
    }
}

/// A sparse vector: its id and the `(dimension, fixed-point value)`
/// entries.
pub struct SparseVector {
    pub vector_id: u32,
    pub entries: Vec<(u32, i64)>,
}

/// The sparse ANN index: the trie arena, slot 0 being the root at
/// dimension 0.
pub struct InvertedIndexSparseAnnNewDS {
    pub nodes: Vec<InvertedIndexNewDSNode>,
}

impl InvertedIndexSparseAnnNewDS {
    /// The arena is intact: a root at dimension 0 and coherent child
    /// dimensions everywhere.
    pub open spec fn wf(&self) -> bool {
        &&& self.nodes@.len() >= 1
    &&& self.nodes@[0].dim_index == 0
    &&& !self.nodes@[0].implicit
    &&& forall|i: int|
            0 <= i < self.nodes@.len() ==> node_wf(
                #[trigger] self.nodes@[i],
                self.nodes@.len() as int,
            )
    &&& forall|i: int, c: int|
            0 <= i < self.nodes@.len() && 0 <= c < 16 && (#[trigger] self.nodes@[i].lazy_children@[c]) is Some
                ==> self.nodes@[self.nodes@[i].lazy_children@[c]->0 as int].dim_index
                == self.nodes@[i].dim_index + pow4(c)
    }

    /// What `get` returns: the first bucket holding `id` at the node
    /// that `dim_index` names, if the path to it exists.
    pub open spec fn spec_get(&self, dim_index: u32, vector_id: u32) -> Option<u8> {
        match follow(self.nodes@, 0, spec_path(dim_index as nat)) {
            Option::None => None,
            Option::Some(n) => first_bucket_from(self.nodes@[n].data@, vector_id, 0),
        }
    }

    /// An index holding only the explicit root.
    pub fn new() -> (r: Self)
        ensures
            r.wf(),
            r.nodes@.len() == 1,
            forall|b: int| 0 <= b < 64 ==> (#[trigger] r.nodes@[0].data@[b])@.len() == 0,
    {
        let root = InvertedIndexNewDSNode::new(0, false);
        let mut nodes: Vec<InvertedIndexNewDSNode> = Vec::new();
        nodes.push(root);
        InvertedIndexSparseAnnNewDS { nodes }
    }

    /// Finds the arena slot of the node at `dim_index`, if the trie
    /// has grown a path to it.
    #[verifier::loop_isolation(false)]
    pub fn find_node(&self, dim_index: u32) -> (r: Option<usize>)
        requires
            self.wf(),
        ensures
            match r {
                Option::Some(n) => follow(self.nodes@, 0, spec_path(dim_index as nat)) == Some(
                    n as int,
                ) && n < self.nodes@.len(),
                Option::None => follow(self.nodes@, 0, spec_path(dim_index as nat)) is None,
            },
    {
        let path = calculate_path(dim_index, 0);
        proof {
            lemma_spec_path_sum(dim_index as nat);
            assert(path@.take(0) =~= Seq::<usize>::empty());
        }
        let mut cur: usize = 0;
        let mut k: usize = 0;
        while k < path.len()
            invariant
                self.wf(),
                k <= path@.len(),
                path@ =~= spec_path(dim_index as nat),
                cur < self.nodes@.len(),
                follow(self.nodes@, 0, path@.take(k as int)) == Some(cur as int),
                forall|i: int| 0 <= i < path@.len() ==> (#[trigger] path@[i]) <= 7,
            decreases path@.len() - k,
        {
            let p = path[k];
            proof {
                assert(p <= 7);
                assert(node_wf(self.nodes@[cur as int], self.nodes@.len() as int));
                assert(path@.take(k as int + 1) =~= path@.take(k as int) + seq![p]);
                assert(path@.take(k as int) + path@.skip(k as int) =~= path@);
                lemma_follow_append(self.nodes@, 0, path@.take(k as int), seq![p]);
                lemma_follow_append(self.nodes@, 0, path@.take(k as int), path@.skip(k as int));
                assert(seq![p].skip(1) =~= Seq::<usize>::empty());
            }
            match self.nodes[cur].lazy_children[p] {
                Option::Some(c) => {
                    proof {
                        assert(self.nodes@[cur as int].lazy_children@[p as int] == Some(c));
                        assert(follow(self.nodes@, c as int, seq![p].skip(1)) == Some(c as int));
                        assert(follow(self.nodes@, cur as int, seq![p]) == Some(c as int));
                    }
                    cur = c;
                },
                Option::None => {
                    proof {
                        assert(follow(self.nodes@, cur as int, seq![p]) is None);
                        assert(path@.skip(k as int)[0] == p);
                        assert(follow(self.nodes@, cur as int, path@.skip(k as int)) is None);
                        assert(follow(self.nodes@, 0, path@) is None);
                    }
                    return None;
                },
            }
            k = k + 1;
        }
        proof {
            assert(path@.take(path@.len() as int) =~= path@);
        }
        Some(cur)
    }

    /// Fetches the quantized bucket recorded for `vector_id` at
    /// `dim_index`: the first bucket of that node holding the id.
    #[verifier::loop_isolation(false)]
    pub fn get(&self, dim_index: u32, vector_id: u32) -> (r: Option<u8>)
        requires
            self.wf(),
        ensures
            r == self.spec_get(dim_index, vector_id),
    {
        let n = match self.find_node(dim_index) {
            Option::Some(n) => n,
            Option::None => {
                return None;
            },
        };
        let node = &self.nodes[n];
        let mut b: usize = 0;
        while b < 64
            invariant
                self.wf(),
                n < self.nodes@.len(),
                node == self.nodes@[n as int],
                b <= 64,
                forall|j: int| 0 <= j < b ==> !(#[trigger] node.data@[j])@.contains(vector_id),
                first_bucket_from(node.data@, vector_id, 0) == first_bucket_from(
                    node.data@,
                    vector_id,
                    b as int,
                ),
            decreases 64 - b,
        {
            let list = &node.data[b];
            let mut j: usize = 0;
            let mut found = false;
            while j < list.len()
                invariant
                    j <= list@.len(),
                    found <==> exists|t: int| 0 <= t < j && list@[t] == vector_id,
                decreases list@.len() - j,
            {
                if list[j] == vector_id {
                    found = true;
                }
                j = j + 1;
            }
            proof {
                assert(node_wf(self.nodes@[n as int], self.nodes@.len() as int));
                if found {
                    let t = choose|t: int| 0 <= t < j && list@[t] == vector_id;
                    assert(list@.contains(vector_id));
                    assert(first_bucket_from(node.data@, vector_id, b as int) == Some(b as u8));
                } else {
                    assert(!list@.contains(vector_id)) by {
                        if list@.contains(vector_id) {
                            let t = choose|t: int| 0 <= t < list@.len() && list@[t] == vector_id;
                            assert(false);
                        }
                    }
                    assert(first_bucket_from(node.data@, vector_id, b as int)
                        == first_bucket_from(node.data@, vector_id, b as int + 1));
                }
            }
            if found {
                return Some(b as u8);
            }
            b = b + 1;
        }
        proof {
            assert(first_bucket_from(node.data@, vector_id, 64) is None);
        }
        None
    }

    /// Inserts `vector_id` under `dim_index` in the bucket its value
    /// quantizes to, growing the path if needed.  Existing postings
    /// and filled child slots are never disturbed, and when the id was
    /// in no lower bucket of that node, a `get` finds exactly this
    /// bucket.
    #[verifier::loop_isolation(false)]
    pub fn insert(&mut self, dim_index: u32, value: i64, vector_id: u32)
        requires
            old(self).wf(),
        ensures
            final(self).wf(),
            index_leq(old(self).nodes@, final(self).nodes@),
            spec_present(
                final(self).nodes@,
                dim_index,
                spec_quantize(value as int) as int,
                vector_id,
            ),
            (forall|b: int|
                0 <= b < spec_quantize(value as int) ==> !spec_present(
                    old(self).nodes@,
                    dim_index,
                    b,
                    vector_id,
                )) ==> final(self).spec_get(dim_index, vector_id) == Some(
                spec_quantize(value as int),
            ),
            ({
                let t = follow(final(self).nodes@, 0, spec_path(dim_index as nat))->0 as int;
                let q = spec_quantize(value as int) as int;
                &&& forall|i: int|
                    0 <= i < old(self).nodes@.len() && i != t ==> (#[trigger] final(self).nodes@[i]).data
                        == old(self).nodes@[i].data
                &&& forall|i: int, b: int|
                    old(self).nodes@.len() <= i < final(self).nodes@.len() && 0 <= b < 64 && !(i
                        == t && b == spec_quantize(value as int)) ==> (#[trigger] final(self).nodes@[i].data@[b])@.len() == 0
                &&& (t < old(self).nodes@.len() ==> forall|b: int|
                    0 <= b < 64 && b != spec_quantize(value as int) ==> final(self).nodes@[t].data@[b] == old(self).nodes@[t].data@[b])
                &&& (t < old(self).nodes@.len() ==> final(self).nodes@[t].data@[q]@ == old(self).nodes@[t].data@[q]@.push(vector_id))
                &&& (t >= old(self).nodes@.len() ==> final(self).nodes@[t].data@[q]@ =~= seq![vector_id])
            }),
    {
        let ghost orig = self.nodes@;
        let path = calculate_path(dim_index, 0);
        proof {
            lemma_spec_path_sum(dim_index as nat);
            assert(index_leq(orig, self.nodes@)) by {
                lemma_index_leq_refl(orig);
            }
            assert(path@.take(0) =~= Seq::<usize>::empty());
            assert(path@.skip(0) =~= path@);
            assert(path_sum(path@) == path_sum(spec_path(dim_index as nat)));
        }
        let mut cur: usize = 0;
        let mut k: usize = 0;
        while k < path.len()
            invariant
                self.wf(),
                k <= path@.len(),
                path@ =~= spec_path(dim_index as nat),
                cur < self.nodes@.len(),
                follow(self.nodes@, 0, path@.take(k as int)) == Some(cur as int),
                index_leq(orig, self.nodes@),
                self.nodes@[cur as int].dim_index + path_sum(path@.skip(k as int)) == dim_index,
                forall|i: int|
                    0 <= i < orig.len() ==> (#[trigger] self.nodes@[i]).data == orig[i].data,
                forall|i: int, b: int|
                    orig.len() <= i < self.nodes@.len() && 0 <= b < 64 ==> (
                    #[trigger] self.nodes@[i].data@[b])@.len() == 0,
                forall|i: int, c: int|
                    0 <= i < self.nodes@.len() && 0 <= c < 16 && (
                    #[trigger] self.nodes@[i].lazy_children@[c]) is Some && (i >= orig.len()
                        || orig[i].lazy_children@[c] is None)
                        ==> self.nodes@[i].lazy_children@[c]->0 >= orig.len(),
                follow(orig, 0, path@.take(k as int)) == Some(cur as int) || cur >= orig.len(),
                forall|i: int| 0 <= i < path@.len() ==> (#[trigger] path@[i]) <= 7,
            decreases path@.len() - k,
        {
            let p = path[k];
            let ghost pre = self.nodes@;
            proof {
                assert(p <= 7);
                assert(path_sum(path@.skip(k as int)) == pow4(p as int) + path_sum(
                    path@.skip(k as int + 1),
                )) by {
                    assert(path@.skip(k as int)[0] == p);
                    assert(path@.skip(k as int).skip(1) =~= path@.skip(k as int + 1));
                }
                lemma_path_sum_nonneg(path@.skip(k as int + 1));
                assert(path@.take(k as int + 1) =~= path@.take(k as int) + seq![p]);
                lemma_follow_append(pre, 0, path@.take(k as int), seq![p]);
                lemma_follow_append(orig, 0, path@.take(k as int), seq![p]);
                assert(node_wf(pre[cur as int], pre.len() as int));
                assert(seq![p].skip(1) =~= Seq::<usize>::empty());
            }
            match self.nodes[cur].lazy_children[p] {
                Option::Some(c) => {
                    proof {
                        assert(pre[cur as int].lazy_children@[p as int] == Some(c));
                        assert(follow(pre, c as int, seq![p].skip(1)) == Some(c as int));
                        assert(follow(pre, cur as int, seq![p]) == Some(c as int));
                        if cur < orig.len() && follow(orig, 0, path@.take(k as int)) == Some(
                            cur as int,
                        ) {
                            if orig[cur as int].lazy_children@[p as int] is Some {
                                assert(node_leq(orig[cur as int], self.nodes@[cur as int]));
                                assert(orig[cur as int].lazy_children@[p as int] == Some(c));
                                assert(node_wf(orig[cur as int], orig.len() as int));
                                assert(follow(orig, c as int, seq![p].skip(1)) == Some(c as int));
                                assert(follow(orig, cur as int, seq![p]) == Some(c as int));
                            }
                        }
                    }
                    cur = c;
                },
                Option::None => {
                    let cur_dim = self.nodes[cur].dim_index;
                    let step = power_of_4(p);
                    let new_dim = cur_dim + step;
                    let new_node = InvertedIndexNewDSNode::new(new_dim, true);
                    let ghost nn = new_node;
                    let idx = self.nodes.len();
                    self.nodes.push(new_node);
                    let ghost pushed = self.nodes@;
                    set_child_slot(&mut self.nodes, cur, p, idx);
                    proof {
                        let s2 = self.nodes@;
                        assert(index_leq(pre, s2)) by {
                            assert(s2.len() == pre.len() + 1);
                            assert forall|i: int| 0 <= i < pre.len() implies node_leq(
                                #[trigger] pre[i],
                                #[trigger] s2[i],
                            ) by {
                                lemma_node_leq_refl(pre[i]);
                                if i == cur {
                                    assert forall|t: int|
                                        0 <= t < pre[i].data@.len() implies (
                                    #[trigger] pre[i].data@[t])@.is_prefix_of(s2[i].data@[t]@) by {
                                        assert(s2[i].data@[t] == pre[i].data@[t]);
                                    }
                                }
                            }
                        }
                        lemma_index_leq_trans(orig, pre, s2);
                        assert(self.wf()) by {
                            assert forall|i: int|
                                0 <= i < s2.len() implies node_wf(
                                #[trigger] s2[i],
                                s2.len() as int,
                            ) by {
                                if i < pre.len() && i != cur {
                                    assert(node_wf(pre[i], pre.len() as int));
                                }
                            }
                            assert forall|i: int, c2: int|
                                0 <= i < s2.len() && 0 <= c2 < 16 && (
                            #[trigger] s2[i].lazy_children@[c2]) is Some implies s2[s2[i].lazy_children@[c2]->0 as int].dim_index
                                == s2[i].dim_index + pow4(c2) by {
                                if i == cur && c2 == p as int {
                                    assert(s2[i].lazy_children@[c2] == Some(idx));
                                    assert(s2[idx as int].dim_index == new_dim);
                                } else if i < pre.len() {
                                    assert(pre[i].lazy_children@[c2] == s2[i].lazy_children@[c2]);
                                    let t = s2[i].lazy_children@[c2]->0 as int;
                                    assert(t < pre.len());
                                    assert(s2[t].dim_index == pre[t].dim_index);
                                } else {
                                    assert(i == idx);
                                    assert(nn.lazy_children@[c2] is None);
                                }
                            }
                        }
                        lemma_follow_monotone(pre, s2, 0, path@.take(k as int));
                        lemma_follow_append(s2, 0, path@.take(k as int), seq![p]);
                        assert(s2[cur as int].lazy_children@[p as int] == Some(idx));
                        assert(follow(s2, idx as int, seq![p].skip(1)) == Some(idx as int));
                        assert(follow(s2, cur as int, seq![p]) == Some(idx as int));
                        assert(follow(s2, 0, path@.take(k as int + 1)) == Some(idx as int));
                    }
                    cur = idx;
                },
            }
            k = k + 1;
        }
        proof {
            assert(path@.take(path@.len() as int) =~= path@);
        }
        let q = InvertedIndexNewDSNode::quantize(value);
        let ghost walked = self.nodes@;
        let ghost qi = q as int;
        push_posting(&mut self.nodes, cur, q as usize, vector_id);
        proof {
            let fin = self.nodes@;
            assert(index_leq(walked, fin)) by {
                assert forall|i: int| 0 <= i < walked.len() implies node_leq(
                    #[trigger] walked[i],
                    #[trigger] fin[i],
                ) by {
                    lemma_node_leq_refl(walked[i]);
                    if i == cur {
                        assert forall|t: int|
                            0 <= t < walked[i].data@.len() implies (
                        #[trigger] walked[i].data@[t])@.is_prefix_of(fin[i].data@[t]@) by {
                            if t == qi {
                                assert(fin[i].data@[t]@ == walked[i].data@[t]@.push(vector_id));
                                assert(walked[i].data@[t]@.is_prefix_of(
                                    walked[i].data@[t]@.push(vector_id),
                                ));
                            } else {
                                assert(fin[i].data@[t] == walked[i].data@[t]);
                            }
                        }
                    }
                }
            }
            lemma_index_leq_trans(orig, walked, fin);
            assert(self.wf()) by {
                assert forall|i: int|
                    0 <= i < fin.len() implies node_wf(#[trigger] fin[i], fin.len() as int) by {
                    assert(node_wf(walked[i], walked.len() as int));
                    if i == cur {
                        assert(fin[i].lazy_children == walked[i].lazy_children);
                    }
                }
                assert forall|i: int, c2: int|
                    0 <= i < fin.len() && 0 <= c2 < 16 && (
                #[trigger] fin[i].lazy_children@[c2]) is Some implies fin[fin[i].lazy_children@[c2]->0 as int].dim_index
                    == fin[i].dim_index + pow4(c2) by {
                    assert(fin[i].lazy_children == walked[i].lazy_children);
                    assert(fin[i].dim_index == walked[i].dim_index);
                    let t = fin[i].lazy_children@[c2]->0 as int;
                    assert(fin[t].dim_index == walked[t].dim_index);
                }
            }
            lemma_follow_monotone(walked, fin, 0, path@);
            assert(follow(fin, 0, spec_path(dim_index as nat)) == Some(cur as int));
            assert(fin[cur as int].data@[qi]@.contains(vector_id)) by {
                let bs = fin[cur as int].data@[qi]@;
                assert(bs == walked[cur as int].data@[qi]@.push(vector_id));
                assert(bs[bs.len() - 1] == vector_id);
            }
            if forall|b: int|
                0 <= b < qi ==> !spec_present(orig, dim_index, b, vector_id) {
                assert forall|b: int| 0 <= b < qi implies !(
                #[trigger] fin[cur as int].data@[b])@.contains(vector_id) by {
                    assert(fin[cur as int].data@[b] == walked[cur as int].data@[b]);
                    if cur < orig.len() {
                        if follow(orig, 0, path@) == Some(cur as int) {
                            assert(!spec_present(orig, dim_index, b, vector_id));
                            assert(walked[cur as int].data == orig[cur as int].data);
                        } else {
                            assert(cur >= orig.len());
                        }
                    } else {
                        assert(walked[cur as int].data@[b]@.len() == 0);
                    }
                }
                lemma_first_bucket(fin[cur as int].data@, vector_id, qi, 0);
            }
        }
    }

    /// Adds a sparse vector: every entry with a nonzero value is
    /// inserted under its dimension, in the bucket the value
    /// quantizes to.
    #[verifier::loop_isolation(false)]
    pub fn add_sparse_vector(&mut self, vector: SparseVector) -> (r: Result<(), String>)
        requires
            old(self).wf(),
        ensures
            final(self).wf(),
            r is Ok,
            index_leq(old(self).nodes@, final(self).nodes@),
            forall|k: int|
                0 <= k < vector.entries@.len() && (#[trigger] vector.entries@[k]).1 != 0
                    ==> spec_present(
                    final(self).nodes@,
                    vector.entries@[k].0,
                    spec_quantize(vector.entries@[k].1 as int) as int,
                    vector.vector_id,
                ),
    {
        let vector_id = vector.vector_id;
        let mut k: usize = 0;
        while k < vector.entries.len()
            invariant
                self.wf(),
                k <= vector.entries@.len(),
                index_leq(old(self).nodes@, self.nodes@),
                forall|j: int|
                    0 <= j < k && (#[trigger] vector.entries@[j]).1 != 0 ==> spec_present(
                        self.nodes@,
                        vector.entries@[j].0,
                        spec_quantize(vector.entries@[j].1 as int) as int,
                        vector_id,
                    ),
            decreases vector.entries@.len() - k,
        {
            let (dim_index, value) = vector.entries[k];
            if value != 0 {
                let ghost before = self.nodes@;
                self.insert(dim_index, value, vector_id);
                proof {
                    lemma_index_leq_trans(old(self).nodes@, before, self.nodes@);
                    assert forall|j: int|
                        0 <= j < k && (#[trigger] vector.entries@[j]).1 != 0 implies spec_present(
                        self.nodes@,
                        vector.entries@[j].0,
                        spec_quantize(vector.entries@[j].1 as int) as int,
                        vector_id,
                    ) by {
                        lemma_present_monotone(
                            before,
                            self.nodes@,
                            vector.entries@[j].0,
                            spec_quantize(vector.entries@[j].1 as int) as int,
                            vector_id,
                        );
                    }
                }
            }
            k = k + 1;
        }
        Ok(())
    }
}

/// Fills child slot `c` of node `i` with `idx`; everything else in
/// the arena stays as it was.
fn set_child_slot(
    nodes: &mut Vec<InvertedIndexNewDSNode>,
    i: usize,
    c: usize,
    idx: usize,
)
    requires
        i < old(nodes)@.len(),
        c < old(nodes)@[i as int].lazy_children@.len(),
    ensures
        final(nodes)@.len() == old(nodes)@.len(),
        forall|j: int|
            0 <= j < old(nodes)@.len() && j != i ==> final(nodes)@[j] == old(nodes)@[j],
        final(nodes)@[i as int].dim_index == old(nodes)@[i as int].dim_index,
        final(nodes)@[i as int].implicit == old(nodes)@[i as int].implicit,
        final(nodes)@[i as int].data == old(nodes)@[i as int].data,
        final(nodes)@[i as int].lazy_children@ =~= old(nodes)@[i as int].lazy_children@.update(c as int, Some(idx)),
{
    let node = &mut nodes[i];
    node.lazy_children.set(c, Some(idx));
}

/// Appends `id` to posting list `b` of node `i`; everything else in
/// the arena stays as it was.
fn push_posting(nodes: &mut Vec<InvertedIndexNewDSNode>, i: usize, b: usize, id: u32)
    requires
        i < old(nodes)@.len(),
        b < old(nodes)@[i as int].data@.len(),
    ensures
        final(nodes)@.len() == old(nodes)@.len(),
        forall|j: int|
            0 <= j < old(nodes)@.len() && j != i ==> final(nodes)@[j] == old(nodes)@[j],
        final(nodes)@[i as int].dim_index == old(nodes)@[i as int].dim_index,
        final(nodes)@[i as int].implicit == old(nodes)@[i as int].implicit,
        final(nodes)@[i as int].lazy_children == old(nodes)@[i as int].lazy_children,
        final(nodes)@[i as int].data@.len() == old(nodes)@[i as int].data@.len(),
        forall|t: int|
            0 <= t < old(nodes)@[i as int].data@.len() && t != b ==> final(nodes)@[i as int].data@[t] == old(nodes)@[i as int].data@[t],
        final(nodes)@[i as int].data@[b as int]@ =~= old(nodes)@[i as int].data@[b as int]@.push(id),
{
    let node = &mut nodes[i];
    let list = &mut node.data[b];
    list.push(id);
}

/// Node extension is reflexive.
pub proof fn lemma_node_leq_refl(a: InvertedIndexNewDSNode)
    ensures
        node_leq(a, a),
{
    assert forall|i: int| 0 <= i < a.data@.len() implies (#[trigger] a.data@[i])@.is_prefix_of(
        a.data@[i]@,
    ) by {
        assert(a.data@[i]@.take(a.data@[i]@.len() as int) =~= a.data@[i]@);
    }
}

/// Arena extension is reflexive.
pub proof fn lemma_index_leq_refl(x: Seq<InvertedIndexNewDSNode>)
    ensures
        index_leq(x, x),
{
    assert forall|i: int| 0 <= i < x.len() implies node_leq(#[trigger] x[i], #[trigger] x[i]) by {
        lemma_node_leq_refl(x[i]);
    }
}

/// A path's dimension step is never negative.
pub proof fn lemma_path_sum_nonneg(p: Seq<usize>)
    ensures
        path_sum(p) >= 0,
    decreases p.len(),
{
    if p.len() > 0 {
        lemma_path_sum_nonneg(p.skip(1));
    }
}

/// The table of powers of 4, as executable code.
pub fn power_of_4(i: usize) -> (r: u32)
    requires
        i <= 7,
    ensures
        r == pow4(i as int),
{
    if i == 0 {
        1
    } else if i == 1 {
        4
    } else if i == 2 {
        16
    } else if i == 3 {
        64
    } else if i == 4 {
        256
    } else if i == 5 {
        1024
    } else if i == 6 {
        4096
    } else {
        16384
    }
}

} // verus!
