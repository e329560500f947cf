//! The on-disk layout of a graph node.
//!
//! A record holds the level, the payload's prop-file location, an
//! indicator byte for the presence of parent and child, the parent
//! and child pointers (offset and version each), the offset of the
//! neighbors section, and the neighbors as `(offset, version, score)`
//! entries behind a count.  Every pointer is resolved before the
//! record is written, so one pass lays the record down; reading
//! follows the neighbors pointer just as the writer laid it.

use vstd::prelude::*;

use crate::buffer::BufferManager;
use crate::buffer::SeekPos;
use crate::buffer::store_write;
use crate::bytes::spec_u32_from_le;
use crate::bytes::spec_u32_to_le;
use crate::bytes::spec_u64_to_le;
use crate::bytes::u32_to_le_bytes;
use crate::bytes::u64_to_le_bytes;
use crate::bytes::lemma_u32_le_round_trip;
use crate::bytes::lemma_u32_le_injective;
use crate::collection::push_bytes;
use crate::common::WaCustomError;

verus! {

/// A node as it stands on disk: the level, the payload location, the
/// parent and child pointers, and the neighbor entries.
#[derive(Debug)]
pub struct NodeRecord {
    pub hnsw_level: u8,
    pub prop_offset: u32,
    pub prop_length: u32,
    pub parent: Option<(u32, u32)>,
    pub child: Option<(u32, u32)>,
    pub neighbors_offset: u32,
    pub neighbors: Vec<(u32, u32, u64)>,
}

/// The encoding of an optional pointer: nothing, or offset then
/// version.
pub open spec fn spec_enc_ptr(p: Option<(u32, u32)>) -> Seq<u8> {
    match p {
        Option::None => Seq::empty(),
        Option::Some((off, ver)) => spec_u32_to_le(off) + spec_u32_to_le(ver),
    }
}

/// The indicator byte: bit 0 for a present parent, bit 1 for a
/// present child.
pub open spec fn spec_indicator(parent: Option<(u32, u32)>, child: Option<(u32, u32)>) -> u8 {
    if parent is Some && child is Some {
        3u8
    } else if parent is Some {
        1u8
    } else if child is Some {
        2u8
    } else {
        0u8
    }
}

/// The record header: level, payload location, indicator, pointers,
/// and the neighbors-section offset.
pub open spec fn spec_enc_header(r: NodeRecord) -> Seq<u8> {
    seq![r.hnsw_level] + spec_u32_to_le(r.prop_offset) + spec_u32_to_le(r.prop_length) + seq![
        spec_indicator(r.parent, r.child),
    ] + spec_enc_ptr(r.parent) + spec_enc_ptr(r.child) + spec_u32_to_le(r.neighbors_offset)
}

/// The encoding of the neighbor entries.
pub open spec fn spec_enc_nbrs(s: Seq<(u32, u32, u64)>) -> Seq<u8>
    decreases s.len(),
{
    if s.len() == 0 {
        Seq::empty()
    } else {
        spec_u32_to_le(s[0].0) + spec_u32_to_le(s[0].1) + spec_u64_to_le(s[0].2) + spec_enc_nbrs(
            s.skip(1),
        )
    }
}

/// The whole record: the header, then the neighbor count and entries.
pub open spec fn spec_enc_node(r: NodeRecord) -> Seq<u8> {
    spec_enc_header(r) + spec_u32_to_le(r.neighbors@.len() as u32) + spec_enc_nbrs(r.neighbors@)
}

/// How many bytes a record's encoding occupies: the header, the
/// count, and 16 bytes per neighbor.
pub open spec fn spec_enc_node_len(r: NodeRecord) -> int {
    spec_enc_header(r).len() as int + 4 + 16 * (r.neighbors@.len() as int)
}

/// Neighbor entries occupy 16 bytes each.
pub proof fn lemma_enc_nbrs_len(s: Seq<(u32, u32, u64)>)
    ensures
        spec_enc_nbrs(s).len() == 16 * s.len(),
    decreases s.len(),
{
    if s.len() > 0 {
        lemma_enc_nbrs_len(s.skip(1));
    }
}

/// A record's encoding is never shorter than a bare header and count.
pub proof fn lemma_enc_node_min_len(rec: NodeRecord)
    ensures
        spec_enc_node(rec).len() == spec_enc_node_len(rec),
        spec_enc_node_len(rec) >= 18,
        spec_enc_header(rec).len() >= 14,
{
    lemma_enc_nbrs_len(rec.neighbors@);
    match rec.parent {
        Option::Some(_) => {},
        Option::None => {},
    }
    match rec.child {
        Option::Some(_) => {},
        Option::None => {},
    }
}

/// Where a record starts: at the named position, or at the file's
/// end.
pub open spec fn spec_start_of(at: Option<u32>, len: int) -> int {
    match at {
        Option::Some(p) => p as int,
        Option::None => len,
    }
}

/// The record is coherent: the neighbor list fits its count and the
/// neighbors pointer names the byte right after the header.
pub open spec fn record_wf(r: NodeRecord, offset: int) -> bool {
    &&& r.neighbors@.len() <= u32::MAX
    &&& r.neighbors_offset == offset + spec_enc_header(r).len()
}

/// Extending the encoded prefix by one entry appends its 16 bytes.
proof fn lemma_enc_nbrs_snoc(s: Seq<(u32, u32, u64)>, k: int)
    requires
        0 <= k < s.len(),
    ensures
        spec_enc_nbrs(s.take(k + 1)) =~= spec_enc_nbrs(s.take(k)) + (spec_u32_to_le(s[k].0)
            + spec_u32_to_le(s[k].1) + spec_u64_to_le(s[k].2)),
    decreases k,
{
    if k == 0 {
        assert(s.take(1)[0] == s[0]);
        assert(s.take(1).skip(1) =~= Seq::<(u32, u32, u64)>::empty());
        assert(s.take(0) =~= Seq::<(u32, u32, u64)>::empty());
    } else {
        lemma_enc_nbrs_snoc(s.skip(1), k - 1);
        assert(s.take(k + 1)[0] == s[0]);
        assert(s.take(k + 1).skip(1) =~= s.skip(1).take(k));
        assert(s.take(k).skip(1) =~= s.skip(1).take(k - 1));
        assert(s.take(k)[0] == s[0]);
        assert(s.skip(1)[k - 1] == s[k]);
    }
}

/// Builds the byte encoding of a record from its fields.
#[verifier::loop_isolation(false)]
pub fn encode_node_record(
    hnsw_level: u8,
    prop_offset: u32,
    prop_length: u32,
    parent: &Option<(u32, u32)>,
    child: &Option<(u32, u32)>,
    neighbors_offset: u32,
    neighbors: &Vec<(u32, u32, u64)>,
) -> (out: Vec<u8>)
    requires
        neighbors@.len() <= u32::MAX,
    ensures
        out@ =~= spec_enc_node(
            NodeRecord {
                hnsw_level,
                prop_offset,
                prop_length,
                parent: *parent,
                child: *child,
                neighbors_offset,
                neighbors: *neighbors,
            },
        ),
{
    let ghost rec = NodeRecord {
        hnsw_level,
        prop_offset,
        prop_length,
        parent: *parent,
        child: *child,
        neighbors_offset,
        neighbors: *neighbors,
    };
    let mut out: Vec<u8> = Vec::new();
    out.push(hnsw_level);
    let po = u32_to_le_bytes(prop_offset);
    push_bytes(&mut out, &po);
    let pl = u32_to_le_bytes(prop_length);
    push_bytes(&mut out, &pl);
    let mut indicator: u8 = 0;
    if parent.is_some() {
        indicator = indicator | 1;
    }
    if child.is_some() {
        indicator = indicator | 2;
    }
    proof {
        assert(0u8 | 1 == 1u8 && 0u8 | 2 == 2u8 && 1u8 | 2 == 3u8) by (bit_vector);
        assert(indicator == spec_indicator(rec.parent, rec.child));
    }
    out.push(indicator);
    match parent {
        Option::Some((off, ver)) => {
            let o = u32_to_le_bytes(*off);
            push_bytes(&mut out, &o);
            let v = u32_to_le_bytes(*ver);
            push_bytes(&mut out, &v);
        },
        Option::None => {},
    }
    match child {
        Option::Some((off, ver)) => {
            let o = u32_to_le_bytes(*off);
            push_bytes(&mut out, &o);
            let v = u32_to_le_bytes(*ver);
            push_bytes(&mut out, &v);
        },
        Option::None => {},
    }
    let no = u32_to_le_bytes(neighbors_offset);
    push_bytes(&mut out, &no);
    proof {
        assert(out@ =~= spec_enc_header(rec));
    }
    let cnt = u32_to_le_bytes(neighbors.len() as u32);
    push_bytes(&mut out, &cnt);
    let ghost head = out@;
    let mut k: usize = 0;
    while k < neighbors.len()
        invariant
            k <= neighbors@.len(),
            out@ =~= head + spec_enc_nbrs(neighbors@.take(k as int)),
        decreases neighbors@.len() - k,
    {
        let (off, ver, score) = neighbors[k];
        let o = u32_to_le_bytes(off);
        push_bytes(&mut out, &o);
        let v = u32_to_le_bytes(ver);
        push_bytes(&mut out, &v);
        let sc = u64_to_le_bytes(score);
        push_bytes(&mut out, &sc);
        proof {
            lemma_enc_nbrs_snoc(neighbors@, k as int);
            assert(out@ =~= head + spec_enc_nbrs(neighbors@.take(k as int + 1)));
        }
        k = k + 1;
    }
    proof {
        assert(neighbors@.take(neighbors@.len() as int) =~= neighbors@);
        assert(out@ =~= spec_enc_node(rec));
    }
    out
}

/// Serializes a record at the given position of the index file (or at
/// its end), returning the record's start offset.  The neighbors
/// pointer is fixed up to name the byte after the header before
/// anything is written.
pub fn serialize_node(bufman: &mut BufferManager, at: Option<u32>, record: &NodeRecord) -> (r:
    Result<u32, WaCustomError>)
    requires
        record.neighbors@.len() <= u32::MAX,
    ensures
        (r is Ok) == (spec_start_of(at, old(bufman)@.len() as int) + spec_enc_node_len(*record)
            <= u32::MAX),
        r matches Ok(start) ==> {
            let fixed = NodeRecord {
                neighbors_offset: (start + spec_enc_header(*record).len()) as u32,
                neighbors: record.neighbors,
                ..*record
            };
            &&& start == spec_start_of(at, old(bufman)@.len() as int)
            &&& final(bufman)@ =~= store_write(old(bufman)@, start as int, spec_enc_node(fixed))
            &&& record_wf(fixed, start as int)
        },
        r is Err ==> final(bufman)@ == old(bufman)@,
{
    let header_len: usize = 1 + 4 + 4 + 1 + (if bool_of_opt(&record.parent) {
        8
    } else {
        0
    }) + (if bool_of_opt(&record.child) {
        8
    } else {
        0
    }) + 4;
    proof {
        crate::bytes::lemma_u32_le_round_trip(0);
        assert(spec_enc_header(*record).len() == header_len) by {
            assert(spec_u32_to_le(record.prop_offset).len() == 4);
        }
        lemma_enc_nbrs_len(record.neighbors@);
    }
    let start = match at {
        Option::Some(p) => p as usize,
        Option::None => {
            let l = bufman.len();
            if l > 0xffff_ffffusize {
                return Err(WaCustomError::FsError(String::from_str("index file too large")));
            }
            l
        },
    };
    let total: u64 = (header_len as u64) + 4 + 16 * (record.neighbors.len() as u64);
    if (start as u64) + total > 0xffff_ffffu64 {
        return Err(WaCustomError::FsError(String::from_str("index file too large")));
    }
    let ghost fixed = NodeRecord {
        neighbors_offset: (start + spec_enc_header(*record).len()) as u32,
        neighbors: record.neighbors,
        ..*record
    };
    let bytes = encode_node_record(
        record.hnsw_level,
        record.prop_offset,
        record.prop_length,
        &record.parent,
        &record.child,
        (start + header_len) as u32,
        &record.neighbors,
    );
    proof {
        assert(spec_enc_header(fixed).len() == spec_enc_header(*record).len());
        assert(bytes@ =~= spec_enc_node(fixed));
        assert(bytes@.len() == spec_enc_node_len(*record)) by {
            lemma_enc_nbrs_len(record.neighbors@);
        }
    }
    let cursor = bufman.open_cursor();
    let ghost pre = bufman@;
    match bufman.seek_with_cursor(cursor, SeekPos::Start(start)) {
        Ok(_) => {},
        Err(_) => {
            proof {
                assert(false);
            }
            return Err(WaCustomError::FsError(String::from_str("seek failed")));
        },
    }
    let _ = bufman.write_with_cursor(cursor, &bytes);
    let _ = bufman.close_cursor(cursor);
    proof {
        assert(bufman@ =~= store_write(pre, start as int, spec_enc_node(fixed)));
    }
    Ok(start as u32)
}

/// Whether an optional pointer is present.
fn bool_of_opt(p: &Option<(u32, u32)>) -> (r: bool)
    ensures
        r == (p is Some),
{
    p.is_some()
}

/// A complete record encoding sits at `offset` of the image.
pub open spec fn spec_node_record_at(data: Seq<u8>, offset: int) -> bool {
    exists|rec2: NodeRecord|
        record_wf(rec2, offset) && offset + spec_enc_node(rec2).len() <= data.len() && (
        #[trigger] spec_enc_node(rec2)) == data.subrange(
            offset,
            offset + spec_enc_node(rec2).len(),
        )
}

/// Where each header field of a record sits, relative to the record's
/// start: the positional reading of the encoded bytes.
pub open spec fn header_fields_at(data: Seq<u8>, offset: int, rec: NodeRecord) -> bool {
    let pbase = offset + 10;
    let cbase = pbase + (if rec.parent is Some { 8int } else { 0int });
    let nbase = cbase + (if rec.child is Some { 8int } else { 0int });
    &&& nbase + 4 <= data.len()
    &&& rec.hnsw_level == data[offset]
    &&& rec.prop_offset == spec_u32_from_le(data.subrange(offset + 1, offset + 5))
    &&& rec.prop_length == spec_u32_from_le(data.subrange(offset + 5, offset + 9))
    &&& data[offset + 9] == spec_indicator(rec.parent, rec.child)
    &&& (rec.parent matches Some((o, v)) ==> o == spec_u32_from_le(
        data.subrange(pbase, pbase + 4),
    ) && v == spec_u32_from_le(data.subrange(pbase + 4, pbase + 8)))
    &&& (rec.child matches Some((o, v)) ==> o == spec_u32_from_le(
        data.subrange(cbase, cbase + 4),
    ) && v == spec_u32_from_le(data.subrange(cbase + 4, cbase + 8)))
    &&& rec.neighbors_offset == spec_u32_from_le(data.subrange(nbase, nbase + 4))
    &&& rec.neighbors_offset == nbase + 4
}

/// Where the neighbor section of a record sits: the count, then 16
/// bytes per entry, each read positionally from the record's bytes.
pub open spec fn neighbor_fields_at(data: Seq<u8>, offset: int, rec: NodeRecord) -> bool {
    let pbase = offset + 10;
    let cbase = pbase + (if rec.parent is Some {
        8int
    } else {
        0int
    });
    let nbase = cbase + (if rec.child is Some {
        8int
    } else {
        0int
    });
    &&& nbase + 8 + 16 * rec.neighbors@.len() <= data.len()
    &&& rec.neighbors@.len() == spec_u32_from_le(data.subrange(nbase + 4, nbase + 8))
    &&& forall|k: int|
        0 <= k < rec.neighbors@.len() ==> ((#[trigger] rec.neighbors@[k]).0 == spec_u32_from_le(
            data.subrange(nbase + 8 + 16 * k, nbase + 8 + 16 * k + 4),
        ) && rec.neighbors@[k].1 == spec_u32_from_le(
            data.subrange(nbase + 8 + 16 * k + 4, nbase + 8 + 16 * k + 8),
        ) && rec.neighbors@[k].2 == crate::bytes::spec_u64_from_le(
            data.subrange(nbase + 8 + 16 * k + 8, nbase + 8 + 16 * k + 16),
        ))
}

/// A serialized record's header bytes read back field by field: the
/// positional reading of `spec_enc_node` laid down at `offset`.
pub proof fn lemma_enc_node_positions(data: Seq<u8>, offset: int, rec: NodeRecord)
    requires
        record_wf(rec, offset),
        0 <= offset,
        offset + spec_enc_node(rec).len() <= data.len(),
        data.subrange(offset, offset + spec_enc_node(rec).len()) == spec_enc_node(rec),
    ensures
        header_fields_at(data, offset, rec),
        ({
            let nbase = offset + spec_enc_header(rec).len() - 4;
            &&& data.subrange(nbase + 4, nbase + 8) =~= spec_u32_to_le(
                rec.neighbors@.len() as u32,
            )
            &&& offset + spec_enc_node_len(rec) <= data.len()
            &&& spec_enc_node(rec).len() == spec_enc_node_len(rec)
        }),
{
    lemma_enc_nbrs_len(rec.neighbors@);
    let e = spec_enc_node(rec);
    let h = spec_enc_header(rec);
    let s1 = spec_u32_to_le(rec.prop_offset);
    let s2 = spec_u32_to_le(rec.prop_length);
    let s4 = spec_enc_ptr(rec.parent);
    let s5 = spec_enc_ptr(rec.child);
    let s6 = spec_u32_to_le(rec.neighbors_offset);
    let plen: int = if rec.parent is Some {
        8
    } else {
        0
    };
    let clen: int = if rec.child is Some {
        8
    } else {
        0
    };
    assert(s4.len() == plen && s5.len() == clen) by {
        match rec.parent {
            Option::Some((o, v)) => {},
            Option::None => {},
        }
        match rec.child {
            Option::Some((o, v)) => {},
            Option::None => {},
        }
    }
    let pbase = offset + 10;
    let cbase = pbase + plen;
    let nbase = cbase + clen;
    assert(h.len() == nbase + 4 - offset);
    assert forall|i: int| 0 <= i < e.len() implies data[offset + i] == e[i] by {
        assert(data.subrange(offset, offset + e.len())[i] == data[offset + i]);
    }
    assert(data[offset] == e[0] && e[0] == rec.hnsw_level);
    assert(data[offset + 9] == e[9] && e[9] == spec_indicator(rec.parent, rec.child));
    lemma_u32_le_round_trip(rec.prop_offset);
    lemma_u32_le_round_trip(rec.prop_length);
    lemma_u32_le_round_trip(rec.neighbors_offset);
    assert(data.subrange(offset + 1, offset + 5) =~= s1) by {
        assert forall|i: int| 0 <= i < 4 implies data.subrange(offset + 1, offset + 5)[i]
            == s1[i] by {
            assert(data[offset + 1 + i] == e[1 + i]);
            assert(e[1 + i] == s1[i]);
        }
    }
    assert(data.subrange(offset + 5, offset + 9) =~= s2) by {
        assert forall|i: int| 0 <= i < 4 implies data.subrange(offset + 5, offset + 9)[i]
            == s2[i] by {
            assert(data[offset + 5 + i] == e[5 + i]);
            assert(e[5 + i] == s2[i]);
        }
    }
    match rec.parent {
        Option::Some((o, v)) => {
            lemma_u32_le_round_trip(o);
            lemma_u32_le_round_trip(v);
            assert(data.subrange(pbase, pbase + 4) =~= spec_u32_to_le(o)) by {
                assert forall|i: int| 0 <= i < 4 implies data.subrange(pbase, pbase + 4)[i]
                    == spec_u32_to_le(o)[i] by {
                    assert(data[pbase + i] == e[10 + i]);
                    assert(e[10 + i] == s4[i]);
                    assert(s4[i] == spec_u32_to_le(o)[i]);
                }
            }
            assert(data.subrange(pbase + 4, pbase + 8) =~= spec_u32_to_le(v)) by {
                assert forall|i: int| 0 <= i < 4 implies data.subrange(pbase + 4, pbase + 8)[i]
                    == spec_u32_to_le(v)[i] by {
                    assert(data[pbase + 4 + i] == e[14 + i]);
                    assert(e[14 + i] == s4[4 + i]);
                    assert(s4[4 + i] == spec_u32_to_le(v)[i]);
                }
            }
        },
        Option::None => {},
    }
    match rec.child {
        Option::Some((o, v)) => {
            lemma_u32_le_round_trip(o);
            lemma_u32_le_round_trip(v);
            assert(data.subrange(cbase, cbase + 4) =~= spec_u32_to_le(o)) by {
                assert forall|i: int| 0 <= i < 4 implies data.subrange(cbase, cbase + 4)[i]
                    == spec_u32_to_le(o)[i] by {
                    assert(data[cbase + i] == e[10 + plen + i]);
                    assert(e[10 + plen + i] == s5[i]);
                    assert(s5[i] == spec_u32_to_le(o)[i]);
                }
            }
            assert(data.subrange(cbase + 4, cbase + 8) =~= spec_u32_to_le(v)) by {
                assert forall|i: int| 0 <= i < 4 implies data.subrange(cbase + 4, cbase + 8)[i]
                    == spec_u32_to_le(v)[i] by {
                    assert(data[cbase + 4 + i] == e[10 + plen + 4 + i]);
                    assert(e[10 + plen + 4 + i] == s5[4 + i]);
                    assert(s5[4 + i] == spec_u32_to_le(v)[i]);
                }
            }
        },
        Option::None => {},
    }
    assert(data.subrange(nbase, nbase + 4) =~= s6) by {
        assert forall|i: int| 0 <= i < 4 implies data.subrange(nbase, nbase + 4)[i] == s6[i] by {
            assert(data[nbase + i] == e[10 + plen + clen + i]);
            assert(e[10 + plen + clen + i] == s6[i]);
        }
    }
    let cl = spec_u32_to_le(rec.neighbors@.len() as u32);
    assert(data.subrange(nbase + 4, nbase + 8) =~= cl) by {
        assert forall|i: int| 0 <= i < 4 implies data.subrange(nbase + 4, nbase + 8)[i]
            == cl[i] by {
            assert(data[nbase + 4 + i] == e[h.len() + i]);
            assert(e[h.len() + i] == cl[i]);
        }
    }
}

/// Reads the record at `offset` back from the index file: the header
/// fields are exactly the bytes at their positions, and the neighbor
/// entries are read from the section the header points at.
#[verifier::loop_isolation(false)]
#[verifier::rlimit(100)]
pub fn deserialize_node(bufman: &mut BufferManager, offset: u32) -> (r: Result<
    NodeRecord,
    WaCustomError,
>)
    ensures
        final(bufman)@ == old(bufman)@,
        r matches Ok(rec) ==> header_fields_at(old(bufman)@, offset as int, rec)
            && neighbor_fields_at(old(bufman)@, offset as int, rec),
        spec_node_record_at(old(bufman)@, offset as int) ==> r is Ok,
{
    let cursor = bufman.open_cursor();
    let res = deserialize_node_at(bufman, cursor, offset);
    let _ = bufman.close_cursor(cursor);
    res
}

/// Reads `count` 16-byte neighbor entries from the cursor, which
/// stands at the start of the entries.  Each entry is read back
/// positionally; too short an image is the end-of-file error.
#[verifier::loop_isolation(false)]
#[verifier::rlimit(100)]
fn read_neighbor_entries(
    bufman: &mut BufferManager,
    cursor: usize,
    count: u32,
    Ghost(nbase): Ghost<int>,
) -> (r: Result<Vec<(u32, u32, u64)>, WaCustomError>)
    requires
        old(bufman).cursor_ok(cursor),
        old(bufman).cursor_at(cursor) == nbase + 8,
        0 <= nbase,
        nbase + 8 <= old(bufman)@.len(),
        old(bufman)@.len() <= usize::MAX,
    ensures
        final(bufman)@ == old(bufman)@,
        final(bufman).cursor_ok(cursor),
        (r is Ok) == (nbase + 8 + 16 * count <= old(bufman)@.len()),
        r matches Ok(v) ==> v@.len() == count && (forall|j: int|
            0 <= j < count ==> ((#[trigger] v@[j]).0 == spec_u32_from_le(
                old(bufman)@.subrange(nbase + 8 + 16 * j, nbase + 8 + 16 * j + 4),
            ) && v@[j].1 == spec_u32_from_le(
                old(bufman)@.subrange(nbase + 8 + 16 * j + 4, nbase + 8 + 16 * j + 8),
            ) && v@[j].2 == crate::bytes::spec_u64_from_le(
                old(bufman)@.subrange(nbase + 8 + 16 * j + 8, nbase + 8 + 16 * j + 16),
            ))),
{
    let ghost data = old(bufman)@;
    let mut neighbors: Vec<(u32, u32, u64)> = Vec::new();
    let mut k: u32 = 0;
    while k < count
        invariant
            k <= count,
            neighbors@.len() == k,
            bufman@ == data,
            bufman.cursor_ok(cursor),
            bufman.cursor_at(cursor) == nbase + 8 + 16 * k,
            nbase + 8 + 16 * k <= data.len(),
            forall|j: int|
                0 <= j < k ==> ((#[trigger] neighbors@[j]).0 == spec_u32_from_le(
                    data.subrange(nbase + 8 + 16 * j, nbase + 8 + 16 * j + 4),
                ) && neighbors@[j].1 == spec_u32_from_le(
                    data.subrange(nbase + 8 + 16 * j + 4, nbase + 8 + 16 * j + 8),
                ) && neighbors@[j].2 == crate::bytes::spec_u64_from_le(
                    data.subrange(nbase + 8 + 16 * j + 8, nbase + 8 + 16 * j + 16),
                )),
        decreases count - k,
    {
        let entry = match bufman.read_with_cursor(cursor, 16) {
            Ok(b) => b,
            Err(_) => {
                return Err(
                    WaCustomError::DeserializationError(
                        String::from_str("node record truncated"),
                    ),
                );
            },
        };
        let o = crate::bytes::u32_from_le_bytes(entry[0], entry[1], entry[2], entry[3]);
        let v = crate::bytes::u32_from_le_bytes(entry[4], entry[5], entry[6], entry[7]);
        let sc = (entry[8] as u64) | ((entry[9] as u64) << 8) | ((entry[10] as u64) << 16) | ((
        entry[11] as u64) << 24) | ((entry[12] as u64) << 32) | ((entry[13] as u64) << 40) | ((
        entry[14] as u64) << 48) | ((entry[15] as u64) << 56);
        proof {
            let pos = nbase + 8 + 16 * (k as int);
            assert(entry@ =~= data.subrange(pos, pos + 16));
            assert(seq![entry@[0], entry@[1], entry@[2], entry@[3]] =~= data.subrange(
                pos,
                pos + 4,
            ));
            assert(seq![entry@[4], entry@[5], entry@[6], entry@[7]] =~= data.subrange(
                pos + 4,
                pos + 8,
            ));
            assert(seq![
                entry@[8],
                entry@[9],
                entry@[10],
                entry@[11],
                entry@[12],
                entry@[13],
                entry@[14],
                entry@[15],
            ] =~= data.subrange(pos + 8, pos + 16));
            assert(sc == crate::bytes::spec_u64_from_le(data.subrange(pos + 8, pos + 16)));
        }
        neighbors.push((o, v, sc));
        k = k + 1;
    }
    Ok(neighbors)
}

/// The body of `deserialize_node`, on an open cursor.
#[verifier::loop_isolation(false)]
#[verifier::rlimit(100)]
fn deserialize_node_at(bufman: &mut BufferManager, cursor: usize, offset: u32) -> (r: Result<
    NodeRecord,
    WaCustomError,
>)
    requires
        old(bufman).cursor_ok(cursor),
    ensures
        final(bufman)@ == old(bufman)@,
        final(bufman).cursor_ok(cursor),
        r matches Ok(rec) ==> header_fields_at(old(bufman)@, offset as int, rec)
            && neighbor_fields_at(old(bufman)@, offset as int, rec),
        spec_node_record_at(old(bufman)@, offset as int) ==> r is Ok,
{
    let ghost data = old(bufman)@;
    let total_len = bufman.len();
    proof {
        assert(data.len() == total_len);
    }
    match bufman.seek_with_cursor(cursor, SeekPos::Start(offset as usize)) {
        Ok(_) => {},
        Err(_) => {
            proof {
                assert(false);
            }
            return Err(
                WaCustomError::DeserializationError(String::from_str("node record truncated")),
            );
        },
    }
    let head = match bufman.read_with_cursor(cursor, 10) {
        Ok(v) => v,
        Err(_) => {
            proof {
                assert(!spec_node_record_at(data, offset as int)) by {
                    if spec_node_record_at(data, offset as int) {
                        let rec2 = choose|rec2: NodeRecord|
                            record_wf(rec2, offset as int) && offset + spec_enc_node(rec2).len()
                                <= data.len() && (#[trigger] spec_enc_node(rec2)) == data.subrange(
                                offset as int,
                                offset + spec_enc_node(rec2).len(),
                            );
                        lemma_enc_node_positions(data, offset as int, rec2);
                        lemma_enc_node_min_len(rec2);
                    }
                }
            }
            return Err(
                WaCustomError::DeserializationError(String::from_str("node record truncated")),
            );
        },
    };
    let hnsw_level = head[0];
    let prop_offset = crate::bytes::u32_from_le_bytes(head[1], head[2], head[3], head[4]);
    let prop_length = crate::bytes::u32_from_le_bytes(head[5], head[6], head[7], head[8]);
    let indicator = head[9];
    proof {
        assert(head@ =~= data.subrange(offset as int, offset + 10));
        assert(seq![head@[1], head@[2], head@[3], head@[4]] =~= data.subrange(
            offset + 1,
            offset + 5,
        ));
        assert(seq![head@[5], head@[6], head@[7], head@[8]] =~= data.subrange(
            offset + 5,
            offset + 9,
        ));
        assert(indicator == data[offset + 9]);
    }
    if indicator > 3 {
        proof {
            assert(!spec_node_record_at(data, offset as int)) by {
                if spec_node_record_at(data, offset as int) {
                    let rec2 = choose|rec2: NodeRecord|
                        record_wf(rec2, offset as int) && offset + spec_enc_node(rec2).len()
                            <= data.len() && (#[trigger] spec_enc_node(rec2)) == data.subrange(
                            offset as int,
                            offset + spec_enc_node(rec2).len(),
                        );
                    lemma_enc_node_positions(data, offset as int, rec2);
                }
            }
        }
        return Err(
            WaCustomError::DeserializationError(String::from_str("unknown indicator bits")),
        );
    }
    proof {
        assert((indicator & 1 == 1 ==> indicator == 1 || indicator == 3) && (indicator & 1 != 1
            ==> indicator == 0 || indicator == 2) && (indicator & 2 == 2 ==> indicator == 2
            || indicator == 3) && (indicator & 2 != 2 ==> indicator == 0 || indicator == 1))
            by (bit_vector)
            requires
                indicator <= 3,
        ;
    }
    let ghost pbase = offset + 10;
    let parent: Option<(u32, u32)> = if indicator & 1 == 1 {
        let pb = match bufman.read_with_cursor(cursor, 8) {
            Ok(v) => v,
            Err(_) => {
                proof {
                    lemma_candidate_fits(data, offset as int, indicator);
                }
                return Err(
                    WaCustomError::DeserializationError(
                        String::from_str("node record truncated"),
                    ),
                );
            },
        };
        let o = crate::bytes::u32_from_le_bytes(pb[0], pb[1], pb[2], pb[3]);
        let v = crate::bytes::u32_from_le_bytes(pb[4], pb[5], pb[6], pb[7]);
        proof {
            assert(pb@ =~= data.subrange(pbase, pbase + 8));
            assert(seq![pb@[0], pb@[1], pb@[2], pb@[3]] =~= data.subrange(pbase, pbase + 4));
            assert(seq![pb@[4], pb@[5], pb@[6], pb@[7]] =~= data.subrange(pbase + 4, pbase + 8));
        }
        Some((o, v))
    } else {
        None
    };
    let ghost plen: int = if parent is Some {
        8
    } else {
        0
    };
    let ghost cbase = pbase + plen;
    let child: Option<(u32, u32)> = if indicator & 2 == 2 {
        let cb = match bufman.read_with_cursor(cursor, 8) {
            Ok(v) => v,
            Err(_) => {
                proof {
                    lemma_candidate_fits(data, offset as int, indicator);
                }
                return Err(
                    WaCustomError::DeserializationError(
                        String::from_str("node record truncated"),
                    ),
                );
            },
        };
        let o = crate::bytes::u32_from_le_bytes(cb[0], cb[1], cb[2], cb[3]);
        let v = crate::bytes::u32_from_le_bytes(cb[4], cb[5], cb[6], cb[7]);
        proof {
            assert(cb@ =~= data.subrange(cbase, cbase + 8));
            assert(seq![cb@[0], cb@[1], cb@[2], cb@[3]] =~= data.subrange(cbase, cbase + 4));
            assert(seq![cb@[4], cb@[5], cb@[6], cb@[7]] =~= data.subrange(cbase + 4, cbase + 8));
        }
        Some((o, v))
    } else {
        None
    };
    let ghost clen: int = if child is Some {
        8
    } else {
        0
    };
    let ghost nbase = cbase + clen;
    let nb = match bufman.read_with_cursor(cursor, 4) {
        Ok(v) => v,
        Err(_) => {
            proof {
                lemma_candidate_fits(data, offset as int, indicator);
            }
            return Err(
                WaCustomError::DeserializationError(String::from_str("node record truncated")),
            );
        },
    };
    let neighbors_offset = crate::bytes::u32_from_le_bytes(nb[0], nb[1], nb[2], nb[3]);
    proof {
        assert(nb@ =~= data.subrange(nbase, nbase + 4));
        assert(seq![nb@[0], nb@[1], nb@[2], nb@[3]] =~= data.subrange(nbase, nbase + 4));
    }
    let pos_after_header = match bufman.cursor_position(cursor) {
        Ok(p) => p,
        Err(_) => {
            proof {
                assert(false);
            }
            return Err(
                WaCustomError::DeserializationError(String::from_str("node record truncated")),
            );
        },
    };
    if (neighbors_offset as usize) != pos_after_header {
        proof {
            assert(!spec_node_record_at(data, offset as int)) by {
                if spec_node_record_at(data, offset as int) {
                    let rec2 = choose|rec2: NodeRecord|
                        record_wf(rec2, offset as int) && offset + spec_enc_node(rec2).len()
                            <= data.len() && (#[trigger] spec_enc_node(rec2)) == data.subrange(
                            offset as int,
                            offset + spec_enc_node(rec2).len(),
                        );
                    lemma_enc_node_positions(data, offset as int, rec2);
                    lemma_enc_node_min_len(rec2);
                    assert(spec_indicator(rec2.parent, rec2.child) == indicator);
                    assert((rec2.parent is Some) == (indicator & 1 == 1));
                    assert((rec2.child is Some) == (indicator & 2 == 2));
                    assert(spec_enc_header(rec2).len() == 14 + plen + clen);
                    crate::bytes::lemma_u32_le_round_trip(rec2.neighbors_offset);
                    assert(neighbors_offset == rec2.neighbors_offset);
                }
            }
        }
        return Err(
            WaCustomError::DeserializationError(
                String::from_str("neighbors section out of place"),
            ),
        );
    }
    let count = match bufman.read_u32_with_cursor(cursor) {
        Ok(v) => v,
        Err(_) => {
            proof {
                lemma_candidate_fits(data, offset as int, indicator);
            }
            return Err(
                WaCustomError::DeserializationError(String::from_str("node record truncated")),
            );
        },
    };
    proof {
        assert(data.subrange(nbase + 4, nbase + 8) == data.subrange(nbase + 4, nbase + 8));
    }
    let neighbors = match read_neighbor_entries(bufman, cursor, count, Ghost(nbase)) {
        Ok(v) => v,
        Err(_) => {
            proof {
                assert(!spec_node_record_at(data, offset as int)) by {
                    if spec_node_record_at(data, offset as int) {
                        let rec2 = choose|rec2: NodeRecord|
                            record_wf(rec2, offset as int) && offset + spec_enc_node(rec2).len()
                                <= data.len() && (#[trigger] spec_enc_node(rec2)) == data.subrange(
                                offset as int,
                                offset + spec_enc_node(rec2).len(),
                            );
                        lemma_enc_node_positions(data, offset as int, rec2);
                        lemma_enc_node_min_len(rec2);
                        assert(spec_indicator(rec2.parent, rec2.child) == indicator);
                        assert(spec_enc_header(rec2).len() == 14 + plen + clen);
                        crate::bytes::lemma_u32_le_round_trip(rec2.neighbors@.len() as u32);
                        assert(count == rec2.neighbors@.len()) by {
                            assert(data.subrange(nbase + 4, nbase + 8) =~= spec_u32_to_le(
                                rec2.neighbors@.len() as u32,
                            ));
                        }
                        assert(offset + spec_enc_node_len(rec2) == nbase + 8 + 16 * (
                        count as int));
                    }
                }
            }
            return Err(
                WaCustomError::DeserializationError(String::from_str("node record truncated")),
            );
        },
    };
    let rec = NodeRecord {
        hnsw_level,
        prop_offset,
        prop_length,
        parent,
        child,
        neighbors_offset,
        neighbors,
    };
    proof {
        assert(rec.parent is Some <==> indicator & 1 == 1);
        assert(rec.child is Some <==> indicator & 2 == 2);
        assert(indicator == spec_indicator(rec.parent, rec.child)) by {
            assert((indicator & 1 == 1 && indicator & 2 == 2 && indicator <= 3 ==> indicator == 3)
                && (indicator & 1 == 1 && !(indicator & 2 == 2) && indicator <= 3 ==> indicator
                == 1) && (!(indicator & 1 == 1) && indicator & 2 == 2 && indicator <= 3
                ==> indicator == 2) && (!(indicator & 1 == 1) && !(indicator & 2 == 2) && indicator
                <= 3 ==> indicator == 0)) by (bit_vector);
        }
        assert(header_fields_at(data, offset as int, rec));
        assert(neighbor_fields_at(data, offset as int, rec));
    }
    Ok(rec)
}

/// Whatever record encoding starts at `offset`, its header and count
/// lie within the image and its indicator matches the byte read.
proof fn lemma_candidate_fits(data: Seq<u8>, offset: int, indicator: u8)
    requires
        0 <= offset,
        offset + 10 <= data.len(),
        indicator == data[offset + 9],
        indicator <= 3,
    ensures
        spec_node_record_at(data, offset) ==> {
            let plen: int = if indicator & 1 == 1 {
                8
            } else {
                0
            };
            let clen: int = if indicator & 2 == 2 {
                8
            } else {
                0
            };
            offset + 10 + plen + clen + 8 <= data.len()
        },
{
    if spec_node_record_at(data, offset) {
        let rec2 = choose|rec2: NodeRecord|
            record_wf(rec2, offset) && offset + spec_enc_node(rec2).len() <= data.len() && (
            #[trigger] spec_enc_node(rec2)) == data.subrange(
                offset,
                offset + spec_enc_node(rec2).len(),
            );
        lemma_enc_node_positions(data, offset, rec2);
        lemma_enc_node_min_len(rec2);
        assert(spec_indicator(rec2.parent, rec2.child) == indicator);
        assert((rec2.parent is Some) == (indicator & 1 == 1)) by {
            assert((indicator & 1 == 1 ==> indicator == 1 || indicator == 3) && (indicator & 1 != 1
                ==> indicator == 0 || indicator == 2)) by (bit_vector)
                requires
                    indicator <= 3,
            ;
        }
        assert((rec2.child is Some) == (indicator & 2 == 2)) by {
            assert((indicator & 2 == 2 ==> indicator == 2 || indicator == 3) && (indicator & 2 != 2
                ==> indicator == 0 || indicator == 1)) by (bit_vector)
                requires
                    indicator <= 3,
            ;
        }
    }
}

/// The persisted child link survives the disk trip: when a record is
/// laid down at `offset` and read back, the reader sees the same
/// level, payload location and child pointer that were written.
pub proof fn lemma_node_record_round_trip(
    data: Seq<u8>,
    offset: int,
    written: NodeRecord,
    read: NodeRecord,
)
    requires
        record_wf(written, offset),
        0 <= offset,
        offset + spec_enc_node(written).len() <= data.len(),
        data.subrange(offset, offset + spec_enc_node(written).len()) == spec_enc_node(written),
        header_fields_at(data, offset, read),
    ensures
        read.hnsw_level == written.hnsw_level,
        read.prop_offset == written.prop_offset,
        read.prop_length == written.prop_length,
        read.parent == written.parent,
        read.child == written.child,
{
    lemma_enc_node_positions(data, offset, written);
    lemma_u32_le_injective(data.subrange(offset + 1, offset + 5));
    lemma_u32_le_injective(data.subrange(offset + 5, offset + 9));
    assert(data[offset + 9] == spec_indicator(written.parent, written.child));
    assert(data[offset + 9] == spec_indicator(read.parent, read.child));
    assert((written.parent is Some) == (read.parent is Some) && (written.child is Some) == (
    read.child is Some)) by {
        assert(spec_indicator(written.parent, written.child) == spec_indicator(
            read.parent,
            read.child,
        ));
    }
    let pbase = offset + 10;
    let cbase = pbase + (if written.parent is Some { 8int } else { 0int });
    match (written.parent, read.parent) {
        (Option::Some((o1, v1)), Option::Some((o2, v2))) => {
            assert(o1 == o2 && v1 == v2);
        },
        _ => {},
    }
    match (written.child, read.child) {
        (Option::Some((o1, v1)), Option::Some((o2, v2))) => {
            assert(o1 == o2 && v1 == v2);
        },
        _ => {},
    }
}

} // verus!
