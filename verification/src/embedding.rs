//! Raw embeddings and their append-only log.
//!
//! A raw embedding is written as one record `u32 len || body`, where
//! the body encodes the vector id and the raw values (32-bit value
//! patterns, little endian).  `EmbeddingOffset` names a record by the
//! version of the log file and the record's offset in it.

use vstd::prelude::*;
use vstd::string::StringSliceAdditionalSpecFns;

use crate::buffer::BufferManager;
use crate::buffer::SeekPos;
use crate::bytes::spec_u32_from_le;
use crate::bytes::spec_u32_to_le;
use crate::bytes::spec_u64_to_le;
use crate::bytes::lemma_u32_le_round_trip;
use crate::bytes::u32_to_le_bytes;
use crate::bytes::u64_to_le_bytes;
use crate::common::WaCustomError;
use crate::types::VectorId;
use crate::types::vid_eq;
use crate::versioning::CommitHash;

verus! {

/// A raw embedding: the vector id and the raw values as 32-bit value
/// patterns.
#[derive(Debug)]
pub struct RawVectorEmbedding {
    pub raw_vec: Vec<u32>,
    pub hash_vec: VectorId,
}

/// The little-endian concatenation of 32-bit values.
pub open spec fn spec_enc_u32s(s: Seq<u32>) -> Seq<u8>
    decreases s.len(),
{
    if s.len() == 0 {
        Seq::empty()
    } else {
        spec_u32_to_le(s[0]) + spec_enc_u32s(s.skip(1))
    }
}

/// The encoding of a vector id: a tag byte, then for integers the
/// 64-bit two's complement little endian, for strings the
/// length-prefixed UTF-8 bytes.
pub open spec fn spec_enc_vid(id: VectorId) -> Seq<u8> {
    match id {
        VectorId::Int(x) => seq![0u8] + spec_u64_to_le(x as u64),
        VectorId::Str(s) => seq![1u8] + spec_u32_to_le(
            vstd::utf8::encode_utf8(s@).len() as u32,
        ) + vstd::utf8::encode_utf8(s@),
    }
}

/// The record body of an embedding: the id, the value count, and the
/// values.
pub open spec fn spec_emb_body(e: RawVectorEmbedding) -> Seq<u8> {
    spec_enc_vid(e.hash_vec) + spec_u32_to_le(e.raw_vec@.len() as u32) + spec_enc_u32s(e.raw_vec@)
}

/// The embedding's strings and vector fit their length prefixes.
pub open spec fn emb_wf(e: RawVectorEmbedding) -> bool {
    &&& e.raw_vec@.len() <= u32::MAX
    &&& (e.hash_vec matches VectorId::Str(s) ==> vstd::utf8::encode_utf8(s@).len() <= u32::MAX)
}

/// Concatenated 32-bit values occupy four bytes each.
pub proof fn lemma_enc_u32s_len(s: Seq<u32>)
    ensures
        spec_enc_u32s(s).len() == 4 * s.len(),
    decreases s.len(),
{
    if s.len() > 0 {
        lemma_enc_u32s_len(s.skip(1));
    }
}

/// The value at slot `k` sits at byte `4 * k` of the concatenation.
pub proof fn lemma_enc_u32s_index(s: Seq<u32>, k: int)
    requires
        0 <= k < s.len(),
    ensures
        spec_enc_u32s(s).subrange(4 * k, 4 * k + 4) =~= spec_u32_to_le(s[k]),
    decreases k,
{
    lemma_enc_u32s_len(s);
    lemma_enc_u32s_len(s.skip(1));
    if k == 0 {
        assert(spec_enc_u32s(s).subrange(0, 4) =~= spec_u32_to_le(s[0]));
    } else {
        lemma_enc_u32s_index(s.skip(1), k - 1);
        assert(spec_enc_u32s(s).subrange(4 * k, 4 * k + 4) =~= spec_enc_u32s(s.skip(1)).subrange(
            4 * (k - 1),
            4 * (k - 1) + 4,
        ));
    }
}

/// Two embeddings with the same record body denote the same
/// embedding: the encoding is injective up to id equality.
pub proof fn lemma_embedding_encoding_injective(e1: RawVectorEmbedding, e2: RawVectorEmbedding)
    requires
        emb_wf(e1),
        emb_wf(e2),
        spec_emb_body(e1) == spec_emb_body(e2),
    ensures
        vid_eq(e1.hash_vec, e2.hash_vec),
        e1.raw_vec@ == e2.raw_vec@,
{
    let b = spec_emb_body(e1);
    let v1 = spec_enc_vid(e1.hash_vec);
    let v2 = spec_enc_vid(e2.hash_vec);
    assert(b[0] == v1[0] && b[0] == v2[0]);
    match (e1.hash_vec, e2.hash_vec) {
        (VectorId::Int(x1), VectorId::Int(x2)) => {
            assert(v1.len() == 9 && v2.len() == 9);
            assert(v1 =~= v2) by {
                assert forall|i: int| 0 <= i < 9 implies v1[i] == v2[i] by {
                    assert(b[i] == v1[i] && b[i] == v2[i]);
                }
            }
            assert(spec_u64_to_le(x1 as u64) =~= v1.skip(1));
            assert(spec_u64_to_le(x2 as u64) =~= v2.skip(1));
            assert(x1 == x2) by {
                let w1 = x1 as u64;
                let w2 = x2 as u64;
                assert(spec_u64_to_le(w1) =~= spec_u64_to_le(w2));
                assert(spec_u64_to_le(w1)[0] == spec_u64_to_le(w2)[0]);
                assert(spec_u64_to_le(w1)[1] == spec_u64_to_le(w2)[1]);
                assert(spec_u64_to_le(w1)[2] == spec_u64_to_le(w2)[2]);
                assert(spec_u64_to_le(w1)[3] == spec_u64_to_le(w2)[3]);
                assert(spec_u64_to_le(w1)[4] == spec_u64_to_le(w2)[4]);
                assert(spec_u64_to_le(w1)[5] == spec_u64_to_le(w2)[5]);
                assert(spec_u64_to_le(w1)[6] == spec_u64_to_le(w2)[6]);
                assert(spec_u64_to_le(w1)[7] == spec_u64_to_le(w2)[7]);
                assert(w1 == w2) by (bit_vector)
                    requires
                        (w1 & 0xff) as u8 == (w2 & 0xff) as u8,
                        ((w1 >> 8) & 0xff) as u8 == ((w2 >> 8) & 0xff) as u8,
                        ((w1 >> 16) & 0xff) as u8 == ((w2 >> 16) & 0xff) as u8,
                        ((w1 >> 24) & 0xff) as u8 == ((w2 >> 24) & 0xff) as u8,
                        ((w1 >> 32) & 0xff) as u8 == ((w2 >> 32) & 0xff) as u8,
                        ((w1 >> 40) & 0xff) as u8 == ((w2 >> 40) & 0xff) as u8,
                        ((w1 >> 48) & 0xff) as u8 == ((w2 >> 48) & 0xff) as u8,
                        ((w1 >> 56) & 0xff) as u8 == ((w2 >> 56) & 0xff) as u8,
                ;
                assert(x1 == x2) by (bit_vector)
                    requires
                        x1 as u64 == x2 as u64,
                ;
            }
            lemma_rest_equal(e1, e2, 9);
        },
        (VectorId::Str(s1), VectorId::Str(s2)) => {
            let u1 = vstd::utf8::encode_utf8(s1@);
            let u2 = vstd::utf8::encode_utf8(s2@);
            assert(v1.len() == 5 + u1.len() && v2.len() == 5 + u2.len());
            assert(u1.len() == u2.len()) by {
                let l1 = spec_u32_to_le(u1.len() as u32);
                let l2 = spec_u32_to_le(u2.len() as u32);
                assert(l1 =~= l2) by {
                    assert forall|i: int| 0 <= i < 4 implies l1[i] == l2[i] by {
                        assert(b[1 + i] == v1[1 + i] && b[1 + i] == v2[1 + i]);
                    }
                }
                lemma_u32_le_round_trip(u1.len() as u32);
                lemma_u32_le_round_trip(u2.len() as u32);
                assert(spec_u32_from_le(l1) == spec_u32_from_le(l2));
            }
            assert(u1 =~= u2) by {
                assert forall|i: int| 0 <= i < u1.len() implies u1[i] == u2[i] by {
                    assert(b[5 + i] == v1[5 + i] && b[5 + i] == v2[5 + i]);
                }
            }
            assert(s1@ == s2@) by {
                vstd::utf8::encode_utf8_decode_utf8(s1@);
                vstd::utf8::encode_utf8_decode_utf8(s2@);
            }
            lemma_rest_equal(e1, e2, 5 + u1.len() as int);
        },
        (VectorId::Int(_), VectorId::Str(_)) => {
            assert(false);
        },
        (VectorId::Str(_), VectorId::Int(_)) => {
            assert(false);
        },
    }
}

/// When the id encodings agree and span `idlen` bytes, the value
/// counts and the values agree too.
proof fn lemma_rest_equal(e1: RawVectorEmbedding, e2: RawVectorEmbedding, idlen: int)
    requires
        emb_wf(e1),
        emb_wf(e2),
        spec_emb_body(e1) == spec_emb_body(e2),
        spec_enc_vid(e1.hash_vec).len() == idlen,
        spec_enc_vid(e2.hash_vec).len() == idlen,
        idlen >= 0,
    ensures
        e1.raw_vec@ == e2.raw_vec@,
{
    let b = spec_emb_body(e1);
    let n1 = e1.raw_vec@.len();
    let n2 = e2.raw_vec@.len();
    lemma_enc_u32s_len(e1.raw_vec@);
    lemma_enc_u32s_len(e2.raw_vec@);
    assert(n1 == n2) by {
        let l1 = spec_u32_to_le(n1 as u32);
        let l2 = spec_u32_to_le(n2 as u32);
        assert(l1 =~= l2) by {
            assert forall|i: int| 0 <= i < 4 implies l1[i] == l2[i] by {
                assert(b[idlen + i] == l1[i]);
                assert(b[idlen + i] == l2[i]);
            }
        }
        lemma_u32_le_round_trip(n1 as u32);
        lemma_u32_le_round_trip(n2 as u32);
    }
    assert(e1.raw_vec@ =~= e2.raw_vec@) by {
        assert forall|k: int| 0 <= k < n1 implies e1.raw_vec@[k] == e2.raw_vec@[k] by {
            lemma_enc_u32s_index(e1.raw_vec@, k);
            lemma_enc_u32s_index(e2.raw_vec@, k);
            let base = idlen + 4;
            assert(spec_u32_to_le(e1.raw_vec@[k]) =~= spec_u32_to_le(e2.raw_vec@[k])) by {
                assert forall|i: int| 0 <= i < 4 implies spec_u32_to_le(e1.raw_vec@[k])[i]
                    == spec_u32_to_le(e2.raw_vec@[k])[i] by {
                    assert(spec_enc_u32s(e1.raw_vec@)[4 * k + i] == spec_u32_to_le(
                        e1.raw_vec@[k],
                    )[i]);
                    assert(spec_enc_u32s(e2.raw_vec@)[4 * k + i] == spec_u32_to_le(
                        e2.raw_vec@[k],
                    )[i]);
                    assert(b[base + 4 * k + i] == spec_enc_u32s(e1.raw_vec@)[4 * k + i]);
                    assert(b[base + 4 * k + i] == spec_enc_u32s(e2.raw_vec@)[4 * k + i]);
                }
            }
            lemma_u32_le_round_trip(e1.raw_vec@[k]);
            lemma_u32_le_round_trip(e2.raw_vec@[k]);
        }
    }
}

/// Encodes an embedding's record body.
#[verifier::loop_isolation(false)]
pub fn encode_embedding(emb: &RawVectorEmbedding) -> (r: Result<Vec<u8>, WaCustomError>)
    ensures
        (r is Ok) == emb_wf(*emb),
        r matches Ok(v) ==> v@ =~= spec_emb_body(*emb),
{
    let mut out: Vec<u8> = Vec::new();
    match &emb.hash_vec {
        VectorId::Int(x) => {
            out.push(0u8);
            let enc = u64_to_le_bytes(*x as u64);
            let mut i: usize = 0;
            while i < enc.len()
                invariant
                    i <= enc@.len(),
                    out@ =~= seq![0u8] + enc@.take(i as int),
                decreases enc@.len() - i,
            {
                out.push(enc[i]);
                i = i + 1;
            }
            proof {
                assert(enc@.take(enc@.len() as int) =~= enc@);
                assert(out@ =~= spec_enc_vid(emb.hash_vec));
            }
        },
        VectorId::Str(s) => {
            let sb = s.as_str().as_bytes_vec();
            if sb.len() > 0xffff_ffffusize {
                return Err(
                    WaCustomError::SerializationError(String::from_str("vector id too long")),
                );
            }
            out.push(1u8);
            let lenb = u32_to_le_bytes(sb.len() as u32);
            let mut i: usize = 0;
            while i < lenb.len()
                invariant
                    i <= lenb@.len(),
                    out@ =~= seq![1u8] + lenb@.take(i as int),
                decreases lenb@.len() - i,
            {
                out.push(lenb[i]);
                i = i + 1;
            }
            let mut j: usize = 0;
            while j < sb.len()
                invariant
                    j <= sb@.len(),
                    out@ =~= seq![1u8] + lenb@.take(lenb@.len() as int) + sb@.take(j as int),
                decreases sb@.len() - j,
            {
                out.push(sb[j]);
                j = j + 1;
            }
            proof {
                assert(lenb@.take(lenb@.len() as int) =~= lenb@);
                assert(sb@.take(sb@.len() as int) =~= sb@);
                assert(out@ =~= spec_enc_vid(emb.hash_vec));
            }
        },
    }
    if emb.raw_vec.len() > 0xffff_ffffusize {
        return Err(WaCustomError::SerializationError(String::from_str("raw vector too long")));
    }
    let ghost vid_enc = out@;
    let cnt = u32_to_le_bytes(emb.raw_vec.len() as u32);
    let mut i: usize = 0;
    while i < cnt.len()
        invariant
            i <= cnt@.len(),
            out@ =~= vid_enc + cnt@.take(i as int),
        decreases cnt@.len() - i,
    {
        out.push(cnt[i]);
        i = i + 1;
    }
    proof {
        assert(cnt@.take(cnt@.len() as int) =~= cnt@);
    }
    let mut k: usize = 0;
    while k < emb.raw_vec.len()
        invariant
            k <= emb.raw_vec@.len(),
            emb.raw_vec@.len() <= u32::MAX,
            out@ =~= vid_enc + spec_u32_to_le(emb.raw_vec@.len() as u32) + spec_enc_u32s(
                emb.raw_vec@.take(k as int),
            ),
        decreases emb.raw_vec@.len() - k,
    {
        let enc = u32_to_le_bytes(emb.raw_vec[k]);
        let ghost pre = out@;
        let mut i2: usize = 0;
        while i2 < enc.len()
            invariant
                i2 <= enc@.len(),
                out@ =~= pre + enc@.take(i2 as int),
            decreases enc@.len() - i2,
        {
            out.push(enc[i2]);
            i2 = i2 + 1;
        }
        proof {
            assert(enc@.take(enc@.len() as int) =~= enc@);
            lemma_enc_u32s_snoc(emb.raw_vec@, k as int);
            assert(out@ =~= vid_enc + spec_u32_to_le(emb.raw_vec@.len() as u32) + spec_enc_u32s(
                emb.raw_vec@.take(k as int + 1),
            ));
        }
        k = k + 1;
    }
    proof {
        assert(emb.raw_vec@.take(emb.raw_vec@.len() as int) =~= emb.raw_vec@);
        assert(out@ =~= spec_emb_body(*emb));
    }
    Ok(out)
}

/// Extending the encoded prefix by one value appends its four bytes.
proof fn lemma_enc_u32s_snoc(s: Seq<u32>, k: int)
    requires
        0 <= k < s.len(),
    ensures
        spec_enc_u32s(s.take(k + 1)) =~= spec_enc_u32s(s.take(k)) + spec_u32_to_le(s[k]),
    decreases k,
{
    if k == 0 {
        assert(s.take(1)[0] == s[0]);
        assert(s.take(1).skip(1) =~= Seq::<u32>::empty());
        assert(s.take(0) =~= Seq::<u32>::empty());
    } else {
        lemma_enc_u32s_snoc(s.skip(1), k - 1);
        assert(s.take(k + 1)[0] == s[0]);
        assert(s.take(k + 1).skip(1) =~= s.skip(1).take(k));
        assert(s.take(k).skip(1) =~= s.skip(1).take(k - 1));
        assert(s.take(k)[0] == s[0]);
        assert(s.skip(1)[k - 1] == s[k]);
        assert(spec_enc_u32s(s.take(k + 1)) =~= spec_u32_to_le(s[0]) + spec_enc_u32s(
            s.skip(1).take(k),
        ));
        assert(spec_enc_u32s(s.take(k)) =~= spec_u32_to_le(s[0]) + spec_enc_u32s(
            s.skip(1).take(k - 1),
        ));
    }
}

/// Writes one embedding record at the end of the log: the body's
/// length, then the body.  Returns the record's start offset.
pub fn write_embedding(bufman: &mut BufferManager, emb: &RawVectorEmbedding) -> (r: Result<
    u32,
    WaCustomError,
>)
    ensures
        (r is Ok) == (emb_wf(*emb) && old(bufman)@.len() + 4 + spec_emb_body(*emb).len()
            <= u32::MAX),
        r matches Ok(start) ==> start == old(bufman)@.len() && final(bufman)@ =~= old(bufman)@
            + spec_u32_to_le(spec_emb_body(*emb).len() as u32) + spec_emb_body(*emb),
        r is Err ==> final(bufman)@ == old(bufman)@,
{
    let serialized = match encode_embedding(emb) {
        Ok(v) => v,
        Err(e) => {
            return Err(e);
        },
    };
    let cur_len = bufman.len();
    if cur_len > 0xffff_ffffusize || serialized.len() > 0xffff_ffffusize - 4 || cur_len
        > 0xffff_ffffusize - 4 - serialized.len() {
        return Err(WaCustomError::FsError(String::from_str("embedding log too large")));
    }
    let len = serialized.len() as u32;
    let cursor = bufman.open_cursor();
    let start = match bufman.seek_with_cursor(cursor, SeekPos::End(0)) {
        Ok(p) => p,
        Err(_) => {
            return Err(WaCustomError::FsError(String::from_str("seek failed")));
        },
    };
    let ghost pre = bufman@;
    let lenb = u32_to_le_bytes(len);
    let _ = bufman.write_with_cursor(cursor, &lenb);
    proof {
        assert(bufman@ =~= pre + lenb@);
    }
    let _ = bufman.write_with_cursor(cursor, &serialized);
    proof {
        assert(bufman@ =~= pre + lenb@ + serialized@);
    }
    let _ = bufman.close_cursor(cursor);
    Ok(start as u32)
}

/// A complete, decodable record sits at `offset`: four length bytes,
/// then a body of that length encoding some well-formed embedding,
/// all within the image and the 32-bit offset space.
pub open spec fn spec_record_at(data: Seq<u8>, offset: int) -> bool {
    &&& 0 <= offset
    &&& offset + 4 <= data.len()
    &&& {
        let len = spec_u32_from_le(data.subrange(offset, offset + 4)) as int;
        &&& offset + 4 + len <= data.len()
        &&& offset + 4 + len <= u32::MAX
        &&& spec_decodable(data.subrange(offset + 4, offset + 4 + len))
    }
}

/// How many length-prefixed records a left-to-right walk of the log
/// from `offset` yields before it runs off the end or meets bytes
/// that are no record.
pub open spec fn spec_log_record_count(data: Seq<u8>, offset: int) -> nat
    decreases data.len() - offset,
{
    if spec_record_at(data, offset) {
        let len = spec_u32_from_le(data.subrange(offset, offset + 4)) as int;
        1 + spec_log_record_count(data, offset + 4 + len)
    } else {
        0
    }
}

/// A record written by `write_embedding` reads back: the bytes it
/// appended form a complete record at the returned offset.
pub proof fn lemma_written_record_readable(pre: Seq<u8>, emb: RawVectorEmbedding)
    requires
        emb_wf(emb),
        pre.len() + 4 + spec_emb_body(emb).len() <= u32::MAX,
    ensures
        spec_record_at(
            pre + spec_u32_to_le(spec_emb_body(emb).len() as u32) + spec_emb_body(emb),
            pre.len() as int,
        ),
{
    let body = spec_emb_body(emb);
    let data = pre + spec_u32_to_le(body.len() as u32) + body;
    let off = pre.len() as int;
    assert(data.subrange(off, off + 4) =~= spec_u32_to_le(body.len() as u32));
    lemma_u32_le_round_trip(body.len() as u32);
    assert(data.subrange(off + 4, off + 4 + body.len() as int) =~= body);
    lemma_body_decodable(emb, body);
}

/// Reads the embedding record at `offset`: the length-prefixed body
/// is decoded back into the embedding, and the offset just past the
/// record is returned.  A record that does not parse is a
/// deserialization error, and every well-formed record parses.
pub fn read_embedding(bufman: &mut BufferManager, offset: u32) -> (r: Result<
    (RawVectorEmbedding, u32),
    WaCustomError,
>)
    ensures
        final(bufman)@ == old(bufman)@,
        spec_record_at(old(bufman)@, offset as int) ==> r is Ok,
        r matches Ok((emb, next)) ==> {
            &&& emb_wf(emb)
            &&& offset + 4 + spec_emb_body(emb).len() <= old(bufman)@.len()
            &&& spec_u32_from_le(old(bufman)@.subrange(offset as int, offset + 4)) == spec_emb_body(
                emb,
            ).len()
            &&& old(bufman)@.subrange(offset + 4, offset + 4 + spec_emb_body(emb).len())
                =~= spec_emb_body(emb)
            &&& next == offset + 4 + spec_emb_body(emb).len()
        },
{
    let cursor = bufman.open_cursor();
    let res = read_embedding_at(bufman, cursor, offset);
    let _ = bufman.close_cursor(cursor);
    res
}

/// The body of `read_embedding`, working on an open cursor.
fn read_embedding_at(bufman: &mut BufferManager, cursor: usize, offset: u32) -> (r: Result<
    (RawVectorEmbedding, u32),
    WaCustomError,
>)
    requires
        old(bufman).cursor_ok(cursor),
    ensures
        final(bufman)@ == old(bufman)@,
        final(bufman).cursor_ok(cursor),
        spec_record_at(old(bufman)@, offset as int) ==> r is Ok,
        r matches Ok((emb, next)) ==> {
            &&& emb_wf(emb)
            &&& offset + 4 + spec_emb_body(emb).len() <= old(bufman)@.len()
            &&& spec_u32_from_le(old(bufman)@.subrange(offset as int, offset + 4)) == spec_emb_body(
                emb,
            ).len()
            &&& old(bufman)@.subrange(offset + 4, offset + 4 + spec_emb_body(emb).len())
                =~= spec_emb_body(emb)
            &&& next == offset + 4 + spec_emb_body(emb).len()
        },
{
    match bufman.seek_with_cursor(cursor, SeekPos::Start(offset as usize)) {
        Ok(_) => {},
        Err(_) => {
            return Err(WaCustomError::DeserializationError(String::from_str("seek failed")));
        },
    }
    let len = match bufman.read_u32_with_cursor(cursor) {
        Ok(v) => v,
        Err(_) => {
            return Err(
                WaCustomError::DeserializationError(String::from_str("record length missing")),
            );
        },
    };
    let buf = match bufman.read_with_cursor(cursor, len as usize) {
        Ok(v) => v,
        Err(_) => {
            return Err(
                WaCustomError::DeserializationError(String::from_str("record body missing")),
            );
        },
    };
    let emb = match decode_embedding(&buf) {
        Ok(e) => e,
        Err(e) => {
            return Err(e);
        },
    };
    proof {
        assert(spec_emb_body(emb) =~= buf@);
    }
    if (offset as u64) + 4 + (len as u64) > 0xffff_ffffu64 {
        return Err(
            WaCustomError::DeserializationError(String::from_str("record ends past offset space")),
        );
    }
    Ok((emb, ((offset as u64) + 4 + (len as u64)) as u32))
}

/// Some well-formed embedding encodes to exactly these bytes.
pub open spec fn spec_decodable(b: Seq<u8>) -> bool {
    exists|e: RawVectorEmbedding| emb_wf(e) && b == spec_emb_body(e)
}

/// Where the pieces of an encoded record body lie: the tag byte, the
/// id, the count, and the values, by position.
pub proof fn lemma_emb_body_facts(e: RawVectorEmbedding, b: Seq<u8>)
    requires
        emb_wf(e),
        b == spec_emb_body(e),
    ensures
        b.len() >= 9,
        b[0] == 0 || b[0] == 1,
        (e.hash_vec is Int) == (b[0] == 0),
        e.hash_vec is Int ==> b.len() == 13 + 4 * e.raw_vec@.len() && b.subrange(9, 13)
            =~= spec_u32_to_le(e.raw_vec@.len() as u32) && b.subrange(13, b.len() as int)
            =~= spec_enc_u32s(e.raw_vec@),
        e.hash_vec matches VectorId::Str(st) ==> {
            let u = vstd::utf8::encode_utf8(st@);
            &&& b.len() == 9 + u.len() + 4 * e.raw_vec@.len()
            &&& b.subrange(1, 5) =~= spec_u32_to_le(u.len() as u32)
            &&& b.subrange(5, 5 + u.len() as int) =~= u
            &&& b.subrange(5 + u.len() as int, 9 + u.len() as int) =~= spec_u32_to_le(
                e.raw_vec@.len() as u32,
            )
            &&& b.subrange(9 + u.len() as int, b.len() as int) =~= spec_enc_u32s(e.raw_vec@)
        },
{
    let v = spec_enc_vid(e.hash_vec);
    lemma_enc_u32s_len(e.raw_vec@);
    match e.hash_vec {
        VectorId::Int(_) => {
            assert(v.len() == 9);
            assert(b[0] == v[0]);
        },
        VectorId::Str(st) => {
            let u = vstd::utf8::encode_utf8(st@);
            assert(v.len() == 5 + u.len());
            assert(b[0] == v[0]);
            assert forall|i: int| 0 <= i < 4 implies b.subrange(1, 5)[i] == spec_u32_to_le(
                u.len() as u32,
            )[i] by {
                assert(b[1 + i] == v[1 + i]);
            }
            assert forall|i: int| 0 <= i < u.len() implies b.subrange(5, 5 + u.len() as int)[i]
                == u[i] by {
                assert(b[5 + i] == v[5 + i]);
            }
        },
    }
}

/// A record body laid down by the encoder decodes again.
pub proof fn lemma_body_decodable(e: RawVectorEmbedding, b: Seq<u8>)
    requires
        emb_wf(e),
        b == spec_emb_body(e),
    ensures
        spec_decodable(b),
{
    assert(emb_wf(e) && b == spec_emb_body(e));
}

/// Decodes one record body back into an embedding; the decoded
/// embedding re-encodes to exactly the given bytes.
#[verifier::loop_isolation(false)]
#[verifier::rlimit(100)]
pub fn decode_embedding(bytes: &Vec<u8>) -> (r: Result<RawVectorEmbedding, WaCustomError>)
    ensures
        r matches Ok(emb) ==> emb_wf(emb) && spec_emb_body(emb) =~= bytes@,
        spec_decodable(bytes@) ==> r is Ok,
{
    let n = bytes.len();
    if n < 1 {
        proof {
            assert(!spec_decodable(bytes@)) by {
                if spec_decodable(bytes@) {
                    let e = choose|e: RawVectorEmbedding|
                        emb_wf(e) && bytes@ == spec_emb_body(e);
                    lemma_emb_body_facts(e, bytes@);
                }
            }
        }
        return Err(WaCustomError::DeserializationError(String::from_str("empty record")));
    }
    let tag = bytes[0];
    let mut pos: usize;
    let hash_vec: VectorId;
    if tag == 0 {
        if n < 9 {
            proof {
                assert(!spec_decodable(bytes@)) by {
                    if spec_decodable(bytes@) {
                        let e = choose|e: RawVectorEmbedding|
                            emb_wf(e) && bytes@ == spec_emb_body(e);
                        lemma_emb_body_facts(e, bytes@);
                    }
                }
            }
            return Err(WaCustomError::DeserializationError(String::from_str("id truncated")));
        }
        let w = (bytes[1] as u64) | ((bytes[2] as u64) << 8) | ((bytes[3] as u64) << 16) | ((
        bytes[4] as u64) << 24) | ((bytes[5] as u64) << 32) | ((bytes[6] as u64) << 40) | ((
        bytes[7] as u64) << 48) | ((bytes[8] as u64) << 56);
        hash_vec = VectorId::Int(w as i64);
        pos = 9;
        proof {
            assert((w as i64) as u64 == w) by (bit_vector);
            let b1 = bytes@[1];
            let b2 = bytes@[2];
            let b3 = bytes@[3];
            let b4 = bytes@[4];
            let b5 = bytes@[5];
            let b6 = bytes@[6];
            let b7 = bytes@[7];
            let b8 = bytes@[8];
            assert(w == (b1 as u64) | ((b2 as u64) << 8) | ((b3 as u64) << 16) | ((b4 as u64)
                << 24) | ((b5 as u64) << 32) | ((b6 as u64) << 40) | ((b7 as u64) << 48) | ((
            b8 as u64) << 56));
            assert((w & 0xff) as u8 == b1 && ((w >> 8) & 0xff) as u8 == b2 && ((w >> 16)
                & 0xff) as u8 == b3 && ((w >> 24) & 0xff) as u8 == b4 && ((w >> 32) & 0xff) as u8
                == b5 && ((w >> 40) & 0xff) as u8 == b6 && ((w >> 48) & 0xff) as u8 == b7 && ((w
                >> 56) & 0xff) as u8 == b8) by (bit_vector)
                requires
                    w == (b1 as u64) | ((b2 as u64) << 8) | ((b3 as u64) << 16) | ((b4 as u64)
                        << 24) | ((b5 as u64) << 32) | ((b6 as u64) << 40) | ((b7 as u64) << 48)
                        | ((b8 as u64) << 56),
            ;
            assert(spec_u64_to_le(w) =~= seq![b1, b2, b3, b4, b5, b6, b7, b8]);
            assert(spec_enc_vid(hash_vec) =~= bytes@.take(9));
        }
    } else if tag == 1 {
        if n < 5 {
            proof {
                assert(!spec_decodable(bytes@)) by {
                    if spec_decodable(bytes@) {
                        let e = choose|e: RawVectorEmbedding|
                            emb_wf(e) && bytes@ == spec_emb_body(e);
                        lemma_emb_body_facts(e, bytes@);
                    }
                }
            }
            return Err(WaCustomError::DeserializationError(String::from_str("id truncated")));
        }
        let slen = crate::bytes::u32_from_le_bytes(bytes[1], bytes[2], bytes[3], bytes[4]);
        proof {
            assert(seq![bytes@[1], bytes@[2], bytes@[3], bytes@[4]] =~= bytes@.subrange(1, 5));
        }
        if (slen as usize) > n - 5 {
            proof {
                assert(!spec_decodable(bytes@)) by {
                    if spec_decodable(bytes@) {
                        let e = choose|e: RawVectorEmbedding|
                            emb_wf(e) && bytes@ == spec_emb_body(e);
                        lemma_emb_body_facts(e, bytes@);
                        match e.hash_vec {
                            VectorId::Str(st) => {
                                let u = vstd::utf8::encode_utf8(st@);
                                lemma_u32_le_round_trip(u.len() as u32);
                                assert(slen == u.len());
                            },
                            VectorId::Int(_) => {},
                        }
                    }
                }
            }
            return Err(WaCustomError::DeserializationError(String::from_str("id truncated")));
        }
        let mut sb: Vec<u8> = Vec::new();
        let mut i: usize = 0;
        while i < slen as usize
            invariant
                i <= slen as usize,
                5 + slen as usize <= bytes@.len(),
                sb@ =~= bytes@.subrange(5, 5 + i as int),
            decreases slen as usize - i,
        {
            sb.push(bytes[5 + i]);
            i = i + 1;
        }
        let s = match string_from_utf8(&sb) {
            Ok(s) => s,
            Err(err) => {
                proof {
                    assert(!spec_decodable(bytes@)) by {
                        if spec_decodable(bytes@) {
                            let e = choose|e: RawVectorEmbedding|
                                emb_wf(e) && bytes@ == spec_emb_body(e);
                            lemma_emb_body_facts(e, bytes@);
                            match e.hash_vec {
                                VectorId::Str(st) => {
                                    let u = vstd::utf8::encode_utf8(st@);
                                    lemma_u32_le_round_trip(u.len() as u32);
                                    assert(slen == u.len());
                                    assert(sb@ =~= u);
                                    vstd::utf8::encode_utf8_valid_utf8(st@);
                                },
                                VectorId::Int(_) => {},
                            }
                        }
                    }
                }
                return Err(err);
            },
        };
        hash_vec = VectorId::Str(s);
        pos = 5 + slen as usize;
        proof {
            crate::bytes::lemma_u32_le_injective(bytes@.subrange(1, 5));
            assert(bytes@.subrange(1, 5) =~= seq![bytes@[1], bytes@[2], bytes@[3], bytes@[4]]);
            assert(spec_u32_to_le(slen) =~= bytes@.subrange(1, 5));
            assert(spec_enc_vid(hash_vec) =~= bytes@.take(5 + slen as int));
        }
    } else {
        proof {
            assert(!spec_decodable(bytes@)) by {
                if spec_decodable(bytes@) {
                    let e = choose|e: RawVectorEmbedding|
                        emb_wf(e) && bytes@ == spec_emb_body(e);
                    lemma_emb_body_facts(e, bytes@);
                }
            }
        }
        return Err(WaCustomError::DeserializationError(String::from_str("unknown id tag")));
    }
    if n < 4 || pos > n - 4 {
        proof {
            assert(!spec_decodable(bytes@)) by {
                if spec_decodable(bytes@) {
                    let e = choose|e: RawVectorEmbedding|
                        emb_wf(e) && bytes@ == spec_emb_body(e);
                    lemma_emb_body_facts(e, bytes@);
                    match e.hash_vec {
                        VectorId::Str(st) => {
                            let u = vstd::utf8::encode_utf8(st@);
                            lemma_u32_le_round_trip(u.len() as u32);
                        },
                        VectorId::Int(_) => {},
                    }
                }
            }
        }
        return Err(WaCustomError::DeserializationError(String::from_str("count truncated")));
    }
    let cnt = crate::bytes::u32_from_le_bytes(bytes[pos], bytes[pos + 1], bytes[pos + 2], bytes[pos
        + 3]);
    proof {
        crate::bytes::lemma_u32_le_injective(bytes@.subrange(pos as int, pos + 4));
        assert(seq![bytes@[pos as int], bytes@[pos + 1], bytes@[pos + 2], bytes@[pos + 3]]
            =~= bytes@.subrange(pos as int, pos + 4));
        assert(spec_u32_to_le(cnt) =~= bytes@.subrange(pos as int, pos + 4));
    }
    let base = pos + 4;
    if (n - base) / 4 != cnt as usize || (n - base) % 4 != 0 {
        proof {
            assert(!spec_decodable(bytes@)) by {
                if spec_decodable(bytes@) {
                    let e = choose|e: RawVectorEmbedding|
                        emb_wf(e) && bytes@ == spec_emb_body(e);
                    lemma_emb_body_facts(e, bytes@);
                    lemma_u32_le_round_trip(e.raw_vec@.len() as u32);
                    match e.hash_vec {
                        VectorId::Str(st) => {
                            let u = vstd::utf8::encode_utf8(st@);
                            lemma_u32_le_round_trip(u.len() as u32);
                            assert(pos == 5 + u.len());
                            assert(cnt == e.raw_vec@.len());
                        },
                        VectorId::Int(_) => {
                            assert(pos == 9);
                            assert(cnt == e.raw_vec@.len());
                        },
                    }
                }
            }
        }
        return Err(WaCustomError::DeserializationError(String::from_str("values truncated")));
    }
    proof {
        assert(n == base + 4 * (cnt as int));
    }
    let mut raw_vec: Vec<u32> = Vec::new();
    let mut k: usize = 0;
    while k < cnt as usize
        invariant
            k <= cnt as usize,
            base + (cnt as usize) * 4 == bytes@.len(),
            base >= 0,
            raw_vec@.len() == k,
            spec_enc_u32s(raw_vec@) =~= bytes@.subrange(base as int, base + 4 * (k as int)),
        decreases cnt as usize - k,
    {
        let off = base + k * 4;
        let v = crate::bytes::u32_from_le_bytes(bytes[off], bytes[off + 1], bytes[off + 2], bytes[off
            + 3]);
        let ghost prev = raw_vec@;
        raw_vec.push(v);
        proof {
            crate::bytes::lemma_u32_le_injective(bytes@.subrange(off as int, off + 4));
            assert(seq![bytes@[off as int], bytes@[off + 1], bytes@[off + 2], bytes@[off + 3]]
                =~= bytes@.subrange(off as int, off + 4));
            assert(spec_u32_to_le(v) =~= bytes@.subrange(off as int, off + 4));
            lemma_enc_u32s_snoc(raw_vec@, k as int);
            assert(raw_vec@.take(k as int) =~= prev);
            assert(raw_vec@.take(k as int + 1) =~= raw_vec@);
            assert(spec_enc_u32s(raw_vec@) =~= bytes@.subrange(base as int, base + 4 * (k as int
                + 1)));
        }
        k = k + 1;
    }
    let emb = RawVectorEmbedding { raw_vec, hash_vec };
    proof {
        assert(spec_emb_body(emb) =~= bytes@);
    }
    Ok(emb)
}

/// Relies on `String::from_utf8`: it succeeds exactly on valid
/// UTF-8, and the returned string's UTF-8 bytes are the input bytes.
#[verifier::external_body]
fn string_from_utf8(bytes: &Vec<u8>) -> (r: Result<String, WaCustomError>)
    ensures
        r matches Ok(s) ==> vstd::utf8::encode_utf8(s@) == bytes@,
        vstd::utf8::valid_utf8(bytes@) ==> r is Ok,
{
    match std::string::String::from_utf8(bytes.clone()) {
        Ok(s) => Ok(s),
        Err(_) => Err(
            WaCustomError::DeserializationError(String::from_str("invalid utf-8 in vector id")),
        ),
    }
}

/// Where an embedding record lives: the log file's version and the
/// record's offset.
#[derive(Debug, Clone, Copy, PartialEq, Eq, Structural)]
pub struct EmbeddingOffset {
    pub version: CommitHash,
    pub offset: u32,
}

/// The 8-byte encoding of an `EmbeddingOffset`: version then offset,
/// both little endian.
pub open spec fn spec_serialize_offset(e: EmbeddingOffset) -> Seq<u8> {
    spec_u32_to_le(e.version.0) + spec_u32_to_le(e.offset)
}

impl EmbeddingOffset {
    /// Serializes to exactly 8 bytes: the version, then the offset.
    pub fn serialize(&self) -> (r: Vec<u8>)
        ensures
            r@ =~= spec_serialize_offset(*self),
            r.len() == 8,
    {
        let mut result = u32_to_le_bytes(self.version.0);
        let off = u32_to_le_bytes(self.offset);
        result.push(off[0]);
        result.push(off[1]);
        result.push(off[2]);
        result.push(off[3]);
        proof {
            assert(result@ =~= spec_u32_to_le(self.version.0) + spec_u32_to_le(self.offset));
        }
        result
    }

    /// Deserializes 8 bytes back into the offset record; any other
    /// length is rejected.  Deserialization inverts serialization.
    pub fn deserialize(bytes: &Vec<u8>) -> (r: Result<Self, WaCustomError>)
        ensures
            (r is Ok) == (bytes@.len() == 8),
            r matches Ok(e) ==> spec_serialize_offset(e) =~= bytes@,
    {
        if bytes.len() != 8 {
            return Err(
                WaCustomError::DeserializationError(
                    String::from_str("input must be exactly 8 bytes"),
                ),
            );
        }
        let version = crate::bytes::u32_from_le_bytes(bytes[0], bytes[1], bytes[2], bytes[3]);
        let offset = crate::bytes::u32_from_le_bytes(bytes[4], bytes[5], bytes[6], bytes[7]);
        proof {
            crate::bytes::lemma_u32_le_injective(bytes@.subrange(0, 4));
            crate::bytes::lemma_u32_le_injective(bytes@.subrange(4, 8));
            assert(bytes@.subrange(0, 4) =~= seq![bytes@[0], bytes@[1], bytes@[2], bytes@[3]]);
            assert(bytes@.subrange(4, 8) =~= seq![bytes@[4], bytes@[5], bytes@[6], bytes@[7]]);
        }
        let r = EmbeddingOffset { version: CommitHash(version), offset };
        proof {
            assert(spec_serialize_offset(r) =~= bytes@);
        }
        Ok(r)
    }
}

/// The offset record's round trip: deserializing a serialized record
/// yields the record, and the encoding is 8 bytes.
pub proof fn lemma_offset_round_trip(e1: EmbeddingOffset, e2: EmbeddingOffset)
    requires
        spec_serialize_offset(e1) == spec_serialize_offset(e2),
    ensures
        e1 == e2,
        spec_serialize_offset(e1).len() == 8,
{
    lemma_u32_le_round_trip(e1.version.0);
    lemma_u32_le_round_trip(e2.version.0);
    lemma_u32_le_round_trip(e1.offset);
    lemma_u32_le_round_trip(e2.offset);
    let s1 = spec_serialize_offset(e1);
    let s2 = spec_serialize_offset(e2);
    assert(s1.subrange(0, 4) =~= spec_u32_to_le(e1.version.0));
    assert(s2.subrange(0, 4) =~= spec_u32_to_le(e2.version.0));
    assert(s1.subrange(4, 8) =~= spec_u32_to_le(e1.offset));
    assert(s2.subrange(4, 8) =~= spec_u32_to_le(e2.offset));
    assert(spec_u32_from_le(spec_u32_to_le(e1.version.0)) == spec_u32_from_le(
        spec_u32_to_le(e2.version.0),
    ));
    assert(spec_u32_from_le(spec_u32_to_le(e1.offset)) == spec_u32_from_le(
        spec_u32_to_le(e2.offset),
    ));
}

/// The embedding log's round trip: a record written by
/// `write_embedding` is read back by `read_embedding` as an embedding
/// with the same id and the same raw values.
pub proof fn lemma_embedding_round_trip(
    pre: Seq<u8>,
    written: RawVectorEmbedding,
    read: RawVectorEmbedding,
)
    requires
        emb_wf(written),
        emb_wf(read),
        pre.len() + 4 + spec_emb_body(written).len() <= u32::MAX,
        (pre + spec_u32_to_le(spec_emb_body(written).len() as u32) + spec_emb_body(
            written,
        )).subrange(
            pre.len() as int + 4,
            pre.len() as int + 4 + spec_emb_body(read).len() as int,
        ) == spec_emb_body(
            read,
        ),
        spec_emb_body(read).len() == spec_emb_body(written).len(),
    ensures
        vid_eq(read.hash_vec, written.hash_vec),
        read.raw_vec@ == written.raw_vec@,
{
    let full = pre + spec_u32_to_le(spec_emb_body(written).len() as u32) + spec_emb_body(written);
    assert(full.subrange(
        pre.len() as int + 4,
        pre.len() as int + 4 + spec_emb_body(written).len() as int,
    ) =~= spec_emb_body(written));
    lemma_embedding_encoding_injective(read, written);
}

} // verus!
