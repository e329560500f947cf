//! The collection catalog entry and its canonical binary encoding.
//!
//! A collection's primary key is the SipHash-2-4 digest of its name,
//! stored little endian; the catalog blob is a fixed field-by-field
//! byte encoding.

use vstd::prelude::*;
use vstd::string::StringSliceAdditionalSpecFns;

use crate::bytes::spec_u32_to_le;
use crate::bytes::spec_u64_to_le;
use crate::bytes::u32_to_le_bytes;
use crate::bytes::u64_to_le_bytes;
use crate::common::WaCustomError;
use crate::hashing::sip24_hash;
use crate::hashing::sip24_of;
use crate::meta::MetaDb;
use crate::meta::blob_has_key;
use crate::meta::blob_idx_of;

verus! {

/// Dense-index options of a collection.
#[derive(Debug, Clone)]
pub struct DenseVectorOptions {
    pub enabled: bool,
    pub auto_create_index: bool,
    pub dimension: i32,
}

/// Sparse-index options of a collection.
#[derive(Debug, Clone)]
pub struct SparseVectorOptions {
    pub enabled: bool,
    pub auto_create_index: bool,
}

/// Size and replication limits of a collection.
#[derive(Debug, Clone)]
pub struct CollectionConfig {
    pub max_vectors: Option<i32>,
    pub replication_factor: Option<i32>,
}

/// A catalog entry: the collection's name and options.
#[derive(Debug, Clone)]
pub struct Collection {
    pub name: String,
    pub description: Option<String>,
    pub dense_vector: DenseVectorOptions,
    pub sparse_vector: SparseVectorOptions,
    pub metadata_schema: Option<String>,
    pub config: CollectionConfig,
}

/// One byte for a boolean: 1 for true, 0 for false.
pub open spec fn spec_enc_bool(b: bool) -> Seq<u8> {
    if b {
        seq![1u8]
    } else {
        seq![0u8]
    }
}

/// A length-prefixed byte string: 4 little-endian length bytes, then
/// the bytes.
pub open spec fn spec_enc_bytes(s: Seq<u8>) -> Seq<u8>
    recommends
        s.len() <= u32::MAX,
{
    spec_u32_to_le(s.len() as u32) + s
}

/// An optional byte string: absence is one zero byte, presence a one
/// byte followed by the length-prefixed bytes.
pub open spec fn spec_enc_opt_bytes(o: Option<Seq<u8>>) -> Seq<u8> {
    match o {
        Option::None => seq![0u8],
        Option::Some(s) => seq![1u8] + spec_enc_bytes(s),
    }
}

/// A 32-bit signed integer, two's complement little endian.
pub open spec fn spec_enc_i32(v: i32) -> Seq<u8> {
    spec_u32_to_le(v as u32)
}

/// An optional 32-bit signed integer.
pub open spec fn spec_enc_opt_i32(o: Option<i32>) -> Seq<u8> {
    match o {
        Option::None => seq![0u8],
        Option::Some(v) => seq![1u8] + spec_enc_i32(v),
    }
}

/// The bytes of an optional string, as the encoder sees it.
pub open spec fn spec_opt_str_bytes(o: Option<String>) -> Option<Seq<u8>> {
    match o {
        Option::None => None,
        Option::Some(s) => Some(vstd::utf8::encode_utf8(s@)),
    }
}

/// The canonical catalog encoding of a collection: name, description,
/// dense options, sparse options, metadata schema, and config, in
/// that order.
pub open spec fn spec_serialize_collection(c: Collection) -> Seq<u8> {
    spec_enc_bytes(vstd::utf8::encode_utf8(c.name@)) + spec_enc_opt_bytes(
        spec_opt_str_bytes(c.description),
    ) + spec_enc_bool(c.dense_vector.enabled) + spec_enc_bool(c.dense_vector.auto_create_index)
        + spec_enc_i32(c.dense_vector.dimension) + spec_enc_bool(c.sparse_vector.enabled)
        + spec_enc_bool(c.sparse_vector.auto_create_index) + spec_enc_opt_bytes(
        spec_opt_str_bytes(c.metadata_schema),
    ) + spec_enc_opt_i32(c.config.max_vectors) + spec_enc_opt_i32(c.config.replication_factor)
}

/// Every string of the collection is short enough for its 4-byte
/// length prefix.
pub open spec fn spec_serializable(c: Collection) -> bool {
    &&& vstd::utf8::encode_utf8(c.name@).len() <= u32::MAX
    &&& (c.description matches Some(s) ==> vstd::utf8::encode_utf8(s@).len() <= u32::MAX)
    &&& (c.metadata_schema matches Some(s) ==> vstd::utf8::encode_utf8(s@).len() <= u32::MAX)
}

/// Appends all of `bytes` to `out`.
pub fn push_bytes(out: &mut Vec<u8>, bytes: &Vec<u8>)
    ensures
        final(out)@ =~= old(out)@ + bytes@,
{
    let mut i: usize = 0;
    while i < bytes.len()
        invariant
            i <= bytes@.len(),
            out@ =~= old(out)@ + bytes@.take(i as int),
        decreases bytes@.len() - i,
    {
        out.push(bytes[i]);
        proof {
            assert(old(out)@ + bytes@.take(i as int + 1) =~= (old(out)@ + bytes@.take(
                i as int,
            )).push(bytes@[i as int]));
        }
        i = i + 1;
    }
    proof {
        assert(bytes@.take(bytes@.len() as int) =~= bytes@);
    }
}

/// Appends a boolean byte.
fn push_bool(out: &mut Vec<u8>, b: bool)
    ensures
        final(out)@ =~= old(out)@ + spec_enc_bool(b),
{
    if b {
        out.push(1u8);
    } else {
        out.push(0u8);
    }
}

/// Appends a length-prefixed byte string.
fn push_len_bytes(out: &mut Vec<u8>, bytes: &Vec<u8>)
    requires
        bytes@.len() <= u32::MAX,
    ensures
        final(out)@ =~= old(out)@ + spec_enc_bytes(bytes@),
{
    let len = u32_to_le_bytes(bytes.len() as u32);
    push_bytes(out, &len);
    push_bytes(out, bytes);
    proof {
        assert((old(out)@ + len@) + bytes@ =~= old(out)@ + (len@ + bytes@));
    }
}

/// Appends an optional 32-bit integer.
fn push_opt_i32(out: &mut Vec<u8>, o: &Option<i32>)
    ensures
        final(out)@ =~= old(out)@ + spec_enc_opt_i32(*o),
{
    match o {
        Option::None => {
            out.push(0u8);
        },
        Option::Some(v) => {
            out.push(1u8);
            let ghost mid = out@;
            let enc = u32_to_le_bytes(*v as u32);
            push_bytes(out, &enc);
            proof {
                assert(out@ =~= old(out)@ + (seq![1u8] + spec_enc_i32(*v)));
            }
        },
    }
}

impl Collection {
    /// A catalog entry from its parts.
    pub fn new(
        name: String,
        description: Option<String>,
        dense_vector_options: DenseVectorOptions,
        sparse_vector_options: SparseVectorOptions,
        metadata_schema: Option<String>,
        config: CollectionConfig,
    ) -> (r: Self)
        ensures
            r.name == name,
            r.description == description,
            r.dense_vector == dense_vector_options,
            r.sparse_vector == sparse_vector_options,
            r.metadata_schema == metadata_schema,
            r.config == config,
    {
        Collection {
            name,
            description,
            dense_vector: dense_vector_options,
            sparse_vector: sparse_vector_options,
            metadata_schema,
            config,
        }
    }

    /// The SipHash of the collection name.
    pub fn get_hash(&self) -> (r: u64)
        ensures
            r == sip24_of(vstd::utf8::encode_utf8(self.name@)),
    {
        sip24_hash(self.name.as_str())
    }

    /// The key the collection is stored under: the name's hash, little
    /// endian.
    pub fn get_key(&self) -> (r: Vec<u8>)
        ensures
            r@ =~= spec_u64_to_le(sip24_of(vstd::utf8::encode_utf8(self.name@))),
            r.len() == 8,
    {
        let hash = self.get_hash();
        u64_to_le_bytes(hash)
    }

    /// Serializes the collection into its canonical catalog encoding;
    /// a string too long for its length prefix is a serialization
    /// error.
    pub fn serialize(&self) -> (r: Result<Vec<u8>, WaCustomError>)
        ensures
            (r is Ok) == spec_serializable(*self),
            r matches Ok(v) ==> v@ =~= spec_serialize_collection(*self),
    {
        let name_bytes = self.name.as_str().as_bytes_vec();
        if name_bytes.len() > 0xffff_ffffusize {
            return Err(
                WaCustomError::SerializationError(String::from_str("collection name too long")),
            );
        }
        let desc_bytes: Option<Vec<u8>> = match &self.description {
            Option::None => None,
            Option::Some(s) => Some(s.as_str().as_bytes_vec()),
        };
        match &desc_bytes {
            Option::Some(b) => {
                if b.len() > 0xffff_ffffusize {
                    return Err(
                        WaCustomError::SerializationError(
                            String::from_str("collection description too long"),
                        ),
                    );
                }
            },
            Option::None => {},
        }
        let schema_bytes: Option<Vec<u8>> = match &self.metadata_schema {
            Option::None => None,
            Option::Some(s) => Some(s.as_str().as_bytes_vec()),
        };
        match &schema_bytes {
            Option::Some(b) => {
                if b.len() > 0xffff_ffffusize {
                    return Err(
                        WaCustomError::SerializationError(
                            String::from_str("metadata schema too long"),
                        ),
                    );
                }
            },
            Option::None => {},
        }
        let mut out: Vec<u8> = Vec::new();
        push_len_bytes(&mut out, &name_bytes);
        match &desc_bytes {
            Option::None => {
                out.push(0u8);
            },
            Option::Some(b) => {
                out.push(1u8);
                push_len_bytes(&mut out, b);
            },
        }
        proof {
            assert(out@ =~= spec_enc_bytes(vstd::utf8::encode_utf8(self.name@))
                + spec_enc_opt_bytes(spec_opt_str_bytes(self.description)));
        }
        push_bool(&mut out, self.dense_vector.enabled);
        push_bool(&mut out, self.dense_vector.auto_create_index);
        let dim_enc = u32_to_le_bytes(self.dense_vector.dimension as u32);
        push_bytes(&mut out, &dim_enc);
        push_bool(&mut out, self.sparse_vector.enabled);
        push_bool(&mut out, self.sparse_vector.auto_create_index);
        match &schema_bytes {
            Option::None => {
                out.push(0u8);
            },
            Option::Some(b) => {
                out.push(1u8);
                push_len_bytes(&mut out, b);
            },
        }
        push_opt_i32(&mut out, &self.config.max_vectors);
        push_opt_i32(&mut out, &self.config.replication_factor);
        proof {
            assert(out@ =~= spec_serialize_collection(*self));
        }
        Ok(out)
    }

    /// Persists the catalog entry: the canonical encoding stored
    /// under the name's hash.
    pub fn persist(&self, db: &mut MetaDb) -> (r: Result<(), WaCustomError>)
        requires
            old(db).wf(),
        ensures
            final(db).wf(),
            (r is Ok) == spec_serializable(*self),
            r is Ok ==> {
                let key = sip24_of(vstd::utf8::encode_utf8(self.name@));
                &&& blob_has_key(final(db).collections@, key)
                &&& final(db).collections@[blob_idx_of(final(db).collections@, key)].1@
                    =~= spec_serialize_collection(*self)
            },
            r is Err ==> *final(db) == *old(db),
            final(db).embeddings == old(db).embeddings,
            final(db).current_version == old(db).current_version,
    {
        let value = match self.serialize() {
            Ok(v) => v,
            Err(e) => {
                return Err(e);
            },
        };
        let key = self.get_hash();
        db.put_collection(key, value);
        Ok(())
    }
}

} // verus!
