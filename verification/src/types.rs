//! Shared data types of the engine: vector identities, quantized
//! storage, and the distance metric with its integer cosine score.

use vstd::prelude::*;

use crate::common::WaCustomError;

verus! {

/// A vector's identity: a signed integer or a string.
#[derive(Debug, Clone)]
pub enum VectorId {
    Int(i64),
    Str(String),
}

/// Two identities denote the same vector: equal integers, or strings
/// with the same characters.
pub open spec fn vid_eq(a: VectorId, b: VectorId) -> bool {
    match (a, b) {
        (VectorId::Int(x), VectorId::Int(y)) => x == y,
        (VectorId::Str(x), VectorId::Str(y)) => x@ == y@,
        _ => false,
    }
}

/// Byte-wise string equality gives character-wise equality, because
/// UTF-8 decoding inverts encoding.
pub proof fn lemma_utf8_injective(a: Seq<char>, b: Seq<char>)
    requires
        vstd::utf8::encode_utf8(a) == vstd::utf8::encode_utf8(b),
    ensures
        a == b,
{
    vstd::utf8::encode_utf8_decode_utf8(a);
    vstd::utf8::encode_utf8_decode_utf8(b);
}

/// Compares two byte vectors element by element.
pub fn bytes_eq(a: &Vec<u8>, b: &Vec<u8>) -> (r: bool)
    ensures
        r == (a@ == b@),
{
    if a.len() != b.len() {
        proof {
            assert(a@.len() != b@.len());
        }
        return false;
    }
    let mut i: usize = 0;
    while i < a.len()
        invariant
            i <= a@.len(),
            a@.len() == b@.len(),
            forall|j: int| 0 <= j < i ==> a@[j] == b@[j],
        decreases a@.len() - i,
    {
        if a[i] != b[i] {
            return false;
        }
        i = i + 1;
    }
    proof {
        assert(a@ =~= b@);
    }
    true
}

/// Decides whether two identities denote the same vector.
pub fn vector_id_eq(a: &VectorId, b: &VectorId) -> (r: bool)
    ensures
        r == vid_eq(*a, *b),
{
    match (a, b) {
        (VectorId::Int(x), VectorId::Int(y)) => *x == *y,
        (VectorId::Str(x), VectorId::Str(y)) => {
            let xb = x.as_str().as_bytes_vec();
            let yb = y.as_str().as_bytes_vec();
            let r = bytes_eq(&xb, &yb);
            proof {
                if xb@ == yb@ {
                    lemma_utf8_injective(x@, y@);
                }
            }
            r
        },
        _ => false,
    }
}

/// A byte offset inside an index file.
#[derive(Debug, Clone, Copy, PartialEq, Eq, Structural)]
pub struct FileOffset(pub u32);

/// How many bytes a stored record spans.
#[derive(Debug, Clone, Copy, PartialEq, Eq, Structural)]
pub struct BytesToRead(pub u32);

/// A level of the multi-level graph; 0 is the densest layer.
#[derive(Debug, Clone, Copy, PartialEq, Eq, Structural)]
pub struct HNSWLevel(pub u8);

/// Where a node lives on disk: nowhere yet, or at an offset inside
/// the file of a version.
#[derive(Debug, Clone, Copy, PartialEq, Eq, Structural)]
pub enum FileIndex {
    Invalid,
    Valid { offset: u32, version: u32 },
}

/// Quantized vector payloads: one byte per dimension, packed sub-byte
/// cells of the given width, or half-precision bit patterns.
#[derive(Debug, Clone)]
pub enum Storage {
    UnsignedByte(Vec<u8>),
    SubByte(u8, Vec<u8>),
    HalfPrecisionFP(Vec<u16>),
}

/// The similarity score a metric produced; larger is better.
#[derive(Debug, Clone, Copy, PartialEq, Eq, Structural)]
pub struct MetricResult {
    pub value: u64,
}

impl MetricResult {
    /// The score as a plain number for sorting.
    pub fn get_value(&self) -> (r: u64)
        ensures
            r == self.value,
    {
        self.value
    }
}

/// The dot product of two byte vectors.
pub open spec fn spec_dot(a: Seq<u8>, b: Seq<u8>) -> int
    decreases a.len(),
{
    if a.len() == 0 || a.len() != b.len() {
        0
    } else {
        a[0] * b[0] + spec_dot(a.drop_first(), b.drop_first())
    }
}

/// The integer square root, built up from below.
pub open spec fn spec_isqrt(n: nat) -> nat
    decreases n,
{
    if n == 0 {
        0
    } else {
        let r = spec_isqrt((n - 1) as nat);
        if (r + 1) * (r + 1) <= n {
            r + 1
        } else {
            r
        }
    }
}

/// The integer square root is the unique `r` with
/// `r * r <= n < (r + 1) * (r + 1)`.
pub proof fn lemma_isqrt_bounds(n: nat)
    ensures
        spec_isqrt(n) * spec_isqrt(n) <= n,
        n < (spec_isqrt(n) + 1) * (spec_isqrt(n) + 1),
    decreases n,
{
    if n == 0 {
        assert(spec_isqrt(n) == 0);
        assert(n < (spec_isqrt(n) + 1) * (spec_isqrt(n) + 1)) by (nonlinear_arith)
            requires
                n == 0nat,
                spec_isqrt(n) == 0nat,
        ;
    } else {
        let m = (n - 1) as nat;
        lemma_isqrt_bounds(m);
        let r = spec_isqrt(m) as int;
        let s = spec_isqrt(n) as int;
        assert(r * r <= m && m < (r + 1) * (r + 1));
        if (r + 1) * (r + 1) <= n {
            assert(s == r + 1);
            assert(n <= (r + 1) * (r + 1));
            assert(s * s < (s + 1) * (s + 1)) by (nonlinear_arith)
                requires
                    s >= 0,
            ;
            assert(n < (s + 1) * (s + 1));
        } else {
            assert(s == r);
            assert(n < (s + 1) * (s + 1));
        }
        assert(n < (spec_isqrt(n) + 1) * (spec_isqrt(n) + 1)) by {
            assert((spec_isqrt(n) + 1) * (spec_isqrt(n) + 1) == (s + 1) * (s + 1));
        }
    }
}

/// Any value within the square-root bounds is the square root.
pub proof fn lemma_isqrt_unique(n: nat, r: nat)
    requires
        r * r <= n,
        n < (r + 1) * (r + 1),
    ensures
        r == spec_isqrt(n),
{
    lemma_isqrt_bounds(n);
    let s = spec_isqrt(n);
    if r < s {
        assert((r + 1) * (r + 1) <= s * s) by (nonlinear_arith)
            requires
                r + 1 <= s,
        ;
    } else if s < r {
        assert((s + 1) * (s + 1) <= r * r) by (nonlinear_arith)
            requires
                s + 1 <= r,
        ;
    }
}

/// Computes the integer square root of `n`.
#[verifier::loop_isolation(false)]
pub fn isqrt(n: u64) -> (r: u64)
    requires
        n < 0x1_0000_0000,
    ensures
        r == spec_isqrt(n as nat),
        r * r <= n,
        n < (r + 1) * (r + 1),
{
    let mut r: u64 = 0;
    while (r + 1) * (r + 1) <= n
        invariant
            r * r <= n,
            r <= 65535,
            (r + 1) * (r + 1) <= 0x1_0000_0000,
        decreases n - r,
    {
        proof {
            assert(r + 1 <= n && r + 1 <= 65535) by (nonlinear_arith)
                requires
                    ((r as int) + 1) * ((r as int) + 1) <= n as int,
                    n < 0x1_0000_0000,
                    r >= 0,
            ;
            assert(((r as int) + 2) * ((r as int) + 2) <= 0x1_0000_0000) by (nonlinear_arith)
                requires
                    r + 2 <= 65536,
            ;
        }
        r = r + 1;
    }
    proof {
        lemma_isqrt_unique(n as nat, r as nat);
    }
    r
}

/// The fixed-point cosine score of two byte vectors, in units of
/// `1/65536`: the dot product scaled and divided by the product of
/// the vectors' norms.
pub open spec fn spec_cosine(a: Seq<u8>, b: Seq<u8>) -> int
    recommends
        spec_dot(a, a) > 0,
        spec_dot(b, b) > 0,
{
    spec_dot(a, b) * 65536 / (spec_isqrt(spec_dot(a, a) as nat) * spec_isqrt(
        spec_dot(b, b) as nat,
    ) as int)
}

/// The distance capability: how two quantized payloads are scored.
/// Scores order candidates with larger meaning more similar.
#[derive(Debug, Clone, Copy)]
pub enum DistanceMetric {
    Cosine,
    DotProduct,
}

/// A dot product never exceeds `65025 * len` and is never negative.
pub proof fn lemma_dot_bounds(a: Seq<u8>, b: Seq<u8>)
    ensures
        0 <= spec_dot(a, b) <= 65025 * a.len(),
    decreases a.len(),
{
    if a.len() == 0 || a.len() != b.len() {
    } else {
        lemma_dot_bounds(a.drop_first(), b.drop_first());
        assert(a[0] * b[0] <= 65025) by (nonlinear_arith)
            requires
                0 <= a[0] < 256,
                0 <= b[0] < 256,
        ;
    }
}

/// Computes the dot product of two byte vectors.
fn dot_product(a: &Vec<u8>, b: &Vec<u8>) -> (r: u64)
    requires
        a@.len() == b@.len(),
        a@.len() <= 65536,
    ensures
        r == spec_dot(a@, b@),
{
    proof {
        lemma_dot_bounds(a@, b@);
        assert(a@.skip(0) =~= a@);
        assert(b@.skip(0) =~= b@);
    }
    let mut acc: u64 = 0;
    let mut i: usize = 0;
    while i < a.len()
        invariant
            i <= a@.len(),
            a@.len() == b@.len(),
            a@.len() <= 65536,
            acc == spec_dot(a@, b@) - spec_dot(a@.skip(i as int), b@.skip(i as int)),
            acc <= 65025 * i,
        decreases a@.len() - i,
    {
        proof {
            lemma_dot_bounds(a@.skip(i as int), b@.skip(i as int));
            lemma_dot_bounds(a@.skip(i as int + 1), b@.skip(i as int + 1));
            assert(a@.skip(i as int).drop_first() =~= a@.skip(i as int + 1));
            assert(b@.skip(i as int).drop_first() =~= b@.skip(i as int + 1));
            assert(a@.skip(i as int)[0] == a@[i as int]);
            assert(0 <= a@[i as int] * b@[i as int] <= 65025) by (nonlinear_arith)
                requires
                    0 <= a@[i as int] < 256,
                    0 <= b@[i as int] < 256,
            ;
            assert(65025 * i + 65025 <= 65025 * 65536) by (nonlinear_arith)
                requires
                    i + 1 <= 65536,
            ;
        }
        acc = acc + (a[i] as u64) * (b[i] as u64);
        i = i + 1;
    }
    proof {
        assert(a@.skip(a@.len() as int) =~= Seq::<u8>::empty());
        assert(b@.skip(b@.len() as int) =~= Seq::<u8>::empty());
    }
    acc
}

/// The metric can score this pair: byte payloads of equal length
/// within the supported dimension, both nonzero under the cosine
/// metric.
pub open spec fn calculate_ok(dm: DistanceMetric, a: Storage, b: Storage) -> bool {
    match (a, b) {
        (Storage::UnsignedByte(x), Storage::UnsignedByte(y)) => {
            &&& x@.len() == y@.len()
            &&& x@.len() <= 65536
            &&& (dm is Cosine ==> spec_dot(x@, x@) != 0 && spec_dot(y@, y@) != 0)
        },
        _ => false,
    }
}

/// The score the metric assigns to a comparable pair.
pub open spec fn calculate_val(dm: DistanceMetric, a: Storage, b: Storage) -> int
    recommends
        calculate_ok(dm, a, b),
{
    match (a, b) {
        (Storage::UnsignedByte(x), Storage::UnsignedByte(y)) => match dm {
            DistanceMetric::DotProduct => spec_dot(x@, y@),
            DistanceMetric::Cosine => spec_cosine(x@, y@),
        },
        _ => 0,
    }
}

impl DistanceMetric {
    /// Scores two payloads: it succeeds exactly on comparable pairs
    /// and then answers the metric's value; byte payloads that do not
    /// line up are invalid, other layouts not implemented.
    pub fn calculate(&self, a: &Storage, b: &Storage) -> (r: Result<MetricResult, WaCustomError>)
        ensures
            (r is Ok) == calculate_ok(*self, *a, *b),
            r matches Ok(m) ==> m.value == calculate_val(*self, *a, *b),
            r matches Err(e) ==> e == (match (a, b) {
                (Storage::UnsignedByte(_), Storage::UnsignedByte(_)) => WaCustomError::InvalidParams,
                _ => WaCustomError::NotImplemented,
            }),
    {
        match (a, b) {
            (Storage::UnsignedByte(x), Storage::UnsignedByte(y)) => {
                if x.len() != y.len() || x.len() > 65536 {
                    return Err(WaCustomError::InvalidParams);
                }
                let dot_ab = dot_product(x, y);
                match self {
                    DistanceMetric::DotProduct => Ok(MetricResult { value: dot_ab }),
                    DistanceMetric::Cosine => {
                        let na = dot_product(x, x);
                        let nb = dot_product(y, y);
                        if na == 0 || nb == 0 {
                            return Err(WaCustomError::InvalidParams);
                        }
                        proof {
                            lemma_dot_bounds(x@, x@);
                            lemma_dot_bounds(y@, y@);
                        }
                        let sa = isqrt(na);
                        let sb = isqrt(nb);
                        proof {
                            lemma_dot_bounds(x@, y@);
                            assert(sa >= 1 && sb >= 1) by (nonlinear_arith)
                                requires
                                    na < (sa + 1) * (sa + 1),
                                    nb < (sb + 1) * (sb + 1),
                                    na >= 1,
                                    nb >= 1,
                                    sa >= 0,
                                    sb >= 0,
                            ;
                            assert(sa <= 65535 && sb <= 65535) by (nonlinear_arith)
                                requires
                                    sa * sa <= na,
                                    sb * sb <= nb,
                                    na <= 65025 * 65536,
                                    nb <= 65025 * 65536,
                                    sa >= 0,
                                    sb >= 0,
                            ;
                            assert(sa * sb >= 1 && sa * sb <= 65535 * 65535) by (nonlinear_arith)
                                requires
                                    1 <= sa <= 65535,
                                    1 <= sb <= 65535,
                            ;
                        }
                        let num = dot_ab * 65536;
                        let den = sa * sb;
                        Ok(MetricResult { value: num / den })
                    },
                }
            },
            _ => Err(WaCustomError::NotImplemented),
        }
    }
}

} // verus!
