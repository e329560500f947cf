//! Quantization: mapping raw fixed-point vector values into the
//! quantized payloads the indexes store.  Values are carried in fixed
//! point with 16 fractional bits.

use vstd::prelude::*;

use crate::types::Storage;

verus! {

/// Which payload layout a collection stores.
#[derive(Debug, Clone, Copy)]
pub enum StorageType {
    UnsignedByte,
    SubByte(u8),
    HalfPrecisionFP,
}

/// Why quantization failed.
#[derive(Debug, Clone, PartialEq, Eq)]
pub enum QuantizationError {
    InvalidInput(String),
    TrainingFailed,
    NotImplemented,
}

/// The quantization capability: turn a raw vector into a payload, or
/// train the quantizer on sample vectors.
pub trait Quantization {
    /// Quantizes one raw fixed-point vector into a payload.
    fn quantize(&self, vector: &Vec<i64>, storage_type: StorageType) -> Result<
        Storage,
        QuantizationError,
    >;

    /// Trains the quantizer on sample vectors.
    fn train(&mut self, vectors: &Vec<Vec<i64>>) -> Result<(), QuantizationError>;
}

/// The byte a fixed-point value in `[-1, 1]` scalar-quantizes to:
/// the range mapped linearly onto `[0, 255]`, clamped outside it.
pub open spec fn spec_scalar_quantize(v: int) -> u8 {
    if v < -65536 {
        0u8
    } else if v >= 65536 {
        255u8
    } else {
        ((v + 65536) * 255 / 131072) as u8
    }
}

/// Scalar-quantizes one fixed-point value.
pub fn scalar_quantize_value(v: i64) -> (r: u8)
    ensures
        r == spec_scalar_quantize(v as int),
{
    if v < -65536 {
        0
    } else if v >= 65536 {
        255
    } else {
        (((v + 65536) * 255) / 131072) as u8
    }
}

/// The sequence of bytes a raw vector scalar-quantizes to.
pub open spec fn spec_scalar_quantize_vec(v: Seq<i64>) -> Seq<u8> {
    v.map_values(|x: i64| spec_scalar_quantize(x as int))
}

/// Scalar-quantizes a raw vector into a byte payload; layouts other
/// than one byte per dimension are not implemented.
pub fn scalar_quantize(vector: &Vec<i64>, storage_type: StorageType) -> (r: Result<
    Storage,
    QuantizationError,
>)
    ensures
        match storage_type {
            StorageType::UnsignedByte => r matches Ok(s) && s matches Storage::UnsignedByte(b)
                && b@ =~= spec_scalar_quantize_vec(vector@),
            _ => r == Result::<Storage, QuantizationError>::Err(QuantizationError::NotImplemented),
        },
{
    match storage_type {
        StorageType::UnsignedByte => {
            let mut out: Vec<u8> = Vec::new();
            let mut i: usize = 0;
            while i < vector.len()
                invariant
                    i <= vector@.len(),
                    out@ =~= spec_scalar_quantize_vec(vector@.take(i as int)),
                decreases vector@.len() - i,
            {
                out.push(scalar_quantize_value(vector[i]));
                proof {
                    assert(spec_scalar_quantize_vec(vector@.take(i as int + 1))
                        =~= spec_scalar_quantize_vec(vector@.take(i as int)).push(
                        spec_scalar_quantize(vector@[i as int] as int),
                    ));
                }
                i = i + 1;
            }
            proof {
                assert(vector@.take(vector@.len() as int) =~= vector@);
            }
            Ok(Storage::UnsignedByte(out))
        },
        _ => Err(QuantizationError::NotImplemented),
    }
}

/// The scalar quantizer: stateless linear quantization over `[-1, 1]`.
#[derive(Debug, Clone)]
pub struct ScalarQuantization;

impl Quantization for ScalarQuantization {
    fn quantize(&self, vector: &Vec<i64>, storage_type: StorageType) -> Result<
        Storage,
        QuantizationError,
    > {
        scalar_quantize(vector, storage_type)
    }

    fn train(&mut self, _vectors: &Vec<Vec<i64>>) -> Result<(), QuantizationError> {
        Ok(())
    }
}

/// Centroids of a trained product quantizer.
#[derive(Debug, Clone)]
pub struct Centroid {
    pub number_of_centroids: u16,
    pub centroids: Vec<u16>,
}

/// The product quantizer: specified as a capability but not
/// implemented; its operations answer `NotImplemented`.
#[derive(Debug, Clone)]
pub struct ProductQuantization {
    pub centroids: Option<Centroid>,
}

impl Quantization for ProductQuantization {
    fn quantize(&self, _vector: &Vec<i64>, _storage_type: StorageType) -> Result<
        Storage,
        QuantizationError,
    > {
        Err(QuantizationError::NotImplemented)
    }

    fn train(&mut self, _vectors: &Vec<Vec<i64>>) -> Result<(), QuantizationError> {
        Err(QuantizationError::NotImplemented)
    }
}

/// The quantization metric a collection was created with.
#[derive(Debug, Clone)]
pub enum QuantizationMetric {
    Scalar,
    Product(ProductQuantization),
}

impl QuantizationMetric {
    /// Quantizes a raw vector under this metric.  The scalar metric
    /// quantizes byte payloads exactly; product quantization is not
    /// implemented.
    pub fn quantize(&self, vector: &Vec<i64>, storage_type: StorageType) -> (r: Result<
        Storage,
        QuantizationError,
    >)
        ensures
            match self {
                QuantizationMetric::Scalar => match storage_type {
                    StorageType::UnsignedByte => r matches Ok(s) && s matches Storage::UnsignedByte(
                        b,
                    ) && b@ =~= spec_scalar_quantize_vec(vector@),
                    _ => r == Result::<Storage, QuantizationError>::Err(
                        QuantizationError::NotImplemented,
                    ),
                },
                QuantizationMetric::Product(_) => r == Result::<Storage, QuantizationError>::Err(
                    QuantizationError::NotImplemented,
                ),
            },
    {
        match self {
            QuantizationMetric::Scalar => scalar_quantize(vector, storage_type),
            QuantizationMetric::Product(_) => Err(QuantizationError::NotImplemented),
        }
    }
}

} // verus!
