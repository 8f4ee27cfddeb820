//! Array roles, element types and compression tags.
use vstd::prelude::*;

verus! {

/// The semantic role of one array of a spectrum.
#[derive(Debug, Clone)]
pub enum ArrayType {
    MZArray,
    IntensityArray,
    ChargeArray,
    NonStandardDataArray { name: String },
}

/// The mathematical identity of an array role: a tag and, for a
/// non-standard array, its name.
pub type ArrayKey = (nat, Seq<char>);

impl View for ArrayType {
    type V = ArrayKey;

    open spec fn view(&self) -> ArrayKey {
        match self {
            ArrayType::MZArray => (0, Seq::empty()),
            ArrayType::IntensityArray => (1, Seq::empty()),
            ArrayType::ChargeArray => (2, Seq::empty()),
            ArrayType::NonStandardDataArray { name } => (3, name@),
        }
    }
}

pub open spec fn mz_key() -> ArrayKey {
    (0, Seq::empty())
}

pub open spec fn intensity_key() -> ArrayKey {
    (1, Seq::empty())
}

pub open spec fn charge_key() -> ArrayKey {
    (2, Seq::empty())
}

impl ArrayType {
    /// Whether two array roles are the same.
    pub fn same_as(&self, other: &ArrayType) -> (r: bool)
        ensures
            r == (self@ == other@),
    {
        match self {
            ArrayType::MZArray => match other {
                ArrayType::MZArray => true,
                _ => false,
            },
            ArrayType::IntensityArray => match other {
                ArrayType::IntensityArray => true,
                _ => false,
            },
            ArrayType::ChargeArray => match other {
                ArrayType::ChargeArray => true,
                _ => false,
            },
            ArrayType::NonStandardDataArray { name: a } => match other {
                ArrayType::NonStandardDataArray { name: b } => a.eq(b),
                _ => false,
            },
        }
    }
}

impl ArrayType {
    /// A copy of this role.
    pub fn clone_type(&self) -> (r: ArrayType)
        ensures
            r@ == self@,
    {
        match self {
            ArrayType::MZArray => ArrayType::MZArray,
            ArrayType::IntensityArray => ArrayType::IntensityArray,
            ArrayType::ChargeArray => ArrayType::ChargeArray,
            ArrayType::NonStandardDataArray { name } => ArrayType::NonStandardDataArray { name: name.clone() },
        }
    }
}

impl PartialEq for ArrayType {
    fn eq(&self, other: &ArrayType) -> (r: bool) {
        self.same_as(other)
    }
}

impl vstd::std_specs::cmp::PartialEqSpecImpl for ArrayType {
    open spec fn obeys_eq_spec() -> bool {
        true
    }

    open spec fn eq_spec(&self, other: &ArrayType) -> bool {
        self@ == other@
    }
}

/// The numeric representation of each element of an array.
#[derive(Debug, Clone, Copy, PartialEq, Eq, Structural)]
pub enum BinaryDataArrayType {
    Unknown,
    Float64,
    Float32,
    Int64,
    Int32,
    ASCII,
}

impl BinaryDataArrayType {
    pub open spec fn spec_size_of(&self) -> nat {
        match self {
            BinaryDataArrayType::Unknown => 1,
            BinaryDataArrayType::ASCII => 1,
            BinaryDataArrayType::Float64 => 8,
            BinaryDataArrayType::Int64 => 8,
            BinaryDataArrayType::Float32 => 4,
            BinaryDataArrayType::Int32 => 4,
        }
    }

    /// The width of one element, in bytes.
    pub fn size_of(&self) -> (r: usize)
        ensures
            r == self.spec_size_of(),
    {
        match self {
            BinaryDataArrayType::Unknown => 1,
            BinaryDataArrayType::ASCII => 1,
            BinaryDataArrayType::Float64 => 8,
            BinaryDataArrayType::Int64 => 8,
            BinaryDataArrayType::Float32 => 4,
            BinaryDataArrayType::Int32 => 4,
        }
    }
}

/// How the bytes of an array are stored.
#[derive(Debug, Clone, Copy, PartialEq, Eq, Structural)]
pub enum BinaryCompressionType {
    NoCompression,
    Zlib,
    NumpressLinear,
    NumpressSLOF,
    NumpressPIC,
    /// The bytes are already the native little-endian representation.
    Decoded,
}

/// Why an array could not be read.
#[derive(Debug, Clone)]
pub enum ArrayRetrievalError {
    /// The map holds no array of this role.
    NotFound(ArrayType),
    /// Arrays stored under this compression cannot be reconstructed here.
    DecompressionError(BinaryCompressionType),
    /// The array's element type cannot be read as the type that was asked for.
    DecodeError(BinaryDataArrayType),
    /// The byte length is not a multiple of the element width.
    DataTypeSizeMismatch,
    /// Parallel arrays decode to different lengths.
    LengthMismatch,
}

} // verus!
