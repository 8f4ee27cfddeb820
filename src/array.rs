//! One named array of a spectrum: bytes, element type and compression.
use vstd::prelude::*;
use vstd::bytes::{
    lemma_auto_spec_u32_to_from_le_bytes, lemma_auto_spec_u64_to_from_le_bytes, spec_u32_from_le_bytes,
    spec_u32_to_le_bytes, spec_u64_from_le_bytes, spec_u64_to_le_bytes, u32_from_le_bytes, u64_from_le_bytes,
};
use vstd::slice::slice_subrange;
use crate::encodings::{ArrayRetrievalError, ArrayType, BinaryCompressionType, BinaryDataArrayType};

verus! {

/// The little-endian 8-byte words of `b`, read in order.
pub open spec fn le_words64(b: Seq<u8>) -> Seq<u64> {
    Seq::new(b.len() / 8, |i: int| spec_u64_from_le_bytes(b.subrange(8 * i, 8 * i + 8)))
}

/// The little-endian 4-byte words of `b`, read in order.
pub open spec fn le_words32(b: Seq<u8>) -> Seq<u32> {
    Seq::new(b.len() / 4, |i: int| spec_u32_from_le_bytes(b.subrange(4 * i, 4 * i + 4)))
}

/// The little-endian bytes of each word of `s`, in order.
pub open spec fn le_bytes64(s: Seq<u64>) -> Seq<u8>
    decreases s.len(),
{
    if s.len() == 0 {
        Seq::empty()
    } else {
        le_bytes64(s.drop_last()) + spec_u64_to_le_bytes(s.last())
    }
}

/// The little-endian bytes of each word of `s`, in order.
pub open spec fn le_bytes32(s: Seq<u32>) -> Seq<u8>
    decreases s.len(),
{
    if s.len() == 0 {
        Seq::empty()
    } else {
        le_bytes32(s.drop_last()) + spec_u32_to_le_bytes(s.last())
    }
}

proof fn lemma_le_bytes64_layout(s: Seq<u64>)
    ensures
        le_bytes64(s).len() == 8 * s.len(),
        forall|i: int| 0 <= i < s.len() ==> #[trigger] le_bytes64(s).subrange(8 * i, 8 * i + 8)
            == spec_u64_to_le_bytes(s[i]),
    decreases s.len(),
{
    lemma_auto_spec_u64_to_from_le_bytes();
    if s.len() > 0 {
        let p = s.drop_last();
        lemma_le_bytes64_layout(p);
        let b = le_bytes64(s);
        assert forall|i: int| 0 <= i < s.len() implies #[trigger] b.subrange(8 * i, 8 * i + 8)
            == spec_u64_to_le_bytes(s[i]) by {
            if i < p.len() {
                assert(b.subrange(8 * i, 8 * i + 8) =~= le_bytes64(p).subrange(8 * i, 8 * i + 8));
            } else {
                assert(b.subrange(8 * i, 8 * i + 8) =~= spec_u64_to_le_bytes(s.last()));
            }
        }
    }
}

proof fn lemma_le_bytes32_layout(s: Seq<u32>)
    ensures
        le_bytes32(s).len() == 4 * s.len(),
        forall|i: int| 0 <= i < s.len() ==> #[trigger] le_bytes32(s).subrange(4 * i, 4 * i + 4)
            == spec_u32_to_le_bytes(s[i]),
    decreases s.len(),
{
    lemma_auto_spec_u32_to_from_le_bytes();
    if s.len() > 0 {
        let p = s.drop_last();
        lemma_le_bytes32_layout(p);
        let b = le_bytes32(s);
        assert forall|i: int| 0 <= i < s.len() implies #[trigger] b.subrange(4 * i, 4 * i + 4)
            == spec_u32_to_le_bytes(s[i]) by {
            if i < p.len() {
                assert(b.subrange(4 * i, 4 * i + 4) =~= le_bytes32(p).subrange(4 * i, 4 * i + 4));
            } else {
                assert(b.subrange(4 * i, 4 * i + 4) =~= spec_u32_to_le_bytes(s.last()));
            }
        }
    }
}

/// Reading back the bytes of a sequence of 8-byte words gives the words.
pub proof fn lemma_le_words64_of_bytes(s: Seq<u64>)
    ensures
        le_words64(le_bytes64(s)) == s,
        le_bytes64(s).len() % 8 == 0,
{
    lemma_auto_spec_u64_to_from_le_bytes();
    lemma_le_bytes64_layout(s);
    let w = le_words64(le_bytes64(s));
    assert forall|i: int| 0 <= i < s.len() implies w[i] == s[i] by {
        assert(le_bytes64(s).subrange(8 * i, 8 * i + 8) == spec_u64_to_le_bytes(s[i]));
    }
    assert(w =~= s);
}

/// Reading back the bytes of a sequence of 4-byte words gives the words.
pub proof fn lemma_le_words32_of_bytes(s: Seq<u32>)
    ensures
        le_words32(le_bytes32(s)) == s,
        le_bytes32(s).len() % 4 == 0,
{
    lemma_auto_spec_u32_to_from_le_bytes();
    lemma_le_bytes32_layout(s);
    let w = le_words32(le_bytes32(s));
    assert forall|i: int| 0 <= i < s.len() implies w[i] == s[i] by {
        assert(le_bytes32(s).subrange(4 * i, 4 * i + 4) == spec_u32_to_le_bytes(s[i]));
    }
    assert(w =~= s);
}

pub proof fn lemma_le_bytes64_push(s: Seq<u64>, x: u64)
    ensures
        le_bytes64(s.push(x)) == le_bytes64(s) + spec_u64_to_le_bytes(x),
{
    assert(s.push(x).drop_last() =~= s);
}

pub proof fn lemma_le_bytes32_push(s: Seq<u32>, x: u32)
    ensures
        le_bytes32(s.push(x)) == le_bytes32(s) + spec_u32_to_le_bytes(x),
{
    assert(s.push(x).drop_last() =~= s);
}

/// Reads `b` as consecutive little-endian 8-byte words.
pub fn read_words64(b: &Vec<u8>) -> (r: Vec<u64>)
    requires
        b@.len() % 8 == 0,
    ensures
        r@ == le_words64(b@),
{
    let len: usize = b.len();
    let n: usize = len / 8;
    let mut r: Vec<u64> = Vec::with_capacity(n);
    let mut i: usize = 0;
    while i < n
        invariant
            len == b@.len(),
            n == len / 8,
            i <= n,
            r@ =~= le_words64(b@).take(i as int),
        decreases n - i,
    {
        assert(8 * i + 8 <= b@.len()) by (nonlinear_arith)
            requires
                i < n,
                n == len / 8,
                len == b@.len(),
        ;
        let w = u64_from_le_bytes(slice_subrange(b.as_slice(), 8 * i, 8 * i + 8));
        r.push(w);
        i = i + 1;
    }
    r
}

/// Reads `b` as consecutive little-endian 4-byte words.
pub fn read_words32(b: &Vec<u8>) -> (r: Vec<u32>)
    requires
        b@.len() % 4 == 0,
    ensures
        r@ == le_words32(b@),
{
    let len: usize = b.len();
    let n: usize = len / 4;
    let mut r: Vec<u32> = Vec::with_capacity(n);
    let mut i: usize = 0;
    while i < n
        invariant
            len == b@.len(),
            n == len / 4,
            i <= n,
            r@ =~= le_words32(b@).take(i as int),
        decreases n - i,
    {
        assert(4 * i + 4 <= b@.len()) by (nonlinear_arith)
            requires
                i < n,
                n == len / 4,
                len == b@.len(),
        ;
        let w = u32_from_le_bytes(slice_subrange(b.as_slice(), 4 * i, 4 * i + 4));
        r.push(w);
        i = i + 1;
    }
    r
}

/// One array of a spectrum. The bytes belong to this array alone.
#[derive(Debug, Clone)]
pub struct DataArray {
    pub data: Vec<u8>,
    pub dtype: BinaryDataArrayType,
    pub compression: BinaryCompressionType,
    pub name: ArrayType,
}

impl DataArray {
    /// The bytes in their native little-endian layout, or why they cannot be had.
    pub open spec fn spec_decoded(&self) -> Result<Seq<u8>, ArrayRetrievalError> {
        match self.compression {
            BinaryCompressionType::Decoded | BinaryCompressionType::NoCompression => {
                if self.data@.len() % self.dtype.spec_size_of() == 0 {
                    Ok(self.data@)
                } else {
                    Err(ArrayRetrievalError::DataTypeSizeMismatch)
                }
            },
            _ => Err(ArrayRetrievalError::DecompressionError(self.compression)),
        }
    }

    /// The elements as 8-byte bit patterns; only a 64-bit float array is read this way.
    pub open spec fn spec_f64_bits(&self) -> Result<Seq<u64>, ArrayRetrievalError> {
        if self.dtype != BinaryDataArrayType::Float64 {
            Err(ArrayRetrievalError::DecodeError(self.dtype))
        } else {
            match self.spec_decoded() {
                Ok(b) => Ok(le_words64(b)),
                Err(e) => Err(e),
            }
        }
    }

    /// The elements as 4-byte bit patterns; only a 32-bit float array is read this way.
    pub open spec fn spec_f32_bits(&self) -> Result<Seq<u32>, ArrayRetrievalError> {
        if self.dtype != BinaryDataArrayType::Float32 {
            Err(ArrayRetrievalError::DecodeError(self.dtype))
        } else {
            match self.spec_decoded() {
                Ok(b) => Ok(le_words32(b)),
                Err(e) => Err(e),
            }
        }
    }

    /// The elements as 32-bit signed integers; only an `Int32` array is read this way.
    pub open spec fn spec_i32s(&self) -> Result<Seq<i32>, ArrayRetrievalError> {
        if self.dtype != BinaryDataArrayType::Int32 {
            Err(ArrayRetrievalError::DecodeError(self.dtype))
        } else {
            match self.spec_decoded() {
                Ok(b) => Ok(le_words32(b).map_values(|w: u32| w as i32)),
                Err(e) => Err(e),
            }
        }
    }

    /// An empty array of the given role and element type with room for `size` bytes.
    pub fn from_name_type_size(name: &ArrayType, dtype: BinaryDataArrayType, size: usize) -> (r: DataArray)
        ensures
            r.name@ == name@,
            r.dtype == dtype,
            r.compression == BinaryCompressionType::NoCompression,
            r.data@.len() == 0,
    {
        DataArray {
            data: Vec::with_capacity(size),
            dtype,
            compression: BinaryCompressionType::NoCompression,
            name: name.clone_type(),
        }
    }

    /// The bytes in their native little-endian layout. A `Decoded` or
    /// uncompressed array hands back its stored bytes unchanged.
    pub fn decode(&self) -> (r: Result<Vec<u8>, ArrayRetrievalError>)
        ensures
            self.compression == BinaryCompressionType::Decoded && self.data@.len() % self.dtype.spec_size_of() == 0
                ==> r is Ok && r->Ok_0@ == self.data@,
            match r {
                Ok(b) => self.spec_decoded() == Ok::<Seq<u8>, ArrayRetrievalError>(b@),
                Err(e) => self.spec_decoded() == Err::<Seq<u8>, ArrayRetrievalError>(e),
            },
    {
        match self.compression {
            BinaryCompressionType::Decoded | BinaryCompressionType::NoCompression => {
                if self.data.len() % self.dtype.size_of() == 0 {
                    Ok(self.data.clone())
                } else {
                    Err(ArrayRetrievalError::DataTypeSizeMismatch)
                }
            },
            _ => Err(ArrayRetrievalError::DecompressionError(self.compression)),
        }
    }

    /// The elements of a 64-bit float array, as bit patterns.
    pub fn to_f64_bits(&self) -> (r: Result<Vec<u64>, ArrayRetrievalError>)
        ensures
            match r {
                Ok(v) => self.spec_f64_bits() == Ok::<Seq<u64>, ArrayRetrievalError>(v@),
                Err(e) => self.spec_f64_bits() == Err::<Seq<u64>, ArrayRetrievalError>(e),
            },
    {
        match self.dtype {
            BinaryDataArrayType::Float64 => {},
            _ => return Err(ArrayRetrievalError::DecodeError(self.dtype)),
        }
        match self.decode() {
            Ok(b) => Ok(read_words64(&b)),
            Err(e) => Err(e),
        }
    }

    /// The elements of a 32-bit float array, as bit patterns.
    pub fn to_f32_bits(&self) -> (r: Result<Vec<u32>, ArrayRetrievalError>)
        ensures
            match r {
                Ok(v) => self.spec_f32_bits() == Ok::<Seq<u32>, ArrayRetrievalError>(v@),
                Err(e) => self.spec_f32_bits() == Err::<Seq<u32>, ArrayRetrievalError>(e),
            },
    {
        match self.dtype {
            BinaryDataArrayType::Float32 => {},
            _ => return Err(ArrayRetrievalError::DecodeError(self.dtype)),
        }
        match self.decode() {
            Ok(b) => Ok(read_words32(&b)),
            Err(e) => Err(e),
        }
    }

    /// The elements of a 32-bit integer array.
    pub fn to_i32s(&self) -> (r: Result<Vec<i32>, ArrayRetrievalError>)
        ensures
            match r {
                Ok(v) => self.spec_i32s() == Ok::<Seq<i32>, ArrayRetrievalError>(v@),
                Err(e) => self.spec_i32s() == Err::<Seq<i32>, ArrayRetrievalError>(e),
            },
    {
        match self.dtype {
            BinaryDataArrayType::Int32 => {},
            _ => return Err(ArrayRetrievalError::DecodeError(self.dtype)),
        }
        let b = match self.decode() {
            Ok(b) => b,
            Err(e) => return Err(e),
        };
        let words = read_words32(&b);
        let mut r: Vec<i32> = Vec::with_capacity(words.len());
        let mut i: usize = 0;
        while i < words.len()
            invariant
                i <= words@.len(),
                r@ =~= words@.take(i as int).map_values(|w: u32| w as i32),
            decreases words@.len() - i,
        {
            r.push(words[i] as i32);
            i = i + 1;
        }
        assert(words@.take(words@.len() as int) =~= words@);
        Ok(r)
    }
}

} // verus!
