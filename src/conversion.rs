//! Conversion between an array map and typed peak lists.
use vstd::prelude::*;
use vstd::bytes::{u32_to_le_bytes, u64_to_le_bytes};
use crate::array::{
    lemma_le_bytes32_push, lemma_le_bytes64_push, lemma_le_words32_of_bytes,
    lemma_le_words64_of_bytes, le_bytes32, le_bytes64, DataArray,
};
use crate::encodings::{
    charge_key, intensity_key, mz_key, ArrayKey, ArrayRetrievalError, ArrayType,
    BinaryCompressionType, BinaryDataArrayType,
};
use crate::map::BinaryArrayMap;
use crate::peaks::{centroids_indexed, deconvoluted_indexed, CentroidPeak, DeconvolutedPeak};

verus! {

/// Whether the arrays a peak type needs are present.
#[derive(Debug, Clone)]
pub enum ArraysAvailable {
    /// The peak type names no arrays in advance: decoding must be tried.
    Unknown,
    Available,
    /// These arrays, in the order the peak type lists them, are absent.
    MissingArrays(Vec<ArrayType>),
}

/// The roles of `req` that `m` lacks, in order.
pub open spec fn missing_keys(req: Seq<ArrayKey>, m: BinaryArrayMap) -> Seq<ArrayKey>
    decreases req.len(),
{
    if req.len() == 0 {
        Seq::empty()
    } else {
        let p = missing_keys(req.drop_last(), m);
        if m.get_spec(req.last()) is None {
            p.push(req.last())
        } else {
            p
        }
    }
}

pub open spec fn keys_of(v: Seq<ArrayType>) -> Seq<ArrayKey> {
    v.map_values(|t: ArrayType| t@)
}

/// What `has_arrays_for` reports for a peak type that needs `required`.
pub open spec fn availability_matches(
    required: Option<Seq<ArrayKey>>,
    m: BinaryArrayMap,
    r: ArraysAvailable,
) -> bool {
    match required {
        None => r is Unknown,
        Some(req) => {
            let missing = missing_keys(req, m);
            if missing.len() > 0 {
                r is MissingArrays && keys_of(r->MissingArrays_0@) == missing
            } else {
                r is Available
            }
        },
    }
}

/// Decodes a peak list from the arrays of a spectrum.
pub trait BuildFromArrayMap: Sized {
    /// The roles this peak type needs, if it names them in advance.
    spec fn spec_arrays_required() -> Option<Seq<ArrayKey>>;

    /// The peaks that `arrays` decode to, or why they do not.
    spec fn spec_try_from_arrays(arrays: BinaryArrayMap) -> Result<Seq<Self>, ArrayRetrievalError>;

    fn arrays_required() -> (r: Option<Vec<ArrayType>>)
        ensures
            match r {
                None => Self::spec_arrays_required() is None,
                Some(v) => Self::spec_arrays_required() == Some(keys_of(v@)),
            },
    ;

    fn try_from_arrays(arrays: &BinaryArrayMap) -> (r: Result<Vec<Self>, ArrayRetrievalError>)
        ensures
            match r {
                Ok(v) => Self::spec_try_from_arrays(*arrays) == Ok::<Seq<Self>, ArrayRetrievalError>(v@),
                Err(e) => Self::spec_try_from_arrays(*arrays) == Err::<Seq<Self>, ArrayRetrievalError>(e),
            },
    ;

    /// The peaks of `arrays`, for a map known to decode.
    fn from_arrays(arrays: &BinaryArrayMap) -> (r: Vec<Self>)
        requires
            Self::spec_try_from_arrays(*arrays) is Ok,
        ensures
            Self::spec_try_from_arrays(*arrays) == Ok::<Seq<Self>, ArrayRetrievalError>(r@),
    {
        match Self::try_from_arrays(arrays) {
            Ok(v) => v,
            Err(_) => Vec::new(),
        }
    }

    /// A check for the required arrays that decodes nothing.
    fn has_arrays_for(arrays: &BinaryArrayMap) -> (r: ArraysAvailable)
        ensures
            availability_matches(Self::spec_arrays_required(), *arrays, r),
    {
        match Self::arrays_required() {
            Some(required) => {
                let mut missing: Vec<ArrayType> = Vec::new();
                let mut i: usize = 0;
                while i < required.len()
                    invariant
                        i <= required@.len(),
                        keys_of(missing@) == missing_keys(keys_of(required@).take(i as int), *arrays),
                    decreases required@.len() - i,
                {
                    let ghost req = keys_of(required@);
                    assert(req.take(i + 1).drop_last() =~= req.take(i as int));
                    assert(req.take(i + 1).last() == required@[i as int]@);
                    if !arrays.has_array(&required[i]) {
                        let t = required[i].clone_type();
                        missing.push(t);
                        assert(keys_of(missing@) =~= keys_of(missing@.drop_last()).push(t@));
                    }
                    i = i + 1;
                }
                assert(keys_of(required@).take(required@.len() as int) =~= keys_of(required@));
                if missing.len() > 0 {
                    ArraysAvailable::MissingArrays(missing)
                } else {
                    ArraysAvailable::Available
                }
            },
            None => ArraysAvailable::Unknown,
        }
    }
}

/// The m/z values of `peaks`, in order.
pub open spec fn centroid_mzs(peaks: Seq<CentroidPeak>) -> Seq<u64> {
    peaks.map_values(|p: CentroidPeak| p.mz)
}

/// The intensities of `peaks`, in order.
pub open spec fn centroid_intensities(peaks: Seq<CentroidPeak>) -> Seq<u32> {
    peaks.map_values(|p: CentroidPeak| p.intensity)
}

/// The centroids built by zipping the columns, each indexed by its position.
pub open spec fn zip_centroids(mzs: Seq<u64>, intensities: Seq<u32>) -> Seq<CentroidPeak> {
    Seq::new(mzs.len(), |i: int| CentroidPeak { mz: mzs[i], intensity: intensities[i], index: i as u32 })
}

/// Decoding centroids: both columns must decode, and to the same length.
pub open spec fn decode_centroids(m: BinaryArrayMap) -> Result<Seq<CentroidPeak>, ArrayRetrievalError> {
    match m.spec_mzs() {
        Err(e) => Err(e),
        Ok(mzs) => match m.spec_intensities() {
            Err(e) => Err(e),
            Ok(ints) => if mzs.len() != ints.len() {
                Err(ArrayRetrievalError::LengthMismatch)
            } else {
                Ok(zip_centroids(mzs, ints))
            },
        },
    }
}

/// `a` is a freshly serialised column: role `k`, element type `t`, stored
/// `Decoded`, with bytes `b`.
pub open spec fn column_is(a: Option<DataArray>, k: ArrayKey, t: BinaryDataArrayType, b: Seq<u8>) -> bool {
    &&& a is Some
    &&& a->Some_0.name@ == k
    &&& a->Some_0.dtype == t
    &&& a->Some_0.compression == BinaryCompressionType::Decoded
    &&& a->Some_0.data@ == b
}

/// `m` is the encoding of `peaks`: exactly an m/z column of 64-bit floats and an
/// intensity column of 32-bit floats, little-endian, in peak order.
pub open spec fn encodes_centroids(peaks: Seq<CentroidPeak>, m: BinaryArrayMap) -> bool {
    &&& m.arrays@.len() == 2
    &&& column_is(m.get_spec(mz_key()), mz_key(), BinaryDataArrayType::Float64, le_bytes64(centroid_mzs(peaks)))
    &&& column_is(m.get_spec(intensity_key()), intensity_key(), BinaryDataArrayType::Float32, le_bytes32(centroid_intensities(peaks)))
}

/// Encoding a centroid list and decoding the result gives the list back,
/// provided each peak's index is its position (decoding assigns positions).
pub proof fn lemma_centroid_round_trip(peaks: Seq<CentroidPeak>, m: BinaryArrayMap)
    requires
        encodes_centroids(peaks, m),
        centroids_indexed(peaks),
    ensures
        decode_centroids(m) == Ok::<Seq<CentroidPeak>, ArrayRetrievalError>(peaks),
{
    lemma_le_words64_of_bytes(centroid_mzs(peaks));
    lemma_le_words32_of_bytes(centroid_intensities(peaks));
    assert(m.spec_mzs() == Ok::<Seq<u64>, ArrayRetrievalError>(centroid_mzs(peaks)));
    assert(m.spec_intensities() == Ok::<Seq<u32>, ArrayRetrievalError>(centroid_intensities(peaks)));
    let z = zip_centroids(centroid_mzs(peaks), centroid_intensities(peaks));
    assert forall|i: int| 0 <= i < peaks.len() implies z[i] == peaks[i] by {
        assert(peaks[i].index == i as u32);
    }
    assert(z =~= peaks);
}

/// Decoding fails with a length mismatch whenever both columns decode but
/// to different lengths.
pub proof fn lemma_centroid_length_mismatch(m: BinaryArrayMap)
    requires
        m.spec_mzs() is Ok,
        m.spec_intensities() is Ok,
        m.spec_mzs()->Ok_0.len() != m.spec_intensities()->Ok_0.len(),
    ensures
        decode_centroids(m) == Err::<Seq<CentroidPeak>, ArrayRetrievalError>(ArrayRetrievalError::LengthMismatch),
{
}

/// The capacity hint for `n` elements of `width` bytes.
fn byte_capacity(n: usize, width: usize) -> usize {
    match n.checked_mul(width) {
        Some(c) => c,
        None => 0,
    }
}

/// Serialises a peak list into its arrays.
pub trait BuildArrayMapFrom: Sized {
    /// The roles this peak type fills, if it names them.
    spec fn spec_arrays_included() -> Option<Seq<ArrayKey>>;

    /// `m` is the encoding of `source`.
    spec fn spec_encodes(source: Seq<Self>, m: BinaryArrayMap) -> bool;

    fn arrays_included(&self) -> (r: Option<Vec<ArrayType>>)
        ensures
            match r {
                None => Self::spec_arrays_included() is None,
                Some(v) => Self::spec_arrays_included() == Some(keys_of(v@)),
            },
    ;

    fn as_arrays(source: &[Self]) -> (r: BinaryArrayMap)
        ensures
            Self::spec_encodes(source@, r),
    ;
}

impl BuildArrayMapFrom for CentroidPeak {
    open spec fn spec_arrays_included() -> Option<Seq<ArrayKey>> {
        Some(seq![mz_key(), intensity_key()])
    }

    open spec fn spec_encodes(source: Seq<CentroidPeak>, m: BinaryArrayMap) -> bool {
        encodes_centroids(source, m)
    }

    fn arrays_included(&self) -> (r: Option<Vec<ArrayType>>) {
        let v = vec![ArrayType::MZArray, ArrayType::IntensityArray];
        assert(keys_of(v@) =~= seq![mz_key(), intensity_key()]);
        Some(v)
    }

    fn as_arrays(source: &[CentroidPeak]) -> (r: BinaryArrayMap) {
        let mut arrays = BinaryArrayMap::new();
        let mut mz_array = DataArray::from_name_type_size(
            &ArrayType::MZArray,
            BinaryDataArrayType::Float64,
            byte_capacity(source.len(), BinaryDataArrayType::Float64.size_of()),
        );
        let mut intensity_array = DataArray::from_name_type_size(
            &ArrayType::IntensityArray,
            BinaryDataArrayType::Float32,
            byte_capacity(source.len(), BinaryDataArrayType::Float32.size_of()),
        );
        mz_array.compression = BinaryCompressionType::Decoded;
        intensity_array.compression = BinaryCompressionType::Decoded;

        let mut i: usize = 0;
        while i < source.len()
            invariant
                i <= source@.len(),
                mz_array.name@ == mz_key(),
                mz_array.dtype == BinaryDataArrayType::Float64,
                mz_array.compression == BinaryCompressionType::Decoded,
                mz_array.data@ == le_bytes64(centroid_mzs(source@.take(i as int))),
                intensity_array.name@ == intensity_key(),
                intensity_array.dtype == BinaryDataArrayType::Float32,
                intensity_array.compression == BinaryCompressionType::Decoded,
                intensity_array.data@ == le_bytes32(centroid_intensities(source@.take(i as int))),
            decreases source@.len() - i,
        {
            let p = source[i];
            proof {
                assert(centroid_mzs(source@.take(i + 1)) =~= centroid_mzs(source@.take(i as int)).push(p.mz));
                assert(centroid_intensities(source@.take(i + 1)) =~= centroid_intensities(source@.take(i as int)).push(p.intensity));
                lemma_le_bytes64_push(centroid_mzs(source@.take(i as int)), p.mz);
                lemma_le_bytes32_push(centroid_intensities(source@.take(i as int)), p.intensity);
            }
            let mut mz_bytes = u64_to_le_bytes(p.mz);
            mz_array.data.append(&mut mz_bytes);
            let mut intensity_bytes = u32_to_le_bytes(p.intensity);
            intensity_array.data.append(&mut intensity_bytes);
            i = i + 1;
        }
        assert(source@.take(source@.len() as int) =~= source@);
        arrays.add(mz_array);
        arrays.add(intensity_array);
        arrays
    }
}

impl BuildFromArrayMap for CentroidPeak {
    open spec fn spec_arrays_required() -> Option<Seq<ArrayKey>> {
        Some(seq![mz_key(), intensity_key()])
    }

    open spec fn spec_try_from_arrays(arrays: BinaryArrayMap) -> Result<Seq<CentroidPeak>, ArrayRetrievalError> {
        decode_centroids(arrays)
    }

    fn arrays_required() -> (r: Option<Vec<ArrayType>>) {
        let v = vec![ArrayType::MZArray, ArrayType::IntensityArray];
        assert(keys_of(v@) =~= seq![mz_key(), intensity_key()]);
        Some(v)
    }

    fn try_from_arrays(arrays: &BinaryArrayMap) -> (r: Result<Vec<CentroidPeak>, ArrayRetrievalError>) {
        let mz_array = match arrays.mzs() {
            Ok(v) => v,
            Err(e) => return Err(e),
        };
        let intensity_array = match arrays.intensities() {
            Ok(v) => v,
            Err(e) => return Err(e),
        };
        if mz_array.len() != intensity_array.len() {
            return Err(ArrayRetrievalError::LengthMismatch);
        }
        let mut peaks: Vec<CentroidPeak> = Vec::with_capacity(mz_array.len());
        let mut i: usize = 0;
        while i < mz_array.len()
            invariant
                i <= mz_array@.len(),
                mz_array@.len() == intensity_array@.len(),
                peaks@ =~= zip_centroids(mz_array@, intensity_array@).take(i as int),
            decreases mz_array@.len() - i,
        {
            peaks.push(CentroidPeak { mz: mz_array[i], intensity: intensity_array[i], index: i as u32 });
            i = i + 1;
        }
        assert(zip_centroids(mz_array@, intensity_array@).take(i as int) =~= zip_centroids(mz_array@, intensity_array@));
        Ok(peaks)
    }
}

/// The m/z values of `peaks`, in order.
pub open spec fn deconvoluted_mzs(peaks: Seq<DeconvolutedPeak>) -> Seq<u64> {
    peaks.map_values(|p: DeconvolutedPeak| p.mz)
}

/// The intensities of `peaks`, in order.
pub open spec fn deconvoluted_intensities(peaks: Seq<DeconvolutedPeak>) -> Seq<u32> {
    peaks.map_values(|p: DeconvolutedPeak| p.intensity)
}

/// The charges of `peaks` as their 32-bit two's-complement words, in order.
pub open spec fn deconvoluted_charge_words(peaks: Seq<DeconvolutedPeak>) -> Seq<u32> {
    peaks.map_values(|p: DeconvolutedPeak| p.charge as u32)
}

/// The peaks built by zipping the three columns, each indexed by its position.
pub open spec fn zip_deconvoluted(mzs: Seq<u64>, intensities: Seq<u32>, charges: Seq<i32>) -> Seq<DeconvolutedPeak> {
    Seq::new(
        mzs.len(),
        |i: int| DeconvolutedPeak { mz: mzs[i], intensity: intensities[i], charge: charges[i], index: i as u32 },
    )
}

/// Decoding charged peaks: all three columns must decode, and to one length.
pub open spec fn decode_deconvoluted(m: BinaryArrayMap) -> Result<Seq<DeconvolutedPeak>, ArrayRetrievalError> {
    match m.spec_mzs() {
        Err(e) => Err(e),
        Ok(mzs) => match m.spec_intensities() {
            Err(e) => Err(e),
            Ok(ints) => match m.spec_charges() {
                Err(e) => Err(e),
                Ok(zs) => if mzs.len() != ints.len() || mzs.len() != zs.len() {
                    Err(ArrayRetrievalError::LengthMismatch)
                } else {
                    Ok(zip_deconvoluted(mzs, ints, zs))
                },
            },
        },
    }
}

/// `m` is the encoding of `peaks`: exactly an m/z column of 64-bit floats, an
/// intensity column of 32-bit floats and a charge column of 32-bit integers,
/// little-endian, in peak order.
pub open spec fn encodes_deconvoluted(peaks: Seq<DeconvolutedPeak>, m: BinaryArrayMap) -> bool {
    &&& m.arrays@.len() == 3
    &&& column_is(m.get_spec(mz_key()), mz_key(), BinaryDataArrayType::Float64, le_bytes64(deconvoluted_mzs(peaks)))
    &&& column_is(m.get_spec(intensity_key()), intensity_key(), BinaryDataArrayType::Float32, le_bytes32(deconvoluted_intensities(peaks)))
    &&& column_is(m.get_spec(charge_key()), charge_key(), BinaryDataArrayType::Int32, le_bytes32(deconvoluted_charge_words(peaks)))
}

/// Encoding a charged peak list and decoding the result gives the list back,
/// provided each peak's index is its position (decoding assigns positions).
pub proof fn lemma_deconvoluted_round_trip(peaks: Seq<DeconvolutedPeak>, m: BinaryArrayMap)
    requires
        encodes_deconvoluted(peaks, m),
        deconvoluted_indexed(peaks),
    ensures
        decode_deconvoluted(m) == Ok::<Seq<DeconvolutedPeak>, ArrayRetrievalError>(peaks),
{
    let zw = deconvoluted_charge_words(peaks);
    lemma_le_words64_of_bytes(deconvoluted_mzs(peaks));
    lemma_le_words32_of_bytes(deconvoluted_intensities(peaks));
    lemma_le_words32_of_bytes(zw);
    let zs = zw.map_values(|w: u32| w as i32);
    assert forall|i: int| 0 <= i < peaks.len() implies zs[i] == peaks[i].charge by {
        let c = peaks[i].charge;
        assert((c as u32) as i32 == c) by (bit_vector);
    }
    assert(m.spec_charges() == Ok::<Seq<i32>, ArrayRetrievalError>(zs));
    let z = zip_deconvoluted(deconvoluted_mzs(peaks), deconvoluted_intensities(peaks), zs);
    assert forall|i: int| 0 <= i < peaks.len() implies z[i] == peaks[i] by {
        assert(peaks[i].index == i as u32);
    }
    assert(z =~= peaks);
}

/// Decoding charged peaks fails with a length mismatch whenever all three
/// columns decode but not to one length.
pub proof fn lemma_deconvoluted_length_mismatch(m: BinaryArrayMap)
    requires
        m.spec_mzs() is Ok,
        m.spec_intensities() is Ok,
        m.spec_charges() is Ok,
        m.spec_mzs()->Ok_0.len() != m.spec_intensities()->Ok_0.len()
            || m.spec_mzs()->Ok_0.len() != m.spec_charges()->Ok_0.len(),
    ensures
        decode_deconvoluted(m) == Err::<Seq<DeconvolutedPeak>, ArrayRetrievalError>(ArrayRetrievalError::LengthMismatch),
{
}

impl BuildArrayMapFrom for DeconvolutedPeak {
    open spec fn spec_arrays_included() -> Option<Seq<ArrayKey>> {
        Some(seq![mz_key(), intensity_key(), charge_key()])
    }

    open spec fn spec_encodes(source: Seq<DeconvolutedPeak>, m: BinaryArrayMap) -> bool {
        encodes_deconvoluted(source, m)
    }

    fn arrays_included(&self) -> (r: Option<Vec<ArrayType>>) {
        let v = vec![ArrayType::MZArray, ArrayType::IntensityArray, ArrayType::ChargeArray];
        assert(keys_of(v@) =~= seq![mz_key(), intensity_key(), charge_key()]);
        Some(v)
    }

    fn as_arrays(source: &[DeconvolutedPeak]) -> (r: BinaryArrayMap) {
        let mut arrays = BinaryArrayMap::new();
        let mut mz_array = DataArray::from_name_type_size(
            &ArrayType::MZArray,
            BinaryDataArrayType::Float64,
            byte_capacity(source.len(), BinaryDataArrayType::Float64.size_of()),
        );
        let mut intensity_array = DataArray::from_name_type_size(
            &ArrayType::IntensityArray,
            BinaryDataArrayType::Float32,
            byte_capacity(source.len(), BinaryDataArrayType::Float32.size_of()),
        );
        let mut charge_array = DataArray::from_name_type_size(
            &ArrayType::ChargeArray,
            BinaryDataArrayType::Int32,
            byte_capacity(source.len(), BinaryDataArrayType::Int32.size_of()),
        );
        mz_array.compression = BinaryCompressionType::Decoded;
        intensity_array.compression = BinaryCompressionType::Decoded;
        charge_array.compression = BinaryCompressionType::Decoded;

        let mut i: usize = 0;
        while i < source.len()
            invariant
                i <= source@.len(),
                mz_array.name@ == mz_key(),
                mz_array.dtype == BinaryDataArrayType::Float64,
                mz_array.compression == BinaryCompressionType::Decoded,
                mz_array.data@ == le_bytes64(deconvoluted_mzs(source@.take(i as int))),
                intensity_array.name@ == intensity_key(),
                intensity_array.dtype == BinaryDataArrayType::Float32,
                intensity_array.compression == BinaryCompressionType::Decoded,
                intensity_array.data@ == le_bytes32(deconvoluted_intensities(source@.take(i as int))),
                charge_array.name@ == charge_key(),
                charge_array.dtype == BinaryDataArrayType::Int32,
                charge_array.compression == BinaryCompressionType::Decoded,
                charge_array.data@ == le_bytes32(deconvoluted_charge_words(source@.take(i as int))),
            decreases source@.len() - i,
        {
            let p = source[i];
            proof {
                let prev = source@.take(i as int);
                assert(deconvoluted_mzs(source@.take(i + 1)) =~= deconvoluted_mzs(prev).push(p.mz));
                assert(deconvoluted_intensities(source@.take(i + 1)) =~= deconvoluted_intensities(prev).push(p.intensity));
                assert(deconvoluted_charge_words(source@.take(i + 1)) =~= deconvoluted_charge_words(prev).push(p.charge as u32));
                lemma_le_bytes64_push(deconvoluted_mzs(prev), p.mz);
                lemma_le_bytes32_push(deconvoluted_intensities(prev), p.intensity);
                lemma_le_bytes32_push(deconvoluted_charge_words(prev), p.charge as u32);
            }
            let mut mz_bytes = u64_to_le_bytes(p.mz);
            mz_array.data.append(&mut mz_bytes);
            let mut intensity_bytes = u32_to_le_bytes(p.intensity);
            intensity_array.data.append(&mut intensity_bytes);
            let mut charge_bytes = u32_to_le_bytes(p.charge as u32);
            charge_array.data.append(&mut charge_bytes);
            i = i + 1;
        }
        assert(source@.take(source@.len() as int) =~= source@);
        arrays.add(mz_array);
        arrays.add(intensity_array);
        arrays.add(charge_array);
        arrays
    }
}

impl BuildFromArrayMap for DeconvolutedPeak {
    open spec fn spec_arrays_required() -> Option<Seq<ArrayKey>> {
        Some(seq![mz_key(), intensity_key(), charge_key()])
    }

    open spec fn spec_try_from_arrays(arrays: BinaryArrayMap) -> Result<Seq<DeconvolutedPeak>, ArrayRetrievalError> {
        decode_deconvoluted(arrays)
    }

    fn arrays_required() -> (r: Option<Vec<ArrayType>>) {
        let v = vec![ArrayType::MZArray, ArrayType::IntensityArray, ArrayType::ChargeArray];
        assert(keys_of(v@) =~= seq![mz_key(), intensity_key(), charge_key()]);
        Some(v)
    }

    fn try_from_arrays(arrays: &BinaryArrayMap) -> (r: Result<Vec<DeconvolutedPeak>, ArrayRetrievalError>) {
        let mz_array = match arrays.mzs() {
            Ok(v) => v,
            Err(e) => return Err(e),
        };
        let intensity_array = match arrays.intensities() {
            Ok(v) => v,
            Err(e) => return Err(e),
        };
        let charge_array = match arrays.charges() {
            Ok(v) => v,
            Err(e) => return Err(e),
        };
        if mz_array.len() != intensity_array.len() || mz_array.len() != charge_array.len() {
            return Err(ArrayRetrievalError::LengthMismatch);
        }
        let mut peaks: Vec<DeconvolutedPeak> = Vec::with_capacity(mz_array.len());
        let mut i: usize = 0;
        while i < mz_array.len()
            invariant
                i <= mz_array@.len(),
                mz_array@.len() == intensity_array@.len(),
                mz_array@.len() == charge_array@.len(),
                peaks@ =~= zip_deconvoluted(mz_array@, intensity_array@, charge_array@).take(i as int),
            decreases mz_array@.len() - i,
        {
            peaks.push(
                DeconvolutedPeak {
                    mz: mz_array[i],
                    intensity: intensity_array[i],
                    charge: charge_array[i],
                    index: i as u32,
                },
            );
            i = i + 1;
        }
        assert(zip_deconvoluted(mz_array@, intensity_array@, charge_array@).take(i as int)
            =~= zip_deconvoluted(mz_array@, intensity_array@, charge_array@));
        Ok(peaks)
    }
}

} // verus!
