use mzdata::array::DataArray;
use mzdata::conversion::{ArraysAvailable, BuildArrayMapFrom, BuildFromArrayMap};
use mzdata::encodings::{ArrayRetrievalError, ArrayType, BinaryCompressionType, BinaryDataArrayType};
use mzdata::map::BinaryArrayMap;
use mzdata::peaks::{CentroidPeak, DeconvolutedPeak};

fn f64_array(name: ArrayType, values: &[f64]) -> DataArray {
    let mut data = Vec::new();
    for v in values {
        data.extend(v.to_le_bytes());
    }
    DataArray { data, dtype: BinaryDataArrayType::Float64, compression: BinaryCompressionType::Decoded, name }
}

fn f32_array(name: ArrayType, values: &[f32]) -> DataArray {
    let mut data = Vec::new();
    for v in values {
        data.extend(v.to_le_bytes());
    }
    DataArray { data, dtype: BinaryDataArrayType::Float32, compression: BinaryCompressionType::Decoded, name }
}

fn i32_array(name: ArrayType, values: &[i32]) -> DataArray {
    let mut data = Vec::new();
    for v in values {
        data.extend(v.to_le_bytes());
    }
    DataArray { data, dtype: BinaryDataArrayType::Int32, compression: BinaryCompressionType::Decoded, name }
}

fn centroid_map(mzs: &[f64], intensities: &[f32]) -> BinaryArrayMap {
    let mut m = BinaryArrayMap::new();
    m.add(f64_array(ArrayType::MZArray, mzs));
    m.add(f32_array(ArrayType::IntensityArray, intensities));
    m
}

#[test]
fn centroid_decode_scenario() {
    let m = centroid_map(&[100.0, 200.0], &[10.0, 20.0]);
    let peaks = CentroidPeak::try_from_arrays(&m).unwrap();
    assert_eq!(
        peaks,
        vec![
            CentroidPeak { mz: 100.0f64.to_bits(), intensity: 10.0f32.to_bits(), index: 0 },
            CentroidPeak { mz: 200.0f64.to_bits(), intensity: 20.0f32.to_bits(), index: 1 },
        ]
    );
    assert_eq!(f64::from_bits(peaks[1].mz), 200.0);
    assert_eq!(f32::from_bits(peaks[1].intensity), 20.0);
}

#[test]
fn centroid_round_trip() {
    let peaks = vec![
        CentroidPeak { mz: 101.5f64.to_bits(), intensity: 3.25f32.to_bits(), index: 0 },
        CentroidPeak { mz: 250.125f64.to_bits(), intensity: 1e6f32.to_bits(), index: 1 },
        CentroidPeak { mz: 999.999f64.to_bits(), intensity: 0.5f32.to_bits(), index: 2 },
    ];
    let m = CentroidPeak::as_arrays(&peaks);
    assert_eq!(m.arrays.len(), 2);
    let mz = m.get(&ArrayType::MZArray).unwrap();
    assert_eq!(mz.dtype, BinaryDataArrayType::Float64);
    assert_eq!(mz.compression, BinaryCompressionType::Decoded);
    assert_eq!(mz.data.len(), 24);
    assert_eq!(&mz.data[0..8], &101.5f64.to_le_bytes());
    let back = CentroidPeak::from_arrays(&m);
    assert_eq!(back, peaks);
}

#[test]
fn centroid_round_trip_empty() {
    let peaks: Vec<CentroidPeak> = Vec::new();
    let m = CentroidPeak::as_arrays(&peaks);
    assert_eq!(CentroidPeak::try_from_arrays(&m).unwrap(), peaks);
}

#[test]
fn deconvoluted_round_trip() {
    let peaks = vec![
        DeconvolutedPeak { mz: 500.25f64.to_bits(), intensity: 12.0f32.to_bits(), charge: 2, index: 0 },
        DeconvolutedPeak { mz: 733.5f64.to_bits(), intensity: 7.5f32.to_bits(), charge: -3, index: 1 },
    ];
    let m = DeconvolutedPeak::as_arrays(&peaks);
    assert_eq!(m.arrays.len(), 3);
    let z = m.get(&ArrayType::ChargeArray).unwrap();
    assert_eq!(z.dtype, BinaryDataArrayType::Int32);
    assert_eq!(&z.data[4..8], &(-3i32).to_le_bytes());
    assert_eq!(DeconvolutedPeak::try_from_arrays(&m).unwrap(), peaks);
}

#[test]
fn deconvoluted_decode_charges() {
    let mut m = centroid_map(&[300.0], &[4.0]);
    m.add(i32_array(ArrayType::ChargeArray, &[5]));
    let peaks = DeconvolutedPeak::try_from_arrays(&m).unwrap();
    assert_eq!(peaks, vec![DeconvolutedPeak { mz: 300.0f64.to_bits(), intensity: 4.0f32.to_bits(), charge: 5, index: 0 }]);
}

#[test]
fn length_mismatch_is_reported() {
    let m = centroid_map(&[100.0, 200.0, 300.0], &[10.0, 20.0]);
    assert!(matches!(CentroidPeak::try_from_arrays(&m), Err(ArrayRetrievalError::LengthMismatch)));
    let mut m = centroid_map(&[100.0], &[10.0]);
    m.add(i32_array(ArrayType::ChargeArray, &[1, 2]));
    assert!(matches!(DeconvolutedPeak::try_from_arrays(&m), Err(ArrayRetrievalError::LengthMismatch)));
}

#[test]
fn missing_array_is_reported() {
    let mut m = BinaryArrayMap::new();
    m.add(f64_array(ArrayType::MZArray, &[1.0]));
    match CentroidPeak::try_from_arrays(&m) {
        Err(ArrayRetrievalError::NotFound(t)) => assert!(t == ArrayType::IntensityArray),
        other => panic!("unexpected {:?}", other),
    }
    let m = centroid_map(&[1.0], &[2.0]);
    match DeconvolutedPeak::try_from_arrays(&m) {
        Err(ArrayRetrievalError::NotFound(t)) => assert!(t == ArrayType::ChargeArray),
        other => panic!("unexpected {:?}", other),
    }
}

#[test]
fn wrong_element_type_is_reported() {
    let mut m = BinaryArrayMap::new();
    m.add(f32_array(ArrayType::MZArray, &[1.0]));
    m.add(f32_array(ArrayType::IntensityArray, &[1.0]));
    assert!(matches!(
        CentroidPeak::try_from_arrays(&m),
        Err(ArrayRetrievalError::DecodeError(BinaryDataArrayType::Float32))
    ));
}

#[test]
fn compressed_array_is_not_reconstructed() {
    let mut a = f64_array(ArrayType::MZArray, &[1.0]);
    a.compression = BinaryCompressionType::Zlib;
    assert!(matches!(a.decode(), Err(ArrayRetrievalError::DecompressionError(BinaryCompressionType::Zlib))));
}

#[test]
fn truncated_buffer_is_reported() {
    let mut a = f64_array(ArrayType::MZArray, &[1.0, 2.0]);
    a.data.pop();
    assert!(matches!(a.decode(), Err(ArrayRetrievalError::DataTypeSizeMismatch)));
    assert!(matches!(a.to_f64_bits(), Err(ArrayRetrievalError::DataTypeSizeMismatch)));
}

#[test]
fn decoded_array_bytes_are_unchanged() {
    let a = f64_array(ArrayType::MZArray, &[1.5, -2.25]);
    let bytes = a.decode().unwrap();
    assert_eq!(bytes, a.data);
    let words = a.to_f64_bits().unwrap();
    assert_eq!(words, vec![1.5f64.to_bits(), (-2.25f64).to_bits()]);
}

#[test]
fn availability_check() {
    let m = centroid_map(&[1.0], &[2.0]);
    assert!(matches!(CentroidPeak::has_arrays_for(&m), ArraysAvailable::Available));
    match DeconvolutedPeak::has_arrays_for(&m) {
        ArraysAvailable::MissingArrays(v) => {
            assert_eq!(v.len(), 1);
            assert!(v[0] == ArrayType::ChargeArray);
        }
        other => panic!("unexpected {:?}", other),
    }
    let empty = BinaryArrayMap::new();
    match DeconvolutedPeak::has_arrays_for(&empty) {
        ArraysAvailable::MissingArrays(v) => {
            assert_eq!(v.len(), 3);
            assert!(v[0] == ArrayType::MZArray);
            assert!(v[1] == ArrayType::IntensityArray);
            assert!(v[2] == ArrayType::ChargeArray);
        }
        other => panic!("unexpected {:?}", other),
    }
}

#[test]
fn arrays_named_by_each_peak_type() {
    let c = CentroidPeak { mz: 0, intensity: 0, index: 0 };
    assert_eq!(c.arrays_included().unwrap().len(), 2);
    let d = DeconvolutedPeak { mz: 0, intensity: 0, charge: 1, index: 0 };
    let v = d.arrays_included().unwrap();
    assert!(v[2] == ArrayType::ChargeArray);
    assert_eq!(CentroidPeak::arrays_required().unwrap().len(), 2);
    assert_eq!(DeconvolutedPeak::arrays_required().unwrap().len(), 3);
}

#[test]
fn adding_replaces_same_role() {
    let mut m = centroid_map(&[1.0], &[2.0]);
    m.add(f64_array(ArrayType::MZArray, &[7.0, 8.0]));
    assert_eq!(m.arrays.len(), 2);
    assert_eq!(m.mzs().unwrap(), vec![7.0f64.to_bits(), 8.0f64.to_bits()]);
    let other = ArrayType::NonStandardDataArray { name: "ion mobility".to_string() };
    assert!(!m.has_array(&other));
    m.add(f64_array(other.clone_type(), &[0.5]));
    assert!(m.has_array(&ArrayType::NonStandardDataArray { name: "ion mobility".to_string() }));
    assert!(!m.has_array(&ArrayType::NonStandardDataArray { name: "drift".to_string() }));
}

#[test]
fn element_widths() {
    assert_eq!(BinaryDataArrayType::Float64.size_of(), 8);
    assert_eq!(BinaryDataArrayType::Float32.size_of(), 4);
    assert_eq!(BinaryDataArrayType::Int32.size_of(), 4);
    assert_eq!(BinaryDataArrayType::Int64.size_of(), 8);
    assert_eq!(BinaryDataArrayType::ASCII.size_of(), 1);
}
