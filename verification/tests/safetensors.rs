use wwama::safetensors::{read_safetensor_f32, JinaRerankProjector};
use wwama::Error;

fn file(header: &str, values: &[f32]) -> Vec<u8> {
    let mut bytes = (header.len() as u64).to_le_bytes().to_vec();
    bytes.extend_from_slice(header.as_bytes());
    for v in values {
        bytes.extend_from_slice(&v.to_le_bytes());
    }
    bytes
}

fn projector_file(shape0: &str, shape2: &str, n0: usize, n2: usize) -> Vec<u8> {
    let header = format!(
        "{{\"projector.0.weight\":{{\"dtype\":\"F32\",\"shape\":{shape0},\"data_offsets\":[0,{}]}},\"projector.2.weight\":{{\"dtype\":\"F32\",\"shape\":{shape2},\"data_offsets\":[{},{}]}}}}",
        n0 * 4,
        n0 * 4,
        (n0 + n2) * 4
    );
    let values: Vec<f32> = (0..n0 + n2).map(|i| i as f32 + 0.5).collect();
    file(&header, &values)
}

#[test]
fn reads_tensor_shape_and_words() {
    let bytes = file(
        "{\"w\":{\"dtype\":\"F32\",\"shape\":[ 2,\u{a0}3 ],\"data_offsets\":[0,24]},\"__metadata__\":{}}",
        &[1.0, 2.0, 3.0, 4.0, 5.0, -6.0],
    );
    let (shape, data) = read_safetensor_f32(&bytes, b"w").unwrap();
    assert_eq!(shape, vec![2, 3]);
    let floats: Vec<f32> = data.iter().map(|b| f32::from_bits(*b)).collect();
    assert_eq!(floats, vec![1.0, 2.0, 3.0, 4.0, 5.0, -6.0]);
}

#[test]
fn reads_lists_with_signs_and_gaps() {
    let bytes = file(
        "{\"w\":{\"dtype\":\"F32\",\"shape\":[+1,,2,],\"data_offsets\":[0,8]}}",
        &[1.0, 2.0],
    );
    let (shape, _) = read_safetensor_f32(&bytes, b"w").unwrap();
    assert_eq!(shape, vec![1, 2]);
}

#[test]
fn rejects_malformed_entries() {
    let invalid = Err(Error::ProjectorInvalid);
    assert_eq!(read_safetensor_f32(&[1, 2, 3], b"w"), invalid);
    let f16 = file("{\"w\":{\"dtype\":\"F16\",\"shape\":[1],\"data_offsets\":[0,4]}}", &[1.0]);
    assert_eq!(read_safetensor_f32(&f16, b"w"), invalid);
    let short = file("{\"w\":{\"dtype\":\"F32\",\"shape\":[2],\"data_offsets\":[0,4]}}", &[1.0]);
    assert_eq!(read_safetensor_f32(&short, b"w"), invalid);
    let past_end = file("{\"w\":{\"dtype\":\"F32\",\"shape\":[2],\"data_offsets\":[0,8]}}", &[1.0]);
    assert_eq!(read_safetensor_f32(&past_end, b"w"), invalid);
    let bad_number = file("{\"w\":{\"dtype\":\"F32\",\"shape\":[x],\"data_offsets\":[0,4]}}", &[1.0]);
    assert_eq!(read_safetensor_f32(&bad_number, b"w"), invalid);
    let no_shape = file("{\"w\":{\"dtype\":\"F32\",\"shape\":[],\"data_offsets\":[0,0]}}", &[]);
    assert_eq!(read_safetensor_f32(&no_shape, b"w"), invalid);
    let missing = file("{\"v\":{\"dtype\":\"F32\",\"shape\":[1],\"data_offsets\":[0,4]}}", &[1.0]);
    assert_eq!(read_safetensor_f32(&missing, b"w"), invalid);
    let unclosed = file("{\"w\":{\"dtype\":\"F32\",\"shape\":[1],\"data_offsets\":[0,4]", &[1.0]);
    assert_eq!(read_safetensor_f32(&unclosed, b"w"), invalid);
    let mut not_utf8 = file("{\"w\":{\"dtype\":\"F32\",\"shape\":[1],\"data_offsets\":[0,4]}}", &[1.0]);
    not_utf8[9] = 0xff;
    assert_eq!(read_safetensor_f32(&not_utf8, b"w"), invalid);
    let mut huge = vec![0xffu8; 8];
    huge.extend_from_slice(b"{}");
    assert_eq!(read_safetensor_f32(&huge, b"w"), invalid);
    let overflow = file(
        "{\"w\":{\"dtype\":\"F32\",\"shape\":[4294967296,4294967296],\"data_offsets\":[0,4]}}",
        &[1.0],
    );
    assert_eq!(read_safetensor_f32(&overflow, b"w"), invalid);
}

#[test]
fn loads_projector() {
    let bytes = projector_file("[2,3]", "[4,2]", 6, 8);
    let p = JinaRerankProjector::from_safetensors(&bytes).unwrap();
    assert_eq!(p.input_dim(), 3);
    assert_eq!(p.output_dim(), 4);
    let (w1, rows1) = p.first_layer();
    assert_eq!(rows1, 2);
    assert_eq!(w1.len(), 6);
    assert_eq!(f32::from_bits(w1[1]), 1.5);
    let (w2, rows2) = p.second_layer();
    assert_eq!(rows2, 4);
    assert_eq!(f32::from_bits(w2[0]), 6.5);
}

#[test]
fn rejects_inconsistent_projectors() {
    let mismatched = projector_file("[2,3]", "[4,3]", 6, 12);
    assert_eq!(JinaRerankProjector::from_safetensors(&mismatched).unwrap_err(), Error::ProjectorInvalid);
    let three_d = projector_file("[1,2,3]", "[4,1]", 6, 4);
    assert_eq!(JinaRerankProjector::from_safetensors(&three_d).unwrap_err(), Error::ProjectorInvalid);
    let zero = projector_file("[0,3]", "[4,0]", 0, 0);
    assert_eq!(JinaRerankProjector::from_safetensors(&zero).unwrap_err(), Error::ProjectorInvalid);
    assert_eq!(JinaRerankProjector::from_safetensors(&[]).unwrap_err(), Error::ProjectorInvalid);
}
