use compute_kernel::records::{bytes_to_opaque_array, opaque_array_to_bytes, Ray, TestVec};
use compute_kernel::words::{le_bytes_to_words, words_to_le_bytes};

fn bits(v: [f32; 4]) -> [u32; 4] {
    [v[0].to_bits(), v[1].to_bits(), v[2].to_bits(), v[3].to_bits()]
}

#[test]
fn words_encode_little_endian() {
    let bytes = words_to_le_bytes(&[0x0403_0201, 0xffff_ffff, 0]);
    assert_eq!(bytes, vec![1, 2, 3, 4, 0xff, 0xff, 0xff, 0xff, 0, 0, 0, 0]);
}

#[test]
fn words_decode_little_endian_and_drop_partial_word() {
    let words = le_bytes_to_words(&[1, 2, 3, 4, 0x78, 0x56, 0x34, 0x12, 9, 9]);
    assert_eq!(words, vec![0x0403_0201, 0x1234_5678]);
    assert_eq!(le_bytes_to_words(&[7, 7, 7]), Vec::<u32>::new());
}

#[test]
fn test_vec_layout_is_three_words() {
    let v = [TestVec { a: 1, b: 0x0102_0304, c: u32::MAX }];
    let bytes = opaque_array_to_bytes(&v);
    assert_eq!(bytes, vec![1, 0, 0, 0, 4, 3, 2, 1, 0xff, 0xff, 0xff, 0xff]);
}

#[test]
fn test_vec_round_trip() {
    let input: Vec<TestVec> = (0..64u32).map(|i| TestVec { a: i, b: i * 2, c: i * 3 }).collect();
    let bytes = opaque_array_to_bytes(&input);
    assert_eq!(bytes.len(), 64 * 12);
    let back: Vec<TestVec> = bytes_to_opaque_array(&bytes);
    assert_eq!(back, input);
}

#[test]
fn test_vec_trailing_bytes_ignored() {
    let v = [TestVec { a: 5, b: 6, c: 7 }];
    let mut bytes = opaque_array_to_bytes(&v);
    bytes.push(0xaa);
    let back: Vec<TestVec> = bytes_to_opaque_array(&bytes);
    assert_eq!(back, vec![TestVec { a: 5, b: 6, c: 7 }]);
    let short: Vec<TestVec> = bytes_to_opaque_array(&bytes[..11]);
    assert!(short.is_empty());
}

#[test]
fn empty_input_gives_empty_bytes_and_records() {
    let bytes = opaque_array_to_bytes::<TestVec>(&[]);
    assert!(bytes.is_empty());
    let back: Vec<Ray> = bytes_to_opaque_array(&bytes);
    assert!(back.is_empty());
}

#[test]
fn ray_layout_is_origin_then_direction() {
    let ray = Ray { origin: bits([1.0, 2.0, 3.0, 4.0]), direction: bits([4.0, 3.0, 2.0, 1.0]) };
    let bytes = opaque_array_to_bytes(&[ray]);
    assert_eq!(bytes.len(), 32);
    assert_eq!(&bytes[0..4], &1.0f32.to_le_bytes());
    assert_eq!(&bytes[12..16], &4.0f32.to_le_bytes());
    assert_eq!(&bytes[16..20], &4.0f32.to_le_bytes());
    assert_eq!(&bytes[28..32], &1.0f32.to_le_bytes());
}

#[test]
fn ray_round_trip() {
    let input: Vec<Ray> = (0..64)
        .map(|x| {
            let id = x as f32;
            Ray {
                origin: bits([id, id * 2.0, id * 3.0, id * 4.0]),
                direction: bits([id * 4.0, id * 3.0, id * 2.0, id]),
            }
        })
        .collect();
    let bytes = opaque_array_to_bytes(&input);
    assert_eq!(bytes.len(), 64 * 32);
    let back: Vec<Ray> = bytes_to_opaque_array(&bytes);
    assert_eq!(back, input);
    assert_eq!(f32::from_bits(back[10].origin[2]), 30.0);
}
