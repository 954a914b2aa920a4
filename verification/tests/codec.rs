use zk_membership::codec::{convert_u64_array_to_u8_vec, convert_u8_vec_to_u64_array};

fn counting_bytes() -> Vec<u8> {
    (0u8..32).collect()
}

#[test]
fn bytes_become_big_endian_limbs() {
    let limbs = convert_u8_vec_to_u64_array(counting_bytes());
    assert_eq!(
        limbs,
        [
            0x0001_0203_0405_0607,
            0x0809_0a0b_0c0d_0e0f,
            0x1011_1213_1415_1617,
            0x1819_1a1b_1c1d_1e1f,
        ]
    );
}

#[test]
fn limbs_become_big_endian_bytes() {
    let bytes = convert_u64_array_to_u8_vec([
        0x0001_0203_0405_0607,
        0x0809_0a0b_0c0d_0e0f,
        0x1011_1213_1415_1617,
        0x1819_1a1b_1c1d_1e1f,
    ]);
    assert_eq!(bytes, counting_bytes());
}

#[test]
fn only_the_first_32_bytes_count() {
    let mut long = counting_bytes();
    long.extend_from_slice(&[0xaa, 0xbb, 0xcc]);
    assert_eq!(
        convert_u8_vec_to_u64_array(long),
        convert_u8_vec_to_u64_array(counting_bytes())
    );
}

#[test]
fn extreme_limbs_survive_encoding() {
    let limbs = [u64::MAX, 0, 1, 0x8000_0000_0000_0000];
    let bytes = convert_u64_array_to_u8_vec(limbs);
    assert_eq!(bytes.len(), 32);
    assert_eq!(&bytes[0..8], &[0xff; 8]);
    assert_eq!(&bytes[8..16], &[0; 8]);
    assert_eq!(&bytes[16..24], &[0, 0, 0, 0, 0, 0, 0, 1]);
    assert_eq!(&bytes[24..32], &[0x80, 0, 0, 0, 0, 0, 0, 0]);
    assert_eq!(convert_u8_vec_to_u64_array(bytes), limbs);
}

#[test]
fn bytes_survive_decoding() {
    let bytes: Vec<u8> = (0..32).map(|i: u32| (i * 37 + 11) as u8).collect();
    let limbs = convert_u8_vec_to_u64_array(bytes.clone());
    assert_eq!(convert_u64_array_to_u8_vec(limbs), bytes);
}

#[test]
fn encoding_keeps_the_order_of_limbs() {
    let samples: [[u64; 4]; 7] = [
        [0, 0, 0, 0],
        [0, 0, 0, 1],
        [0, 0, 1, 0],
        [0, 0xff, 0, 0],
        [1, 0, 0, 0],
        [1, 0, 0, u64::MAX],
        [u64::MAX, u64::MAX, u64::MAX, u64::MAX],
    ];
    for a in samples {
        for b in samples {
            let ea = convert_u64_array_to_u8_vec(a);
            let eb = convert_u64_array_to_u8_vec(b);
            assert_eq!(a < b, ea < eb, "{:?} {:?}", a, b);
            assert_eq!(a == b, ea == eb);
        }
    }
}
