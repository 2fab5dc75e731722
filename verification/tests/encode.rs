use hedgehog_splitmix::encode::{write_u32_le, write_u64_le};

#[test]
fn u32_is_written_least_significant_byte_first() {
    let mut buffer: Vec<u8> = vec![0xaa; 8];
    write_u32_le(&mut buffer, 2, 0x0403_0201);
    assert_eq!(buffer, vec![0xaa, 0xaa, 1, 2, 3, 4, 0xaa, 0xaa]);
}

#[test]
fn u64_is_written_least_significant_byte_first() {
    let mut buffer: Vec<u8> = vec![0xaa; 10];
    write_u64_le(&mut buffer, 1, 0x0807_0605_0403_0201);
    assert_eq!(buffer, vec![0xaa, 1, 2, 3, 4, 5, 6, 7, 8, 0xaa]);
}

#[test]
fn writers_agree_with_the_standard_encoding() {
    let mut x: u64 = 1;
    for _ in 0..1000 {
        let mut four: [u8; 4] = [0; 4];
        write_u32_le(&mut four, 0, x as u32);
        assert_eq!(four, (x as u32).to_le_bytes());
        assert_eq!(u32::from_le_bytes(four), x as u32);
        let mut eight: [u8; 8] = [0; 8];
        write_u64_le(&mut eight, 0, x);
        assert_eq!(eight, x.to_le_bytes());
        assert_eq!(u64::from_le_bytes(eight), x);
        x = x.wrapping_mul(6364136223846793005).wrapping_add(1442695040888963407);
    }
}

#[test]
fn writers_reach_the_last_byte() {
    let mut buffer: [u8; 8] = [0; 8];
    write_u32_le(&mut buffer, 4, u32::MAX);
    assert_eq!(buffer, [0, 0, 0, 0, 255, 255, 255, 255]);
    write_u64_le(&mut buffer, 0, u64::MAX);
    assert_eq!(buffer, [255; 8]);
}
