use hedgehog_splitmix::buffer::{check_request, HEADER_SIZE, PRACTICAL_MAX_BUFFER};
use hedgehog_splitmix::{DataFormat, ErrorKind, Seed};

fn advance_times(seed: Seed, count: u64) -> Seed {
    let mut current: Seed = seed;
    for _ in 0..count {
        current = current.next_u64().seed();
    }
    current
}

#[test]
fn buffer_constants() {
    assert_eq!(PRACTICAL_MAX_BUFFER, 1024 * 1024 * 1024);
    assert_eq!(HEADER_SIZE, 9);
}

#[test]
fn u32_frame_round_trip() {
    let seed: Seed = Seed::new(42);
    let mut buffer: Vec<u8> = vec![0; 21];
    let last: Seed = seed.fill_buffer(&mut buffer, 0, 3, None).unwrap();

    assert_eq!(buffer[0], 0);
    assert_eq!(u64::from_le_bytes(buffer[1..9].try_into().unwrap()), 3);
    let mut current: Seed = seed;
    for i in 0..3 {
        let step = current.next_u64();
        let at: usize = 9 + 4 * i;
        let element: u32 = u32::from_le_bytes(buffer[at..at + 4].try_into().unwrap());
        assert_eq!(element, step.value() as u32);
        current = step.seed();
    }
    assert_eq!(last, current);
}

#[test]
fn u32_frame_of_seed_42_byte_for_byte() {
    let mut buffer: Vec<u8> = vec![0xee; 21];
    let last: Seed = Seed::new(42).fill_buffer(&mut buffer, 0, 3, None).unwrap();
    assert_eq!(
        buffer,
        vec![0, 3, 0, 0, 0, 0, 0, 0, 0, 90, 2, 166, 201, 188, 186, 102, 241, 217, 161, 232, 203]
    );
    assert_eq!(last.state(), 0xc06526ac45fcc1d0);
    assert_eq!(last.gamma(), 0x00d9fc2cb205c669);
}

#[test]
fn one_byte_short_is_too_small() {
    let seed: Seed = Seed::new(1);
    for (tag, size) in [(0u8, 4usize), (1, 8), (2, 1)] {
        for count in [1usize, 2, 3, 10, 100] {
            let required: usize = 9 + count * size;
            let mut buffer: Vec<u8> = vec![0; required - 1];
            let error = seed.fill_buffer(&mut buffer, tag, count as u64, None).unwrap_err();
            assert_eq!(error.kind(), ErrorKind::BufferTooSmall);
            assert_eq!(
                error.message(),
                format!("Buffer too small: {} bytes required, {} provided", required, required - 1)
            );
            assert_eq!(error.context(), None);
            let mut exact: Vec<u8> = vec![0; required];
            assert!(seed.fill_buffer(&mut exact, tag, count as u64, None).is_ok());
        }
    }
}

#[test]
fn twenty_bytes_for_three_integers_is_too_small() {
    let mut buffer: Vec<u8> = vec![0; 20];
    let error = Seed::new(42).fill_buffer(&mut buffer, 0, 3, None).unwrap_err();
    assert_eq!(error.kind(), ErrorKind::BufferTooSmall);
    assert_eq!(error.message(), "Buffer too small: 21 bytes required, 20 provided");
}

#[test]
fn buffer_shorter_than_the_header_is_too_small() {
    for len in 0..9usize {
        let mut buffer: Vec<u8> = vec![0; len];
        let error = Seed::new(42).fill_buffer(&mut buffer, 2, 0, None).unwrap_err();
        assert_eq!(error.kind(), ErrorKind::BufferTooSmall);
        assert_eq!(
            error.message(),
            format!("Buffer too small: 9 bytes required, {} provided", len)
        );
    }
}

#[test]
fn format_seven_is_invalid() {
    let seed: Seed = Seed::new(3);
    for len in [0usize, 1, 9, 21, 4096] {
        for count in [0u64, 1, 3, 1 << 40, u64::MAX] {
            let mut buffer: Vec<u8> = vec![0; len];
            let error = seed.fill_buffer(&mut buffer, 7, count, None).unwrap_err();
            assert_eq!(error.kind(), ErrorKind::InvalidFormat);
            assert_eq!(error.message(), "Unknown format: 7");
            assert_eq!(error.context(), None);
        }
    }
}

#[test]
fn every_unknown_format_is_invalid() {
    let mut buffer: Vec<u8> = vec![0; 64];
    for tag in 3..=255u8 {
        let error = Seed::new(3).fill_buffer(&mut buffer, tag, 1, Some(5)).unwrap_err();
        assert_eq!(error.kind(), ErrorKind::InvalidFormat);
        assert_eq!(error.message(), format!("Unknown format: {}", tag));
    }
}

#[test]
fn format_is_checked_before_the_frame_length() {
    let mut buffer: Vec<u8> = vec![0; 4];
    let error = Seed::new(3).fill_buffer(&mut buffer, 9, 1000, None).unwrap_err();
    assert_eq!(error.kind(), ErrorKind::InvalidFormat);
}

#[test]
fn oversized_request_is_too_large() {
    let len: usize = (1usize << 30) + 1;
    let error = check_request(len, 0, 1).unwrap_err();
    assert_eq!(error.kind(), ErrorKind::BufferTooLarge);
    assert_eq!(error.message(), "Buffer size 1024MB exceeds practical limit of 1024MB");
    let bigger = check_request(3usize << 30, 0, 1).unwrap_err();
    assert_eq!(bigger.message(), "Buffer size 3072MB exceeds practical limit of 1024MB");
}

#[test]
fn ceiling_is_checked_before_the_format() {
    let error = check_request((1usize << 30) + 1, 7, 1).unwrap_err();
    assert_eq!(error.kind(), ErrorKind::BufferTooLarge);
}

#[test]
fn buffer_at_the_ceiling_is_accepted() {
    assert_eq!(check_request(1usize << 30, 0, 3).unwrap(), DataFormat::U32LE);
    assert_eq!(check_request(1usize << 30, 1, 3).unwrap(), DataFormat::F64LE);
    assert_eq!(check_request(1usize << 30, 2, (1 << 30) - 9).unwrap(), DataFormat::BoolU8);
    let error = check_request(1usize << 30, 2, (1 << 30) - 8).unwrap_err();
    assert_eq!(error.kind(), ErrorKind::BufferTooSmall);
    assert_eq!(
        error.message(),
        "Buffer too small: 1073741825 bytes required, 1073741824 provided"
    );
}

#[test]
fn oversized_buffer_is_too_large() {
    let mut buffer: Vec<u8> = vec![0; (1usize << 30) + 1];
    let error = Seed::new(1).fill_buffer(&mut buffer, 0, 1, None).unwrap_err();
    assert_eq!(error.kind(), ErrorKind::BufferTooLarge);
    assert_eq!(error.message(), "Buffer size 1024MB exceeds practical limit of 1024MB");
    assert_eq!(buffer[0], 0);
    assert_eq!(buffer[9], 0);
}

#[test]
fn check_request_agrees_with_fill_buffer() {
    for len in [0usize, 8, 9, 12, 13, 17, 20, 21, 100] {
        for tag in 0..5u8 {
            for count in [0u64, 1, 2, 3, 11, 12, 91, 92] {
                let mut buffer: Vec<u8> = vec![0; len];
                let filled = Seed::new(6).fill_buffer(&mut buffer, tag, count, None);
                let checked = check_request(len, tag, count);
                assert_eq!(filled.is_ok(), checked.is_ok());
                if let (Err(a), Err(b)) = (filled, checked) {
                    assert_eq!(a.kind(), b.kind());
                    assert_eq!(a.message(), b.message());
                }
            }
        }
    }
}

#[test]
fn count_beyond_64_bits_of_bytes_is_too_small() {
    let mut buffer: Vec<u8> = vec![0; 9];
    let doubles = Seed::new(1).fill_buffer(&mut buffer, 1, u64::MAX, None).unwrap_err();
    assert_eq!(doubles.kind(), ErrorKind::BufferTooSmall);
    assert_eq!(
        doubles.message(),
        "Buffer too small: 147573952589676412929 bytes required, 9 provided"
    );
    let integers = Seed::new(1).fill_buffer(&mut buffer, 0, u64::MAX, None).unwrap_err();
    assert_eq!(
        integers.message(),
        "Buffer too small: 73786976294838206469 bytes required, 9 provided"
    );
    let booleans = Seed::new(1).fill_buffer(&mut buffer, 2, u64::MAX, None).unwrap_err();
    assert_eq!(
        booleans.message(),
        "Buffer too small: 18446744073709551624 bytes required, 9 provided"
    );
    // 9 + 4 * 2^62 is 9 modulo 2^64.
    let wrapping = Seed::new(1).fill_buffer(&mut buffer, 0, 1 << 62, None).unwrap_err();
    assert_eq!(wrapping.kind(), ErrorKind::BufferTooSmall);
    assert_eq!(
        wrapping.message(),
        "Buffer too small: 18446744073709551625 bytes required, 9 provided"
    );
    assert_eq!(buffer, vec![0; 9]);
}

#[test]
fn rejected_call_leaves_the_buffer_untouched() {
    let original: Vec<u8> = (0..64u8).collect();
    let seed: Seed = Seed::new(77);

    let mut buffer: Vec<u8> = original.clone();
    assert!(seed.fill_buffer(&mut buffer, 7, 3, None).is_err());
    assert_eq!(buffer, original);

    let mut short: Vec<u8> = original[..20].to_vec();
    assert!(seed.fill_buffer(&mut short, 0, 3, None).is_err());
    assert_eq!(short, original[..20].to_vec());

    let mut shorter: Vec<u8> = original[..16].to_vec();
    assert!(seed.fill_buffer(&mut shorter, 1, 1, None).is_err());
    assert_eq!(shorter, original[..16].to_vec());
}

#[test]
fn bytes_behind_the_frame_are_left_alone() {
    let mut buffer: Vec<u8> = vec![0xab; 40];
    Seed::new(42).fill_buffer(&mut buffer, 0, 3, None).unwrap();
    assert_eq!(buffer[21..].to_vec(), vec![0xab; 19]);
    assert_ne!(buffer[..21].to_vec(), vec![0xab; 21]);
}

#[test]
fn empty_frame_is_a_header() {
    let seed: Seed = Seed::new(42);
    for tag in 0..3u8 {
        let mut buffer: Vec<u8> = vec![0xff; 12];
        let last: Seed = seed.fill_buffer(&mut buffer, tag, 0, None).unwrap();
        assert_eq!(buffer, vec![tag, 0, 0, 0, 0, 0, 0, 0, 0, 0xff, 0xff, 0xff]);
        assert_eq!(last, seed);
    }
}

#[test]
fn header_holds_the_tag_and_the_count() {
    let mut buffer: Vec<u8> = vec![0; 9 + 0x0201];
    Seed::new(5).fill_buffer(&mut buffer, 2, 0x0201, None).unwrap();
    assert_eq!(buffer[..9].to_vec(), vec![2, 1, 2, 0, 0, 0, 0, 0, 0]);
}

#[test]
fn returned_seed_is_the_seed_after_count_steps() {
    let seed: Seed = Seed::new(123);
    for (tag, size) in [(0u8, 4usize), (1, 8), (2, 1)] {
        for count in [0u64, 1, 2, 17, 300] {
            let mut buffer: Vec<u8> = vec![0; 9 + size * count as usize];
            let last: Seed = seed.fill_buffer(&mut buffer, tag, count, Some(10)).unwrap();
            let expected: Seed = advance_times(seed, count);
            assert_eq!(last.state(), expected.state());
            assert_eq!(last.gamma(), seed.gamma());
        }
    }
}

#[test]
fn bounded_u32_elements_are_scaled() {
    let seed: Seed = Seed::new(42);
    let mut buffer: Vec<u8> = vec![0; 9 + 4 * 5];
    seed.fill_buffer(&mut buffer, 0, 5, Some(100)).unwrap();
    let expected: [u32; 5] = [43, 25, 91, 20, 15];
    let mut current: Seed = seed;
    for i in 0..5 {
        let at: usize = 9 + 4 * i;
        let element: u32 = u32::from_le_bytes(buffer[at..at + 4].try_into().unwrap());
        assert_eq!(element, expected[i]);
        let step = current.next_bounded(100);
        assert_eq!(element as u64, step.value());
        current = step.seed();
    }
}

#[test]
fn bounded_u32_elements_stay_below_the_bound() {
    let mut seed: Seed = Seed::new(7);
    for bound in [1u32, 2, 3, 10, 255, 256, 65_537, 1 << 31, u32::MAX - 1] {
        let mut buffer: Vec<u8> = vec![0; 9 + 4 * 500];
        seed = seed.fill_buffer(&mut buffer, 0, 500, Some(bound)).unwrap();
        for i in 0..500 {
            let at: usize = 9 + 4 * i;
            let element: u32 = u32::from_le_bytes(buffer[at..at + 4].try_into().unwrap());
            assert!(element < bound);
        }
    }
}

#[test]
fn zero_bound_gives_zeros() {
    let mut buffer: Vec<u8> = vec![0xff; 9 + 4 * 8];
    Seed::new(7).fill_buffer(&mut buffer, 0, 8, Some(0)).unwrap();
    assert_eq!(buffer[9..].to_vec(), vec![0; 32]);
}

#[test]
fn largest_bound_is_no_bound() {
    let seed: Seed = Seed::new(8);
    let mut bounded: Vec<u8> = vec![0; 9 + 4 * 50];
    let mut free: Vec<u8> = vec![0; 9 + 4 * 50];
    let a: Seed = seed.fill_buffer(&mut bounded, 0, 50, Some(u32::MAX)).unwrap();
    let b: Seed = seed.fill_buffer(&mut free, 0, 50, None).unwrap();
    assert_eq!(bounded, free);
    assert_eq!(a, b);
    let mut current: Seed = seed;
    for i in 0..50 {
        let step = current.next_u64();
        let at: usize = 9 + 4 * i;
        let element: u32 = u32::from_le_bytes(free[at..at + 4].try_into().unwrap());
        assert_eq!(element, (step.value() & 0xffff_ffff) as u32);
        current = step.seed();
    }
}

#[test]
fn double_frame_holds_doubles_in_the_unit_interval() {
    let seed: Seed = Seed::new(42);
    let count: usize = 1000;
    let mut buffer: Vec<u8> = vec![0; 9 + 8 * count];
    let last: Seed = seed.fill_buffer(&mut buffer, 1, count as u64, None).unwrap();
    assert_eq!(buffer[0], 1);
    assert_eq!(u64::from_le_bytes(buffer[1..9].try_into().unwrap()), count as u64);
    let mut current: Seed = seed;
    for i in 0..count {
        let step = current.next_u64();
        let at: usize = 9 + 8 * i;
        let value: f64 = f64::from_le_bytes(buffer[at..at + 8].try_into().unwrap());
        let expected: f64 = (step.value() >> 11) as f64 * (1.0 / (1u64 << 53) as f64);
        assert_eq!(value.to_bits(), expected.to_bits());
        assert!(value >= 0.0 && value < 1.0);
        current = step.seed();
    }
    assert_eq!(last, current);
}

#[test]
fn double_frame_of_seed_42() {
    let mut buffer: Vec<u8> = vec![0; 9 + 8 * 2];
    Seed::new(42).fill_buffer(&mut buffer, 1, 2, None).unwrap();
    assert_eq!(f64::from_le_bytes(buffer[9..17].try_into().unwrap()), 0.4359592520137525);
    assert_eq!(f64::from_le_bytes(buffer[17..25].try_into().unwrap()), 0.25577842233306114);
}

#[test]
fn double_frame_ignores_the_bound() {
    let seed: Seed = Seed::new(9);
    let mut bounded: Vec<u8> = vec![0; 9 + 8 * 20];
    let mut free: Vec<u8> = vec![0; 9 + 8 * 20];
    seed.fill_buffer(&mut bounded, 1, 20, Some(3)).unwrap();
    seed.fill_buffer(&mut free, 1, 20, None).unwrap();
    assert_eq!(bounded, free);
}

#[test]
fn bool_frame_equals_the_batch() {
    let seed: Seed = Seed::new(42);
    let mut buffer: Vec<u8> = vec![0xff; 9 + 300];
    let last: Seed = seed.fill_buffer(&mut buffer, 2, 300, None).unwrap();
    let batch = seed.next_bools_batch(300);
    assert_eq!(buffer[0], 2);
    assert_eq!(u64::from_le_bytes(buffer[1..9].try_into().unwrap()), 300);
    assert_eq!(buffer[9..].to_vec(), batch.values());
    assert_eq!(last, batch.final_seed());
    assert_eq!(buffer[9..14].to_vec(), vec![0, 0, 1, 1, 0]);
}

#[test]
fn bool_frame_ignores_the_bound() {
    let seed: Seed = Seed::new(10);
    let mut bounded: Vec<u8> = vec![0; 9 + 64];
    let mut free: Vec<u8> = vec![0; 9 + 64];
    seed.fill_buffer(&mut bounded, 2, 64, Some(0)).unwrap();
    seed.fill_buffer(&mut free, 2, 64, None).unwrap();
    assert_eq!(bounded, free);
}

#[test]
fn filling_in_two_runs_equals_filling_in_one() {
    let seed: Seed = Seed::new(2025);
    let mut whole: Vec<u8> = vec![0; 9 + 4 * 10];
    let end: Seed = seed.fill_buffer(&mut whole, 0, 10, None).unwrap();
    let mut first: Vec<u8> = vec![0; 9 + 4 * 4];
    let middle: Seed = seed.fill_buffer(&mut first, 0, 4, None).unwrap();
    let mut second: Vec<u8> = vec![0; 9 + 4 * 6];
    let end_again: Seed = middle.fill_buffer(&mut second, 0, 6, None).unwrap();
    assert_eq!(end, end_again);
    assert_eq!(whole[9..25].to_vec(), first[9..].to_vec());
    assert_eq!(whole[25..].to_vec(), second[9..].to_vec());
}

#[test]
fn fill_buffer_does_not_change_the_seed_it_is_called_on() {
    let seed: Seed = Seed::new(4);
    let mut a: Vec<u8> = vec![0; 64];
    let mut b: Vec<u8> = vec![0; 64];
    seed.fill_buffer(&mut a, 0, 5, None).unwrap();
    seed.fill_buffer(&mut b, 0, 5, None).unwrap();
    assert_eq!(a, b);
}
