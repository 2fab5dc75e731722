use hedgehog_splitmix::{DataFormat, ErrorKind};

#[test]
fn known_tags_decode() {
    assert_eq!(DataFormat::from_u8(0).unwrap(), DataFormat::U32LE);
    assert_eq!(DataFormat::from_u8(1).unwrap(), DataFormat::F64LE);
    assert_eq!(DataFormat::from_u8(2).unwrap(), DataFormat::BoolU8);
}

#[test]
fn unknown_tags_are_rejected_with_the_tag() {
    for tag in 3..=255u8 {
        let error = DataFormat::from_u8(tag).unwrap_err();
        assert_eq!(error.kind(), ErrorKind::InvalidFormat);
        assert_eq!(error.message(), format!("Unknown format: {}", tag));
        assert_eq!(error.context(), None);
    }
}

#[test]
fn tags_round_trip() {
    for format in [DataFormat::U32LE, DataFormat::F64LE, DataFormat::BoolU8] {
        assert_eq!(DataFormat::from_u8(format.tag()).unwrap(), format);
    }
    assert_eq!(DataFormat::U32LE.tag(), 0);
    assert_eq!(DataFormat::F64LE.tag(), 1);
    assert_eq!(DataFormat::BoolU8.tag(), 2);
}

#[test]
fn element_sizes() {
    assert_eq!(DataFormat::U32LE.bytes_per_element(), 4);
    assert_eq!(DataFormat::F64LE.bytes_per_element(), 8);
    assert_eq!(DataFormat::BoolU8.bytes_per_element(), 1);
}
