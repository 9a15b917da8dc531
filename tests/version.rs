use x509::block::{parse_blocks, Block, Class};
use x509::error::Asn1Error;
use x509::x509::Version;

#[test]
fn version_encodes_v1_correctly() {
    let expected = vec![0x02, 0x01, 0x00];
    let actual = Version::V1.der_encode();
    assert_eq!(expected, actual);
}

#[test]
fn version_encodes_v2_correctly() {
    let expected = vec![0x02, 0x01, 0x01];
    let actual = Version::V2.der_encode();
    assert_eq!(expected, actual);
}

#[test]
fn version_encodes_v3_correctly() {
    let expected = vec![0x02, 0x01, 0x02];
    let actual = Version::V3.der_encode();
    assert_eq!(expected, actual);
}

#[test]
fn version_decodes_v1_correctly() {
    let expected = Version::V1;
    let actual = Version::der_decode(&vec![0x02, 0x01, 0x00]).unwrap();
    assert_eq!(expected, actual);
}

#[test]
fn version_decodes_v2_correctly() {
    let expected = Version::V2;
    let actual = Version::der_decode(&vec![0x02, 0x01, 0x01]).unwrap();
    assert_eq!(expected, actual);
}

#[test]
fn version_decodes_v3_correctly() {
    let expected = Version::V3;
    let actual = Version::der_decode(&vec![0x02, 0x01, 0x02]).unwrap();
    assert_eq!(expected, actual);
}

#[test]
fn version_should_err_when_unsupported_version_supplied() {
    let error = Version::der_decode(&vec![0x02, 0x01, 0x03]).unwrap_err();
    assert_eq!(error, Asn1Error::UnsupportedVersion)
}

#[test]
fn version_should_not_break_decoding_subsequent_blocks() {
    // A SEQUENCE of three versions: v1, v2 and v3.
    let test_data = vec![0x30, 0x09, 0x02, 0x01, 0x00, 0x02, 0x01, 0x01, 0x02, 0x01, 0x02];
    let expected = vec![Version::V1, Version::V2, Version::V3];
    let top = parse_blocks(&test_data).unwrap();
    match &top[0] {
        Block::Sequence(content) => {
            let blocks = parse_blocks(content).unwrap();
            let (first_actual, first_tail) = Version::from_asn1(&blocks).unwrap();
            let (second_actual, second_tail) = Version::from_asn1(first_tail).unwrap();
            let (third_actual, third_tail) = Version::from_asn1(second_tail).unwrap();
            assert_eq!(expected[0], first_actual);
            assert_eq!(expected[1], second_actual);
            assert_eq!(expected[2], third_actual);
            assert!(third_tail.is_empty());
        },
        _ => panic!("Not a sequence"),
    }
}

#[test]
fn version_round_trips_through_blocks() {
    for v in [Version::V1, Version::V2, Version::V3] {
        let blocks = v.to_asn1_class(Class::Universal);
        assert_eq!(blocks.len(), 1);
        let (back, tail) = Version::from_asn1(&blocks).unwrap();
        assert_eq!(back, v);
        assert!(tail.is_empty());
        assert_eq!(Version::der_decode(&v.der_encode()), Ok(v));
    }
}

#[test]
fn version_rejects_negative_and_large_numbers() {
    assert_eq!(Version::der_decode(&[0x02, 0x01, 0xFF]), Err(Asn1Error::UnsupportedVersion));
    assert_eq!(
        Version::der_decode(&[0x02, 0x09, 0x01, 0, 0, 0, 0, 0, 0, 0, 0]),
        Err(Asn1Error::UnsupportedVersion)
    );
}

#[test]
fn version_rejects_other_blocks() {
    // BOOLEAN true
    assert_eq!(Version::der_decode(&[0x01, 0x01, 0xFF]), Err(Asn1Error::UnsupportedEncoding));
    // tag 2 in the application class
    assert_eq!(Version::der_decode(&[0x42, 0x01, 0x00]), Err(Asn1Error::UnsupportedEncoding));
    let blocks = vec![Block::Other(0x42, vec![0x00])];
    assert_eq!(blocks[0].class(), Class::Application);
    assert_eq!(Version::from_asn1(&blocks), Err(Asn1Error::UnsupportedEncoding));
}

#[test]
fn version_rejects_empty_integer() {
    assert_eq!(Version::der_decode(&[0x02, 0x00]), Err(Asn1Error::MalformedInteger));
}

#[test]
fn version_rejects_broken_streams() {
    assert_eq!(Version::der_decode(&[]), Err(Asn1Error::MalformedBlock));
    assert_eq!(Version::der_decode(&[0x02]), Err(Asn1Error::MalformedBlock));
    assert_eq!(Version::der_decode(&[0x02, 0x02, 0x00]), Err(Asn1Error::MalformedBlock));
    assert_eq!(Version::der_decode(&[0x02, 0x81, 0x01, 0x00]), Err(Asn1Error::MalformedBlock));
}
