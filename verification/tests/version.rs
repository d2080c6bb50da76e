use heir::types::version::{Version, VersionError};
use heir::types::ErrorKind;

#[test]
fn test_version_new_valid() {
    // Test valid major and minor versions
    let version = Version::new(1, 0).expect("Valid version");
    assert_eq!(version.major(), 1);
    assert_eq!(version.minor(), 0);

    let version = Version::new(15, 15).expect("Valid version");
    assert_eq!(version.major(), 15);
    assert_eq!(version.minor(), 15);

    let version = Version::new(0, 0).expect("Valid version");
    assert_eq!(version.major(), 0);
    assert_eq!(version.minor(), 0);
}

#[test]
fn test_version_new_invalid_major() {
    // Test invalid major version (>=16)
    let result = Version::new(16, 0);
    assert!(result.is_err());
    if let Err(e) = result {
        assert_eq!(e, VersionError::MajorVersionExceedsRange(16));
    }

    let result = Version::new(20, 5);
    assert!(result.is_err());
    if let Err(e) = result {
        assert_eq!(e, VersionError::MajorVersionExceedsRange(20));
    }
}

#[test]
fn test_version_new_invalid_minor() {
    // Test invalid minor version (>=16)
    let result = Version::new(0, 16);
    assert!(result.is_err());
    if let Err(e) = result {
        assert_eq!(e, VersionError::MinorVersionExceedsRange(16));
    }

    let result = Version::new(5, 20);
    assert!(result.is_err());
    if let Err(e) = result {
        assert_eq!(e, VersionError::MinorVersionExceedsRange(20));
    }
}

#[test]
fn test_version_serialize_deserialize() {
    let original_version = Version::new(3, 5).expect("Valid version");
    let mut buffer = Vec::new();
    original_version.serialize(&mut buffer);

    let mut cursor = &buffer[..];
    let deserialized_version =
        Version::deserialize(&mut cursor).expect("Deserialization failed");

    assert_eq!(original_version, deserialized_version);
    assert_eq!(deserialized_version.major(), 3);
    assert_eq!(deserialized_version.minor(), 5);
}

#[test]
fn test_version_deserialize_invalid_data() {
    let invalid_data = [0xF0]; // Major version 15, minor version 0
    let mut cursor = &invalid_data[..];
    let version = Version::deserialize(&mut cursor).expect("Deserialization should succeed");
    assert_eq!(version.major(), 15);
    assert_eq!(version.minor(), 0);

    let invalid_data = [0xFF]; // Major version 15, minor version 15
    let mut cursor = &invalid_data[..];
    let version = Version::deserialize(&mut cursor).expect("Deserialization should succeed");
    assert_eq!(version.major(), 15);
    assert_eq!(version.minor(), 15);

    let invalid_data = [0xF1]; // Major version 15, minor version 1
    let mut cursor = &invalid_data[..];
    let version = Version::deserialize(&mut cursor).expect("Deserialization should succeed");
    assert_eq!(version.major(), 15);
    assert_eq!(version.minor(), 1);

    let invalid_data = [0x10]; // Major version 1, minor version 0
    let mut cursor = &invalid_data[..];
    let version = Version::deserialize(&mut cursor).expect("Deserialization should succeed");
    assert_eq!(version.major(), 1);
    assert_eq!(version.minor(), 0);

    let invalid_data = [0xF0]; // Major version 15 (valid), minor version 0
    let mut cursor = &invalid_data[..];
    let version = Version::deserialize(&mut cursor).expect("Deserialization should succeed");
    assert_eq!(version.major(), 15);
    assert_eq!(version.minor(), 0);
}

#[test]
fn test_version_display() {
    let version = Version::new(2, 3).expect("Valid version");
    assert_eq!(format!("{:?}", version), "Version(35)");
}

#[test]
fn version_new_fails_exactly_out_of_range() {
    for major in 0..=255u8 {
        for minor in 0..=255u8 {
            let result = Version::new(major, minor);
            assert_eq!(result.is_err(), major >= 16 || minor >= 16);
            if major >= 16 {
                assert_eq!(result, Err(VersionError::MajorVersionExceedsRange(major)));
            } else if minor >= 16 {
                assert_eq!(result, Err(VersionError::MinorVersionExceedsRange(minor)));
            } else {
                let version = result.unwrap();
                assert_eq!(version.major(), major);
                assert_eq!(version.minor(), minor);
                assert_eq!(version.to_u8(), major * 16 + minor);
            }
        }
    }
}

#[test]
fn version_both_out_of_range_reports_major() {
    assert_eq!(Version::new(16, 16), Err(VersionError::MajorVersionExceedsRange(16)));
}

#[test]
fn version_serialize_writes_one_packed_byte_after_what_is_there() {
    let mut buffer = vec![0xAA];
    Version::new(3, 5).unwrap().serialize(&mut buffer);
    assert_eq!(buffer, vec![0xAA, 0x35]);
}

#[test]
fn version_deserialize_every_byte() {
    for byte in 0..=255u8 {
        let data = [byte, 0x77];
        let mut cursor = &data[..];
        let version = Version::deserialize(&mut cursor).unwrap();
        assert_eq!(version.major(), byte >> 4);
        assert_eq!(version.minor(), byte & 0x0F);
        assert_eq!(cursor, &[0x77][..]);
    }
}

#[test]
fn version_deserialize_empty_is_unexpected_eof() {
    let data: [u8; 0] = [];
    let mut cursor = &data[..];
    assert_eq!(
        Version::deserialize(&mut cursor),
        Err(VersionError::IoError(ErrorKind::UnexpectedEof))
    );
    assert!(cursor.is_empty());
}

#[test]
fn version_error_messages() {
    assert_eq!(
        VersionError::MajorVersionExceedsRange(16).to_string(),
        "Major version 16 is beyond range [0,16)."
    );
    assert_eq!(
        VersionError::MinorVersionExceedsRange(255).to_string(),
        "Minor version 255 is beyond range [0,16)."
    );
    assert_eq!(
        VersionError::IoError(ErrorKind::UnexpectedEof).to_string(),
        "IO error during serialization/deserialization: UnexpectedEof"
    );
}
