use microshard_uuid::MicroShardError;
use microshard_uuid::MicroShardUUID;
use microshard_uuid::SimpleRng;

const MAX_TIME_MICROS: u64 = 18_014_398_509_481_983;

#[test]
fn test_overflow_boundary() {
    // The largest representable timestamp still builds.
    let at_max = MicroShardUUID::from_micros(MAX_TIME_MICROS, 7).unwrap();
    assert_eq!(at_max.timestamp_micros(), MAX_TIME_MICROS);
    assert_eq!(at_max.shard_id(), 7);

    // One past it fails with the overflow error.
    assert!(matches!(
        MicroShardUUID::from_micros(MAX_TIME_MICROS + 1, 7),
        Err(MicroShardError::TimeOverflow)
    ));
}

#[test]
fn test_bytes_round_trip() {
    let uuid = MicroShardUUID::from_micros(1_700_000_000_123_456, 4242).unwrap();
    let bytes = uuid.as_bytes();
    let back = MicroShardUUID::from_bytes(bytes).unwrap();
    assert_eq!(back, uuid);
    assert_eq!(back.as_u128(), uuid.as_u128());
    assert_eq!(back.timestamp_micros(), 1_700_000_000_123_456);
    assert_eq!(back.shard_id(), 4242);
}

#[test]
fn test_u128_round_trip() {
    let uuid = MicroShardUUID::from_micros(123_456_789, 1).unwrap();
    let raw = uuid.as_u128();
    let back = MicroShardUUID::from_u128(raw).unwrap();
    assert_eq!(back, uuid);
}

#[test]
fn test_import_rejects_bad_markers() {
    // All-zero: version reads 0, rejected before the variant is looked at.
    assert!(matches!(
        MicroShardUUID::from_u128(0),
        Err(MicroShardError::InvalidVersion(0))
    ));

    // Version right, variant 0: rejected with the observed variant.
    let version_only = 8u128 << 76;
    assert!(matches!(
        MicroShardUUID::from_u128(version_only),
        Err(MicroShardError::InvalidVariant(0))
    ));

    // Version 15 is reported as observed.
    let wrong_version = 15u128 << 76;
    assert!(matches!(
        MicroShardUUID::from_u128(wrong_version),
        Err(MicroShardError::InvalidVersion(15))
    ));

    // Bad markers through the byte importer as well.
    assert!(MicroShardUUID::from_bytes([0u8; 16]).is_err());
}

#[test]
fn test_canonical_string_exact() {
    // Only the two marker fields set: every other nibble renders as zero.
    let v = (8u128 << 76) | (2u128 << 62);
    let uuid = MicroShardUUID::from_u128(v).unwrap();
    assert_eq!(
        uuid.to_canonical_string(),
        "00000000-0000-8000-8000-000000000000"
    );
    assert_eq!(uuid.timestamp_micros(), 0);
    assert_eq!(uuid.shard_id(), 0);
}

#[test]
fn test_monotonic_ordering_across_shards() {
    // A later timestamp wins whatever the shard and random fields hold.
    let earlier = MicroShardUUID::from_micros(1_000_000, u32::MAX).unwrap();
    let later = MicroShardUUID::from_micros(1_000_001, 0).unwrap();
    assert!(earlier.as_u128() < later.as_u128());
    assert!(earlier < later);
    assert!(earlier.to_canonical_string() < later.to_canonical_string());
}

#[test]
fn test_epoch_parse_exact() {
    // One second past the epoch, exact microsecond value.
    let uuid = MicroShardUUID::from_iso("1970-01-01T00:00:01Z", 0).unwrap();
    assert_eq!(uuid.timestamp_micros(), 1_000_000);

    // A fully known moment: 2000-03-01 is day 11017 since the epoch.
    let uuid2 = MicroShardUUID::from_iso("2000-03-01T00:00:00Z", 0).unwrap();
    assert_eq!(uuid2.timestamp_micros(), 11017u64 * 86400 * 1_000_000);
}

#[test]
fn test_fraction_digits() {
    // Short fractions are right-padded with zeros.
    let one_digit = MicroShardUUID::from_iso("1970-01-01T00:00:00.5Z", 0).unwrap();
    assert_eq!(one_digit.timestamp_micros(), 500_000);

    // Digits past the sixth are ignored.
    let long = MicroShardUUID::from_iso("1970-01-01T00:00:00.1234567899Z", 0).unwrap();
    assert_eq!(long.timestamp_micros(), 123_456);

    // A dot with no digits reads as zero.
    let empty = MicroShardUUID::from_iso("1970-01-01T00:00:00.Z", 0).unwrap();
    assert_eq!(empty.timestamp_micros(), 0);
}

#[test]
fn test_tail_must_be_z() {
    // A 20-character timestamp must end in Z.
    assert!(matches!(
        MicroShardUUID::from_iso("2023-01-01T12:00:00A", 1),
        Err(MicroShardError::InvalidIsoFormat)
    ));
    // Text after the fraction's Z is rejected.
    assert!(MicroShardUUID::from_iso("2023-01-01T12:00:00.12Z34", 1).is_err());
    // Years before the epoch are rejected.
    assert!(MicroShardUUID::from_iso("1969-12-31T23:59:59Z", 1).is_err());
    // A second of 60 is tolerated, 61 is not.
    assert!(MicroShardUUID::from_iso("2023-01-01T12:00:60Z", 1).is_ok());
    assert!(MicroShardUUID::from_iso("2023-01-01T12:00:61Z", 1).is_err());
}

#[test]
fn test_leap_year_rules() {
    // Divisible by 4: leap.
    assert!(MicroShardUUID::from_iso("2024-02-29T10:00:00.000000Z", 0).is_ok());
    // Not divisible by 4: no Feb 29.
    assert!(MicroShardUUID::from_iso("2023-02-29T00:00:00Z", 0).is_err());
    // Divisible by 100 but not 400: no Feb 29.
    assert!(MicroShardUUID::from_iso("2100-02-29T00:00:00Z", 0).is_err());
    // Divisible by 400: leap.
    assert!(MicroShardUUID::from_iso("2000-02-29T12:30:45.000000Z", 0).is_ok());
}

#[test]
fn test_error_messages() {
    assert_eq!(
        MicroShardUUID::from_iso("nope", 1).unwrap_err().message(),
        "Invalid ISO 8601 timestamp format"
    );
    assert_eq!(
        MicroShardUUID::from_u128(0).unwrap_err().message(),
        "Invalid UUID Version: 0, expected 8"
    );
    assert_eq!(
        MicroShardUUID::from_u128(15u128 << 76).unwrap_err().message(),
        "Invalid UUID Version: 15, expected 8"
    );
    assert_eq!(
        MicroShardUUID::from_u128(8u128 << 76).unwrap_err().message(),
        "Invalid UUID Variant: 0, expected 2"
    );
}

#[test]
fn test_rng_deterministic_seed() {
    // The same seed yields the same sequence.
    let mut a = SimpleRng::from_seed(42);
    let mut b = SimpleRng::from_seed(42);
    for _ in 0..8 {
        assert_eq!(a.next_u64(), b.next_u64());
    }

    // A known first draw of the xorshift-star sequence.
    let mut unit = SimpleRng::from_seed(1);
    assert_eq!(unit.next_u64(), 0x47e4_ce4b_896c_dd1d);
    let mut forty_two = SimpleRng::from_seed(42);
    assert_eq!(forty_two.next_u64(), 0x56ce_4ab7_719b_a3a0);
}

#[test]
fn test_rng_zero_seed_fallback() {
    // An all-zero seed falls back to a fixed non-zero state, so the
    // generator never emits the stuck all-zero sequence.
    let mut z = SimpleRng::from_seed(0);
    let mut f = SimpleRng::from_seed(0xCAFEBABE);
    for _ in 0..8 {
        let v = z.next_u64();
        assert_ne!(v, 0);
        assert_eq!(v, f.next_u64());
    }
}

#[test]
fn test_generated_ids_differ() {
    // Two draws in the same process diverge through the random field
    // (and possibly the timestamp).
    let a = MicroShardUUID::generate(9).unwrap();
    let b = MicroShardUUID::generate(9).unwrap();
    assert_ne!(a.as_u128(), b.as_u128());
}
