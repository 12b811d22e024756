use chrono::{TimeZone, Utc};
use db::{
    build_bytes, build_meta, from_uuid_bytes, generate_random_i32, Component, Error, Identifier,
    PropType, Property, Timestamp, Uuid, MAX_TIMESTAMP_NANOS,
};

fn sample_uuid(seed: u8) -> Uuid {
    let mut b = [0u8; 16];
    for (i, x) in b.iter_mut().enumerate() {
        *x = seed.wrapping_mul(31).wrapping_add(i as u8);
    }
    Uuid::from_bytes(b)
}

fn ts_of(year: i32) -> Timestamp {
    let dt = Utc.with_ymd_and_hms(year, 1, 1, 0, 0, 0).unwrap();
    Timestamp { secs: dt.timestamp(), subsec_nanos: dt.timestamp_subsec_nanos() }
}

#[test]
fn uuid_component_round_trip() {
    let u = sample_uuid(7);
    let bytes = build_bytes(&[Component::Uuid(u)]).unwrap();
    assert_eq!(bytes.len(), 16);
    assert_eq!(Component::read_uuid(&bytes), Ok(u));
    assert_eq!(from_uuid_bytes(&bytes), Ok(u));
}

#[test]
fn uuid_round_trip_through_uuid_crate() {
    let external = uuid::Uuid::parse_str("67e55044-10b1-426f-9247-bb680e5fe0c8").unwrap();
    let u = Uuid::from_bytes(*external.as_bytes());
    let bytes = build_bytes(&[Component::Uuid(u), Component::Bytes(&[1, 2, 3])]).unwrap();
    let back = from_uuid_bytes(&bytes).unwrap();
    assert_eq!(uuid::Uuid::from_bytes(back.bytes), external);
}

#[test]
fn read_uuid_short_buffer_fails() {
    assert_eq!(Component::read_uuid(&[0u8; 15]), Err(Error::Decoding));
    assert_eq!(from_uuid_bytes(&[]), Err(Error::Decoding));
}

#[test]
fn timestamp_encoding_is_inverted() {
    let t1 = ts_of(2020);
    let t2 = ts_of(2021);
    assert_eq!(t1.secs, 1577836800);
    let e1 = build_bytes(&[Component::DateTime(t1)]).unwrap();
    let e2 = build_bytes(&[Component::DateTime(t2)]).unwrap();
    assert_eq!(e1.len(), 8);
    assert!(e1 > e2);
}

#[test]
fn timestamp_encoding_exact_bytes() {
    let epoch = Timestamp { secs: 0, subsec_nanos: 0 };
    let e = build_bytes(&[Component::DateTime(epoch)]).unwrap();
    assert_eq!(MAX_TIMESTAMP_NANOS, 2_147_483_648_999_999_999);
    assert_eq!(e, MAX_TIMESTAMP_NANOS.to_be_bytes().to_vec());
    let t = Timestamp { secs: 1, subsec_nanos: 5 };
    let e = build_bytes(&[Component::DateTime(t)]).unwrap();
    assert_eq!(e, (MAX_TIMESTAMP_NANOS - 1_000_000_005).to_be_bytes().to_vec());
    let last = Timestamp { secs: 2_147_483_647, subsec_nanos: 1_999_999_999 };
    assert_eq!(build_bytes(&[Component::DateTime(last)]).unwrap(), vec![0u8; 8]);
}

#[test]
fn timestamp_outside_window_is_rejected() {
    let before = Timestamp { secs: -1, subsec_nanos: 0 };
    assert_eq!(build_bytes(&[Component::DateTime(before)]), Err(Error::Encoding));
    let after = Timestamp { secs: 2_147_483_648, subsec_nanos: 999_999_999 + 1_000_000_000 };
    assert_eq!(build_bytes(&[Component::DateTime(after)]), Err(Error::Encoding));
    let mut buf = vec![9u8];
    assert_eq!(Component::DateTime(before).write(&mut buf), Err(Error::Encoding));
    assert_eq!(buf, vec![9u8]);
}

#[test]
fn component_lengths_match_written_bytes() {
    let id = Identifier::new("knows").unwrap();
    let u = sample_uuid(1);
    let data = [5u8, 6, 7];
    let comps = [
        Component::Uuid(u),
        Component::Property(&u, &data),
        Component::FixedLengthString("abc"),
        Component::Identifier(&id),
        Component::DateTime(ts_of(2020)),
        Component::Bytes(&data),
    ];
    let expected = [16usize, 20, 3, 6, 8, 3];
    for (c, n) in comps.iter().zip(expected.iter()) {
        assert_eq!(c.len(), *n);
        let mut buf = Vec::new();
        c.write(&mut buf).unwrap();
        assert_eq!(buf.len(), *n);
    }
}

#[test]
fn identifier_and_property_layout() {
    let id = Identifier::new("knows").unwrap();
    let bytes = build_bytes(&[Component::Identifier(&id)]).unwrap();
    assert_eq!(bytes, vec![5, b'k', b'n', b'o', b'w', b's']);
    let u = sample_uuid(2);
    let bytes = build_bytes(&[Component::Property(&u, &[0xaa, 0xbb])]).unwrap();
    let mut expected = u.bytes.to_vec();
    expected.extend_from_slice(&[2, 0xaa, 0xbb]);
    assert_eq!(bytes, expected);
    assert_eq!(build_bytes(&[Component::FixedLengthString("xy")]).unwrap(), b"xy".to_vec());
}

#[test]
fn property_data_too_long_is_rejected() {
    let u = sample_uuid(3);
    let data = vec![1u8; 256];
    assert_eq!(build_bytes(&[Component::Property(&u, &data)]), Err(Error::Encoding));
    let data = vec![1u8; 255];
    assert_eq!(build_bytes(&[Component::Property(&u, &data)]).unwrap().len(), 16 + 1 + 255);
}

#[test]
fn identifier_validation() {
    assert_eq!(Identifier::new(""), Err(Error::Validation));
    assert_eq!(Identifier::new("a b"), Err(Error::Validation));
    assert_eq!(Identifier::new("tab\t"), Err(Error::Validation));
    assert_eq!(Identifier::new(&"x".repeat(256)), Err(Error::Validation));
    let long = Identifier::new(&"x".repeat(255)).unwrap();
    assert_eq!(long.len(), 255);
    assert_eq!(Identifier::new("knows").unwrap().as_bytes(), b"knows");
}

#[test]
fn build_bytes_concatenates_in_order() {
    let a = sample_uuid(4);
    let b = sample_uuid(5);
    let bytes = build_bytes(&[Component::Uuid(a), Component::Bytes(&[7]), Component::Uuid(b)]).unwrap();
    let mut expected = a.bytes.to_vec();
    expected.push(7);
    expected.extend_from_slice(&b.bytes);
    assert_eq!(bytes, expected);
    assert_eq!(build_bytes(&[]).unwrap(), Vec::<u8>::new());
}

#[test]
fn meta_header() {
    assert_eq!(build_meta(3, 4), vec![3, 4]);
    assert_eq!(build_meta(255, 255), vec![255, 255]);
}

#[test]
fn property_new_has_random_v4_id() {
    let p = Property::new("since", PropType::UInt32).unwrap();
    assert_eq!(p.name, "since");
    assert_eq!(p.t, PropType::UInt32);
    assert_eq!(p.id.bytes[6] >> 4, 4);
    assert_eq!(p.id.bytes[8] >> 6, 2);
    let q = Property::new("since", PropType::UInt32).unwrap();
    assert_ne!(p.id, q.id);
    assert_eq!(uuid::Uuid::from_bytes(p.id.bytes).get_version_num(), 4);
}

#[test]
fn prop_type_default_is_unknown() {
    assert_eq!(PropType::default(), PropType::Unknown);
}

#[test]
fn random_i32_varies() {
    let draws: Vec<i32> = (0..16).map(|_| generate_random_i32()).collect();
    assert!(draws.iter().any(|x| *x != draws[0]));
}
