use db::{build_bytes, build_meta, deserialize_byte_data, deserialize_data_with_meta, AccountDiscriminator, Component, Error, Uuid};

fn fixed_group(entries: &[Vec<u8>], len: usize, tagged: bool) -> Vec<u8> {
    let mut v = Vec::new();
    if tagged {
        v.extend(AccountDiscriminator::Fixed.serialize());
    }
    v.extend(build_meta(entries.len() as u8, len));
    for e in entries {
        v.extend_from_slice(e);
    }
    v
}

fn property_group(entries: &[(Uuid, Vec<u8>)]) -> Vec<u8> {
    let mut v = AccountDiscriminator::Property.serialize();
    v.extend(build_meta(entries.len() as u8, 0));
    for (id, data) in entries {
        v.extend(build_bytes(&[Component::Property(id, data)]).unwrap());
    }
    v
}

fn uuid_of(seed: u8) -> Uuid {
    Uuid::from_bytes([seed; 16])
}

#[test]
fn discriminator_tags() {
    assert_eq!(AccountDiscriminator::Fixed.serialize(), vec![0, 0, 0, 0]);
    assert_eq!(AccountDiscriminator::Property.serialize(), vec![1, 0, 0, 0]);
    assert_eq!(AccountDiscriminator::deserialize(&[1, 0, 0, 0]), Ok(AccountDiscriminator::Property));
    assert_eq!(AccountDiscriminator::deserialize(&[0, 1, 0, 0]), Err(Error::Decoding));
}

#[test]
fn short_discriminator_fails() {
    assert_eq!(AccountDiscriminator::deserialize(&[1, 0, 0]), Err(Error::Decoding));
    assert_eq!(AccountDiscriminator::deserialize(&[]), Err(Error::Decoding));
}

#[test]
fn fixed_group_round_trip() {
    let entries = vec![vec![1, 2, 3, 4], vec![5, 6, 7, 8], vec![9, 10, 11, 12]];
    let bytes = fixed_group(&entries, 4, false);
    let (recs, consumed, tag) = deserialize_data_with_meta(bytes, false).unwrap();
    assert_eq!(recs, entries);
    assert_eq!(consumed, 14);
    assert_eq!(tag, vec![0, 0, 0, 0]);
}

#[test]
fn fixed_group_leaves_trailing_bytes() {
    let entries = vec![vec![1, 2], vec![3, 4]];
    let mut bytes = fixed_group(&entries, 2, true);
    bytes.extend_from_slice(&[99, 98]);
    let (recs, consumed, tag) = deserialize_data_with_meta(bytes, true).unwrap();
    assert_eq!(recs, entries);
    assert_eq!(consumed, 10);
    assert_eq!(tag, vec![0, 0, 0, 0]);
}

#[test]
fn fixed_group_largest_size() {
    let entries: Vec<Vec<u8>> = (0..255u32).map(|i| vec![i as u8; 255]).collect();
    let bytes = fixed_group(&entries, 255, false);
    let (recs, consumed, _) = deserialize_data_with_meta(bytes, false).unwrap();
    assert_eq!(recs, entries);
    assert_eq!(consumed, 2 + 255 * 255);
}

#[test]
fn property_group_round_trip() {
    let entries = vec![(uuid_of(1), vec![]), (uuid_of(2), vec![1, 2, 3, 4, 5]), (uuid_of(3), vec![7u8; 255])];
    let bytes = property_group(&entries);
    let total = bytes.len();
    assert_eq!(total, 6 + 17 * 3 + 5 + 255);
    let (recs, consumed, tag) = deserialize_data_with_meta(bytes, true).unwrap();
    assert_eq!(consumed, total);
    assert_eq!(tag, vec![1, 0, 0, 0]);
    assert_eq!(recs.len(), 3);
    for (rec, (id, data)) in recs.iter().zip(entries.iter()) {
        let mut expected = id.bytes.to_vec();
        expected.extend_from_slice(data);
        assert_eq!(rec, &expected);
    }
}

#[test]
fn two_groups_decode_all() {
    let fixed = vec![vec![1, 1, 1], vec![2, 2, 2]];
    let props = vec![(uuid_of(9), vec![42u8, 43])];
    let mut bytes = fixed_group(&fixed, 3, true);
    bytes.extend(property_group(&props));
    let groups = deserialize_byte_data(bytes, true).unwrap();
    assert_eq!(groups.len(), 2);
    assert_eq!(groups[0], (fixed, vec![0, 0, 0, 0]));
    let mut rec = vec![9u8; 16];
    rec.extend_from_slice(&[42, 43]);
    assert_eq!(groups[1], (vec![rec], vec![1, 0, 0, 0]));
}

#[test]
fn decode_all_several_fixed_groups() {
    let mut bytes = fixed_group(&[vec![1]], 1, false);
    bytes.extend(fixed_group(&[vec![2, 3], vec![4, 5]], 2, false));
    let groups = deserialize_byte_data(bytes, false).unwrap();
    assert_eq!(groups, vec![(vec![vec![1]], vec![0, 0, 0, 0]), (vec![vec![2, 3], vec![4, 5]], vec![0, 0, 0, 0])]);
    assert_eq!(deserialize_byte_data(vec![], false).unwrap(), vec![]);
}

#[test]
fn decode_all_with_incomplete_tail_fails() {
    let mut bytes = fixed_group(&[vec![1, 2]], 2, false);
    bytes.push(3);
    assert_eq!(deserialize_byte_data(bytes, false), Err(Error::Decoding));
}

#[test]
fn truncated_header_fails() {
    assert_eq!(deserialize_data_with_meta(vec![3], false), Err(Error::Decoding));
    assert_eq!(deserialize_data_with_meta(vec![0, 0, 0, 0, 1], true), Err(Error::Decoding));
}

#[test]
fn unknown_discriminator_fails() {
    assert_eq!(deserialize_data_with_meta(vec![2, 0, 0, 0, 0, 0], true), Err(Error::Decoding));
}

#[test]
fn fixed_entries_past_end_fail() {
    assert_eq!(deserialize_data_with_meta(vec![2, 3, 1, 2, 3, 4, 5], false), Err(Error::Decoding));
}

#[test]
fn property_length_past_end_fails() {
    let mut bytes = property_group(&[(uuid_of(1), vec![1, 2, 3])]);
    bytes.pop();
    assert_eq!(deserialize_data_with_meta(bytes, true), Err(Error::Decoding));
    let mut short = AccountDiscriminator::Property.serialize();
    short.extend_from_slice(&[0, 0, 1, 2, 3]);
    assert_eq!(deserialize_data_with_meta(short, true), Err(Error::Decoding));
}
