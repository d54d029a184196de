use rkyv_intern::{
    deserialize_values, ArchivedRkyvInternedString, BufSerializer, InternAdapter,
    InternSerializeMap, InternSerializeRegistry, InternSerializerAdapterError, InternedRkyvString,
    Intern, ReaderError, SharedDeserializeCache, WriterError,
};

fn fresh_adapter(limit: usize, capacity: usize) -> InternAdapter {
    InternAdapter::new(
        BufSerializer::new(limit),
        SharedDeserializeCache::new(),
        InternSerializeMap::new(capacity),
    )
}

fn bytes_of(values: &[&str]) -> Vec<Vec<u8>> {
    values.iter().map(|s| s.as_bytes().to_vec()).collect()
}

#[test]
fn intern_strings() {
    const USERS: [&'static str; 4] = [
        "Alice, the leader and brains behind the team",
        "Bob, bodybuilder and the muslce of the operation",
        "Carol, safe-cracker and swindler extraordinaire",
        "Dave, Jumanji master of the nineteenth dimension",
    ];

    let mut value: Vec<Vec<u8>> = Vec::new();
    for i in 0..1000 {
        value.push(USERS[i % USERS.len()].as_bytes().to_vec());
    }

    let mut serializer = fresh_adapter(1 << 20, 4096);
    let positions = serializer
        .serialize_values(&value)
        .expect("failed to serialize interned strings");

    let result = serializer.into_serializer().into_inner();
    assert!(result.len() < 20_000);

    let deserialized =
        deserialize_values(&result, &positions).expect("failed to deserialized interned strings");
    assert_eq!(deserialized, value);
}

#[test]
fn five_occurrences_two_copies() {
    let values = bytes_of(&["alice", "bob", "alice", "alice", "bob"]);
    let mut adapter = fresh_adapter(4096, 64);
    let positions = adapter.serialize_values(&values).unwrap();
    let buf = adapter.into_serializer().into_inner();

    // Two physical copies (5 + 3 payload bytes) and five 8-byte records.
    assert_eq!(buf.len(), 5 + 3 + 5 * 8);

    let records: Vec<ArchivedRkyvInternedString> = positions
        .iter()
        .map(|&q| ArchivedRkyvInternedString::read_from(&buf, q).unwrap())
        .collect();

    // Repeated content carries structurally identical records.
    assert_eq!(records[0], records[2]);
    assert_eq!(records[0], records[3]);
    assert_eq!(records[1], records[4]);

    // First-seen offsets: "alice" was written before "bob".
    assert!(records[0].pos < records[1].pos);
    assert_eq!(records[0].pos, 0);
    assert_eq!(records[0].len, 5);
    assert_eq!(records[1].pos, 13);
    assert_eq!(records[1].len, 3);

    assert_eq!(&buf[0..5], b"alice");
    assert_eq!(&buf[13..16], b"bob");
}

#[test]
fn size_stays_near_distinct_payloads() {
    let pool = ["north", "east", "south", "west"];
    let mut values: Vec<Vec<u8>> = Vec::new();
    for i in 0..1000 {
        values.push(pool[i % 4].as_bytes().to_vec());
    }
    let distinct: usize = pool.iter().map(|s| s.len()).sum();

    let mut adapter = fresh_adapter(1 << 20, 64);
    let positions = adapter.serialize_values(&values).unwrap();
    let buf = adapter.into_serializer().into_inner();

    assert_eq!(buf.len(), distinct + 1000 * 8);
    let round = deserialize_values(&buf, &positions).unwrap();
    assert_eq!(round, values);
}

#[test]
fn round_trip_keeps_every_content() {
    let mut values: Vec<Vec<u8>> = Vec::new();
    values.push(b"".to_vec());
    values.push(b"plain".to_vec());
    values.push(vec![0u8, 159, 146, 150]);
    values.push(b"wi\0th null".to_vec());
    values.push("na\u{ef}ve caf\u{e9}".as_bytes().to_vec());
    values.push(b"".to_vec());

    let mut adapter = fresh_adapter(4096, 64);
    let positions = adapter.serialize_values(&values).unwrap();
    let buf = adapter.into_serializer().into_inner();
    let round = deserialize_values(&buf, &positions).unwrap();
    assert_eq!(round, values);
}

#[test]
fn empty_sequence_serializes_and_deserializes() {
    let values: Vec<Vec<u8>> = Vec::new();
    let mut adapter = fresh_adapter(64, 4);
    let positions = adapter.serialize_values(&values).unwrap();
    assert!(positions.is_empty());
    let buf = adapter.into_serializer().into_inner();
    assert!(buf.is_empty());
    let round = deserialize_values(&buf, &positions).unwrap();
    assert!(round.is_empty());
}

#[test]
fn single_element_serializes_and_deserializes() {
    let values = bytes_of(&["only"]);
    let mut adapter = fresh_adapter(64, 4);
    let positions = adapter.serialize_values(&values).unwrap();
    assert_eq!(positions.len(), 1);
    let buf = adapter.into_serializer().into_inner();
    assert_eq!(buf.len(), 4 + 8);
    let round = deserialize_values(&buf, &positions).unwrap();
    assert_eq!(round, values);
}

#[test]
fn empty_string_interns_to_zero_length_record() {
    let values = bytes_of(&["", ""]);
    let mut adapter = fresh_adapter(64, 4);
    let positions = adapter.serialize_values(&values).unwrap();
    let buf = adapter.into_serializer().into_inner();

    // Two records, no payload bytes at all.
    assert_eq!(buf.len(), 16);
    let rec = ArchivedRkyvInternedString::read_from(&buf, positions[0]).unwrap();
    assert_eq!(rec.len, 0);
    let round = deserialize_values(&buf, &positions).unwrap();
    assert_eq!(round, vec![Vec::<u8>::new(), Vec::<u8>::new()]);
}

#[test]
fn buffer_limit_fails_with_serializer_error() {
    let values = bytes_of(&["this payload does not fit"]);
    let mut adapter = fresh_adapter(10, 4);
    let err = adapter.serialize_values(&values).unwrap_err();
    assert!(matches!(
        err,
        InternSerializerAdapterError::SerializerError(WriterError::Exhausted)
    ));
}

#[test]
fn registry_capacity_fails_with_intern_error() {
    let values = bytes_of(&["first", "second"]);
    let mut adapter = fresh_adapter(4096, 1);
    let err = adapter.serialize_values(&values).unwrap_err();
    assert!(matches!(
        err,
        InternSerializerAdapterError::InternError(
            rkyv_intern::InternError::RegistryFull
        )
    ));

    // The same two values fit once the registry has room for both.
    let mut roomy = fresh_adapter(4096, 2);
    assert!(roomy.serialize_values(&values).is_ok());
}

#[test]
fn truncated_record_is_reported() {
    let buf: Vec<u8> = vec![1, 2, 3];
    let err = ArchivedRkyvInternedString::read_from(&buf, 0).unwrap_err();
    assert_eq!(err, ReaderError::TruncatedRecord);

    let positions = vec![0usize];
    assert_eq!(
        deserialize_values(&buf, &positions).unwrap_err(),
        ReaderError::TruncatedRecord
    );
}

#[test]
fn out_of_bounds_target_is_reported() {
    let buf: Vec<u8> = vec![0; 16];
    let rec = ArchivedRkyvInternedString { pos: 100, len: 5 };
    assert_eq!(rec.resolve(&buf).unwrap_err(), ReaderError::OutOfBounds);
}

#[test]
fn scratch_requests_must_match() {
    let mut adapter = fresh_adapter(64, 4);
    adapter.push_scratch(16, 8).unwrap();
    let err = adapter.pop_scratch(8, 8).unwrap_err();
    assert!(matches!(
        err,
        InternSerializerAdapterError::SerializerError(WriterError::ScratchMismatch)
    ));
    adapter.pop_scratch(16, 8).unwrap();
    assert!(matches!(
        adapter.pop_scratch(16, 8),
        Err(InternSerializerAdapterError::SerializerError(
            WriterError::ScratchMismatch
        ))
    ));
}

#[test]
fn align_pads_to_boundary() {
    let mut adapter = fresh_adapter(64, 4);
    adapter.write(&[7, 7, 7]).unwrap();
    let aligned = adapter.align(4).unwrap();
    assert_eq!(aligned, 4);
    assert_eq!(adapter.pos(), 4);
    let already = adapter.align(4).unwrap();
    assert_eq!(already, 4);
    adapter.pad(2).unwrap();
    assert_eq!(adapter.pos(), 6);
    let buf = adapter.into_serializer().into_inner();
    assert_eq!(buf, vec![7, 7, 7, 0, 0, 0]);
}

#[test]
fn write_side_shared_registry_remembers_positions() {
    let mut adapter = fresh_adapter(64, 4);
    assert_eq!(adapter.get_shared_ptr(0x1000), None);
    adapter.add_shared_ptr(0x1000, 24).unwrap();
    adapter.add_shared_ptr(0x2000, 48).unwrap();
    assert_eq!(adapter.get_shared_ptr(0x1000), Some(24));
    assert_eq!(adapter.get_shared_ptr(0x2000), Some(48));
    assert_eq!(adapter.get_shared_ptr(0x3000), None);
}

#[test]
fn shared_values_materialize_once() {
    let values = bytes_of(&["shared", "other", "shared"]);
    let mut adapter = fresh_adapter(4096, 8);
    let positions = adapter.serialize_values(&values).unwrap();
    let (serializer, mut cache, _registry) = adapter.into_components();
    let buf = serializer.into_inner();

    let rec0 = ArchivedRkyvInternedString::read_from(&buf, positions[0]).unwrap();
    let rec1 = ArchivedRkyvInternedString::read_from(&buf, positions[1]).unwrap();
    let rec2 = ArchivedRkyvInternedString::read_from(&buf, positions[2]).unwrap();

    let h0 = cache.deserialize_shared(&buf, &rec0).unwrap();
    let h1 = cache.deserialize_shared(&buf, &rec1).unwrap();
    let h2 = cache.deserialize_shared(&buf, &rec2).unwrap();

    // The repeated content resolves to the same pooled entry.
    assert_eq!(h0, h2);
    assert_ne!(h0, h1);
    assert_eq!(cache.get_pooled(h0), &b"shared".to_vec());
    assert_eq!(cache.get_pooled(h1), &b"other".to_vec());
}

#[test]
fn adapter_exposes_registry_capability() {
    let mut adapter = fresh_adapter(4096, 8);
    assert_eq!(adapter.get_interned(b"token"), None);
    let p = adapter.serialize_interned(b"token").unwrap();
    assert_eq!(adapter.get_interned(b"token"), Some(p));
    adapter.add_interned(b"manual".to_vec(), p).unwrap();
    assert_eq!(adapter.get_interned(b"manual"), Some(p));
}

#[test]
fn string_fields_round_trip() {
    let field = InternedRkyvString(String::from("na\u{ef}ve caf\u{e9} \u{2603}"));
    let mut adapter = fresh_adapter(4096, 8);

    let resolver = Intern::serialize_with(&field, &mut adapter).unwrap();
    let q = Intern::resolve_with(resolver, &mut adapter).unwrap();
    let buf = adapter.into_serializer().into_inner();

    let rec = ArchivedRkyvInternedString::read_from(&buf, q).unwrap();
    let back = Intern::deserialize_with(&rec, &buf).unwrap();
    assert_eq!(back, field);
    assert_eq!(back.as_ref().as_str(), "na\u{ef}ve caf\u{e9} \u{2603}");
}

#[test]
fn byte_equal_strings_share_one_copy() {
    let first = InternedRkyvString(String::from("duplicate"));
    let second = InternedRkyvString(String::from("duplicate"));
    let mut adapter = fresh_adapter(4096, 8);

    let res1 = Intern::serialize_with(&first, &mut adapter).unwrap();
    let res2 = Intern::serialize_with(&second, &mut adapter).unwrap();
    assert_eq!(res1, res2);
    assert_eq!(adapter.pos(), "duplicate".len());
}

#[test]
fn invalid_text_fails_field_decode() {
    let values = vec![vec![0xffu8, 0xfe, 0xfd]];
    let mut adapter = fresh_adapter(4096, 8);
    let positions = adapter.serialize_values(&values).unwrap();
    let buf = adapter.into_serializer().into_inner();

    // The bytes round-trip at the byte level ...
    assert_eq!(deserialize_values(&buf, &positions).unwrap(), values);

    // ... but they are not text, and the string decode says so.
    let rec = ArchivedRkyvInternedString::read_from(&buf, positions[0]).unwrap();
    assert_eq!(
        Intern::deserialize_with(&rec, &buf).unwrap_err(),
        ReaderError::InvalidContent
    );
}

#[test]
fn default_adapter_serializes() {
    let values = bytes_of(&["alpha", "beta", "alpha"]);
    let mut serializer = InternAdapter::default();
    let positions = serializer.serialize_values(&values).unwrap();
    let buf = serializer.into_serializer().into_inner();
    assert_eq!(buf.len(), 5 + 4 + 3 * 8);
    assert_eq!(deserialize_values(&buf, &positions).unwrap(), values);
}

#[test]
fn teardown_returns_all_components() {
    let mut adapter = fresh_adapter(4096, 8);
    adapter.serialize_interned(b"kept").unwrap();
    let (serializer, _cache, registry) = adapter.into_components();
    assert_eq!(serializer.into_inner(), b"kept".to_vec());
    assert_eq!(registry.get_interned(b"kept"), Some(0));

    let mut other = fresh_adapter(4096, 8);
    other.serialize_interned(b"cached").unwrap();
    let cache = other.into_deserializer();
    assert_eq!(cache.get_shared_ptr(0), None);
}
