use skwd_lens::index::{
    read_index_fingerprints_with_room, room_request, IndexError, IndexErrorKind,
};
use skwd_lens::index_writer::{encode_index, fingerprint_path, index_string_length, index_u32};
use skwd_lens::semantic_index::{IndexRoom, SemanticIndex};
use skwd_lens::{
    cache_index_name, manifest_identity, read_index_fingerprints, read_index_header, validate_index,
    BuildEntry, ImageView, IndexEntry, IndexHeader, IndexReader, INDEX_MAGIC,
    MAX_INDEX_STRING_BYTES,
};

type DecodedIndex = (IndexHeader, Vec<(IndexEntry, Vec<u32>)>);

fn header(dimensions: u32, model: &[u8], count: u64) -> Vec<u8> {
    let mut bytes = Vec::from(INDEX_MAGIC.as_slice());
    bytes.extend_from_slice(&dimensions.to_le_bytes());
    bytes.extend_from_slice(&(model.len() as u32).to_le_bytes());
    bytes.extend_from_slice(model);
    bytes.extend_from_slice(&19_u64.to_le_bytes());
    bytes.extend_from_slice(&count.to_le_bytes());
    bytes
}

fn index(entries: &[(&str, u64, &[f32])]) -> Vec<u8> {
    let mut bytes = header(2, b"model@1", entries.len() as u64);
    for (key, fingerprint, embedding) in entries {
        bytes.extend_from_slice(&(key.len() as u32).to_le_bytes());
        bytes.extend_from_slice(key.as_bytes());
        bytes.extend_from_slice(&fingerprint.to_le_bytes());
        for value in *embedding {
            bytes.extend_from_slice(&value.to_le_bytes());
        }
    }
    bytes
}

fn decode(bytes: &[u8]) -> Result<DecodedIndex, IndexError> {
    let mut reader = IndexReader::new(bytes)?;
    let count = reader.header().count;
    let dimensions = reader.header().dimensions as usize;
    let mut entries = Vec::new();
    let mut embeddings = Vec::new();
    for _ in 0..count {
        let start = embeddings.len();
        let entry = reader.read_entry_into(&mut embeddings)?;
        entries.push((entry, embeddings[start..start + dimensions].to_vec()));
    }
    Ok((reader.finish()?, entries))
}

fn bits(values: &[f32]) -> Vec<u32> {
    values.iter().map(|value| value.to_bits()).collect()
}

fn entry(key: &str, fingerprint: u64, embedding: &[f32]) -> (BuildEntry, Vec<u32>) {
    let entry = BuildEntry {
        key: String::from(key),
        path: String::new(),
        fingerprint,
        view: ImageView::Full,
    };
    (entry, bits(embedding))
}

#[test]
fn roundtrip_float_bits() {
    let bytes = index(&[("same", 23, &[0.25, 0.75]), ("same", 29, &[f32::NAN, -0.0])]);

    let (header, entries) = decode(&bytes).unwrap();

    assert_eq!(
        header,
        IndexHeader { dimensions: 2, model: "model@1".into(), fingerprint: 19, count: 2 }
    );
    assert_eq!(entries[0].0, IndexEntry { key: "same".into(), fingerprint: 23 });
    assert_eq!(entries[0].1, bits(&[0.25, 0.75]));
    assert_eq!(entries[1].0, IndexEntry { key: "same".into(), fingerprint: 29 });
    assert_eq!(entries[1].1[0], f32::NAN.to_bits());
    assert_eq!(entries[1].1[1], (-0.0_f32).to_bits());
}

#[test]
fn fingerprints_skip_embeddings() {
    let bytes = index(&[("", 23, &[0.25, 0.75]), ("two", 29, &[0.5, 1.0])]);

    let header = read_index_header(&bytes).unwrap();
    let fingerprints = read_index_fingerprints(&bytes).unwrap();

    assert_eq!(header.model, "model@1");
    assert_eq!(header.fingerprint, 19);
    assert_eq!(fingerprints.get(""), Some(&23));
    assert_eq!(fingerprints.get("two"), Some(&29));
    assert_eq!(fingerprints.len(), 2);
}

#[test]
fn last_fingerprint_of_a_key_counts() {
    let bytes = index(&[("one", 23, &[0.25, 0.75]), ("one", 29, &[0.5, 1.0])]);
    let fingerprints = read_index_fingerprints_with_room(&bytes, Ok(())).unwrap();
    assert_eq!(fingerprints.get("one"), Some(&29));
    assert_eq!(fingerprints.len(), 1);
}

#[test]
fn refused_room_is_reported() {
    let bytes = index(&[("one", 23, &[0.25, 0.75])]);
    let error =
        read_index_fingerprints_with_room(&bytes, Err(String::from("no memory"))).err().unwrap();
    assert_eq!(error.kind(), IndexErrorKind::InvalidData);
    assert_eq!(error.message, "semantic index entry count is too large: no memory");

    let mut reader = IndexReader::new(&bytes).unwrap();
    let mut embeddings = vec![7];
    let error = reader
        .read_entry_with_room(&mut embeddings, Err(String::from("no memory")))
        .err()
        .unwrap();
    assert_eq!(error.message, "semantic index dimensions are too large: no memory");
    assert_eq!(embeddings, [7]);
}

#[test]
fn skip_entry_truncated() {
    let mut bytes = index(&[("one", 23, &[0.25, 0.75])]);
    bytes.pop();
    let mut reader = IndexReader::new(bytes.as_slice()).unwrap();

    assert_eq!(reader.skip_entry().unwrap_err().kind(), IndexErrorKind::UnexpectedEof);
}

#[test]
fn complete_validation_rejects_truncated_and_trailing_bodies() {
    let complete = index(&[("one", 23, &[0.25, 0.75])]);
    assert_eq!(validate_index(&complete).unwrap().count, 1);

    assert_eq!(
        validate_index(&complete[..complete.len() - 1]).unwrap_err().kind(),
        IndexErrorKind::UnexpectedEof
    );

    let mut trailing = complete;
    trailing.push(0);
    assert_eq!(validate_index(&trailing).unwrap_err().kind(), IndexErrorKind::InvalidData);
}

#[test]
fn validation_refuses_an_empty_index() {
    let error = validate_index(&header(2, b"model@1", 0)).unwrap_err();
    assert_eq!(error.kind(), IndexErrorKind::InvalidData);
    assert_eq!(error.message, "semantic index is empty");
}

#[test]
fn zero_entry_index() {
    let bytes = header(2, b"model@1", 0);
    let reader = IndexReader::new(bytes.as_slice()).unwrap();
    assert_eq!(reader.finish().unwrap().count, 0);

    let bytes = header(u32::MAX, b"model@1", 0);
    let reader = IndexReader::new(bytes.as_slice()).unwrap();
    assert_eq!(reader.finish().unwrap().dimensions, u32::MAX);
}

#[test]
fn hostile_entry_count() {
    let bytes = header(2, b"model@1", u64::MAX);

    assert_eq!(
        read_index_fingerprints(&bytes).err().unwrap().kind(),
        IndexErrorKind::InvalidData
    );
}

#[test]
fn truncated_prefixes_fail() {
    let bytes = index(&[("one", 23, &[0.25, 0.75]), ("two", 29, &[0.5, 1.0])]);
    for length in 0..bytes.len() {
        assert!(decode(&bytes[..length]).is_err(), "prefix {length}");
    }
}

#[test]
fn malformed_headers_rejected() {
    let mut bad_magic = header(2, b"model@1", 0);
    bad_magic[0] = b'X';
    let cases = [bad_magic, header(0, b"model@1", 0), header(2, b"", 0), header(2, &[0xff], 0), {
        let mut bytes = Vec::from(INDEX_MAGIC.as_slice());
        bytes.extend_from_slice(&2_u32.to_le_bytes());
        bytes.extend_from_slice(&((1_u32 << 20) + 1).to_le_bytes());
        bytes
    }];

    for bytes in cases {
        assert_eq!(
            IndexReader::new(bytes.as_slice()).err().unwrap().kind(),
            IndexErrorKind::InvalidData
        );
    }
}

#[test]
fn invalid_text_names_the_byte() {
    let error = IndexReader::new(&header(2, &[0x61, 0xff], 0)).err().unwrap();
    assert_eq!(error.message, "invalid utf-8 sequence of 1 bytes from index 1");
}

#[test]
fn malformed_entries_rejected() {
    let mut invalid_key = header(2, b"model@1", 1);
    invalid_key.extend_from_slice(&1_u32.to_le_bytes());
    invalid_key.push(0xff);
    invalid_key.extend_from_slice(&23_u64.to_le_bytes());
    invalid_key.extend_from_slice(&[0_u8; 8]);
    assert_eq!(decode(&invalid_key).unwrap_err().kind(), IndexErrorKind::InvalidData);

    let mut oversized_key = header(2, b"model@1", 1);
    oversized_key.extend_from_slice(&((1_u32 << 20) + 1).to_le_bytes());
    assert_eq!(decode(&oversized_key).unwrap_err().kind(), IndexErrorKind::InvalidData);

    let mut trailing = index(&[("one", 23, &[0.25, 0.75])]);
    trailing.push(0);
    assert_eq!(decode(&trailing).unwrap_err().kind(), IndexErrorKind::InvalidData);
}

#[test]
fn entry_failure_preserves_embeddings() {
    let mut bytes = header(2, b"model@1", 1);
    bytes.extend_from_slice(&3_u32.to_le_bytes());
    bytes.extend_from_slice(b"one");
    bytes.extend_from_slice(&23_u64.to_le_bytes());
    bytes.extend_from_slice(&0.25_f32.to_le_bytes());
    let mut reader = IndexReader::new(bytes.as_slice()).unwrap();
    let mut embeddings = bits(&[7.0]);

    let error = reader.read_entry_into(&mut embeddings).unwrap_err();

    assert_eq!(error.kind(), IndexErrorKind::UnexpectedEof);
    assert_eq!(embeddings, bits(&[7.0]));
}

#[test]
fn finish_requires_all_entries() {
    let bytes = index(&[("one", 23, &[0.25, 0.75])]);
    let reader = IndexReader::new(bytes.as_slice()).unwrap();
    let error = reader.finish().unwrap_err();
    assert_eq!(error.kind(), IndexErrorKind::InvalidData);
    assert_eq!(error.message, "semantic index has 1 unread entries");
}

#[test]
fn reading_past_the_last_entry_fails() {
    let bytes = index(&[("one", 23, &[0.25, 0.75])]);
    let mut reader = IndexReader::new(bytes.as_slice()).unwrap();
    reader.skip_entry().unwrap();
    assert_eq!(
        reader.skip_entry().unwrap_err().message,
        "semantic index has no remaining entries"
    );
}

#[test]
fn manifest_identity_read() {
    let manifest: serde_json::Value =
        serde_json::from_slice(br#"{"format":1,"id":"siglip","version":"v2"}"#).unwrap();
    let identity = manifest_identity(
        manifest["id"].as_str().unwrap(),
        manifest["version"].as_str().unwrap(),
    );
    assert_eq!(identity, "siglip@v2");
}

#[test]
fn cache_names_profile_specific() {
    let full = cache_index_name("siglip2@example", "full");
    assert_eq!(full, cache_index_name("siglip2@example", "full"));
    assert_ne!(full, cache_index_name("siglip2@example", "multiview"));
    assert_ne!(full, cache_index_name("pe-core@example", "full"));
}

#[test]
fn cache_name_is_a_padded_hash() {
    assert_eq!(cache_index_name("", ""), "index-af64724c8602eb6e.sidx");
    assert_eq!(cache_index_name("siglip2@example", "full"), "index-4996a02d76bcc887.sidx");
}

#[test]
fn parses_semantic_index() {
    let mut bytes = Vec::from(INDEX_MAGIC.as_slice());
    bytes.extend_from_slice(&2_u32.to_le_bytes());
    bytes.extend_from_slice(&4_u32.to_le_bytes());
    bytes.extend_from_slice(b"test");
    bytes.extend_from_slice(&[0; 8]);
    bytes.extend_from_slice(&1_u64.to_le_bytes());
    bytes.extend_from_slice(&3_u32.to_le_bytes());
    bytes.extend_from_slice(b"one");
    bytes.extend_from_slice(&[0; 8]);
    bytes.extend_from_slice(&0.25_f32.to_le_bytes());
    bytes.extend_from_slice(&0.75_f32.to_le_bytes());

    let index = SemanticIndex::load(&bytes).unwrap();
    assert_eq!(index.model, "test");
    assert_eq!(index.keys, ["one"]);
    assert_eq!(index.fingerprints, [0]);
    assert_eq!(index.embeddings, bits(&[0.25, 0.75]));
    assert_eq!(index.dimensions, 2);
}

#[test]
fn loading_reports_what_is_in_the_way() {
    let load = |bytes: &[u8], room: &IndexRoom| {
        SemanticIndex::load_with_room(bytes, room).err().unwrap().chain()
    };
    let granted = IndexRoom { keys: Ok(()), fingerprints: Ok(()), embeddings: Ok(()) };
    assert_eq!(load(b"SKWD", &granted), "failed to fill whole buffer");
    assert_eq!(load(&header(2, b"model@1", 0), &granted), "semantic index is empty");
    assert_eq!(
        load(&header(u32::MAX, b"model@1", u64::MAX), &granted),
        "semantic index dimensions overflow"
    );
    let refused = IndexRoom {
        keys: Ok(()),
        fingerprints: Ok(()),
        embeddings: Err(String::from("no memory")),
    };
    assert_eq!(
        load(&index(&[("one", 23, &[0.25, 0.75])]), &refused),
        "semantic index dimensions are too large: no memory"
    );
}

#[test]
fn memory_is_asked_for_by_the_header() {
    let request = |dimensions: u32, count: u64| {
        let header = IndexHeader { dimensions, model: "m".into(), fingerprint: 0, count };
        let request = room_request(&header);
        (request.embedding, request.entries, request.values)
    };
    assert_eq!(request(2, 3), (2, Some(3), Some(6)));
    assert_eq!(request(1, u64::MAX), (1, Some(usize::MAX), Some(usize::MAX)));
    assert_eq!(request(2, u64::MAX), (2, Some(usize::MAX), None));
    assert_eq!(read_index_fingerprints(&header(2, b"model@1", 0)).ok().unwrap().len(), 0);
}

#[test]
fn written_index_reads_back() {
    let entries = [entry("one", 23, &[0.25, f32::NAN]), entry("two", 29, &[-0.0, 1.0])];
    let bytes = encode_index("model@1", 19, &entries, 2).unwrap();

    let (header, decoded) = decode(&bytes).unwrap();

    assert_eq!(
        header,
        IndexHeader { dimensions: 2, model: "model@1".into(), fingerprint: 19, count: 2 }
    );
    assert_eq!(decoded[0].0, IndexEntry { key: "one".into(), fingerprint: 23 });
    assert_eq!(decoded[0].1, entries[0].1);
    assert_eq!(decoded[1].0, IndexEntry { key: "two".into(), fingerprint: 29 });
    assert_eq!(decoded[1].1, entries[1].1);
    assert_eq!(bytes, {
        let mut expected = index(&[("one", 23, &[0.25, f32::NAN]), ("two", 29, &[-0.0, 1.0])]);
        expected[..8].copy_from_slice(b"SKWDSEM3");
        expected
    });
}

#[test]
fn rejects_wrong_embedding_size() {
    let entries = vec![entry("invalid", 1, &[0.5])];

    let failure = encode_index("test@1", 1, &entries, 2).unwrap_err();
    assert_eq!(
        failure.chain(),
        "semantic index embedding for invalid has 1 dimensions, expected 2"
    );
}

#[test]
fn rejects_oversized_strings() {
    let oversized = "x".repeat(MAX_INDEX_STRING_BYTES + 1);
    assert!(encode_index(&oversized, 1, &[], 2).is_err());

    let entries = vec![entry(&oversized, 1, &[0.5, 0.5])];
    assert_eq!(
        encode_index("test@1", 1, &entries, 2).unwrap_err().chain(),
        "semantic index key length exceeds format limit"
    );
}

#[test]
fn numbers_must_fit_the_format() {
    assert_eq!(index_u32(7, "field").unwrap(), 7);
    assert_eq!(
        index_u32(u32::MAX as usize + 1, "field").unwrap_err().chain(),
        "field exceeds format limit: out of range integral type conversion attempted"
    );
    assert_eq!(index_string_length(MAX_INDEX_STRING_BYTES, "field").unwrap(), 1 << 20);
    assert_eq!(
        index_string_length(MAX_INDEX_STRING_BYTES + 1, "field").unwrap_err().chain(),
        "field exceeds format limit"
    );
}

#[test]
fn fingerprint_stands_beside_the_index() {
    assert_eq!(fingerprint_path("/cache/a.sidx"), "/cache/a.sidx.fingerprint");
}
