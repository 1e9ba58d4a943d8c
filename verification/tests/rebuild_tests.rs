//! Provenance records, the journal schema, and the journal writer set.

use ungoliant::error::CorpusError;
use ungoliant::journal::{read_shard_results, RebuildWriter, RebuildWriters};
use ungoliant::lang::NB_LANGS;
use ungoliant::rebuild::{RebuildInformation, ShardResult};
use ungoliant::schema::{decode_shard_result, encode_shard_result};
use ungoliant::types::{Identification, Location, Metadata};

#[test]
fn rebuild_information_into_raw_parts() {
    let loc = Location::default();
    let m = Metadata::default();
    let ri = RebuildInformation::new(loc.clone(), m.clone());
    let (loc2, m2) = ri.into_raw_parts();

    assert_eq!(loc, loc2);
    assert_eq!(m, m2);
}

#[test]
fn test_ser_empty() {
    let sr = ShardResult::new(0, Vec::new(), Vec::new());
    println!("{:#?}", sr);
    let mut rw = RebuildWriter::new();

    rw.append_ser(&sr).unwrap();
}

#[test]
fn test_ser() {
    let meta = vec![Metadata::default()];
    let loc = vec![Location::default()];
    let sr = ShardResult::new(0, loc, meta);
    println!("{:#?}", sr);
    let mut rw = RebuildWriter::new();

    rw.append_ser(&sr).unwrap();
    let bytes = rw.take_bytes();

    let result = read_shard_results(&bytes).unwrap();
    assert_eq!(result.len(), 1);
    assert_eq!(result[0], sr);
}

fn rich_shard_result() -> ShardResult {
    let ident = Identification::new(String::from("fr"), 0x3f4ccccd);
    let meta = Metadata::new(
        ident.clone(),
        Some(vec![String::from("short_sentences"), String::from("header")]),
        vec![None, Some(ident.clone()), None],
    );
    let loc = Location::new(7, String::from("<urn:uuid:1234>"), 10, 12, 0);
    ShardResult::new(-3, vec![loc], vec![meta])
}

#[test]
fn schema_round_trip_rich() {
    let sr = rich_shard_result();
    let bytes = encode_shard_result(&sr);
    let (back, used) = decode_shard_result(&bytes, 0).unwrap();
    assert_eq!(used, bytes.len());
    assert_eq!(back, sr);
}

#[test]
fn schema_round_trip_empty() {
    let sr = ShardResult::new(-1, Vec::new(), Vec::new());
    let bytes = encode_shard_result(&sr);
    let (back, used) = decode_shard_result(&bytes, 0).unwrap();
    assert_eq!(used, bytes.len());
    assert_eq!(back, sr);
}

#[test]
fn schema_rejects_truncation() {
    let sr = rich_shard_result();
    let bytes = encode_shard_result(&sr);
    let cut: Vec<u8> = bytes[..bytes.len() - 1].to_vec();
    assert!(decode_shard_result(&cut, 0).is_none());
}

#[test]
fn journal_round_trip_many() {
    let mut rw = RebuildWriter::new();
    let a = rich_shard_result();
    let b = ShardResult::new(4, vec![Location::default()], vec![Metadata::default()]);
    rw.extend_ser(&vec![]).unwrap();
    rw.append_ser(&a).unwrap();
    rw.append_ser(&b).unwrap();
    let bytes = rw.take_bytes();
    let back = read_shard_results(&bytes).unwrap();
    assert_eq!(back.len(), 2);
    assert_eq!(back[0], a);
    assert_eq!(back[1], b);
}

#[test]
fn journal_extend_matches_repeated_appends() {
    let a = rich_shard_result();
    let b = ShardResult::new(4, vec![Location::default()], vec![Metadata::default()]);
    let mut one_by_one = RebuildWriter::new();
    let n1 = one_by_one.append_ser(&a).unwrap();
    let n2 = one_by_one.append_ser(&b).unwrap();
    let mut all_at_once = RebuildWriter::new();
    let n = all_at_once.extend_ser(&vec![a, b]).unwrap();
    assert_eq!(n, n1 + n2);
    assert_eq!(one_by_one.take_bytes(), all_at_once.take_bytes());
}

#[test]
fn journal_rejects_bad_version() {
    let mut rw = RebuildWriter::new();
    rw.append_ser(&rich_shard_result()).unwrap();
    let mut bytes = rw.take_bytes();
    bytes[0] = 99;
    assert!(read_shard_results(&bytes).is_none());
}

#[test]
fn destination_must_be_empty() {
    match RebuildWriters::with_dst_state(true, false, true) {
        Err(e) => assert_eq!(e, CorpusError::DestinationNotEmpty),
        Ok(_) => panic!("a non-empty destination must be rejected"),
    }
}

#[test]
fn destination_must_not_be_file() {
    match RebuildWriters::with_dst_state(true, true, false) {
        Err(e) => assert_eq!(e, CorpusError::DestinationIsFile),
        Ok(_) => panic!("a file destination must be rejected"),
    }
}

#[test]
fn destination_fresh_gives_empty_readable_journals() {
    let mut ws = RebuildWriters::with_dst_state(false, false, false).unwrap();
    assert!(ws.get(NB_LANGS).is_none());
    for l in 0..NB_LANGS {
        assert!(ws.get(l).is_some());
        let bytes = ws.writers[l].take_bytes();
        assert_eq!(bytes.len(), 0);
        let decoded = read_shard_results(&bytes).unwrap();
        assert_eq!(decoded.len(), 0);
    }
}

#[test]
fn accessors_read_back_fields() {
    let id = Identification::new(String::from("de"), 77);
    assert_eq!(id.label(), "de");
    assert_eq!(id.prob_bits(), 77);

    let meta = Metadata::new(id.clone(), None, vec![Some(id.clone()), None]);
    assert_eq!(meta.identification(), &id);
    assert!(meta.annotation().is_none());
    assert_eq!(meta.sentence_identifications().len(), 2);

    let loc = Location::new(3, String::from("rec"), 5, 9, 2);
    assert_eq!(loc.shard_id(), 3);
    assert_eq!(loc.record_id(), "rec");
    assert_eq!(loc.line_start(), 5);
    assert_eq!(loc.line_end(), 9);
    assert_eq!(loc.loc_in_shard(), 2);

    let ri = RebuildInformation::new(loc.clone(), meta.clone());
    assert_eq!(ri.shard_id(), 3);
    assert_eq!(ri.record_id(), "rec");
    assert_eq!(ri.line_start(), 5);
    assert_eq!(ri.line_end(), 9);
    assert_eq!(ri.loc_in_shard(), 2);
    assert_eq!(ri.metadata(), &meta);

    let sr = ShardResult::new(8, vec![loc], vec![meta]);
    let (sid, info) = sr.into_raw_parts();
    assert_eq!(sid, 8);
    assert_eq!(info.len(), 1);
}

#[test]
fn shard_result_new_zips() {
    let locs = vec![
        Location::new(1, String::from("a"), 0, 0, 0),
        Location::new(1, String::from("b"), 1, 2, 1),
    ];
    let metas = vec![Metadata::default(), Metadata::default()];
    let sr = ShardResult::new(1, locs, metas);
    assert_eq!(sr.shard_id(), 1);
    let info = sr.rebuild_info();
    assert_eq!(info.len(), 2);
    assert_eq!(info[0].record_id(), "a");
    assert_eq!(info[1].record_id(), "b");
    assert_eq!(info[1].line_start(), 1);
    assert_eq!(info[1].line_end(), 2);
    assert_eq!(info[1].loc_in_shard(), 1);
    assert_eq!(info[1].shard_id(), 1);
    assert_eq!(*info[0].metadata(), Metadata::default());
}
