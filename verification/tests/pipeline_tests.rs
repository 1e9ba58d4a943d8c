//! Record processing, merging, per-language writing, and one end-to-end
//! shard.

use ungoliant::document::{Document, MergedPiece, Sentence};
use ungoliant::error::CorpusError;
use ungoliant::journal::{read_shard_results, RebuildWriter};
use ungoliant::lang::{lang_code, lang_index, NB_LANGS};
use ungoliant::pipeline::{group_pieces_by_lang, write_shard_lang};
use ungoliant::process::{body_to_lines, identify_sentence, process_record, split_lines};
use ungoliant::types::Identification;
use ungoliant::writer::{LangFiles, LangWriter};

const EN_LINE_A1: &str = "english test that is longer than one hundred characters. english test that is longer than one hundred characters.";
const FR_LINE: &str = "phrase française de plus de cent caractères. Ceci est une phrase française de plus de cent caractères.";

fn en() -> Identification {
    Identification::new(String::from("en"), 0x3f666666)
}

fn fr() -> Identification {
    Identification::new(String::from("fr"), 0x3f4ccccd)
}

#[test]
fn test_process_record() {
    let lines = vec![String::from(EN_LINE_A1), String::from(FR_LINE)];
    let predictions = vec![Some(en()), Some(fr())];
    let identifications = process_record(lines, predictions);

    for s in &identifications {
        let id = lang_code(s.lang);
        if id == "en" {
            assert_eq!(s.text, EN_LINE_A1);
        } else if id == "fr" {
            assert_eq!(s.text, FR_LINE);
        }
    }
    assert_eq!(identifications.len(), 2);
}

#[test]
fn body_to_lines_splits_and_gates_utf8() {
    let lines = body_to_lines(b"first line\r\nsecond\nkeeps trailing cr\r".to_vec()).unwrap();
    assert_eq!(
        lines,
        vec![
            String::from("first line"),
            String::from("second"),
            String::from("keeps trailing cr\r"),
        ]
    );
    assert!(body_to_lines(vec![0xff, 0xfe]).is_none());
    assert_eq!(body_to_lines(Vec::new()).unwrap().len(), 0);
    let with_empty = body_to_lines(b"a\n\nb".to_vec()).unwrap();
    assert_eq!(
        with_empty,
        vec![String::from("a"), String::from(""), String::from("b")]
    );
}

#[test]
fn split_lines_final_ending_optional() {
    assert_eq!(split_lines("a\n"), vec![String::from("a")]);
    assert_eq!(split_lines("a"), vec![String::from("a")]);
    assert_eq!(split_lines("\n"), vec![String::from("")]);
    assert_eq!(split_lines("caf\u{e9}\nth\u{e9}"), vec![
        String::from("caf\u{e9}"),
        String::from("th\u{e9}"),
    ]);
}

#[test]
fn lang_table_lookups() {
    assert_eq!(lang_index(&String::from("en")), Some(0));
    assert_eq!(lang_index(&String::from("fr")), Some(1));
    assert_eq!(lang_index(&String::from("xx")), None);
    assert_eq!(lang_code(0), "en");
    assert!(NB_LANGS >= 2);
}

#[test]
fn identify_sentence_validates_label() {
    let s = identify_sentence(String::from("hello"), Some(fr())).unwrap();
    assert_eq!(s.lang, 1);
    assert_eq!(s.text, "hello");
    assert!(identify_sentence(String::from("hello"), None).is_none());
    let odd = Identification::new(String::from("xx"), 0);
    assert!(identify_sentence(String::from("hello"), Some(odd)).is_none());
}

#[test]
fn process_record_filters_short_and_unknown() {
    let lines = vec![
        String::from("too short"),
        String::from(EN_LINE_A1),
        String::from(FR_LINE),
        String::from(EN_LINE_A1),
    ];
    let predictions = vec![
        Some(en()),
        Some(en()),
        Some(Identification::new(String::from("zz"), 0)),
        None,
    ];
    let kept = process_record(lines, predictions);
    assert_eq!(kept.len(), 1);
    assert_eq!(kept[0].text, EN_LINE_A1);
    assert_eq!(kept[0].lang, 0);
    for s in &kept {
        assert!(s.text.chars().count() > 100);
        assert!(s.lang < NB_LANGS);
    }
}

fn sentence(text: &str, id: Identification, lang: usize) -> Sentence {
    Sentence { text: String::from(text), identification: id, lang }
}

#[test]
fn merge_groups_contiguous_runs() {
    let doc = Document::new(
        String::from("rec-1"),
        Vec::new(),
        vec![
            sentence("a", en(), 0),
            sentence("b", en(), 0),
            sentence("c", fr(), 1),
            sentence("d", en(), 0),
        ],
    );
    let pieces = doc.into_merged_pieces_lang();
    assert_eq!(pieces.len(), 3);

    assert_eq!(pieces[0].lang, 0);
    assert_eq!(pieces[0].sentences, vec![String::from("a"), String::from("b")]);
    assert_eq!((pieces[0].line_start, pieces[0].line_end), (0, 1));

    assert_eq!(pieces[1].lang, 1);
    assert_eq!(pieces[1].sentences, vec![String::from("c")]);
    assert_eq!((pieces[1].line_start, pieces[1].line_end), (2, 2));

    assert_eq!(pieces[2].lang, 0);
    assert_eq!(pieces[2].sentences, vec![String::from("d")]);
    assert_eq!((pieces[2].line_start, pieces[2].line_end), (3, 3));

    assert_eq!(pieces[0].identification, en());
    assert_eq!(pieces[0].sentence_identifications.len(), 2);
    assert_eq!(pieces[0].sentence_identifications[0], Some(en()));
    assert_eq!(pieces[0].record_id, "rec-1");
}

#[test]
fn merge_carries_headers_and_record() {
    let headers = vec![(String::from("warc-target-uri"), String::from("http://example.com/"))];
    let doc = Document::new(
        String::from("rec-9"),
        headers.clone(),
        vec![sentence("a", en(), 0), sentence("b", fr(), 1)],
    );
    let pieces = doc.into_merged_pieces_lang();
    assert_eq!(pieces.len(), 2);
    for p in &pieces {
        assert_eq!(p.record_id, "rec-9");
        assert_eq!(p.headers, headers);
    }
    assert_eq!(pieces[0].nb_sentences(), 1);
    assert_eq!(pieces[1].identification(), 1);
}

#[test]
fn merge_empty_and_single() {
    let empty = Document::new(String::from("r"), Vec::new(), Vec::new());
    assert_eq!(empty.into_merged_pieces_lang().len(), 0);

    let single = Document::new(String::from("r"), Vec::new(), vec![sentence("x", en(), 0)]);
    let pieces = single.into_merged_pieces_lang();
    assert_eq!(pieces.len(), 1);
    assert_eq!((pieces[0].line_start, pieces[0].line_end), (0, 0));

    let alternating = Document::new(
        String::from("r"),
        Vec::new(),
        vec![sentence("x", en(), 0), sentence("y", fr(), 1), sentence("z", en(), 0)],
    );
    assert_eq!(alternating.into_merged_pieces_lang().len(), 3);
}

#[test]
fn writer_offsets_tile_without_gaps() {
    let doc_a = Document::new(
        String::from("A"),
        Vec::new(),
        vec![sentence("a", en(), 0), sentence("b", en(), 0), sentence("c", en(), 0)],
    );
    let doc_b = Document::new(String::from("B"), Vec::new(), vec![sentence("d", en(), 0)]);
    let mut pieces = doc_a.into_merged_pieces_lang();
    pieces.extend(doc_b.into_merged_pieces_lang());

    let mut w = LangWriter::new(0);
    let sr = write_shard_lang(&mut w, 9, pieces).unwrap();
    let info = sr.rebuild_info();
    assert_eq!(info.len(), 2);
    assert_eq!((info[0].line_start(), info[0].line_end()), (0, 2));
    assert_eq!((info[1].line_start(), info[1].line_end()), (3, 3));
    assert_eq!(info[0].loc_in_shard(), 0);
    assert_eq!(info[1].loc_in_shard(), 1);
    assert_eq!(w.lines_written, 4);

    // a later shard's batch starts exactly where the previous one ended
    let doc_c = Document::new(String::from("C"), Vec::new(), vec![sentence("e", en(), 0)]);
    let sr2 = write_shard_lang(&mut w, 10, doc_c.into_merged_pieces_lang()).unwrap();
    let info2 = sr2.rebuild_info();
    assert_eq!((info2[0].line_start(), info2[0].line_end()), (4, 4));
    assert_eq!(w.lines_written, 5);
}

#[test]
fn lang_files_one_writer_per_language() {
    let files = LangFiles::new();
    for l in 0..NB_LANGS {
        let w = files.get(l).unwrap();
        assert_eq!(w.lang, l);
        assert_eq!(w.lines_written, 0);
    }
    assert!(files.get(NB_LANGS).is_none());
}

#[test]
fn writer_rejects_foreign_language() {
    let doc = Document::new(String::from("r"), Vec::new(), vec![sentence("x", fr(), 1)]);
    let mut w = LangWriter::new(0);
    match write_shard_lang(&mut w, 0, doc.into_merged_pieces_lang()) {
        Err(e) => assert_eq!(e, CorpusError::UnknownLanguage),
        Ok(_) => panic!("a piece of another language must be rejected"),
    }
    assert_eq!(w.lines_written, 0);
}

#[test]
fn grouping_keeps_order_and_rejects_unknown() {
    let doc = Document::new(
        String::from("r"),
        Vec::new(),
        vec![sentence("a", en(), 0), sentence("c", fr(), 1), sentence("d", en(), 0)],
    );
    let buckets = group_pieces_by_lang(doc.into_merged_pieces_lang()).unwrap();
    assert_eq!(buckets.len(), NB_LANGS);
    assert_eq!(buckets[0].len(), 2);
    assert_eq!(buckets[1].len(), 1);
    assert_eq!(buckets[0][0].sentences, vec![String::from("a")]);
    assert_eq!(buckets[0][1].sentences, vec![String::from("d")]);

    let bad = MergedPiece {
        lang: NB_LANGS,
        sentences: vec![String::from("x")],
        line_start: 0,
        line_end: 0,
        record_id: String::from("r"),
        headers: Vec::new(),
        identification: en(),
        sentence_identifications: vec![Some(en())],
    };
    match group_pieces_by_lang(vec![bad]) {
        Err(e) => assert_eq!(e, CorpusError::UnknownLanguage),
        Ok(_) => panic!("an unsupported language index must be rejected"),
    }
}

#[test]
fn end_to_end_one_shard() {
    // record A: two long English lines, then one long French line
    let record_a_lines = vec![
        format!("{} first", EN_LINE_A1),
        format!("{} second", EN_LINE_A1),
        String::from(FR_LINE),
    ];
    let record_a_preds = vec![Some(en()), Some(en()), Some(fr())];
    // record B: one long English line
    let record_b_lines = vec![format!("{} third", EN_LINE_A1)];
    let record_b_preds = vec![Some(en())];

    let doc_a = Document::new(
        String::from("record-A"),
        Vec::new(),
        process_record(record_a_lines.clone(), record_a_preds),
    );
    let doc_b = Document::new(
        String::from("record-B"),
        Vec::new(),
        process_record(record_b_lines.clone(), record_b_preds),
    );

    let mut pieces = doc_a.into_merged_pieces_lang();
    pieces.extend(doc_b.into_merged_pieces_lang());
    let buckets = group_pieces_by_lang(pieces).unwrap();

    // English: piece [A line 0, A line 1], then piece [B line 0]
    let en_pieces = &buckets[0];
    assert_eq!(en_pieces.len(), 2);
    assert_eq!(en_pieces[0].sentences, vec![record_a_lines[0].clone(), record_a_lines[1].clone()]);
    assert_eq!(en_pieces[1].sentences, vec![record_b_lines[0].clone()]);

    // French: one piece [A line 2]
    let fr_pieces = &buckets[1];
    assert_eq!(fr_pieces.len(), 1);
    assert_eq!(fr_pieces[0].sentences, vec![record_a_lines[2].clone()]);

    let mut en_writer = LangWriter::new(0);
    let mut fr_writer = LangWriter::new(1);
    let sr_en = write_shard_lang(&mut en_writer, 0, en_pieces.clone()).unwrap();
    let sr_fr = write_shard_lang(&mut fr_writer, 0, fr_pieces.clone()).unwrap();

    let en_info = sr_en.rebuild_info();
    assert_eq!(en_info.len(), 2);
    assert_eq!(en_info[0].record_id(), "record-A");
    assert_eq!((en_info[0].line_start(), en_info[0].line_end()), (0, 1));
    assert_eq!(en_info[1].record_id(), "record-B");
    assert_eq!((en_info[1].line_start(), en_info[1].line_end()), (2, 2));

    let fr_info = sr_fr.rebuild_info();
    assert_eq!(fr_info.len(), 1);
    assert_eq!(fr_info[0].record_id(), "record-A");
    assert_eq!((fr_info[0].line_start(), fr_info[0].line_end()), (0, 0));

    // the journal of each language decodes back to the same shard results
    let mut rw = RebuildWriter::new();
    rw.append_ser(&sr_en).unwrap();
    let decoded = read_shard_results(&rw.take_bytes()).unwrap();
    assert_eq!(decoded.len(), 1);
    assert_eq!(decoded[0], sr_en);
}
