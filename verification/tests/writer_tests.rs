use revindex_export::scanner::EnrichedRecord;
use revindex_export::text::{first_whitespace_token, join_with_char, prefix_before_char, split_on_char};
use revindex_export::writer::{schema_fields, RecordBuffer};

fn record(hash: u64) -> EnrichedRecord {
    EnrichedRecord {
        hash,
        dataset_names: vec![],
        taxonomy_list: None,
        lca_lineage: None,
        lca_rank: None,
        ksize: 31,
        scaled: 1000,
        source: "db".to_string(),
    }
}

#[test]
fn buffer_flushes_at_threshold_in_order() {
    let mut buf = RecordBuffer::new(3);
    assert!(buf.push(record(1)).is_none());
    assert!(buf.push(record(2)).is_none());
    let batch = buf.push(record(3)).expect("third record fills the buffer");
    let hashes: Vec<u64> = batch.iter().map(|r| r.hash).collect();
    assert_eq!(hashes, vec![1, 2, 3]);
    // The buffer emptied; the next batch starts over.
    assert!(buf.push(record(4)).is_none());
    let rest = buf.finish();
    assert_eq!(rest.len(), 1);
    assert_eq!(rest[0].hash, 4);
}

#[test]
fn buffer_finish_hands_back_remainder() {
    let mut buf = RecordBuffer::new(100);
    for h in 0..5u64 {
        assert!(buf.push(record(h)).is_none());
    }
    let rest = buf.finish();
    let hashes: Vec<u64> = rest.iter().map(|r| r.hash).collect();
    assert_eq!(hashes, vec![0, 1, 2, 3, 4]);
}

#[test]
fn schema_has_the_eight_declared_columns() {
    let fields = schema_fields();
    let names: Vec<&str> = fields.iter().map(|f| f.name).collect();
    assert_eq!(
        names,
        vec![
            "hash",
            "dataset_names",
            "taxonomy_list",
            "lca_lineage",
            "lca_rank",
            "ksize",
            "scaled",
            "source"
        ]
    );
    let nullable: Vec<bool> = fields.iter().map(|f| f.nullable).collect();
    assert_eq!(nullable, vec![false, false, true, true, true, false, false, false]);
}

#[test]
fn split_keeps_empty_parts() {
    assert_eq!(split_on_char("a;;b", ';'), vec!["a", "", "b"]);
    assert_eq!(split_on_char("", ';'), vec![""]);
    assert_eq!(split_on_char(";", ';'), vec!["", ""]);
    assert_eq!(split_on_char("abc", ';'), vec!["abc"]);
}

#[test]
fn join_restores_split() {
    let parts = split_on_char("d__B;p__P;;s__S", ';');
    assert_eq!(join_with_char(&parts, ";"), "d__B;p__P;;s__S");
    let empty: Vec<String> = vec![];
    assert_eq!(join_with_char(&empty, ";"), "");
}

#[test]
fn prefix_stops_at_first_separator() {
    assert_eq!(prefix_before_char("a.b.c", '.'), "a");
    assert_eq!(prefix_before_char("abc", '.'), "abc");
    assert_eq!(prefix_before_char(".abc", '.'), "");
}

#[test]
fn first_token_skips_leading_whitespace() {
    assert_eq!(first_whitespace_token("GCF_1.2 Shewanella baltica"), Some("GCF_1.2".to_string()));
    assert_eq!(first_whitespace_token("  spaced out  "), Some("spaced".to_string()));
    assert_eq!(first_whitespace_token("single"), Some("single".to_string()));
    assert_eq!(first_whitespace_token("   "), None);
    assert_eq!(first_whitespace_token(""), None);
}
