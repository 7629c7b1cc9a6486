use revindex_export::taxonomy::{
    strip_accession_version, TaxonomyError, TaxonomyRow, TaxonomyTable,
};

fn full_row(ident: &str, fields: [Option<&str>; 7]) -> TaxonomyRow {
    TaxonomyRow {
        ident: ident.to_string(),
        domain: fields[0].map(|s| s.to_string()),
        phylum: fields[1].map(|s| s.to_string()),
        class: fields[2].map(|s| s.to_string()),
        order: fields[3].map(|s| s.to_string()),
        family: fields[4].map(|s| s.to_string()),
        genus: fields[5].map(|s| s.to_string()),
        species: fields[6].map(|s| s.to_string()),
    }
}

#[test]
fn version_suffix_is_stripped() {
    assert_eq!(strip_accession_version("GCF_000195755.1"), "GCF_000195755");
    assert_eq!(strip_accession_version("GCF_000195755"), "GCF_000195755");
    assert_eq!(strip_accession_version("a.b.c"), "a");
    assert_eq!(strip_accession_version(""), "");
}

#[test]
fn build_fails_on_no_usable_rows() {
    let rows: Vec<TaxonomyRow> = vec![];
    assert!(matches!(TaxonomyTable::build(&rows), Err(TaxonomyError::Empty)));
    let only_bare = vec![full_row("GCF_1", [None, None, None, None, None, None, None])];
    assert!(matches!(TaxonomyTable::build(&only_bare), Err(TaxonomyError::Empty)));
}

#[test]
fn build_joins_present_fields_in_order() {
    let rows = vec![full_row(
        "GCF_1.2",
        [Some("d__B"), Some("p__P"), None, None, None, Some("g__G"), None],
    )];
    let table = TaxonomyTable::build(&rows).expect("one usable row");
    // Absent ranks are simply left out of the joined lineage.
    assert_eq!(table.get("GCF_1").map(String::as_str), Some("d__B;p__P;g__G"));
    assert!(table.get("GCF_1.2").is_none());
}

#[test]
fn later_rows_overwrite_earlier_ones() {
    let rows = vec![
        full_row("GCF_1.1", [Some("d__Old"), None, None, None, None, None, None]),
        full_row("GCF_1.2", [Some("d__New"), None, None, None, None, None, None]),
    ];
    let table = TaxonomyTable::build(&rows).expect("usable rows");
    // Both idents normalize to GCF_1; the later row wins.
    assert_eq!(table.get("GCF_1").map(String::as_str), Some("d__New"));
}

#[test]
fn rows_without_lineage_are_skipped() {
    let rows = vec![
        full_row("GCF_1", [None, None, None, None, None, None, None]),
        full_row("GCF_2", [Some("d__B"), None, None, None, None, None, None]),
    ];
    assert!(!rows[0].has_lineage());
    assert!(rows[1].has_lineage());
    let table = TaxonomyTable::build(&rows).expect("one usable row");
    assert!(table.get("GCF_1").is_none());
    assert_eq!(table.get("GCF_2").map(String::as_str), Some("d__B"));
}

#[test]
fn empty_error_carries_a_message() {
    let rows: Vec<TaxonomyRow> = vec![];
    let err = TaxonomyTable::build(&rows).unwrap_err();
    assert_eq!(err, TaxonomyError::Empty);
    assert_eq!(err.message(), "taxonomy table is empty or failed to parse");
}

#[test]
fn get_misses_unknown_idents() {
    let rows = vec![full_row("GCF_1", [Some("d__B"), None, None, None, None, None, None])];
    let table = TaxonomyTable::build(&rows).expect("one usable row");
    assert!(table.get("GCF_9").is_none());
    assert!(table.get("").is_none());
}
