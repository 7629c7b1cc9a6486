use revindex_export::catalog::{CatalogEntry, DatasetCatalog};
use revindex_export::scanner::{hash_from_key, KeyOutcome, Scanner};
use revindex_export::taxonomy::{TaxonomyRow, TaxonomyTable};

fn catalog_of(entries: Vec<Option<(&str, &str)>>) -> DatasetCatalog {
    DatasetCatalog {
        entries: entries
            .into_iter()
            .map(|e| {
                e.map(|(name, filename)| CatalogEntry {
                    name: name.to_string(),
                    filename: filename.to_string(),
                })
            })
            .collect(),
    }
}

fn row(ident: &str, domain: &str, phylum: &str) -> TaxonomyRow {
    TaxonomyRow {
        ident: ident.to_string(),
        domain: Some(domain.to_string()),
        phylum: Some(phylum.to_string()),
        class: None,
        order: None,
        family: None,
        genus: None,
        species: None,
    }
}

#[test]
fn hash_decodes_little_endian() {
    let key: Vec<u8> = vec![0x01, 0x02, 0x03, 0x04, 0x05, 0x06, 0x07, 0x08];
    assert_eq!(hash_from_key(&key), 0x0807060504030201u64);
    let one: Vec<u8> = vec![1, 0, 0, 0, 0, 0, 0, 0];
    assert_eq!(hash_from_key(&one), 1u64);
    let top: Vec<u8> = vec![0, 0, 0, 0, 0, 0, 0, 0x80];
    assert_eq!(hash_from_key(&top), 0x8000000000000000u64);
}

#[test]
fn short_key_is_rejected_without_counting() {
    let mut sc = Scanner::new(31, 1000, "db".to_string(), 10);
    let key: Vec<u8> = vec![1, 2, 3];
    match sc.accept_key(&key) {
        KeyOutcome::Invalid => {}
        KeyOutcome::Accepted { .. } => panic!("a 3-byte key must be rejected"),
    }
    assert_eq!(sc.processed, 0);
    assert_eq!(sc.summary.total, 0);
}

#[test]
fn accepted_key_reports_progress_at_percent_boundary() {
    let mut sc = Scanner::new(31, 1000, "db".to_string(), 100);
    let key: Vec<u8> = vec![42, 0, 0, 0, 0, 0, 0, 0];
    match sc.accept_key(&key) {
        KeyOutcome::Accepted { hash, progress } => {
            assert_eq!(hash, 42);
            // 1 of an estimated 100 entries crosses the 1% boundary.
            assert_eq!(progress, Some(1));
        }
        KeyOutcome::Invalid => panic!("an 8-byte key must be accepted"),
    }
    assert_eq!(sc.processed, 1);
    assert_eq!(sc.next_percent, 2);
    // The second entry sits at 2%.
    match sc.accept_key(&key) {
        KeyOutcome::Accepted { progress, .. } => assert_eq!(progress, Some(2)),
        KeyOutcome::Invalid => panic!("an 8-byte key must be accepted"),
    }
}

#[test]
fn no_progress_before_boundary() {
    let mut sc = Scanner::new(31, 1000, "db".to_string(), 1000);
    let key: Vec<u8> = vec![0, 0, 0, 0, 0, 0, 0, 0];
    // 1 of 1000 is 0%, below the first boundary at 1%.
    match sc.accept_key(&key) {
        KeyOutcome::Accepted { progress, .. } => assert!(progress.is_none()),
        KeyOutcome::Invalid => panic!("an 8-byte key must be accepted"),
    }
}

#[test]
fn finish_entry_without_taxonomy_is_unclassified() {
    let mut sc = Scanner::new(31, 1000, "db".to_string(), 0);
    let catalog = catalog_of(vec![Some(("sample one", "one.sig"))]);
    let ids: Vec<u32> = vec![0];
    let (record, out_of_range) = sc.finish_entry(7, &ids, &catalog, None);
    assert_eq!(record.hash, 7);
    assert_eq!(record.dataset_names, vec!["sample one".to_string()]);
    assert!(record.taxonomy_list.is_none());
    assert!(record.lca_lineage.is_none());
    assert!(record.lca_rank.is_none());
    assert_eq!(record.ksize, 31);
    assert_eq!(record.scaled, 1000);
    assert_eq!(record.source, "db");
    assert_eq!(out_of_range, 0);
    assert_eq!(sc.summary.unclassified_count, 1);
    assert_eq!(sc.summary.total, 1);
}

#[test]
fn finish_entry_joins_taxonomy_and_computes_lca() {
    let mut sc = Scanner::new(31, 1000, "db".to_string(), 0);
    let catalog = catalog_of(vec![
        Some(("GCF_001.1 Shewanella baltica", "a.sig")),
        Some(("GCF_002.2 Shewanella oneidensis", "b.sig")),
    ]);
    let rows = vec![
        row("GCF_001.1", "d__Bacteria", "p__Proteobacteria"),
        row("GCF_002.9", "d__Bacteria", "p__Firmicutes"),
    ];
    let table = TaxonomyTable::build(&rows).expect("two entries");
    let ids: Vec<u32> = vec![0, 1];
    let (record, out_of_range) = sc.finish_entry(9, &ids, &catalog, Some(&table));
    assert_eq!(out_of_range, 0);
    assert_eq!(
        record.dataset_names,
        vec![
            "GCF_001.1 Shewanella baltica".to_string(),
            "GCF_002.2 Shewanella oneidensis".to_string()
        ]
    );
    // Both accessions are version-stripped before lookup.
    assert_eq!(
        record.taxonomy_list,
        Some(vec![
            "d__Bacteria;p__Proteobacteria".to_string(),
            "d__Bacteria;p__Firmicutes".to_string()
        ])
    );
    assert_eq!(record.lca_lineage.as_deref(), Some("d__Bacteria"));
    assert_eq!(record.lca_rank.as_deref(), Some("domain"));
    assert_eq!(sc.summary.rank_counts[0], 1);
    assert_eq!(sc.summary.total, 1);
}

#[test]
fn finish_entry_counts_no_ancestor_for_disjoint_lineages() {
    let mut sc = Scanner::new(31, 1000, "db".to_string(), 0);
    let catalog = catalog_of(vec![Some(("GCF_001 x", "a.sig")), Some(("GCF_002 y", "b.sig"))]);
    let rows = vec![
        row("GCF_001", "d__Bacteria", "p__Firmicutes"),
        row("GCF_002", "d__Archaea", "p__Euryarchaeota"),
    ];
    let table = TaxonomyTable::build(&rows).expect("two entries");
    let ids: Vec<u32> = vec![0, 1];
    let (record, _) = sc.finish_entry(9, &ids, &catalog, Some(&table));
    assert_eq!(record.lca_lineage.as_deref(), Some(""));
    assert!(record.lca_rank.is_none());
    assert_eq!(sc.summary.no_lca_count, 1);
    assert_eq!(sc.summary.unclassified_count, 0);
}

#[test]
fn finish_entry_unmatched_name_is_unclassified_not_no_ancestor() {
    let mut sc = Scanner::new(31, 1000, "db".to_string(), 0);
    let catalog = catalog_of(vec![Some(("GCF_999 unknown", "a.sig"))]);
    let rows = vec![row("GCF_001", "d__Bacteria", "p__Firmicutes")];
    let table = TaxonomyTable::build(&rows).expect("one entry");
    let ids: Vec<u32> = vec![0];
    let (record, _) = sc.finish_entry(9, &ids, &catalog, Some(&table));
    assert_eq!(record.taxonomy_list, Some(vec![]));
    assert_eq!(record.lca_lineage.as_deref(), Some(""));
    assert!(record.lca_rank.is_none());
    assert_eq!(sc.summary.unclassified_count, 1);
    assert_eq!(sc.summary.no_lca_count, 0);
}

#[test]
fn finish_entry_drops_out_of_range_and_unresolved_ids() {
    let mut sc = Scanner::new(31, 1000, "db".to_string(), 0);
    let catalog = catalog_of(vec![Some(("one", "a.sig")), None]);
    let ids: Vec<u32> = vec![0, 1, 5];
    let (record, out_of_range) = sc.finish_entry(9, &ids, &catalog, None);
    // Id 1 is unresolved, id 5 is out of the catalog bounds.
    assert_eq!(record.dataset_names, vec!["one".to_string()]);
    assert_eq!(out_of_range, 1);
}

#[test]
fn catalog_prefers_name_and_falls_back_to_filename() {
    let catalog = catalog_of(vec![Some(("named", "a.sig")), Some(("", "b.sig"))]);
    assert_eq!(catalog.resolve(0), Some("named".to_string()));
    assert_eq!(catalog.resolve(1), Some("b.sig".to_string()));
    assert_eq!(catalog.resolve(2), None);
}
