use revindex_export::lca::compute_lca_strs;

#[test]
fn test_identical_lineages() {
    let input = vec![
        "d__Bacteria;p__Proteobacteria;c__Gammaproteobacteria;o__Enterobacterales;f__Shewanellaceae;g__Shewanella;s__Shewanella baltica".to_string(),
        "d__Bacteria;p__Proteobacteria;c__Gammaproteobacteria;o__Enterobacterales;f__Shewanellaceae;g__Shewanella;s__Shewanella baltica".to_string(),
    ];
    let (lca, rank) = compute_lca_strs(&input);
    assert_eq!(lca, input[0]);
    assert_eq!(rank.map(|r| r.name()), Some("species"));
}

#[test]
fn test_partial_lca() {
    let input = vec![
        "d__Bacteria;p__Bacteroidota;c__Bacteroidia;o__Bacteroidales;f__Bacteroidaceae;g__Phocaeicola;s__Phocaeicola vulgatus".to_string(),
        "d__Bacteria;p__Bacteroidota;c__Bacteroidia;o__Bacteroidales;f__Bacteroidaceae;g__Prevotella;s__Prevotella copri_B".to_string(),
    ];
    let (lca, rank) = compute_lca_strs(&input);
    assert_eq!(
        lca,
        "d__Bacteria;p__Bacteroidota;c__Bacteroidia;o__Bacteroidales;f__Bacteroidaceae"
    );
    assert_eq!(rank.map(|r| r.name()), Some("family"));
}

#[test]
fn test_no_common_lca() {
    let input = vec![
        "d__Bacteria;p__Firmicutes".to_string(),
        "d__Archaea;p__Euryarchaeota".to_string(),
    ];
    let (lca, rank) = compute_lca_strs(&input);
    assert_eq!(lca, "");
    assert!(rank.is_none());
}

#[test]
fn test_single_entry() {
    let input = vec!["d__Bacteria;p__Firmicutes;c__Bacilli".to_string()];
    let (lca, rank) = compute_lca_strs(&input);
    assert_eq!(lca, input[0]);
    assert_eq!(rank.map(|r| r.name()), Some("class"));
}

#[test]
fn test_empty_input() {
    let input: Vec<String> = vec![];
    let (lca, rank) = compute_lca_strs(&input);
    assert_eq!(lca, "");
    assert!(rank.is_none());
}

#[test]
fn lca_stops_at_shorter_lineage() {
    let input = vec![
        "d__Bacteria;p__Firmicutes;c__Bacilli".to_string(),
        "d__Bacteria;p__Firmicutes".to_string(),
    ];
    let (lca, rank) = compute_lca_strs(&input);
    assert_eq!(lca, "d__Bacteria;p__Firmicutes");
    assert_eq!(rank.map(|r| r.name()), Some("phylum"));
}

#[test]
fn lca_of_three_diverging_at_order() {
    let input = vec![
        "d__A;p__B;c__C;o__D1".to_string(),
        "d__A;p__B;c__C;o__D2".to_string(),
        "d__A;p__B;c__C;o__D3".to_string(),
    ];
    let (lca, rank) = compute_lca_strs(&input);
    assert_eq!(lca, "d__A;p__B;c__C");
    assert_eq!(rank.map(|r| r.name()), Some("class"));
}

#[test]
fn lca_full_seven_ranks_single() {
    let input = vec!["d__A;p__B;c__C;o__D;f__E;g__F;s__G".to_string()];
    let (lca, rank) = compute_lca_strs(&input);
    assert_eq!(lca, input[0]);
    assert_eq!(rank.map(|r| r.name()), Some("species"));
}

#[test]
fn lca_beyond_species_has_no_rank_name() {
    let input = vec!["a;b;c;d;e;f;g;h".to_string(), "a;b;c;d;e;f;g;h".to_string()];
    let (lca, rank) = compute_lca_strs(&input);
    assert_eq!(lca, "a;b;c;d;e;f;g;h");
    assert!(rank.is_none());
}
