use revindex_export::lca::Rank;
use revindex_export::summary::LCASummary;

#[test]
fn counters_add_up_to_total() {
    let mut s = LCASummary::new(31, 1000);
    let with_taxonomy = vec!["d__A;p__B".to_string()];
    s.add_rank(Some(&with_taxonomy), Some(Rank::Phylum));
    s.add_rank(Some(&with_taxonomy), Some(Rank::Phylum));
    s.add_rank(Some(&with_taxonomy), None);
    let empty: Vec<String> = vec![];
    s.add_rank(Some(&empty), None);
    s.add_rank(None, None);
    let rank_sum: usize = s.rank_counts.iter().sum();
    assert_eq!(rank_sum + s.no_lca_count + s.unclassified_count, s.total);
    assert_eq!(s.total, 5);
    assert_eq!(s.rank_counts[1], 2);
    assert_eq!(s.no_lca_count, 1);
    assert_eq!(s.unclassified_count, 2);
}

#[test]
fn absent_taxonomy_counts_as_unclassified() {
    let mut s = LCASummary::new(21, 100);
    s.add_rank(None, None);
    assert_eq!(s.unclassified_count, 1);
    assert_eq!(s.no_lca_count, 0);
    assert_eq!(s.total, 1);
}

#[test]
fn empty_taxonomy_list_counts_as_unclassified() {
    let mut s = LCASummary::new(21, 100);
    let empty: Vec<String> = vec![];
    // A rank alongside an empty list still counts as unclassified.
    s.add_rank(Some(&empty), Some(Rank::Domain));
    assert_eq!(s.unclassified_count, 1);
    assert_eq!(s.rank_counts.iter().sum::<usize>(), 0);
}

#[test]
fn no_rank_with_taxonomy_counts_as_no_ancestor() {
    let mut s = LCASummary::new(21, 100);
    let list = vec!["d__Bacteria".to_string(), "d__Archaea".to_string()];
    s.add_rank(Some(&list), None);
    assert_eq!(s.no_lca_count, 1);
    assert_eq!(s.unclassified_count, 0);
}

#[test]
fn merge_adds_every_counter() {
    let mut a = LCASummary::new(31, 1000);
    let list = vec!["x".to_string()];
    a.add_rank(Some(&list), Some(Rank::Domain));
    a.add_rank(None, None);
    let mut b = LCASummary::new(31, 1000);
    b.add_rank(Some(&list), Some(Rank::Domain));
    b.add_rank(Some(&list), Some(Rank::Species));
    b.add_rank(Some(&list), None);
    a.merge(&b);
    assert_eq!(a.total, 5);
    assert_eq!(a.rank_counts[0], 2);
    assert_eq!(a.rank_counts[6], 1);
    assert_eq!(a.no_lca_count, 1);
    assert_eq!(a.unclassified_count, 1);
    let rank_sum: usize = a.rank_counts.iter().sum();
    assert_eq!(rank_sum + a.no_lca_count + a.unclassified_count, a.total);
}

#[test]
fn merge_is_commutative_on_counters() {
    let list = vec!["x".to_string()];
    let build_a = || {
        let mut a = LCASummary::new(31, 1000);
        a.add_rank(Some(&list), Some(Rank::Genus));
        a.add_rank(None, None);
        a
    };
    let build_b = || {
        let mut b = LCASummary::new(31, 1000);
        b.add_rank(Some(&list), Some(Rank::Genus));
        b.add_rank(Some(&list), Some(Rank::Family));
        b.add_rank(Some(&list), None);
        b
    };
    let mut ab = build_a();
    ab.merge(&build_b());
    let mut ba = build_b();
    ba.merge(&build_a());
    assert_eq!(ab.rank_counts, ba.rank_counts);
    assert_eq!(ab.no_lca_count, ba.no_lca_count);
    assert_eq!(ab.unclassified_count, ba.unclassified_count);
    assert_eq!(ab.total, ba.total);
}

#[test]
fn rows_come_in_canonical_order() {
    let mut s = LCASummary::new(31, 1000);
    let list = vec!["x".to_string()];
    s.add_rank(Some(&list), Some(Rank::Species));
    s.add_rank(Some(&list), Some(Rank::Domain));
    s.add_rank(Some(&list), Some(Rank::Domain));
    s.add_rank(Some(&list), None);
    s.add_rank(None, None);
    let rows = s.to_rows();
    let labels: Vec<&str> = rows.iter().map(|r| r.label.as_str()).collect();
    let counts: Vec<usize> = rows.iter().map(|r| r.count).collect();
    assert_eq!(labels, vec!["domain", "species", "no_lca", "unclassified"]);
    assert_eq!(counts, vec![2, 1, 1, 1]);
}

#[test]
fn rows_skip_empty_buckets() {
    let mut s = LCASummary::new(31, 1000);
    let list = vec!["x".to_string()];
    s.add_rank(Some(&list), Some(Rank::Class));
    let rows = s.to_rows();
    assert_eq!(rows.len(), 1);
    assert_eq!(rows[0].label, "class");
    assert_eq!(rows[0].count, 1);
}
