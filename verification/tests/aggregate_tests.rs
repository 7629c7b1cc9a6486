use revindex_export::aggregate::{group_summaries, SourceSummary};
use revindex_export::lca::Rank;
use revindex_export::summary::LCASummary;

fn summary_with(ksize: u32, scaled: u32, ranked: usize) -> LCASummary {
    let mut s = LCASummary::new(ksize, scaled);
    let list = vec!["x".to_string()];
    for _ in 0..ranked {
        s.add_rank(Some(&list), Some(Rank::Domain));
    }
    s
}

fn source(label: &str, ksize: u32, scaled: u32, ranked: usize) -> SourceSummary {
    SourceSummary { source: label.to_string(), summary: summary_with(ksize, scaled, ranked) }
}

#[test]
fn same_key_sources_get_one_combined_summary() {
    let all = vec![source("a", 31, 1000, 2), source("b", 31, 1000, 3)];
    let groups = group_summaries(all);
    assert_eq!(groups.len(), 1);
    assert_eq!(groups[0].members.len(), 2);
    assert_eq!(groups[0].members[0].source, "a");
    assert_eq!(groups[0].members[1].source, "b");
    let combined = groups[0].combined_summary().expect("two members combine");
    assert_eq!(combined.ksize, 31);
    assert_eq!(combined.scaled, 1000);
    assert_eq!(combined.total, 5);
    assert_eq!(combined.rank_counts[0], 5);
}

#[test]
fn differing_keys_get_no_combined_summary() {
    let all = vec![source("a", 31, 1000, 2), source("b", 21, 1000, 3)];
    let groups = group_summaries(all);
    assert_eq!(groups.len(), 2);
    assert!(groups[0].combined_summary().is_none());
    assert!(groups[1].combined_summary().is_none());
}

#[test]
fn groups_are_ordered_by_ksize_then_scale() {
    let all = vec![
        source("c", 51, 1000, 1),
        source("a", 31, 2000, 1),
        source("b", 31, 1000, 1),
        source("d", 31, 2000, 1),
    ];
    let groups = group_summaries(all);
    let keys: Vec<(u32, u32)> = groups.iter().map(|g| (g.ksize, g.scaled)).collect();
    assert_eq!(keys, vec![(31, 1000), (31, 2000), (51, 1000)]);
    // Members keep their input order within the group.
    assert_eq!(groups[1].members[0].source, "a");
    assert_eq!(groups[1].members[1].source, "d");
}

#[test]
fn single_source_group_stands_alone() {
    let all = vec![source("only", 31, 1000, 4)];
    let groups = group_summaries(all);
    assert_eq!(groups.len(), 1);
    assert_eq!(groups[0].members.len(), 1);
    assert!(groups[0].combined_summary().is_none());
}
