//! Aggregation of per-source summaries: summaries are grouped by the
//! source's structural parameters (k-mer size, scale factor), groups are
//! ordered by that key, and any group holding more than one source gets a
//! combined summary, the counter-wise sum of its members.

use vstd::prelude::*;

use crate::summary::{lemma_sum_counters_bound, LCASummary, SummaryModel};

verus! {

/// One source's label and its accumulated summary.
#[derive(Debug)]
pub struct SourceSummary {
    /// The label of the source index.
    pub source: String,
    /// The counters accumulated while scanning it.
    pub summary: LCASummary,
}

/// All summaries sharing one (k-mer size, scale factor) key, in input order.
#[derive(Debug)]
pub struct SummaryGroup {
    /// The group's k-mer size.
    pub ksize: u32,
    /// The group's scale factor.
    pub scaled: u32,
    /// The members carrying that key, in input order.
    pub members: Vec<SourceSummary>,
}

/// Whether `s` carries the group key (`ksize`, `scaled`).
pub open spec fn has_key(s: SourceSummary, ksize: u32, scaled: u32) -> bool {
    s.summary.ksize == ksize && s.summary.scaled == scaled
}

/// The members of the (`ksize`, `scaled`) group of `all`: the items carrying
/// that key, in order.
pub open spec fn spec_group_members(all: Seq<SourceSummary>, ksize: u32, scaled: u32) -> Seq<
    SourceSummary,
> {
    all.filter(|s: SourceSummary| has_key(s, ksize, scaled))
}

/// Strict ordering of group keys: by k-mer size, then by scale factor.
pub open spec fn key_lt(ka: u32, sa: u32, kb: u32, sb: u32) -> bool {
    ka < kb || (ka == kb && sa < sb)
}

/// The groups are strictly ordered by key.
pub open spec fn groups_sorted(groups: Seq<SummaryGroup>) -> bool {
    forall|a: int, b: int|
        0 <= a < b < groups.len() ==> key_lt(
            (#[trigger] groups[a]).ksize,
            groups[a].scaled,
            (#[trigger] groups[b]).ksize,
            groups[b].scaled,
        )
}

/// Every group holds exactly the input items carrying its key.
pub open spec fn groups_complete(all: Seq<SourceSummary>, groups: Seq<SummaryGroup>) -> bool {
    &&& forall|j: int|
        0 <= j < groups.len() ==> (#[trigger] groups[j]).members@ == spec_group_members(
            all,
            groups[j].ksize,
            groups[j].scaled,
        )
    &&& forall|i: int|
        0 <= i < all.len() ==> exists|j: int|
            0 <= j < groups.len() && has_key(
                #[trigger] all[i],
                (#[trigger] groups[j]).ksize,
                groups[j].scaled,
            )
}

/// Groups `all` by (k-mer size, scale factor): the result is ordered by
/// key, every input item stands in the group of its key, and each group
/// keeps its members in input order.
pub fn group_summaries(all: Vec<SourceSummary>) -> (groups: Vec<SummaryGroup>)
    ensures
        groups_sorted(groups@),
        groups_complete(all@, groups@),
        forall|j: int| 0 <= j < groups@.len() ==> (#[trigger] groups@[j]).members@.len() >= 1,
{
    let ghost orig = all@;
    let mut rest = all;
    let mut groups: Vec<SummaryGroup> = Vec::new();
    let mut i: usize = 0;
    proof {
        assert(orig.take(0) =~= Seq::<SourceSummary>::empty());
        assert(orig.skip(0) =~= orig);
        vstd::std_specs::vec::axiom_spec_len(&rest);
    }
    while rest.len() > 0
        invariant
            i <= orig.len() <= usize::MAX,
            rest@ == orig.skip(i as int),
            groups_sorted(groups@),
            groups_complete(orig.take(i as int), groups@),
            forall|j: int| 0 <= j < groups@.len() ==> (#[trigger] groups@[j]).members@.len() >= 1,
        decreases rest@.len(),
    {
        let item = rest.remove(0);
        proof {
            assert(orig.skip(i as int)[0] == orig[i as int]);
            assert(orig.skip(i as int).skip(1) =~= orig.skip(i + 1));
            assert(rest@ =~= orig.skip(i + 1));
        }
        let ghost prev = orig.take(i as int);
        let ghost prev_groups = groups@;
        let k = item.summary.ksize;
        let sc = item.summary.scaled;
        proof {
            assert(orig.take(i + 1).drop_last() =~= prev);
            assert(orig.take(i + 1) =~= prev + seq![orig[i as int]]);
            assert(item == orig[i as int]);
        }
        let mut gi: usize = 0;
        while gi < groups.len() && !(groups[gi].ksize == k && groups[gi].scaled == sc)
            invariant
                gi <= groups@.len(),
                groups@ == prev_groups,
                forall|t: int| 0 <= t < gi ==> !((#[trigger] groups@[t]).ksize == k
                    && groups@[t].scaled == sc),
            decreases groups@.len() - gi,
        {
            gi += 1;
        }
        let found = gi < groups.len();
        if found {
            proof {
                assert(groups@[gi as int].ksize == k && groups@[gi as int].scaled == sc);
            }
            groups[gi].members.push(item);
            proof {
                lemma_filter_push(prev, orig[i as int], k, sc);
                assert(groups@[gi as int].members@ =~= spec_group_members(orig.take(i + 1), k, sc));
                assert forall|j: int|
                    0 <= j < groups@.len() implies (#[trigger] groups@[j]).members@
                    == spec_group_members(orig.take(i + 1), groups@[j].ksize, groups@[j].scaled) by {
                    if j != gi {
                        assert(groups@[j] == prev_groups[j]);
                        lemma_filter_push(prev, orig[i as int], groups@[j].ksize, groups@[j].scaled);
                        assert(!has_key(orig[i as int], groups@[j].ksize, groups@[j].scaled)) by {
                            if has_key(orig[i as int], groups@[j].ksize, groups@[j].scaled) {
                                assert(groups@[j].ksize == k && groups@[j].scaled == sc);
                                lemma_sorted_distinct_keys(groups@, gi as int, j);
                            }
                        }
                    }
                }
                assert(groups_complete(orig.take(i + 1), groups@)) by {
                    assert forall|t: int| 0 <= t < orig.take(i + 1).len() implies exists|j: int|
                        0 <= j < groups@.len() && has_key(
                            #[trigger] orig.take(i + 1)[t],
                            (#[trigger] groups@[j]).ksize,
                            groups@[j].scaled,
                        ) by {
                        if t < i {
                            assert(orig.take(i + 1)[t] == prev[t]);
                            let j0 = choose|j: int|
                                0 <= j < prev_groups.len() && has_key(
                                    prev[t],
                                    (#[trigger] prev_groups[j]).ksize,
                                    prev_groups[j].scaled,
                                );
                            assert(groups@[j0].ksize == prev_groups[j0].ksize);
                            assert(has_key(orig.take(i + 1)[t], groups@[j0].ksize, groups@[j0].scaled));
                        } else {
                            assert(orig.take(i + 1)[t] == orig[i as int]);
                            assert(has_key(orig[i as int], groups@[gi as int].ksize, groups@[gi as int].scaled));
                        }
                    }
                }
            }
        } else {
            let mut pos: usize = 0;
            while pos < groups.len() && (groups[pos].ksize < k || (groups[pos].ksize == k
                && groups[pos].scaled < sc))
                invariant
                    pos <= groups@.len(),
                    groups@ == prev_groups,
                    forall|t: int| 0 <= t < pos ==> key_lt(
                        (#[trigger] groups@[t]).ksize,
                        groups@[t].scaled,
                        k,
                        sc,
                    ),
                decreases groups@.len() - pos,
            {
                pos += 1;
            }
            proof {
                if pos < groups@.len() {
                    assert(!key_lt(groups@[pos as int].ksize, groups@[pos as int].scaled, k, sc));
                    assert(!(groups@[pos as int].ksize == k && groups@[pos as int].scaled == sc));
                    assert(key_lt(k, sc, groups@[pos as int].ksize, groups@[pos as int].scaled));
                }
            }
            let mut members: Vec<SourceSummary> = Vec::new();
            members.push(item);
            let group = SummaryGroup { ksize: k, scaled: sc, members };
            groups.insert(pos, group);
            proof {
                lemma_filter_push(prev, orig[i as int], k, sc);
                assert forall|t: int| 0 <= t < prev.len() implies !has_key(
                    #[trigger] prev[t],
                    k,
                    sc,
                ) by {
                    if has_key(prev[t], k, sc) {
                        let j0 = choose|j: int|
                            0 <= j < prev_groups.len() && has_key(
                                prev[t],
                                (#[trigger] prev_groups[j]).ksize,
                                prev_groups[j].scaled,
                            );
                        assert(prev_groups[j0].ksize == k && prev_groups[j0].scaled == sc);
                    }
                }
                lemma_filter_none(prev, k, sc);
                assert(groups@[pos as int].members@ =~= spec_group_members(orig.take(i + 1), k, sc));
                assert(groups_sorted(groups@)) by {
                    assert forall|a: int, b: int| 0 <= a < b < groups@.len() implies key_lt(
                        (#[trigger] groups@[a]).ksize,
                        groups@[a].scaled,
                        (#[trigger] groups@[b]).ksize,
                        groups@[b].scaled,
                    ) by {
                        if a < pos && b == pos {
                            assert(groups@[a] == prev_groups[a]);
                        } else if a == pos && b > pos {
                            assert(groups@[b] == prev_groups[b - 1]);
                            assert(!key_lt(prev_groups[b - 1].ksize, prev_groups[b - 1].scaled, k, sc));
                            assert(!(prev_groups[b - 1].ksize == k && prev_groups[b - 1].scaled
                                == sc)) by {
                                if prev_groups[b - 1].ksize == k && prev_groups[b - 1].scaled == sc {
                                    assert(b - 1 >= pos);
                                    if b - 1 > pos - 1 {
                                        assert(forall|t: int| 0 <= t < prev_groups.len() ==> !((
                                        #[trigger] prev_groups[t]).ksize == k && prev_groups[t].scaled
                                            == sc));
                                    }
                                }
                            }
                        } else if a < pos && b > pos {
                            assert(groups@[a] == prev_groups[a]);
                            assert(groups@[b] == prev_groups[b - 1]);
                        } else if a > pos && b > pos {
                            assert(groups@[a] == prev_groups[a - 1]);
                            assert(groups@[b] == prev_groups[b - 1]);
                        }
                    }
                }
                assert forall|j: int|
                    0 <= j < groups@.len() implies (#[trigger] groups@[j]).members@
                    == spec_group_members(orig.take(i + 1), groups@[j].ksize, groups@[j].scaled) by {
                    if j != pos {
                        let j0 = if j < pos { j } else { j - 1 };
                        assert(groups@[j] == prev_groups[j0]);
                        lemma_filter_push(prev, orig[i as int], groups@[j].ksize, groups@[j].scaled);
                        assert(!has_key(orig[i as int], groups@[j].ksize, groups@[j].scaled)) by {
                            if has_key(orig[i as int], groups@[j].ksize, groups@[j].scaled) {
                                assert(forall|t: int| 0 <= t < prev_groups.len() ==> !((
                                #[trigger] prev_groups[t]).ksize == k && prev_groups[t].scaled == sc));
                            }
                        }
                    }
                }
                assert(groups_complete(orig.take(i + 1), groups@)) by {
                    assert forall|t: int| 0 <= t < orig.take(i + 1).len() implies exists|j: int|
                        0 <= j < groups@.len() && has_key(
                            #[trigger] orig.take(i + 1)[t],
                            (#[trigger] groups@[j]).ksize,
                            groups@[j].scaled,
                        ) by {
                        if t < i {
                            assert(orig.take(i + 1)[t] == prev[t]);
                            let j0 = choose|j: int|
                                0 <= j < prev_groups.len() && has_key(
                                    prev[t],
                                    (#[trigger] prev_groups[j]).ksize,
                                    prev_groups[j].scaled,
                                );
                            let j1 = if j0 < pos { j0 } else { j0 + 1 };
                            assert(groups@[j1] == prev_groups[j0]);
                            assert(has_key(orig.take(i + 1)[t], groups@[j1].ksize, groups@[j1].scaled));
                        } else {
                            assert(orig.take(i + 1)[t] == orig[i as int]);
                            assert(has_key(orig[i as int], groups@[pos as int].ksize, groups@[pos as int].scaled));
                        }
                    }
                }
            }
        }
        proof {
            assert(i < orig.len());
        }
        i += 1;
    }
    proof {
        assert(orig.skip(i as int).len() == 0);
        assert(i == orig.len());
        assert(orig.take(i as int) =~= orig);
    }
    groups
}

/// In a strictly ordered group list, two groups with the same key are the
/// same group.
proof fn lemma_sorted_distinct_keys(groups: Seq<SummaryGroup>, a: int, b: int)
    requires
        groups_sorted(groups),
        0 <= a < groups.len(),
        0 <= b < groups.len(),
        groups[a].ksize == groups[b].ksize,
        groups[a].scaled == groups[b].scaled,
    ensures
        a == b,
{
    if a < b {
        assert(key_lt(groups[a].ksize, groups[a].scaled, groups[b].ksize, groups[b].scaled));
    } else if b < a {
        assert(key_lt(groups[b].ksize, groups[b].scaled, groups[a].ksize, groups[a].scaled));
    }
}

/// When no element carries the key, the group's member filter is empty.
proof fn lemma_filter_none(s: Seq<SourceSummary>, ksize: u32, scaled: u32)
    requires
        forall|t: int| 0 <= t < s.len() ==> !has_key(#[trigger] s[t], ksize, scaled),
    ensures
        spec_group_members(s, ksize, scaled) == Seq::<SourceSummary>::empty(),
    decreases s.len(),
{
    reveal(Seq::filter);
    if s.len() > 0 {
        assert(forall|t: int|
            0 <= t < s.drop_last().len() ==> !has_key(#[trigger] s.drop_last()[t], ksize, scaled));
        lemma_filter_none(s.drop_last(), ksize, scaled);
        assert(!has_key(s.last(), ksize, scaled));
    }
}

/// Filtering after appending one item appends the item exactly when it
/// satisfies the key.
proof fn lemma_filter_push(s: Seq<SourceSummary>, x: SourceSummary, ksize: u32, scaled: u32)
    ensures
        has_key(x, ksize, scaled) ==> spec_group_members(s + seq![x], ksize, scaled)
            == spec_group_members(s, ksize, scaled).push(x),
        !has_key(x, ksize, scaled) ==> spec_group_members(s + seq![x], ksize, scaled)
            == spec_group_members(s, ksize, scaled),
{
    let pred = |t: SourceSummary| has_key(t, ksize, scaled);
    broadcast use vstd::seq_lib::group_filter_ensures;

    Seq::<SourceSummary>::filter_distributes_over_add(s, seq![x], pred);
    reveal_with_fuel(Seq::filter, 2);
    if pred(x) {
        assert(seq![x].filter(pred) =~= seq![x]);
        assert(spec_group_members(s, ksize, scaled) + seq![x] =~= spec_group_members(
            s,
            ksize,
            scaled,
        ).push(x));
    } else {
        assert(seq![x].filter(pred) =~= Seq::<SourceSummary>::empty());
        assert(spec_group_members(s, ksize, scaled) + Seq::<SourceSummary>::empty()
            =~= spec_group_members(s, ksize, scaled));
    }
}

/// The summed total of the members' summaries.
pub open spec fn spec_totals(members: Seq<SourceSummary>) -> int
    decreases members.len(),
{
    if members.len() == 0 {
        0
    } else {
        spec_totals(members.drop_last()) + members.last().summary@.total
    }
}

/// The counter-wise combination of the members' summaries, keyed
/// (`ksize`, `scaled`).
pub open spec fn spec_combined(members: Seq<SourceSummary>, ksize: u32, scaled: u32) -> SummaryModel
    decreases members.len(),
{
    if members.len() == 0 {
        SummaryModel {
            rank_counts: Seq::new(7, |i: int| 0usize),
            no_lca_count: 0,
            unclassified_count: 0,
            total: 0,
            ksize,
            scaled,
        }
    } else {
        spec_combined(members.drop_last(), ksize, scaled).merged_with(members.last().summary@)
    }
}

/// Prefix totals never exceed the whole total when summaries are
/// well-formed.
proof fn lemma_totals_prefix_bound(members: Seq<SourceSummary>, k: int)
    requires
        0 <= k <= members.len(),
        forall|t: int| 0 <= t < members.len() ==> (#[trigger] members[t]).summary.wf(),
    ensures
        0 <= spec_totals(members.take(k)) <= spec_totals(members.take(members.len() as int)),
    decreases members.len() - k,
{
    if k == members.len() {
        lemma_totals_nonneg(members.take(k));
    } else {
        lemma_totals_prefix_bound(members, k + 1);
        assert(members.take(k + 1).drop_last() =~= members.take(k));
        assert(members.take(k + 1).last() == members[k]);
        lemma_totals_nonneg(members.take(k));
    }
}

/// Totals of well-formed summaries are non-negative.
proof fn lemma_totals_nonneg(members: Seq<SourceSummary>)
    ensures
        spec_totals(members) >= 0,
    decreases members.len(),
{
    if members.len() > 0 {
        lemma_totals_nonneg(members.drop_last());
    }
}

impl SummaryGroup {
    /// Every member's summary is well-formed and carries the group's key.
    pub open spec fn wf(self) -> bool {
        forall|t: int| 0 <= t < self.members@.len() ==> (#[trigger] self.members@[t]).summary.wf()
    }

    /// The combined summary of a group of several sources: the counter-wise
    /// sum of all members, labeled with the group's key. A group of at most
    /// one source gets none, as its one member's summary already stands.
    pub fn combined_summary(&self) -> (r: Option<LCASummary>)
        requires
            self.wf(),
            spec_totals(self.members@) <= usize::MAX,
        ensures
            self.members@.len() <= 1 ==> r is None,
            self.members@.len() > 1 ==> (r matches Some(s) && s.wf() && s@ == spec_combined(
                self.members@,
                self.ksize,
                self.scaled,
            )),
    {
        if self.members.len() <= 1 {
            return None;
        }
        let mut combined = LCASummary::new(self.ksize, self.scaled);
        let mut i: usize = 0;
        proof {
            assert(self.members@.take(0) =~= Seq::<SourceSummary>::empty());
            assert(combined@.rank_counts =~= spec_combined(
                self.members@.take(0),
                self.ksize,
                self.scaled,
            ).rank_counts);
            assert(combined@ =~= spec_combined(self.members@.take(0), self.ksize, self.scaled));
        }
        while i < self.members.len()
            invariant
                i <= self.members@.len(),
                self.wf(),
                spec_totals(self.members@) <= usize::MAX,
                combined.wf(),
                combined@ == spec_combined(self.members@.take(i as int), self.ksize, self.scaled),
                combined@.total == spec_totals(self.members@.take(i as int)),
            decreases self.members@.len() - i,
        {
            proof {
                assert(self.members@.take(i + 1).drop_last() =~= self.members@.take(i as int));
                assert(self.members@.take(i + 1).last() == self.members@[i as int]);
                lemma_totals_prefix_bound(self.members@, i + 1);
                assert(self.members@.take(self.members@.len() as int) =~= self.members@);
                lemma_sum_counters_bound(self.members@[i as int].summary@);
            }
            combined.merge(&self.members[i].summary);
            i += 1;
        }
        proof {
            assert(self.members@.take(self.members@.len() as int) =~= self.members@);
        }
        Some(combined)
    }
}

} // verus!
