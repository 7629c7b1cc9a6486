//! Per-source classification counters: how many records reached each
//! canonical rank, how many had taxonomy but no common ancestor, and how many
//! had no taxonomy at all. The counters always add up to the total.

use vstd::prelude::*;

use crate::lca::Rank;

verus! {

/// Sum of the first `k` elements of `s`.
pub open spec fn sum_first(s: Seq<usize>, k: int) -> int
    decreases k,
{
    if k <= 0 {
        0
    } else {
        sum_first(s, k - 1) + s[k - 1]
    }
}

/// Sum of all elements of `s`.
pub open spec fn seq_total(s: Seq<usize>) -> int {
    sum_first(s, s.len() as int)
}

/// Partial sums are non-negative.
pub proof fn lemma_sum_first_nonneg(s: Seq<usize>, k: int)
    requires
        k <= s.len(),
    ensures
        sum_first(s, k) >= 0,
    decreases k,
{
    if k > 0 {
        lemma_sum_first_nonneg(s, k - 1);
    }
}

/// Every element is bounded by any partial sum that covers it.
pub proof fn lemma_sum_first_element_bound(s: Seq<usize>, i: int, k: int)
    requires
        0 <= i < k <= s.len(),
    ensures
        s[i] <= sum_first(s, k),
    decreases k,
{
    if i == k - 1 {
        lemma_sum_first_nonneg(s, k - 1);
    } else {
        lemma_sum_first_element_bound(s, i, k - 1);
    }
}

/// Updating one element shifts a covering partial sum by the difference.
pub proof fn lemma_sum_first_update(s: Seq<usize>, i: int, v: usize, k: int)
    requires
        0 <= i < s.len(),
        k <= s.len(),
    ensures
        sum_first(s.update(i, v), k) == sum_first(s, k) + (if i < k {
            v - s[i]
        } else {
            0
        }),
    decreases k,
{
    if k > 0 {
        lemma_sum_first_update(s, i, v, k - 1);
    }
}

/// A sum over all-zero elements is zero.
pub proof fn lemma_sum_all_zero(s: Seq<usize>, k: int)
    requires
        k <= s.len(),
        forall|t: int| 0 <= t < k ==> s[t] == 0usize,
    ensures
        sum_first(s, k) == 0,
    decreases k,
{
    if k > 0 {
        lemma_sum_all_zero(s, k - 1);
    }
}

/// Summing pointwise sums adds the two sums.
proof fn lemma_sum_pointwise_add(a: Seq<usize>, b: Seq<usize>, k: int)
    requires
        k <= 7,
        a.len() == 7,
        b.len() == 7,
        forall|t: int| 0 <= t < 7 ==> a[t] + b[t] <= usize::MAX,
    ensures
        sum_first(Seq::new(7, |i: int| (a[i] + b[i]) as usize), k) == sum_first(a, k) + sum_first(
            b,
            k,
        ),
    decreases k,
{
    if k > 0 {
        lemma_sum_pointwise_add(a, b, k - 1);
    }
}

/// How one record is counted in a summary.
#[derive(Clone, Copy, Debug, PartialEq, Eq, Structural)]
pub enum Classification {
    /// No taxonomy was resolved for the record at all.
    Unclassified,
    /// Taxonomy was resolved, but the lineages share no leading rank value.
    NoAncestor,
    /// The LCA reached this rank.
    Ranked(Rank),
}

/// The classification of a record from its resolved taxonomy list and the
/// rank its LCA reached: no taxonomy (or an empty list) is unclassified, a
/// non-empty list without a rank found no common ancestor, and otherwise the
/// reached rank is counted.
pub open spec fn spec_classify(
    taxonomy_list: Option<Seq<Seq<char>>>,
    lca_rank: Option<Rank>,
) -> Classification {
    match taxonomy_list {
        None => Classification::Unclassified,
        Some(l) => if l.len() == 0 {
            Classification::Unclassified
        } else {
            match lca_rank {
                Some(r) => Classification::Ranked(r),
                None => Classification::NoAncestor,
            }
        },
    }
}

/// The mathematical content of a summary: its counters and the structural
/// parameters of the source they were counted for.
#[verifier::ext_equal]
pub struct SummaryModel {
    /// One counter per canonical rank, indexed by the rank's position.
    pub rank_counts: Seq<usize>,
    /// Records whose taxonomy list was non-empty but shared no prefix.
    pub no_lca_count: usize,
    /// Records with no resolved taxonomy at all.
    pub unclassified_count: usize,
    /// All records counted.
    pub total: usize,
    /// The k-mer size of the source index.
    pub ksize: u32,
    /// The scale factor of the source index.
    pub scaled: u32,
}

impl SummaryModel {
    /// One counter per canonical rank, and the counters add up to the total.
    pub open spec fn wf(self) -> bool {
        self.rank_counts.len() == 7 && seq_total(self.rank_counts) + self.no_lca_count
            + self.unclassified_count == self.total
    }

    /// `self` with one record counted under classification `c`.
    pub open spec fn add_classified(self, c: Classification) -> SummaryModel {
        match c {
            Classification::Unclassified => (SummaryModel {
                unclassified_count: (self.unclassified_count + 1) as usize,
                total: (self.total + 1) as usize,
                ..self
            }),
            Classification::NoAncestor => (SummaryModel {
                no_lca_count: (self.no_lca_count + 1) as usize,
                total: (self.total + 1) as usize,
                ..self
            }),
            Classification::Ranked(r) => (SummaryModel {
                rank_counts: self.rank_counts.update(
                    r.spec_position(),
                    (self.rank_counts[r.spec_position()] + 1) as usize,
                ),
                total: (self.total + 1) as usize,
                ..self
            }),
        }
    }

    /// `self` with every counter of `other` added in; the structural
    /// parameters stay `self`'s.
    pub open spec fn merged_with(self, other: SummaryModel) -> SummaryModel {
        SummaryModel {
            rank_counts: Seq::new(
                7,
                |i: int| (self.rank_counts[i] + other.rank_counts[i]) as usize,
            ),
            no_lca_count: (self.no_lca_count + other.no_lca_count) as usize,
            unclassified_count: (self.unclassified_count + other.unclassified_count) as usize,
            total: (self.total + other.total) as usize,
            ..self
        }
    }
}

/// Classification counters for one scanned source, keyed by the source's
/// structural parameters.
#[derive(Debug)]
pub struct LCASummary {
    /// One counter per canonical rank, indexed by the rank's position.
    pub rank_counts: Vec<usize>,
    /// Records whose taxonomy list was non-empty but shared no prefix.
    pub no_lca_count: usize,
    /// Records with no resolved taxonomy at all.
    pub unclassified_count: usize,
    /// All records counted into this summary.
    pub total: usize,
    /// The k-mer size of the source index.
    pub ksize: u32,
    /// The scale factor of the source index.
    pub scaled: u32,
}

impl View for LCASummary {
    type V = SummaryModel;

    open spec fn view(&self) -> SummaryModel {
        SummaryModel {
            rank_counts: self.rank_counts@,
            no_lca_count: self.no_lca_count,
            unclassified_count: self.unclassified_count,
            total: self.total,
            ksize: self.ksize,
            scaled: self.scaled,
        }
    }
}

impl LCASummary {
    /// One counter per canonical rank, and the counters add up to the total.
    pub open spec fn wf(self) -> bool {
        self@.wf()
    }

    /// A fresh summary for a source with the given structural parameters,
    /// with every counter zero.
    pub fn new(ksize: u32, scaled: u32) -> (r: Self)
        ensures
            r.wf(),
            r@.rank_counts == Seq::new(7, |i: int| 0usize),
            r@.no_lca_count == 0,
            r@.unclassified_count == 0,
            r@.total == 0,
            r@.ksize == ksize,
            r@.scaled == scaled,
    {
        let mut rank_counts: Vec<usize> = Vec::new();
        let mut i: usize = 0;
        while i < 7
            invariant
            i <= 7,
            rank_counts@.len() == i,
            forall|t: int| 0 <= t < i ==> rank_counts@[t] == 0usize,
            decreases 7 - i,
        {
            rank_counts.push(0);
            i += 1;
        }
        proof {
            assert(rank_counts@ =~= Seq::new(7, |i: int| 0usize));
            lemma_sum_all_zero(rank_counts@, 7);
        }
        LCASummary { rank_counts, no_lca_count: 0, unclassified_count: 0, total: 0, ksize, scaled }
    }

    /// Counts one record: an absent or empty taxonomy list is unclassified, a
    /// non-empty list without a rank is a missing common ancestor, and
    /// otherwise the reached rank's counter grows.
    pub fn add_rank(&mut self, taxonomy_list: Option<&Vec<String>>, lca_rank: Option<Rank>)
        requires
            old(self).wf(),
            old(self).total < usize::MAX,
        ensures
            final(self).wf(),
            final(self)@ == old(self)@.add_classified(
                spec_classify(taxonomy_list.deep_view(), lca_rank),
            ),
    {
        proof {
            lemma_sum_first_nonneg(self.rank_counts@, 7);
        }
        self.total = self.total + 1;
        match taxonomy_list {
            Some(list) => {
                if list.len() == 0 {
                    self.unclassified_count = self.unclassified_count + 1;
                } else {
                    match lca_rank {
                        Some(r) => {
                            let pos = r.position();
                            proof {
                                lemma_sum_first_element_bound(self.rank_counts@, pos as int, 7);
                            }
                            let c = self.rank_counts[pos];
                            self.rank_counts[pos] = c + 1;
                            proof {
                                lemma_sum_first_update(
                                    old(self).rank_counts@,
                                    pos as int,
                                    (c + 1) as usize,
                                    7,
                                );
                            }
                        },
                        None => {
                            self.no_lca_count = self.no_lca_count + 1;
                        },
                    }
                }
            },
            None => {
                self.unclassified_count = self.unclassified_count + 1;
            },
        }
    }

    /// Adds every counter of `other` into `self`; the structural parameters
    /// stay `self`'s.
    pub fn merge(&mut self, other: &LCASummary)
        requires
            old(self).wf(),
            other.wf(),
            old(self).total + other.total <= usize::MAX,
        ensures
            final(self).wf(),
            final(self)@ == old(self)@.merged_with(other@),
    {
        let mut i: usize = 0;
        while i < 7
            invariant
                i <= 7,
                other.wf(),
                self.rank_counts@.len() == 7,
                self.no_lca_count == old(self).no_lca_count,
                self.unclassified_count == old(self).unclassified_count,
                self.total == old(self).total,
                self.ksize == old(self).ksize,
                self.scaled == old(self).scaled,
                other.rank_counts@.len() == 7,
                old(self).wf(),
                old(self).total + other.total <= usize::MAX,
                forall|t: int| 0 <= t < i ==> self.rank_counts@[t] == old(self).rank_counts@[t]
                    + other.rank_counts@[t],
                forall|t: int| i <= t < 7 ==> self.rank_counts@[t] == old(self).rank_counts@[t],
            decreases 7 - i,
        {
            proof {
                lemma_sum_first_element_bound(old(self).rank_counts@, i as int, 7);
                lemma_sum_first_element_bound(other.rank_counts@, i as int, 7);
                lemma_sum_first_nonneg(old(self).rank_counts@, 7);
                lemma_sum_first_nonneg(other.rank_counts@, 7);
                lemma_sum_counters_bound(old(self)@);
                lemma_sum_counters_bound(other@);
            }
            let a = self.rank_counts[i];
            let b = other.rank_counts[i];
            self.rank_counts[i] = a + b;
            i += 1;
        }
        proof {
            lemma_sum_counters_bound(old(self)@);
            lemma_sum_counters_bound(other@);
        }
        self.no_lca_count = self.no_lca_count + other.no_lca_count;
        self.unclassified_count = self.unclassified_count + other.unclassified_count;
        self.total = self.total + other.total;
        proof {
            assert forall|t: int| 0 <= t < 7 implies old(self).rank_counts@[t]
                + other.rank_counts@[t] <= usize::MAX by {
                assert(self.rank_counts@[t] == old(self).rank_counts@[t]
                    + other.rank_counts@[t]);
            }
            assert(self.rank_counts@ =~= old(self)@.merged_with(other@).rank_counts);
            lemma_sum_pointwise_add(old(self).rank_counts@, other.rank_counts@, 7);
        }
    }
}

/// One row of a rendered summary: a bucket label ("domain" through
/// "species", "no_lca" or "unclassified") and its count.
#[derive(Debug)]
pub struct SummaryRow {
    /// The bucket's label.
    pub label: String,
    /// How many records fell into the bucket.
    pub count: usize,
}

/// The canonical rank name at position `i`.
pub open spec fn spec_rank_name_at(i: int) -> Seq<char> {
    Rank::spec_of_position(i)->Some_0.spec_name()
}

/// The rows for the rank counters from position `i` on, in canonical order,
/// skipping zero counters.
pub open spec fn spec_rank_rows(counts: Seq<usize>, i: int) -> Seq<(Seq<char>, usize)>
    decreases 7 - i,
{
    if i < 0 || i >= 7 {
        Seq::<(Seq<char>, usize)>::empty()
    } else {
        let rest = spec_rank_rows(counts, i + 1);
        if counts[i] > 0 {
            seq![(spec_rank_name_at(i), counts[i])] + rest
        } else {
            rest
        }
    }
}

/// The rows a summary renders to: rank counts in canonical rank order, then
/// the no-ancestor bucket, then the unclassified bucket, each only when
/// non-zero.
pub open spec fn spec_summary_rows(m: SummaryModel) -> Seq<(Seq<char>, usize)> {
    spec_rank_rows(m.rank_counts, 0) + (if m.no_lca_count > 0 {
        seq![("no_lca"@, m.no_lca_count)]
    } else {
        Seq::<(Seq<char>, usize)>::empty()
    }) + (if m.unclassified_count > 0 {
        seq![("unclassified"@, m.unclassified_count)]
    } else {
        Seq::<(Seq<char>, usize)>::empty()
    })
}

/// The labels and counts of a sequence of rendered rows.
pub open spec fn spec_rows_model(rows: Seq<SummaryRow>) -> Seq<(Seq<char>, usize)> {
    rows.map_values(|r: SummaryRow| (r.label@, r.count))
}

impl LCASummary {
    /// Renders the summary's buckets as rows: each non-zero rank counter in
    /// canonical rank order, then the no-ancestor bucket, then the
    /// unclassified bucket, each with its label and count.
    pub fn to_rows(&self) -> (rows: Vec<SummaryRow>)
        requires
            self.wf(),
        ensures
            spec_rows_model(rows@) == spec_summary_rows(self@),
    {
        let mut rows: Vec<SummaryRow> = Vec::new();
        let mut i: usize = 0;
        while i < 7
            invariant
                i <= 7,
                self.wf(),
                self.rank_counts@.len() == 7,
                spec_rank_rows(self@.rank_counts, 0) == spec_rows_model(rows@) + spec_rank_rows(
                    self@.rank_counts,
                    i as int,
                ),
            decreases 7 - i,
        {
            let ghost pre = spec_rows_model(rows@);
            let count = self.rank_counts[i];
            if count > 0 {
                let rank = match Rank::of_position(i) {
                    Some(r) => r,
                    None => {
                        proof {
                            assert(false);
                        }
                        Rank::Domain
                    },
                };
                rows.push(SummaryRow { label: rank.name().to_owned(), count });
                proof {
                    assert(spec_rows_model(rows@) =~~= pre + seq![
                        (spec_rank_name_at(i as int), count),
                    ]);
                    assert(pre + (seq![(spec_rank_name_at(i as int), count)] + spec_rank_rows(
                        self@.rank_counts,
                        i + 1,
                    )) =~~= (pre + seq![(spec_rank_name_at(i as int), count)]) + spec_rank_rows(
                        self@.rank_counts,
                        i + 1,
                    ));
                }
            }
            i += 1;
        }
        proof {
            assert(spec_rank_rows(self@.rank_counts, 7) =~~= Seq::<(Seq<char>, usize)>::empty());
            assert(spec_rows_model(rows@) + Seq::<(Seq<char>, usize)>::empty() =~~= spec_rows_model(
                rows@,
            ));
        }
        if self.no_lca_count > 0 {
            let ghost pre = spec_rows_model(rows@);
            rows.push(SummaryRow { label: "no_lca".to_owned(), count: self.no_lca_count });
            proof {
                reveal_strlit("no_lca");
                assert(spec_rows_model(rows@) =~~= pre + seq![("no_lca"@, self.no_lca_count)]);
            }
        }
        if self.unclassified_count > 0 {
            let ghost pre = spec_rows_model(rows@);
            rows.push(
                SummaryRow {
                    label: "unclassified".to_owned(),
                    count: self.unclassified_count,
                },
            );
            proof {
                reveal_strlit("unclassified");
                assert(spec_rows_model(rows@) =~~= pre + seq![
                    ("unclassified"@, self.unclassified_count),
                ]);
            }
        }
        proof {
            assert(spec_rows_model(rows@) =~~= spec_summary_rows(self@));
        }
        rows
    }
}

/// In a well-formed summary, each of the three counter groups is bounded by
/// the total.
pub proof fn lemma_sum_counters_bound(s: SummaryModel)
    requires
        s.wf(),
    ensures
        seq_total(s.rank_counts) <= s.total,
        s.no_lca_count <= s.total,
        s.unclassified_count <= s.total,
{
    lemma_sum_first_nonneg(s.rank_counts, 7);
}

/// Merging is commutative on every counter: merging `b` into `a` and merging
/// `a` into `b` yield the same rank counts, no-ancestor count, unclassified
/// count and total.
pub proof fn lemma_merge_commutes(a: SummaryModel, b: SummaryModel)
    requires
        a.wf(),
        b.wf(),
    ensures
        a.merged_with(b).rank_counts == b.merged_with(a).rank_counts,
        a.merged_with(b).no_lca_count == b.merged_with(a).no_lca_count,
        a.merged_with(b).unclassified_count == b.merged_with(a).unclassified_count,
        a.merged_with(b).total == b.merged_with(a).total,
{
    assert(a.merged_with(b).rank_counts =~= b.merged_with(a).rank_counts);
}

} // verus!
