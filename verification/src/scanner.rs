//! The per-source scan: each stored entry's 8-byte key is decoded as a
//! little-endian hash, its dataset ids are resolved to display names, the
//! names are joined to taxonomy lineages, the LCA is computed, and the entry
//! is classified into the source's summary and turned into a record for the
//! writer.

use vstd::prelude::*;

use crate::catalog::{spec_out_of_range_count, spec_resolve_names, DatasetCatalog};
use crate::lca::{compute_lca_strs, spec_compute_lca, Rank};
use crate::summary::{spec_classify, Classification, LCASummary};
use crate::taxonomy::{strip_accession_version, TaxonomyTable};
use crate::text::{first_whitespace_token, spec_first_token, spec_split};

verus! {

/// The little-endian 64-bit integer held by 8 key bytes.
pub open spec fn spec_le_u64(b: Seq<u8>) -> int {
    b[0] + b[1] * 0x100 + b[2] * 0x1_0000 + b[3] * 0x100_0000 + b[4] * 0x1_0000_0000 + b[5]
        * 0x100_0000_0000 + b[6] * 0x1_0000_0000_0000 + b[7] * 0x100_0000_0000_0000
}

/// Decodes an 8-byte key as a little-endian 64-bit hash.
pub fn hash_from_key(key: &Vec<u8>) -> (h: u64)
    requires
        key@.len() == 8,
    ensures
        h == spec_le_u64(key@),
{
    (key[0] as u64) + (key[1] as u64) * 0x100 + (key[2] as u64) * 0x1_0000 + (key[3] as u64)
        * 0x100_0000 + (key[4] as u64) * 0x1_0000_0000 + (key[5] as u64) * 0x100_0000_0000 + (
    key[6] as u64) * 0x1_0000_0000_0000 + (key[7] as u64) * 0x100_0000_0000_0000
}

/// One enriched record, as the writer receives it.
#[derive(Debug)]
pub struct EnrichedRecord {
    /// The stored hash value.
    pub hash: u64,
    /// Display names of the datasets containing the hash.
    pub dataset_names: Vec<String>,
    /// Lineages resolved for the dataset names; absent when no taxonomy
    /// table was given.
    pub taxonomy_list: Option<Vec<String>>,
    /// The LCA lineage of `taxonomy_list`; absent without a taxonomy table.
    pub lca_lineage: Option<String>,
    /// The canonical name of the LCA's rank; absent without a taxonomy
    /// table, and absent when no leading rank value is shared.
    pub lca_rank: Option<String>,
    /// The k-mer size of the source index.
    pub ksize: u32,
    /// The scale factor of the source index.
    pub scaled: u32,
    /// The label of the source index.
    pub source: String,
}

/// The lineages that `names` resolve to through the taxonomy mapping `m`:
/// for each name, its first whitespace-delimited token is version-stripped
/// and looked up; names without a token and lookup misses are dropped.
pub open spec fn spec_taxonomy_list(m: Map<Seq<char>, Seq<char>>, names: Seq<Seq<char>>) -> Seq<
    Seq<char>,
>
    decreases names.len(),
{
    if names.len() == 0 {
        Seq::<Seq<char>>::empty()
    } else {
        let rest = spec_taxonomy_list(m, names.drop_last());
        match spec_first_token(names.last()) {
            Some(tok) => {
                let key = spec_split(tok, '.')[0];
                if m.contains_key(key) {
                    rest.push(m[key])
                } else {
                    rest
                }
            },
            None => rest,
        }
    }
}

/// Resolves the lineages for `names` through the taxonomy table: for each
/// name, the portion up to the first whitespace is taken as the accession,
/// version-stripped and looked up; misses are dropped silently.
pub fn taxonomy_list_for_names(table: &TaxonomyTable, names: &Vec<String>) -> (r: Vec<String>)
    requires
        table.wf(),
    ensures
        r.deep_view() == spec_taxonomy_list(table.as_map(), names.deep_view()),
{
    let mut lineages: Vec<String> = Vec::new();
    let mut i: usize = 0;
    proof {
        assert(names.deep_view().take(0) =~~= Seq::<Seq<char>>::empty());
    }
    while i < names.len()
        invariant
            i <= names@.len(),
            names.deep_view().len() == names@.len(),
            table.wf(),
            lineages.deep_view() == spec_taxonomy_list(
                table.as_map(),
                names.deep_view().take(i as int),
            ),
        decreases names@.len() - i,
    {
        proof {
            assert(names.deep_view().take(i + 1).drop_last() =~~= names.deep_view().take(i as int));
            assert(names.deep_view().take(i + 1).last() == names.deep_view()[i as int]);
            assert(names.deep_view()[i as int] == names@[i as int]@);
        }
        let ghost pre = lineages.deep_view();
        match first_whitespace_token(names[i].as_str()) {
            Some(tok) => {
                let accession = strip_accession_version(tok.as_str());
                match table.get(accession.as_str()) {
                    Some(lineage) => {
                        lineages.push(lineage.clone());
                        proof {
                            assert(lineages.deep_view() =~~= pre.push(
                                table.as_map()[spec_split(
                                    spec_first_token(names.deep_view()[i as int])->Some_0,
                                    '.',
                                )[0]],
                            ));
                        }
                    },
                    None => {},
                }
            },
            None => {},
        }
        i += 1;
    }
    proof {
        assert(names.deep_view().take(names@.len() as int) =~~= names.deep_view());
    }
    lineages
}

/// How an entry is classified when a taxonomy table is present and resolves
/// the taxonomy list `tl`, or when no table is present at all.
pub open spec fn spec_entry_classification(taxonomy_present: bool, tl: Seq<Seq<char>>) -> Classification {
    if taxonomy_present {
        spec_classify(Some(tl), spec_compute_lca(tl).1)
    } else {
        spec_classify(None, None)
    }
}

/// Caps an unbounded count at the largest 64-bit value.
pub open spec fn spec_cap_u64(x: int) -> u64 {
    if x > u64::MAX {
        u64::MAX
    } else if x < 0 {
        0u64
    } else {
        x as u64
    }
}

/// The whole-percent progress after `processed` of an estimated `total`
/// entries.
pub open spec fn spec_percent(processed: int, total: int) -> int
    recommends
        total > 0,
{
    processed * 100 / total
}

/// What the scanner decided about one entry's key.
#[derive(Debug)]
pub enum KeyOutcome {
    /// The key is not exactly 8 bytes; the entry is skipped without being
    /// counted.
    Invalid,
    /// The key was accepted and decoded; when a whole-percent progress
    /// boundary was crossed, the percentage to report comes along.
    Accepted { hash: u64, progress: Option<u64> },
}

/// The state of one source's scan: its summary, its progress counters, and
/// the source's fixed parameters.
#[derive(Debug)]
pub struct Scanner {
    /// The classification counters accumulated so far.
    pub summary: LCASummary,
    /// Entries with a valid 8-byte key seen so far.
    pub processed: u64,
    /// The next whole-percent boundary at which progress is reported.
    pub next_percent: u64,
    /// The estimated total number of entries, for progress only; zero turns
    /// progress reporting off.
    pub total_estimate: u64,
    /// The k-mer size of the source index.
    pub ksize: u32,
    /// The scale factor of the source index.
    pub scaled: u32,
    /// The label records of this source carry.
    pub source: String,
}

impl Scanner {
    /// The summary's counters add up.
    pub open spec fn wf(self) -> bool {
        self.summary.wf()
    }

    /// A fresh scan state for one source: empty summary, no entries seen,
    /// the first progress report due at one percent.
    pub fn new(ksize: u32, scaled: u32, source: String, total_estimate: u64) -> (r: Scanner)
        ensures
            r.wf(),
            r.summary@.total == 0,
            r.summary@.ksize == ksize,
            r.summary@.scaled == scaled,
            r.processed == 0,
            r.next_percent == 1,
            r.total_estimate == total_estimate,
            r.ksize == ksize,
            r.scaled == scaled,
            r.source == source,
    {
        Scanner {
            summary: LCASummary::new(ksize, scaled),
            processed: 0,
            next_percent: 1,
            total_estimate,
            ksize,
            scaled,
            source,
        }
    }

    /// Checks one entry's key: a key of any length other than 8 bytes is
    /// rejected and nothing changes. An 8-byte key is decoded as the
    /// little-endian hash, the processed count grows, and when the progress
    /// percentage reaches the next whole-percent boundary it is reported and
    /// the boundary moves past it.
    pub fn accept_key(&mut self, key: &Vec<u8>) -> (r: KeyOutcome)
        requires
            old(self).processed < u64::MAX,
        ensures
            key@.len() != 8 ==> r is Invalid && *final(self) == *old(self),
            key@.len() == 8 ==> {
                let p = spec_percent(old(self).processed + 1, old(self).total_estimate as int);
                let report = old(self).total_estimate > 0 && p >= old(self).next_percent;
                &&& final(self).processed == old(self).processed + 1
                &&& final(self).summary == old(self).summary
                &&& final(self).total_estimate == old(self).total_estimate
                &&& final(self).ksize == old(self).ksize
                &&& final(self).scaled == old(self).scaled
                &&& final(self).source == old(self).source
                &&& r matches KeyOutcome::Accepted { hash, progress } && hash == spec_le_u64(key@)
                    && (if report {
                    progress == Some(spec_cap_u64(p)) && final(self).next_percent == spec_cap_u64(
                        p + 1,
                    )
                } else {
                    progress is None && final(self).next_percent == old(self).next_percent
                })
            },
    {
        if key.len() != 8 {
            return KeyOutcome::Invalid;
        }
        self.processed = self.processed + 1;
        let hash = hash_from_key(key);
        let mut progress: Option<u64> = None;
        if self.total_estimate > 0 {
            let pct_wide = (self.processed as u128) * 100 / (self.total_estimate as u128);
            let pct = if pct_wide > u64::MAX as u128 {
                u64::MAX
            } else {
                pct_wide as u64
            };
            if pct >= self.next_percent {
                progress = Some(pct);
                self.next_percent = if pct == u64::MAX {
                    u64::MAX
                } else {
                    pct + 1
                };
            }
        }
        KeyOutcome::Accepted { hash, progress }
    }

    /// Finishes one accepted entry once its dataset-id set was decoded:
    /// resolves the ids to display names, joins taxonomy when a table is
    /// present, computes the LCA, classifies the entry into the summary, and
    /// returns the record for the writer together with the number of ids
    /// that lay outside the catalog bounds.
    pub fn finish_entry(
        &mut self,
        hash: u64,
        dataset_ids: &Vec<u32>,
        catalog: &DatasetCatalog,
        taxonomy: Option<&TaxonomyTable>,
    ) -> (r: (EnrichedRecord, usize))
        requires
            old(self).wf(),
            old(self).summary@.total < usize::MAX,
            taxonomy matches Some(t) ==> t.wf(),
        ensures
            final(self).wf(),
            final(self).processed == old(self).processed,
            final(self).next_percent == old(self).next_percent,
            final(self).total_estimate == old(self).total_estimate,
            final(self).ksize == old(self).ksize,
            final(self).scaled == old(self).scaled,
            final(self).source == old(self).source,
            r.0.hash == hash,
            r.0.ksize == old(self).ksize,
            r.0.scaled == old(self).scaled,
            r.0.source == old(self).source,
            r.0.dataset_names.deep_view() == spec_resolve_names(*catalog, dataset_ids@),
            r.1 == spec_out_of_range_count(*catalog, dataset_ids@),
            match taxonomy {
                Some(t) => {
                    let names = spec_resolve_names(*catalog, dataset_ids@);
                    let tl = spec_taxonomy_list(t.as_map(), names);
                    let lca = spec_compute_lca(tl);
                    &&& r.0.taxonomy_list matches Some(l) && l.deep_view() == tl
                    &&& r.0.lca_lineage matches Some(s) && s@ == lca.0
                    &&& (match lca.1 {
                        Some(rk) => r.0.lca_rank matches Some(n) && n@ == rk.spec_name(),
                        None => r.0.lca_rank is None,
                    })
                    &&& final(self).summary@ == old(self).summary@.add_classified(
                        spec_entry_classification(true, tl),
                    )
                },
                None => {
                    &&& r.0.taxonomy_list is None
                    &&& r.0.lca_lineage is None
                    &&& r.0.lca_rank is None
                    &&& final(self).summary@ == old(self).summary@.add_classified(
                        spec_entry_classification(false, Seq::<Seq<char>>::empty()),
                    )
                },
            },
    {
        let (dataset_names, out_of_range) = catalog.resolve_names(dataset_ids);
        let record = match taxonomy {
            Some(table) => {
                let taxonomy_list = taxonomy_list_for_names(table, &dataset_names);
                let (lca_lineage, lca_rank) = compute_lca_strs(&taxonomy_list);
                let lca_rank_name: Option<String> = match lca_rank {
                    Some(rk) => Some(rk.name().to_owned()),
                    None => None,
                };
                self.summary.add_rank(Some(&taxonomy_list), lca_rank);
                EnrichedRecord {
                    hash,
                    dataset_names,
                    taxonomy_list: Some(taxonomy_list),
                    lca_lineage: Some(lca_lineage),
                    lca_rank: lca_rank_name,
                    ksize: self.ksize,
                    scaled: self.scaled,
                    source: self.source.clone(),
                }
            },
            None => {
                self.summary.add_rank(None, None);
                EnrichedRecord {
                    hash,
                    dataset_names,
                    taxonomy_list: None,
                    lca_lineage: None,
                    lca_rank: None,
                    ksize: self.ksize,
                    scaled: self.scaled,
                    source: self.source.clone(),
                }
            },
        };
        (record, out_of_range)
    }
}

} // verus!
