//! The LCA engine: the lowest common ancestor of a set of lineages is the
//! longest shared prefix of their rank values, together with the canonical
//! name of the deepest shared rank.
//!
//! A lineage is a semicolon-delimited string of rank values ordered
//! domain; phylum; class; order; family; genus; species, where trailing
//! ranks may be absent.

use vstd::prelude::*;

use crate::text::{
    join_with_char, lemma_join_split, lemma_split_nonempty, spec_join, spec_split, split_on_char,
};

verus! {

/// The canonical taxonomic ranks, shallowest first.
#[derive(Clone, Copy, Debug, PartialEq, Eq, Structural)]
pub enum Rank {
    Domain,
    Phylum,
    Class,
    Order,
    Family,
    Genus,
    Species,
}

impl Rank {
    /// Position of this rank in the canonical ordering, domain first.
    pub open spec fn spec_position(self) -> int {
        match self {
            Rank::Domain => 0,
            Rank::Phylum => 1,
            Rank::Class => 2,
            Rank::Order => 3,
            Rank::Family => 4,
            Rank::Genus => 5,
            Rank::Species => 6,
        }
    }

    /// The rank at canonical position `i`, if any: positions beyond species
    /// have no rank name.
    pub open spec fn spec_of_position(i: int) -> Option<Rank> {
        if i == 0 {
            Some(Rank::Domain)
        } else if i == 1 {
            Some(Rank::Phylum)
        } else if i == 2 {
            Some(Rank::Class)
        } else if i == 3 {
            Some(Rank::Order)
        } else if i == 4 {
            Some(Rank::Family)
        } else if i == 5 {
            Some(Rank::Genus)
        } else if i == 6 {
            Some(Rank::Species)
        } else {
            None
        }
    }

    /// The canonical lower-case name of this rank.
    pub open spec fn spec_name(self) -> Seq<char> {
        match self {
            Rank::Domain => "domain"@,
            Rank::Phylum => "phylum"@,
            Rank::Class => "class"@,
            Rank::Order => "order"@,
            Rank::Family => "family"@,
            Rank::Genus => "genus"@,
            Rank::Species => "species"@,
        }
    }

    /// The rank at canonical position `i` (domain at 0 through species at 6).
    pub fn of_position(i: usize) -> (r: Option<Rank>)
        ensures
            r == Rank::spec_of_position(i as int),
    {
        if i == 0 {
            Some(Rank::Domain)
        } else if i == 1 {
            Some(Rank::Phylum)
        } else if i == 2 {
            Some(Rank::Class)
        } else if i == 3 {
            Some(Rank::Order)
        } else if i == 4 {
            Some(Rank::Family)
        } else if i == 5 {
            Some(Rank::Genus)
        } else if i == 6 {
            Some(Rank::Species)
        } else {
            None
        }
    }

    /// Position of this rank in the canonical ordering, domain first.
    pub fn position(&self) -> (p: usize)
        ensures
            p == self.spec_position(),
            p < 7,
    {
        match self {
            Rank::Domain => 0,
            Rank::Phylum => 1,
            Rank::Class => 2,
            Rank::Order => 3,
            Rank::Family => 4,
            Rank::Genus => 5,
            Rank::Species => 6,
        }
    }

    /// The canonical name of this rank.
    pub fn name(&self) -> (s: &'static str)
        ensures
            s@ == self.spec_name(),
    {
        match self {
            Rank::Domain => "domain",
            Rank::Phylum => "phylum",
            Rank::Class => "class",
            Rank::Order => "order",
            Rank::Family => "family",
            Rank::Genus => "genus",
            Rank::Species => "species",
        }
    }
}

/// Row `j` of `ls` has a value at position `i` equal to the first row's
/// value there.
pub open spec fn rank_matches_first<T>(ls: Seq<Seq<T>>, j: int, i: int) -> bool {
    i < ls[j].len() && ls[j][i] == ls[0][i]
}

/// All rows of `ls` have a value at position `i` equal to the first row's
/// value there.
pub open spec fn ranks_agree_at<T>(ls: Seq<Seq<T>>, i: int) -> bool {
    forall|j: int| 0 <= j < ls.len() ==> #[trigger] rank_matches_first(ls, j, i)
}

/// The number of leading positions, starting at `i`, on which all rows of
/// `ls` agree with the first row, counted until the first row runs out.
pub open spec fn lca_len_from<T>(ls: Seq<Seq<T>>, i: nat) -> nat
    decreases ls[0].len() - i,
    when ls.len() > 0 && i <= ls[0].len()
{
    if i >= ls[0].len() {
        i
    } else if !ranks_agree_at(ls, i as int) {
        i
    } else {
        lca_len_from(ls, i + 1)
    }
}

/// The number of leading positions on which all rows of `ls` agree.
pub open spec fn spec_lca_len<T>(ls: Seq<Seq<T>>) -> nat {
    lca_len_from(ls, 0)
}

/// The rank reached by an LCA that kept `n` leading rank values: the rank at
/// position `n - 1`, or none when nothing was kept or the position is past
/// species.
pub open spec fn spec_rank_of_len(n: nat) -> Option<Rank> {
    if n == 0 {
        None
    } else {
        Rank::spec_of_position(n - 1)
    }
}

/// The lineage strings of `lineages`, each split into its rank values.
pub open spec fn spec_split_all(lineages: Seq<Seq<char>>) -> Seq<Seq<Seq<char>>> {
    lineages.map_values(|l: Seq<char>| spec_split(l, ';'))
}

/// The LCA of `lineages`: the shared prefix of rank values joined back into
/// one string, and the rank at the prefix's last position.
pub open spec fn spec_compute_lca(lineages: Seq<Seq<char>>) -> (Seq<char>, Option<Rank>) {
    if lineages.len() == 0 {
        (Seq::<char>::empty(), None::<Rank>)
    } else {
        let ls = spec_split_all(lineages);
        let n = spec_lca_len(ls);
        (spec_join(ls[0].take(n as int), ';'), spec_rank_of_len(n))
    }
}

/// `spec_lca_len` is the unique cut: all rows agree on every position before
/// it, and it sits at the first row's end or at the first disagreement.
pub proof fn lemma_lca_len_char<T>(ls: Seq<Seq<T>>, k: nat)
    requires
        ls.len() > 0,
        k <= ls[0].len(),
        forall|i: int| 0 <= i < k ==> ranks_agree_at(ls, i),
        k < ls[0].len() ==> !ranks_agree_at(ls, k as int),
    ensures
        spec_lca_len(ls) == k,
{
    lemma_lca_len_from_char(ls, 0, k);
}

proof fn lemma_lca_len_from_char<T>(ls: Seq<Seq<T>>, i: nat, k: nat)
    requires
        ls.len() > 0,
        i <= k <= ls[0].len(),
        forall|m: int| i <= m < k ==> ranks_agree_at(ls, m),
        k < ls[0].len() ==> !ranks_agree_at(ls, k as int),
    ensures
        lca_len_from(ls, i) == k,
    decreases ls[0].len() - i,
{
    if i < k {
        lemma_lca_len_from_char(ls, i + 1, k);
    }
}

/// Whether the two strings hold the same characters.
fn string_eq(a: &String, b: &String) -> (r: bool)
    ensures
        r == (a@ == b@),
{
    a.eq(b)
}

/// Computes the lowest common ancestor of the given lineages: the longest
/// prefix of rank values shared by every lineage (taking the first as the
/// reference), joined with semicolons, and the canonical rank name at the
/// prefix's last position. An empty input yields an empty prefix and no rank.
pub fn compute_lca_strs(taxonomies: &Vec<String>) -> (r: (String, Option<Rank>))
    ensures
        r.0@ == spec_compute_lca(taxonomies.deep_view()).0,
        r.1 == spec_compute_lca(taxonomies.deep_view()).1,
{
    if taxonomies.len() == 0 {
        return (String::new(), None);
    }
    let ghost ls = spec_split_all(taxonomies.deep_view());
    proof {
        assert(ls.len() == taxonomies@.len());
    }
    let mut split_taxonomies: Vec<Vec<String>> = Vec::new();
    let mut idx: usize = 0;
    while idx < taxonomies.len()
        invariant
            idx <= taxonomies.len(),
            taxonomies@.len() == taxonomies.len(),
            ls == spec_split_all(taxonomies.deep_view()),
            ls.len() == taxonomies.len(),
            split_taxonomies@.len() == idx,
            forall|t: int| 0 <= t < idx ==> (#[trigger] split_taxonomies@[t]).deep_view() == ls[t],
        decreases taxonomies.len() - idx,
    {
        let parts = split_on_char(taxonomies[idx].as_str(), ';');
        proof {
            assert(taxonomies.deep_view()[idx as int] == taxonomies@[idx as int]@);
            assert(ls[idx as int] == spec_split(taxonomies.deep_view()[idx as int], ';'));
        }
        split_taxonomies.push(parts);
        idx += 1;
    }
    let first_len = split_taxonomies[0].len();
    proof {
        assert(split_taxonomies@[0].deep_view() == ls[0]);
        assert(ls[0].len() == first_len);
    }
    let mut n: usize = 0;
    let mut done = false;
    while !done && n < first_len
        invariant
            n <= first_len,
            first_len == ls[0].len(),
            ls.len() == split_taxonomies@.len(),
            ls.len() >= 1,
            forall|t: int| 0 <= t < ls.len() ==> (#[trigger] split_taxonomies@[t]).deep_view()
                == ls[t],
            forall|i: int| 0 <= i < n ==> ranks_agree_at(ls, i),
            done ==> n < first_len && !ranks_agree_at(ls, n as int),
        decreases first_len - n + (if done { 0int } else { 1int }),
    {
        let ghost pos = n as int;
        let mut agree = true;
        let mut j: usize = 0;
        while j < split_taxonomies.len()
            invariant
                j <= split_taxonomies@.len(),
                ls.len() == split_taxonomies@.len(),
                ls.len() >= 1,
                pos == n as int,
                forall|t: int| 0 <= t < ls.len() ==> (#[trigger] split_taxonomies@[t]).deep_view()
                    == ls[t],
                n < ls[0].len(),
                agree ==> forall|t: int| 0 <= t < j ==> #[trigger] rank_matches_first(ls, t, pos),
                !agree ==> exists|t: int|
                    0 <= t < j && !(#[trigger] rank_matches_first(ls, t, pos)),
            decreases split_taxonomies@.len() - j,
        {
            let ghost jj0 = j as int;
            proof {
                assert(split_taxonomies@[jj0].deep_view() == ls[jj0]);
                assert(split_taxonomies@[0].deep_view() == ls[0]);
                assert(split_taxonomies@[jj0].deep_view().len() == split_taxonomies@[jj0]@.len());
            }
            if agree {
                let row_len = split_taxonomies[j].len();
                let mut row_ok = false;
                if n < row_len {
                    proof {
                        assert(split_taxonomies@[jj0].deep_view()[pos]
                            == split_taxonomies@[jj0]@[pos]@);
                        assert(split_taxonomies@[0].deep_view()[pos] == split_taxonomies@[0]@[pos]@);
                    }
                    row_ok = string_eq(&split_taxonomies[j][n], &split_taxonomies[0][n]);
                }
                if !row_ok {
                    agree = false;
                    proof {
                        assert(!rank_matches_first(ls, jj0, pos));
                    }
                } else {
                    proof {
                        assert(rank_matches_first(ls, jj0, pos));
                    }
                }
            }
            j += 1;
        }
        if agree {
            proof {
                assert(ranks_agree_at(ls, pos));
            }
            n += 1;
        } else {
            proof {
                let bad = choose|t: int|
                    0 <= t < ls.len() && !(#[trigger] rank_matches_first(ls, t, pos));
                assert(!rank_matches_first(ls, bad, pos));
                assert(!ranks_agree_at(ls, pos));
            }
            done = true;
        }
    }
    proof {
        lemma_lca_len_char(ls, n as nat);
    }
    let mut prefix_parts: Vec<String> = Vec::new();
    let mut k: usize = 0;
    while k < n
        invariant
            k <= n,
            n <= ls[0].len(),
            ls.len() == split_taxonomies@.len(),
            ls.len() >= 1,
            forall|t: int| 0 <= t < ls.len() ==> (#[trigger] split_taxonomies@[t]).deep_view()
                == ls[t],
            prefix_parts@.len() == k,
            forall|t: int| 0 <= t < k ==> (#[trigger] prefix_parts@[t])@ == ls[0][t],
        decreases n - k,
    {
        proof {
            assert(split_taxonomies@[0].deep_view() == ls[0]);
            assert(split_taxonomies@[0].deep_view()[k as int] == split_taxonomies@[0]@[k as int]@);
        }
        let part = split_taxonomies[0][k].clone();
        prefix_parts.push(part);
        k += 1;
    }
    proof {
        reveal_strlit(";");
        assert forall|t: int| 0 <= t < n implies #[trigger] prefix_parts.deep_view()[t] == ls[0][t] by {
            assert(prefix_parts.deep_view()[t] == prefix_parts@[t].deep_view());
        }
        assert(prefix_parts.deep_view() =~~= ls[0].take(n as int));
    }
    let lca = join_with_char(&prefix_parts, ";");
    let rank = if n == 0 {
        None
    } else {
        Rank::of_position(n - 1)
    };
    (lca, rank)
}

/// For one lineage alone, the LCA is the lineage itself, and the rank is the
/// one at the lineage's last position (none past species).
pub proof fn lemma_lca_singleton(x: Seq<char>)
    ensures
        spec_compute_lca(seq![x]).0 == x,
        spec_compute_lca(seq![x]).1 == spec_rank_of_len(spec_split(x, ';').len()),
{
    lemma_lca_identical(seq![x], x);
}

/// For any non-empty list of copies of one lineage, the LCA is that lineage
/// unchanged, and the rank is the one at its last position (none past
/// species).
pub proof fn lemma_lca_identical(lineages: Seq<Seq<char>>, x: Seq<char>)
    requires
        lineages.len() > 0,
        forall|j: int| 0 <= j < lineages.len() ==> lineages[j] == x,
    ensures
        spec_compute_lca(lineages).0 == x,
        spec_compute_lca(lineages).1 == spec_rank_of_len(spec_split(x, ';').len()),
{
    let ls = spec_split_all(lineages);
    lemma_split_nonempty(x, ';');
    assert(forall|j: int| 0 <= j < ls.len() ==> ls[j] == spec_split(x, ';'));
    assert forall|i: int| 0 <= i < spec_split(x, ';').len() implies ranks_agree_at(ls, i) by {
        assert(forall|j: int| 0 <= j < ls.len() ==> i < ls[j].len() && ls[j][i] == ls[0][i]);
    }
    lemma_lca_len_char(ls, spec_split(x, ';').len());
    assert(ls[0].take(spec_split(x, ';').len() as int) =~~= spec_split(x, ';'));
    lemma_join_split(x, ';');
}

/// For lineages whose rank values agree on the first `k` positions and
/// disagree at position `k` (the first lineage being the reference), the LCA
/// is exactly those `k` values joined back, and the rank is the one at
/// position `k - 1` (none when `k` is zero).
pub proof fn lemma_lca_common_prefix(lineages: Seq<Seq<char>>, k: nat)
    requires
        lineages.len() > 0,
        k <= spec_split(lineages[0], ';').len(),
        forall|i: int| 0 <= i < k ==> ranks_agree_at(spec_split_all(lineages), i),
        k < spec_split(lineages[0], ';').len() ==> !ranks_agree_at(
            spec_split_all(lineages),
            k as int,
        ),
    ensures
        spec_compute_lca(lineages).0 == spec_join(
            spec_split(lineages[0], ';').take(k as int),
            ';',
        ),
        spec_compute_lca(lineages).1 == spec_rank_of_len(k),
{
    let ls = spec_split_all(lineages);
    assert(ls[0] == spec_split(lineages[0], ';'));
    lemma_lca_len_char(ls, k);
}

} // verus!
