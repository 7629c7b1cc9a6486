//! The taxonomy table: a mapping from version-stripped accession identifiers
//! to semicolon-joined lineage strings, built from parsed table rows. A row
//! must carry at least one rank value to be inserted; later rows overwrite
//! earlier ones on identifier collision.

use vstd::prelude::*;

use crate::text::{prefix_before_char, join_with_char, spec_join, spec_split};

verus! {

/// One parsed row of a taxonomy table: an identifier and the seven canonical
/// rank values, each of which may be absent.
#[derive(Debug)]
pub struct TaxonomyRow {
    /// The accession identifier, possibly carrying a trailing version.
    pub ident: String,
    /// The domain rank value, if present.
    pub domain: Option<String>,
    /// The phylum rank value, if present.
    pub phylum: Option<String>,
    /// The class rank value, if present.
    pub class: Option<String>,
    /// The order rank value, if present.
    pub order: Option<String>,
    /// The family rank value, if present.
    pub family: Option<String>,
    /// The genus rank value, if present.
    pub genus: Option<String>,
    /// The species rank value, if present.
    pub species: Option<String>,
}

/// The rank value of `o` as a sequence of zero or one lineage parts.
pub open spec fn spec_opt_part(o: Option<String>) -> Seq<Seq<char>> {
    match o {
        Some(s) => seq![s@],
        None => Seq::<Seq<char>>::empty(),
    }
}

impl TaxonomyRow {
    /// The rank values present in this row, in canonical order.
    pub open spec fn spec_lineage_fields(self) -> Seq<Seq<char>> {
        spec_opt_part(self.domain) + spec_opt_part(self.phylum) + spec_opt_part(self.class)
            + spec_opt_part(self.order) + spec_opt_part(self.family) + spec_opt_part(self.genus)
            + spec_opt_part(self.species)
    }

    /// Whether the row carries at least one rank value; rows that do not are
    /// skipped when the table is built.
    pub fn has_lineage(&self) -> (r: bool)
        ensures
            r == (self.spec_lineage_fields().len() > 0),
    {
        self.domain.is_some() || self.phylum.is_some() || self.class.is_some()
            || self.order.is_some() || self.family.is_some() || self.genus.is_some()
            || self.species.is_some()
    }

    /// The row's present rank values joined into one semicolon-delimited
    /// lineage string.
    #[verifier::rlimit(50)]
    pub fn lineage(&self) -> (r: String)
        ensures
            r@ == spec_join(self.spec_lineage_fields(), ';'),
    {
        let mut fields: Vec<String> = Vec::new();
        if let Some(v) = &self.domain {
            fields.push(v.clone());
        }
        if let Some(v) = &self.phylum {
            fields.push(v.clone());
        }
        if let Some(v) = &self.class {
            fields.push(v.clone());
        }
        if let Some(v) = &self.order {
            fields.push(v.clone());
        }
        if let Some(v) = &self.family {
            fields.push(v.clone());
        }
        if let Some(v) = &self.genus {
            fields.push(v.clone());
        }
        if let Some(v) = &self.species {
            fields.push(v.clone());
        }
        proof {
            assert(fields.deep_view() =~~= self.spec_lineage_fields());
            reveal_strlit(";");
        }
        join_with_char(&fields, ";")
    }
}

/// Cuts an accession identifier at its first `.`, stripping any trailing
/// version suffix.
pub fn strip_accession_version(s: &str) -> (r: String)
    ensures
        r@ == spec_split(s@, '.')[0],
{
    prefix_before_char(s, '.')
}

/// Why loading a taxonomy table failed.
#[derive(Clone, Copy, Debug, PartialEq, Eq, Structural)]
pub enum TaxonomyError {
    /// After processing every row of every source, the table held no entry.
    Empty,
}

impl TaxonomyError {
    /// A short description of the failure.
    pub fn message(&self) -> (s: &'static str)
        ensures
            s@ == "taxonomy table is empty or failed to parse"@,
    {
        "taxonomy table is empty or failed to parse"
    }
}

/// The map described by association entries, later entries overwriting
/// earlier ones.
pub open spec fn entries_map(s: Seq<(Seq<char>, Seq<char>)>) -> Map<Seq<char>, Seq<char>>
    decreases s.len(),
{
    if s.len() == 0 {
        Map::<Seq<char>, Seq<char>>::empty()
    } else {
        entries_map(s.drop_last()).insert(s.last().0, s.last().1)
    }
}

/// A key occurs in the entries map exactly when some entry holds it.
pub proof fn lemma_entries_map_contains(s: Seq<(Seq<char>, Seq<char>)>, k: Seq<char>)
    ensures
        entries_map(s).contains_key(k) <==> exists|i: int| 0 <= i < s.len() && (#[trigger] s[i]).0
            == k,
    decreases s.len(),
{
    if s.len() > 0 {
        lemma_entries_map_contains(s.drop_last(), k);
        if entries_map(s).contains_key(k) {
            if s.last().0 == k {
                assert(s[s.len() - 1].0 == k);
            } else {
                let i = choose|i: int|
                    0 <= i < s.drop_last().len() && (#[trigger] s.drop_last()[i]).0 == k;
                assert(s[i].0 == k);
            }
        }
        if exists|i: int| 0 <= i < s.len() && (#[trigger] s[i]).0 == k {
            let i = choose|i: int| 0 <= i < s.len() && (#[trigger] s[i]).0 == k;
            if i < s.len() - 1 {
                assert(s.drop_last()[i].0 == k);
            }
        }
    }
}

/// With pairwise-distinct keys, the entry holding a key gives the map's
/// value at it.
pub proof fn lemma_entries_map_at(s: Seq<(Seq<char>, Seq<char>)>, i: int)
    requires
        0 <= i < s.len(),
        forall|a: int, b: int| 0 <= a < b < s.len() ==> (#[trigger] s[a]).0 != (#[trigger] s[b]).0,
    ensures
        entries_map(s).contains_key(s[i].0),
        entries_map(s)[s[i].0] == s[i].1,
    decreases s.len(),
{
    if i == s.len() - 1 {
    } else {
        assert(forall|a: int, b: int|
            0 <= a < b < s.drop_last().len() ==> (#[trigger] s.drop_last()[a]).0 != (
            #[trigger] s.drop_last()[b]).0);
        lemma_entries_map_at(s.drop_last(), i);
        assert(s[i].0 != s.last().0);
    }
}

/// With pairwise-distinct keys, replacing the entry holding a key updates
/// the map at that key alone.
pub proof fn lemma_entries_map_update(s: Seq<(Seq<char>, Seq<char>)>, i: int, v: Seq<char>)
    requires
        0 <= i < s.len(),
        forall|a: int, b: int| 0 <= a < b < s.len() ==> (#[trigger] s[a]).0 != (#[trigger] s[b]).0,
    ensures
        entries_map(s.update(i, (s[i].0, v))) == entries_map(s).insert(s[i].0, v),
    decreases s.len(),
{
    let k = s[i].0;
    let su = s.update(i, (k, v));
    if i == s.len() - 1 {
        assert(su.drop_last() =~= s.drop_last());
        assert(su.last() == (k, v));
        assert(entries_map(su) =~= entries_map(s).insert(k, v));
    } else {
        assert(su.drop_last() =~= s.drop_last().update(i, (k, v)));
        assert(forall|a: int, b: int|
            0 <= a < b < s.drop_last().len() ==> (#[trigger] s.drop_last()[a]).0 != (
            #[trigger] s.drop_last()[b]).0);
        lemma_entries_map_update(s.drop_last(), i, v);
        assert(su.last() == s.last());
        assert(k != s.last().0);
        assert(entries_map(su) =~= entries_map(s.drop_last()).insert(k, v).insert(
            s.last().0,
            s.last().1,
        ));
        assert(entries_map(s.drop_last()).insert(k, v).insert(s.last().0, s.last().1)
            =~= entries_map(s).insert(k, v));
    }
}

/// The accession-to-lineage table, held as association entries with
/// pairwise-distinct keys.
#[derive(Debug)]
pub struct TaxonomyTable {
    /// The (identifier, lineage) entries, keys pairwise distinct.
    pub entries: Vec<(String, String)>,
}

impl TaxonomyTable {
    /// Keys are pairwise distinct.
    pub open spec fn wf(self) -> bool {
        forall|a: int, b: int|
            0 <= a < b < self.entries.deep_view().len() ==> (#[trigger] self.entries.deep_view()[a]).0
                != (#[trigger] self.entries.deep_view()[b]).0
    }

    /// The mapping this table holds.
    pub open spec fn as_map(self) -> Map<Seq<char>, Seq<char>> {
        entries_map(self.entries.deep_view())
    }

    /// A table with no entries.
    pub fn new() -> (r: Self)
        ensures
            r.wf(),
            r.as_map() == Map::<Seq<char>, Seq<char>>::empty(),
            r.entries@.len() == 0,
    {
        TaxonomyTable { entries: Vec::new() }
    }

    /// How many identifiers the table maps.
    pub fn len(&self) -> (n: usize)
        requires
            self.wf(),
        ensures
            n == self.entries@.len(),
            n == 0 <==> self.as_map() == Map::<Seq<char>, Seq<char>>::empty(),
    {
        proof {
            let dv = self.entries.deep_view();
            if dv.len() > 0 {
                assert(entries_map(dv).contains_key(dv.last().0));
                assert(entries_map(dv) != Map::<Seq<char>, Seq<char>>::empty());
            } else {
                assert(entries_map(dv) =~= Map::<Seq<char>, Seq<char>>::empty());
            }
        }
        self.entries.len()
    }

    /// Maps `ident` to `lineage`, overwriting any earlier entry for the same
    /// identifier.
    pub fn insert(&mut self, ident: String, lineage: String)
        requires
            old(self).wf(),
        ensures
            final(self).wf(),
            final(self).as_map() == old(self).as_map().insert(ident@, lineage@),
    {
        let ghost dv = self.entries.deep_view();
        let ghost idv = ident@;
        let ghost lnv = lineage@;
        let mut i: usize = 0;
        while i < self.entries.len()
            invariant
                i <= self.entries@.len(),
                dv == self.entries.deep_view(),
                dv.len() == self.entries@.len(),
                *self == *old(self),
                old(self).wf(),
                idv == ident@,
                lnv == lineage@,
                forall|t: int| 0 <= t < i ==> (#[trigger] dv[t]).0 != ident@,
            decreases self.entries@.len() - i,
        {
            proof {
                assert(dv[i as int] == (self.entries@[i as int].0@, self.entries@[i as int].1@));
            }
            if self.entries[i].0.eq(&ident) {
                proof {
                    assert(self.entries@[i as int].0@ == ident@);
                    assert(dv[i as int].0 == idv);
                }
                self.entries[i] = (ident, lineage);
                proof {
                    assert(self.entries@[i as int] == (ident, lineage));
                    assert(self.entries@[i as int].0@ == idv);
                    assert(self.entries.deep_view() =~~= dv.update(i as int, (dv[i as int].0, lnv)));
                    lemma_entries_map_update(dv, i as int, lnv);
                    assert forall|a: int, b: int|
                        0 <= a < b < self.entries.deep_view().len() implies (
                    #[trigger] self.entries.deep_view()[a]).0 != (
                    #[trigger] self.entries.deep_view()[b]).0 by {
                        assert(self.entries.deep_view()[a].0 == dv[a].0);
                        assert(self.entries.deep_view()[b].0 == dv[b].0);
                    }
                }
                return ;
            }
            i += 1;
        }
        self.entries.push((ident, lineage));
        proof {
            assert(self.entries.deep_view() =~~= dv.push((idv, lnv)));
            assert(self.entries.deep_view().drop_last() =~~= dv);
        }
    }

    /// The lineage mapped for `ident`, if any.
    pub fn get(&self, ident: &str) -> (r: Option<&String>)
        requires
            self.wf(),
        ensures
            match r {
                Some(v) => self.as_map().contains_key(ident@) && v@ == self.as_map()[ident@],
                None => !self.as_map().contains_key(ident@),
            },
    {
        let ident_owned = ident.to_owned();
        let ghost dv = self.entries.deep_view();
        let mut i: usize = 0;
        while i < self.entries.len()
            invariant
                i <= self.entries@.len(),
                self.wf(),
                ident_owned@ == ident@,
                dv == self.entries.deep_view(),
                dv.len() == self.entries@.len(),
                forall|t: int| 0 <= t < i ==> (#[trigger] dv[t]).0 != ident@,
            decreases self.entries@.len() - i,
        {
            proof {
                assert(dv[i as int] == (self.entries@[i as int].0@, self.entries@[i as int].1@));
            }
            if self.entries[i].0.eq(&ident_owned) {
                proof {
                    lemma_entries_map_at(dv, i as int);
                }
                return Some(&self.entries[i].1);
            }
            i += 1;
        }
        proof {
            lemma_entries_map_contains(dv, ident@);
        }
        None
    }

    /// Builds the table from parsed rows, in order: rows without any rank
    /// value are skipped, identifiers are version-stripped, and later rows
    /// overwrite earlier ones. Fails when no row at all was inserted.
    pub fn build(rows: &Vec<TaxonomyRow>) -> (r: Result<TaxonomyTable, TaxonomyError>)
        ensures
            match r {
                Ok(t) => t.wf() && t.as_map() == spec_accumulate(rows@) && t.as_map() != Map::<
                    Seq<char>,
                    Seq<char>,
                >::empty(),
                Err(e) => e == TaxonomyError::Empty && spec_accumulate(rows@) == Map::<
                    Seq<char>,
                    Seq<char>,
                >::empty(),
            },
    {
        let mut table = TaxonomyTable::new();
        let mut i: usize = 0;
        proof {
            assert(rows@.take(0) =~= Seq::<TaxonomyRow>::empty());
        }
        while i < rows.len()
            invariant
                i <= rows@.len(),
                table.wf(),
                table.as_map() == spec_accumulate(rows@.take(i as int)),
            decreases rows@.len() - i,
        {
            proof {
                assert(rows@.take(i + 1).drop_last() =~= rows@.take(i as int));
                assert(rows@.take(i + 1).last() == rows@[i as int]);
            }
            let row = &rows[i];
            if row.has_lineage() {
                let ident = strip_accession_version(row.ident.as_str());
                let lineage = row.lineage();
                table.insert(ident, lineage);
            }
            i += 1;
        }
        proof {
            assert(rows@.take(rows@.len() as int) =~= rows@);
        }
        if table.len() == 0 {
            Err(TaxonomyError::Empty)
        } else {
            Ok(table)
        }
    }
}

/// The mapping accumulated from `rows` in order: rows without rank values
/// contribute nothing, all others map their version-stripped identifier to
/// their joined lineage.
pub open spec fn spec_accumulate(rows: Seq<TaxonomyRow>) -> Map<Seq<char>, Seq<char>>
    decreases rows.len(),
{
    if rows.len() == 0 {
        Map::<Seq<char>, Seq<char>>::empty()
    } else {
        let m = spec_accumulate(rows.drop_last());
        let row = rows.last();
        if row.spec_lineage_fields().len() == 0 {
            m
        } else {
            m.insert(spec_split(row.ident@, '.')[0], spec_join(row.spec_lineage_fields(), ';'))
        }
    }
}

} // verus!
