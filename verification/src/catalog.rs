//! The dataset catalog: maps a dataset id to a display name, preferring the
//! dataset's declared name and falling back to its filename. Ids outside the
//! catalog bounds, and ids whose record could not be resolved, yield nothing.

use vstd::prelude::*;

verus! {

/// One resolvable catalog record.
#[derive(Debug)]
pub struct CatalogEntry {
    /// The dataset's declared name; may be empty.
    pub name: String,
    /// The dataset's filename, used when no name was declared.
    pub filename: String,
}

impl CatalogEntry {
    /// The name this entry displays under: the declared name when non-empty,
    /// the filename otherwise.
    pub open spec fn spec_display_name(self) -> Seq<char> {
        if self.name@.len() > 0 {
            self.name@
        } else {
            self.filename@
        }
    }
}

/// The catalog of datasets of one source index, indexed by dataset id.
/// An absent slot stands for a record the index could not resolve.
#[derive(Debug)]
pub struct DatasetCatalog {
    /// One slot per dataset id.
    pub entries: Vec<Option<CatalogEntry>>,
}

impl DatasetCatalog {
    /// The display name for `id`: nothing when the id is out of bounds or
    /// its record is unresolved.
    pub open spec fn spec_resolve(self, id: int) -> Option<Seq<char>> {
        if 0 <= id < self.entries@.len() {
            match self.entries@[id] {
                Some(e) => Some(e.spec_display_name()),
                None => None,
            }
        } else {
            None
        }
    }

    /// How many dataset ids the catalog covers.
    pub fn len(&self) -> (n: usize)
        ensures
            n == self.entries@.len(),
    {
        self.entries.len()
    }

    /// The display name for `id`, if the id is in bounds and resolvable.
    pub fn resolve(&self, id: u32) -> (r: Option<String>)
        ensures
            r.deep_view() == self.spec_resolve(id as int),
    {
        if (id as usize) < self.entries.len() {
            match &self.entries[id as usize] {
                Some(e) => {
                    if e.name.as_str().unicode_len() > 0 {
                        Some(e.name.clone())
                    } else {
                        Some(e.filename.clone())
                    }
                },
                None => None,
            }
        } else {
            None
        }
    }
}

/// The display names of `ids` resolved through `cat`, in order, dropping ids
/// that resolve to nothing.
pub open spec fn spec_resolve_names(cat: DatasetCatalog, ids: Seq<u32>) -> Seq<Seq<char>>
    decreases ids.len(),
{
    if ids.len() == 0 {
        Seq::<Seq<char>>::empty()
    } else {
        let rest = spec_resolve_names(cat, ids.drop_last());
        match cat.spec_resolve(ids.last() as int) {
            Some(n) => rest.push(n),
            None => rest,
        }
    }
}

/// How many of `ids` lie outside the catalog bounds.
pub open spec fn spec_out_of_range_count(cat: DatasetCatalog, ids: Seq<u32>) -> int
    decreases ids.len(),
{
    if ids.len() == 0 {
        0
    } else {
        spec_out_of_range_count(cat, ids.drop_last()) + (if ids.last() >= cat.entries@.len() {
            1int
        } else {
            0int
        })
    }
}

/// The out-of-range count never exceeds the number of ids.
pub proof fn lemma_out_of_range_count_bound(cat: DatasetCatalog, ids: Seq<u32>)
    ensures
        0 <= spec_out_of_range_count(cat, ids) <= ids.len(),
    decreases ids.len(),
{
    if ids.len() > 0 {
        lemma_out_of_range_count_bound(cat, ids.drop_last());
    }
}

impl DatasetCatalog {
    /// Resolves every id of `ids` in order, dropping ids out of bounds or
    /// unresolved, and reports how many ids were out of bounds.
    pub fn resolve_names(&self, ids: &Vec<u32>) -> (r: (Vec<String>, usize))
        ensures
            r.0.deep_view() == spec_resolve_names(*self, ids@),
            r.1 == spec_out_of_range_count(*self, ids@),
    {
        let mut names: Vec<String> = Vec::new();
        let mut out_of_range: usize = 0;
        let mut i: usize = 0;
        proof {
            assert(ids@.take(0) =~= Seq::<u32>::empty());
        }
        while i < ids.len()
            invariant
                i <= ids@.len(),
                names.deep_view() == spec_resolve_names(*self, ids@.take(i as int)),
                out_of_range == spec_out_of_range_count(*self, ids@.take(i as int)),
            decreases ids@.len() - i,
        {
            proof {
                assert(ids@.take(i + 1).drop_last() =~= ids@.take(i as int));
                assert(ids@.take(i + 1).last() == ids@[i as int]);
                lemma_out_of_range_count_bound(*self, ids@.take(i as int));
            }
            let id = ids[i];
            let ghost names_pre = names.deep_view();
            match self.resolve(id) {
                Some(n) => {
                    names.push(n);
                    proof {
                        assert(names.deep_view() =~~= names_pre.push(
                            self.spec_resolve(id as int)->Some_0,
                        ));
                    }
                },
                None => {},
            }
            if (id as usize) >= self.entries.len() {
                out_of_range = out_of_range + 1;
            }
            i += 1;
        }
        proof {
            assert(ids@.take(ids@.len() as int) =~= ids@);
        }
        (names, out_of_range)
    }
}

} // verus!
