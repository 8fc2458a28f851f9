//! The catalog: a mapping from locale identifier to a catalog entry of
//! {country display name, flag identifier, locale record}, with unique
//! keys and insertion order irrelevant. It is modelled as a `Map` from
//! identifier to entry.
use crate::record::{Locale, LocaleModel, empty_model};
use crate::text::str_equal;
use vstd::prelude::*;

verus! {

/// One catalog entry: a country display name, a flag identifier kept
/// only for storage, and the locale record itself.
#[derive(Debug)]
pub struct LocaleData {
    pub country: String,
    pub flag: String,
    pub locale: Locale,
}

/// The mathematical model of a catalog entry.
pub ghost struct LocaleDataModel {
    pub country: Seq<char>,
    pub flag: Seq<char>,
    pub locale: LocaleModel,
}

impl View for LocaleData {
    type V = LocaleDataModel;

    open spec fn view(&self) -> LocaleDataModel {
        LocaleDataModel { country: self.country@, flag: self.flag@, locale: self.locale@ }
    }
}

impl Default for LocaleData {
    /// An entry with empty names and an all-empty record.
    fn default() -> (r: Self)
        ensures
            r@.country == Seq::<char>::empty(),
            r@.flag == Seq::<char>::empty(),
            r@.locale == empty_model(),
    {
        LocaleData { country: String::new(), flag: String::new(), locale: Locale::default() }
    }
}

impl Clone for LocaleData {
    /// A field-for-field copy of the entry.
    fn clone(&self) -> (r: Self)
        ensures
            r == *self,
    {
        LocaleData {
            country: self.country.clone(),
            flag: self.flag.clone(),
            locale: self.locale.clone(),
        }
    }
}

/// The catalog, keyed by locale identifier. The entries stand in a
/// vector; well-formed catalogs hold each identifier at most once.
#[derive(Debug)]
pub struct LocaleGen {
    pub locales: Vec<(String, LocaleData)>,
}

/// The map that a sequence of catalog entries denotes; a later entry
/// for a key would override an earlier one.
pub open spec fn catalog_map(entries: Seq<(String, LocaleData)>) -> Map<Seq<char>, LocaleDataModel>
    decreases entries.len(),
{
    if entries.len() == 0 {
        Map::empty()
    } else {
        catalog_map(entries.drop_last()).insert(entries.last().0@, entries.last().1@)
    }
}

/// No two entries share an identifier.
pub open spec fn unique_keys(entries: Seq<(String, LocaleData)>) -> bool {
    forall|i: int, j: int| 0 <= i < j < entries.len() ==> entries[i].0@ != entries[j].0@
}

impl View for LocaleGen {
    type V = Map<Seq<char>, LocaleDataModel>;

    open spec fn view(&self) -> Map<Seq<char>, LocaleDataModel> {
        catalog_map(self.locales@)
    }
}

/// A key is in the denoted map exactly when some entry holds it.
pub proof fn lemma_catalog_map_key(entries: Seq<(String, LocaleData)>, k: Seq<char>)
    ensures
        catalog_map(entries).contains_key(k) <==> exists|i: int|
            0 <= i < entries.len() && entries[i].0@ == k,
    decreases entries.len(),
{
    if entries.len() > 0 {
        lemma_catalog_map_key(entries.drop_last(), k);
        if catalog_map(entries).contains_key(k) {
            if entries.last().0@ == k {
                assert(entries[entries.len() - 1].0@ == k);
            } else {
                let i = choose|i: int|
                    0 <= i < entries.drop_last().len() && entries.drop_last()[i].0@ == k;
                assert(entries[i].0@ == k);
            }
        }
        if exists|i: int| 0 <= i < entries.len() && entries[i].0@ == k {
            let i = choose|i: int| 0 <= i < entries.len() && entries[i].0@ == k;
            if i < entries.len() - 1 {
                assert(entries.drop_last()[i].0@ == k);
            }
        }
    }
}

/// In a catalog without repeated keys, each entry gives its key's value.
pub proof fn lemma_catalog_map_value(entries: Seq<(String, LocaleData)>, i: int)
    requires
        unique_keys(entries),
        0 <= i < entries.len(),
    ensures
        catalog_map(entries).contains_key(entries[i].0@),
        catalog_map(entries)[entries[i].0@] == entries[i].1@,
    decreases entries.len(),
{
    if i < entries.len() - 1 {
        assert(entries.drop_last()[i] == entries[i]);
        lemma_catalog_map_value(entries.drop_last(), i);
        assert(entries[i].0@ != entries.last().0@);
    }
}

/// Replacing the entry that holds a key denotes the same map as
/// inserting the new value for that key.
pub proof fn lemma_catalog_map_update(
    entries: Seq<(String, LocaleData)>,
    i: int,
    pair: (String, LocaleData),
)
    requires
        unique_keys(entries),
        0 <= i < entries.len(),
        entries[i].0@ == pair.0@,
    ensures
        catalog_map(entries.update(i, pair)) == catalog_map(entries).insert(pair.0@, pair.1@),
        unique_keys(entries.update(i, pair)),
    decreases entries.len(),
{
    let u = entries.update(i, pair);
    if i == entries.len() - 1 {
        assert(u.drop_last() =~= entries.drop_last());
        assert(u.last() == pair);
        assert(catalog_map(u) =~= catalog_map(entries).insert(pair.0@, pair.1@));
    } else {
        assert(u.drop_last() =~= entries.drop_last().update(i, pair));
        assert(entries.drop_last()[i] == entries[i]);
        lemma_catalog_map_update(entries.drop_last(), i, pair);
        assert(u.last() == entries.last());
        assert(entries[i].0@ != entries.last().0@);
        assert(catalog_map(u) =~= catalog_map(entries).insert(pair.0@, pair.1@));
    }
}

impl Default for LocaleGen {
    /// An empty catalog.
    fn default() -> (r: Self)
        ensures
            r@ == Map::<Seq<char>, LocaleDataModel>::empty(),
            r.wf(),
            r.locales@.len() == 0,
    {
        LocaleGen { locales: Vec::new() }
    }
}

impl Clone for LocaleGen {
    /// A copy of the catalog with the same entries.
    fn clone(&self) -> (r: Self)
        ensures
            r.locales@ == self.locales@,
    {
        let mut entries: Vec<(String, LocaleData)> = Vec::new();
        let n = self.locales.len();
        let mut i: usize = 0;
        while i < n
            invariant
                n == self.locales@.len(),
                0 <= i <= n,
                entries@.len() == i,
                forall|j: int| 0 <= j < i ==> entries@[j] == self.locales@[j],
            decreases n - i,
        {
            let entry = &self.locales[i];
            entries.push((entry.0.clone(), entry.1.clone()));
            i += 1;
        }
        proof {
            assert(entries@ =~= self.locales@);
        }
        LocaleGen { locales: entries }
    }
}

impl LocaleGen {
    /// Each identifier stands in the catalog at most once.
    pub open spec fn wf(&self) -> bool {
        unique_keys(self.locales@)
    }

    /// An empty catalog.
    pub fn new() -> (r: Self)
        ensures
            r@ == Map::<Seq<char>, LocaleDataModel>::empty(),
            r.wf(),
            r.locales@.len() == 0,
    {
        Self::default()
    }

    /// Inserts an entry for `name`, overriding any entry the catalog
    /// already holds for it, and returns a copy of the whole catalog.
    pub fn insert(&mut self, name: String, data: LocaleData) -> (r: Self)
        requires
            old(self).wf(),
        ensures
            final(self).wf(),
            final(self)@ == old(self)@.insert(name@, data@),
            r.locales@ == final(self).locales@,
    {
        let ghost orig = self.locales@;
        let n = self.locales.len();
        let mut i: usize = 0;
        while i < n
            invariant
                orig == old(self).locales@,
                self.locales@ == orig,
                unique_keys(orig),
                n == orig.len(),
                0 <= i <= n,
                forall|j: int| 0 <= j < i ==> orig[j].0@ != name@,
            decreases n - i,
        {
            if str_equal(self.locales[i].0.as_str(), name.as_str()) {
                proof {
                    lemma_catalog_map_update(orig, i as int, (name, data));
                }
                self.locales.set(i, (name, data));
                return self.clone();
            }
            i += 1;
        }
        proof {
            let pushed = orig.push((name, data));
            assert(pushed.drop_last() =~= orig);
            assert(catalog_map(pushed) == catalog_map(orig).insert(name@, data@));
            assert(unique_keys(pushed));
        }
        self.locales.push((name, data));
        self.clone()
    }

    /// Looks an identifier up: the entry for `name` when the catalog
    /// holds one, and `None` exactly when it does not.
    pub fn get(&self, name: &str) -> (r: Option<&LocaleData>)
        requires
            self.wf(),
        ensures
            match r {
                Some(d) => self@.contains_key(name@) && d@ == self@[name@],
                None => !self@.contains_key(name@),
            },
    {
        let n = self.locales.len();
        let mut i: usize = 0;
        while i < n
            invariant
                self.wf(),
                n == self.locales@.len(),
                0 <= i <= n,
                forall|j: int| 0 <= j < i ==> self.locales@[j].0@ != name@,
            decreases n - i,
    {
            if str_equal(self.locales[i].0.as_str(), name) {
                proof {
                    lemma_catalog_map_value(self.locales@, i as int);
                }
                return Some(&self.locales[i].1);
            }
            i += 1;
        }
        proof {
            lemma_catalog_map_key(self.locales@, name@);
        }
        None
    }
}

} // verus!
