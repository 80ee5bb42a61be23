//! The licenses that the detection engine knows, by their keys.
use vstd::prelude::*;

use crate::keyed::Keyed;
use crate::text;

verus! {

/// A license, with the addresses that its text is published at.
#[derive(Debug)]
pub struct License {
    pub key: String,
    pub reference_urls: Vec<String>,
}

/// Licenses by their keys, each key once.
#[derive(Debug)]
pub struct LicenseIndex {
    licenses: Keyed<License>,
}

impl LicenseIndex {
    /// The reference addresses of each license, by its key.
    pub closed spec fn reference_urls(self) -> Map<Seq<char>, Seq<Seq<char>>> {
        self.licenses@.map_values(|l: License| text::texts(l.reference_urls@))
    }

    /// An index without licenses.
    pub fn new() -> (index: LicenseIndex)
        ensures
            index.reference_urls() == Map::<Seq<char>, Seq<Seq<char>>>::empty(),
    {
        let index = LicenseIndex { licenses: Keyed::new() };
        assert(index.reference_urls() =~= Map::<Seq<char>, Seq<Seq<char>>>::empty());
        index
    }

    /// Adds a license, in place of one with the same key where there is one.
    pub fn insert(&mut self, license: License)
        ensures
            final(self).reference_urls() == old(self).reference_urls().insert(
                license.key@,
                text::texts(license.reference_urls@),
            ),
    {
        let key = license.key.clone();
        self.licenses.insert(key, license);
        assert(self.reference_urls() =~= old(self).reference_urls().insert(
            license.key@,
            text::texts(license.reference_urls@),
        ));
    }

    /// The reference addresses of the license with a key.
    pub fn get(&self, key: &str) -> (r: Option<&Vec<String>>)
        ensures
            r is Some == self.reference_urls().contains_key(key@),
            r is Some ==> text::texts(r->0@) == self.reference_urls()[key@],
    {
        match self.licenses.get(key) {
            Some(license) => Some(&license.reference_urls),
            None => None,
        }
    }
}

} // verus!
