use vstd::prelude::*;

use crate::ids::{id_to_string, spec_dec_digits};
use crate::types::Cursor;

verus! {

/// The reconciled scrape result, keyed by the natural identity
/// `(registry, name)`.  `version` and `downloads` are overwritten on every
/// successful re-scrape; `id` is stable across updates once assigned.
#[derive(Debug, PartialEq)]
pub struct Package {
    pub id: u128,
    pub registry: String,
    pub name: String,
    pub version: String,
    pub downloads: i64,
}

impl Clone for Package {
    fn clone(&self) -> (r: Self)
        ensures
            r == *self,
    {
        Package {
            id: self.id,
            registry: self.registry.clone(),
            name: self.name.clone(),
            version: self.version.clone(),
            downloads: self.downloads,
        }
    }
}

impl Cursor for Package {
    open spec fn spec_cursor(&self) -> Seq<char> {
        spec_dec_digits(self.id as nat)
    }

    fn cursor(&self) -> (r: String) {
        id_to_string(self.id)
    }
}

} // verus!
