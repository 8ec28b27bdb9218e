//! Hyperlink target resolution through the relationship table.

use vstd::prelude::*;

use crate::model::{RelationshipMap, spec_lookup_str};

verus! {

/// Resolver for hyperlink targets.
pub struct HyperlinkResolver;

impl HyperlinkResolver {
    /// Resolves a relationship id to its target URL.
    pub fn resolve(r_id: &str, rels: &RelationshipMap) -> (r: Option<String>)
        ensures
            match r {
                Option::Some(t) => spec_lookup_str(rels.entries@, r_id@) == Option::Some(t@),
                Option::None => spec_lookup_str(rels.entries@, r_id@) is None,
            },
    {
        rels.get(r_id)
    }
}

} // verus!
