//! The rendered document: an ordered list of blocks plus the collected
//! reference definitions.

use vstd::prelude::*;

verus! {

#[derive(Clone, Debug)]
pub enum BlockNode {
    Paragraph(String),
    TableHtml(String),
    RawHtml(String),
}

/// Ordered footnote and endnote bodies, and (id, body) comment pairs, in
/// first-registration order.
#[derive(Clone, Debug)]
pub struct ReferenceDefinitions {
    pub footnotes: Vec<String>,
    pub endnotes: Vec<String>,
    pub comments: Vec<(String, String)>,
}

impl ReferenceDefinitions {
    pub fn empty() -> (r: ReferenceDefinitions)
        ensures
            r.footnotes@.len() == 0,
            r.endnotes@.len() == 0,
            r.comments@.len() == 0,
    {
        ReferenceDefinitions { footnotes: Vec::new(), endnotes: Vec::new(), comments: Vec::new() }
    }
}

#[derive(Clone, Debug)]
pub struct DocumentAst {
    pub blocks: Vec<BlockNode>,
    pub references: ReferenceDefinitions,
}

impl DocumentAst {
    pub fn empty() -> (r: DocumentAst)
        ensures
            r.blocks@.len() == 0,
            r.references.footnotes@.len() == 0,
            r.references.endnotes@.len() == 0,
            r.references.comments@.len() == 0,
    {
        DocumentAst { blocks: Vec::new(), references: ReferenceDefinitions::empty() }
    }
}

} // verus!
