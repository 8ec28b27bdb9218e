//! Final output assembly: rendered blocks separated by blank lines, then
//! the collected reference definitions.

use vstd::prelude::*;

use crate::ast::{BlockNode, DocumentAst};
use crate::error::Error;
use crate::text::{spec_dec_digits, u64_to_string};

verus! {

/// Output generation from the rendered document.
pub trait Renderer {
    fn render(&self, document: &DocumentAst) -> Result<String, Error>;
}

pub open spec fn spec_block_text(b: BlockNode) -> Seq<char> {
    match b {
        BlockNode::Paragraph(t) => t@,
        BlockNode::TableHtml(t) => t@,
        BlockNode::RawHtml(t) => t@,
    }
}

/// Non-empty blocks followed by blank lines, in order.
pub open spec fn spec_render_blocks(blocks: Seq<BlockNode>) -> Seq<char>
    decreases blocks.len(),
{
    if blocks.len() == 0 {
        Seq::empty()
    } else {
        spec_render_blocks(blocks.drop_last()) + (if spec_block_text(blocks.last()).len() == 0 {
            Seq::<char>::empty()
        } else {
            spec_block_text(blocks.last()) + "\n\n"@
        })
    }
}

/// One footnote definition line.
pub open spec fn spec_footnote_line(idx: int, note: Seq<char>) -> Seq<char> {
    "[^"@ + spec_dec_digits(idx as nat) + "]: "@ + note + "\n"@
}

pub open spec fn spec_footnote_lines(notes: Seq<String>) -> Seq<char>
    decreases notes.len(),
{
    if notes.len() == 0 {
        Seq::empty()
    } else {
        spec_footnote_lines(notes.drop_last()) + spec_footnote_line(
            notes.len() as int,
            notes.last()@,
        )
    }
}

pub open spec fn spec_endnote_line(idx: int, note: Seq<char>) -> Seq<char> {
    "[^en"@ + spec_dec_digits(idx as nat) + "]: "@ + note + "\n"@
}

pub open spec fn spec_endnote_lines(notes: Seq<String>) -> Seq<char>
    decreases notes.len(),
{
    if notes.len() == 0 {
        Seq::empty()
    } else {
        spec_endnote_lines(notes.drop_last()) + spec_endnote_line(
            notes.len() as int,
            notes.last()@,
        )
    }
}

pub open spec fn spec_comment_line(id: Seq<char>, text: Seq<char>) -> Seq<char> {
    "[^c"@ + id + "]: "@ + text + "\n"@
}

pub open spec fn spec_comment_lines(comments: Seq<(String, String)>) -> Seq<char>
    decreases comments.len(),
{
    if comments.len() == 0 {
        Seq::empty()
    } else {
        spec_comment_lines(comments.drop_last()) + spec_comment_line(
            comments.last().0@,
            comments.last().1@,
        )
    }
}

/// The whole rendered document: the blocks, and when any references were
/// collected, a rule followed by the footnote, endnote and comment
/// definition lines.
pub open spec fn spec_render_document(doc: DocumentAst) -> Seq<char> {
    let body = spec_render_blocks(doc.blocks@);
    if doc.references.footnotes@.len() == 0 && doc.references.endnotes@.len() == 0
        && doc.references.comments@.len() == 0 {
        body
    } else {
        body + "---\n\n"@ + spec_footnote_lines(doc.references.footnotes@) + spec_endnote_lines(
            doc.references.endnotes@,
        ) + spec_comment_lines(doc.references.comments@)
    }
}

/// The default renderer: Markdown text with an appended references block.
#[derive(Debug)]
pub struct MarkdownRenderer;

impl MarkdownRenderer {
    /// Renders a document to its final text.
    pub fn render_document(&self, document: &DocumentAst) -> (r: String)
        ensures
            r@ == spec_render_document(*document),
    {
        let mut out = String::new();
        let nb = document.blocks.len();
        let mut i: usize = 0;
        proof {
            assert(document.blocks@.take(0) =~= Seq::<BlockNode>::empty());
            assert(out@ =~= spec_render_blocks(document.blocks@.take(0)));
        }
        while i < nb
            invariant
                nb == document.blocks@.len(),
                0 <= i <= nb,
                out@ == spec_render_blocks(document.blocks@.take(i as int)),
            decreases nb - i,
        {
            let ghost pre = out@;
            let rendered: &String = match &document.blocks[i] {
                BlockNode::Paragraph(t) => t,
                BlockNode::TableHtml(t) => t,
                BlockNode::RawHtml(t) => t,
            };
            if rendered.unicode_len() > 0 {
                out.append(rendered.as_str());
                out.append("\n\n");
            }
            proof {
                let bv = document.blocks@;
                assert(bv.take(i + 1).drop_last() =~= bv.take(i as int));
                assert(bv.take(i + 1).last() == bv[i as int]);
                if spec_block_text(bv[i as int]).len() == 0 {
                    assert(out@ =~= pre + Seq::<char>::empty());
                }
            }
            i = i + 1;
        }
        proof {
            assert(document.blocks@.take(nb as int) =~= document.blocks@);
        }

        let refs = &document.references;
        if refs.footnotes.len() > 0 || refs.endnotes.len() > 0 || refs.comments.len() > 0 {
            out.append("---\n\n");
            let nf = refs.footnotes.len();
            let mut j: usize = 0;
            let ghost base = out@;
            proof {
                assert(refs.footnotes@.take(0) =~= Seq::<String>::empty());
                assert(base + spec_footnote_lines(refs.footnotes@.take(0)) =~= base);
            }
            while j < nf
                invariant
                    nf == refs.footnotes@.len(),
                    0 <= j <= nf,
                    out@ == base + spec_footnote_lines(refs.footnotes@.take(j as int)),
                decreases nf - j,
            {
                out.append("[^");
                let num = u64_to_string((j as u64) + 1);
                out.append(num.as_str());
                out.append("]: ");
                out.append(refs.footnotes[j].as_str());
                out.append("\n");
                proof {
                    let fv = refs.footnotes@;
                    assert(fv.take(j + 1).drop_last() =~= fv.take(j as int));
                    assert(fv.take(j + 1).last() == fv[j as int]);
                }
                j = j + 1;
            }
            proof {
                assert(refs.footnotes@.take(nf as int) =~= refs.footnotes@);
            }

            let ne = refs.endnotes.len();
            let mut j2: usize = 0;
            let ghost base2 = out@;
            proof {
                assert(refs.endnotes@.take(0) =~= Seq::<String>::empty());
                assert(base2 + spec_endnote_lines(refs.endnotes@.take(0)) =~= base2);
            }
            while j2 < ne
                invariant
                    ne == refs.endnotes@.len(),
                    0 <= j2 <= ne,
                    out@ == base2 + spec_endnote_lines(refs.endnotes@.take(j2 as int)),
                decreases ne - j2,
            {
                out.append("[^en");
                let num = u64_to_string((j2 as u64) + 1);
                out.append(num.as_str());
                out.append("]: ");
                out.append(refs.endnotes[j2].as_str());
                out.append("\n");
                proof {
                    let ev = refs.endnotes@;
                    assert(ev.take(j2 + 1).drop_last() =~= ev.take(j2 as int));
                    assert(ev.take(j2 + 1).last() == ev[j2 as int]);
                }
                j2 = j2 + 1;
            }
            proof {
                assert(refs.endnotes@.take(ne as int) =~= refs.endnotes@);
            }

            let nc = refs.comments.len();
            let mut j3: usize = 0;
            let ghost base3 = out@;
            proof {
                assert(refs.comments@.take(0) =~= Seq::<(String, String)>::empty());
                assert(base3 + spec_comment_lines(refs.comments@.take(0)) =~= base3);
            }
            while j3 < nc
                invariant
                    nc == refs.comments@.len(),
                    0 <= j3 <= nc,
                    out@ == base3 + spec_comment_lines(refs.comments@.take(j3 as int)),
                decreases nc - j3,
            {
                out.append("[^c");
                out.append(refs.comments[j3].0.as_str());
                out.append("]: ");
                out.append(refs.comments[j3].1.as_str());
                out.append("\n");
                proof {
                    let cv = refs.comments@;
                    assert(cv.take(j3 + 1).drop_last() =~= cv.take(j3 as int));
                    assert(cv.take(j3 + 1).last() == cv[j3 as int]);
                }
                j3 = j3 + 1;
            }
            proof {
                assert(refs.comments@.take(nc as int) =~= refs.comments@);
            }
        }
        out
    }
}

impl Renderer for MarkdownRenderer {
    fn render(&self, document: &DocumentAst) -> Result<String, Error> {
        Ok(self.render_document(document))
    }
}

} // verus!
