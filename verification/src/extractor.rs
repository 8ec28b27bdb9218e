//! Walking the document body: each paragraph, table, structured document
//! tag and bookmark becomes a rendered block, in document order.

use vstd::prelude::*;

use crate::ast::{BlockNode, DocumentAst};
use crate::context::{ConversionContext, lemma_ctx_growth_refl, lemma_ctx_growth_trans,
    spec_ctx_growth};
use crate::error::Error;
use crate::escape::escape_html_attr;
use crate::model::BodyNode;
use crate::paragraph::ParagraphConverter;
use crate::table::TableConverter;

verus! {

/// Block extraction from the document body. The default implementation
/// walks the body in order; custom extractors may replace it.
pub trait AstExtractor {
    fn extract(&self, body: &Vec<BodyNode>, context: &mut ConversionContext) -> Result<
        DocumentAst,
        Error,
    >;
}

pub open spec fn spec_body_size(n: BodyNode) -> nat
    decreases n,
{
    match n {
        BodyNode::Sdt(children) => 1 + spec_body_list_size(children@),
        _ => 1,
    }
}

pub open spec fn spec_body_list_size(s: Seq<BodyNode>) -> nat
    decreases s,
{
    if s.len() == 0 {
        0
    } else {
        spec_body_size(s[0]) + spec_body_list_size(s.skip(1))
    }
}

proof fn lemma_body_elem_size(s: Seq<BodyNode>, i: int)
    requires
        0 <= i < s.len(),
    ensures
        spec_body_size(s[i]) <= spec_body_list_size(s),
    decreases s.len(),
{
    if i > 0 {
        lemma_body_elem_size(s.skip(1), i - 1);
        assert(s.skip(1)[i - 1] == s[i]);
    }
}

/// How many hyperlinks with embedded images the body holds; when none, the
/// walk never fails.
pub open spec fn spec_body_node_no_link_images(n: BodyNode) -> nat
    decreases n,
{
    match n {
        BodyNode::Paragraph(p) => crate::paragraph::spec_para_no_link_images(p),
        BodyNode::Table(t) => crate::table::spec_table_no_link_images(t),
        BodyNode::Sdt(children) => spec_body_no_link_images(children@),
        BodyNode::BookmarkStart(_) => 0,
    }
}

pub open spec fn spec_body_no_link_images(s: Seq<BodyNode>) -> nat
    decreases s,
{
    if s.len() == 0 {
        0
    } else {
        spec_body_node_no_link_images(s[0]) + spec_body_no_link_images(s.skip(1))
    }
}

proof fn lemma_body_nli_elem(s: Seq<BodyNode>, i: int)
    requires
        0 <= i < s.len(),
    ensures
        spec_body_node_no_link_images(s[i]) <= spec_body_no_link_images(s),
    decreases s.len(),
{
    if i > 0 {
        lemma_body_nli_elem(s.skip(1), i - 1);
        assert(s.skip(1)[i - 1] == s[i]);
    }
}

/// The blocks one body member may produce, in order: a paragraph yields at
/// most one non-empty paragraph block, a table exactly one table block, a
/// named bookmark exactly its anchor tag. Structured document tags are
/// unconstrained here; their members recurse through the same walk.
pub open spec fn spec_blocks_of_node(n: BodyNode, bs: Seq<BlockNode>) -> bool {
    match n {
        BodyNode::Paragraph(_) => bs.len() <= 1 && (bs.len() == 1 ==> bs[0] is Paragraph
            && bs[0]->Paragraph_0@.len() > 0),
        BodyNode::Table(_) => bs.len() == 1 && bs[0] is TableHtml,
        BodyNode::BookmarkStart(name) => match name {
            Option::Some(nm) => bs.len() == 1 && bs[0] is RawHtml && bs[0]->RawHtml_0@
                == "<a id=\""@ + crate::escape::spec_escape_html_attr(nm@) + "\"></a>"@,
            Option::None => bs.len() == 0,
        },
        BodyNode::Sdt(_) => true,
    }
}

/// A body without structured document tags at the top level.
pub open spec fn spec_body_flat(s: Seq<BodyNode>) -> bool {
    forall|i: int| 0 <= i < s.len() ==> !((#[trigger] s[i]) is Sdt)
}

/// The blocks of a flat body, against a record of which members emitted
/// one: tables and named bookmarks always do, paragraphs exactly when their
/// rendering is non-empty, and order is document order.
pub open spec fn spec_flat_blocks(
    s: Seq<BodyNode>,
    bs: Seq<BlockNode>,
    emitted: Seq<bool>,
) -> bool
    decreases s.len(),
{
    if s.len() == 0 {
        bs.len() == 0
    } else if emitted.len() != s.len() {
        false
    } else if emitted.last() {
        bs.len() > 0 && spec_blocks_of_node(s.last(), seq![bs.last()]) && spec_flat_blocks(
            s.drop_last(),
            bs.drop_last(),
            emitted.drop_last(),
        )
    } else {
        spec_blocks_of_node(s.last(), Seq::empty()) && spec_flat_blocks(
            s.drop_last(),
            bs,
            emitted.drop_last(),
        )
    }
}

/// The default extractor over the document tree.
#[derive(Debug)]
pub struct DocxExtractor;

impl DocxExtractor {
    fn extract_content(
        &self,
        content: &BodyNode,
        context: &mut ConversionContext,
        output: &mut DocumentAst,
    ) -> (r: Result<(), Error>)
        requires
            old(context).wf(),
        ensures
            final(context).wf(),
            spec_ctx_growth(*old(context), *final(context)),
            spec_body_node_no_link_images(*content) == 0 ==> r is Ok,
            final(output).references == old(output).references,
            final(output).blocks@.len() >= old(output).blocks@.len(),
            final(output).blocks@.take(old(output).blocks@.len() as int) == old(output).blocks@,
            r is Ok ==> spec_blocks_of_node(
                *content,
                final(output).blocks@.skip(old(output).blocks@.len() as int),
            ),
        decreases spec_body_size(*content),
    {
        let ghost blocks0 = output.blocks@;
        let ghost ctx0 = *context;
        proof {
            lemma_ctx_growth_refl(ctx0);
        }
        match content {
            BodyNode::Paragraph(para) => {
                let converted = match ParagraphConverter::convert(para, context) {
                    Ok(c) => c,
                    Err(e) => {
                        proof {
                            if spec_body_node_no_link_images(*content) == 0 {
                                assert(false);
                            }
                        }
                        return Err(e);
                    },
                };
                if converted.unicode_len() > 0 {
                    output.blocks.push(BlockNode::Paragraph(converted));
                    proof {
                        assert(output.blocks@.take(blocks0.len() as int) =~= blocks0);
                        assert(output.blocks@.skip(blocks0.len() as int) =~= seq![
                            output.blocks@.last(),
                        ]);
                    }
                } else {
                    proof {
                        assert(output.blocks@.take(blocks0.len() as int) =~= blocks0);
                        assert(output.blocks@.skip(blocks0.len() as int)
                            =~= Seq::<BlockNode>::empty());
                    }
                }
            },
            BodyNode::Table(table) => {
                let converted = match TableConverter::convert(table, context) {
                    Ok(c) => c,
                    Err(e) => {
                        proof {
                            if spec_body_node_no_link_images(*content) == 0 {
                                assert(false);
                            }
                        }
                        return Err(e);
                    },
                };
                output.blocks.push(BlockNode::TableHtml(converted));
                proof {
                    assert(output.blocks@.take(blocks0.len() as int) =~= blocks0);
                    assert(output.blocks@.skip(blocks0.len() as int) =~= seq![
                        output.blocks@.last(),
                    ]);
                }
            },
            BodyNode::Sdt(children) => {
                let m = children.len();
                let mut j: usize = 0;
                while j < m
                    invariant
                        old(context).wf(),
                        context.wf(),
                        m == children@.len(),
                        0 <= j <= m,
                        ctx0 == *old(context),
                        spec_ctx_growth(ctx0, *context),
                        spec_body_size(*content) == 1 + spec_body_list_size(children@),
                        spec_body_node_no_link_images(*content) == spec_body_no_link_images(
                            children@,
                        ),
                        blocks0 == old(output).blocks@,
                        output.references == old(output).references,
                        output.blocks@.len() >= blocks0.len(),
                        output.blocks@.take(blocks0.len() as int) == blocks0,
                    decreases m - j,
                {
                    let ghost pre = *context;
                    let ghost out_pre = output.blocks@;
                    proof {
                        lemma_body_elem_size(children@, j as int);
                        if spec_body_node_no_link_images(*content) == 0 {
                            lemma_body_nli_elem(children@, j as int);
                        }
                    }
                    let res = self.extract_content(&children[j], context, output);
                    proof {
                        lemma_ctx_growth_trans(ctx0, pre, *context);
                    }
                    match res {
                        Ok(()) => {
                            proof {
                                assert(output.blocks@.take(blocks0.len() as int)
                                    =~= output.blocks@.take(out_pre.len() as int).take(
                                    blocks0.len() as int,
                                ));
                            }
                        },
                        Err(e) => {
                            proof {
                                if spec_body_node_no_link_images(*content) == 0 {
                                    assert(false);
                                }
                                assert(output.blocks@.take(blocks0.len() as int)
                                    =~= output.blocks@.take(out_pre.len() as int).take(
                                    blocks0.len() as int,
                                ));
                            }
                            return Err(e);
                        },
                    }
                    j = j + 1;
                }
                proof {
                    assert(children@.take(m as int) =~= children@);
                }
            },
            BodyNode::BookmarkStart(name) => {
                if let Option::Some(nm) = name {
                    let mut tag = String::from_str("<a id=\"");
                    let esc = escape_html_attr(nm.as_str());
                    tag.append(esc.as_str());
                    tag.append("\"></a>");
                    proof {
                        assert(tag@ =~= "<a id=\""@ + crate::escape::spec_escape_html_attr(nm@)
                            + "\"></a>"@);
                    }
                    output.blocks.push(BlockNode::RawHtml(tag));
                    proof {
                        assert(output.blocks@.take(blocks0.len() as int) =~= blocks0);
                        assert(output.blocks@.skip(blocks0.len() as int) =~= seq![
                            output.blocks@.last(),
                        ]);
                    }
                } else {
                    proof {
                        assert(output.blocks@.skip(blocks0.len() as int)
                            =~= Seq::<BlockNode>::empty());
                    }
                }
            },
        }
        Ok(())
    }

    /// Walks the body in document order, producing the rendered blocks.
    pub fn extract_tree(&self, body: &Vec<BodyNode>, context: &mut ConversionContext) -> (r:
        Result<DocumentAst, Error>)
        requires
            old(context).wf(),
        ensures
            final(context).wf(),
            spec_ctx_growth(*old(context), *final(context)),
            spec_body_no_link_images(body@) == 0 ==> r is Ok,
            r is Ok ==> r->Ok_0.references.footnotes@.len() == 0
                && r->Ok_0.references.endnotes@.len() == 0 && r->Ok_0.references.comments@.len()
                == 0,
            // For a body without structured document tags, the blocks
            // correspond to the members in document order and kind.
            spec_body_flat(body@) && r is Ok ==> exists|em: Seq<bool>|
                #[trigger] spec_flat_blocks(body@, r->Ok_0.blocks@, em),
    {
        let ghost ctx0 = *context;
        proof {
            lemma_ctx_growth_refl(ctx0);
        }
        let mut doc = DocumentAst::empty();
        let ghost mut em: Seq<bool> = Seq::empty();
        let n = body.len();
        let mut i: usize = 0;
        proof {
            assert(body@.take(0) =~= Seq::<BodyNode>::empty());
        }
        while i < n
            invariant
                old(context).wf(),
                context.wf(),
                n == body@.len(),
                0 <= i <= n,
                ctx0 == *old(context),
                spec_ctx_growth(ctx0, *context),
                doc.references.footnotes@.len() == 0,
                doc.references.endnotes@.len() == 0,
                doc.references.comments@.len() == 0,
                em.len() == i,
                spec_body_flat(body@) ==> spec_flat_blocks(body@.take(i as int), doc.blocks@, em),
            decreases n - i,
        {
            let ghost pre = *context;
            let ghost doc_pre = doc.blocks@;
            proof {
                if spec_body_no_link_images(body@) == 0 {
                    lemma_body_nli_elem(body@, i as int);
                }
            }
            let res = self.extract_content(&body[i], context, &mut doc);
            proof {
                lemma_ctx_growth_trans(ctx0, pre, *context);
            }
            match res {
                Ok(()) => {
                    proof {
                        let delta = doc.blocks@.skip(doc_pre.len() as int);
                        if spec_body_flat(body@) {
                            assert(!(body@[i as int] is Sdt));
                            assert(spec_blocks_of_node(body@[i as int], delta));
                            let flag = delta.len() == 1;
                            assert(body@.take(i + 1).drop_last() =~= body@.take(i as int));
                            assert(body@.take(i + 1).last() == body@[i as int]);
                            assert(em.push(flag).drop_last() =~= em);
                            if flag {
                                assert(doc.blocks@.len() == doc_pre.len() + 1);
                                assert(doc.blocks@.drop_last() =~= doc_pre);
                                assert(delta =~= seq![doc.blocks@.last()]);
                            } else {
                                assert(delta.len() == 0);
                                assert(doc.blocks@ =~= doc_pre);
                            }
                            em = em.push(flag);
                            assert(spec_flat_blocks(body@.take(i + 1), doc.blocks@, em));
                        } else {
                            em = em.push(delta.len() == 1);
                        }
                    }
                },
                Err(e) => {
                    proof {
                        if spec_body_no_link_images(body@) == 0 {
                            assert(false);
                        }
                    }
                    return Err(e);
                },
            }
            i = i + 1;
        }
        proof {
            assert(body@.take(n as int) =~= body@);
            if spec_body_flat(body@) {
                assert(spec_flat_blocks(body@, doc.blocks@, em));
            }
        }
        Ok(doc)
    }
}

impl AstExtractor for DocxExtractor {
    fn extract(&self, body: &Vec<BodyNode>, context: &mut ConversionContext) -> Result<
        DocumentAst,
        Error,
    > {
        // A no-op on every state this crate's constructors build; it lets
        // the walk start from any caller-assembled context.
        context.clamp_counter_rows();
        self.extract_tree(body, context)
    }
}

} // verus!
