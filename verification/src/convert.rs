//! The conversion pipeline: resolvers and the registry are built from the
//! document tree, blocks are extracted, references are attached, strict
//! validation is applied, and the renderer produces the final text.
//!
//! The extractor and renderer are trait components that users may replace,
//! so nothing can be promised across those two calls. Every step this crate
//! decides carries an exact contract instead: the context construction
//! (build_context), the reference attachment and strict gate
//! (attach_references_and_validate, validate_references), and the default
//! components' own extract_tree and render_document.

use vstd::prelude::*;

use crate::ast::DocumentAst;
use crate::context::{ConversionContext, spec_comment_text_entries, spec_i64_text_view,
    spec_note_text_entries, spec_pair_view};
use crate::error::Error;
use crate::extractor::{AstExtractor, DocxExtractor};
use crate::image::ImageExtractor;
use crate::model::{CommentInput, DocumentTree, NoteInput, RelationshipMap};
use crate::numbering::{NumberingResolver, spec_build_abstracts, spec_build_instances,
    spec_build_overrides, spec_build_shifts};
use crate::renderer::{MarkdownRenderer, Renderer};
use crate::styles::{StyleResolver, clone_styles_input};
use crate::text::{join_strings, spec_join};
use crate::{ConvertOptions, ImageHandling};

verus! {

/// Strict-mode gate: under strict validation a non-empty diagnostic list
/// fails the conversion with one aggregated error naming every unresolved
/// reference; otherwise the conversion proceeds.
pub fn validate_references(missing: &Vec<String>, strict: bool) -> (r: Result<(), Error>)
    ensures
        (r is Err) <==> (strict && missing@.len() > 0),
        r is Err ==> r->Err_0 is MissingReference,
        r is Err ==> r->Err_0->MissingReference_0@ == spec_join(
            missing@.map_values(|x: String| x@),
            ", "@,
        ),
{
    if strict && missing.len() > 0 {
        let msg = join_strings(missing, ", ");
        Err(Error::MissingReference(msg))
    } else {
        Ok(())
    }
}

/// An equal copy of the conversion options.
pub fn clone_options(o: &ConvertOptions) -> (r: ConvertOptions)
    ensures
        r == *o,
{
    ConvertOptions {
        image_handling: match &o.image_handling {
            ImageHandling::SaveToDir(d) => ImageHandling::SaveToDir(d.clone()),
            ImageHandling::Inline => ImageHandling::Inline,
            ImageHandling::Skip => ImageHandling::Skip,
        },
        preserve_whitespace: o.preserve_whitespace,
        html_underline: o.html_underline,
        html_strikethrough: o.html_strikethrough,
        strict_reference_validation: o.strict_reference_validation,
    }
}

/// Builds the conversion context a document tree calls for: its
/// relationships, its numbering definitions resolved, its note and comment
/// texts indexed, its style sheet, and empty registries.
pub fn build_context(
    tree: &DocumentTree,
    options: &ConvertOptions,
    image_extractor: ImageExtractor,
) -> (r: ConversionContext)
    ensures
        r.wf(),
        spec_pair_view(r.rels.entries@) == spec_pair_view(tree.relationships@),
        r.options == *options,
        r.image_extractor == image_extractor,
        r.style_resolver.styles.default_char == tree.styles.default_char,
        r.style_resolver.styles.default_para == tree.styles.default_para,
        r.style_resolver.styles.styles@ == tree.styles.styles@,
        r.numbering.counters@.len() == 0,
        match tree.numbering {
            Option::Some(inp) => r.numbering.num_instances@ == spec_build_instances(
                inp.numberings@,
            ) && r.numbering.overrides@ == spec_build_overrides(inp.numberings@)
                && r.numbering.level_shifts@ == spec_build_shifts(inp.abstract_numberings@)
                && r.numbering.spec_abs_view() == spec_build_abstracts(inp.abstract_numberings@),
            Option::None => r.numbering.num_instances@.len() == 0 && r.numbering.overrides@.len()
                == 0 && r.numbering.level_shifts@.len() == 0 && r.numbering.abstract_nums@.len()
                == 0,
        },
        r.footnotes@.len() == 0,
        r.footnote_index_by_id@.len() == 0,
        r.endnotes@.len() == 0,
        r.endnote_index_by_id@.len() == 0,
        r.comments@.len() == 0,
        r.seen_comment_ids@.len() == 0,
        r.missing_references@.len() == 0,
        spec_i64_text_view(r.footnote_text_by_id@) == (match tree.footnotes {
            Option::Some(notes) => spec_note_text_entries(notes@),
            Option::None => Seq::<(i64, Seq<char>)>::empty(),
        }),
        spec_i64_text_view(r.endnote_text_by_id@) == (match tree.endnotes {
            Option::Some(notes) => spec_note_text_entries(notes@),
            Option::None => Seq::<(i64, Seq<char>)>::empty(),
        }),
        spec_pair_view(r.comment_text_by_id@) == (match tree.comments {
            Option::Some(cs) => spec_comment_text_entries(cs@),
            Option::None => Seq::<(Seq<char>, Seq<char>)>::empty(),
        }),
{
    let mut rels = RelationshipMap::new();
    let nr = tree.relationships.len();
    let mut i: usize = 0;
    proof {
        assert(spec_pair_view(rels.entries@) =~= spec_pair_view(tree.relationships@.take(0)));
    }
    while i < nr
        invariant
            nr == tree.relationships@.len(),
            0 <= i <= nr,
            spec_pair_view(rels.entries@) == spec_pair_view(tree.relationships@.take(i as int)),
        decreases nr - i,
    {
        let ghost pre = rels.entries@;
        rels.insert(tree.relationships[i].0.clone(), tree.relationships[i].1.clone());
        proof {
            let p = tree.relationships@[i as int];
            assert(spec_pair_view(rels.entries@) =~= spec_pair_view(pre).push((p.0@, p.1@)));
            assert(spec_pair_view(tree.relationships@.take(i + 1)) =~= spec_pair_view(
                tree.relationships@.take(i as int),
            ).push((p.0@, p.1@)));
        }
        i = i + 1;
    }
    proof {
        assert(tree.relationships@.take(nr as int) =~= tree.relationships@);
    }

    let numbering = NumberingResolver::new(
        match &tree.numbering {
            Option::Some(n) => Option::Some(n),
            Option::None => Option::None,
        },
    );
    let style_resolver = StyleResolver::new(clone_styles_input(&tree.styles));

    let footnotes_ref: Option<&Vec<NoteInput>> = match &tree.footnotes {
        Option::Some(f) => Option::Some(f),
        Option::None => Option::None,
    };
    let endnotes_ref: Option<&Vec<NoteInput>> = match &tree.endnotes {
        Option::Some(e) => Option::Some(e),
        Option::None => Option::None,
    };
    let comments_ref: Option<&Vec<CommentInput>> = match &tree.comments {
        Option::Some(cm) => Option::Some(cm),
        Option::None => Option::None,
    };
    ConversionContext::new(
        rels,
        numbering,
        image_extractor,
        clone_options(options),
        comments_ref,
        footnotes_ref,
        endnotes_ref,
        style_resolver,
    )
}

/// Attaches the registry's collected definitions to the extracted document
/// and applies the strict-mode gate: under strict validation the
/// diagnostics are drained and a non-empty list fails with one aggregated
/// error naming every unresolved reference as kind:id, comma-joined; a
/// relaxed conversion is never failed by missing references.
pub fn attach_references_and_validate(
    context: &mut ConversionContext,
    document: &mut DocumentAst,
    strict: bool,
) -> (r: Result<(), Error>)
    ensures
        final(document).blocks@ == old(document).blocks@,
        final(document).references.footnotes@ == old(context).footnotes@,
        final(document).references.endnotes@ == old(context).endnotes@,
        final(document).references.comments@ == old(context).comments@,
        (r is Err) <==> (strict && old(context).missing_references@.len() > 0),
        r is Err ==> r->Err_0 is MissingReference,
        r is Err ==> r->Err_0->MissingReference_0@ == spec_join(
            old(context).missing_references@.map_values(|x: String| x@),
            ", "@,
        ),
        strict ==> final(context).missing_references@.len() == 0,
        !strict ==> final(context).missing_references@ == old(context).missing_references@,
        final(context).rels == old(context).rels,
        final(context).numbering == old(context).numbering,
        final(context).image_extractor == old(context).image_extractor,
        final(context).options == old(context).options,
        final(context).style_resolver == old(context).style_resolver,
        final(context).footnotes@ == old(context).footnotes@,
        final(context).footnote_index_by_id@ == old(context).footnote_index_by_id@,
        final(context).footnote_text_by_id@ == old(context).footnote_text_by_id@,
        final(context).endnotes@ == old(context).endnotes@,
        final(context).endnote_index_by_id@ == old(context).endnote_index_by_id@,
        final(context).endnote_text_by_id@ == old(context).endnote_text_by_id@,
        final(context).comments@ == old(context).comments@,
        final(context).seen_comment_ids@ == old(context).seen_comment_ids@,
        final(context).comment_text_by_id@ == old(context).comment_text_by_id@,
{
    document.references = context.reference_definitions();
    if strict {
        let missing = context.take_missing_references();
        validate_references(&missing, true)
    } else {
        Ok(())
    }
}

/// The converter: an extractor that turns the body into blocks, and a
/// renderer that turns blocks and references into the final text.
pub struct DocxToMarkdown<E, R> {
    pub options: ConvertOptions,
    pub extractor: E,
    pub renderer: R,
}

impl DocxToMarkdown<DocxExtractor, MarkdownRenderer> {
    /// A converter with the default extraction and rendering pipeline.
    pub fn new(options: ConvertOptions) -> (r: DocxToMarkdown<DocxExtractor, MarkdownRenderer>)
        ensures
            r.options == options,
    {
        DocxToMarkdown { options, extractor: DocxExtractor, renderer: MarkdownRenderer }
    }

    /// A converter with default options: inline images, trimmed whitespace,
    /// HTML underline, Markdown strikethrough, relaxed reference handling.
    pub fn with_defaults() -> (r: DocxToMarkdown<DocxExtractor, MarkdownRenderer>)
        ensures
            r.options.image_handling is Inline,
            !r.options.preserve_whitespace,
            r.options.html_underline,
            !r.options.html_strikethrough,
            !r.options.strict_reference_validation,
    {
        DocxToMarkdown {
            options: ConvertOptions {
                image_handling: ImageHandling::Inline,
                preserve_whitespace: false,
                html_underline: true,
                html_strikethrough: false,
                strict_reference_validation: false,
            },
            extractor: DocxExtractor,
            renderer: MarkdownRenderer,
        }
    }
}

impl<E: AstExtractor, R: Renderer> DocxToMarkdown<E, R> {
    /// A converter with custom extraction and rendering components. The
    /// lifecycle stays the same: build the context, extract blocks, attach
    /// references, validate strictly when asked, render.
    pub fn with_components(options: ConvertOptions, extractor: E, renderer: R) -> (r:
        DocxToMarkdown<E, R>)
        ensures
            r.options == options,
    {
        DocxToMarkdown { options, extractor, renderer }
    }

    /// Converts an already-parsed document tree, reading image bytes
    /// through the given extractor. Queued image files remain on the
    /// extractor for the caller to write.
    ///
    /// The extractor and renderer are the caller's trait components, so
    /// this function promises nothing of their outcomes; each step it
    /// decides itself is an exactly contracted call: build_context
    /// constructs the context, and attach_references_and_validate fixes the
    /// references and the strict-mode failure for whatever the extractor
    /// returned.
    pub fn convert_inner(&self, tree: &DocumentTree, image_extractor: &mut ImageExtractor) -> (r:
        Result<String, Error>)
    {
        let mut extractor_local = ImageExtractor::new_skip();
        core::mem::swap(image_extractor, &mut extractor_local);
        let mut context = build_context(tree, &self.options, extractor_local);

        let mut document = match self.extractor.extract(&tree.body, &mut context) {
            Ok(d) => d,
            Err(e) => {
                return Err(e);
            },
        };
        match attach_references_and_validate(
            &mut context,
            &mut document,
            self.options.strict_reference_validation,
        ) {
            Ok(()) => {
            },
            Err(e) => {
                return Err(e);
            },
        }

        let mut out_extractor = context.image_extractor;
        core::mem::swap(image_extractor, &mut out_extractor);

        self.renderer.render(&document)
    }

    /// Converts a document tree, building the image extractor from the
    /// options and the archive bytes when they are given: inline and
    /// directory modes read from the bytes, and without bytes (or in skip
    /// mode) images are skipped.
    pub fn convert_tree(&self, tree: &DocumentTree, archive_bytes: Option<&[u8]>) -> (r: Result<
        String,
        Error,
    >)
    {
        let mut ex: ImageExtractor = match (&self.options.image_handling, archive_bytes) {
            (ImageHandling::Skip, _) => ImageExtractor::new_skip(),
            (ImageHandling::Inline, Option::Some(b)) => match ImageExtractor::new_inline_from_bytes(
                b,
            ) {
                Ok(x) => x,
                Err(e) => {
                    return Err(e);
                },
            },
            (ImageHandling::SaveToDir(d), Option::Some(b)) => {
                match ImageExtractor::new_with_dir_from_bytes(b, d.clone()) {
                    Ok(x) => x,
                    Err(e) => {
                        return Err(e);
                    },
                }
            },
            (_, Option::None) => ImageExtractor::new_skip(),
        };
        self.convert_inner(tree, &mut ex)
    }
}

} // verus!
