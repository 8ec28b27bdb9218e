//! Run conversion: extracting a run's visible text (tabs, breaks, symbols,
//! images, note and comment markers) and wrapping it in its effective
//! formatting.

use vstd::prelude::*;

use crate::context::{ConversionContext, lemma_ctx_growth_refl, lemma_ctx_growth_trans,
    lemma_register_comment_growth, lemma_register_endnote_growth, lemma_register_footnote_growth,
    spec_ctx_growth};
use crate::error::Error;
use crate::model::{BreakKind, CharProps, RunContentNode, RunNode};
use crate::styles::spec_resolve_run;
use crate::text::{parse_i64, push_char};

verus! {

/// The text a stateless run item contributes, or None for items that
/// consult or advance shared state (images, note and comment references,
/// symbol decoding).
pub open spec fn spec_run_item_text(it: RunContentNode) -> Option<Seq<char>> {
    match it {
        RunContentNode::Text(t) => Option::Some(t@),
        RunContentNode::Break(k) => match k {
            Option::Some(BreakKind::Page) => Option::Some("\n\n---\n\n"@),
            Option::Some(BreakKind::Column) => Option::Some("\n\n"@),
            _ => Option::Some("\n"@),
        },
        RunContentNode::Tab => Option::Some("\t"@),
        RunContentNode::CarriageReturn => Option::Some("\n"@),
        RunContentNode::InstrText(_) => Option::Some(Seq::empty()),
        RunContentNode::DelInstrText(_) => Option::Some(Seq::empty()),
        RunContentNode::DelText(_) => Option::Some(Seq::empty()),
        RunContentNode::FieldChar(_) => Option::Some(Seq::empty()),
        _ => Option::None,
    }
}

/// Whether every item of the run is stateless.
pub open spec fn spec_run_plain(content: Seq<RunContentNode>) -> bool {
    forall|i: int| 0 <= i < content.len() ==> spec_run_item_text(#[trigger] content[i]) is Some
}

/// The concatenated text of a stateless run.
pub open spec fn spec_run_plain_text(content: Seq<RunContentNode>) -> Seq<char>
    decreases content.len(),
{
    if content.len() == 0 {
        Seq::empty()
    } else {
        spec_run_plain_text(content.drop_last()) + (match spec_run_item_text(content.last()) {
            Option::Some(t) => t,
            Option::None => Seq::empty(),
        })
    }
}

pub open spec fn spec_is_on(o: Option<bool>) -> bool {
    o == Option::Some(true)
}

/// Formatting wrappers in rising order: underline (when HTML is enabled),
/// strike, then the bold/italic combination.
pub open spec fn spec_apply_run_formatting(
    text: Seq<char>,
    props: CharProps,
    html_underline: bool,
    html_strikethrough: bool,
) -> Seq<char> {
    let is_bold = spec_is_on(props.bold);
    let is_italic = spec_is_on(props.italics);
    let has_underline = props.underline is Some;
    let has_strike = spec_is_on(props.strike);
    let t1 = if has_underline && html_underline {
        "<u>"@ + text + "</u>"@
    } else {
        text
    };
    let t2 = if has_strike {
        if html_strikethrough {
            "<s>"@ + t1 + "</s>"@
        } else {
            "~~"@ + t1 + "~~"@
        }
    } else {
        t1
    };
    if is_bold && is_italic {
        "<strong>*"@ + t2 + "*</strong>"@
    } else if is_bold {
        "<strong>"@ + t2 + "</strong>"@
    } else if is_italic {
        "*"@ + t2 + "*"@
    } else {
        t2
    }
}

/// Whether a run carries no embedded images; such a run's conversion never
/// fails.
pub open spec fn spec_run_no_images(content: Seq<RunContentNode>) -> bool {
    forall|i: int|
        0 <= i < content.len() ==> !((#[trigger] content[i]) is Drawing || content[i] is Pict)
}

/// Converter for run elements.
pub struct RunConverter;

impl RunConverter {
    /// Applies text formatting based on resolved run properties.
    fn apply_formatting(text: String, props: &CharProps, context: &ConversionContext) -> (r:
        String)
        ensures
            r@ == spec_apply_run_formatting(
                text@,
                *props,
                context.options.html_underline,
                context.options.html_strikethrough,
            ),
    {
        let is_bold = matches!(props.bold, Option::Some(true));
        let is_italic = matches!(props.italics, Option::Some(true));
        let has_underline = props.underline.is_some();
        let has_strike = matches!(props.strike, Option::Some(true));

        let mut result = text;
        if has_underline && context.html_underline_enabled() {
            let mut w = String::from_str("<u>");
            w.append(result.as_str());
            w.append("</u>");
            result = w;
        }
        if has_strike {
            if context.html_strikethrough_enabled() {
                let mut w = String::from_str("<s>");
                w.append(result.as_str());
                w.append("</s>");
                result = w;
            } else {
                let mut w = String::from_str("~~");
                w.append(result.as_str());
                w.append("~~");
                result = w;
            }
        }
        if is_bold && is_italic {
            let mut w = String::from_str("<strong>*");
            w.append(result.as_str());
            w.append("*</strong>");
            result = w;
        } else if is_bold {
            let mut w = String::from_str("<strong>");
            w.append(result.as_str());
            w.append("</strong>");
            result = w;
        } else if is_italic {
            let mut w = String::from_str("*");
            w.append(result.as_str());
            w.append("*");
            result = w;
        }
        result
    }

    /// Converts a run to text with its effective formatting applied. State
    /// only grows: registered references keep their indices and order. For
    /// a run of stateless items the result is pinned exactly: its visible
    /// text wrapped in the formatting resolved through the style sheet.
    pub fn convert(run: &RunNode, context: &mut ConversionContext, para_style_id: Option<&str>) -> (
        r: Result<String, Error>)
        requires
            old(context).wf(),
        ensures
            final(context).wf(),
            spec_ctx_growth(*old(context), *final(context)),
            spec_run_no_images(run.content@) ==> r is Ok,
            spec_run_plain(run.content@) ==> {
                &&& *final(context) == *old(context)
                &&& r is Ok
                &&& ({
                    let text = spec_run_plain_text(run.content@);
                    let direct = match run.property {
                        Option::Some(p) => Option::Some(p.props),
                        Option::None => Option::None,
                    };
                    let run_sid = match run.property {
                        Option::Some(p) => match p.style_id {
                            Option::Some(s) => Option::Some(s@),
                            Option::None => Option::None,
                        },
                        Option::None => Option::None,
                    };
                    let psid = match para_style_id {
                        Option::Some(s) => Option::Some(s@),
                        Option::None => Option::None,
                    };
                    if text.len() == 0 {
                        r->Ok_0@ == Seq::<char>::empty()
                    } else {
                        r->Ok_0@ == spec_apply_run_formatting(
                            text,
                            spec_resolve_run(
                                old(context).style_resolver.styles,
                                direct,
                                run_sid,
                                psid,
                            ),
                            old(context).options.html_underline,
                            old(context).options.html_strikethrough,
                        )
                    }
                })
            },
    {
        let ghost ctx0 = *context;
        let mut text = String::new();
        let n = run.content.len();
        let mut i: usize = 0;
        proof {
            lemma_ctx_growth_refl(ctx0);
            assert(run.content@.take(0) =~= Seq::<RunContentNode>::empty());
        }
        while i < n
            invariant
                old(context).wf(),
                context.wf(),
                n == run.content@.len(),
                0 <= i <= n,
                ctx0 == *old(context),
                spec_ctx_growth(ctx0, *context),
                spec_run_plain(run.content@.take(i as int)) ==> (*context == ctx0 && text@
                    == spec_run_plain_text(run.content@.take(i as int))),
            decreases n - i,
        {
            let ghost pre = *context;
            let ghost pre_text = text@;
            match &run.content[i] {
                RunContentNode::Text(t) => {
                    text.append(t.as_str());
                },
                RunContentNode::Break(k) => {
                    match k {
                        Option::Some(BreakKind::Page) => text.append("\n\n---\n\n"),
                        Option::Some(BreakKind::Column) => text.append("\n\n"),
                        _ => text.append("\n"),
                    }
                },
                RunContentNode::Tab => {
                    text.append("\t");
                },
                RunContentNode::CarriageReturn => {
                    text.append("\n");
                },
                RunContentNode::Drawing(drawing) => {
                    proof {
                        if spec_run_no_images(run.content@) {
                            assert(run.content@[i as int] is Drawing);
                            assert(false);
                        }
                    }
                    let res = context.extract_image_from_drawing(drawing);
                    proof {
                        lemma_pending_prefix(
                            pre.image_extractor.pending_writes@,
                            context.image_extractor.pending_writes@,
                        );
                        lemma_image_growth(pre, *context);
                        lemma_ctx_growth_trans(ctx0, pre, *context);
                    }
                    match res {
                        Ok(Option::Some(img)) => text.append(img.as_str()),
                        Ok(Option::None) => {
                        },
                        Err(e) => {
                            return Err(e);
                        },
                    }
                },
                RunContentNode::Pict(pict) => {
                    proof {
                        if spec_run_no_images(run.content@) {
                            assert(run.content@[i as int] is Pict);
                            assert(false);
                        }
                    }
                    let res = context.extract_image_from_pict(pict);
                    proof {
                        lemma_pending_prefix(
                            pre.image_extractor.pending_writes@,
                            context.image_extractor.pending_writes@,
                        );
                        lemma_image_growth(pre, *context);
                        lemma_ctx_growth_trans(ctx0, pre, *context);
                    }
                    match res {
                        Ok(Option::Some(img)) => text.append(img.as_str()),
                        Ok(Option::None) => {
                        },
                        Err(e) => {
                            return Err(e);
                        },
                    }
                },
                RunContentNode::Sym(code) => {
                    if let Option::Some(code_str) = code {
                        if let Option::Some(c) = decode_hex_char(code_str.as_str()) {
                            push_char(&mut text, c);
                        }
                    }
                },
                RunContentNode::FootnoteReference(idopt) => {
                    if let Option::Some(id_str) = idopt {
                        if let Option::Some(id_num) = parse_i64(id_str.as_str()) {
                            let marker = context.register_footnote_reference(id_num);
                            text.append(marker.as_str());
                            proof {
                                lemma_register_footnote_growth(pre, *context, id_num, marker@);
                            }
                        }
                    }
                },
                RunContentNode::EndnoteReference(idopt) => {
                    if let Option::Some(id_str) = idopt {
                        if let Option::Some(id_num) = parse_i64(id_str.as_str()) {
                            let marker = context.register_endnote_reference(id_num);
                            text.append(marker.as_str());
                            proof {
                                lemma_register_endnote_growth(pre, *context, id_num, marker@);
                            }
                        }
                    }
                },
                RunContentNode::CommentReference(idopt) => {
                    if let Option::Some(id_str) = idopt {
                        let marker = context.register_comment_reference(id_str.as_str());
                        text.append(marker.as_str());
                        proof {
                            lemma_register_comment_growth(pre, *context, id_str@, marker@);
                        }
                    }
                },
                RunContentNode::InstrText(_) => {
                },
                RunContentNode::DelInstrText(_) => {
                },
                RunContentNode::DelText(_) => {
                },
                RunContentNode::FieldChar(_) => {
                },
            }
            proof {
                if *context == pre {
                    lemma_ctx_growth_refl(pre);
                }
                lemma_ctx_growth_trans(ctx0, pre, *context);
                assert(run.content@.take(i + 1).drop_last() =~= run.content@.take(i as int));
                assert(run.content@.take(i + 1).last() == run.content@[i as int]);
                if spec_run_plain(run.content@.take(i + 1)) {
                    assert forall|j: int| 0 <= j < i implies spec_run_item_text(
                        #[trigger] run.content@.take(i as int)[j],
                    ) is Some by {
                        assert(run.content@.take(i as int)[j] == run.content@.take(i + 1)[j]);
                    }
                }
            }
            i = i + 1;
        }
        proof {
            assert(run.content@.take(n as int) =~= run.content@);
        }

        if text.unicode_len() == 0 {
            proof {
                if spec_run_plain(run.content@) {
                    assert(text@ =~= Seq::<char>::empty());
                }
            }
            return Ok(text);
        }

        let run_style_id: Option<String> = match &run.property {
            Option::Some(props) => match &props.style_id {
                Option::Some(style) => Option::Some(style.clone()),
                Option::None => Option::None,
            },
            Option::None => Option::None,
        };
        let direct: Option<&CharProps> = match &run.property {
            Option::Some(props) => Option::Some(&props.props),
            Option::None => Option::None,
        };
        let effective_props = context.resolve_run_property(
            direct,
            match &run_style_id {
                Option::Some(s) => Option::Some(s.as_str()),
                Option::None => Option::None,
            },
            para_style_id,
        );
        let formatted = Self::apply_formatting(text, &effective_props, context);
        Ok(formatted)
    }
}

/// Decodes a symbol character code given in hexadecimal, mirroring how a
/// character code is read from a sym element. State-free but excluded from
/// the stateless-run text because its decoding spans two partial steps.
fn decode_hex_char(code: &str) -> (r: Option<char>) {
    let n = code.unicode_len();
    if n == 0 || n > 8 {
        return Option::None;
    }
    let mut val: u64 = 0;
    let mut i: usize = 0;
    while i < n
        invariant
            n == code@.len(),
            0 <= i <= n,
            n <= 8,
            val < 0x1_0000_0000u64,
        decreases n - i,
    {
        let c = code.get_char(i);
        let d: u64 = if '0' <= c && c <= '9' {
            (c as u32 as u64) - 48
        } else if 'a' <= c && c <= 'f' {
            (c as u32 as u64) - 87
        } else if 'A' <= c && c <= 'F' {
            (c as u32 as u64) - 55
        } else {
            return Option::None;
        };
        if val >= 0x1000_0000u64 {
            return Option::None;
        }
        val = val * 16 + d;
        i = i + 1;
    }
    if val < 0x11_0000 && !(0xD800 <= val && val < 0xE000) {
        char_from_u32(val as u32)
    } else {
        Option::None
    }
}

/// Relies on char::from_u32: Some exactly for valid scalar values, and the
/// returned character has the given code.
#[verifier::external_body]
fn char_from_u32(v: u32) -> (r: Option<char>)
    ensures
        r is Some <==> (v < 0xD800 || (0xE000 <= v && v <= 0x10FFFF)),
        r is Some ==> r->Some_0 as u32 == v,
{
    char::from_u32(v)
}

/// A pending-write list either stays or gains one entry; either way the
/// old list is a prefix.
proof fn lemma_pending_prefix(pre: Seq<(String, Vec<u8>)>, post: Seq<(String, Vec<u8>)>)
    requires
        post == pre || (post.len() == pre.len() + 1 && post.take(pre.len() as int) == pre),
    ensures
        post.len() >= pre.len(),
        post.take(pre.len() as int) == pre,
{
    if post == pre {
        assert(post.take(pre.len() as int) =~= pre);
    }
}

/// Image extraction leaves the registries alone and only advances the
/// extractor.
proof fn lemma_image_growth(pre: ConversionContext, post: ConversionContext)
    requires
        post.rels == pre.rels,
        post.numbering == pre.numbering,
        post.options == pre.options,
        post.style_resolver == pre.style_resolver,
        post.footnotes@ == pre.footnotes@,
        post.endnotes@ == pre.endnotes@,
        post.comments@ == pre.comments@,
        post.missing_references@ == pre.missing_references@,
        post.footnote_index_by_id@ == pre.footnote_index_by_id@,
        post.endnote_index_by_id@ == pre.endnote_index_by_id@,
        post.seen_comment_ids@ == pre.seen_comment_ids@,
        post.footnote_text_by_id@ == pre.footnote_text_by_id@,
        post.endnote_text_by_id@ == pre.endnote_text_by_id@,
        post.comment_text_by_id@ == pre.comment_text_by_id@,
        post.image_extractor.mode == pre.image_extractor.mode,
        post.image_extractor.source == pre.image_extractor.source,
        post.image_extractor.counter >= pre.image_extractor.counter,
        post.image_extractor.pending_writes@.len() >= pre.image_extractor.pending_writes@.len(),
        post.image_extractor.pending_writes@.take(pre.image_extractor.pending_writes@.len() as int)
            == pre.image_extractor.pending_writes@,
    ensures
        spec_ctx_growth(pre, post),
{
    lemma_ctx_growth_refl(pre);
}

} // verus!
