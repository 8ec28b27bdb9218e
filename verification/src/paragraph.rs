//! Paragraph assembly: field-code filtering, text extraction, segmenting by
//! formatting, and paragraph-level prefixes (headings, list markers,
//! alignment).

use vstd::prelude::*;

use crate::context::{ConversionContext, lemma_ctx_growth_refl, lemma_ctx_growth_trans,
    lemma_register_comment_growth, lemma_register_endnote_growth, lemma_register_footnote_growth,
    spec_ctx_growth};
use crate::error::Error;
use crate::escape::{escape_html_attr, escape_markdown_link_destination,
    escape_markdown_link_text};
use crate::localization::{handle_numbering, parse_heading_style, spec_handle_numbering,
    spec_parse_heading};
use crate::model::{BreakKind, CharProps, FieldCharKind, HyperlinkNode, Justification,
    ParaProps, ParagraphContentNode, ParagraphNode, RunContentNode, RunNode, RunProperty,
    spec_lookup_str};
use crate::run::{RunConverter, spec_is_on};
use crate::segment::{FormattedSegment, SegView, merge_segments, apply_format_safely,
    spec_apply_format, spec_merge_segments, spec_seg_views};
use crate::styles::{spec_resolve_run, spec_resolve_para};
use crate::text::{parse_i64, push_char, repeat_str, split_str, is_blank, trim_string,
    spec_find, spec_lead_ws, spec_repeat, spec_split, spec_trim};

verus! {

/// Sizes for termination of the paragraph walk, which recurses through
/// structured document tags.
pub open spec fn spec_pc_size(c: ParagraphContentNode) -> nat
    decreases c,
{
    match c {
        ParagraphContentNode::Sdt(ps) => 1 + spec_para_list_size(ps@),
        _ => 1,
    }
}

pub open spec fn spec_para_size(p: ParagraphNode) -> nat
    decreases p,
{
    1 + spec_pc_list_size(p.content@)
}

pub open spec fn spec_pc_list_size(s: Seq<ParagraphContentNode>) -> nat
    decreases s,
{
    if s.len() == 0 {
        0
    } else {
        spec_pc_size(s[0]) + spec_pc_list_size(s.skip(1))
    }
}

pub open spec fn spec_para_list_size(s: Seq<ParagraphNode>) -> nat
    decreases s,
{
    if s.len() == 0 {
        0
    } else {
        spec_para_size(s[0]) + spec_para_list_size(s.skip(1))
    }
}

proof fn lemma_pc_elem_size(s: Seq<ParagraphContentNode>, i: int)
    requires
        0 <= i < s.len(),
    ensures
        spec_pc_size(s[i]) <= spec_pc_list_size(s),
    decreases s.len(),
{
    if i > 0 {
        lemma_pc_elem_size(s.skip(1), i - 1);
        assert(s.skip(1)[i - 1] == s[i]);
    }
}

proof fn lemma_para_elem_size(s: Seq<ParagraphNode>, i: int)
    requires
        0 <= i < s.len(),
    ensures
        spec_para_size(s[i]) <= spec_para_list_size(s),
    decreases s.len(),
{
    if i > 0 {
        lemma_para_elem_size(s.skip(1), i - 1);
        assert(s.skip(1)[i - 1] == s[i]);
    }
}

/// Whether content inside a field region is instruction payload (hidden) or
/// result text (visible).
#[derive(Clone, Copy, Debug, PartialEq, Eq, Structural)]
pub enum FieldPhase {
    Instruction,
    Visible,
}

/// One step of the field-state machine over one run item: what it does to
/// the nesting stack, and whether the item survives filtering.
pub open spec fn spec_field_step(item: RunContentNode, st: Seq<FieldPhase>) -> (
    Seq<RunContentNode>,
    Seq<FieldPhase>,
) {
    match item {
        RunContentNode::FieldChar(k) => (
            Seq::empty(),
            match k {
                Option::Some(FieldCharKind::Begin) => st.push(FieldPhase::Instruction),
                Option::Some(FieldCharKind::Separate) => if st.len() > 0 {
                    st.update(st.len() - 1, FieldPhase::Visible)
                } else {
                    st
                },
                Option::Some(FieldCharKind::End) => if st.len() > 0 {
                    st.drop_last()
                } else {
                    st
                },
                Option::None => st,
            },
        ),
        RunContentNode::InstrText(_) => (Seq::empty(), st),
        RunContentNode::DelInstrText(_) => (Seq::empty(), st),
        _ => {
            if st.len() > 0 && st.last() == FieldPhase::Instruction {
                (Seq::empty(), st)
            } else {
                (seq![item], st)
            }
        },
    }
}

/// The filtered items and final stack after walking a run's content.
pub open spec fn spec_field_filter(items: Seq<RunContentNode>, st: Seq<FieldPhase>) -> (
    Seq<RunContentNode>,
    Seq<FieldPhase>,
)
    decreases items.len(),
{
    if items.len() == 0 {
        (Seq::empty(), st)
    } else {
        let (k1, s1) = spec_field_step(items[0], st);
        let (kr, sr) = spec_field_filter(items.skip(1), s1);
        (k1 + kr, sr)
    }
}

/// Items that do not take part in the field-code state machine.
pub open spec fn spec_no_field_items(items: Seq<RunContentNode>) -> bool {
    forall|i: int|
        0 <= i < items.len() ==> !((#[trigger] items[i]) is FieldChar || items[i] is InstrText
            || items[i] is DelInstrText)
}

/// A paragraph of exactly one run of stateless items, with no direct
/// properties anywhere: its conversion is pinned exactly.
pub open spec fn spec_plain_paragraph(p: ParagraphNode) -> bool {
    &&& p.property is None
    &&& p.content@.len() == 1
    &&& p.content@[0] is Run
    &&& p.content@[0]->Run_0.property is None
    &&& spec_no_field_items(p.content@[0]->Run_0.content@)
    &&& spec_pe_plain(p.content@[0]->Run_0.content@)
}

pub open spec fn spec_plain_para_text(p: ParagraphNode) -> Seq<char> {
    spec_pe_plain_text(p.content@[0]->Run_0.content@)
}

/// Without field items and with an empty stack, filtering keeps everything.
pub proof fn lemma_field_filter_identity(items: Seq<RunContentNode>)
    requires
        spec_no_field_items(items),
    ensures
        spec_field_filter(items, Seq::empty()) == (items, Seq::<FieldPhase>::empty()),
    decreases items.len(),
{
    if items.len() > 0 {
        let (k1, s1) = spec_field_step(items[0], Seq::empty());
        assert(k1 =~= seq![items[0]]);
        assert(s1 =~= Seq::<FieldPhase>::empty());
        assert forall|i: int|
            0 <= i < items.skip(1).len() implies !((#[trigger] items.skip(1)[i]) is FieldChar
            || items.skip(1)[i] is InstrText || items.skip(1)[i] is DelInstrText) by {
            assert(items.skip(1)[i] == items[i + 1]);
        }
        lemma_field_filter_identity(items.skip(1));
        assert(spec_field_filter(items, Seq::empty()).0 =~= items);
    } else {
        assert(spec_field_filter(items, Seq::empty()).0 =~= items);
    }
}

fn clone_run_item(it: &RunContentNode) -> (r: RunContentNode)
    ensures
        r == *it,
{
    match it {
        RunContentNode::Text(t) => RunContentNode::Text(t.clone()),
        RunContentNode::Tab => RunContentNode::Tab,
        RunContentNode::Break(k) => RunContentNode::Break(*k),
        RunContentNode::CarriageReturn => RunContentNode::CarriageReturn,
        RunContentNode::Drawing(d) => RunContentNode::Drawing(
            crate::model::DrawingNode {
                inline_embed: match &d.inline_embed {
                    Option::Some(e) => Option::Some(e.clone()),
                    Option::None => Option::None,
                },
                anchor_embed: match &d.anchor_embed {
                    Option::Some(e) => Option::Some(e.clone()),
                    Option::None => Option::None,
                },
            },
        ),
        RunContentNode::Pict(p) => RunContentNode::Pict(
            crate::model::PictNode {
                shape_image_id: match &p.shape_image_id {
                    Option::Some(e) => Option::Some(e.clone()),
                    Option::None => Option::None,
                },
                rect_image_id: match &p.rect_image_id {
                    Option::Some(e) => Option::Some(e.clone()),
                    Option::None => Option::None,
                },
            },
        ),
        RunContentNode::Sym(c) => RunContentNode::Sym(
            match c {
                Option::Some(x) => Option::Some(x.clone()),
                Option::None => Option::None,
            },
        ),
        RunContentNode::FootnoteReference(c) => RunContentNode::FootnoteReference(
            match c {
                Option::Some(x) => Option::Some(x.clone()),
                Option::None => Option::None,
            },
        ),
        RunContentNode::EndnoteReference(c) => RunContentNode::EndnoteReference(
            match c {
                Option::Some(x) => Option::Some(x.clone()),
                Option::None => Option::None,
            },
        ),
        RunContentNode::CommentReference(c) => RunContentNode::CommentReference(
            match c {
                Option::Some(x) => Option::Some(x.clone()),
                Option::None => Option::None,
            },
        ),
        RunContentNode::FieldChar(k) => RunContentNode::FieldChar(*k),
        RunContentNode::InstrText(t) => RunContentNode::InstrText(t.clone()),
        RunContentNode::DelInstrText(t) => RunContentNode::DelInstrText(t.clone()),
        RunContentNode::DelText(t) => RunContentNode::DelText(t.clone()),
    }
}

fn clone_run_property(p: &RunProperty) -> (r: RunProperty)
    ensures
        r == *p,
{
    RunProperty {
        style_id: match &p.style_id {
            Option::Some(s) => Option::Some(s.clone()),
            Option::None => Option::None,
        },
        props: p.props,
    }
}

/// Converter for paragraph elements.
pub struct ParagraphConverter;

impl ParagraphConverter {
    /// Filters a run so only field-visible content remains, updating the
    /// field-nesting stack: instruction payload between a field's begin and
    /// separate marks is dropped, result text is kept, and an unmatched end
    /// mark pops nothing.
    pub fn filter_run_by_field_state(run: &RunNode, field_stack: &mut Vec<FieldPhase>) -> (r:
        RunNode)
        ensures
            r.property == run.property,
            r.content@ == spec_field_filter(run.content@, old(field_stack)@).0,
            final(field_stack)@ == spec_field_filter(run.content@, old(field_stack)@).1,
    {
        let mut kept: Vec<RunContentNode> = Vec::new();
        let n = run.content.len();
        let mut i: usize = 0;
        let ghost items = run.content@;
        let ghost st0 = field_stack@;
        proof {
            assert(items.skip(0) =~= items);
        }
        while i < n
            invariant
                n == items.len(),
                items == run.content@,
                0 <= i <= n,
                spec_field_filter(items, st0).0 == kept@ + spec_field_filter(
                    items.skip(i as int),
                    field_stack@,
                ).0,
                spec_field_filter(items, st0).1 == spec_field_filter(
                    items.skip(i as int),
                    field_stack@,
                ).1,
            decreases n - i,
        {
            let ghost pre_kept = kept@;
            let ghost pre_st = field_stack@;
            match &run.content[i] {
                RunContentNode::FieldChar(k) => {
                    match k {
                        Option::Some(FieldCharKind::Begin) => {
                            field_stack.push(FieldPhase::Instruction);
                        },
                        Option::Some(FieldCharKind::Separate) => {
                            let sl = field_stack.len();
                            if sl > 0 {
                                field_stack[sl - 1] = FieldPhase::Visible;
                            }
                        },
                        Option::Some(FieldCharKind::End) => {
                            if field_stack.len() > 0 {
                                let popped = field_stack.pop();
                            }
                        },
                        Option::None => {
                        },
                    }
                },
                RunContentNode::InstrText(_) => {
                },
                RunContentNode::DelInstrText(_) => {
                },
                _ => {
                    let sl = field_stack.len();
                    let in_instruction = sl > 0 && matches!(
                        field_stack[sl - 1],
                        FieldPhase::Instruction,
                    );
                    if !in_instruction {
                        kept.push(clone_run_item(&run.content[i]));
                    }
                },
            }
            proof {
                let (k1, s1) = spec_field_step(items[i as int], pre_st);
                assert(field_stack@ =~= s1);
                assert(kept@ =~= pre_kept + k1);
                assert(items.skip(i as int)[0] == items[i as int]);
                assert(items.skip(i as int).skip(1) =~= items.skip(i + 1));
                assert(pre_kept + (k1 + spec_field_filter(items.skip(i + 1), s1).0) =~= (pre_kept
                    + k1) + spec_field_filter(items.skip(i + 1), s1).0);
            }
            i = i + 1;
        }
        proof {
            assert(items.skip(n as int) =~= Seq::<RunContentNode>::empty());
            assert(kept@ + Seq::<RunContentNode>::empty() =~= kept@);
        }
        let property = match &run.property {
            Option::Some(p) => Option::Some(clone_run_property(p)),
            Option::None => Option::None,
        };
        RunNode { property, content: kept }
    }

    /// The deleted text carried by tracked-deletion runs.
    pub open spec fn spec_del_text_items(content: Seq<RunContentNode>) -> Seq<char>
        decreases content.len(),
    {
        if content.len() == 0 {
            Seq::empty()
        } else {
            Self::spec_del_text_items(content.drop_last()) + (match content.last() {
                RunContentNode::DelText(t) => t@,
                _ => Seq::empty(),
            })
        }
    }

    pub open spec fn spec_del_text(runs: Seq<RunNode>) -> Seq<char>
        decreases runs.len(),
    {
        if runs.len() == 0 {
            Seq::empty()
        } else {
            Self::spec_del_text(runs.drop_last()) + Self::spec_del_text_items(
                runs.last().content@,
            )
        }
    }

    /// Extracts deleted text from a tracked deletion's runs.
    pub fn extract_deleted_text(runs: &Vec<RunNode>) -> (r: String)
        ensures
            r@ == Self::spec_del_text(runs@),
    {
        let mut text = String::new();
        let n = runs.len();
        let mut i: usize = 0;
        proof {
            assert(runs@.take(0) =~= Seq::<RunNode>::empty());
            assert(text@ =~= Self::spec_del_text(runs@.take(0)));
        }
        while i < n
            invariant
                n == runs@.len(),
                0 <= i <= n,
                text@ == Self::spec_del_text(runs@.take(i as int)),
            decreases n - i,
        {
            let m = runs[i].content.len();
            let mut j: usize = 0;
            let ghost outer_pre = text@;
            proof {
                assert(runs@[i as int].content@.take(0) =~= Seq::<RunContentNode>::empty());
                assert(text@ =~= outer_pre + Self::spec_del_text_items(
                    runs@[i as int].content@.take(0),
                ));
            }
            while j < m
                invariant
                    0 <= i < n,
                    n == runs@.len(),
                    m == runs@[i as int].content@.len(),
                    0 <= j <= m,
                    text@ == outer_pre + Self::spec_del_text_items(
                        runs@[i as int].content@.take(j as int),
                    ),
                decreases m - j,
            {
                if let RunContentNode::DelText(t) = &runs[i].content[j] {
                    text.append(t.as_str());
                }
                proof {
                    let c = runs@[i as int].content@;
                    assert(c.take(j + 1).drop_last() =~= c.take(j as int));
                    assert(c.take(j + 1).last() == c[j as int]);
                    assert(text@ =~= outer_pre + Self::spec_del_text_items(c.take(j + 1)));
                }
                j = j + 1;
            }
            proof {
                let c = runs@[i as int].content@;
                assert(c.take(m as int) =~= c);
                assert(runs@.take(i + 1).drop_last() =~= runs@.take(i as int));
                assert(runs@.take(i + 1).last() == runs@[i as int]);
            }
            i = i + 1;
        }
        proof {
            assert(runs@.take(n as int) =~= runs@);
        }
        text
    }
}

/// The text a stateless paragraph-level run item contributes (symbol items
/// contribute nothing at paragraph level).
pub open spec fn spec_pe_item_text(it: RunContentNode) -> Option<Seq<char>> {
    match it {
        RunContentNode::Text(t) => Option::Some(t@),
        RunContentNode::Tab => Option::Some("\t"@),
        RunContentNode::Break(k) => match k {
            Option::Some(BreakKind::Page) => Option::Some("\n\n---\n\n"@),
            _ => Option::Some("\n"@),
        },
        RunContentNode::CarriageReturn => Option::Some("\n"@),
        RunContentNode::InstrText(_) => Option::Some(Seq::empty()),
        RunContentNode::DelInstrText(_) => Option::Some(Seq::empty()),
        RunContentNode::DelText(_) => Option::Some(Seq::empty()),
        RunContentNode::FieldChar(_) => Option::Some(Seq::empty()),
        RunContentNode::Sym(_) => Option::Some(Seq::empty()),
        _ => Option::None,
    }
}

pub open spec fn spec_pe_plain(content: Seq<RunContentNode>) -> bool {
    forall|i: int| 0 <= i < content.len() ==> spec_pe_item_text(#[trigger] content[i]) is Some
}

pub open spec fn spec_pe_plain_text(content: Seq<RunContentNode>) -> Seq<char>
    decreases content.len(),
{
    if content.len() == 0 {
        Seq::empty()
    } else {
        spec_pe_plain_text(content.drop_last()) + (match spec_pe_item_text(content.last()) {
            Option::Some(t) => t,
            Option::None => Seq::empty(),
        })
    }
}

/// What one segment renders as: an anchor tag if it carries one, then its
/// text inside the wrappers its flags call for, inner to outer: deletion
/// strike, insertion, underline, plain strike, bold/italic.
pub open spec fn spec_render_one_seg(seg: SegView, hu: bool, hs: bool) -> Seq<char> {
    let anchor = match seg.anchor {
        Option::Some(a) => "<a id=\""@ + a + "\"></a>"@,
        Option::None => Seq::<char>::empty(),
    };
    let t1 = if seg.is_deletion {
        spec_apply_format(seg.text, "~~"@, "~~"@)
    } else {
        seg.text
    };
    let t2 = if seg.is_insertion {
        "<ins>"@ + t1 + "</ins>"@
    } else {
        t1
    };
    let t3 = if seg.has_underline && hu && !seg.is_insertion {
        "<u>"@ + t2 + "</u>"@
    } else {
        t2
    };
    let t4 = if seg.has_strike && !seg.is_deletion {
        if hs {
            "<s>"@ + t3 + "</s>"@
        } else {
            spec_apply_format(t3, "~~"@, "~~"@)
        }
    } else {
        t3
    };
    let t5 = if seg.is_bold && seg.is_italic {
        "<strong><em>"@ + t4 + "</em></strong>"@
    } else if seg.is_bold {
        "<strong>"@ + t4 + "</strong>"@
    } else if seg.is_italic {
        "<em>"@ + t4 + "</em>"@
    } else {
        t4
    };
    anchor + t5
}

pub open spec fn spec_render_segments(s: Seq<SegView>, hu: bool, hs: bool) -> Seq<char>
    decreases s.len(),
{
    if s.len() == 0 {
        Seq::empty()
    } else {
        spec_render_segments(s.drop_last(), hu, hs) + spec_render_one_seg(s.last(), hu, hs)
    }
}

/// A segment with no flags set renders as its plain text.
pub proof fn lemma_plain_segment_renders_text(seg: SegView, hu: bool, hs: bool)
    requires
        !seg.is_bold,
        !seg.is_italic,
        !seg.has_underline,
        !seg.has_strike,
        !seg.is_insertion,
        !seg.is_deletion,
        seg.anchor is None,
    ensures
        spec_render_one_seg(seg, hu, hs) == seg.text,
{
    assert(Seq::<char>::empty() + seg.text =~= seg.text);
}

impl ParagraphConverter {
    /// Renders merged segments to Markdown/HTML text.
    #[verifier::rlimit(100)]
    pub fn segments_to_markdown(segments: &Vec<FormattedSegment>, context: &ConversionContext) -> (
        r: String)
        ensures
            r@ == spec_render_segments(
                spec_seg_views(segments@),
                context.options.html_underline,
                context.options.html_strikethrough,
            ),
    {
        let ghost sv = spec_seg_views(segments@);
        let ghost hu = context.options.html_underline;
        let ghost hs = context.options.html_strikethrough;
        let mut result = String::new();
        let n = segments.len();
        let mut i: usize = 0;
        proof {
            assert(sv.take(0) =~= Seq::<SegView>::empty());
            assert(result@ =~= spec_render_segments(sv.take(0), hu, hs));
        }
        while i < n
            invariant
                n == segments@.len(),
                sv == spec_seg_views(segments@),
                hu == context.options.html_underline,
                hs == context.options.html_strikethrough,
                0 <= i <= n,
                result@ == spec_render_segments(sv.take(i as int), hu, hs),
            decreases n - i,
        {
            let seg = &segments[i];
            let ghost pre = result@;
            let ghost svi = sv[i as int];
            match &seg.anchor {
                Option::Some(anchor) => {
                    result.append("<a id=\"");
                    result.append(anchor.as_str());
                    result.append("\"></a>");
                },
                Option::None => {
                },
            }
            proof {
                let anchor_part = match svi.anchor {
                    Option::Some(a) => "<a id=\""@ + a + "\"></a>"@,
                    Option::None => Seq::<char>::empty(),
                };
                assert(result@ =~= pre + anchor_part);
            }
            let ghost after_anchor = result@;
            let mut text = seg.text.clone();
            if seg.is_deletion {
                text = apply_format_safely(text.as_str(), "~~", "~~");
            }
            proof {
                let t1 = if svi.is_deletion {
                    spec_apply_format(svi.text, "~~"@, "~~"@)
                } else {
                    svi.text
                };
                assert(text@ == t1);
            }
            let ghost t1v = text@;
            if seg.is_insertion {
                let mut w = String::from_str("<ins>");
                w.append(text.as_str());
                w.append("</ins>");
                text = w;
            }
            proof {
                let t2 = if svi.is_insertion {
                    "<ins>"@ + t1v + "</ins>"@
                } else {
                    t1v
                };
                assert(text@ == t2);
            }
            let ghost t2v = text@;
            if seg.has_underline && context.html_underline_enabled() && !seg.is_insertion {
                let mut w = String::from_str("<u>");
                w.append(text.as_str());
                w.append("</u>");
                text = w;
            }
            proof {
                let t3 = if svi.has_underline && hu && !svi.is_insertion {
                    "<u>"@ + t2v + "</u>"@
                } else {
                    t2v
                };
                assert(text@ == t3);
            }
            let ghost t3v = text@;
            if seg.has_strike && !seg.is_deletion {
                if context.html_strikethrough_enabled() {
                    let mut w = String::from_str("<s>");
                    w.append(text.as_str());
                    w.append("</s>");
                    text = w;
                } else {
                    text = apply_format_safely(text.as_str(), "~~", "~~");
                }
            }
            proof {
                let t4 = if svi.has_strike && !svi.is_deletion {
                    if hs {
                        "<s>"@ + t3v + "</s>"@
                    } else {
                        spec_apply_format(t3v, "~~"@, "~~"@)
                    }
                } else {
                    t3v
                };
                assert(text@ == t4);
            }
            let ghost t4v = text@;
            if seg.is_bold && seg.is_italic {
                let mut w = String::from_str("<strong><em>");
                w.append(text.as_str());
                w.append("</em></strong>");
                text = w;
            } else if seg.is_bold {
                let mut w = String::from_str("<strong>");
                w.append(text.as_str());
                w.append("</strong>");
                text = w;
            } else if seg.is_italic {
                let mut w = String::from_str("<em>");
                w.append(text.as_str());
                w.append("</em>");
                text = w;
            }
            proof {
                let t5 = if svi.is_bold && svi.is_italic {
                    "<strong><em>"@ + t4v + "</em></strong>"@
                } else if svi.is_bold {
                    "<strong>"@ + t4v + "</strong>"@
                } else if svi.is_italic {
                    "<em>"@ + t4v + "</em>"@
                } else {
                    t4v
                };
                assert(text@ == t5);
            }
            result.append(text.as_str());
            proof {
                assert(result@ =~= pre + spec_render_one_seg(svi, hu, hs));
                assert(sv.take(i + 1).drop_last() =~= sv.take(i as int));
                assert(sv.take(i + 1).last() == svi);
            }
            i = i + 1;
        }
        proof {
            assert(sv.take(n as int) =~= sv);
        }
        result
    }

    /// Extracts a run's visible text for segmenting. State only grows, and
    /// for a run of stateless items the text is pinned exactly.
    #[verifier::rlimit(60)]
    pub fn extract_text(run: &RunNode, context: &mut ConversionContext) -> (r: String)
        requires
            old(context).wf(),
        ensures
            final(context).wf(),
            spec_ctx_growth(*old(context), *final(context)),
            spec_pe_plain(run.content@) ==> (*final(context) == *old(context) && r@
                == spec_pe_plain_text(run.content@)),
    {
        let ghost ctx0 = *context;
        let mut text = String::new();
        let n = run.content.len();
        let mut i: usize = 0;
        proof {
            lemma_ctx_growth_refl(ctx0);
            assert(run.content@.take(0) =~= Seq::<RunContentNode>::empty());
        }
        while i < n
            invariant
                old(context).wf(),
                context.wf(),
                n == run.content@.len(),
                0 <= i <= n,
                ctx0 == *old(context),
                spec_ctx_growth(ctx0, *context),
                spec_pe_plain(run.content@.take(i as int)) ==> (*context == ctx0 && text@
                    == spec_pe_plain_text(run.content@.take(i as int))),
            decreases n - i,
        {
            let ghost pre = *context;
            match &run.content[i] {
                RunContentNode::Text(t) => {
                    text.append(t.as_str());
                },
                RunContentNode::Tab => {
                    text.append("\t");
                },
                RunContentNode::Break(k) => {
                    match k {
                        Option::Some(BreakKind::Page) => text.append("\n\n---\n\n"),
                        _ => text.append("\n"),
                    }
                },
                RunContentNode::CarriageReturn => {
                    text.append("\n");
                },
                RunContentNode::Drawing(drawing) => {
                    let res = context.extract_image_from_drawing(drawing);
                    proof {
                        lemma_pending_prefix_p(
                            pre.image_extractor.pending_writes@,
                            context.image_extractor.pending_writes@,
                        );
                        lemma_image_growth_p(pre, *context);
                    }
                    match res {
                        Ok(Option::Some(img)) => text.append(img.as_str()),
                        _ => {
                        },
                    }
                },
                RunContentNode::Pict(pict) => {
                    let res = context.extract_image_from_pict(pict);
                    proof {
                        lemma_pending_prefix_p(
                            pre.image_extractor.pending_writes@,
                            context.image_extractor.pending_writes@,
                        );
                        lemma_image_growth_p(pre, *context);
                    }
                    match res {
                        Ok(Option::Some(img)) => text.append(img.as_str()),
                        _ => {
                        },
                    }
                },
                RunContentNode::CommentReference(idopt) => {
                    if let Option::Some(id_str) = idopt {
                        let marker = context.register_comment_reference(id_str.as_str());
                        text.append(marker.as_str());
                        proof {
                            lemma_register_comment_growth(pre, *context, id_str@, marker@);
                        }
                    }
                },
                RunContentNode::FootnoteReference(idopt) => {
                    if let Option::Some(id_str) = idopt {
                        if let Option::Some(id_num) = parse_i64(id_str.as_str()) {
                            let marker = context.register_footnote_reference(id_num);
                            text.append(marker.as_str());
                            proof {
                                lemma_register_footnote_growth(pre, *context, id_num, marker@);
                            }
                        }
                    }
                },
                RunContentNode::EndnoteReference(idopt) => {
                    if let Option::Some(id_str) = idopt {
                        if let Option::Some(id_num) = parse_i64(id_str.as_str()) {
                            let marker = context.register_endnote_reference(id_num);
                            text.append(marker.as_str());
                            proof {
                                lemma_register_endnote_growth(pre, *context, id_num, marker@);
                            }
                        }
                    }
                },
                _ => {
                },
            }
            proof {
                if *context == pre {
                    lemma_ctx_growth_refl(pre);
                }
                lemma_ctx_growth_trans(ctx0, pre, *context);
                assert(run.content@.take(i + 1).drop_last() =~= run.content@.take(i as int));
                assert(run.content@.take(i + 1).last() == run.content@[i as int]);
                if spec_pe_plain(run.content@.take(i + 1)) {
                    assert forall|j: int| 0 <= j < i implies spec_pe_item_text(
                        #[trigger] run.content@.take(i as int)[j],
                    ) is Some by {
                        assert(run.content@.take(i as int)[j] == run.content@.take(i + 1)[j]);
                    }
                }
            }
            i = i + 1;
        }
        proof {
            assert(run.content@.take(n as int) =~= run.content@);
        }
        text
    }

    /// The segments one run becomes: its text split at page-break
    /// separators, each part carrying the run's resolved flags, with each
    /// separator its own unformatted segment.
    pub open spec fn spec_run_to_segments(
        parts: Seq<Seq<char>>,
        i: int,
        bold: bool,
        italic: bool,
        underline: bool,
        strike: bool,
    ) -> Seq<SegView>
        decreases parts.len() - i,
    {
        if i < 0 || i >= parts.len() {
            Seq::empty()
        } else {
            (if i > 0 {
                seq![
                    SegView {
                        text: "\n\n---\n\n"@,
                        is_bold: false,
                        is_italic: false,
                        has_underline: false,
                        has_strike: false,
                        is_insertion: false,
                        is_deletion: false,
                        anchor: Option::None,
                    },
                ]
            } else {
                Seq::empty()
            }) + (if parts[i].len() > 0 {
                seq![
                    SegView {
                        text: parts[i],
                        is_bold: bold,
                        is_italic: italic,
                        has_underline: underline,
                        has_strike: strike,
                        is_insertion: false,
                        is_deletion: false,
                        anchor: Option::None,
                    },
                ]
            } else {
                Seq::empty()
            }) + Self::spec_run_to_segments(parts, i + 1, bold, italic, underline, strike)
        }
    }

    /// Creates formatted segments from a run's text, splitting on page
    /// breaks so the separator stays unformatted.
    pub fn run_to_segment(
        run: &RunNode,
        text: &str,
        context: &ConversionContext,
        para_style_id: Option<&str>,
    ) -> (r: Vec<FormattedSegment>)
        ensures
            ({
                let direct = match run.property {
                    Option::Some(p) => Option::Some(p.props),
                    Option::None => Option::None,
                };
                let run_sid = match run.property {
                    Option::Some(p) => match p.style_id {
                        Option::Some(s) => Option::Some(s@),
                        Option::None => Option::None,
                    },
                    Option::None => Option::None,
                };
                let psid = match para_style_id {
                    Option::Some(s) => Option::Some(s@),
                    Option::None => Option::None,
                };
                let props = spec_resolve_run(context.style_resolver.styles, direct, run_sid, psid);
                spec_seg_views(r@) == Self::spec_run_to_segments(
                    spec_split(text@, "\n\n---\n\n"@),
                    0,
                    spec_is_on(props.bold),
                    spec_is_on(props.italics),
                    props.underline is Some,
                    spec_is_on(props.strike),
                )
            }),
    {
        let run_style_id: Option<String> = match &run.property {
            Option::Some(props) => match &props.style_id {
                Option::Some(style) => Option::Some(style.clone()),
                Option::None => Option::None,
            },
            Option::None => Option::None,
        };
        let direct: Option<&CharProps> = match &run.property {
            Option::Some(props) => Option::Some(&props.props),
            Option::None => Option::None,
        };
        let props = context.resolve_run_property(
            direct,
            match &run_style_id {
                Option::Some(s) => Option::Some(s.as_str()),
                Option::None => Option::None,
            },
            para_style_id,
        );
        let is_bold = matches!(props.bold, Option::Some(true));
        let is_italic = matches!(props.italics, Option::Some(true));
        let has_underline = props.underline.is_some();
        let has_strike = matches!(props.strike, Option::Some(true));

        proof {
            reveal_strlit("\n\n---\n\n");
        }
        let parts = split_str(text, "\n\n---\n\n");
        let ghost pv = spec_split(text@, "\n\n---\n\n"@);
        proof {
            assert(pv == parts@.map_values(|x: String| x@));
        }
        let mut segments: Vec<FormattedSegment> = Vec::new();
        let n = parts.len();
        let mut i: usize = 0;
        proof {
            assert(spec_seg_views(segments@) =~= Seq::<SegView>::empty());
        }
        while i < n
            invariant
                n == parts@.len(),
                pv == parts@.map_values(|x: String| x@),
                0 <= i <= n,
                Self::spec_run_to_segments(pv, 0, is_bold, is_italic, has_underline, has_strike)
                    == spec_seg_views(segments@) + Self::spec_run_to_segments(
                    pv,
                    i as int,
                    is_bold,
                    is_italic,
                    has_underline,
                    has_strike,
                ),
            decreases n - i,
        {
            let ghost pre = spec_seg_views(segments@);
            if i > 0 {
                segments.push(FormattedSegment::plain(String::from_str("\n\n---\n\n")));
            }
            if parts[i].unicode_len() > 0 {
                segments.push(
                    FormattedSegment {
                        text: parts[i].clone(),
                        is_bold,
                        is_italic,
                        has_underline,
                        has_strike,
                        is_insertion: false,
                        is_deletion: false,
                        anchor: Option::None,
                    },
                );
            }
            proof {
                let step = Self::spec_run_to_segments(
                    pv,
                    i as int,
                    is_bold,
                    is_italic,
                    has_underline,
                    has_strike,
                );
                let rest = Self::spec_run_to_segments(
                    pv,
                    i + 1,
                    is_bold,
                    is_italic,
                    has_underline,
                    has_strike,
                );
                assert(spec_seg_views(segments@) + rest =~= pre + step);
            }
            i = i + 1;
        }
        proof {
            assert(Self::spec_run_to_segments(
                pv,
                n as int,
                is_bold,
                is_italic,
                has_underline,
                has_strike,
            ) =~= Seq::<SegView>::empty());
            assert(spec_seg_views(segments@) + Seq::<SegView>::empty() =~= spec_seg_views(
                segments@,
            ));
        }
        segments
    }
}

/// A pending-write list either stays or gains one entry; either way the old
/// list is a prefix.
proof fn lemma_pending_prefix_p(pre: Seq<(String, Vec<u8>)>, post: Seq<(String, Vec<u8>)>)
    requires
        post == pre || (post.len() == pre.len() + 1 && post.take(pre.len() as int) == pre),
    ensures
        post.len() >= pre.len(),
        post.take(pre.len() as int) == pre,
{
    if post == pre {
        assert(post.take(pre.len() as int) =~= pre);
    }
}

/// Image extraction leaves the registries alone and only advances the
/// extractor.
proof fn lemma_image_growth_p(pre: ConversionContext, post: ConversionContext)
    requires
        post.rels == pre.rels,
        post.numbering == pre.numbering,
        post.options == pre.options,
        post.style_resolver == pre.style_resolver,
        post.footnotes@ == pre.footnotes@,
        post.endnotes@ == pre.endnotes@,
        post.comments@ == pre.comments@,
        post.missing_references@ == pre.missing_references@,
        post.footnote_index_by_id@ == pre.footnote_index_by_id@,
        post.endnote_index_by_id@ == pre.endnote_index_by_id@,
        post.seen_comment_ids@ == pre.seen_comment_ids@,
        post.footnote_text_by_id@ == pre.footnote_text_by_id@,
        post.endnote_text_by_id@ == pre.endnote_text_by_id@,
        post.comment_text_by_id@ == pre.comment_text_by_id@,
        post.image_extractor.mode == pre.image_extractor.mode,
        post.image_extractor.source == pre.image_extractor.source,
        post.image_extractor.counter >= pre.image_extractor.counter,
        post.image_extractor.pending_writes@.len() >= pre.image_extractor.pending_writes@.len(),
        post.image_extractor.pending_writes@.take(pre.image_extractor.pending_writes@.len() as int)
            == pre.image_extractor.pending_writes@,
    ensures
        spec_ctx_growth(pre, post),
{
    lemma_ctx_growth_refl(pre);
}

/// The heading level the effective style denotes.
pub open spec fn spec_heading_of(eff: ParaProps) -> Option<int> {
    match eff.style_id {
        Option::Some(s) => spec_parse_heading(s@),
        Option::None => Option::None,
    }
}

/// The numbering reference the effective properties carry, when complete.
pub open spec fn spec_num_ref(eff: ParaProps) -> Option<(i32, i32)> {
    match eff.numbering {
        Option::Some(nr) => match (nr.num_id, nr.level) {
            (Option::Some(a), Option::Some(b)) => Option::Some((a, b)),
            _ => Option::None,
        },
        Option::None => Option::None,
    }
}

/// Paragraph-level wrapping: the heading prefix, the list marker or indent
/// (a section-like marker promotes the paragraph to a heading and absorbs
/// the marker), trimming unless whitespace is preserved, and an alignment
/// container for non-headings.
pub open spec fn spec_para_formatted(
    eff: ParaProps,
    has_num: bool,
    marker: Seq<char>,
    indent: int,
    text: Seq<char>,
    preserve: bool,
) -> Seq<char> {
    let heading = spec_heading_of(eff);
    let prefix = match heading {
        Option::Some(h) => spec_repeat("#"@, h as nat) + " "@ + (if has_num {
            marker + (if marker.len() > 0 {
                " "@
            } else {
                Seq::<char>::empty()
            })
        } else {
            Seq::<char>::empty()
        }),
        Option::None => if has_num {
            match spec_handle_numbering(marker) {
                Option::Some(hp) => hp + " "@,
                Option::None => spec_repeat("  "@, indent as nat) + marker + " "@,
            }
        } else {
            Seq::<char>::empty()
        },
    };
    let promoted = heading is None && has_num && spec_handle_numbering(marker) is Some;
    let is_heading = heading is Some || promoted;
    let tfo = if preserve {
        text
    } else {
        spec_trim(text)
    };
    let ft = prefix + tfo;
    if !is_heading {
        match eff.justification {
            Option::Some(Justification::Center) => "<div style=\"text-align: center;\">"@ + ft
                + "</div>"@,
            Option::Some(Justification::Right) => "<div style=\"text-align: right;\">"@ + ft
                + "</div>"@,
            _ => ft,
        }
    } else {
        ft
    }
}

/// Leading zero-width anchor segments hoist into a tag line; everything
/// from the first other segment on is paragraph content.
pub open spec fn spec_split_anchors(merged: Seq<SegView>, i: int, looking: bool) -> (
    Seq<char>,
    Seq<SegView>,
)
    decreases merged.len() - i,
{
    if i < 0 || i >= merged.len() {
        (Seq::<char>::empty(), Seq::<SegView>::empty())
    } else {
        let s = merged[i];
        if looking && s.text.len() == 0 && s.anchor is Some {
            let rest = spec_split_anchors(merged, i + 1, true);
            (
                "<a id=\""@ + crate::escape::spec_escape_html_attr(s.anchor->Some_0) + "\"></a>"@
                    + rest.0,
                rest.1,
            )
        } else {
            let rest = spec_split_anchors(merged, i + 1, false);
            (rest.0, seq![s] + rest.1)
        }
    }
}

/// How formatting a numbered paragraph changes the context: only the
/// numbering counters advance, exactly as one next-marker step does.
pub open spec fn spec_para_format_state(
    pre: ConversionContext,
    post: ConversionContext,
    num_id: i32,
    ilvl: i32,
) -> bool {
    &&& post.rels == pre.rels
    &&& post.image_extractor == pre.image_extractor
    &&& post.options == pre.options
    &&& post.style_resolver == pre.style_resolver
    &&& post.footnotes@ == pre.footnotes@
    &&& post.footnote_index_by_id@ == pre.footnote_index_by_id@
    &&& post.footnote_text_by_id@ == pre.footnote_text_by_id@
    &&& post.endnotes@ == pre.endnotes@
    &&& post.endnote_index_by_id@ == pre.endnote_index_by_id@
    &&& post.endnote_text_by_id@ == pre.endnote_text_by_id@
    &&& post.comments@ == pre.comments@
    &&& post.seen_comment_ids@ == pre.seen_comment_ids@
    &&& post.comment_text_by_id@ == pre.comment_text_by_id@
    &&& post.missing_references@ == pre.missing_references@
    &&& post.numbering.num_instances@ == pre.numbering.num_instances@
    &&& post.numbering.abstract_nums@ == pre.numbering.abstract_nums@
    &&& post.numbering.overrides@ == pre.numbering.overrides@
    &&& post.numbering.level_shifts@ == pre.numbering.level_shifts@
    &&& match pre.numbering.spec_nm_new_counters(num_id, ilvl) {
        Option::None => post.numbering.counters@ == pre.numbering.counters@,
        Option::Some(nc) => forall|k: i32|
            #[trigger] crate::numbering::spec_counter_lookup(post.numbering.counters@, k) == if k
                == nc.0 {
                Option::Some(nc.1)
            } else {
                crate::numbering::spec_counter_lookup(pre.numbering.counters@, k)
            },
    }
}

impl ParagraphConverter {
    /// Applies paragraph-level formatting: heading prefix from the style,
    /// list marker and indentation from the numbering engine (advancing its
    /// counters), and alignment. A heading-styled paragraph with blank text
    /// disappears without touching the counters.
    #[verifier::rlimit(100)]
    pub fn apply_paragraph_formatting(
        para: &ParagraphNode,
        text: String,
        context: &mut ConversionContext,
    ) -> (r: Result<String, Error>)
        requires
            old(context).wf(),
        ensures
            final(context).wf(),
            spec_ctx_growth(*old(context), *final(context)),
            r is Ok,
            ({
                let direct = match para.property {
                    Option::Some(p) => Option::Some(p),
                    Option::None => Option::None,
                };
                let psid = match para.property {
                    Option::Some(p) => match p.style_id {
                        Option::Some(s) => Option::Some(s@),
                        Option::None => Option::None,
                    },
                    Option::None => Option::None,
                };
                let eff = spec_resolve_para(old(context).style_resolver.styles, direct, psid);
                let heading = spec_heading_of(eff);
                if heading is Some && spec_trim(text@).len() == 0 {
                    r->Ok_0@ == Seq::<char>::empty() && *final(context) == *old(context)
                } else {
                    match spec_num_ref(eff) {
                        Option::None => r->Ok_0@ == spec_para_formatted(
                            eff,
                            false,
                            Seq::empty(),
                            0,
                            text@,
                            old(context).options.preserve_whitespace,
                        ) && *final(context) == *old(context),
                        Option::Some(nl) => r->Ok_0@ == spec_para_formatted(
                            eff,
                            true,
                            old(context).numbering.spec_nm_result(nl.0, nl.1),
                            old(context).numbering.spec_get_indent(nl.0, nl.1),
                            text@,
                            old(context).options.preserve_whitespace,
                        ) && spec_para_format_state(*old(context), *final(context), nl.0, nl.1),
                    }
                }
            }),
    {
        let psid_owned: Option<String> = match &para.property {
            Option::Some(p) => match &p.style_id {
                Option::Some(s) => Option::Some(s.clone()),
                Option::None => Option::None,
            },
            Option::None => Option::None,
        };
        let effective_props = context.resolve_paragraph_property(
            match &para.property {
                Option::Some(p) => Option::Some(p),
                Option::None => Option::None,
            },
            match &psid_owned {
                Option::Some(s) => Option::Some(s.as_str()),
                Option::None => Option::None,
            },
        );
        let ghost ctx0 = *context;
        proof {
            lemma_ctx_growth_refl(ctx0);
        }

        let mut prefix = String::new();
        let mut is_heading = false;
        let heading_level: Option<usize> = match &effective_props.style_id {
            Option::Some(s) => parse_heading_style(s.as_str()),
            Option::None => Option::None,
        };
        if let Option::Some(h) = heading_level {
            if is_blank(text.as_str()) {
                return Ok(String::new());
            }
            prefix = repeat_str("#", h);
            push_char(&mut prefix, ' ');
            proof {
                reveal_strlit(" ");
                assert(prefix@ =~= spec_repeat("#"@, h as nat) + " "@);
            }
            is_heading = true;
        }

        let num_pair: Option<(i32, i32)> = match &effective_props.numbering {
            Option::Some(nr) => match (nr.num_id, nr.level) {
                (Option::Some(a), Option::Some(b)) => Option::Some((a, b)),
                _ => Option::None,
            },
            Option::None => Option::None,
        };
        let ghost marker_spec = match num_pair {
            Option::Some(nl) => ctx0.numbering.spec_nm_result(nl.0, nl.1),
            Option::None => Seq::<char>::empty(),
        };
        if let Option::Some((num_id, ilvl)) = num_pair {
            let marker = context.next_list_marker(num_id, ilvl);
            proof {
                assert(marker@ == marker_spec);
            }
            if is_heading {
                prefix.append(marker.as_str());
                if marker.unicode_len() > 0 {
                    push_char(&mut prefix, ' ');
                    proof {
                        reveal_strlit(" ");
                    }
                }
            } else {
                match handle_numbering(marker.as_str()) {
                    Option::Some(hp) => {
                        let mut promoted = hp;
                        push_char(&mut promoted, ' ');
                        proof {
                            reveal_strlit(" ");
                            assert(promoted@ =~= spec_handle_numbering(marker_spec)->Some_0
                                + " "@);
                        }
                        prefix = promoted;
                        is_heading = true;
                    },
                    Option::None => {
                        let indent = context.list_indent_level(num_id, ilvl);
                        let ind = repeat_str("  ", indent);
                        prefix.append(ind.as_str());
                        prefix.append(marker.as_str());
                        push_char(&mut prefix, ' ');
                        proof {
                            reveal_strlit(" ");
                            reveal_strlit("  ");
                            assert(prefix@ =~= spec_repeat("  "@, indent as nat) + marker_spec
                                + " "@);
                        }
                    },
                }
            }
        }

        let text_for_output: String = if context.preserve_whitespace() {
            text
        } else {
            trim_string(text.as_str())
        };
        let mut final_text = prefix;
        final_text.append(text_for_output.as_str());

        if !is_heading {
            match &effective_props.justification {
                Option::Some(Justification::Center) => {
                    let mut w = String::from_str("<div style=\"text-align: center;\">");
                    w.append(final_text.as_str());
                    w.append("</div>");
                    return Ok(w);
                },
                Option::Some(Justification::Right) => {
                    let mut w = String::from_str("<div style=\"text-align: right;\">");
                    w.append(final_text.as_str());
                    w.append("</div>");
                    return Ok(w);
                },
                _ => {
                },
            }
        }
        Ok(final_text)
    }
}

/// An empty text yields no segments, whatever flags resolution gives.
proof fn lemma_rts_of_empty_text(ctx: ConversionContext, text: Seq<char>)
    requires
        text.len() == 0,
    ensures
        ({
            let props = spec_resolve_run(
                ctx.style_resolver.styles,
                Option::None,
                Option::None,
                Option::None,
            );
            ParagraphConverter::spec_run_to_segments(
                spec_split(text, "\n\n---\n\n"@),
                0,
                spec_is_on(props.bold),
                spec_is_on(props.italics),
                props.underline is Some,
                spec_is_on(props.strike),
            ) == Seq::<SegView>::empty()
        }),
{
    reveal_strlit("\n\n---\n\n");
    assert("\n\n---\n\n"@.len() == 7);
    let pv = spec_split(text, "\n\n---\n\n"@);
    assert(spec_find(text, "\n\n---\n\n"@) is None);
    assert(pv =~= seq![text]);
    let props = spec_resolve_run(
        ctx.style_resolver.styles,
        Option::None,
        Option::None,
        Option::None,
    );
    let e = Seq::<SegView>::empty();
    assert(pv.len() == 1);
    assert(pv[0].len() == 0);
    assert(ParagraphConverter::spec_run_to_segments(
        pv,
        1,
        spec_is_on(props.bold),
        spec_is_on(props.italics),
        props.underline is Some,
        spec_is_on(props.strike),
    ) == e);
    assert(e + e + e =~= e);
    assert(ParagraphConverter::spec_run_to_segments(
        pv,
        0,
        spec_is_on(props.bold),
        spec_is_on(props.italics),
        props.underline is Some,
        spec_is_on(props.strike),
    ) =~= e);
}

/// Whether no run of the sequence carries an embedded image.
pub open spec fn spec_runs_no_images(runs: Seq<RunNode>) -> bool
    decreases runs.len(),
{
    if runs.len() == 0 {
        true
    } else {
        crate::run::spec_run_no_images(runs[0].content@) && spec_runs_no_images(runs.skip(1))
    }
}

proof fn lemma_runs_no_images_elem(runs: Seq<RunNode>, i: int)
    requires
        spec_runs_no_images(runs),
        0 <= i < runs.len(),
    ensures
        crate::run::spec_run_no_images(runs[i].content@),
    decreases i,
{
    if i > 0 {
        lemma_runs_no_images_elem(runs.skip(1), i - 1);
        assert(runs.skip(1)[i - 1] == runs[i]);
    }
}

/// Field filtering keeps a subset of the items, so an image-free run stays
/// image-free.
proof fn lemma_filter_no_images(items: Seq<RunContentNode>, st: Seq<FieldPhase>)
    requires
        crate::run::spec_run_no_images(items),
    ensures
        crate::run::spec_run_no_images(spec_field_filter(items, st).0),
    decreases items.len(),
{
    if items.len() > 0 {
        let (k1, s1) = spec_field_step(items[0], st);
        assert forall|i: int|
            0 <= i < items.skip(1).len() implies !((#[trigger] items.skip(1)[i]) is Drawing
            || items.skip(1)[i] is Pict) by {
            assert(items.skip(1)[i] == items[i + 1]);
        }
        lemma_filter_no_images(items.skip(1), s1);
        let kept = spec_field_filter(items, st).0;
        assert forall|i: int|
            0 <= i < kept.len() implies !((#[trigger] kept[i]) is Drawing
            || kept[i] is Pict) by {
            if i < k1.len() {
                assert(kept[i] == k1[i]);
                assert(k1[i] == items[0]);
            } else {
                assert(kept[i] == spec_field_filter(items.skip(1), s1).0[i - k1.len()]);
            }
        }
    }
}

/// Whether a paragraph's hyperlinks carry no embedded images (recursively
/// through structured document tags); such a paragraph's conversion never
/// fails, since images outside hyperlinks degrade without error.
pub open spec fn spec_para_no_link_images(p: ParagraphNode) -> nat
    decreases p,
{
    spec_pc_list_no_link_images(p.content@)
}

pub open spec fn spec_pc_no_link_images(c: ParagraphContentNode) -> nat
    decreases c,
{
    match c {
        ParagraphContentNode::Link(h) => if spec_runs_no_images(h.content@) {
            0
        } else {
            1
        },
        ParagraphContentNode::Sdt(ps) => spec_para_list_no_link_images(ps@),
        _ => 0,
    }
}

pub open spec fn spec_pc_list_no_link_images(s: Seq<ParagraphContentNode>) -> nat
    decreases s,
{
    if s.len() == 0 {
        0
    } else {
        spec_pc_no_link_images(s[0]) + spec_pc_list_no_link_images(s.skip(1))
    }
}

pub open spec fn spec_para_list_no_link_images(s: Seq<ParagraphNode>) -> nat
    decreases s,
{
    if s.len() == 0 {
        0
    } else {
        spec_para_no_link_images(s[0]) + spec_para_list_no_link_images(s.skip(1))
    }
}

proof fn lemma_pc_list_nli_elem(s: Seq<ParagraphContentNode>, i: int)
    requires
        0 <= i < s.len(),
    ensures
        spec_pc_no_link_images(s[i]) <= spec_pc_list_no_link_images(s),
    decreases s.len(),
{
    if i > 0 {
        lemma_pc_list_nli_elem(s.skip(1), i - 1);
        assert(s.skip(1)[i - 1] == s[i]);
    }
}

proof fn lemma_para_list_nli_elem(s: Seq<ParagraphNode>, i: int)
    requires
        0 <= i < s.len(),
    ensures
        spec_para_no_link_images(s[i]) <= spec_para_list_no_link_images(s),
    decreases s.len(),
{
    if i > 0 {
        lemma_para_list_nli_elem(s.skip(1), i - 1);
        assert(s.skip(1)[i - 1] == s[i]);
    }
}

/// A paragraph of an image-free list is image-free.
pub proof fn lemma_para_list_nli_elem_pub(s: Seq<ParagraphNode>, i: int)
    requires
        0 <= i < s.len(),
    ensures
        spec_para_no_link_images(s[i]) <= spec_para_list_no_link_images(s),
{
    lemma_para_list_nli_elem(s, i);
}

fn clone_segment(s: &FormattedSegment) -> (r: FormattedSegment)
    ensures
        r@ == s@,
{
    FormattedSegment {
        text: s.text.clone(),
        is_bold: s.is_bold,
        is_italic: s.is_italic,
        has_underline: s.has_underline,
        has_strike: s.has_strike,
        is_insertion: s.is_insertion,
        is_deletion: s.is_deletion,
        anchor: match &s.anchor {
            Option::Some(a) => Option::Some(a.clone()),
            Option::None => Option::None,
        },
    }
}

/// A paragraph of bookmarks and runs whose items are all stateless or field
/// machinery: collecting its segments is pure.
pub open spec fn spec_static_pc(c: ParagraphContentNode) -> bool {
    match c {
        ParagraphContentNode::Run(r) => forall|i: int|
            0 <= i < r.content@.len() ==> (spec_pe_item_text(#[trigger] r.content@[i]) is Some),
        ParagraphContentNode::BookmarkStart(_) => true,
        _ => false,
    }
}

pub open spec fn spec_static_para(p: ParagraphNode) -> bool {
    forall|i: int| 0 <= i < p.content@.len() ==> spec_static_pc(#[trigger] p.content@[i])
}

/// Filtering keeps a subset of the items, so a run of stateless-or-field
/// items filters to a stateless one.
proof fn lemma_filter_pe_plain(items: Seq<RunContentNode>, st: Seq<FieldPhase>)
    requires
        forall|i: int| 0 <= i < items.len() ==> (spec_pe_item_text(#[trigger] items[i]) is Some),
    ensures
        spec_pe_plain(spec_field_filter(items, st).0),
    decreases items.len(),
{
    if items.len() > 0 {
        let (k1, s1) = spec_field_step(items[0], st);
        assert forall|i: int|
            0 <= i < items.skip(1).len() implies (spec_pe_item_text(
            #[trigger] items.skip(1)[i],
        ) is Some) by {
            assert(items.skip(1)[i] == items[i + 1]);
        }
        lemma_filter_pe_plain(items.skip(1), s1);
        let kept = spec_field_filter(items, st).0;
        assert forall|i: int|
            0 <= i < kept.len() implies (spec_pe_item_text(#[trigger] kept[i]) is Some) by {
            if i < k1.len() {
                assert(kept[i] == k1[i]);
                assert(k1[i] == items[0]);
            } else {
                assert(kept[i] == spec_field_filter(items.skip(1), s1).0[i - k1.len()]);
            }
        }
    }
}

/// The segments a static paragraph collects: bookmarks become zero-width
/// anchor segments; each run is filtered through the field-code state
/// machine (the stack threads across runs), its visible text extracted and
/// split at page breaks, carrying the run's resolved flags.
pub open spec fn spec_collect_static(
    items: Seq<ParagraphContentNode>,
    i: int,
    st: Seq<FieldPhase>,
    styles: crate::model::StylesInput,
    psid: Option<Seq<char>>,
) -> Seq<SegView>
    decreases items.len() - i,
{
    if i < 0 || i >= items.len() {
        Seq::empty()
    } else {
        match items[i] {
            ParagraphContentNode::BookmarkStart(name) => (match name {
                Option::Some(nm) => seq![
                    SegView {
                        text: Seq::empty(),
                        is_bold: false,
                        is_italic: false,
                        has_underline: false,
                        has_strike: false,
                        is_insertion: false,
                        is_deletion: false,
                        anchor: Option::Some(nm@),
                    },
                ]
                ,
                Option::None => Seq::<SegView>::empty(),
            }) + spec_collect_static(items, i + 1, st, styles, psid),
            ParagraphContentNode::Run(r) => {
                let (kept, st2) = spec_field_filter(r.content@, st);
                let segs = if kept.len() == 0 {
                    Seq::<SegView>::empty()
                } else {
                    let text = spec_pe_plain_text(kept);
                    if text.len() == 0 {
                        Seq::<SegView>::empty()
                    } else {
                        let props = spec_run_props(r, styles, psid);
                        ParagraphConverter::spec_run_to_segments(
                            spec_split(text, "\n\n---\n\n"@),
                            0,
                            spec_is_on(props.bold),
                            spec_is_on(props.italics),
                            props.underline is Some,
                            spec_is_on(props.strike),
                        )
                    }
                };
                segs + spec_collect_static(items, i + 1, st2, styles, psid)
            },
            _ => spec_collect_static(items, i + 1, st, styles, psid),
        }
    }
}

/// The paragraph style id handed to run resolution.
pub open spec fn spec_psid_of(p: ParagraphNode) -> Option<Seq<char>> {
    match p.property {
        Option::Some(pp) => match pp.style_id {
            Option::Some(s) => Option::Some(s@),
            Option::None => Option::None,
        },
        Option::None => Option::None,
    }
}

/// A run whose items are all stateless or field machinery: filtering and
/// conversion of such a run are pure.
pub open spec fn spec_run_staticish(content: Seq<RunContentNode>) -> bool {
    forall|i: int|
        0 <= i < content.len() ==> (crate::run::spec_run_item_text(#[trigger] content[i]) is Some)
}

pub open spec fn spec_runs_staticish(runs: Seq<RunNode>) -> bool {
    forall|i: int| 0 <= i < runs.len() ==> spec_run_staticish((#[trigger] runs[i]).content@)
}

/// Filtering keeps a subset of the items, so a staticish run stays
/// staticish.
proof fn lemma_filter_staticish(items: Seq<RunContentNode>, st: Seq<FieldPhase>)
    requires
        spec_run_staticish(items),
    ensures
        spec_run_staticish(spec_field_filter(items, st).0),
        crate::run::spec_run_plain(spec_field_filter(items, st).0),
    decreases items.len(),
{
    if items.len() > 0 {
        let (k1, s1) = spec_field_step(items[0], st);
        assert forall|i: int|
            0 <= i < items.skip(1).len() implies (crate::run::spec_run_item_text(
            #[trigger] items.skip(1)[i],
        ) is Some) by {
            assert(items.skip(1)[i] == items[i + 1]);
        }
        lemma_filter_staticish(items.skip(1), s1);
        let kept = spec_field_filter(items, st).0;
        assert forall|i: int|
            0 <= i < kept.len() implies (crate::run::spec_run_item_text(
            #[trigger] kept[i],
        ) is Some) by {
            if i < k1.len() {
                assert(kept[i] == k1[i]);
                assert(k1[i] == items[0]);
            } else {
                assert(kept[i] == spec_field_filter(items.skip(1), s1).0[i - k1.len()]);
            }
        }
    }
}

/// The resolved character properties a run converts under.
pub open spec fn spec_run_props(
    run: RunNode,
    styles: crate::model::StylesInput,
    psid: Option<Seq<char>>,
) -> CharProps {
    spec_resolve_run(
        styles,
        match run.property {
            Option::Some(p) => Option::Some(p.props),
            Option::None => Option::None,
        },
        match run.property {
            Option::Some(p) => match p.style_id {
                Option::Some(s) => Option::Some(s@),
                Option::None => Option::None,
            },
            Option::None => Option::None,
        },
        psid,
    )
}

/// The link text a staticish hyperlink accumulates: each run is filtered
/// through the field-code state machine (the stack threads across runs),
/// its visible text extracted, and its resolved formatting applied.
pub open spec fn spec_hyperlink_text(
    runs: Seq<RunNode>,
    i: int,
    st: Seq<FieldPhase>,
    styles: crate::model::StylesInput,
    psid: Option<Seq<char>>,
    hu: bool,
    hs: bool,
) -> Seq<char>
    decreases runs.len() - i,
{
    if i < 0 || i >= runs.len() {
        Seq::empty()
    } else {
        let (kept, st2) = spec_field_filter(runs[i].content@, st);
        let part = if kept.len() == 0 {
            Seq::<char>::empty()
        } else {
            let text = crate::run::spec_run_plain_text(kept);
            if text.len() == 0 {
                Seq::<char>::empty()
            } else {
                crate::run::spec_apply_run_formatting(
                    text,
                    spec_run_props(runs[i], styles, psid),
                    hu,
                    hs,
                )
            }
        };
        part + spec_hyperlink_text(runs, i + 1, st2, styles, psid, hu, hs)
    }
}

/// The destination a hyperlink resolves to: its bookmark anchor, escaped,
/// or its relationship target, or a bare hash.
pub open spec fn spec_hyperlink_url(h: HyperlinkNode, rels: Seq<(String, String)>) -> Seq<char> {
    match h.anchor {
        Option::Some(a) => "#"@ + crate::escape::spec_escape_markdown_link_destination(a@),
        Option::None => match h.id {
            Option::Some(id) => match spec_lookup_str(rels, id@) {
                Option::Some(t) => t,
                Option::None => "#"@,
            },
            Option::None => "#"@,
        },
    }
}

/// What a hyperlink renders as: the bare destination when the text is
/// empty, else a Markdown link with both halves escaped.
pub open spec fn spec_hyperlink_md(text: Seq<char>, url: Seq<char>) -> Seq<char> {
    if text.len() == 0 {
        url
    } else {
        "["@ + crate::escape::spec_escape_markdown_link_text(text) + "]("@
            + crate::escape::spec_escape_markdown_link_destination(url) + ")"@
    }
}

impl ParagraphConverter {
    /// Converts a hyperlink to a Markdown link: the runs' visible text,
    /// escaped, against the bookmark anchor or the relationship target.
    pub fn convert_hyperlink(
        hyperlink: &HyperlinkNode,
        context: &mut ConversionContext,
        para_style_id: Option<&str>,
    ) -> (r: Result<String, Error>)
        requires
            old(context).wf(),
        ensures
            final(context).wf(),
            spec_ctx_growth(*old(context), *final(context)),
            spec_runs_no_images(hyperlink.content@) ==> r is Ok,
            // A hyperlink whose runs hold only stateless or field items is
            // pinned exactly.
            spec_runs_staticish(hyperlink.content@) ==> {
                &&& *final(context) == *old(context)
                &&& r is Ok
                &&& ({
                    let psid = match para_style_id {
                        Option::Some(s) => Option::Some(s@),
                        Option::None => Option::None,
                    };
                    let text = spec_hyperlink_text(
                        hyperlink.content@,
                        0,
                        Seq::empty(),
                        old(context).style_resolver.styles,
                        psid,
                        old(context).options.html_underline,
                        old(context).options.html_strikethrough,
                    );
                    r->Ok_0@ == spec_hyperlink_md(
                        text,
                        spec_hyperlink_url(*hyperlink, old(context).rels.entries@),
                    )
                })
            },
    {
        let ghost ctx0 = *context;
        let ghost staticish = spec_runs_staticish(hyperlink.content@);
        let ghost psid_v: Option<Seq<char>> = match para_style_id {
            Option::Some(s) => Option::Some(s@),
            Option::None => Option::None,
        };
        let ghost hu = ctx0.options.html_underline;
        let ghost hs = ctx0.options.html_strikethrough;
        proof {
            lemma_ctx_growth_refl(ctx0);
        }
        let mut link_text = String::new();
        let mut field_stack: Vec<FieldPhase> = Vec::new();
        let n = hyperlink.content.len();
        let mut i: usize = 0;
        while i < n
            invariant
                old(context).wf(),
                context.wf(),
                n == hyperlink.content@.len(),
                0 <= i <= n,
                ctx0 == *old(context),
                staticish == spec_runs_staticish(hyperlink.content@),
                psid_v == (match para_style_id {
                    Option::Some(s) => Option::Some(s@),
                    Option::None => Option::None,
                }),
                hu == ctx0.options.html_underline,
                hs == ctx0.options.html_strikethrough,
                spec_ctx_growth(ctx0, *context),
                staticish ==> {
                    &&& *context == ctx0
                    &&& spec_hyperlink_text(
                        hyperlink.content@,
                        0,
                        Seq::empty(),
                        ctx0.style_resolver.styles,
                        psid_v,
                        hu,
                        hs,
                    ) == link_text@ + spec_hyperlink_text(
                        hyperlink.content@,
                        i as int,
                        field_stack@,
                        ctx0.style_resolver.styles,
                        psid_v,
                        hu,
                        hs,
                    )
                },
            decreases n - i,
        {
            let ghost pre = *context;
            let ghost st_pre = field_stack@;
            let ghost lt_pre = link_text@;
            proof {
                if spec_runs_no_images(hyperlink.content@) {
                    lemma_runs_no_images_elem(hyperlink.content@, i as int);
                }
                if staticish {
                    assert(spec_run_staticish(hyperlink.content@[i as int].content@));
                }
            }
            let filtered = Self::filter_run_by_field_state(&hyperlink.content[i], &mut field_stack);
            proof {
                if spec_runs_no_images(hyperlink.content@) {
                    lemma_filter_no_images(hyperlink.content@[i as int].content@, st_pre);
                }
                if staticish {
                    lemma_filter_staticish(hyperlink.content@[i as int].content@, st_pre);
                }
            }
            if filtered.content.len() > 0 {
                let res = RunConverter::convert(&filtered, context, para_style_id);
                proof {
                    lemma_ctx_growth_trans(ctx0, pre, *context);
                }
                match res {
                    Ok(t) => link_text.append(t.as_str()),
                    Err(e) => {
                        proof {
                            if spec_runs_no_images(hyperlink.content@) {
                                assert(false);
                            }
                        }
                        return Err(e);
                    },
                }
            }
            proof {
                if staticish {
                    let runs = hyperlink.content@;
                    let (kept, st2) = spec_field_filter(runs[i as int].content@, st_pre);
                    assert(filtered.content@ == kept);
                    assert(field_stack@ == st2);
                    assert(filtered.property == runs[i as int].property);
                    assert(spec_hyperlink_text(
                        runs,
                        i as int,
                        st_pre,
                        ctx0.style_resolver.styles,
                        psid_v,
                        hu,
                        hs,
                    ) == (if kept.len() == 0 {
                        Seq::<char>::empty()
                    } else {
                        let text = crate::run::spec_run_plain_text(kept);
                        if text.len() == 0 {
                            Seq::<char>::empty()
                        } else {
                            crate::run::spec_apply_run_formatting(
                                text,
                                spec_run_props(runs[i as int], ctx0.style_resolver.styles, psid_v),
                                hu,
                                hs,
                            )
                        }
                    }) + spec_hyperlink_text(
                        runs,
                        i + 1,
                        st2,
                        ctx0.style_resolver.styles,
                        psid_v,
                        hu,
                        hs,
                    ));
                    assert(lt_pre + (spec_hyperlink_text(
                        runs,
                        i as int,
                        st_pre,
                        ctx0.style_resolver.styles,
                        psid_v,
                        hu,
                        hs,
                    )) =~= link_text@ + spec_hyperlink_text(
                        runs,
                        i + 1,
                        st2,
                        ctx0.style_resolver.styles,
                        psid_v,
                        hu,
                        hs,
                    ));
                }
            }
            i = i + 1;
        }

        let url: String = match &hyperlink.anchor {
            Option::Some(anchor) => {
                let mut u = String::from_str("#");
                let esc = escape_markdown_link_destination(anchor.as_str());
                u.append(esc.as_str());
                u
            },
            Option::None => match &hyperlink.id {
                Option::Some(id) => match context.relationship_target(id.as_str()) {
                    Option::Some(t) => t,
                    Option::None => String::from_str("#"),
                },
                Option::None => String::from_str("#"),
            },
        };

        if link_text.unicode_len() == 0 {
            Ok(url)
        } else {
            let mut md = String::from_str("[");
            let et = escape_markdown_link_text(link_text.as_str());
            md.append(et.as_str());
            md.append("](");
            let eu = escape_markdown_link_destination(url.as_str());
            md.append(eu.as_str());
            md.append(")");
            Ok(md)
        }
    }

    /// Collects formatted segments from paragraph content, walking runs
    /// through the field-code state machine, hyperlinks, bookmarks,
    /// structured document tags, and tracked insertions and deletions, in
    /// document order. The shared state only grows.
    pub fn collect_segments(para: &ParagraphNode, context: &mut ConversionContext) -> (r: Result<
        Vec<FormattedSegment>,
        Error,
    >)
        requires
            old(context).wf(),
        ensures
            final(context).wf(),
            spec_ctx_growth(*old(context), *final(context)),
            spec_para_no_link_images(*para) == 0 ==> r is Ok,
            spec_static_para(*para) ==> {
                &&& *final(context) == *old(context)
                &&& r is Ok
                &&& spec_seg_views(r->Ok_0@) == spec_collect_static(
                    para.content@,
                    0,
                    Seq::empty(),
                    old(context).style_resolver.styles,
                    spec_psid_of(*para),
                )
            },
            spec_plain_paragraph(*para) ==> {
                &&& *final(context) == *old(context)
                &&& r is Ok
                &&& ({
                    let props = spec_resolve_run(
                        old(context).style_resolver.styles,
                        Option::None,
                        Option::None,
                        Option::None,
                    );
                    spec_seg_views(r->Ok_0@) == Self::spec_run_to_segments(
                        spec_split(spec_plain_para_text(*para), "\n\n---\n\n"@),
                        0,
                        spec_is_on(props.bold),
                        spec_is_on(props.italics),
                        props.underline is Some,
                        spec_is_on(props.strike),
                    )
                })
            },
        decreases spec_para_size(*para),
    {
        let ghost plain = spec_plain_paragraph(*para);
        let ghost statics = spec_static_para(*para);
        let ghost styles_v = old(context).style_resolver.styles;
        let ghost psid_g = spec_psid_of(*para);
        let ghost ctx0 = *context;
        proof {
            lemma_ctx_growth_refl(ctx0);
        }
        let mut segments: Vec<FormattedSegment> = Vec::new();
        let mut field_stack: Vec<FieldPhase> = Vec::new();
        let psid_owned: Option<String> = match &para.property {
            Option::Some(p) => match &p.style_id {
                Option::Some(s) => Option::Some(s.clone()),
                Option::None => Option::None,
            },
            Option::None => Option::None,
        };
        let n = para.content.len();
        let mut i: usize = 0;
        while i < n
            invariant
                old(context).wf(),
                context.wf(),
                n == para.content@.len(),
                0 <= i <= n,
                ctx0 == *old(context),
                spec_ctx_growth(ctx0, *context),
                spec_para_size(*para) == 1 + spec_pc_list_size(para.content@),
                plain == spec_plain_paragraph(*para),
                statics == spec_static_para(*para),
                styles_v == old(context).style_resolver.styles,
                psid_g == spec_psid_of(*para),
                psid_g == (match psid_owned {
                    Option::Some(s) => Option::Some(s@),
                    Option::None => Option::None,
                }),
                psid_owned is Some ==> para.property is Some,
                statics ==> {
                    &&& *context == ctx0
                    &&& spec_collect_static(para.content@, 0, Seq::empty(), styles_v, psid_g)
                        == spec_seg_views(segments@) + spec_collect_static(
                        para.content@,
                        i as int,
                        field_stack@,
                        styles_v,
                        psid_g,
                    )
                },
                plain ==> {
                    &&& *context == ctx0
                    &&& field_stack@.len() == 0
                    &&& (i == 0 ==> segments@.len() == 0)
                    &&& (i >= 1 ==> spec_seg_views(segments@) == Self::spec_run_to_segments(
                        spec_split(spec_plain_para_text(*para), "\n\n---\n\n"@),
                        0,
                        spec_is_on(
                            spec_resolve_run(
                                ctx0.style_resolver.styles,
                                Option::None,
                                Option::None,
                                Option::None,
                            ).bold,
                        ),
                        spec_is_on(
                            spec_resolve_run(
                                ctx0.style_resolver.styles,
                                Option::None,
                                Option::None,
                                Option::None,
                            ).italics,
                        ),
                        spec_resolve_run(
                            ctx0.style_resolver.styles,
                            Option::None,
                            Option::None,
                            Option::None,
                        ).underline is Some,
                        spec_is_on(
                            spec_resolve_run(
                                ctx0.style_resolver.styles,
                                Option::None,
                                Option::None,
                                Option::None,
                            ).strike,
                        ),
                    ))
                },
            decreases n - i,
        {
            let ghost pre = *context;
            proof {
                lemma_pc_elem_size(para.content@, i as int);
            }
            match &para.content[i] {
                ParagraphContentNode::Run(run) => {
                    proof {
                        if plain {
                            assert(i == 0);
                            assert(field_stack@ =~= Seq::<FieldPhase>::empty());
                            lemma_field_filter_identity(run.content@);
                        }
                        if statics {
                            assert(spec_static_pc(para.content@[i as int]));
                        }
                    }
                    let ghost pre_segs = spec_seg_views(segments@);
                    let ghost st_pre = field_stack@;
                    let filtered = Self::filter_run_by_field_state(run, &mut field_stack);
                    proof {
                        if plain {
                            assert(filtered.content@ == run.content@);
                            assert(field_stack@ =~= Seq::<FieldPhase>::empty());
                        }
                        if statics {
                            lemma_filter_pe_plain(run.content@, st_pre);
                        }
                    }
                    if filtered.content.len() > 0 {
                        let text = Self::extract_text(&filtered, context);
                        proof {
                            lemma_ctx_growth_trans(ctx0, pre, *context);
                            if plain {
                                assert(spec_pe_plain(filtered.content@));
                                assert(text@ == spec_plain_para_text(*para));
                            }
                        }
                        if text.unicode_len() > 0 {
                            let segs = Self::run_to_segment(
                                &filtered,
                                text.as_str(),
                                context,
                                match &psid_owned {
                                    Option::Some(s) => Option::Some(s.as_str()),
                                    Option::None => Option::None,
                                },
                            );
                            let m = segs.len();
                            let mut k: usize = 0;
                            while k < m
                                invariant
                                    m == segs@.len(),
                                    0 <= k <= m,
                                    spec_seg_views(segments@) == pre_segs + spec_seg_views(
                                        segs@,
                                    ).take(k as int),
                                decreases m - k,
                            {
                                let ghost seg_old = segments@;
                                segments.push(clone_segment(&segs[k]));
                                proof {
                                    assert(spec_seg_views(segments@) =~= spec_seg_views(
                                        seg_old,
                                    ).push(segs@[k as int]@));
                                    assert(spec_seg_views(seg_old).push(segs@[k as int]@)
                                        =~= pre_segs + spec_seg_views(segs@).take(k + 1));
                                }
                                k = k + 1;
                            }
                            proof {
                                assert(spec_seg_views(segs@).take(m as int) =~= spec_seg_views(
                                    segs@,
                                ));
                                if plain {
                                    assert(spec_seg_views(segments@) =~= spec_seg_views(segs@));
                                }
                            }
                        } else {
                            proof {
                                if plain {
                                    lemma_rts_of_empty_text(ctx0, text@);
                                }
                            }
                        }
                    } else {
                        proof {
                            if plain {
                                assert(run.content@.len() == 0);
                                assert(spec_plain_para_text(*para) =~= Seq::<char>::empty());
                                lemma_rts_of_empty_text(ctx0, spec_plain_para_text(*para));
                                assert(spec_seg_views(segments@) =~= Seq::<SegView>::empty());
                            }
                        }
                    }
                    proof {
                        if statics {
                            let (kept, st2) = spec_field_filter(run.content@, st_pre);
                            assert(filtered.content@ == kept);
                            assert(field_stack@ == st2);
                            assert(filtered.property == run.property);
                            let segs_spec = if kept.len() == 0 {
                                Seq::<SegView>::empty()
                            } else {
                                let text = spec_pe_plain_text(kept);
                                if text.len() == 0 {
                                    Seq::<SegView>::empty()
                                } else {
                                    let props = spec_run_props(*run, styles_v, psid_g);
                                    Self::spec_run_to_segments(
                                        spec_split(text, "\n\n---\n\n"@),
                                        0,
                                        spec_is_on(props.bold),
                                        spec_is_on(props.italics),
                                        props.underline is Some,
                                        spec_is_on(props.strike),
                                    )
                                }
                            };
                            assert(spec_seg_views(segments@) =~= pre_segs + segs_spec);
                            assert(spec_collect_static(
                                para.content@,
                                i as int,
                                st_pre,
                                styles_v,
                                psid_g,
                            ) == segs_spec + spec_collect_static(
                                para.content@,
                                i + 1,
                                st2,
                                styles_v,
                                psid_g,
                            ));
                            assert(pre_segs + (segs_spec + spec_collect_static(
                                para.content@,
                                i + 1,
                                st2,
                                styles_v,
                                psid_g,
                            )) =~= spec_seg_views(segments@) + spec_collect_static(
                                para.content@,
                                i + 1,
                                st2,
                                styles_v,
                                psid_g,
                            ));
                        }
                    }
                },
                ParagraphContentNode::Link(hyperlink) => {
                    proof {
                        if plain {
                            assert(para.content@[i as int] is Run);
                            assert(false);
                        }
                        if statics {
                            assert(spec_static_pc(para.content@[i as int]));
                            assert(false);
                        }
                        if spec_para_no_link_images(*para) == 0 {
                            lemma_pc_list_nli_elem(para.content@, i as int);
                            assert(spec_runs_no_images(hyperlink.content@));
                        }
                    }
                    let res = Self::convert_hyperlink(
                        hyperlink,
                        context,
                        match &psid_owned {
                            Option::Some(s) => Option::Some(s.as_str()),
                            Option::None => Option::None,
                        },
                    );
                    proof {
                        lemma_ctx_growth_trans(ctx0, pre, *context);
                    }
                    match res {
                        Ok(link_md) => {
                            if link_md.unicode_len() > 0 {
                                segments.push(FormattedSegment::plain(link_md));
                            }
                        },
                        Err(e) => {
                            proof {
                                if spec_para_no_link_images(*para) == 0 {
                                    assert(false);
                                }
                            }
                            return Err(e);
                        },
                    }
                },
                ParagraphContentNode::BookmarkStart(name) => {
                    proof {
                        if plain {
                            assert(para.content@[i as int] is Run);
                            assert(false);
                        }
                    }
                    if let Option::Some(nm) = name {
                        segments.push(
                            FormattedSegment {
                                text: String::new(),
                                is_bold: false,
                                is_italic: false,
                                has_underline: false,
                                has_strike: false,
                                is_insertion: false,
                                is_deletion: false,
                                anchor: Option::Some(nm.clone()),
                            },
                        );
                    }
                },
                ParagraphContentNode::Sdt(inner) => {
                    proof {
                        if plain {
                            assert(para.content@[i as int] is Run);
                            assert(false);
                        }
                        if statics {
                            assert(spec_static_pc(para.content@[i as int]));
                            assert(false);
                        }
                    }
                    let m = inner.len();
                    let mut j: usize = 0;
                    while j < m
                        invariant
                            old(context).wf(),
                            context.wf(),
                            0 <= i < n,
                            n == para.content@.len(),
                            m == inner@.len(),
                            para.content@[i as int] == ParagraphContentNode::Sdt(*inner),
                            spec_para_size(*para) == 1 + spec_pc_list_size(para.content@),
                            0 <= j <= m,
                            ctx0 == *old(context),
                            spec_ctx_growth(ctx0, *context),
                        decreases m - j,
                    {
                        let ghost pre2 = *context;
                        proof {
                            lemma_pc_elem_size(para.content@, i as int);
                            lemma_para_elem_size(inner@, j as int);
                            assert(spec_pc_size(para.content@[i as int]) == 1
                                + spec_para_list_size(inner@));
                            if spec_para_no_link_images(*para) == 0 {
                                lemma_pc_list_nli_elem(para.content@, i as int);
                                lemma_para_list_nli_elem(inner@, j as int);
                                assert(spec_para_no_link_images(inner@[j as int]) == 0);
                            }
                        }
                        let res = Self::collect_segments(&inner[j], context);
                        proof {
                            lemma_ctx_growth_trans(ctx0, pre2, *context);
                        }
                        match res {
                            Ok(inner_segs) => {
                                let ml = inner_segs.len();
                                let mut k: usize = 0;
                                while k < ml
                                    invariant
                                        ml == inner_segs@.len(),
                                        0 <= k <= ml,
                                    decreases ml - k,
                                {
                                    segments.push(clone_segment(&inner_segs[k]));
                                    k = k + 1;
                                }
                            },
                            Err(e) => {
                                proof {
                                    if spec_para_no_link_images(*para) == 0 {
                                        assert(false);
                                    }
                                }
                                return Err(e);
                            },
                        }
                        j = j + 1;
                    }
                },
                ParagraphContentNode::Insertion(runs) => {
                    proof {
                        if plain {
                            assert(para.content@[i as int] is Run);
                            assert(false);
                        }
                        if statics {
                            assert(spec_static_pc(para.content@[i as int]));
                            assert(false);
                        }
                    }
                    let m = runs.len();
                    let mut j: usize = 0;
                    while j < m
                        invariant
                            old(context).wf(),
                            context.wf(),
                            m == runs@.len(),
                            0 <= j <= m,
                            ctx0 == *old(context),
                            spec_ctx_growth(ctx0, *context),
                        decreases m - j,
                    {
                        let ghost pre2 = *context;
                        let text = Self::extract_text(&runs[j], context);
                        proof {
                            lemma_ctx_growth_trans(ctx0, pre2, *context);
                        }
                        if text.unicode_len() > 0 {
                            let segs = Self::run_to_segment(
                                &runs[j],
                                text.as_str(),
                                context,
                                match &psid_owned {
                                    Option::Some(s) => Option::Some(s.as_str()),
                                    Option::None => Option::None,
                                },
                            );
                            let ml = segs.len();
                            let mut k: usize = 0;
                            while k < ml
                                invariant
                                    ml == segs@.len(),
                                    0 <= k <= ml,
                                decreases ml - k,
                            {
                                let mut seg = clone_segment(&segs[k]);
                                seg.is_insertion = true;
                                segments.push(seg);
                                k = k + 1;
                            }
                        }
                        j = j + 1;
                    }
                },
                ParagraphContentNode::Deletion(runs) => {
                    proof {
                        if plain {
                            assert(para.content@[i as int] is Run);
                            assert(false);
                        }
                        if statics {
                            assert(spec_static_pc(para.content@[i as int]));
                            assert(false);
                        }
                    }
                    let text = Self::extract_deleted_text(runs);
                    if text.unicode_len() > 0 {
                        segments.push(
                            FormattedSegment {
                                text,
                                is_bold: false,
                                is_italic: false,
                                has_underline: false,
                                has_strike: false,
                                is_insertion: false,
                                is_deletion: true,
                                anchor: Option::None,
                            },
                        );
                    }
                },
            }
            i = i + 1;
        }
        Ok(segments)
    }

    /// Converts a paragraph to Markdown: its segments are collected and
    /// merged, leading bookmark anchors are hoisted onto the line before
    /// the visible text, and paragraph-level formatting is applied. The
    /// shared state only grows, keeping document order for reference
    /// indices and list counters.
    pub fn convert(para: &ParagraphNode, context: &mut ConversionContext) -> (r: Result<
        String,
        Error,
    >)
        requires
            old(context).wf(),
        ensures
            final(context).wf(),
            spec_ctx_growth(*old(context), *final(context)),
            spec_para_no_link_images(*para) == 0 ==> r is Ok,
            // A static paragraph (bookmarks and runs of stateless or field
            // items) is pinned exactly: its collected segments are merged,
            // leading anchors hoist onto a tag line, the rest renders with
            // its formatting, and the paragraph-level prefixes, trimming
            // and alignment are applied; list counters advance exactly one
            // next-marker step when the paragraph is numbered.
            spec_static_para(*para) ==> {
                let segs = spec_collect_static(
                    para.content@,
                    0,
                    Seq::empty(),
                    old(context).style_resolver.styles,
                    spec_psid_of(*para),
                );
                let merged_v = spec_merge_segments(segs);
                let sp = spec_split_anchors(merged_v, 0, true);
                let rtext = spec_render_segments(
                    sp.1,
                    old(context).options.html_underline,
                    old(context).options.html_strikethrough,
                );
                let empty_out = if old(context).options.preserve_whitespace {
                    rtext.len() == 0
                } else {
                    spec_trim(rtext).len() == 0
                };
                let eff = spec_resolve_para(
                    old(context).style_resolver.styles,
                    match para.property {
                        Option::Some(p) => Option::Some(p),
                        Option::None => Option::None,
                    },
                    spec_psid_of(*para),
                );
                let heading_blank = spec_heading_of(eff) is Some && spec_trim(rtext).len() == 0;
                &&& r is Ok
                &&& (empty_out ==> r->Ok_0@ == sp.0 && *final(context) == *old(context))
                &&& (!empty_out ==> {
                    let formatted = if heading_blank {
                        Seq::<char>::empty()
                    } else {
                        match spec_num_ref(eff) {
                            Option::None => spec_para_formatted(
                                eff,
                                false,
                                Seq::empty(),
                                0,
                                rtext,
                                old(context).options.preserve_whitespace,
                            ),
                            Option::Some(nl) => spec_para_formatted(
                                eff,
                                true,
                                old(context).numbering.spec_nm_result(nl.0, nl.1),
                                old(context).numbering.spec_get_indent(nl.0, nl.1),
                                rtext,
                                old(context).options.preserve_whitespace,
                            ),
                        }
                    };
                    &&& r->Ok_0@ == (if sp.0.len() > 0 {
                        sp.0 + "
"@ + formatted
                    } else {
                        formatted
                    })
                    &&& (match spec_num_ref(eff) {
                        Option::Some(nl) => if heading_blank {
                            *final(context) == *old(context)
                        } else {
                            spec_para_format_state(*old(context), *final(context), nl.0, nl.1)
                        },
                        Option::None => *final(context) == *old(context),
                    })
                })
            },
            // A plain paragraph (one stateless run, no direct properties)
            // whose style sheet resolves to unset character formatting and
            // to no heading and no numbering is pinned exactly: its text,
            // trimmed unless whitespace is preserved, inside the alignment
            // container its effective justification calls for.
            ({
                let text = spec_plain_para_text(*para);
                let eff = spec_resolve_para(
                    old(context).style_resolver.styles,
                    Option::None,
                    Option::None,
                );
                (spec_plain_paragraph(*para) && spec_resolve_run(
                    old(context).style_resolver.styles,
                    Option::None,
                    Option::None,
                    Option::None,
                ) == CharProps::spec_unset() && spec_trim(text).len() > 0 && spec_find(
                    text,
                    "\n\n---\n\n"@,
                ) is None && spec_heading_of(eff) is None && spec_num_ref(eff) is None) ==> {
                    &&& *final(context) == *old(context)
                    &&& r is Ok
                    &&& r->Ok_0@ == spec_para_formatted(
                        eff,
                        false,
                        Seq::empty(),
                        0,
                        text,
                        old(context).options.preserve_whitespace,
                    )
                }
            }),
    {
        let ghost ctx0 = *context;
        let ghost staticp = spec_static_para(*para);
        let ghost pinned = spec_plain_paragraph(*para) && spec_resolve_run(
            ctx0.style_resolver.styles,
            Option::None,
            Option::None,
            Option::None,
        ) == CharProps::spec_unset() && spec_trim(spec_plain_para_text(*para)).len() > 0
            && spec_find(spec_plain_para_text(*para), "\n\n---\n\n"@) is None
            && spec_heading_of(
            spec_resolve_para(ctx0.style_resolver.styles, Option::None, Option::None),
        ) is None && spec_num_ref(
            spec_resolve_para(ctx0.style_resolver.styles, Option::None, Option::None),
        ) is None;
        let ghost ptext = spec_plain_para_text(*para);
        let ghost pseg = SegView {
            text: ptext,
            is_bold: false,
            is_italic: false,
            has_underline: false,
            has_strike: false,
            is_insertion: false,
            is_deletion: false,
            anchor: Option::None,
        };
        proof {
            lemma_ctx_growth_refl(ctx0);
        }
        let segments = match Self::collect_segments(para, context) {
            Ok(s) => s,
            Err(e) => {
                proof {
                    if spec_para_no_link_images(*para) == 0 {
                        assert(false);
                    }
                }
                return Err(e);
            },
        };
        let merged = merge_segments(segments);
        proof {
            if pinned {
                if ptext.len() == 0 {
                    assert(spec_lead_ws(ptext) == 0);
                    assert(spec_trim(ptext).len() == 0);
                }
                assert(ptext.len() > 0);
                reveal_strlit("\n\n---\n\n");
                let pv = spec_split(ptext, "\n\n---\n\n"@);
                assert(pv =~= seq![ptext]);
                let e = Seq::<SegView>::empty();
                assert(Self::spec_run_to_segments(pv, 1, false, false, false, false) == e);
                assert(Self::spec_run_to_segments(pv, 0, false, false, false, false)
                    =~= seq![pseg]);
                assert(spec_seg_views(segments@) =~= seq![pseg]);
                let one: Seq<SegView> = seq![pseg];
                assert(one.drop_last() =~= e);
                assert(spec_merge_segments(e) == e);
                assert(one.last() == pseg);
                assert(spec_merge_segments(one) == e.push(pseg));
                assert(spec_seg_views(merged@) =~= seq![pseg]);
            }
        }

        let mut anchor_tags = String::new();
        let mut content_segments: Vec<FormattedSegment> = Vec::new();
        let mut looking_for_anchors = true;
        let n = merged.len();
        let mut i: usize = 0;
        proof {
            assert(anchor_tags@ + spec_split_anchors(spec_seg_views(merged@), 0, true).0
                =~= spec_split_anchors(spec_seg_views(merged@), 0, true).0);
            assert(spec_seg_views(content_segments@) + spec_split_anchors(
                spec_seg_views(merged@),
                0,
                true,
            ).1 =~= spec_split_anchors(spec_seg_views(merged@), 0, true).1);
        }
        while i < n
            invariant
                n == merged@.len(),
                0 <= i <= n,
                ({
                    let total = spec_split_anchors(spec_seg_views(merged@), 0, true);
                    let future = spec_split_anchors(
                        spec_seg_views(merged@),
                        i as int,
                        looking_for_anchors,
                    );
                    total.0 == anchor_tags@ + future.0 && total.1 == spec_seg_views(
                        content_segments@,
                    ) + future.1
                }),
                pinned ==> {
                    &&& spec_seg_views(merged@) == seq![pseg]
                    &&& anchor_tags@ == Seq::<char>::empty()
                    &&& spec_seg_views(content_segments@) == spec_seg_views(merged@).take(i as int)
                    &&& pseg.text == ptext
                    &&& ptext.len() > 0
                },
            decreases n - i,
        {
            let seg = &merged[i];
            let ghost at_pre = anchor_tags@;
            let ghost cs_pre2 = spec_seg_views(content_segments@);
            let ghost looking_pre = looking_for_anchors;
            proof {
                assert(spec_seg_views(merged@)[i as int] == merged@[i as int]@);
                if pinned {
                    assert(merged@[i as int]@ == pseg);
                }
            }
            let is_lead_anchor = looking_for_anchors && seg.text.unicode_len() == 0
                && seg.anchor.is_some();
            if is_lead_anchor {
                proof {
                    if pinned {
                        assert(pseg.text.len() > 0);
                        assert(false);
                    }
                }
                match &seg.anchor {
                    Option::Some(anchor) => {
                        anchor_tags.append("<a id=\"");
                        let esc = escape_html_attr(anchor.as_str());
                        anchor_tags.append(esc.as_str());
                        anchor_tags.append("\"></a>");
                    },
                    Option::None => {
                    },
                }
                proof {
                    let mv = spec_seg_views(merged@);
                    let sv2 = mv[i as int];
                    assert(anchor_tags@ =~= at_pre + ("<a id=\""@
                        + crate::escape::spec_escape_html_attr(sv2.anchor->Some_0)
                        + "\"></a>"@));
                    assert(at_pre + (("<a id=\""@ + crate::escape::spec_escape_html_attr(
                        sv2.anchor->Some_0,
                    ) + "\"></a>"@) + spec_split_anchors(mv, i + 1, true).0) =~= anchor_tags@
                        + spec_split_anchors(mv, i + 1, true).0);
                }
            } else {
                let ghost cs_old = content_segments@;
                looking_for_anchors = false;
                content_segments.push(clone_segment(seg));
                proof {
                    let mv = spec_seg_views(merged@);
                    assert(spec_seg_views(content_segments@) =~= cs_pre2.push(mv[i as int]));
                    assert(cs_pre2 + (seq![mv[i as int]] + spec_split_anchors(mv, i + 1, false).1)
                        =~= spec_seg_views(content_segments@) + spec_split_anchors(
                        mv,
                        i + 1,
                        false,
                    ).1);
                    if pinned {
                        assert(spec_seg_views(content_segments@) =~= spec_seg_views(
                            cs_old,
                        ).push(merged@[i as int]@));
                        assert(spec_seg_views(content_segments@) =~= spec_seg_views(
                            merged@,
                        ).take(i + 1));
                    }
                }
            }
            i = i + 1;
        }
        proof {
            let total = spec_split_anchors(spec_seg_views(merged@), 0, true);
            assert(anchor_tags@ + Seq::<char>::empty() =~= anchor_tags@);
            assert(spec_seg_views(content_segments@) + Seq::<SegView>::empty()
                =~= spec_seg_views(content_segments@));
            assert(total.0 == anchor_tags@);
            assert(total.1 == spec_seg_views(content_segments@));
        }

        proof {
            if pinned {
                assert(spec_seg_views(content_segments@) =~= seq![pseg]);
            }
        }
        let text = Self::segments_to_markdown(&content_segments, context);
        proof {
            if pinned {
                let one: Seq<SegView> = seq![pseg];
                assert(one.drop_last() =~= Seq::<SegView>::empty());
                assert(spec_render_segments(Seq::<SegView>::empty(), ctx0.options.html_underline,
                    ctx0.options.html_strikethrough) == Seq::<char>::empty());
                lemma_plain_segment_renders_text(
                    pseg,
                    ctx0.options.html_underline,
                    ctx0.options.html_strikethrough,
                );
                assert(text@ =~= ptext);
            }
        }

        let is_effectively_empty = if context.preserve_whitespace() {
            text.unicode_len() == 0
        } else {
            is_blank(text.as_str())
        };
        if is_effectively_empty {
            proof {
                if pinned {
                    assert(spec_trim(ptext).len() > 0);
                    assert(false);
                }
            }
            return Ok(anchor_tags);
        }

        let ghost pre = *context;
        let formatted = match Self::apply_paragraph_formatting(para, text, context) {
            Ok(f) => f,
            Err(e) => {
                proof {
                    lemma_ctx_growth_trans(ctx0, pre, *context);
                }
                return Err(e);
            },
        };
        proof {
            lemma_ctx_growth_trans(ctx0, pre, *context);
            if pinned {
                assert(*context == ctx0);
            }
        }

        if anchor_tags.unicode_len() > 0 {
            let mut out = anchor_tags;
            out.append("\n");
            out.append(formatted.as_str());
            Ok(out)
        } else {
            Ok(formatted)
        }
    }
}

} // verus!
