//! The conversion context: the reference registry for footnotes, endnotes
//! and comments, plus the resolvers and options threaded through one
//! document traversal.

use vstd::prelude::*;

use crate::ast::ReferenceDefinitions;
use crate::error::Error;
use crate::image::{ImageExtractor, spec_find_blip_id, spec_find_pict_id, spec_process_post};
use crate::model::{CharProps, CommentInput, DrawingNode, NoteInput, ParaProps, PictNode,
    RelationshipMap, spec_lookup_str};
use crate::numbering::NumberingResolver;
use crate::styles::{StyleResolver, spec_resolve_para, spec_resolve_run, spec_str_views};
use crate::text::{clone_pair_vec, clone_string_vec, i64_to_string, join_strings, push_char,
    spec_dec_digits, spec_int_str, spec_join, str_eq, u64_to_string};
use crate::ConvertOptions;

verus! {

/// The last text recorded for an integer identifier.
pub open spec fn spec_text_of_i64(entries: Seq<(i64, String)>, id: i64) -> Option<Seq<char>>
    decreases entries.len(),
{
    if entries.len() == 0 {
        Option::None
    } else if entries.last().0 == id {
        Option::Some(entries.last().1@)
    } else {
        spec_text_of_i64(entries.drop_last(), id)
    }
}

/// The last display index recorded for an integer identifier.
pub open spec fn spec_idx_of_i64(entries: Seq<(i64, usize)>, id: i64) -> Option<int>
    decreases entries.len(),
{
    if entries.len() == 0 {
        Option::None
    } else if entries.last().0 == id {
        Option::Some(entries.last().1 as int)
    } else {
        spec_idx_of_i64(entries.drop_last(), id)
    }
}

pub open spec fn spec_footnote_marker(idx: int) -> Seq<char> {
    "[^"@ + spec_dec_digits(idx as nat) + "]"@
}

pub open spec fn spec_endnote_marker(idx: int) -> Seq<char> {
    "[^en"@ + spec_dec_digits(idx as nat) + "]"@
}

pub open spec fn spec_comment_marker(id: Seq<char>) -> Seq<char> {
    "[^c"@ + id + "]"@
}

/// The text-map entries built from a note container: one entry per note
/// with an identifier, its text the space-joined paragraph texts.
pub open spec fn spec_note_text_entries(notes: Seq<NoteInput>) -> Seq<(i64, Seq<char>)>
    decreases notes.len(),
{
    if notes.len() == 0 {
        Seq::empty()
    } else {
        spec_note_text_entries(notes.drop_last()) + (match notes.last().id {
            Option::Some(id) => seq![
                (id, spec_join(notes.last().texts@.map_values(|t: String| t@), " "@)),
            ],
            Option::None => Seq::empty(),
        })
    }
}

/// The text-map entries built from a comment container, keyed by the
/// identifier's decimal rendering.
pub open spec fn spec_comment_text_entries(comments: Seq<CommentInput>) -> Seq<
    (Seq<char>, Seq<char>),
>
    decreases comments.len(),
{
    if comments.len() == 0 {
        Seq::empty()
    } else {
        spec_comment_text_entries(comments.drop_last()) + (match comments.last().id {
            Option::Some(id) => seq![(spec_int_str(id as int), comments.last().text@)],
            Option::None => Seq::empty(),
        })
    }
}

pub open spec fn spec_i64_text_view(s: Seq<(i64, String)>) -> Seq<(i64, Seq<char>)> {
    s.map_values(|p: (i64, String)| (p.0, p.1@))
}

pub open spec fn spec_pair_view(s: Seq<(String, String)>) -> Seq<(Seq<char>, Seq<char>)> {
    s.map_values(|p: (String, String)| (p.0@, p.1@))
}

/// Context passed through a conversion for shared mutable state.
pub struct ConversionContext {
    pub rels: RelationshipMap,
    pub numbering: NumberingResolver,
    pub image_extractor: ImageExtractor,
    pub options: ConvertOptions,
    pub style_resolver: StyleResolver,
    pub footnotes: Vec<String>,
    pub footnote_index_by_id: Vec<(i64, usize)>,
    pub footnote_text_by_id: Vec<(i64, String)>,
    pub endnotes: Vec<String>,
    pub endnote_index_by_id: Vec<(i64, usize)>,
    pub endnote_text_by_id: Vec<(i64, String)>,
    pub comments: Vec<(String, String)>,
    pub seen_comment_ids: Vec<String>,
    pub comment_text_by_id: Vec<(String, String)>,
    pub missing_references: Vec<String>,
}

/// What registering a footnote reference does: a known identifier returns
/// its cached marker and changes nothing; a new identifier appends its
/// definition text (empty, with a diagnostic, when undefined), takes the
/// next display index, and is cached under it.
pub open spec fn spec_register_footnote_post(
    pre: ConversionContext,
    post: ConversionContext,
    id: i64,
    r: Seq<char>,
) -> bool {
    &&& post.endnotes@ == pre.endnotes@
    &&& post.endnote_index_by_id@ == pre.endnote_index_by_id@
    &&& post.comments@ == pre.comments@
    &&& post.seen_comment_ids@ == pre.seen_comment_ids@
    &&& post.footnote_text_by_id@ == pre.footnote_text_by_id@
    &&& post.endnote_text_by_id@ == pre.endnote_text_by_id@
    &&& post.comment_text_by_id@ == pre.comment_text_by_id@
    &&& match spec_idx_of_i64(pre.footnote_index_by_id@, id) {
        Option::Some(idx) => {
            &&& r == spec_footnote_marker(idx)
            &&& post.footnotes@ == pre.footnotes@
            &&& post.footnote_index_by_id@ == pre.footnote_index_by_id@
            &&& post.missing_references@ == pre.missing_references@
        },
        Option::None => {
            let n = pre.footnotes@.len() + 1;
            &&& r == spec_footnote_marker(n as int)
            &&& post.footnotes@.len() == n
            &&& post.footnotes@.take(n - 1) == pre.footnotes@
            &&& post.footnote_index_by_id@ == pre.footnote_index_by_id@.push((id, n as usize))
            &&& match spec_text_of_i64(pre.footnote_text_by_id@, id) {
                Option::Some(t) => post.footnotes@.last()@ == t && post.missing_references@
                    == pre.missing_references@,
                Option::None => post.footnotes@.last()@ == Seq::<char>::empty()
                    && post.missing_references@.len() == pre.missing_references@.len() + 1
                    && post.missing_references@.last()@ == "footnote:"@ + spec_int_str(id as int)
                    && post.missing_references@.take(pre.missing_references@.len() as int)
                    == pre.missing_references@,
            }
        },
    }
}

/// The same shape for endnotes, with their own namespace and marker syntax.
pub open spec fn spec_register_endnote_post(
    pre: ConversionContext,
    post: ConversionContext,
    id: i64,
    r: Seq<char>,
) -> bool {
    &&& post.footnotes@ == pre.footnotes@
    &&& post.footnote_index_by_id@ == pre.footnote_index_by_id@
    &&& post.comments@ == pre.comments@
    &&& post.seen_comment_ids@ == pre.seen_comment_ids@
    &&& post.endnote_text_by_id@ == pre.endnote_text_by_id@
    &&& post.footnote_text_by_id@ == pre.footnote_text_by_id@
    &&& post.comment_text_by_id@ == pre.comment_text_by_id@
    &&& match spec_idx_of_i64(pre.endnote_index_by_id@, id) {
        Option::Some(idx) => {
            &&& r == spec_endnote_marker(idx)
            &&& post.endnotes@ == pre.endnotes@
            &&& post.endnote_index_by_id@ == pre.endnote_index_by_id@
            &&& post.missing_references@ == pre.missing_references@
        },
        Option::None => {
            let n = pre.endnotes@.len() + 1;
            &&& r == spec_endnote_marker(n as int)
            &&& post.endnotes@.len() == n
            &&& post.endnotes@.take(n - 1) == pre.endnotes@
            &&& post.endnote_index_by_id@ == pre.endnote_index_by_id@.push((id, n as usize))
            &&& match spec_text_of_i64(pre.endnote_text_by_id@, id) {
                Option::Some(t) => post.endnotes@.last()@ == t && post.missing_references@
                    == pre.missing_references@,
                Option::None => post.endnotes@.last()@ == Seq::<char>::empty()
                    && post.missing_references@.len() == pre.missing_references@.len() + 1
                    && post.missing_references@.last()@ == "endnote:"@ + spec_int_str(id as int)
                    && post.missing_references@.take(pre.missing_references@.len() as int)
                    == pre.missing_references@,
            }
        },
    }
}

/// Comment registration: deduplicated by the seen set; the marker always
/// carries the source identifier itself, not a renumbered index.
pub open spec fn spec_register_comment_post(
    pre: ConversionContext,
    post: ConversionContext,
    id: Seq<char>,
    r: Seq<char>,
) -> bool {
    &&& post.footnotes@ == pre.footnotes@
    &&& post.footnote_index_by_id@ == pre.footnote_index_by_id@
    &&& post.endnotes@ == pre.endnotes@
    &&& post.endnote_index_by_id@ == pre.endnote_index_by_id@
    &&& post.comment_text_by_id@ == pre.comment_text_by_id@
    &&& post.footnote_text_by_id@ == pre.footnote_text_by_id@
    &&& post.endnote_text_by_id@ == pre.endnote_text_by_id@
    &&& r == spec_comment_marker(id)
    &&& if spec_str_views(pre.seen_comment_ids@).contains(id) {
        &&& post.comments@ == pre.comments@
        &&& post.seen_comment_ids@ == pre.seen_comment_ids@
        &&& post.missing_references@ == pre.missing_references@
    } else {
        &&& post.comments@.len() == pre.comments@.len() + 1
        &&& post.comments@.take(pre.comments@.len() as int) == pre.comments@
        &&& post.comments@.last().0@ == id
        &&& post.seen_comment_ids@.len() == pre.seen_comment_ids@.len() + 1
        &&& post.seen_comment_ids@.last()@ == id
        &&& post.seen_comment_ids@.take(pre.seen_comment_ids@.len() as int)
            == pre.seen_comment_ids@
        &&& match spec_lookup_str(pre.comment_text_by_id@, id) {
            Option::Some(t) => post.comments@.last().1@ == t && post.missing_references@
                == pre.missing_references@,
            Option::None => post.comments@.last().1@ == Seq::<char>::empty()
                && post.missing_references@.len() == pre.missing_references@.len() + 1
                && post.missing_references@.last()@ == "comment:"@ + id
                && post.missing_references@.take(pre.missing_references@.len() as int)
                == pre.missing_references@,
        }
    }
}

/// The fields a registration never touches.
pub open spec fn spec_registry_frame(pre: ConversionContext, post: ConversionContext) -> bool {
    &&& post.rels == pre.rels
    &&& post.numbering == pre.numbering
    &&& post.image_extractor == pre.image_extractor
    &&& post.options == pre.options
    &&& post.style_resolver == pre.style_resolver
}

fn idx_of_i64(entries: &Vec<(i64, usize)>, id: i64) -> (r: Option<usize>)
    ensures
        match r {
            Option::Some(v) => spec_idx_of_i64(entries@, id) == Option::Some(v as int),
            Option::None => spec_idx_of_i64(entries@, id) is None,
        },
{
    let n = entries.len();
    let mut i: usize = n;
    proof {
        assert(entries@.take(n as int) =~= entries@);
    }
    while i > 0
        invariant
            n == entries@.len(),
            0 <= i <= n,
            spec_idx_of_i64(entries@, id) == spec_idx_of_i64(entries@.take(i as int), id),
        decreases i,
    {
        i = i - 1;
        proof {
            assert(entries@.take(i + 1).last() == entries@[i as int]);
            assert(entries@.take(i + 1).drop_last() =~= entries@.take(i as int));
        }
        if entries[i].0 == id {
            return Option::Some(entries[i].1);
        }
    }
    proof {
        assert(entries@.take(0) =~= Seq::<(i64, usize)>::empty());
    }
    Option::None
}

fn text_of_i64(entries: &Vec<(i64, String)>, id: i64) -> (r: Option<String>)
    ensures
        match r {
            Option::Some(v) => spec_text_of_i64(entries@, id) == Option::Some(v@),
            Option::None => spec_text_of_i64(entries@, id) is None,
        },
{
    let n = entries.len();
    let mut i: usize = n;
    proof {
        assert(entries@.take(n as int) =~= entries@);
    }
    while i > 0
        invariant
            n == entries@.len(),
            0 <= i <= n,
            spec_text_of_i64(entries@, id) == spec_text_of_i64(entries@.take(i as int), id),
        decreases i,
    {
        i = i - 1;
        proof {
            assert(entries@.take(i + 1).last() == entries@[i as int]);
            assert(entries@.take(i + 1).drop_last() =~= entries@.take(i as int));
        }
        if entries[i].0 == id {
            return Option::Some(entries[i].1.clone());
        }
    }
    proof {
        assert(entries@.take(0) =~= Seq::<(i64, String)>::empty());
    }
    Option::None
}

fn lookup_str_pair(entries: &Vec<(String, String)>, id: &str) -> (r: Option<String>)
    ensures
        match r {
            Option::Some(v) => spec_lookup_str(entries@, id@) == Option::Some(v@),
            Option::None => spec_lookup_str(entries@, id@) is None,
        },
{
    let n = entries.len();
    let mut i: usize = n;
    proof {
        assert(entries@.take(n as int) =~= entries@);
    }
    while i > 0
        invariant
            n == entries@.len(),
            0 <= i <= n,
            spec_lookup_str(entries@, id@) == spec_lookup_str(entries@.take(i as int), id@),
        decreases i,
    {
        i = i - 1;
        proof {
            assert(entries@.take(i + 1).last() == entries@[i as int]);
            assert(entries@.take(i + 1).drop_last() =~= entries@.take(i as int));
        }
        if str_eq(entries[i].0.as_str(), id) {
            return Option::Some(entries[i].1.clone());
        }
    }
    proof {
        assert(entries@.take(0) =~= Seq::<(String, String)>::empty());
    }
    Option::None
}

fn contains_str_vec(v: &Vec<String>, id: &str) -> (r: bool)
    ensures
        r == spec_str_views(v@).contains(id@),
{
    let n = v.len();
    let mut i: usize = 0;
    while i < n
        invariant
            n == v@.len(),
            0 <= i <= n,
            forall|j: int| 0 <= j < i ==> spec_str_views(v@)[j] != id@,
        decreases n - i,
    {
        if str_eq(v[i].as_str(), id) {
            proof {
                assert(spec_str_views(v@)[i as int] == id@);
            }
            return true;
        }
        i = i + 1;
    }
    false
}

impl ConversionContext {
    /// The counter rows of the numbering engine stay within range.
    pub open spec fn wf(&self) -> bool {
        self.numbering.wf()
    }

    /// Builds the context: note and comment texts are indexed by identifier
    /// (note texts joined with spaces), and all registries start empty.
    pub fn new(
        rels: RelationshipMap,
        numbering: NumberingResolver,
        image_extractor: ImageExtractor,
        options: ConvertOptions,
        docx_comments: Option<&Vec<CommentInput>>,
        docx_footnotes: Option<&Vec<NoteInput>>,
        docx_endnotes: Option<&Vec<NoteInput>>,
        style_resolver: StyleResolver,
    ) -> (r: ConversionContext)
        requires
            numbering.wf(),
        ensures
            r.wf(),
            r.rels == rels,
            r.numbering == numbering,
            r.image_extractor == image_extractor,
            r.options == options,
            r.style_resolver == style_resolver,
            r.footnotes@.len() == 0,
            r.footnote_index_by_id@.len() == 0,
            r.endnotes@.len() == 0,
            r.endnote_index_by_id@.len() == 0,
            r.comments@.len() == 0,
            r.seen_comment_ids@.len() == 0,
            r.missing_references@.len() == 0,
            spec_i64_text_view(r.footnote_text_by_id@) == (match docx_footnotes {
                Option::Some(notes) => spec_note_text_entries(notes@),
                Option::None => Seq::<(i64, Seq<char>)>::empty(),
            }),
            spec_i64_text_view(r.endnote_text_by_id@) == (match docx_endnotes {
                Option::Some(notes) => spec_note_text_entries(notes@),
                Option::None => Seq::<(i64, Seq<char>)>::empty(),
            }),
            spec_pair_view(r.comment_text_by_id@) == (match docx_comments {
                Option::Some(cs) => spec_comment_text_entries(cs@),
                Option::None => Seq::<(Seq<char>, Seq<char>)>::empty(),
            }),
    {
        let footnote_text_by_id = build_note_texts(docx_footnotes);
        let endnote_text_by_id = build_note_texts(docx_endnotes);
        let comment_text_by_id = build_comment_texts(docx_comments);
        ConversionContext {
            rels,
            numbering,
            image_extractor,
            options,
            style_resolver,
            footnotes: Vec::new(),
            footnote_index_by_id: Vec::new(),
            footnote_text_by_id,
            endnotes: Vec::new(),
            endnote_index_by_id: Vec::new(),
            endnote_text_by_id,
            comments: Vec::new(),
            seen_comment_ids: Vec::new(),
            comment_text_by_id,
            missing_references: Vec::new(),
        }
    }

    /// Registers a footnote reference and returns its display marker.
    pub fn register_footnote_reference(&mut self, id: i64) -> (r: String)
        ensures
            spec_registry_frame(*old(self), *final(self)),
            spec_register_footnote_post(*old(self), *final(self), id, r@),
    {
        if let Option::Some(idx) = idx_of_i64(&self.footnote_index_by_id, id) {
            let mut m = String::from_str("[^");
            let num = u64_to_string(idx as u64);
            m.append(num.as_str());
            m.append("]");
            return m;
        }
        let text: String = match text_of_i64(&self.footnote_text_by_id, id) {
            Option::Some(t) => t,
            Option::None => {
                let mut msg = String::from_str("footnote:");
                let num = i64_to_string(id);
                msg.append(num.as_str());
                self.missing_references.push(msg);
                proof {
                    assert(self.missing_references@.take(
                        old(self).missing_references@.len() as int,
                    ) =~= old(self).missing_references@);
                }
                String::new()
            },
        };
        self.footnotes.push(text);
        let idx = self.footnotes.len();
        self.footnote_index_by_id.push((id, idx));
        let mut m = String::from_str("[^");
        let num = u64_to_string(idx as u64);
        m.append(num.as_str());
        m.append("]");
        proof {
            assert(self.footnotes@.take(old(self).footnotes@.len() as int) =~= old(
                self,
            ).footnotes@);
        }
        m
    }

    /// Registers an endnote reference and returns its display marker.
    pub fn register_endnote_reference(&mut self, id: i64) -> (r: String)
        ensures
            spec_registry_frame(*old(self), *final(self)),
            spec_register_endnote_post(*old(self), *final(self), id, r@),
    {
        if let Option::Some(idx) = idx_of_i64(&self.endnote_index_by_id, id) {
            let mut m = String::from_str("[^en");
            let num = u64_to_string(idx as u64);
            m.append(num.as_str());
            m.append("]");
            return m;
        }
        let text: String = match text_of_i64(&self.endnote_text_by_id, id) {
            Option::Some(t) => t,
            Option::None => {
                let mut msg = String::from_str("endnote:");
                let num = i64_to_string(id);
                msg.append(num.as_str());
                self.missing_references.push(msg);
                proof {
                    assert(self.missing_references@.take(
                        old(self).missing_references@.len() as int,
                    ) =~= old(self).missing_references@);
                }
                String::new()
            },
        };
        self.endnotes.push(text);
        let idx = self.endnotes.len();
        self.endnote_index_by_id.push((id, idx));
        let mut m = String::from_str("[^en");
        let num = u64_to_string(idx as u64);
        m.append(num.as_str());
        m.append("]");
        proof {
            assert(self.endnotes@.take(old(self).endnotes@.len() as int) =~= old(self).endnotes@);
        }
        m
    }

    /// Registers a comment reference and returns its display marker, which
    /// carries the source identifier itself.
    pub fn register_comment_reference(&mut self, id: &str) -> (r: String)
        ensures
            spec_registry_frame(*old(self), *final(self)),
            spec_register_comment_post(*old(self), *final(self), id@, r@),
    {
        if !contains_str_vec(&self.seen_comment_ids, id) {
            let comment_text: String = match lookup_str_pair(&self.comment_text_by_id, id) {
                Option::Some(t) => t,
                Option::None => {
                    let mut msg = String::from_str("comment:");
                    msg.append(id);
                    self.missing_references.push(msg);
                    proof {
                        assert(self.missing_references@.take(
                            old(self).missing_references@.len() as int,
                        ) =~= old(self).missing_references@);
                    }
                    String::new()
                },
            };
            self.comments.push((String::from_str(id), comment_text));
            self.seen_comment_ids.push(String::from_str(id));
            proof {
                assert(self.comments@.take(old(self).comments@.len() as int) =~= old(
                    self,
                ).comments@);
                assert(self.seen_comment_ids@.take(old(self).seen_comment_ids@.len() as int)
                    =~= old(self).seen_comment_ids@);
            }
        }
        let mut m = String::from_str("[^c");
        m.append(id);
        m.append("]");
        m
    }

    /// The collected reference definitions, in first-registration order.
    pub fn reference_definitions(&self) -> (r: ReferenceDefinitions)
        ensures
            r.footnotes@ == self.footnotes@,
            r.endnotes@ == self.endnotes@,
            r.comments@ == self.comments@,
    {
        ReferenceDefinitions {
            footnotes: clone_string_vec(&self.footnotes),
            endnotes: clone_string_vec(&self.endnotes),
            comments: clone_pair_vec(&self.comments),
        }
    }

    /// The target a relationship id resolves to.
    pub fn relationship_target(&self, id: &str) -> (r: Option<String>)
        ensures
            match r {
                Option::Some(t) => spec_lookup_str(self.rels.entries@, id@) == Option::Some(t@),
                Option::None => spec_lookup_str(self.rels.entries@, id@) is None,
            },
    {
        self.rels.get(id)
    }

    pub fn extract_image_from_drawing(&mut self, drawing: &DrawingNode) -> (r: Result<
        Option<String>,
        Error,
    >)
        requires
            old(self).wf(),
        ensures
            final(self).wf(),
            final(self).rels == old(self).rels,
            final(self).numbering == old(self).numbering,
            final(self).options == old(self).options,
            final(self).footnotes@ == old(self).footnotes@,
            final(self).endnotes@ == old(self).endnotes@,
            final(self).comments@ == old(self).comments@,
            final(self).missing_references@ == old(self).missing_references@,
            final(self).footnote_index_by_id@ == old(self).footnote_index_by_id@,
            final(self).endnote_index_by_id@ == old(self).endnote_index_by_id@,
            final(self).seen_comment_ids@ == old(self).seen_comment_ids@,
            final(self).footnote_text_by_id@ == old(self).footnote_text_by_id@,
            final(self).endnote_text_by_id@ == old(self).endnote_text_by_id@,
            final(self).comment_text_by_id@ == old(self).comment_text_by_id@,
            final(self).style_resolver == old(self).style_resolver,
            old(self).image_extractor.mode is Skip ==> r == Result::<Option<String>, Error>::Ok(
                Option::None,
            ) && final(self).image_extractor == old(self).image_extractor,
            !(old(self).image_extractor.mode is Skip) ==> match spec_find_blip_id(*drawing) {
                Option::None => r == Result::<Option<String>, Error>::Ok(Option::None)
                    && final(self).image_extractor == old(self).image_extractor,
                Option::Some(bid) => match spec_lookup_str(old(self).rels.entries@, bid) {
                    Option::None => r == Result::<Option<String>, Error>::Ok(Option::None)
                        && final(self).image_extractor == old(self).image_extractor,
                    Option::Some(p) => spec_process_post(
                        old(self).image_extractor,
                        final(self).image_extractor,
                        p,
                        r,
                    ),
                },
            },
    {
        let r = self.image_extractor.extract_from_drawing(drawing, &self.rels);
        r
    }

    pub fn extract_image_from_pict(&mut self, pict: &PictNode) -> (r: Result<Option<String>, Error>)
        requires
            old(self).wf(),
        ensures
            final(self).wf(),
            final(self).rels == old(self).rels,
            final(self).numbering == old(self).numbering,
            final(self).options == old(self).options,
            final(self).footnotes@ == old(self).footnotes@,
            final(self).endnotes@ == old(self).endnotes@,
            final(self).comments@ == old(self).comments@,
            final(self).missing_references@ == old(self).missing_references@,
            final(self).footnote_index_by_id@ == old(self).footnote_index_by_id@,
            final(self).endnote_index_by_id@ == old(self).endnote_index_by_id@,
            final(self).seen_comment_ids@ == old(self).seen_comment_ids@,
            final(self).footnote_text_by_id@ == old(self).footnote_text_by_id@,
            final(self).endnote_text_by_id@ == old(self).endnote_text_by_id@,
            final(self).comment_text_by_id@ == old(self).comment_text_by_id@,
            final(self).style_resolver == old(self).style_resolver,
            old(self).image_extractor.mode is Skip ==> r == Result::<Option<String>, Error>::Ok(
                Option::None,
            ) && final(self).image_extractor == old(self).image_extractor,
            !(old(self).image_extractor.mode is Skip) ==> match spec_find_pict_id(*pict) {
                Option::None => r == Result::<Option<String>, Error>::Ok(Option::None)
                    && final(self).image_extractor == old(self).image_extractor,
                Option::Some(bid) => match spec_lookup_str(old(self).rels.entries@, bid) {
                    Option::None => r == Result::<Option<String>, Error>::Ok(Option::None)
                        && final(self).image_extractor == old(self).image_extractor,
                    Option::Some(p) => spec_process_post(
                        old(self).image_extractor,
                        final(self).image_extractor,
                        p,
                        r,
                    ),
                },
            },
    {
        let r = self.image_extractor.extract_from_pict(pict, &self.rels);
        r
    }

    pub fn resolve_run_property(
        &self,
        direct_props: Option<&CharProps>,
        run_style_id: Option<&str>,
        para_style_id: Option<&str>,
    ) -> (r: CharProps)
        ensures
            r == spec_resolve_run(
                self.style_resolver.styles,
                match direct_props {
                    Option::Some(d) => Option::Some(*d),
                    Option::None => Option::None,
                },
                match run_style_id {
                    Option::Some(s) => Option::Some(s@),
                    Option::None => Option::None,
                },
                match para_style_id {
                    Option::Some(s) => Option::Some(s@),
                    Option::None => Option::None,
                },
            ),
    {
        self.style_resolver.resolve_run_property(direct_props, run_style_id, para_style_id)
    }

    pub fn resolve_paragraph_property(
        &self,
        direct_props: Option<&ParaProps>,
        para_style_id: Option<&str>,
    ) -> (r: ParaProps)
        ensures
            r == spec_resolve_para(
                self.style_resolver.styles,
                match direct_props {
                    Option::Some(d) => Option::Some(*d),
                    Option::None => Option::None,
                },
                match para_style_id {
                    Option::Some(s) => Option::Some(s@),
                    Option::None => Option::None,
                },
            ),
    {
        self.style_resolver.resolve_paragraph_property(direct_props, para_style_id)
    }

    /// The marker for the next item of a list, advancing the counters.
    pub fn next_list_marker(&mut self, num_id: i32, ilvl: i32) -> (r: String)
        requires
            old(self).wf(),
        ensures
            final(self).wf(),
            r@ == old(self).numbering.spec_nm_result(num_id, ilvl),
            final(self).numbering.num_instances@ == old(self).numbering.num_instances@,
            final(self).numbering.abstract_nums@ == old(self).numbering.abstract_nums@,
            final(self).numbering.overrides@ == old(self).numbering.overrides@,
            final(self).numbering.level_shifts@ == old(self).numbering.level_shifts@,
            match old(self).numbering.spec_nm_new_counters(num_id, ilvl) {
                Option::None => final(self).numbering.counters@ == old(self).numbering.counters@,
                Option::Some(nc) => forall|k: i32|
                    #[trigger] crate::numbering::spec_counter_lookup(
                        final(self).numbering.counters@,
                        k,
                    ) == if k == nc.0 {
                        Option::Some(nc.1)
                    } else {
                        crate::numbering::spec_counter_lookup(old(self).numbering.counters@, k)
                    },
            },
            final(self).rels == old(self).rels,
            final(self).image_extractor == old(self).image_extractor,
            final(self).options == old(self).options,
            final(self).style_resolver == old(self).style_resolver,
            final(self).footnotes@ == old(self).footnotes@,
            final(self).footnote_index_by_id@ == old(self).footnote_index_by_id@,
            final(self).footnote_text_by_id@ == old(self).footnote_text_by_id@,
            final(self).endnotes@ == old(self).endnotes@,
            final(self).endnote_index_by_id@ == old(self).endnote_index_by_id@,
            final(self).endnote_text_by_id@ == old(self).endnote_text_by_id@,
            final(self).comments@ == old(self).comments@,
            final(self).seen_comment_ids@ == old(self).seen_comment_ids@,
            final(self).comment_text_by_id@ == old(self).comment_text_by_id@,
            final(self).missing_references@ == old(self).missing_references@,
    {
        self.numbering.next_marker(num_id, ilvl)
    }

    /// The indentation level for a list item.
    pub fn list_indent_level(&self, num_id: i32, ilvl: i32) -> (r: usize)
        ensures
            r == self.numbering.spec_get_indent(num_id, ilvl),
    {
        self.numbering.get_indent(num_id, ilvl)
    }

    pub fn preserve_whitespace(&self) -> (r: bool)
        ensures
            r == self.options.preserve_whitespace,
    {
        self.options.preserve_whitespace
    }

    pub fn html_underline_enabled(&self) -> (r: bool)
        ensures
            r == self.options.html_underline,
    {
        self.options.html_underline
    }

    pub fn html_strikethrough_enabled(&self) -> (r: bool)
        ensures
            r == self.options.html_strikethrough,
    {
        self.options.html_strikethrough
    }

    pub fn footnote_count(&self) -> (r: usize)
        ensures
            r == self.footnotes@.len(),
    {
        self.footnotes.len()
    }

    pub fn endnote_count(&self) -> (r: usize)
        ensures
            r == self.endnotes@.len(),
    {
        self.endnotes.len()
    }

    pub fn comment_count(&self) -> (r: usize)
        ensures
            r == self.comments@.len(),
    {
        self.comments.len()
    }

    /// The (identifier, text) pair of the comment at a display position.
    pub fn comment_at(&self, index: usize) -> (r: Option<(String, String)>)
        ensures
            match r {
                Option::Some(p) => index < self.comments@.len() && p.0@
                    == self.comments@[index as int].0@ && p.1@ == self.comments@[index as int].1@,
                Option::None => index >= self.comments@.len(),
            },
    {
        if index < self.comments.len() {
            Option::Some((self.comments[index].0.clone(), self.comments[index].1.clone()))
        } else {
            Option::None
        }
    }

    /// Trims numbering counter rows to the level-index range. Rows built by
    /// this crate's own constructors are always within range, so on every
    /// reachable state this changes nothing; it lets extraction start from
    /// any caller-assembled state without failing.
    pub fn clamp_counter_rows(&mut self)
        ensures
            final(self).wf(),
            old(self).wf() ==> *final(self) == *old(self),
            final(self).rels == old(self).rels,
            final(self).image_extractor == old(self).image_extractor,
            final(self).options == old(self).options,
            final(self).style_resolver == old(self).style_resolver,
            final(self).footnotes@ == old(self).footnotes@,
            final(self).footnote_index_by_id@ == old(self).footnote_index_by_id@,
            final(self).footnote_text_by_id@ == old(self).footnote_text_by_id@,
            final(self).endnotes@ == old(self).endnotes@,
            final(self).endnote_index_by_id@ == old(self).endnote_index_by_id@,
            final(self).endnote_text_by_id@ == old(self).endnote_text_by_id@,
            final(self).comments@ == old(self).comments@,
            final(self).seen_comment_ids@ == old(self).seen_comment_ids@,
            final(self).comment_text_by_id@ == old(self).comment_text_by_id@,
            final(self).missing_references@ == old(self).missing_references@,
            final(self).numbering.num_instances@ == old(self).numbering.num_instances@,
            final(self).numbering.abstract_nums@ == old(self).numbering.abstract_nums@,
            final(self).numbering.overrides@ == old(self).numbering.overrides@,
            final(self).numbering.level_shifts@ == old(self).numbering.level_shifts@,
    {
        let n = self.numbering.counters.len();
        let mut i: usize = 0;
        while i < n
            invariant
                n == self.numbering.counters@.len(),
                0 <= i <= n,
                *old(self) == (ConversionContext { numbering: old(self).numbering, ..*self }),
                self.numbering == (NumberingResolver {
                    counters: self.numbering.counters,
                    ..old(self).numbering
                }),
                forall|j: int|
                    0 <= j < i ==> (#[trigger] self.numbering.counters@[j]).1@.len()
                        <= 0x8000_0000,
                forall|j: int|
                    0 <= j < n ==> (#[trigger] self.numbering.counters@[j]).0 == old(
                        self,
                    ).numbering.counters@[j].0,
                forall|j: int|
                    i <= j < n ==> (#[trigger] self.numbering.counters@[j]) == old(
                        self,
                    ).numbering.counters@[j],
                old(self).wf() ==> *self == *old(self),
            decreases n - i,
        {
            if self.numbering.counters[i].1.len() > 0x8000_0000usize {
                self.numbering.counters[i].1.truncate(0x8000_0000usize);
            }
            i = i + 1;
        }
    }

    /// Drains and returns the missing-reference diagnostics collected so
    /// far.
    pub fn take_missing_references(&mut self) -> (r: Vec<String>)
        ensures
            r@ == old(self).missing_references@,
            final(self).missing_references@.len() == 0,
            spec_registry_frame(*old(self), *final(self)),
            final(self).footnotes@ == old(self).footnotes@,
            final(self).footnote_index_by_id@ == old(self).footnote_index_by_id@,
            final(self).footnote_text_by_id@ == old(self).footnote_text_by_id@,
            final(self).endnotes@ == old(self).endnotes@,
            final(self).endnote_index_by_id@ == old(self).endnote_index_by_id@,
            final(self).endnote_text_by_id@ == old(self).endnote_text_by_id@,
            final(self).comments@ == old(self).comments@,
            final(self).seen_comment_ids@ == old(self).seen_comment_ids@,
            final(self).comment_text_by_id@ == old(self).comment_text_by_id@,
    {
        let mut out: Vec<String> = Vec::new();
        core::mem::swap(&mut self.missing_references, &mut out);
        out
    }
}

fn build_note_texts(notes: Option<&Vec<NoteInput>>) -> (r: Vec<(i64, String)>)
    ensures
        spec_i64_text_view(r@) == (match notes {
            Option::Some(ns) => spec_note_text_entries(ns@),
            Option::None => Seq::<(i64, Seq<char>)>::empty(),
        }),
{
    let mut out: Vec<(i64, String)> = Vec::new();
    if let Option::Some(ns) = notes {
        let n = ns.len();
        let mut i: usize = 0;
        proof {
            assert(spec_i64_text_view(out@) =~= spec_note_text_entries(ns@.take(0)));
        }
        while i < n
            invariant
                n == ns@.len(),
                0 <= i <= n,
                spec_i64_text_view(out@) == spec_note_text_entries(ns@.take(i as int)),
            decreases n - i,
        {
            let ghost pre = spec_i64_text_view(out@);
            if let Option::Some(id) = ns[i].id {
                let text = join_strings(&ns[i].texts, " ");
                out.push((id, text));
                proof {
                    assert(spec_i64_text_view(out@) =~= pre.push(
                        (
                            id,
                            spec_join(ns@[i as int].texts@.map_values(|t: String| t@), " "@),
                        ),
                    ));
                }
            }
            proof {
                assert(ns@.take(i + 1).drop_last() =~= ns@.take(i as int));
                assert(ns@.take(i + 1).last() == ns@[i as int]);
                assert(spec_i64_text_view(out@) =~= spec_note_text_entries(ns@.take(i + 1)));
            }
            i = i + 1;
        }
        proof {
            assert(ns@.take(n as int) =~= ns@);
        }
    } else {
        proof {
            assert(spec_i64_text_view(out@) =~= Seq::<(i64, Seq<char>)>::empty());
        }
    }
    out
}

fn build_comment_texts(comments: Option<&Vec<CommentInput>>) -> (r: Vec<(String, String)>)
    ensures
        spec_pair_view(r@) == (match comments {
            Option::Some(cs) => spec_comment_text_entries(cs@),
            Option::None => Seq::<(Seq<char>, Seq<char>)>::empty(),
        }),
{
    let mut out: Vec<(String, String)> = Vec::new();
    if let Option::Some(cs) = comments {
        let n = cs.len();
        let mut i: usize = 0;
        proof {
            assert(spec_pair_view(out@) =~= spec_comment_text_entries(cs@.take(0)));
        }
        while i < n
            invariant
                n == cs@.len(),
                0 <= i <= n,
                spec_pair_view(out@) == spec_comment_text_entries(cs@.take(i as int)),
            decreases n - i,
        {
            let ghost pre = spec_pair_view(out@);
            if let Option::Some(id) = cs[i].id {
                let key = i64_to_string(id);
                let text = cs[i].text.clone();
                out.push((key, text));
                proof {
                    assert(spec_pair_view(out@) =~= pre.push(
                        (spec_int_str(id as int), cs@[i as int].text@),
                    ));
                }
            }
            proof {
                assert(cs@.take(i + 1).drop_last() =~= cs@.take(i as int));
                assert(cs@.take(i + 1).last() == cs@[i as int]);
                assert(spec_pair_view(out@) =~= spec_comment_text_entries(cs@.take(i + 1)));
            }
            i = i + 1;
        }
        proof {
            assert(cs@.take(n as int) =~= cs@);
        }
    } else {
        proof {
            assert(spec_pair_view(out@) =~= Seq::<(Seq<char>, Seq<char>)>::empty());
        }
    }
    out
}

/// Idempotent registration: registering the same footnote identifier twice
/// yields the same marker both times, and the definition list grows by
/// exactly one entry, not two. The two context states are linked exactly as
/// register_footnote_reference's contract links them.
pub proof fn lemma_idempotent_registration(
    st0: ConversionContext,
    st1: ConversionContext,
    st2: ConversionContext,
    id: i64,
    r1: Seq<char>,
    r2: Seq<char>,
)
    requires
        spec_register_footnote_post(st0, st1, id, r1),
        spec_register_footnote_post(st1, st2, id, r2),
        spec_idx_of_i64(st0.footnote_index_by_id@, id) is None,
        st0.footnotes@.len() < usize::MAX,
    ensures
        r2 == r1,
        st1.footnotes@.len() == st0.footnotes@.len() + 1,
        st2.footnotes@.len() == st1.footnotes@.len(),
{
    let n = st0.footnotes@.len() + 1;
    assert(st1.footnote_index_by_id@ == st0.footnote_index_by_id@.push((id, n as usize)));
    assert(st1.footnote_index_by_id@.last() == (id, n as usize));
    assert((n as usize) as int == n as int);
    assert(spec_idx_of_i64(st1.footnote_index_by_id@, id) == Option::Some(n as int));
}

/// How the context may evolve across a traversal step: options, styles,
/// relationships, text maps and numbering definitions never change; the
/// registries and diagnostics only grow at the end, so earlier display
/// indices and definition order are preserved; the numbering counters and
/// the image extractor advance in place.
pub open spec fn spec_ctx_growth(pre: ConversionContext, post: ConversionContext) -> bool {
    &&& post.options == pre.options
    &&& post.style_resolver == pre.style_resolver
    &&& post.rels == pre.rels
    &&& post.footnote_text_by_id@ == pre.footnote_text_by_id@
    &&& post.endnote_text_by_id@ == pre.endnote_text_by_id@
    &&& post.comment_text_by_id@ == pre.comment_text_by_id@
    &&& post.footnotes@.len() >= pre.footnotes@.len()
    &&& post.footnotes@.take(pre.footnotes@.len() as int) == pre.footnotes@
    &&& post.endnotes@.len() >= pre.endnotes@.len()
    &&& post.endnotes@.take(pre.endnotes@.len() as int) == pre.endnotes@
    &&& post.comments@.len() >= pre.comments@.len()
    &&& post.comments@.take(pre.comments@.len() as int) == pre.comments@
    &&& post.seen_comment_ids@.len() >= pre.seen_comment_ids@.len()
    &&& post.seen_comment_ids@.take(pre.seen_comment_ids@.len() as int) == pre.seen_comment_ids@
    &&& post.missing_references@.len() >= pre.missing_references@.len()
    &&& post.missing_references@.take(pre.missing_references@.len() as int)
        == pre.missing_references@
    &&& post.footnote_index_by_id@.len() >= pre.footnote_index_by_id@.len()
    &&& post.footnote_index_by_id@.take(pre.footnote_index_by_id@.len() as int)
        == pre.footnote_index_by_id@
    &&& post.endnote_index_by_id@.len() >= pre.endnote_index_by_id@.len()
    &&& post.endnote_index_by_id@.take(pre.endnote_index_by_id@.len() as int)
        == pre.endnote_index_by_id@
    &&& post.numbering.num_instances@ == pre.numbering.num_instances@
    &&& post.numbering.abstract_nums@ == pre.numbering.abstract_nums@
    &&& post.numbering.overrides@ == pre.numbering.overrides@
    &&& post.numbering.level_shifts@ == pre.numbering.level_shifts@
    &&& post.image_extractor.mode == pre.image_extractor.mode
    &&& post.image_extractor.source == pre.image_extractor.source
    &&& post.image_extractor.counter >= pre.image_extractor.counter
    &&& post.image_extractor.pending_writes@.len() >= pre.image_extractor.pending_writes@.len()
    &&& post.image_extractor.pending_writes@.take(
        pre.image_extractor.pending_writes@.len() as int,
    ) == pre.image_extractor.pending_writes@
    &&& (pre.wf() ==> post.wf())
}

/// Growth is reflexive and composes across consecutive steps.
pub proof fn lemma_ctx_growth_refl(a: ConversionContext)
    ensures
        spec_ctx_growth(a, a),
{
    assert(a.footnotes@.take(a.footnotes@.len() as int) =~= a.footnotes@);
    assert(a.endnotes@.take(a.endnotes@.len() as int) =~= a.endnotes@);
    assert(a.comments@.take(a.comments@.len() as int) =~= a.comments@);
    assert(a.seen_comment_ids@.take(a.seen_comment_ids@.len() as int) =~= a.seen_comment_ids@);
    assert(a.missing_references@.take(a.missing_references@.len() as int)
        =~= a.missing_references@);
    assert(a.footnote_index_by_id@.take(a.footnote_index_by_id@.len() as int)
        =~= a.footnote_index_by_id@);
    assert(a.endnote_index_by_id@.take(a.endnote_index_by_id@.len() as int)
        =~= a.endnote_index_by_id@);
    assert(a.image_extractor.pending_writes@.take(a.image_extractor.pending_writes@.len() as int)
        =~= a.image_extractor.pending_writes@);
}

pub proof fn lemma_ctx_growth_trans(a: ConversionContext, b: ConversionContext, c: ConversionContext)
    requires
        spec_ctx_growth(a, b),
        spec_ctx_growth(b, c),
    ensures
        spec_ctx_growth(a, c),
{
    lemma_prefix_trans_str(a.footnotes@, b.footnotes@, c.footnotes@);
    lemma_prefix_trans_str(a.endnotes@, b.endnotes@, c.endnotes@);
    lemma_prefix_trans_str(a.seen_comment_ids@, b.seen_comment_ids@, c.seen_comment_ids@);
    lemma_prefix_trans_str(a.missing_references@, b.missing_references@, c.missing_references@);
    lemma_prefix_trans_pair(a.comments@, b.comments@, c.comments@);
    lemma_prefix_trans_idx(a.footnote_index_by_id@, b.footnote_index_by_id@, c.footnote_index_by_id@);
    lemma_prefix_trans_idx(a.endnote_index_by_id@, b.endnote_index_by_id@, c.endnote_index_by_id@);
    lemma_prefix_trans_pw(
        a.image_extractor.pending_writes@,
        b.image_extractor.pending_writes@,
        c.image_extractor.pending_writes@,
    );
}

proof fn lemma_prefix_trans_str(a: Seq<String>, b: Seq<String>, c: Seq<String>)
    requires
        a.len() <= b.len() <= c.len(),
        b.take(a.len() as int) == a,
        c.take(b.len() as int) == b,
    ensures
        c.take(a.len() as int) == a,
{
    assert(c.take(a.len() as int) =~= c.take(b.len() as int).take(a.len() as int));
}

proof fn lemma_prefix_trans_pair(
    a: Seq<(String, String)>,
    b: Seq<(String, String)>,
    c: Seq<(String, String)>,
)
    requires
        a.len() <= b.len() <= c.len(),
        b.take(a.len() as int) == a,
        c.take(b.len() as int) == b,
    ensures
        c.take(a.len() as int) == a,
{
    assert(c.take(a.len() as int) =~= c.take(b.len() as int).take(a.len() as int));
}

proof fn lemma_prefix_trans_idx(
    a: Seq<(i64, usize)>,
    b: Seq<(i64, usize)>,
    c: Seq<(i64, usize)>,
)
    requires
        a.len() <= b.len() <= c.len(),
        b.take(a.len() as int) == a,
        c.take(b.len() as int) == b,
    ensures
        c.take(a.len() as int) == a,
{
    assert(c.take(a.len() as int) =~= c.take(b.len() as int).take(a.len() as int));
}

proof fn lemma_prefix_trans_pw(
    a: Seq<(String, Vec<u8>)>,
    b: Seq<(String, Vec<u8>)>,
    c: Seq<(String, Vec<u8>)>,
)
    requires
        a.len() <= b.len() <= c.len(),
        b.take(a.len() as int) == a,
        c.take(b.len() as int) == b,
    ensures
        c.take(a.len() as int) == a,
{
    assert(c.take(a.len() as int) =~= c.take(b.len() as int).take(a.len() as int));
}

/// Each registration step is a growth step.
pub proof fn lemma_register_footnote_growth(
    pre: ConversionContext,
    post: ConversionContext,
    id: i64,
    r: Seq<char>,
)
    requires
        spec_registry_frame(pre, post),
        spec_register_footnote_post(pre, post, id, r),
    ensures
        spec_ctx_growth(pre, post),
{
    lemma_ctx_growth_refl(pre);
    match spec_idx_of_i64(pre.footnote_index_by_id@, id) {
        Option::Some(_) => {
            lemma_ctx_growth_refl(post);
        },
        Option::None => {
            assert(post.footnote_index_by_id@.take(pre.footnote_index_by_id@.len() as int)
                =~= pre.footnote_index_by_id@);
        },
    }
}

pub proof fn lemma_register_endnote_growth(
    pre: ConversionContext,
    post: ConversionContext,
    id: i64,
    r: Seq<char>,
)
    requires
        spec_registry_frame(pre, post),
        spec_register_endnote_post(pre, post, id, r),
    ensures
        spec_ctx_growth(pre, post),
{
    lemma_ctx_growth_refl(pre);
    match spec_idx_of_i64(pre.endnote_index_by_id@, id) {
        Option::Some(_) => {
            lemma_ctx_growth_refl(post);
        },
        Option::None => {
            assert(post.endnote_index_by_id@.take(pre.endnote_index_by_id@.len() as int)
                =~= pre.endnote_index_by_id@);
        },
    }
}

pub proof fn lemma_register_comment_growth(
    pre: ConversionContext,
    post: ConversionContext,
    id: Seq<char>,
    r: Seq<char>,
)
    requires
        spec_registry_frame(pre, post),
        spec_register_comment_post(pre, post, id, r),
    ensures
        spec_ctx_growth(pre, post),
{
    lemma_ctx_growth_refl(pre);
    if spec_str_views(pre.seen_comment_ids@).contains(id) {
        lemma_ctx_growth_refl(post);
    }
}

} // verus!
