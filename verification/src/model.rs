//! The document tree that the conversion core consumes: paragraphs, runs,
//! tables, styles, numbering definitions and note containers, all as plain
//! values. An adapter outside this crate fills it from whatever parser
//! produced the document.

use vstd::prelude::*;

verus! {

/// Effective or direct character formatting. A `None` field is "unset" and
/// inherits; a present field overrides whatever lies below it in the chain.
#[derive(Clone, Copy, Debug)]
pub struct CharProps {
    pub bold: Option<bool>,
    pub italics: Option<bool>,
    pub strike: Option<bool>,
    pub underline: Option<bool>,
}

impl CharProps {
    pub open spec fn spec_unset() -> CharProps {
        CharProps { bold: None, italics: None, strike: None, underline: None }
    }

    pub fn unset() -> (r: CharProps)
        ensures
            r == CharProps::spec_unset(),
    {
        CharProps { bold: None, italics: None, strike: None, underline: None }
    }
}

#[derive(Clone, Copy, Debug)]
pub enum Justification {
    Center,
    Right,
    Other,
}

/// A paragraph's numbering reference: a document-visible list id and a level.
#[derive(Clone, Copy, Debug)]
pub struct NumberingRef {
    pub num_id: Option<i32>,
    pub level: Option<i32>,
}

/// Direct or effective paragraph formatting.
#[derive(Clone, Debug)]
pub struct ParaProps {
    pub style_id: Option<String>,
    pub numbering: Option<NumberingRef>,
    pub justification: Option<Justification>,
}

impl ParaProps {
    pub open spec fn spec_unset() -> ParaProps {
        ParaProps { style_id: None, numbering: None, justification: None }
    }

    pub fn unset() -> (r: ParaProps)
        ensures
            r == ParaProps::spec_unset(),
    {
        ParaProps { style_id: None, numbering: None, justification: None }
    }
}

/// One named style record: an optional base style it derives from, and the
/// character and paragraph formatting it contributes.
#[derive(Clone, Debug)]
pub struct StyleDefinition {
    pub style_id: String,
    pub base: Option<String>,
    pub character: Option<CharProps>,
    pub paragraph: Option<ParaProps>,
}

/// The document's style sheet: defaults plus named styles.
#[derive(Clone, Debug)]
pub struct StylesInput {
    pub default_char: Option<CharProps>,
    pub default_para: Option<ParaProps>,
    pub styles: Vec<StyleDefinition>,
}

/// One level of an abstract numbering definition, as read from the document.
/// Absent fields take their documented defaults when the resolver is built.
#[derive(Clone, Debug)]
pub struct LevelInput {
    pub ilvl: Option<i32>,
    pub start: Option<i32>,
    pub num_fmt: Option<String>,
    pub lvl_text: Option<String>,
}

#[derive(Clone, Debug)]
pub struct AbstractNumInput {
    pub abstract_num_id: Option<i32>,
    pub levels: Vec<LevelInput>,
}

/// A per-(instance, level) start-value override.
#[derive(Clone, Debug)]
pub struct LevelOverrideInput {
    pub ilvl: Option<i32>,
    pub start_override: Option<i32>,
}

#[derive(Clone, Debug)]
pub struct NumInstanceInput {
    pub num_id: Option<i32>,
    pub abstract_num_id: Option<i32>,
    pub level_overrides: Vec<LevelOverrideInput>,
}

#[derive(Clone, Debug)]
pub struct NumberingInput {
    pub abstract_numberings: Vec<AbstractNumInput>,
    pub numberings: Vec<NumInstanceInput>,
}

/// A footnote or endnote definition: its identifier and the plain text of
/// each of its paragraphs.
#[derive(Clone, Debug)]
pub struct NoteInput {
    pub id: Option<i64>,
    pub texts: Vec<String>,
}

/// A comment definition: its identifier and its plain text.
#[derive(Clone, Debug)]
pub struct CommentInput {
    pub id: Option<i64>,
    pub text: String,
}

#[derive(Clone, Copy, Debug)]
pub enum BreakKind {
    Page,
    Column,
    Other,
}

#[derive(Clone, Copy, Debug)]
pub enum FieldCharKind {
    Begin,
    Separate,
    End,
}

/// An embedded DrawingML image: the relationship ids found under the inline
/// and anchor graphic elements, when present and non-empty.
#[derive(Clone, Debug)]
pub struct DrawingNode {
    pub inline_embed: Option<String>,
    pub anchor_embed: Option<String>,
}

/// A legacy VML image: the relationship ids found on the shape and rect
/// image data, when present.
#[derive(Clone, Debug)]
pub struct PictNode {
    pub shape_image_id: Option<String>,
    pub rect_image_id: Option<String>,
}

#[derive(Clone, Debug)]
pub enum RunContentNode {
    Text(String),
    Tab,
    Break(Option<BreakKind>),
    CarriageReturn,
    Drawing(DrawingNode),
    Pict(PictNode),
    /// A symbol character, carrying its hexadecimal code.
    Sym(Option<String>),
    FootnoteReference(Option<String>),
    EndnoteReference(Option<String>),
    CommentReference(Option<String>),
    FieldChar(Option<FieldCharKind>),
    InstrText(String),
    DelInstrText(String),
    DelText(String),
}

/// Direct formatting on a run: an optional character style id plus inline
/// character properties.
#[derive(Clone, Debug)]
pub struct RunProperty {
    pub style_id: Option<String>,
    pub props: CharProps,
}

#[derive(Clone, Debug)]
pub struct RunNode {
    pub property: Option<RunProperty>,
    pub content: Vec<RunContentNode>,
}

#[derive(Clone, Debug)]
pub struct HyperlinkNode {
    pub anchor: Option<String>,
    pub id: Option<String>,
    pub content: Vec<RunNode>,
}

#[derive(Debug)]
pub enum ParagraphContentNode {
    Run(RunNode),
    Link(HyperlinkNode),
    BookmarkStart(Option<String>),
    /// A structured document tag inside a paragraph; only its paragraphs
    /// contribute content.
    Sdt(Vec<ParagraphNode>),
    Insertion(Vec<RunNode>),
    Deletion(Vec<RunNode>),
}

#[derive(Debug)]
pub struct ParagraphNode {
    pub property: Option<ParaProps>,
    pub content: Vec<ParagraphContentNode>,
}

/// Whether a table cell starts, continues, or does not take part in a
/// vertical merge. A vMerge element without a value continues.
#[derive(Clone, Copy, Debug)]
pub enum VMergeState {
    NoMerge,
    Restart,
    Continue,
}

#[derive(Debug)]
pub struct TableCellNode {
    pub grid_span: Option<usize>,
    pub v_merge: VMergeState,
    pub content: Vec<ParagraphNode>,
}

#[derive(Debug)]
pub enum TableRowContentNode {
    Cell(TableCellNode),
    Sdt,
}

#[derive(Debug)]
pub struct TableRowNode {
    pub cells: Vec<TableRowContentNode>,
}

#[derive(Debug)]
pub struct TableNode {
    pub rows: Vec<TableRowNode>,
}

#[derive(Debug)]
pub enum BodyNode {
    Paragraph(ParagraphNode),
    Table(TableNode),
    Sdt(Vec<BodyNode>),
    BookmarkStart(Option<String>),
}

/// A relationship table: pairs of relationship id and target, looked up by
/// id with the last matching entry winning.
#[derive(Clone, Debug)]
pub struct RelationshipMap {
    pub entries: Vec<(String, String)>,
}

/// The last value paired with the given key, if any.
pub open spec fn spec_lookup_str(entries: Seq<(String, String)>, key: Seq<char>) -> Option<
    Seq<char>,
>
    decreases entries.len(),
{
    if entries.len() == 0 {
        Option::None
    } else if entries.last().0@ == key {
        Option::Some(entries.last().1@)
    } else {
        spec_lookup_str(entries.drop_last(), key)
    }
}

impl RelationshipMap {
    pub fn new() -> (r: RelationshipMap)
        ensures
            r.entries@.len() == 0,
    {
        RelationshipMap { entries: Vec::new() }
    }

    pub fn insert(&mut self, id: String, target: String)
        ensures
            final(self).entries@ == old(self).entries@.push((id, target)),
            forall|k: Seq<char>|
                #[trigger] spec_lookup_str(final(self).entries@, k) == if k == id@ {
                    Option::Some(target@)
                } else {
                    spec_lookup_str(old(self).entries@, k)
                },
    {
        let ghost idv = id@;
        let ghost tv = target@;
        self.entries.push((id, target));
        proof {
            assert forall|k: Seq<char>|
                #[trigger] spec_lookup_str(self.entries@, k) == if k == idv {
                    Option::Some(tv)
                } else {
                    spec_lookup_str(old(self).entries@, k)
                } by {
                assert(self.entries@.drop_last() =~= old(self).entries@);
            }
        }
    }

    /// The target recorded for a relationship id, if any.
    pub fn get(&self, id: &str) -> (r: Option<String>)
        ensures
            match r {
                Option::Some(t) => spec_lookup_str(self.entries@, id@) == Option::Some(t@),
                Option::None => spec_lookup_str(self.entries@, id@) is None,
            },
    {
        let n = self.entries.len();
        let mut i: usize = n;
        proof {
            assert(self.entries@.take(n as int) =~= self.entries@);
        }
        while i > 0
            invariant
                n == self.entries@.len(),
                0 <= i <= n,
                spec_lookup_str(self.entries@, id@) == spec_lookup_str(
                    self.entries@.take(i as int),
                    id@,
                ),
            decreases i,
        {
            i = i - 1;
            let ghost pre = self.entries@.take(i + 1);
            proof {
                assert(pre.last() == self.entries@[i as int]);
                assert(pre.drop_last() =~= self.entries@.take(i as int));
            }
            if crate::text::str_eq(self.entries[i].0.as_str(), id) {
                return Option::Some(self.entries[i].1.clone());
            }
        }
        proof {
            assert(self.entries@.take(0) =~= Seq::<(String, String)>::empty());
        }
        Option::None
    }
}

/// The whole parsed document, as plain values.
#[derive(Debug)]
pub struct DocumentTree {
    pub body: Vec<BodyNode>,
    pub styles: StylesInput,
    pub numbering: Option<NumberingInput>,
    pub footnotes: Option<Vec<NoteInput>>,
    pub endnotes: Option<Vec<NoteInput>>,
    pub comments: Option<Vec<CommentInput>>,
    pub relationships: Vec<(String, String)>,
}

} // verus!
