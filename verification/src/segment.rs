//! The formatted-segment model: runs of text with identical formatting
//! flags, merged when adjacent, and rendered with Markdown/HTML wrappers.

use vstd::prelude::*;

use crate::text::{is_ws_char, push_char, count_lead_ws, count_trail_ws, is_blank, join_strings,
    split_str, substring_copy, trim_string, spec_is_ws, spec_join, spec_lead_ws, spec_split,
    spec_trail_ws, spec_trim, str_eq, lemma_lead_ws_bound, lemma_trail_ws_bound};

verus! {

/// A stretch of text with uniform formatting. Adjacent segments merge
/// exactly when every flag and the anchor agree.
#[derive(Debug)]
pub struct FormattedSegment {
    pub text: String,
    pub is_bold: bool,
    pub is_italic: bool,
    pub has_underline: bool,
    pub has_strike: bool,
    pub is_insertion: bool,
    pub is_deletion: bool,
    pub anchor: Option<String>,
}

/// Ghost image of a segment.
pub ghost struct SegView {
    pub text: Seq<char>,
    pub is_bold: bool,
    pub is_italic: bool,
    pub has_underline: bool,
    pub has_strike: bool,
    pub is_insertion: bool,
    pub is_deletion: bool,
    pub anchor: Option<Seq<char>>,
}

impl View for FormattedSegment {
    type V = SegView;

    open spec fn view(&self) -> SegView {
        SegView {
            text: self.text@,
            is_bold: self.is_bold,
            is_italic: self.is_italic,
            has_underline: self.has_underline,
            has_strike: self.has_strike,
            is_insertion: self.is_insertion,
            is_deletion: self.is_deletion,
            anchor: match self.anchor {
                Option::Some(a) => Option::Some(a@),
                Option::None => Option::None,
            },
        }
    }
}

impl FormattedSegment {
    /// A plain segment: the given text with no formatting.
    pub fn plain(text: String) -> (r: FormattedSegment)
        ensures
            r@ == (SegView {
                text: text@,
                is_bold: false,
                is_italic: false,
                has_underline: false,
                has_strike: false,
                is_insertion: false,
                is_deletion: false,
                anchor: Option::None,
            }),
    {
        FormattedSegment {
            text,
            is_bold: false,
            is_italic: false,
            has_underline: false,
            has_strike: false,
            is_insertion: false,
            is_deletion: false,
            anchor: Option::None,
        }
    }
}

pub open spec fn spec_seg_views(s: Seq<FormattedSegment>) -> Seq<SegView> {
    s.map_values(|x: FormattedSegment| x@)
}

/// Segments merge exactly when all flags and the anchor compare equal.
pub open spec fn spec_flags_eq(a: SegView, b: SegView) -> bool {
    &&& a.is_bold == b.is_bold
    &&& a.is_italic == b.is_italic
    &&& a.has_underline == b.has_underline
    &&& a.has_strike == b.has_strike
    &&& a.is_insertion == b.is_insertion
    &&& a.is_deletion == b.is_deletion
    &&& a.anchor == b.anchor
}

/// Coalescing: each segment is appended to the previous one when the flags
/// agree, otherwise it starts a new segment.
pub open spec fn spec_merge_segments(s: Seq<SegView>) -> Seq<SegView>
    decreases s.len(),
{
    if s.len() == 0 {
        Seq::empty()
    } else {
        let m = spec_merge_segments(s.drop_last());
        if m.len() > 0 && spec_flags_eq(m.last(), s.last()) {
            m.update(
                m.len() - 1,
                SegView {
                    text: m.last().text + s.last().text,
                    is_bold: m.last().is_bold,
                    is_italic: m.last().is_italic,
                    has_underline: m.last().has_underline,
                    has_strike: m.last().has_strike,
                    is_insertion: m.last().is_insertion,
                    is_deletion: m.last().is_deletion,
                    anchor: m.last().anchor,
                },
            )
        } else {
            m.push(s.last())
        }
    }
}

fn flags_eq(a: &FormattedSegment, b: &FormattedSegment) -> (r: bool)
    ensures
        r == spec_flags_eq(a@, b@),
{
    let anchors_eq = match (&a.anchor, &b.anchor) {
        (Option::Some(x), Option::Some(y)) => str_eq(x.as_str(), y.as_str()),
        (Option::None, Option::None) => true,
        _ => false,
    };
    a.is_bold == b.is_bold && a.is_italic == b.is_italic && a.has_underline == b.has_underline
        && a.has_strike == b.has_strike && a.is_insertion == b.is_insertion && a.is_deletion
        == b.is_deletion && anchors_eq
}

/// Merges adjacent segments with identical formatting, concatenating their
/// text in order.
pub fn merge_segments(segments: Vec<FormattedSegment>) -> (r: Vec<FormattedSegment>)
    ensures
        spec_seg_views(r@) == spec_merge_segments(spec_seg_views(segments@)),
{
    let mut merged: Vec<FormattedSegment> = Vec::new();
    let n = segments.len();
    let mut i: usize = 0;
    let ghost sv = spec_seg_views(segments@);
    proof {
        assert(sv.take(0) =~= Seq::<SegView>::empty());
        assert(spec_seg_views(merged@) =~= spec_merge_segments(sv.take(0)));
    }
    while i < n
        invariant
            n == segments@.len(),
            sv == spec_seg_views(segments@),
            0 <= i <= n,
            spec_seg_views(merged@) == spec_merge_segments(sv.take(i as int)),
        decreases n - i,
    {
        let ghost pre = spec_seg_views(merged@);
        let seg = FormattedSegment {
            text: segments[i].text.clone(),
            is_bold: segments[i].is_bold,
            is_italic: segments[i].is_italic,
            has_underline: segments[i].has_underline,
            has_strike: segments[i].has_strike,
            is_insertion: segments[i].is_insertion,
            is_deletion: segments[i].is_deletion,
            anchor: match &segments[i].anchor {
                Option::Some(a) => Option::Some(a.clone()),
                Option::None => Option::None,
            },
        };
        proof {
            assert(seg@ == sv[i as int]);
        }
        let ml = merged.len();
        let mut appended = false;
        if ml > 0 {
            if flags_eq(&merged[ml - 1], &seg) {
                merged[ml - 1].text.append(seg.text.as_str());
                appended = true;
                proof {
                    assert(spec_seg_views(merged@) =~= pre.update(
                        pre.len() - 1,
                        SegView {
                            text: pre.last().text + sv[i as int].text,
                            is_bold: pre.last().is_bold,
                            is_italic: pre.last().is_italic,
                            has_underline: pre.last().has_underline,
                            has_strike: pre.last().has_strike,
                            is_insertion: pre.last().is_insertion,
                            is_deletion: pre.last().is_deletion,
                            anchor: pre.last().anchor,
                        },
                    ));
                }
            }
        }
        if !appended {
            merged.push(seg);
            proof {
                assert(spec_seg_views(merged@) =~= pre.push(sv[i as int]));
            }
        }
        proof {
            assert(sv.take(i + 1).drop_last() =~= sv.take(i as int));
            assert(sv.take(i + 1).last() == sv[i as int]);
        }
        i = i + 1;
    }
    proof {
        assert(sv.take(n as int) =~= sv);
    }
    merged
}

/// Re-merging two adjacent segments with identical flags produces one
/// segment whose text is the concatenation, in order.
pub proof fn lemma_merge_two(a: SegView, b: SegView)
    requires
        spec_flags_eq(a, b),
    ensures
        spec_merge_segments(seq![a, b]).len() == 1,
        spec_merge_segments(seq![a, b])[0].text == a.text + b.text,
        spec_flags_eq(spec_merge_segments(seq![a, b])[0], a),
{
    let s = seq![a, b];
    assert(s.drop_last() =~= seq![a]);
    assert(s.last() == b);
    let one: Seq<SegView> = seq![a];
    assert(one.drop_last() =~= Seq::<SegView>::empty());
    assert(one.last() == a);
    assert(spec_merge_segments(Seq::<SegView>::empty()) == Seq::<SegView>::empty());
    assert(spec_merge_segments(one) == Seq::<SegView>::empty().push(a));
    assert(spec_merge_segments(one) =~= one);
    assert(spec_merge_segments(s) =~= seq![a].update(
        0,
        SegView {
            text: a.text + b.text,
            is_bold: a.is_bold,
            is_italic: a.is_italic,
            has_underline: a.has_underline,
            has_strike: a.has_strike,
            is_insertion: a.is_insertion,
            is_deletion: a.is_deletion,
            anchor: a.anchor,
        },
    ));
}

/// Whitespace other than a newline, as trimmed around format markers.
pub open spec fn spec_is_ws_nonl(c: char) -> bool {
    spec_is_ws(c) && c != '\n'
}

pub open spec fn spec_lead_ws_nonl(s: Seq<char>) -> int
    decreases s.len(),
{
    if s.len() == 0 {
        0
    } else if spec_is_ws_nonl(s[0]) {
        1 + spec_lead_ws_nonl(s.skip(1))
    } else {
        0
    }
}

pub open spec fn spec_trail_ws_nonl(s: Seq<char>) -> int
    decreases s.len(),
{
    if s.len() == 0 {
        0
    } else if spec_is_ws_nonl(s.last()) {
        1 + spec_trail_ws_nonl(s.drop_last())
    } else {
        0
    }
}

proof fn lemma_lead_ws_nonl_bound(s: Seq<char>)
    ensures
        0 <= spec_lead_ws_nonl(s) <= s.len(),
        forall|j: int| 0 <= j < spec_lead_ws_nonl(s) ==> spec_is_ws_nonl(s[j]),
        spec_lead_ws_nonl(s) < s.len() ==> !spec_is_ws_nonl(s[spec_lead_ws_nonl(s)]),
    decreases s.len(),
{
    if s.len() > 0 && spec_is_ws_nonl(s[0]) {
        lemma_lead_ws_nonl_bound(s.skip(1));
        assert forall|j: int| 0 <= j < spec_lead_ws_nonl(s) implies spec_is_ws_nonl(s[j]) by {
            if j > 0 {
                assert(s[j] == s.skip(1)[j - 1]);
            }
        }
        if spec_lead_ws_nonl(s) < s.len() {
            assert(s[spec_lead_ws_nonl(s)] == s.skip(1)[spec_lead_ws_nonl(s) - 1]);
        }
    }
}

proof fn lemma_trail_ws_nonl_bound(s: Seq<char>)
    ensures
        0 <= spec_trail_ws_nonl(s) <= s.len(),
        forall|j: int| s.len() - spec_trail_ws_nonl(s) <= j < s.len() ==> spec_is_ws_nonl(s[j]),
        spec_trail_ws_nonl(s) < s.len() ==> !spec_is_ws_nonl(
            s[s.len() - spec_trail_ws_nonl(s) - 1],
        ),
    decreases s.len(),
{
    if s.len() > 0 && spec_is_ws_nonl(s.last()) {
        lemma_trail_ws_nonl_bound(s.drop_last());
        assert forall|j: int| s.len() - spec_trail_ws_nonl(s) <= j < s.len() implies spec_is_ws_nonl(
            s[j],
        ) by {
            if j < s.len() - 1 {
                assert(s[j] == s.drop_last()[j]);
            }
        }
        if spec_trail_ws_nonl(s) < s.len() {
            assert(s[s.len() - spec_trail_ws_nonl(s) - 1] == s.drop_last()[s.len()
                - spec_trail_ws_nonl(s) - 1]);
        }
    }
}

fn count_lead_ws_nonl(s: &str) -> (r: usize)
    ensures
        r == spec_lead_ws_nonl(s@),
{
    let n = s.unicode_len();
    let mut i: usize = 0;
    proof {
        lemma_lead_ws_nonl_bound(s@);
    }
    while i < n
        invariant
            n == s@.len(),
            0 <= i <= n,
            forall|j: int| 0 <= j < i ==> spec_is_ws_nonl(s@[j]),
            i <= spec_lead_ws_nonl(s@),
        decreases n - i,
    {
        proof {
            lemma_lead_ws_nonl_bound(s@);
        }
        let c = s.get_char(i);
        if !(is_ws_char(c) && c != '\n') {
            proof {
                lemma_ws_nonl_prefix(s@, i as int);
            }
            return i;
        }
        proof {
            lemma_ws_nonl_prefix_more(s@, i as int);
        }
        i = i + 1;
    }
    proof {
        lemma_lead_ws_nonl_bound(s@);
    }
    i
}

proof fn lemma_ws_nonl_prefix(s: Seq<char>, i: int)
    requires
        0 <= i < s.len(),
        forall|j: int| 0 <= j < i ==> spec_is_ws_nonl(s[j]),
        !spec_is_ws_nonl(s[i]),
    ensures
        spec_lead_ws_nonl(s) == i,
    decreases i,
{
    lemma_lead_ws_nonl_bound(s);
    if i > 0 {
        assert forall|j: int| 0 <= j < i - 1 implies spec_is_ws_nonl(s.skip(1)[j]) by {
            assert(s.skip(1)[j] == s[j + 1]);
        }
        assert(s.skip(1)[i - 1] == s[i]);
        lemma_ws_nonl_prefix(s.skip(1), i - 1);
    }
}

proof fn lemma_ws_nonl_prefix_more(s: Seq<char>, i: int)
    requires
        0 <= i < s.len(),
        forall|j: int| 0 <= j <= i ==> spec_is_ws_nonl(s[j]),
    ensures
        spec_lead_ws_nonl(s) >= i + 1,
    decreases i,
{
    lemma_lead_ws_nonl_bound(s.skip(1));
    if i > 0 {
        assert forall|j: int| 0 <= j <= i - 1 implies spec_is_ws_nonl(s.skip(1)[j]) by {
            assert(s.skip(1)[j] == s[j + 1]);
        }
        lemma_ws_nonl_prefix_more(s.skip(1), i - 1);
    }
}

fn count_trail_ws_nonl(s: &str) -> (r: usize)
    ensures
        r == spec_trail_ws_nonl(s@),
{
    let n = s.unicode_len();
    let mut i: usize = 0;
    proof {
        lemma_trail_ws_nonl_bound(s@);
    }
    while i < n
        invariant
            n == s@.len(),
            0 <= i <= n,
            forall|j: int| n - i <= j < n ==> spec_is_ws_nonl(s@[j]),
            i <= spec_trail_ws_nonl(s@),
        decreases n - i,
    {
        proof {
            lemma_trail_ws_nonl_bound(s@);
        }
        let c = s.get_char(n - 1 - i);
        if !(is_ws_char(c) && c != '\n') {
            proof {
                lemma_ws_nonl_suffix(s@, i as int);
            }
            return i;
        }
        proof {
            lemma_ws_nonl_suffix_more(s@, i as int);
        }
        i = i + 1;
    }
    proof {
        lemma_trail_ws_nonl_bound(s@);
    }
    i
}

proof fn lemma_ws_nonl_suffix(s: Seq<char>, i: int)
    requires
        0 <= i < s.len(),
        forall|j: int| s.len() - i <= j < s.len() ==> spec_is_ws_nonl(s[j]),
        !spec_is_ws_nonl(s[s.len() - i - 1]),
    ensures
        spec_trail_ws_nonl(s) == i,
    decreases i,
{
    lemma_trail_ws_nonl_bound(s);
    if i > 0 {
        assert forall|j: int| s.drop_last().len() - (i - 1) <= j < s.drop_last().len()
            implies spec_is_ws_nonl(s.drop_last()[j]) by {
            assert(s.drop_last()[j] == s[j]);
        }
        assert(s.drop_last()[s.drop_last().len() - (i - 1) - 1] == s[s.len() - i - 1]);
        lemma_ws_nonl_suffix(s.drop_last(), i - 1);
    }
}

proof fn lemma_ws_nonl_suffix_more(s: Seq<char>, i: int)
    requires
        0 <= i < s.len(),
        forall|j: int| s.len() - i - 1 <= j < s.len() ==> spec_is_ws_nonl(s[j]),
    ensures
        spec_trail_ws_nonl(s) >= i + 1,
    decreases i,
{
    lemma_trail_ws_nonl_bound(s.drop_last());
    if i > 0 {
        assert forall|j: int| s.drop_last().len() - (i - 1) - 1 <= j < s.drop_last().len()
            implies spec_is_ws_nonl(s.drop_last()[j]) by {
            assert(s.drop_last()[j] == s[j]);
        }
        lemma_ws_nonl_suffix_more(s.drop_last(), i - 1);
    }
}

/// One line of a multi-line stretch, with markers around its trimmed core
/// when it is not blank.
pub open spec fn spec_format_line(line: Seq<char>, open_m: Seq<char>, close_m: Seq<char>) -> Seq<
    char,
> {
    if spec_trim(line).len() == 0 {
        line
    } else {
        line.take(spec_lead_ws(line)) + open_m + spec_trim(line) + close_m + line.skip(
            line.len() - spec_trail_ws(line),
        )
    }
}

/// Safe marker application: blank text is left alone; multi-line text is
/// wrapped line by line; surrounding non-newline whitespace stays outside
/// the markers.
pub open spec fn spec_apply_format(s: Seq<char>, open_m: Seq<char>, close_m: Seq<char>) -> Seq<
    char,
> {
    if spec_trim(s).len() == 0 {
        s
    } else {
        let l = spec_lead_ws_nonl(s);
        let t = spec_trail_ws_nonl(s);
        let content = s.subrange(l, s.len() - t);
        if content.contains('\n') {
            s.take(l) + spec_join(
                spec_split(content, seq!['\n']).map_values(
                    |line: Seq<char>| spec_format_line(line, open_m, close_m),
                ),
                seq!['\n'],
            ) + s.skip(s.len() - t)
        } else {
            s.take(l) + open_m + spec_trim(content) + close_m + s.skip(s.len() - t)
        }
    }
}

/// Applies markdown formatting markers safely: blank text is unchanged,
/// multi-line text is formatted per line, and leading or trailing
/// whitespace stays outside the markers.
pub fn apply_format_safely(text: &str, open_m: &str, close_m: &str) -> (r: String)
    ensures
        r@ == spec_apply_format(text@, open_m@, close_m@),
{
    if is_blank(text) {
        return text.to_owned();
    }
    let n = text.unicode_len();
    let l = count_lead_ws_nonl(text);
    let t = count_trail_ws_nonl(text);
    proof {
        lemma_lead_ws_nonl_bound(text@);
        lemma_trail_ws_nonl_bound(text@);
        lemma_lead_ws_bound(text@);
        lemma_trail_ws_bound(text@);
        if n - t < l {
            // Non-blank text has a non-whitespace character, which neither
            // trimmed region can cover.
            let k = spec_lead_ws(text@);
            assert(!spec_is_ws(text@[k]));
            assert(!spec_is_ws_nonl(text@[k]));
            if k < l {
                assert(spec_is_ws_nonl(text@[k]));
            }
            assert(k >= l);
            if k >= text@.len() - t {
                assert(spec_is_ws_nonl(text@[k]));
            }
            assert(false);
        }
    }
    let content = text.substring_char(l, n - t);
    proof {
        assert(content@ =~= text@.subrange(l as int, text@.len() - t));
    }
    let lead = substring_copy(text, 0, l);
    let trail = substring_copy(text, n - t, n);
    proof {
        assert(lead@ =~= text@.take(l as int));
        assert(trail@ =~= text@.skip(text@.len() - t));
    }
    if crate::text::contains_char(content, '\n') {
        proof {
            reveal_strlit("\n");
        }
        let lines = split_str(content, "\n");
        let mut formatted: Vec<String> = Vec::new();
        let ln = lines.len();
        let mut i: usize = 0;
        let ghost lsv = spec_split(content@, "\n"@);
        proof {
            reveal_strlit("\n");
            assert("\n"@ =~= seq!['\n']);
            assert(lsv == lines@.map_values(|x: String| x@));
        }
        while i < ln
            invariant
                ln == lines@.len(),
                lsv == lines@.map_values(|x: String| x@),
                0 <= i <= ln,
                formatted@.map_values(|x: String| x@) == lsv.take(i as int).map_values(
                    |line: Seq<char>| spec_format_line(line, open_m@, close_m@),
                ),
            decreases ln - i,
        {
            let line = &lines[i];
            let f: String;
            if is_blank(line.as_str()) {
                f = line.clone();
                proof {
                    assert(f@ == spec_format_line(lsv[i as int], open_m@, close_m@));
                }
            } else {
                let lln = line.unicode_len();
                let ll = crate::text::count_lead_ws(line.as_str());
                let lt = crate::text::count_trail_ws(line.as_str());
                proof {
                    lemma_lead_ws_bound(line@);
                    lemma_trail_ws_bound(line@);
                    if lln - lt < ll {
                        let k = spec_lead_ws(line@);
                        assert(!spec_is_ws(line@[k]));
                        assert(false);
                    }
                }
                let core = trim_string(line.as_str());
                let mut out = substring_copy(line.as_str(), 0, ll);
                out.append(open_m);
                out.append(core.as_str());
                out.append(close_m);
                let tail = substring_copy(line.as_str(), lln - lt, lln);
                out.append(tail.as_str());
                proof {
                    assert(out@ =~= spec_format_line(lsv[i as int], open_m@, close_m@));
                }
                f = out;
            }
            formatted.push(f);
            proof {
                assert(formatted@.map_values(|x: String| x@) =~= lsv.take(i as int).map_values(
                    |line: Seq<char>| spec_format_line(line, open_m@, close_m@),
                ).push(spec_format_line(lsv[i as int], open_m@, close_m@)));
                assert(lsv.take(i + 1).map_values(
                    |line: Seq<char>| spec_format_line(line, open_m@, close_m@),
                ) =~= lsv.take(i as int).map_values(
                    |line: Seq<char>| spec_format_line(line, open_m@, close_m@),
                ).push(spec_format_line(lsv[i as int], open_m@, close_m@)));
            }
            i = i + 1;
        }
        proof {
            assert(lsv.take(ln as int) =~= lsv);
        }
        let joined = join_strings(&formatted, "\n");
        let mut r = lead;
        r.append(joined.as_str());
        r.append(trail.as_str());
        proof {
            reveal_strlit("\n");
            assert("\n"@ =~= seq!['\n']);
            assert(r@ =~= spec_apply_format(text@, open_m@, close_m@));
        }
        r
    } else {
        let core = trim_string(content);
        let mut r = lead;
        r.append(open_m);
        r.append(core.as_str());
        r.append(close_m);
        r.append(trail.as_str());
        proof {
            assert(r@ =~= spec_apply_format(text@, open_m@, close_m@));
        }
        r
    }
}

} // verus!
