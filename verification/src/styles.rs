//! Style resolution: merging character and paragraph formatting across
//! document defaults, style-inheritance chains, and direct formatting.

use vstd::prelude::*;

use crate::model::{CharProps, ParaProps, StyleDefinition, StylesInput};
use crate::text::str_eq;

verus! {

/// Field-wise override: a present overlay field replaces the base field.
pub open spec fn spec_merge_char(base: CharProps, overlay: CharProps) -> CharProps {
    CharProps {
        bold: if overlay.bold is Some {
            overlay.bold
        } else {
            base.bold
        },
        italics: if overlay.italics is Some {
            overlay.italics
        } else {
            base.italics
        },
        strike: if overlay.strike is Some {
            overlay.strike
        } else {
            base.strike
        },
        underline: if overlay.underline is Some {
            overlay.underline
        } else {
            base.underline
        },
    }
}

/// Merges character properties: overlay fields that are present win.
pub fn merge_char_props(base: CharProps, overlay: &CharProps) -> (r: CharProps)
    ensures
        r == spec_merge_char(base, *overlay),
{
    CharProps {
        bold: if overlay.bold.is_some() {
            overlay.bold
        } else {
            base.bold
        },
        italics: if overlay.italics.is_some() {
            overlay.italics
        } else {
            base.italics
        },
        strike: if overlay.strike.is_some() {
            overlay.strike
        } else {
            base.strike
        },
        underline: if overlay.underline.is_some() {
            overlay.underline
        } else {
            base.underline
        },
    }
}

pub open spec fn spec_merge_para(base: ParaProps, overlay: ParaProps) -> ParaProps {
    ParaProps {
        justification: if overlay.justification is Some {
            overlay.justification
        } else {
            base.justification
        },
        numbering: if overlay.numbering is Some {
            overlay.numbering
        } else {
            base.numbering
        },
        style_id: if overlay.style_id is Some {
            overlay.style_id
        } else {
            base.style_id
        },
    }
}

/// Merges paragraph properties: overlay fields that are present win.
pub fn merge_para_props(base: ParaProps, overlay: &ParaProps) -> (r: ParaProps)
    ensures
        r == spec_merge_para(base, *overlay),
{
    let style_id = if overlay.style_id.is_some() {
        match &overlay.style_id {
            Option::Some(s) => Option::Some(s.clone()),
            Option::None => Option::None,
        }
    } else {
        base.style_id
    };
    ParaProps {
        style_id,
        numbering: if overlay.numbering.is_some() {
            overlay.numbering
        } else {
            base.numbering
        },
        justification: if overlay.justification.is_some() {
            overlay.justification
        } else {
            base.justification
        },
    }
}

/// The last style record with the given id, if any.
pub open spec fn spec_find_style(styles: Seq<StyleDefinition>, id: Seq<char>) -> Option<
    StyleDefinition,
>
    decreases styles.len(),
{
    if styles.len() == 0 {
        Option::None
    } else if styles.last().style_id@ == id {
        Option::Some(styles.last())
    } else {
        spec_find_style(styles.drop_last(), id)
    }
}

fn find_style_idx(styles: &Vec<StyleDefinition>, id: &str) -> (r: Option<usize>)
    ensures
        match r {
            Option::Some(i) => i < styles@.len() && spec_find_style(styles@, id@) == Option::Some(
                styles@[i as int],
            ),
            Option::None => spec_find_style(styles@, id@) is None,
        },
{
    let n = styles.len();
    let mut i: usize = n;
    proof {
        assert(styles@.take(n as int) =~= styles@);
    }
    while i > 0
        invariant
            n == styles@.len(),
            0 <= i <= n,
            spec_find_style(styles@, id@) == spec_find_style(styles@.take(i as int), id@),
        decreases i,
    {
        i = i - 1;
        proof {
            assert(styles@.take(i + 1).last() == styles@[i as int]);
            assert(styles@.take(i + 1).drop_last() =~= styles@.take(i as int));
        }
        if str_eq(styles[i].style_id.as_str(), id) {
            return Option::Some(i);
        }
    }
    proof {
        assert(styles@.take(0) =~= Seq::<StyleDefinition>::empty());
    }
    Option::None
}

pub open spec fn spec_str_views(s: Seq<String>) -> Seq<Seq<char>> {
    s.map_values(|x: String| x@)
}

fn contains_string(v: &Vec<String>, id: &str) -> (r: bool)
    ensures
        r == spec_str_views(v@).contains(id@),
{
    let n = v.len();
    let mut i: usize = 0;
    while i < n
        invariant
            n == v@.len(),
            0 <= i <= n,
            forall|j: int| 0 <= j < i ==> spec_str_views(v@)[j] != id@,
        decreases n - i,
    {
        if str_eq(v[i].as_str(), id) {
            proof {
                assert(spec_str_views(v@)[i as int] == id@);
            }
            return true;
        }
        i = i + 1;
    }
    false
}

fn clone_para_props(p: &ParaProps) -> (r: ParaProps)
    ensures
        r == *p,
{
    ParaProps {
        style_id: match &p.style_id {
            Option::Some(x) => Option::Some(x.clone()),
            Option::None => Option::None,
        },
        numbering: p.numbering,
        justification: p.justification,
    }
}

/// An equal copy of a style sheet, for handing one into a resolver while
/// the document tree keeps its own.
pub fn clone_styles_input(s: &StylesInput) -> (r: StylesInput)
    ensures
        r.default_char == s.default_char,
        r.default_para == s.default_para,
        r.styles@ == s.styles@,
{
    let default_para = match &s.default_para {
        Option::Some(p) => Option::Some(clone_para_props(p)),
        Option::None => Option::None,
    };
    let mut styles: Vec<StyleDefinition> = Vec::new();
    let n = s.styles.len();
    let mut i: usize = 0;
    while i < n
        invariant
            n == s.styles@.len(),
            0 <= i <= n,
            styles@ == s.styles@.take(i as int),
        decreases n - i,
    {
        styles.push(clone_style(&s.styles[i]));
        proof {
            assert(s.styles@.take(i + 1) =~= s.styles@.take(i as int).push(s.styles@[i as int]));
        }
        i = i + 1;
    }
    proof {
        assert(s.styles@.take(n as int) =~= s.styles@);
    }
    StylesInput { default_char: s.default_char, default_para, styles }
}

fn clone_style(s: &StyleDefinition) -> (r: StyleDefinition)
    ensures
        r == *s,
{
    StyleDefinition {
        style_id: s.style_id.clone(),
        base: match &s.base {
            Option::Some(b) => Option::Some(b.clone()),
            Option::None => Option::None,
        },
        character: s.character,
        paragraph: match &s.paragraph {
            Option::Some(p) => Option::Some(
                ParaProps {
                    style_id: match &p.style_id {
                        Option::Some(x) => Option::Some(x.clone()),
                        Option::None => Option::None,
                    },
                    numbering: p.numbering,
                    justification: p.justification,
                },
            ),
            Option::None => Option::None,
        },
    }
}

/// The inheritance chain starting at a style id, leaf first: base pointers
/// are followed until a style is missing or a name repeats, so a cycle ends
/// the chain instead of looping.
pub open spec fn spec_chain(
    styles: Seq<StyleDefinition>,
    id: Seq<char>,
    visited: Seq<Seq<char>>,
    fuel: nat,
) -> Seq<StyleDefinition>
    decreases fuel,
{
    if fuel == 0 {
        Seq::empty()
    } else if visited.contains(id) {
        Seq::empty()
    } else {
        match spec_find_style(styles, id) {
            Option::None => Seq::empty(),
            Option::Some(st) => seq![st] + (match st.base {
                Option::Some(b) => spec_chain(styles, b@, visited.push(id), (fuel - 1) as nat),
                Option::None => Seq::empty(),
            }),
        }
    }
}

/// The chain used by resolution. The fuel covers every distinct style name,
/// so it never cuts a chain that the revisit check would not.
pub open spec fn spec_chain_for(styles: Seq<StyleDefinition>, id: Seq<char>) -> Seq<
    StyleDefinition,
> {
    spec_chain(styles, id, Seq::empty(), styles.len())
}

fn collect_chain(
    styles: &Vec<StyleDefinition>,
    id: &str,
    visited: Vec<String>,
    fuel: usize,
) -> (r: Vec<StyleDefinition>)
    ensures
        r@ == spec_chain(styles@, id@, spec_str_views(visited@), fuel as nat),
    decreases fuel,
{
    if fuel == 0 {
        return Vec::new();
    }
    if contains_string(&visited, id) {
        return Vec::new();
    }
    let si = match find_style_idx(styles, id) {
        Option::Some(i) => i,
        Option::None => {
            return Vec::new();
        },
    };
    let st = clone_style(&styles[si]);
    let has_base = styles[si].base.is_some();
    let ghost vv = spec_str_views(visited@);
    let mut out: Vec<StyleDefinition> = Vec::new();
    if has_base {
        let base_id = match &styles[si].base {
            Option::Some(b) => b.clone(),
            Option::None => String::new(),
        };
        proof {
            assert(base_id@ == styles@[si as int].base->Some_0@);
        }
        let mut v2 = visited;
        v2.push(id.to_owned());
        proof {
            assert(spec_str_views(v2@) =~= vv.push(id@));
        }
        let rest = collect_chain(styles, base_id.as_str(), v2, fuel - 1);
        out.push(st);
        let rn = rest.len();
        let mut i: usize = 0;
        while i < rn
            invariant
                rn == rest@.len(),
                0 <= i <= rn,
                out@.len() == i + 1,
                out@[0] == styles@[si as int],
                forall|j: int| 0 <= j < i ==> out@[j + 1] == rest@[j],
            decreases rn - i,
        {
            out.push(clone_style(&rest[i]));
            i = i + 1;
        }
        proof {
            assert(out@ =~= seq![styles@[si as int]] + rest@);
            assert(spec_chain(styles@, id@, vv, fuel as nat) == seq![styles@[si as int]]
                + spec_chain(
                styles@,
                styles@[si as int].base->Some_0@,
                vv.push(id@),
                (fuel - 1) as nat,
            ));
        }
    } else {
        out.push(st);
        proof {
            assert(out@ =~= seq![styles@[si as int]] + Seq::<StyleDefinition>::empty());
            assert(spec_chain(styles@, id@, vv, fuel as nat) == seq![styles@[si as int]]
                + Seq::<StyleDefinition>::empty());
        }
    }
    out
}

/// Chain application: styles are applied root first, so derived styles
/// override their bases field by field.
pub open spec fn spec_apply_chain_char(t: CharProps, chain: Seq<StyleDefinition>) -> CharProps
    decreases chain.len(),
{
    if chain.len() == 0 {
        t
    } else {
        spec_apply_chain_char(
            match chain.last().character {
                Option::Some(c) => spec_merge_char(t, c),
                Option::None => t,
            },
            chain.drop_last(),
        )
    }
}

pub open spec fn spec_apply_chain_para(t: ParaProps, chain: Seq<StyleDefinition>) -> ParaProps
    decreases chain.len(),
{
    if chain.len() == 0 {
        t
    } else {
        spec_apply_chain_para(
            match chain.last().paragraph {
                Option::Some(p) => spec_merge_para(t, p),
                Option::None => t,
            },
            chain.drop_last(),
        )
    }
}

/// Effective character properties: document defaults, then the paragraph
/// style's chain, then the run style's chain, then direct formatting, each
/// layer overriding the one below field by field.
pub open spec fn spec_resolve_run(
    sin: StylesInput,
    direct: Option<CharProps>,
    run_sid: Option<Seq<char>>,
    para_sid: Option<Seq<char>>,
) -> CharProps {
    let t0 = match sin.default_char {
        Option::Some(d) => spec_merge_char(CharProps::spec_unset(), d),
        Option::None => CharProps::spec_unset(),
    };
    let t1 = match para_sid {
        Option::Some(p) => spec_apply_chain_char(t0, spec_chain_for(sin.styles@, p)),
        Option::None => t0,
    };
    let t2 = match run_sid {
        Option::Some(rr) => spec_apply_chain_char(t1, spec_chain_for(sin.styles@, rr)),
        Option::None => t1,
    };
    match direct {
        Option::Some(d) => spec_merge_char(t2, d),
        Option::None => t2,
    }
}

/// Effective paragraph properties: defaults, then the style chain, then
/// direct formatting.
pub open spec fn spec_resolve_para(
    sin: StylesInput,
    direct: Option<ParaProps>,
    para_sid: Option<Seq<char>>,
) -> ParaProps {
    let t0 = match sin.default_para {
        Option::Some(d) => spec_merge_para(ParaProps::spec_unset(), d),
        Option::None => ParaProps::spec_unset(),
    };
    let t1 = match para_sid {
        Option::Some(p) => spec_apply_chain_para(t0, spec_chain_for(sin.styles@, p)),
        Option::None => t0,
    };
    match direct {
        Option::Some(d) => spec_merge_para(t1, d),
        Option::None => t1,
    }
}

/// Resolver over a document's style sheet. Unknown style ids contribute
/// nothing; no resolution ever fails.
pub struct StyleResolver {
    pub styles: StylesInput,
}

impl StyleResolver {
    pub fn new(styles: StylesInput) -> (r: StyleResolver)
        ensures
            r.styles == styles,
    {
        StyleResolver { styles }
    }

    fn apply_style_chain_char(&self, target: &mut CharProps, style_id: &str)
        ensures
            *final(target) == spec_apply_chain_char(
                *old(target),
                spec_chain_for(self.styles.styles@, style_id@),
            ),
    {
        let n = self.styles.styles.len();
        proof {
            assert(spec_str_views(Seq::<String>::empty()) =~= Seq::<Seq<char>>::empty());
        }
        let chain = collect_chain(&self.styles.styles, style_id, Vec::new(), n);
        let ghost cv = chain@;
        let mut i: usize = chain.len();
        proof {
            assert(cv.take(i as int) =~= cv);
        }
        while i > 0
            invariant
                cv == chain@,
                0 <= i <= chain@.len(),
                spec_apply_chain_char(*old(target), cv) == spec_apply_chain_char(
                    *target,
                    cv.take(i as int),
                ),
            decreases i,
        {
            i = i - 1;
            proof {
                assert(cv.take(i + 1).last() == cv[i as int]);
                assert(cv.take(i + 1).drop_last() =~= cv.take(i as int));
            }
            if chain[i].character.is_some() {
                let c = match &chain[i].character {
                    Option::Some(c) => *c,
                    Option::None => CharProps::unset(),
                };
                *target = merge_char_props(*target, &c);
            }
        }
        proof {
            assert(cv.take(0) =~= Seq::<StyleDefinition>::empty());
        }
    }

    fn apply_style_chain_para(&self, target: &mut ParaProps, style_id: &str)
        ensures
            *final(target) == spec_apply_chain_para(
                *old(target),
                spec_chain_for(self.styles.styles@, style_id@),
            ),
    {
        let n = self.styles.styles.len();
        proof {
            assert(spec_str_views(Seq::<String>::empty()) =~= Seq::<Seq<char>>::empty());
        }
        let chain = collect_chain(&self.styles.styles, style_id, Vec::new(), n);
        let ghost cv = chain@;
        let mut i: usize = chain.len();
        proof {
            assert(cv.take(i as int) =~= cv);
        }
        while i > 0
            invariant
                cv == chain@,
                0 <= i <= chain@.len(),
                spec_apply_chain_para(*old(target), cv) == spec_apply_chain_para(
                    *target,
                    cv.take(i as int),
                ),
            decreases i,
        {
            i = i - 1;
            proof {
                assert(cv.take(i + 1).last() == cv[i as int]);
                assert(cv.take(i + 1).drop_last() =~= cv.take(i as int));
            }
            if chain[i].paragraph.is_some() {
                let p = match &chain[i].paragraph {
                    Option::Some(p) => ParaProps {
                        style_id: match &p.style_id {
                            Option::Some(x) => Option::Some(x.clone()),
                            Option::None => Option::None,
                        },
                        numbering: p.numbering,
                        justification: p.justification,
                    },
                    Option::None => ParaProps::unset(),
                };
                let mut tmp = ParaProps::unset();
                core::mem::swap(target, &mut tmp);
                *target = merge_para_props(tmp, &p);
            }
        }
        proof {
            assert(cv.take(0) =~= Seq::<StyleDefinition>::empty());
        }
    }

    /// Resolves the effective character properties for a run: document
    /// defaults, the paragraph style chain, the run style chain, and direct
    /// formatting, in rising priority.
    pub fn resolve_run_property(
        &self,
        direct_props: Option<&CharProps>,
        run_style_id: Option<&str>,
        para_style_id: Option<&str>,
    ) -> (r: CharProps)
        ensures
            r == spec_resolve_run(
                self.styles,
                match direct_props {
                    Option::Some(d) => Option::Some(*d),
                    Option::None => Option::None,
                },
                match run_style_id {
                    Option::Some(s) => Option::Some(s@),
                    Option::None => Option::None,
                },
                match para_style_id {
                    Option::Some(s) => Option::Some(s@),
                    Option::None => Option::None,
                },
            ),
    {
        let mut merged = CharProps::unset();
        if let Option::Some(d) = &self.styles.default_char {
            merged = merge_char_props(merged, d);
        }
        if let Option::Some(pid) = para_style_id {
            self.apply_style_chain_char(&mut merged, pid);
        }
        if let Option::Some(rid) = run_style_id {
            self.apply_style_chain_char(&mut merged, rid);
        }
        if let Option::Some(direct) = direct_props {
            merged = merge_char_props(merged, direct);
        }
        merged
    }

    /// Resolves the effective paragraph properties: defaults, the style
    /// chain, and direct formatting, in rising priority.
    pub fn resolve_paragraph_property(
        &self,
        direct_props: Option<&ParaProps>,
        para_style_id: Option<&str>,
    ) -> (r: ParaProps)
        ensures
            r == spec_resolve_para(
                self.styles,
                match direct_props {
                    Option::Some(d) => Option::Some(*d),
                    Option::None => Option::None,
                },
                match para_style_id {
                    Option::Some(s) => Option::Some(s@),
                    Option::None => Option::None,
                },
            ),
    {
        let mut merged = ParaProps::unset();
        if let Option::Some(d) = &self.styles.default_para {
            let dd = ParaProps {
                style_id: match &d.style_id {
                    Option::Some(x) => Option::Some(x.clone()),
                    Option::None => Option::None,
                },
                numbering: d.numbering,
                justification: d.justification,
            };
            merged = merge_para_props(merged, &dd);
        }
        if let Option::Some(pid) = para_style_id {
            self.apply_style_chain_para(&mut merged, pid);
        }
        if let Option::Some(direct) = direct_props {
            merged = merge_para_props(merged, direct);
        }
        merged
    }
}

} // verus!
