//! Language-aware heading detection: style names that mark headings, and
//! section-pattern markers that promote a list paragraph to a heading.

use vstd::prelude::*;

use crate::text::{ascii_lower, parse_usize, push_char, starts_with_str, ends_with_str,
    substring_copy, trim_string, spec_all_digits, spec_ascii_lower, spec_digits_val,
    spec_starts_with, spec_ends_with, spec_trim, str_eq};

verus! {

/// The numeric value of a digit string when it parses as a usize.
pub open spec fn spec_parse_usize_opt(s: Seq<char>) -> Option<int> {
    if s.len() > 0 && spec_all_digits(s) && spec_digits_val(s) <= usize::MAX {
        Option::Some(spec_digits_val(s))
    } else {
        Option::None
    }
}

/// The ASCII digits of a string, in order.
pub open spec fn spec_digit_chars(s: Seq<char>) -> Seq<char>
    decreases s.len(),
{
    if s.len() == 0 {
        Seq::empty()
    } else {
        spec_digit_chars(s.drop_last()) + (if '0' <= s.last() && s.last() <= '9' {
            seq![s.last()]
        } else {
            Seq::empty()
        })
    }
}

fn digit_chars(s: &str) -> (r: String)
    ensures
        r@ == spec_digit_chars(s@),
{
    let n = s.unicode_len();
    let mut r = String::new();
    let mut i: usize = 0;
    proof {
        assert(s@.take(0) =~= Seq::<char>::empty());
        assert(r@ =~= spec_digit_chars(s@.take(0)));
    }
    while i < n
        invariant
            n == s@.len(),
            0 <= i <= n,
            r@ == spec_digit_chars(s@.take(i as int)),
        decreases n - i,
    {
        let ghost pre = r@;
        let c = s.get_char(i);
        if '0' <= c && c <= '9' {
            push_char(&mut r, c);
            proof {
                assert(pre.push(c) =~= pre + seq![c]);
            }
        }
        proof {
            assert(s@.take(i + 1).drop_last() =~= s@.take(i as int));
            assert(s@.take(i + 1).last() == s@[i as int]);
        }
        i = i + 1;
    }
    proof {
        assert(s@.take(n as int) =~= s@);
    }
    r
}

/// The heading level a style name denotes, if any: "heading N" styles (and
/// the section-title styles of the supported locale) map to their level;
/// "title" and "subtitle" map to 1 and 2.
pub open spec fn spec_parse_heading(style: Seq<char>) -> Option<int> {
    let lower = spec_ascii_lower(style);
    if spec_starts_with(lower, "heading"@) {
        spec_parse_usize_opt(spec_trim(lower.skip("heading"@.len() as int)))
    } else if spec_starts_with(lower, "\u{c81c}\u{baa9}"@) {
        spec_parse_usize_opt(spec_digit_chars(lower))
    } else if lower == "title"@ {
        Option::Some(1)
    } else if lower == "subtitle"@ {
        Option::Some(2)
    } else {
        Option::None
    }
}

/// Parses a style name to determine the heading level.
pub fn parse_heading_style(style: &str) -> (r: Option<usize>)
    ensures
        match r {
            Option::Some(v) => spec_parse_heading(style@) == Option::Some(v as int),
            Option::None => spec_parse_heading(style@) is None,
        },
{
    let lower = ascii_lower(style);
    let n = lower.unicode_len();
    if starts_with_str(lower.as_str(), "heading") {
        proof {
            reveal_strlit("heading");
        }
        let rest = substring_copy(lower.as_str(), 7, n);
        proof {
            assert(rest@ =~= lower@.skip("heading"@.len() as int));
        }
        let trimmed = trim_string(rest.as_str());
        let r = parse_usize(trimmed.as_str());
        proof {
            if trimmed@.len() > 0 && spec_all_digits(trimmed@) {
                crate::text::lemma_digits_val_nonneg(trimmed@);
            }
        }
        r
    } else if starts_with_str(lower.as_str(), "\u{c81c}\u{baa9}") {
        let digits = digit_chars(lower.as_str());
        let r = parse_usize(digits.as_str());
        proof {
            if digits@.len() > 0 && spec_all_digits(digits@) {
                crate::text::lemma_digits_val_nonneg(digits@);
            }
        }
        r
    } else if str_eq(lower.as_str(), "title") {
        Option::Some(1)
    } else if str_eq(lower.as_str(), "subtitle") {
        Option::Some(2)
    } else {
        Option::None
    }
}

/// Trailing full stops of a marker.
pub open spec fn spec_trail_dots(s: Seq<char>) -> int
    decreases s.len(),
{
    if s.len() == 0 {
        0
    } else if s.last() == '.' {
        1 + spec_trail_dots(s.drop_last())
    } else {
        0
    }
}

proof fn lemma_trail_dots_bound(s: Seq<char>)
    ensures
        0 <= spec_trail_dots(s) <= s.len(),
    decreases s.len(),
{
    if s.len() > 0 && s.last() == '.' {
        lemma_trail_dots_bound(s.drop_last());
    }
}

/// Whether a rendered marker is a section-like heading pattern, and the
/// heading prefix it promotes to: the marker without trailing periods,
/// behind a level-three heading mark.
pub open spec fn spec_handle_numbering(m: Seq<char>) -> Option<Seq<char>> {
    if spec_starts_with(m, "\u{c81c}"@) && (spec_ends_with(m, "\u{c870}."@) || spec_ends_with(
        m,
        "\u{c870}"@,
    )) {
        Option::Some("### "@ + m.take(m.len() - spec_trail_dots(m)))
    } else {
        Option::None
    }
}

/// Determines if a numbering marker represents a section heading; returns
/// the heading prefix when it does.
pub fn handle_numbering(marker: &str) -> (r: Option<String>)
    ensures
        match r {
            Option::Some(h) => spec_handle_numbering(marker@) == Option::Some(h@),
            Option::None => spec_handle_numbering(marker@) is None,
        },
{
    if starts_with_str(marker, "\u{c81c}") && (ends_with_str(marker, "\u{c870}.") || ends_with_str(
        marker,
        "\u{c870}",
    )) {
        let n = marker.unicode_len();
        let mut dots: usize = 0;
        proof {
            lemma_trail_dots_bound(marker@);
        }
        while dots < n && marker.get_char(n - 1 - dots) == '.'
            invariant
                n == marker@.len(),
                0 <= dots <= n,
                dots <= spec_trail_dots(marker@),
                forall|j: int| n - dots <= j < n ==> marker@[j] == '.',
            decreases n - dots,
        {
            proof {
                lemma_dots_suffix_more(marker@, dots as int);
            }
            dots = dots + 1;
        }
        proof {
            if dots == n {
                lemma_dots_all(marker@);
            } else {
                lemma_dots_suffix(marker@, dots as int);
            }
        }
        let clean = substring_copy(marker, 0, n - dots);
        let mut h = String::from_str("### ");
        h.append(clean.as_str());
        proof {
            assert(clean@ =~= marker@.take(marker@.len() - spec_trail_dots(marker@)));
        }
        Option::Some(h)
    } else {
        Option::None
    }
}

proof fn lemma_dots_suffix(s: Seq<char>, i: int)
    requires
        0 <= i < s.len(),
        forall|j: int| s.len() - i <= j < s.len() ==> s[j] == '.',
        s[s.len() - i - 1] != '.',
    ensures
        spec_trail_dots(s) == i,
    decreases i,
{
    lemma_trail_dots_bound(s);
    if i > 0 {
        assert forall|j: int| s.drop_last().len() - (i - 1) <= j < s.drop_last().len()
            implies s.drop_last()[j] == '.' by {
            assert(s.drop_last()[j] == s[j]);
        }
        assert(s.drop_last()[s.drop_last().len() - (i - 1) - 1] == s[s.len() - i - 1]);
        lemma_dots_suffix(s.drop_last(), i - 1);
    }
}

proof fn lemma_dots_suffix_more(s: Seq<char>, i: int)
    requires
        0 <= i < s.len(),
        forall|j: int| s.len() - i - 1 <= j < s.len() ==> s[j] == '.',
    ensures
        spec_trail_dots(s) >= i + 1,
    decreases i,
{
    lemma_trail_dots_bound(s.drop_last());
    if i > 0 {
        assert forall|j: int| s.drop_last().len() - (i - 1) - 1 <= j < s.drop_last().len()
            implies s.drop_last()[j] == '.' by {
            assert(s.drop_last()[j] == s[j]);
        }
        lemma_dots_suffix_more(s.drop_last(), i - 1);
    }
}

proof fn lemma_dots_all(s: Seq<char>)
    requires
        forall|j: int| 0 <= j < s.len() ==> s[j] == '.',
    ensures
        spec_trail_dots(s) == s.len(),
    decreases s.len(),
{
    if s.len() > 0 {
        assert forall|j: int| 0 <= j < s.drop_last().len() implies s.drop_last()[j] == '.' by {
            assert(s.drop_last()[j] == s[j]);
        }
        lemma_dots_all(s.drop_last());
    }
}

/// Strategy for language-specific formatting conventions.
pub trait LocalizationStrategy {
    /// Determines if a numbering marker represents a heading; returns the
    /// heading prefix when it does.
    fn handle_numbering(&self, marker: &str) -> Option<String>;

    /// Parses a style name to determine the heading level.
    fn parse_heading_style(&self, style: &str) -> Option<usize>;
}

/// Default localization strategy: standard heading styles only, and no
/// marker promotion.
pub struct DefaultLocalization;

impl LocalizationStrategy for DefaultLocalization {
    fn handle_numbering(&self, marker: &str) -> Option<String> {
        Option::None
    }

    fn parse_heading_style(&self, style: &str) -> Option<usize> {
        let lower = ascii_lower(style);
        let n = lower.unicode_len();
        if starts_with_str(lower.as_str(), "heading") {
            proof {
                reveal_strlit("heading");
            }
            let rest = substring_copy(lower.as_str(), 7, n);
            let trimmed = trim_string(rest.as_str());
            return parse_usize(trimmed.as_str());
        }
        if str_eq(lower.as_str(), "title") {
            Option::Some(1)
        } else if str_eq(lower.as_str(), "subtitle") {
            Option::Some(2)
        } else {
            Option::None
        }
    }
}

/// Localization strategy for section-numbered documents: article markers
/// become headings, and localized title styles are recognised.
pub struct KoreanLocalization;

impl LocalizationStrategy for KoreanLocalization {
    fn handle_numbering(&self, marker: &str) -> Option<String> {
        handle_numbering(marker)
    }

    fn parse_heading_style(&self, style: &str) -> Option<usize> {
        parse_heading_style(style)
    }
}

} // verus!
