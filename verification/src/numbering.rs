//! List-numbering engine: per-abstract-list counters, marker rendering in
//! several counting systems, and indentation shifts.

use vstd::prelude::*;

use crate::model::{AbstractNumInput, LevelInput, LevelOverrideInput, NumInstanceInput,
    NumberingInput};
use crate::text::{char_to_string, contains_char, i64_to_string, push_char, replace_all,
    spec_ascii_lower, spec_int_str, spec_replace_all, spec_dec_digits, spec_digit_char,
    str_eq, u64_to_string, ascii_lower};

verus! {

/// One resolved numbering level: its index, start value, number format tag
/// and optional marker template.
#[derive(Clone, Debug)]
pub struct LevelDef {
    pub ilvl: i32,
    pub start: i32,
    pub num_fmt: String,
    pub lvl_text: Option<String>,
}

/// The last value paired with the given key in an association list.
pub open spec fn spec_assoc<K, V>(entries: Seq<(K, V)>, key: K) -> Option<V>
    decreases entries.len(),
{
    if entries.len() == 0 {
        Option::None
    } else if entries.last().0 == key {
        Option::Some(entries.last().1)
    } else {
        spec_assoc(entries.drop_last(), key)
    }
}

/// Index of the last entry with the given key, or None.
fn assoc_idx_i32<V>(entries: &Vec<(i32, V)>, key: i32) -> (r: Option<usize>)
    ensures
        match r {
            Option::Some(i) => i < entries@.len() && entries@[i as int].0 == key && spec_assoc(
                entries@,
                key,
            ) == Option::Some(entries@[i as int].1) && forall|j: int|
                i < j < entries@.len() ==> (#[trigger] entries@[j]).0 != key,
            Option::None => spec_assoc(entries@, key) is None,
        },
{
    let n = entries.len();
    let mut i: usize = n;
    proof {
        assert(entries@.take(n as int) =~= entries@);
    }
    while i > 0
        invariant
            n == entries@.len(),
            0 <= i <= n,
            spec_assoc(entries@, key) == spec_assoc(entries@.take(i as int), key),
            forall|j: int| i <= j < n ==> (#[trigger] entries@[j]).0 != key,
        decreases i,
    {
        i = i - 1;
        proof {
            assert(entries@.take(i + 1).last() == entries@[i as int]);
            assert(entries@.take(i + 1).drop_last() =~= entries@.take(i as int));
        }
        if entries[i].0 == key {
            return Option::Some(i);
        }
    }
    proof {
        assert(entries@.take(0) =~= Seq::<(i32, V)>::empty());
    }
    Option::None
}

/// Index of the last entry with the given pair key, or None.
fn assoc_idx_pair(entries: &Vec<((i32, i32), i32)>, k0: i32, k1: i32) -> (r: Option<usize>)
    ensures
        match r {
            Option::Some(i) => i < entries@.len() && entries@[i as int].0 == (k0, k1) && spec_assoc(
                entries@,
                (k0, k1),
            ) == Option::Some(entries@[i as int].1),
            Option::None => spec_assoc(entries@, (k0, k1)) is None,
        },
{
    let n = entries.len();
    let mut i: usize = n;
    proof {
        assert(entries@.take(n as int) =~= entries@);
    }
    while i > 0
        invariant
            n == entries@.len(),
            0 <= i <= n,
            spec_assoc(entries@, (k0, k1)) == spec_assoc(entries@.take(i as int), (k0, k1)),
        decreases i,
    {
        i = i - 1;
        proof {
            assert(entries@.take(i + 1).last() == entries@[i as int]);
            assert(entries@.take(i + 1).drop_last() =~= entries@.take(i as int));
        }
        if entries[i].0.0 == k0 && entries[i].0.1 == k1 {
            return Option::Some(i);
        }
    }
    proof {
        assert(entries@.take(0) =~= Seq::<((i32, i32), i32)>::empty());
    }
    Option::None
}

pub open spec fn spec_roman(n: int) -> Seq<char>
    decreases n,
{
    if n >= 1000 {
        "M"@ + spec_roman(n - 1000)
    } else if n >= 900 {
        "CM"@ + spec_roman(n - 900)
    } else if n >= 500 {
        "D"@ + spec_roman(n - 500)
    } else if n >= 400 {
        "CD"@ + spec_roman(n - 400)
    } else if n >= 100 {
        "C"@ + spec_roman(n - 100)
    } else if n >= 90 {
        "XC"@ + spec_roman(n - 90)
    } else if n >= 50 {
        "L"@ + spec_roman(n - 50)
    } else if n >= 40 {
        "XL"@ + spec_roman(n - 40)
    } else if n >= 10 {
        "X"@ + spec_roman(n - 10)
    } else if n >= 9 {
        "IX"@ + spec_roman(n - 9)
    } else if n >= 5 {
        "V"@ + spec_roman(n - 5)
    } else if n >= 4 {
        "IV"@ + spec_roman(n - 4)
    } else if n >= 1 {
        "I"@ + spec_roman(n - 1)
    } else {
        Seq::empty()
    }
}

/// Roman rendering, falling back to the decimal form for non-positive input.
pub open spec fn spec_roman_str(n: int) -> Seq<char> {
    if n <= 0 {
        spec_int_str(n)
    } else {
        spec_roman(n)
    }
}

/// Subtractive-pair Roman numeral conversion.
pub fn to_roman(num: i64) -> (r: String)
    ensures
        r@ == spec_roman_str(num as int),
{
    if num <= 0 {
        return i64_to_string(num);
    }
    let mut rem = num;
    let mut r = String::new();
    proof {
        assert(r@ + spec_roman(rem as int) =~= spec_roman(num as int));
    }
    while rem > 0
        invariant
            0 <= rem <= num,
            spec_roman(num as int) == r@ + spec_roman(rem as int),
        decreases rem,
    {
        if rem >= 1000 {
            r.append("M");
            rem = rem - 1000;
        } else if rem >= 900 {
            r.append("CM");
            rem = rem - 900;
        } else if rem >= 500 {
            r.append("D");
            rem = rem - 500;
        } else if rem >= 400 {
            r.append("CD");
            rem = rem - 400;
        } else if rem >= 100 {
            r.append("C");
            rem = rem - 100;
        } else if rem >= 90 {
            r.append("XC");
            rem = rem - 90;
        } else if rem >= 50 {
            r.append("L");
            rem = rem - 50;
        } else if rem >= 40 {
            r.append("XL");
            rem = rem - 40;
        } else if rem >= 10 {
            r.append("X");
            rem = rem - 10;
        } else if rem >= 9 {
            r.append("IX");
            rem = rem - 9;
        } else if rem >= 5 {
            r.append("V");
            rem = rem - 5;
        } else if rem >= 4 {
            r.append("IV");
            rem = rem - 4;
        } else {
            r.append("I");
            rem = rem - 1;
        }
    }
    r
}

pub open spec fn spec_ganada_chars() -> Seq<char> {
    seq!['가', '나', '다', '라', '마', '바', '사', '아', '자', '차', '카', '타', '파', '하']
}

pub open spec fn spec_geonodeo_chars() -> Seq<char> {
    seq!['거', '너', '더', '러', '머', '버', '서', '어', '저', '처', '커', '터', '퍼', '허']
}

pub open spec fn spec_chosung_chars() -> Seq<char> {
    seq!['ㄱ', 'ㄴ', 'ㄷ', 'ㄹ', 'ㅁ', 'ㅂ', 'ㅅ', 'ㅇ', 'ㅈ', 'ㅊ', 'ㅋ', 'ㅌ', 'ㅍ', 'ㅎ']
}

pub open spec fn spec_circle_small() -> Seq<char> {
    seq!['①', '②', '③', '④', '⑤', '⑥', '⑦', '⑧', '⑨', '⑩', '⑪', '⑫', '⑬', '⑭', '⑮', '⑯', '⑰', '⑱', '⑲', '⑳']
}

pub open spec fn spec_circle_ext() -> Seq<char> {
    seq!['㉑', '㉒', '㉓', '㉔', '㉕', '㉖', '㉗', '㉘', '㉙', '㉚', '㉛', '㉜', '㉝', '㉞', '㉟', '㉠', '㉡', '㉢', '㉣', '㉤', '㉥', '㉦', '㉧', '㉨', '㉩', '㉪', '㉫', '㉬', '㉭', '㉮']
}

/// A 14-symbol counting table: 1-indexed, out of range falls back to the
/// decimal form.
pub open spec fn spec_table14(tbl: Seq<char>, v: int) -> Seq<char> {
    if 1 <= v <= 14 {
        seq![tbl[v - 1]]
    } else {
        spec_int_str(v)
    }
}

/// Circled-digit rendering over two contiguous character ranges, falling
/// back to the decimal form outside 1..=50.
pub open spec fn spec_circle(v: int) -> Seq<char> {
    if 1 <= v <= 20 {
        seq![spec_circle_small()[v - 1]]
    } else if 21 <= v <= 50 {
        seq![spec_circle_ext()[v - 21]]
    } else {
        spec_int_str(v)
    }
}

fn table_lookup_14(tbl: Vec<char>, val: i64) -> (r: String)
    requires
        tbl@.len() == 14,
    ensures
        r@ == spec_table14(tbl@, val as int),
{
    if 1 <= val && val <= 14 {
        char_to_string(tbl[(val - 1) as usize])
    } else {
        i64_to_string(val)
    }
}

/// Korean syllable counting (ganada row).
pub fn format_ganada(val: i64) -> (r: String)
    ensures
        r@ == spec_table14(spec_ganada_chars(), val as int),
{
    let tbl: Vec<char> = vec!['가', '나', '다', '라', '마', '바', '사', '아', '자', '차', '카', '타', '파', '하'];
    table_lookup_14(tbl, val)
}

/// Korean syllable counting (geonodeo row).
pub fn format_geonodeo(val: i64) -> (r: String)
    ensures
        r@ == spec_table14(spec_geonodeo_chars(), val as int),
{
    let tbl: Vec<char> = vec!['거', '너', '더', '러', '머', '버', '서', '어', '저', '처', '커', '터', '퍼', '허'];
    table_lookup_14(tbl, val)
}

/// Korean initial-consonant counting.
pub fn format_chosung(val: i64) -> (r: String)
    ensures
        r@ == spec_table14(spec_chosung_chars(), val as int),
{
    let tbl: Vec<char> = vec!['ㄱ', 'ㄴ', 'ㄷ', 'ㄹ', 'ㅁ', 'ㅂ', 'ㅅ', 'ㅇ', 'ㅈ', 'ㅊ', 'ㅋ', 'ㅌ', 'ㅍ', 'ㅎ'];
    table_lookup_14(tbl, val)
}

/// Circled-digit rendering.
pub fn format_circle_number(val: i64) -> (r: String)
    ensures
        r@ == spec_circle(val as int),
{
    if 1 <= val && val <= 20 {
        let tbl: Vec<char> = vec!['①', '②', '③', '④', '⑤', '⑥', '⑦', '⑧', '⑨', '⑩', '⑪', '⑫', '⑬', '⑭', '⑮', '⑯', '⑰', '⑱', '⑲', '⑳'];
        char_to_string(tbl[(val - 1) as usize])
    } else if 21 <= val && val <= 50 {
        let tbl: Vec<char> = vec!['㉑', '㉒', '㉓', '㉔', '㉕', '㉖', '㉗', '㉘', '㉙', '㉚', '㉛', '㉜', '㉝', '㉞', '㉟', '㉠', '㉡', '㉢', '㉣', '㉤', '㉥', '㉦', '㉧', '㉨', '㉩', '㉪', '㉫', '㉬', '㉭', '㉮'];
        char_to_string(tbl[(val - 21) as usize])
    } else {
        i64_to_string(val)
    }
}

/// What a counter value renders as under each number-format tag.
pub open spec fn spec_format_num(fmt: Seq<char>, val: int) -> Seq<char> {
    if fmt == "bullet"@ || fmt == "none"@ {
        "-"@
    } else if fmt == "decimal"@ {
        spec_int_str(val)
    } else if fmt == "lowerLetter"@ {
        if 1 <= val <= 26 {
            seq![((96 + val) as u8) as char]
        } else {
            spec_int_str(val)
        }
    } else if fmt == "upperLetter"@ {
        if 1 <= val <= 26 {
            seq![((64 + val) as u8) as char]
        } else {
            spec_int_str(val)
        }
    } else if fmt == "lowerRoman"@ {
        spec_ascii_lower(spec_roman_str(val))
    } else if fmt == "upperRoman"@ {
        spec_roman_str(val)
    } else if fmt == "koreanCounting"@ || fmt == "korean"@ || fmt == "ganada"@ {
        spec_table14(spec_ganada_chars(), val)
    } else if fmt == "chosung"@ {
        spec_table14(spec_chosung_chars(), val)
    } else if fmt == "geonodeo"@ {
        spec_table14(spec_geonodeo_chars(), val)
    } else if fmt == "decimalEnclosedCircle"@ {
        spec_circle(val)
    } else {
        spec_int_str(val)
    }
}

/// Renders a counter value under a number-format tag.
pub fn format_num(fmt: &str, val: i64) -> (r: String)
    ensures
        r@ == spec_format_num(fmt@, val as int),
{
    if str_eq(fmt, "bullet") || str_eq(fmt, "none") {
        String::from_str("-")
    } else if str_eq(fmt, "decimal") {
        i64_to_string(val)
    } else if str_eq(fmt, "lowerLetter") {
        if 1 <= val && val <= 26 {
            char_to_string(((96 + val) as u8) as char)
        } else {
            i64_to_string(val)
        }
    } else if str_eq(fmt, "upperLetter") {
        if 1 <= val && val <= 26 {
            char_to_string(((64 + val) as u8) as char)
        } else {
            i64_to_string(val)
        }
    } else if str_eq(fmt, "lowerRoman") {
        let upper = to_roman(val);
        ascii_lower(upper.as_str())
    } else if str_eq(fmt, "upperRoman") {
        to_roman(val)
    } else if str_eq(fmt, "koreanCounting") || str_eq(fmt, "korean") || str_eq(fmt, "ganada") {
        format_ganada(val)
    } else if str_eq(fmt, "chosung") {
        format_chosung(val)
    } else if str_eq(fmt, "geonodeo") {
        format_geonodeo(val)
    } else if str_eq(fmt, "decimalEnclosedCircle") {
        format_circle_number(val)
    } else {
        i64_to_string(val)
    }
}

/// Ghost image of one resolved level.
pub ghost struct LevelView {
    pub ilvl: int,
    pub start: int,
    pub num_fmt: Seq<char>,
    pub lvl_text: Option<Seq<char>>,
}

/// The views of a sequence of levels.
pub open spec fn spec_level_views(s: Seq<LevelDef>) -> Seq<LevelView> {
    s.map_values(|l: LevelDef| l@)
}

/// The abstract-numbering list with levels viewed.
pub open spec fn spec_abs_pairs_view(s: Seq<(i32, Vec<LevelDef>)>) -> Seq<(i32, Seq<LevelView>)> {
    s.map_values(|p: (i32, Vec<LevelDef>)| (p.0, spec_level_views(p.1@)))
}

impl View for LevelDef {
    type V = LevelView;

    open spec fn view(&self) -> LevelView {
        LevelView {
            ilvl: self.ilvl as int,
            start: self.start as int,
            num_fmt: self.num_fmt@,
            lvl_text: match self.lvl_text {
                Option::Some(t) => Option::Some(t@),
                Option::None => Option::None,
            },
        }
    }
}

/// First level whose index equals ilvl.
pub open spec fn spec_find_level(levels: Seq<LevelView>, ilvl: int) -> Option<LevelView>
    decreases levels.len(),
{
    if levels.len() == 0 {
        Option::None
    } else if levels[0].ilvl == ilvl {
        Option::Some(levels[0])
    } else {
        spec_find_level(levels.skip(1), ilvl)
    }
}

/// The level for a request: the exact level when defined, else the first.
pub open spec fn spec_find_level_or_first(levels: Seq<LevelView>, ilvl: int) -> Option<LevelView> {
    match spec_find_level(levels, ilvl) {
        Option::Some(l) => Option::Some(l),
        Option::None => if levels.len() > 0 {
            Option::Some(levels[0])
        } else {
            Option::None
        },
    }
}

pub open spec fn spec_zero_counters(n: nat) -> Seq<i64> {
    Seq::new(n, |i: int| 0i64)
}

/// Counter update: initialise a zero counter to the start value, else
/// increment (saturating at the type bound); reset all deeper levels.
pub open spec fn spec_counters_after(c0: Seq<i64>, ilvl: int, startv: i64) -> Seq<i64> {
    let c1 = if c0.len() <= ilvl {
        c0 + spec_zero_counters((ilvl + 1 - c0.len()) as nat)
    } else {
        c0
    };
    let cur = c1[ilvl];
    let v: i64 = if cur == 0i64 {
        startv
    } else if cur == i64::MAX {
        cur
    } else {
        (cur + 1) as i64
    };
    Seq::new(c1.len(), |i: int| if i == ilvl {
        v
    } else if i > ilvl {
        0i64
    } else {
        c1[i]
    })
}

/// A counter that was never visited displays as 1 inside a template.
pub open spec fn spec_display_val(c: Seq<i64>, i: int) -> int {
    if c[i] == 0i64 {
        1
    } else {
        c[i] as int
    }
}

pub open spec fn spec_fmt_for(levels: Seq<LevelView>, i: int) -> Seq<char> {
    match spec_find_level(levels, i) {
        Option::Some(l) => l.num_fmt,
        Option::None => "decimal"@,
    }
}

/// Template substitution: each placeholder %k is replaced, in order of k, by
/// level k-1's counter rendered in that level's number format.
pub open spec fn spec_subst_all(m: Seq<char>, levels: Seq<LevelView>, c: Seq<i64>, i: int) -> Seq<
    char,
>
    decreases c.len() - i,
{
    if i < 0 || i >= c.len() {
        m
    } else {
        spec_subst_all(
            spec_replace_all(
                m,
                seq!['%'] + spec_dec_digits((i + 1) as nat),
                spec_format_num(spec_fmt_for(levels, i), spec_display_val(c, i)),
            ),
            levels,
            c,
            i + 1,
        )
    }
}

/// Ordinal formats get a trailing period when no template is given.
pub open spec fn spec_fallback_marker(level: LevelView, c: Seq<i64>, ilvl: int) -> Seq<char> {
    let raw = spec_format_num(level.num_fmt, c[ilvl] as int);
    if level.num_fmt == "decimal"@ || level.num_fmt == "lowerLetter"@ || level.num_fmt
        == "upperLetter"@ || level.num_fmt == "lowerRoman"@ || level.num_fmt == "upperRoman"@ {
        raw + "."@
    } else {
        raw
    }
}

pub open spec fn spec_marker_of(levels: Seq<LevelView>, level: LevelView, c: Seq<i64>, ilvl: int) -> Seq<
    char,
> {
    match level.lvl_text {
        Option::Some(t) => spec_subst_all(t, levels, c, 0),
        Option::None => spec_fallback_marker(level, c, ilvl),
    }
}

/// Counters recorded for an abstract id, as a sequence.
pub open spec fn spec_counter_lookup(entries: Seq<(i32, Vec<i64>)>, abs: i32) -> Option<Seq<i64>>
    decreases entries.len(),
{
    if entries.len() == 0 {
        Option::None
    } else if entries.last().0 == abs {
        Option::Some(entries.last().1@)
    } else {
        spec_counter_lookup(entries.drop_last(), abs)
    }
}

/// The list-numbering state machine. Counters are keyed by abstract list id
/// so that instances sharing one abstract definition number continuously.
#[derive(Debug)]
pub struct NumberingResolver {
    /// Document-visible list id to abstract id.
    pub num_instances: Vec<(i32, i32)>,
    /// Abstract id to its resolved levels, sorted by level index.
    pub abstract_nums: Vec<(i32, Vec<LevelDef>)>,
    /// Per (instance id, level) start-value overrides.
    pub overrides: Vec<((i32, i32), i32)>,
    /// Mutable counters, one row per abstract id; 0 means "not yet visited".
    pub counters: Vec<(i32, Vec<i64>)>,
    /// Inferred base indentation level per abstract id.
    pub level_shifts: Vec<(i32, i32)>,
}

impl NumberingResolver {
    pub open spec fn spec_abs_view(&self) -> Seq<(i32, Seq<LevelView>)> {
        spec_abs_pairs_view(self.abstract_nums@)
    }

    pub open spec fn spec_levels_of(&self, abs: i32) -> Option<Seq<LevelView>> {
        spec_assoc(self.spec_abs_view(), abs)
    }

    pub open spec fn spec_counters_or_zeros(&self, abs: i32) -> Seq<i64> {
        match spec_counter_lookup(self.counters@, abs) {
            Option::Some(c) => c,
            Option::None => spec_zero_counters(10),
        }
    }

    pub open spec fn spec_start_value(&self, num_id: i32, ilvl: i32, level: LevelView) -> i64 {
        match spec_assoc(self.overrides@, (num_id, ilvl)) {
            Option::Some(o) => o as i64,
            Option::None => level.start as i64,
        }
    }

    /// The marker string that the next next_marker call returns.
    pub open spec fn spec_nm_result(&self, num_id: i32, ilvl: i32) -> Seq<char> {
        match spec_assoc(self.num_instances@, num_id) {
            Option::None => "-"@,
            Option::Some(abs) => match self.spec_levels_of(abs) {
                Option::None => "-"@,
                Option::Some(levels) => if ilvl < 0 {
                    "-"@
                } else {
                    match spec_find_level_or_first(levels, ilvl as int) {
                        Option::None => "-"@,
                        Option::Some(level) => {
                            let c0 = self.spec_counters_or_zeros(abs);
                            let startv = self.spec_start_value(num_id, ilvl, level);
                            let c1 = spec_counters_after(c0, ilvl as int, startv);
                            spec_marker_of(levels, level, c1, ilvl as int)
                        },
                    }
                },
            },
        }
    }

    /// Which abstract id's counters the next next_marker call replaces, and
    /// with what; None when the state is left untouched.
    pub open spec fn spec_nm_new_counters(&self, num_id: i32, ilvl: i32) -> Option<(i32, Seq<i64>)> {
        match spec_assoc(self.num_instances@, num_id) {
            Option::None => Option::None,
            Option::Some(abs) => match self.spec_levels_of(abs) {
                Option::None => Option::None,
                Option::Some(levels) => if ilvl < 0 {
                    Option::None
                } else {
                    let c0 = self.spec_counters_or_zeros(abs);
                    match spec_find_level_or_first(levels, ilvl as int) {
                        Option::None => Option::Some((abs, c0)),
                        Option::Some(level) => {
                            let startv = self.spec_start_value(num_id, ilvl, level);
                            Option::Some((abs, spec_counters_after(c0, ilvl as int, startv)))
                        },
                    }
                },
            },
        }
    }
}

fn clone_i64_vec(v: &Vec<i64>) -> (r: Vec<i64>)
    ensures
        r@ == v@,
{
    let mut r: Vec<i64> = Vec::new();
    let n = v.len();
    let mut i: usize = 0;
    while i < n
        invariant
            n == v@.len(),
            0 <= i <= n,
            r@ == v@.take(i as int),
        decreases n - i,
    {
        r.push(v[i]);
        proof {
            assert(v@.take(i + 1) =~= v@.take(i as int).push(v@[i as int]));
        }
        i = i + 1;
    }
    proof {
        assert(v@.take(n as int) =~= v@);
    }
    r
}

fn ten_zero_counters() -> (r: Vec<i64>)
    ensures
        r@ == spec_zero_counters(10),
{
    let r: Vec<i64> = vec![0, 0, 0, 0, 0, 0, 0, 0, 0, 0];
    proof {
        assert(r@ =~= spec_zero_counters(10));
    }
    r
}

/// Index of the first level whose index equals key.
fn find_level_idx(levels: &Vec<LevelDef>, key: i32) -> (r: Option<usize>)
    ensures
        ({
            let lv = spec_level_views(levels@);
            match r {
                Option::Some(i) => i < levels@.len() && spec_find_level(lv, key as int)
                    == Option::Some(lv[i as int]),
                Option::None => spec_find_level(lv, key as int) is None,
            }
        }),
{
    let ghost lv = spec_level_views(levels@);
    let n = levels.len();
    let mut i: usize = 0;
    proof {
        assert(lv.skip(0) =~= lv);
    }
    while i < n
        invariant
            n == levels@.len(),
            lv == spec_level_views(levels@),
            0 <= i <= n,
            spec_find_level(lv, key as int) == spec_find_level(lv.skip(i as int), key as int),
        decreases n - i,
    {
        proof {
            assert(lv.skip(i as int)[0] == lv[i as int]);
            assert(lv.skip(i as int).skip(1) =~= lv.skip(i + 1));
        }
        if levels[i].ilvl == key {
            return Option::Some(i);
        }
        i = i + 1;
    }
    proof {
        assert(lv.skip(n as int) =~= Seq::<LevelView>::empty());
    }
    Option::None
}

/// spec_counter_lookup is spec_assoc with the value viewed.
proof fn lemma_counter_lookup_eq(entries: Seq<(i32, Vec<i64>)>, k: i32)
    ensures
        spec_counter_lookup(entries, k) == match spec_assoc(entries, k) {
            Option::Some(v) => Option::Some(v@),
            Option::None => Option::<Seq<i64>>::None,
        },
    decreases entries.len(),
{
    if entries.len() > 0 && entries.last().0 != k {
        lemma_counter_lookup_eq(entries.drop_last(), k);
    }
}

/// Updating the last entry with a key rewrites that key's lookup and no other.
proof fn lemma_counter_update(entries: Seq<(i32, Vec<i64>)>, i: int, key: i32, nv: Vec<i64>)
    requires
        0 <= i < entries.len(),
        entries[i].0 == key,
        forall|j: int| i < j < entries.len() ==> (#[trigger] entries[j]).0 != key,
    ensures
        forall|k: i32|
            #[trigger] spec_counter_lookup(entries.update(i, (key, nv)), k) == if k == key {
                Option::Some(nv@)
            } else {
                spec_counter_lookup(entries, k)
            },
    decreases entries.len(),
{
    let u = entries.update(i, (key, nv));
    if i == entries.len() - 1 {
        assert forall|k: i32|
            #[trigger] spec_counter_lookup(u, k) == if k == key {
                Option::Some(nv@)
            } else {
                spec_counter_lookup(entries, k)
            } by {
            assert(u.last() == (key, nv));
            if k != key {
                assert(u.drop_last() =~= entries.drop_last());
                assert(entries.last().0 == key);
            }
        }
    } else {
        assert(entries.drop_last()[i] == entries[i]);
        assert forall|j: int| i < j < entries.drop_last().len() implies (#[trigger] entries
            .drop_last()[j]).0 != key by {
            assert(entries.drop_last()[j] == entries[j]);
        }
        lemma_counter_update(entries.drop_last(), i, key, nv);
        assert forall|k: i32|
            #[trigger] spec_counter_lookup(u, k) == if k == key {
                Option::Some(nv@)
            } else {
                spec_counter_lookup(entries, k)
            } by {
            assert(u.last() == entries.last());
            assert(u.drop_last() =~= entries.drop_last().update(i, (key, nv)));
            assert(entries[entries.len() - 1].0 != key);
            assert(entries.last().0 != key);
            assert(spec_counter_lookup(entries.drop_last().update(i, (key, nv)), k) == if k
                == key {
                Option::Some(nv@)
            } else {
                spec_counter_lookup(entries.drop_last(), k)
            });
            assert(spec_counter_lookup(u.drop_last(), k) == spec_counter_lookup(
                entries.drop_last().update(i, (key, nv)),
                k,
            ));
        }
    }
}

/// Appending a new entry rewrites that key's lookup and no other.
proof fn lemma_counter_push(entries: Seq<(i32, Vec<i64>)>, key: i32, nv: Vec<i64>)
    ensures
        forall|k: i32|
            #[trigger] spec_counter_lookup(entries.push((key, nv)), k) == if k == key {
                Option::Some(nv@)
            } else {
                spec_counter_lookup(entries, k)
            },
{
    assert forall|k: i32|
        #[trigger] spec_counter_lookup(entries.push((key, nv)), k) == if k == key {
            Option::Some(nv@)
        } else {
            spec_counter_lookup(entries, k)
        } by {
        assert(entries.push((key, nv)).drop_last() =~= entries);
        assert(entries.push((key, nv)).last() == (key, nv));
    }
}

impl NumberingResolver {
    /// Counter rows never grow past the level-index range.
    pub open spec fn wf(&self) -> bool {
        forall|i: int|
            0 <= i < self.counters@.len() ==> (#[trigger] self.counters@[i]).1@.len()
                <= 0x8000_0000
    }

    /// Indentation for a list item: the level shifted down by the abstract
    /// list's inferred base level, floored at zero.
    pub open spec fn spec_get_indent(&self, num_id: i32, ilvl: i32) -> int {
        let d = match spec_assoc(self.num_instances@, num_id) {
            Option::Some(abs) => match spec_assoc(self.level_shifts@, abs) {
                Option::Some(shift) => if ilvl - shift > i32::MAX {
                    i32::MAX as int
                } else if ilvl - shift < i32::MIN {
                    i32::MIN as int
                } else {
                    ilvl - shift
                },
                Option::None => ilvl as int,
            },
            Option::None => ilvl as int,
        };
        if d < 0 {
            0
        } else {
            d
        }
    }

    /// Gets the indentation level for a list item.
    pub fn get_indent(&self, num_id: i32, ilvl: i32) -> (r: usize)
        ensures
            r == self.spec_get_indent(num_id, ilvl),
    {
        let mut indent: i32 = ilvl;
        if let Option::Some(ii) = assoc_idx_i32(&self.num_instances, num_id) {
            let abs = self.num_instances[ii].1;
            if let Option::Some(si) = assoc_idx_i32(&self.level_shifts, abs) {
                let shift = self.level_shifts[si].1;
                let d: i64 = ilvl as i64 - shift as i64;
                indent = if d > i32::MAX as i64 {
                    i32::MAX
                } else if d < i32::MIN as i64 {
                    i32::MIN
                } else {
                    d as i32
                };
            }
        }
        if indent < 0 {
            0
        } else {
            indent as usize
        }
    }

    /// Writes back the counter row for an abstract id.
    fn store_counters(&mut self, cidx: Option<usize>, abs: i32, c: Vec<i64>)
        requires
            match cidx {
                Option::Some(i) => i < old(self).counters@.len() && old(self).counters@[i as int].0
                    == abs && forall|j: int|
                    i < j < old(self).counters@.len() ==> (#[trigger] old(
                        self,
                    ).counters@[j]).0 != abs,
                Option::None => spec_counter_lookup(old(self).counters@, abs) is None,
            },
            c@.len() <= 0x8000_0000,
            old(self).wf(),
        ensures
            final(self).num_instances@ == old(self).num_instances@,
            final(self).abstract_nums@ == old(self).abstract_nums@,
            final(self).overrides@ == old(self).overrides@,
            final(self).level_shifts@ == old(self).level_shifts@,
            final(self).wf(),
            forall|k: i32|
                #[trigger] spec_counter_lookup(final(self).counters@, k) == if k == abs {
                    Option::Some(c@)
                } else {
                    spec_counter_lookup(old(self).counters@, k)
                },
    {
        match cidx {
            Option::Some(i) => {
                proof {
                    lemma_counter_update(self.counters@, i as int, abs, c);
                }
                self.counters[i] = (abs, c);
            },
            Option::None => {
                proof {
                    lemma_counter_push(self.counters@, abs, c);
                    lemma_counter_lookup_eq(self.counters@, abs);
                }
                self.counters.push((abs, c));
            },
        }
    }

    /// Renders the marker for a level against updated counters: either its
    /// template with every placeholder substituted, or a formatted number.
    fn render_marker(&self, labs: usize, lvl_idx: usize, c: &Vec<i64>, ilvl_idx: usize) -> (r:
        String)
        requires
            labs < self.abstract_nums@.len(),
            lvl_idx < self.abstract_nums@[labs as int].1@.len(),
            ilvl_idx < c@.len(),
            c@.len() <= 0x8000_0000,
        ensures
            ({
                let lv = spec_level_views(self.abstract_nums@[labs as int].1@);
                r@ == spec_marker_of(lv, lv[lvl_idx as int], c@, ilvl_idx as int)
            }),
    {
        let ghost lv = spec_level_views(self.abstract_nums@[labs as int].1@);
        let has_text = self.abstract_nums[labs].1[lvl_idx].lvl_text.is_some();
        if has_text {
            let mut marker: String = match &self.abstract_nums[labs].1[lvl_idx].lvl_text {
                Option::Some(t) => t.clone(),
                Option::None => String::new(),
            };
            let cl = c.len();
            let mut i: usize = 0;
            while i < cl
                invariant
                    cl == c@.len(),
                    cl <= 0x8000_0000,
                    0 <= i <= cl,
                    labs < self.abstract_nums@.len(),
                    lvl_idx < self.abstract_nums@[labs as int].1@.len(),
                    lv == spec_level_views(self.abstract_nums@[labs as int].1@),
                    spec_subst_all(marker@, lv, c@, i as int) == spec_marker_of(
                        lv,
                        lv[lvl_idx as int],
                        c@,
                        ilvl_idx as int,
                    ),
                decreases cl - i,
            {
                let mut ph = char_to_string('%');
                let digits = u64_to_string((i as u64) + 1);
                ph.append(digits.as_str());
                proof {
                    assert(ph@ =~= seq!['%'] + spec_dec_digits((i + 1) as nat));
                }
                let fmt_owned: String = match find_level_idx(&self.abstract_nums[labs].1, i as i32) {
                    Option::Some(fi) => self.abstract_nums[labs].1[fi].num_fmt.clone(),
                    Option::None => String::from_str("decimal"),
                };
                let dv: i64 = if c[i] == 0 {
                    1
                } else {
                    c[i]
                };
                let rep = format_num(fmt_owned.as_str(), dv);
                proof {
                    assert(rep@ == spec_format_num(spec_fmt_for(lv, i as int), spec_display_val(
                        c@,
                        i as int,
                    )));
                }
                marker = replace_all(marker.as_str(), ph.as_str(), rep.as_str());
                i = i + 1;
            }
            marker
        } else {
            let raw = format_num(self.abstract_nums[labs].1[lvl_idx].num_fmt.as_str(), c[ilvl_idx]);
            let f = &self.abstract_nums[labs].1[lvl_idx].num_fmt;
            if str_eq(f.as_str(), "decimal") || str_eq(f.as_str(), "lowerLetter") || str_eq(
                f.as_str(),
                "upperLetter",
            ) || str_eq(f.as_str(), "lowerRoman") || str_eq(f.as_str(), "upperRoman") {
                let mut m = raw;
                push_char(&mut m, '.');
                proof {
                    reveal_strlit(".");
                    assert(spec_format_num(lv[lvl_idx as int].num_fmt, c@[ilvl_idx as int] as int)
                        .push('.') =~= spec_format_num(
                        lv[lvl_idx as int].num_fmt,
                        c@[ilvl_idx as int] as int,
                    ) + "."@);
                }
                m
            } else {
                raw
            }
        }
    }

    /// Gets the marker for the next item of a list at a level (for example
    /// "1.", "-", "a)"), advancing the counter state: the addressed level is
    /// initialised to its start value or incremented, and every deeper level
    /// is reset to "not yet visited".
    pub fn next_marker(&mut self, num_id: i32, ilvl: i32) -> (r: String)
        requires
            old(self).wf(),
        ensures
            final(self).wf(),
            r@ == old(self).spec_nm_result(num_id, ilvl),
            final(self).num_instances@ == old(self).num_instances@,
            final(self).abstract_nums@ == old(self).abstract_nums@,
            final(self).overrides@ == old(self).overrides@,
            final(self).level_shifts@ == old(self).level_shifts@,
            match old(self).spec_nm_new_counters(num_id, ilvl) {
                Option::None => final(self).counters@ == old(self).counters@,
                Option::Some(nc) => forall|k: i32|
                    #[trigger] spec_counter_lookup(final(self).counters@, k) == if k == nc.0 {
                        Option::Some(nc.1)
                    } else {
                        spec_counter_lookup(old(self).counters@, k)
                    },
            },
    {
        let inst_idx = match assoc_idx_i32(&self.num_instances, num_id) {
            Option::Some(i) => i,
            Option::None => {
                return String::from_str("-");
            },
        };
        let abs = self.num_instances[inst_idx].1;
        let labs = match assoc_idx_i32(&self.abstract_nums, abs) {
            Option::Some(i) => i,
            Option::None => {
                proof {
                    lemma_abs_view_assoc(*self, abs);
                }
                return String::from_str("-");
            },
        };
        proof {
            lemma_abs_view_assoc(*self, abs);
        }
        if ilvl < 0 {
            return String::from_str("-");
        }
        let ilvl_idx = ilvl as usize;
        let ghost lv = spec_level_views(self.abstract_nums@[labs as int].1@);

        // Current counters for this abstract id (materialised on first use).
        let cidx_opt = assoc_idx_i32(&self.counters, abs);
        let mut c: Vec<i64> = match cidx_opt {
            Option::Some(ci) => clone_i64_vec(&self.counters[ci].1),
            Option::None => ten_zero_counters(),
        };
        proof {
            lemma_counter_lookup_eq(self.counters@, abs);
            assert(c@ == self.spec_counters_or_zeros(abs));
        }
        let ghost c0 = c@;

        // The level definition for this request.
        let lvl_idx = match find_level_idx(&self.abstract_nums[labs].1, ilvl) {
            Option::Some(i) => i,
            Option::None => {
                if self.abstract_nums[labs].1.len() == 0 {
                    // No level at all: record the materialised counters and
                    // fall back to a plain bullet.
                    self.store_counters(cidx_opt, abs, c);
                    return String::from_str("-");
                } else {
                    0
                }
            },
        };
        let ghost level = lv[lvl_idx as int];
        proof {
            assert(spec_find_level_or_first(lv, ilvl as int) == Option::Some(level));
        }

        // Grow the counter row so the addressed level exists.
        if c.len() <= ilvl_idx {
            let mut k = c.len();
            while k < ilvl_idx + 1
                invariant
                    c0.len() <= k == c@.len() <= ilvl_idx + 1,
                    ilvl_idx + 1 <= 0x8000_0000,
                    c@ == c0 + spec_zero_counters((k - c0.len()) as nat),
                decreases ilvl_idx + 1 - k,
            {
                c.push(0);
                proof {
                    assert(c0 + spec_zero_counters((k + 1 - c0.len()) as nat) =~= (c0
                        + spec_zero_counters((k - c0.len()) as nat)).push(0i64));
                }
                k = k + 1;
            }
        }
        let ghost c1 = if c0.len() <= ilvl as int {
            c0 + spec_zero_counters((ilvl + 1 - c0.len()) as nat)
        } else {
            c0
        };
        proof {
            assert(c@ =~= c1);
        }

        // Start value: an instance-specific override wins over the level's.
        let startv: i64 = match assoc_idx_pair(&self.overrides, num_id, ilvl) {
            Option::Some(oi) => self.overrides[oi].1 as i64,
            Option::None => self.abstract_nums[labs].1[lvl_idx].start as i64,
        };
        proof {
            assert(startv == self.spec_start_value(num_id, ilvl, level));
        }

        // Initialise or advance the addressed level; reset deeper levels.
        let cur = c[ilvl_idx];
        let v: i64 = if cur == 0 {
            startv
        } else if cur == i64::MAX {
            cur
        } else {
            cur + 1
        };
        c[ilvl_idx] = v;
        let cn = c.len();
        let mut k = ilvl_idx + 1;
        while k < cn
            invariant
                ilvl_idx < k <= cn,
                cn == c@.len(),
                c@.len() == c1.len(),
                forall|j: int| 0 <= j < c1.len() && j != ilvl_idx ==> #[trigger] c@[j] == (
                if ilvl_idx < j < k {
                    0i64
                } else {
                    c1[j]
                }),
                c@[ilvl_idx as int] == v,
            decreases cn - k,
        {
            c[k] = 0;
            k = k + 1;
        }
        proof {
            assert(c@ =~= spec_counters_after(c0, ilvl as int, startv));
        }

        let marker = self.render_marker(labs, lvl_idx, &c, ilvl_idx);
        self.store_counters(cidx_opt, abs, c);
        marker
    }
}

/// Relates lookup on the raw abstract-numbering list to lookup on its view.
proof fn lemma_abs_view_assoc(st: NumberingResolver, abs: i32)
    ensures
        st.spec_levels_of(abs) == match spec_assoc(st.abstract_nums@, abs) {
            Option::Some(v) => Option::Some(spec_level_views(v@)),
            Option::None => Option::<Seq<LevelView>>::None,
        },
{
    lemma_abs_view_assoc_rec(st.abstract_nums@, abs);
}

proof fn lemma_abs_view_assoc_rec(entries: Seq<(i32, Vec<LevelDef>)>, abs: i32)
    ensures
        spec_assoc(spec_abs_pairs_view(entries), abs) == match spec_assoc(entries, abs) {
            Option::Some(v) => Option::Some(spec_level_views(v@)),
            Option::None => Option::<Seq<LevelView>>::None,
        },
    decreases entries.len(),
{
    let m = spec_abs_pairs_view(entries);
    if entries.len() > 0 {
        assert(m.last() == (entries.last().0, spec_level_views(entries.last().1@)));
        if entries.last().0 != abs {
            lemma_abs_view_assoc_rec(entries.drop_last(), abs);
            assert(m.drop_last() =~= spec_abs_pairs_view(entries.drop_last()));
        }
    }
}

/// A level input with its documented defaults applied.
pub open spec fn spec_default_level(l: LevelInput) -> LevelView {
    LevelView {
        ilvl: (match l.ilvl {
            Option::Some(i) => i,
            Option::None => 0,
        }) as int,
        start: (match l.start {
            Option::Some(s) => s,
            Option::None => 1,
        }) as int,
        num_fmt: match l.num_fmt {
            Option::Some(f) => f@,
            Option::None => "decimal"@,
        },
        lvl_text: match l.lvl_text {
            Option::Some(t) => Option::Some(t@),
            Option::None => Option::None,
        },
    }
}

/// Stable insertion of a level into a sequence sorted by level index.
pub open spec fn spec_insert_level(x: LevelView, s: Seq<LevelView>) -> Seq<LevelView>
    decreases s.len(),
{
    if s.len() == 0 {
        seq![x]
    } else if x.ilvl < s.last().ilvl {
        spec_insert_level(x, s.drop_last()).push(s.last())
    } else {
        s.push(x)
    }
}

/// Stable sort of levels by level index.
pub open spec fn spec_sort_levels(s: Seq<LevelView>) -> Seq<LevelView>
    decreases s.len(),
{
    if s.len() == 0 {
        Seq::empty()
    } else {
        spec_insert_level(s.last(), spec_sort_levels(s.drop_last()))
    }
}

pub open spec fn spec_defaulted_levels(s: Seq<LevelInput>) -> Seq<LevelView> {
    s.map_values(|l: LevelInput| spec_default_level(l))
}

pub open spec fn spec_levels_of_input(levels: Seq<LevelInput>) -> Seq<LevelView> {
    spec_sort_levels(spec_defaulted_levels(levels))
}

pub open spec fn spec_abs_id(a: AbstractNumInput) -> i32 {
    match a.abstract_num_id {
        Option::Some(i) => i,
        Option::None => 0,
    }
}

pub open spec fn spec_build_abstracts(s: Seq<AbstractNumInput>) -> Seq<(i32, Seq<LevelView>)>
    decreases s.len(),
{
    if s.len() == 0 {
        Seq::empty()
    } else {
        spec_build_abstracts(s.drop_last()).push(
            (spec_abs_id(s.last()), spec_levels_of_input(s.last().levels@)),
        )
    }
}

pub open spec fn spec_build_instances(s: Seq<NumInstanceInput>) -> Seq<(i32, i32)>
    decreases s.len(),
{
    if s.len() == 0 {
        Seq::empty()
    } else {
        spec_build_instances(s.drop_last()) + (match (s.last().num_id, s.last().abstract_num_id) {
            (Option::Some(nid), Option::Some(aid)) => seq![(nid, aid)],
            _ => Seq::empty(),
        })
    }
}

pub open spec fn spec_build_ovr_list(nid: i32, ovs: Seq<LevelOverrideInput>) -> Seq<
    ((i32, i32), i32),
>
    decreases ovs.len(),
{
    if ovs.len() == 0 {
        Seq::empty()
    } else {
        spec_build_ovr_list(nid, ovs.drop_last()) + (match (
            ovs.last().ilvl,
            ovs.last().start_override,
        ) {
            (Option::Some(il), Option::Some(so)) => seq![((nid, il), so)],
            _ => Seq::empty(),
        })
    }
}

pub open spec fn spec_build_overrides(s: Seq<NumInstanceInput>) -> Seq<((i32, i32), i32)>
    decreases s.len(),
{
    if s.len() == 0 {
        Seq::empty()
    } else {
        spec_build_overrides(s.drop_last()) + (match (s.last().num_id, s.last().abstract_num_id) {
            (Option::Some(nid), Option::Some(_)) => spec_build_ovr_list(
                nid,
                s.last().level_overrides@,
            ),
            _ => Seq::empty(),
        })
    }
}

/// A level's template marks the list as section-like when it carries the
/// article pattern: the two marker characters around a placeholder.
pub open spec fn spec_shift_qualifies(l: LevelInput) -> bool {
    match l.lvl_text {
        Option::Some(t) => t@.contains('\u{c81c}') && t@.contains('\u{c870}') && t@.contains('%'),
        Option::None => false,
    }
}

pub open spec fn spec_default_ilvl(l: LevelInput) -> i32 {
    match l.ilvl {
        Option::Some(i) => i,
        Option::None => 0,
    }
}

pub open spec fn spec_shift_add(acc: Seq<(i32, i32)>, abs_id: i32, l: LevelInput) -> Seq<
    (i32, i32),
> {
    if spec_shift_qualifies(l) && spec_assoc(acc, abs_id) is None {
        acc.push((abs_id, spec_default_ilvl(l)))
    } else {
        acc
    }
}

pub open spec fn spec_shifts_levels(acc: Seq<(i32, i32)>, abs_id: i32, ls: Seq<LevelInput>) -> Seq<
    (i32, i32),
>
    decreases ls.len(),
{
    if ls.len() == 0 {
        acc
    } else {
        spec_shift_add(spec_shifts_levels(acc, abs_id, ls.drop_last()), abs_id, ls.last())
    }
}

pub open spec fn spec_shifts_abs(acc: Seq<(i32, i32)>, s: Seq<AbstractNumInput>) -> Seq<(i32, i32)>
    decreases s.len(),
{
    if s.len() == 0 {
        acc
    } else {
        spec_shifts_levels(spec_shifts_abs(acc, s.drop_last()), spec_abs_id(s.last()), s.last().levels@)
    }
}

pub open spec fn spec_build_shifts(s: Seq<AbstractNumInput>) -> Seq<(i32, i32)> {
    spec_shifts_abs(Seq::empty(), s)
}

fn clone_level(l: &LevelDef) -> (r: LevelDef)
    ensures
        r == *l,
{
    LevelDef {
        ilvl: l.ilvl,
        start: l.start,
        num_fmt: l.num_fmt.clone(),
        lvl_text: match &l.lvl_text {
            Option::Some(t) => Option::Some(t.clone()),
            Option::None => Option::None,
        },
    }
}

/// A stably inserted level lands after every earlier level with an index not
/// above its own.
proof fn lemma_insert_pos(x: LevelView, s: Seq<LevelView>, j: int)
    requires
        0 <= j <= s.len(),
        forall|k: int| j <= k < s.len() ==> (#[trigger] s[k]).ilvl > x.ilvl,
        j > 0 ==> s[j - 1].ilvl <= x.ilvl,
    ensures
        spec_insert_level(x, s) == s.take(j) + seq![x] + s.skip(j),
    decreases s.len(),
{
    if s.len() == 0 {
        assert(s.take(j) + seq![x] + s.skip(j) =~= seq![x]);
    } else if x.ilvl < s.last().ilvl {
        assert(j < s.len());
        assert forall|k: int| j <= k < s.drop_last().len() implies (#[trigger] s.drop_last()[k])
            .ilvl > x.ilvl by {
            assert(s.drop_last()[k] == s[k]);
        }
        if j > 0 {
            assert(s.drop_last()[j - 1] == s[j - 1]);
        }
        lemma_insert_pos(x, s.drop_last(), j);
        assert((s.drop_last().take(j) + seq![x] + s.drop_last().skip(j)).push(s.last()) =~= s.take(
            j,
        ) + seq![x] + s.skip(j));
    } else {
        assert(s[s.len() - 1].ilvl <= x.ilvl);
        assert(j == s.len());
        assert(s.push(x) =~= s.take(j) + seq![x] + s.skip(j));
    }
}

/// Inserts a level into a vector sorted by level index, keeping input order
/// among equal indices.
fn insert_level_sorted(out: &mut Vec<LevelDef>, x: LevelDef)
    ensures
        spec_level_views(final(out)@) == spec_insert_level(x@, spec_level_views(old(out)@)),
{
    let ghost s = spec_level_views(old(out)@);
    let n = out.len();
    let mut j: usize = n;
    while j > 0 && out[j - 1].ilvl > x.ilvl
        invariant
            n == out@.len(),
            out@ == old(out)@,
            s == spec_level_views(out@),
            0 <= j <= n,
            forall|k: int| j <= k < n ==> (#[trigger] s[k]).ilvl > x@.ilvl,
        decreases j,
    {
        j = j - 1;
    }
    proof {
        lemma_insert_pos(x@, s, j as int);
    }
    out.insert(j, x);
    proof {
        assert(spec_level_views(out@) =~= s.take(j as int) + seq![x@] + s.skip(j as int));
    }
}

impl NumberingResolver {
    /// Builds a numbering resolver from the document's numbering part:
    /// defaults are applied per level, levels are sorted by index, instance
    /// and override maps are collected, and the section-pattern indentation
    /// shift is inferred.
    pub fn new(numbering: Option<&NumberingInput>) -> (r: NumberingResolver)
        ensures
            r.wf(),
            r.counters@.len() == 0,
            match numbering {
                Option::Some(inp) => r.num_instances@ == spec_build_instances(inp.numberings@)
                    && r.overrides@ == spec_build_overrides(inp.numberings@) && r.level_shifts@
                    == spec_build_shifts(inp.abstract_numberings@) && r.spec_abs_view()
                    == spec_build_abstracts(inp.abstract_numberings@),
                Option::None => r.num_instances@.len() == 0 && r.overrides@.len() == 0
                    && r.level_shifts@.len() == 0 && r.abstract_nums@.len() == 0,
            },
    {
        let mut num_instances: Vec<(i32, i32)> = Vec::new();
        let mut abstract_nums: Vec<(i32, Vec<LevelDef>)> = Vec::new();
        let mut overrides: Vec<((i32, i32), i32)> = Vec::new();
        let mut level_shifts: Vec<(i32, i32)> = Vec::new();

        if let Option::Some(inp) = numbering {
            let na = inp.abstract_numberings.len();
            let mut ai: usize = 0;
            proof {
                assert(spec_abs_pairs_view(abstract_nums@) =~= spec_build_abstracts(
                    inp.abstract_numberings@.take(0),
                ));
                assert(level_shifts@ =~= spec_shifts_abs(
                    Seq::empty(),
                    inp.abstract_numberings@.take(0),
                ));
            }
            while ai < na
                invariant
                    na == inp.abstract_numberings@.len(),
                    0 <= ai <= na,
                    spec_abs_pairs_view(abstract_nums@) == spec_build_abstracts(
                        inp.abstract_numberings@.take(ai as int),
                    ),
                    level_shifts@ == spec_shifts_abs(
                        Seq::empty(),
                        inp.abstract_numberings@.take(ai as int),
                    ),
                decreases na - ai,
            {
                let ghost pre_abs = spec_abs_pairs_view(abstract_nums@);
                let abs_id: i32 = match inp.abstract_numberings[ai].abstract_num_id {
                    Option::Some(i) => i,
                    Option::None => 0,
                };
                let nl = inp.abstract_numberings[ai].levels.len();
                let mut levels: Vec<LevelDef> = Vec::new();
                let mut li: usize = 0;
                proof {
                    assert(spec_defaulted_levels(
                        inp.abstract_numberings@[ai as int].levels@.take(0),
                    ) =~= Seq::<LevelView>::empty());
                    assert(spec_level_views(levels@) =~= spec_sort_levels(
                        spec_defaulted_levels(inp.abstract_numberings@[ai as int].levels@.take(0)),
                    ));
                    assert(level_shifts@ =~= spec_shifts_levels(
                        spec_shifts_abs(Seq::empty(), inp.abstract_numberings@.take(ai as int)),
                        abs_id,
                        inp.abstract_numberings@[ai as int].levels@.take(0),
                    ));
                }
                while li < nl
                    invariant
                        na == inp.abstract_numberings@.len(),
                        0 <= ai < na,
                        nl == inp.abstract_numberings@[ai as int].levels@.len(),
                        0 <= li <= nl,
                        abs_id == spec_abs_id(inp.abstract_numberings@[ai as int]),
                        spec_level_views(levels@) == spec_sort_levels(
                            spec_defaulted_levels(
                                inp.abstract_numberings@[ai as int].levels@.take(li as int),
                            ),
                        ),
                        level_shifts@ == spec_shifts_levels(
                            spec_shifts_abs(Seq::empty(), inp.abstract_numberings@.take(ai as int)),
                            abs_id,
                            inp.abstract_numberings@[ai as int].levels@.take(li as int),
                        ),
                    decreases nl - li,
                {
                    let ghost lvls_in = inp.abstract_numberings@[ai as int].levels@;
                    let lvl = &inp.abstract_numberings[ai].levels[li];
                    let ilvl: i32 = match lvl.ilvl {
                        Option::Some(i) => i,
                        Option::None => 0,
                    };
                    let start: i32 = match lvl.start {
                        Option::Some(s) => s,
                        Option::None => 1,
                    };
                    let num_fmt: String = match &lvl.num_fmt {
                        Option::Some(f) => f.clone(),
                        Option::None => String::from_str("decimal"),
                    };
                    let lvl_text: Option<String> = match &lvl.lvl_text {
                        Option::Some(t) => Option::Some(t.clone()),
                        Option::None => Option::None,
                    };

                    // Section-pattern heuristic: such a level marks the
                    // list's base indentation, first match per abstract id.
                    let qualifies = match &lvl_text {
                        Option::Some(t) => contains_char(t.as_str(), '\u{c81c}') && contains_char(
                            t.as_str(),
                            '\u{c870}',
                        ) && contains_char(t.as_str(), '%'),
                        Option::None => false,
                    };
                    let ghost pre_shifts = level_shifts@;
                    if qualifies {
                        if assoc_idx_i32(&level_shifts, abs_id).is_none() {
                            level_shifts.push((abs_id, ilvl));
                        }
                    }
                    proof {
                        assert(spec_shift_qualifies(lvls_in[li as int]) == qualifies);
                        assert(spec_default_ilvl(lvls_in[li as int]) == ilvl);
                        assert(lvls_in.take(li + 1).drop_last() =~= lvls_in.take(li as int));
                        assert(lvls_in.take(li + 1).last() == lvls_in[li as int]);
                        assert(level_shifts@ == spec_shift_add(
                            pre_shifts,
                            abs_id,
                            lvls_in[li as int],
                        ));
                    }

                    let ghost pre_levels = spec_level_views(levels@);
                    let def = LevelDef { ilvl, start, num_fmt, lvl_text };
                    proof {
                        assert(def@ == spec_default_level(lvls_in[li as int]));
                    }
                    insert_level_sorted(&mut levels, def);
                    proof {
                        let s1 = spec_defaulted_levels(lvls_in.take(li + 1));
                        assert(s1 =~= spec_defaulted_levels(lvls_in.take(li as int)).push(
                            spec_default_level(lvls_in[li as int]),
                        ));
                        assert(s1.last() == spec_default_level(lvls_in[li as int]));
                        assert(s1.drop_last() =~= spec_defaulted_levels(lvls_in.take(li as int)));
                        assert(spec_sort_levels(s1) == spec_insert_level(
                            s1.last(),
                            spec_sort_levels(s1.drop_last()),
                        ));
                    }
                    li = li + 1;
                }
                proof {
                    assert(inp.abstract_numberings@[ai as int].levels@.take(nl as int)
                        =~= inp.abstract_numberings@[ai as int].levels@);
                }
                abstract_nums.push((abs_id, levels));
                proof {
                    assert(spec_abs_pairs_view(abstract_nums@) =~= pre_abs.push(
                        (
                            abs_id,
                            spec_levels_of_input(inp.abstract_numberings@[ai as int].levels@),
                        ),
                    ));
                    assert(inp.abstract_numberings@.take(ai + 1).drop_last()
                        =~= inp.abstract_numberings@.take(ai as int));
                    assert(inp.abstract_numberings@.take(ai + 1).last()
                        == inp.abstract_numberings@[ai as int]);
                }
                ai = ai + 1;
            }
            proof {
                assert(inp.abstract_numberings@.take(na as int) =~= inp.abstract_numberings@);
            }

            let nn = inp.numberings.len();
            let mut ni: usize = 0;
            proof {
                assert(num_instances@ =~= spec_build_instances(inp.numberings@.take(0)));
                assert(overrides@ =~= spec_build_overrides(inp.numberings@.take(0)));
            }
            while ni < nn
                invariant
                    nn == inp.numberings@.len(),
                    0 <= ni <= nn,
                    num_instances@ == spec_build_instances(inp.numberings@.take(ni as int)),
                    overrides@ == spec_build_overrides(inp.numberings@.take(ni as int)),
                decreases nn - ni,
            {
                let ghost nums_in = inp.numberings@;
                let ghost pre_inst = num_instances@;
                let ghost pre_ovr = overrides@;
                let num = &inp.numberings[ni];
                if let (Option::Some(nid), Option::Some(aid)) = (num.num_id, num.abstract_num_id) {
                    num_instances.push((nid, aid));
                    let no = num.level_overrides.len();
                    let mut oi: usize = 0;
                    proof {
                        assert(overrides@ =~= pre_ovr + spec_build_ovr_list(
                            nid,
                            nums_in[ni as int].level_overrides@.take(0),
                        ));
                    }
                    while oi < no
                        invariant
                            nn == inp.numberings@.len(),
                            0 <= ni < nn,
                            no == inp.numberings@[ni as int].level_overrides@.len(),
                            0 <= oi <= no,
                            inp.numberings@[ni as int].num_id == Option::Some(nid),
                            overrides@ == pre_ovr + spec_build_ovr_list(
                                nid,
                                inp.numberings@[ni as int].level_overrides@.take(oi as int),
                            ),
                        decreases no - oi,
                    {
                        let ghost ovs = inp.numberings@[ni as int].level_overrides@;
                        let ovr = &inp.numberings[ni].level_overrides[oi];
                        if let (Option::Some(il), Option::Some(so)) = (ovr.ilvl, ovr.start_override)
                        {
                            overrides.push(((nid, il), so));
                        }
                        proof {
                            assert(ovs.take(oi + 1).drop_last() =~= ovs.take(oi as int));
                            assert(ovs.take(oi + 1).last() == ovs[oi as int]);
                            assert(overrides@ =~= pre_ovr + spec_build_ovr_list(
                                nid,
                                ovs.take(oi + 1),
                            ));
                        }
                        oi = oi + 1;
                    }
                    proof {
                        assert(inp.numberings@[ni as int].level_overrides@.take(no as int)
                            =~= inp.numberings@[ni as int].level_overrides@);
                    }
                }
                proof {
                    assert(nums_in.take(ni + 1).drop_last() =~= nums_in.take(ni as int));
                    assert(nums_in.take(ni + 1).last() == nums_in[ni as int]);
                    assert(num_instances@ =~= spec_build_instances(nums_in.take(ni + 1)));
                    assert(overrides@ =~= spec_build_overrides(nums_in.take(ni + 1)));
                }
                ni = ni + 1;
            }
            proof {
                assert(inp.numberings@.take(nn as int) =~= inp.numberings@);
            }
        }

        NumberingResolver {
            num_instances,
            abstract_nums,
            overrides,
            counters: Vec::new(),
            level_shifts,
        }
    }
}

/// Counter continuity: two list instances bound to the same abstract list
/// share one counter row, so advancing through either instance at the same
/// level yields a strictly increasing sequence of markers (1., 2., 3.),
/// never resetting between instances. The three states are the resolver
/// before the first call, after the first, and after the second, linked
/// exactly as next_marker's contract links them.
pub proof fn lemma_counter_continuity(
    st0: NumberingResolver,
    st1: NumberingResolver,
    st2: NumberingResolver,
    n1: i32,
    n2: i32,
    a: i32,
    lvl: i32,
)
    requires
        spec_assoc(st0.num_instances@, n1) == Option::Some(a),
        spec_assoc(st0.num_instances@, n2) == Option::Some(a),
        st1.num_instances@ == st0.num_instances@,
        st2.num_instances@ == st0.num_instances@,
        st1.abstract_nums@ == st0.abstract_nums@,
        st2.abstract_nums@ == st0.abstract_nums@,
        st1.overrides@ == st0.overrides@,
        st2.overrides@ == st0.overrides@,
        lvl >= 0,
        st0.spec_levels_of(a) is Some,
        spec_find_level(st0.spec_levels_of(a)->Some_0, lvl as int) is Some,
        ({
            let lv = spec_find_level(st0.spec_levels_of(a)->Some_0, lvl as int)->Some_0;
            lv.start == 1 && lv.lvl_text is None && lv.num_fmt == "decimal"@
        }),
        spec_assoc(st0.overrides@, (n1, lvl)) is None,
        spec_assoc(st0.overrides@, (n2, lvl)) is None,
        (lvl as int) < st0.spec_counters_or_zeros(a).len(),
        st0.spec_counters_or_zeros(a)[lvl as int] == 0i64,
        spec_counter_lookup(st1.counters@, a) == Option::Some(
            st0.spec_nm_new_counters(n1, lvl)->Some_0.1,
        ),
        spec_counter_lookup(st2.counters@, a) == Option::Some(
            st1.spec_nm_new_counters(n2, lvl)->Some_0.1,
        ),
    ensures
        st0.spec_nm_new_counters(n1, lvl) is Some,
        st0.spec_nm_new_counters(n1, lvl)->Some_0.1[lvl as int] == 1i64,
        st1.spec_nm_new_counters(n2, lvl) is Some,
        st1.spec_nm_new_counters(n2, lvl)->Some_0.1[lvl as int] == 2i64,
        st2.spec_nm_new_counters(n1, lvl) is Some,
        st2.spec_nm_new_counters(n1, lvl)->Some_0.1[lvl as int] == 3i64,
        st0.spec_nm_result(n1, lvl) == "1."@,
        st1.spec_nm_result(n2, lvl) == "2."@,
        st2.spec_nm_result(n1, lvl) == "3."@,
{
    let levels = st0.spec_levels_of(a)->Some_0;
    let lv = spec_find_level(levels, lvl as int)->Some_0;
    let c0 = st0.spec_counters_or_zeros(a);
    let c1 = spec_counters_after(c0, lvl as int, 1i64);
    assert(c1[lvl as int] == 1i64);
    assert(c1.len() == c0.len());
    assert(st0.spec_nm_new_counters(n1, lvl) == Option::Some((a, c1)));
    assert(st1.spec_counters_or_zeros(a) == c1);
    let c2 = spec_counters_after(c1, lvl as int, 1i64);
    assert(c2[lvl as int] == 2i64);
    assert(st1.spec_nm_new_counters(n2, lvl) == Option::Some((a, c2)));
    assert(st2.spec_counters_or_zeros(a) == c2);
    let c3 = spec_counters_after(c2, lvl as int, 1i64);
    assert(c3[lvl as int] == 3i64);
    assert(st2.spec_nm_new_counters(n1, lvl) == Option::Some((a, c3)));

    reveal_strlit("decimal");
    reveal_strlit("bullet");
    reveal_strlit("none");
    reveal_strlit("1.");
    reveal_strlit("2.");
    reveal_strlit("3.");
    reveal_strlit(".");
    assert("decimal"@.len() == 7);
    assert("bullet"@.len() == 6);
    assert("none"@.len() == 4);
    assert(lv.num_fmt != "bullet"@ && lv.num_fmt != "none"@);
    assert(spec_format_num(lv.num_fmt, 1) == spec_int_str(1));
    assert(spec_format_num(lv.num_fmt, 2) == spec_int_str(2));
    assert(spec_format_num(lv.num_fmt, 3) == spec_int_str(3));
    assert(spec_dec_digits(1) == seq![spec_digit_char(1)]);
    assert(st0.spec_nm_result(n1, lvl) == spec_marker_of(levels, lv, c1, lvl as int));
    assert(spec_marker_of(levels, lv, c1, lvl as int) == spec_int_str(1) + "."@);
    assert(spec_int_str(1) + "."@ =~= "1."@);
    assert(st1.spec_nm_result(n2, lvl) == spec_int_str(2) + "."@);
    assert(spec_int_str(2) + "."@ =~= "2."@);
    assert(st2.spec_nm_result(n1, lvl) == spec_int_str(3) + "."@);
    assert(spec_int_str(3) + "."@ =~= "3."@);
}

/// Level reset: advancing at a level resets every deeper level's counter to
/// "not yet visited", so the next marker one level deeper restarts from that
/// level's start value (or its instance override).
pub proof fn lemma_level_reset(
    st0: NumberingResolver,
    st1: NumberingResolver,
    nid: i32,
    a: i32,
    lvl: i32,
)
    requires
        spec_assoc(st0.num_instances@, nid) == Option::Some(a),
        st1.num_instances@ == st0.num_instances@,
        st1.abstract_nums@ == st0.abstract_nums@,
        st1.overrides@ == st0.overrides@,
        0 <= lvl < i32::MAX,
        st0.spec_levels_of(a) is Some,
        spec_find_level(st0.spec_levels_of(a)->Some_0, lvl as int) is Some,
        st0.spec_nm_new_counters(nid, lvl) is Some,
        spec_counter_lookup(st1.counters@, a) == Option::Some(
            st0.spec_nm_new_counters(nid, lvl)->Some_0.1,
        ),
        spec_find_level(st0.spec_levels_of(a)->Some_0, lvl + 1) is Some,
        spec_assoc(st0.overrides@, (nid, (lvl + 1) as i32)) is None,
    ensures
        // every level deeper than the advanced one is reset
        forall|j: int|
            lvl < j < st0.spec_nm_new_counters(nid, lvl)->Some_0.1.len() ==> st0.spec_nm_new_counters(
                nid,
                lvl,
            )->Some_0.1[j] == 0i64,
        // so the next marker one level deeper restarts from its start value
        st1.spec_nm_new_counters(nid, (lvl + 1) as i32) is Some,
        st1.spec_nm_new_counters(nid, (lvl + 1) as i32)->Some_0.1[lvl + 1] == spec_find_level(
            st0.spec_levels_of(a)->Some_0,
            lvl + 1,
        )->Some_0.start as i64,
{
    let levels = st0.spec_levels_of(a)->Some_0;
    let c0 = st0.spec_counters_or_zeros(a);
    let lv = spec_find_level(levels, lvl as int)->Some_0;
    let startv = st0.spec_start_value(nid, lvl, lv);
    let c1 = spec_counters_after(c0, lvl as int, startv);
    assert(st0.spec_nm_new_counters(nid, lvl)->Some_0.1 == c1);
    assert(forall|j: int| lvl < j < c1.len() ==> c1[j] == 0i64);
    assert(st1.spec_counters_or_zeros(a) == c1);

    let lv1 = spec_find_level(levels, lvl + 1)->Some_0;
    let d: i32 = (lvl + 1) as i32;
    assert(d as int == lvl + 1);
    let start1 = st1.spec_start_value(nid, d, lv1);
    assert(start1 == lv1.start as i64);
    let c2 = spec_counters_after(c1, lvl + 1, start1);
    let c1e = if c1.len() <= lvl + 1 {
        c1 + spec_zero_counters((lvl + 2 - c1.len()) as nat)
    } else {
        c1
    };
    assert(c1e[lvl + 1] == 0i64);
    assert(c2[lvl + 1] == start1);
    assert(st1.spec_nm_new_counters(nid, d) == Option::Some((a, c2)));
}

} // verus!
