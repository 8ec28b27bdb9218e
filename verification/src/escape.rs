//! Escaping of text that is inserted into HTML attributes or Markdown links.

use vstd::prelude::*;

use crate::text::push_char;

verus! {

/// What one character becomes inside an HTML attribute value.
pub open spec fn spec_esc_attr_char(c: char) -> Seq<char> {
    if c == '&' {
        "&amp;"@
    } else if c == '<' {
        "&lt;"@
    } else if c == '>' {
        "&gt;"@
    } else if c == '"' {
        "&quot;"@
    } else if c == '\'' {
        "&#39;"@
    } else {
        seq![c]
    }
}

pub open spec fn spec_escape_html_attr(s: Seq<char>) -> Seq<char>
    decreases s.len(),
{
    if s.len() == 0 {
        Seq::empty()
    } else {
        spec_escape_html_attr(s.drop_last()) + spec_esc_attr_char(s.last())
    }
}

pub fn escape_html_attr(value: &str) -> (r: String)
    ensures
        r@ == spec_escape_html_attr(value@),
{
    let n = value.unicode_len();
    let mut r = String::new();
    let mut i: usize = 0;
    proof {
        assert(r@ =~= spec_escape_html_attr(value@.take(0)));
    }
    while i < n
        invariant
            n == value@.len(),
            0 <= i <= n,
            r@ == spec_escape_html_attr(value@.take(i as int)),
        decreases n - i,
    {
        let ghost pre = r@;
        let c = value.get_char(i);
        match c {
            '&' => r.append("&amp;"),
            '<' => r.append("&lt;"),
            '>' => r.append("&gt;"),
            '"' => r.append("&quot;"),
            '\'' => r.append("&#39;"),
            _ => {
                push_char(&mut r, c);
                proof {
                    assert(pre.push(c) =~= pre + seq![c]);
                }
            },
        }
        proof {
            assert(value@.take(i + 1).drop_last() =~= value@.take(i as int));
            assert(value@.take(i + 1).last() == value@[i as int]);
        }
        i = i + 1;
    }
    proof {
        assert(value@.take(n as int) =~= value@);
    }
    r
}

/// What one character becomes inside Markdown link text.
pub open spec fn spec_esc_link_text_char(c: char) -> Seq<char> {
    if c == '\\' || c == '[' || c == ']' {
        seq!['\\', c]
    } else {
        seq![c]
    }
}

pub open spec fn spec_escape_markdown_link_text(s: Seq<char>) -> Seq<char>
    decreases s.len(),
{
    if s.len() == 0 {
        Seq::empty()
    } else {
        spec_escape_markdown_link_text(s.drop_last()) + spec_esc_link_text_char(s.last())
    }
}

pub fn escape_markdown_link_text(value: &str) -> (r: String)
    ensures
        r@ == spec_escape_markdown_link_text(value@),
{
    let n = value.unicode_len();
    let mut r = String::new();
    let mut i: usize = 0;
    proof {
        assert(r@ =~= spec_escape_markdown_link_text(value@.take(0)));
    }
    while i < n
        invariant
            n == value@.len(),
            0 <= i <= n,
            r@ == spec_escape_markdown_link_text(value@.take(i as int)),
        decreases n - i,
    {
        let ghost pre = r@;
        let c = value.get_char(i);
        if c == '\\' || c == '[' || c == ']' {
            push_char(&mut r, '\\');
            push_char(&mut r, c);
            proof {
                assert(pre.push('\\').push(c) =~= pre + seq!['\\', c]);
            }
        } else {
            push_char(&mut r, c);
            proof {
                assert(pre.push(c) =~= pre + seq![c]);
            }
        }
        proof {
            assert(value@.take(i + 1).drop_last() =~= value@.take(i as int));
            assert(value@.take(i + 1).last() == value@[i as int]);
        }
        i = i + 1;
    }
    proof {
        assert(value@.take(n as int) =~= value@);
    }
    r
}

/// What one character becomes inside a Markdown link destination.
pub open spec fn spec_esc_link_dest_char(c: char) -> Seq<char> {
    if c == '\\' || c == '(' || c == ')' || c == ' ' {
        seq!['\\', c]
    } else {
        seq![c]
    }
}

pub open spec fn spec_escape_markdown_link_destination(s: Seq<char>) -> Seq<char>
    decreases s.len(),
{
    if s.len() == 0 {
        Seq::empty()
    } else {
        spec_escape_markdown_link_destination(s.drop_last()) + spec_esc_link_dest_char(s.last())
    }
}

pub fn escape_markdown_link_destination(value: &str) -> (r: String)
    ensures
        r@ == spec_escape_markdown_link_destination(value@),
{
    let n = value.unicode_len();
    let mut r = String::new();
    let mut i: usize = 0;
    proof {
        assert(r@ =~= spec_escape_markdown_link_destination(value@.take(0)));
    }
    while i < n
        invariant
            n == value@.len(),
            0 <= i <= n,
            r@ == spec_escape_markdown_link_destination(value@.take(i as int)),
        decreases n - i,
    {
        let ghost pre = r@;
        let c = value.get_char(i);
        if c == '\\' || c == '(' || c == ')' || c == ' ' {
            push_char(&mut r, '\\');
            push_char(&mut r, c);
            proof {
                assert(pre.push('\\').push(c) =~= pre + seq!['\\', c]);
            }
        } else {
            push_char(&mut r, c);
            proof {
                assert(pre.push(c) =~= pre + seq![c]);
            }
        }
        proof {
            assert(value@.take(i + 1).drop_last() =~= value@.take(i as int));
            assert(value@.take(i + 1).last() == value@[i as int]);
        }
        i = i + 1;
    }
    proof {
        assert(value@.take(n as int) =~= value@);
    }
    r
}

} // verus!
