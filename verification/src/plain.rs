//! The plain text of inline markdown (used for heading titles): text and
//! code as written, emphasis and links by their content, line breaks as
//! spaces, each level trimmed of surrounding whitespace.

use vstd::prelude::*;

use crate::data::DocsInline;
use crate::text::concat;
use crate::unicode::{char_is_whitespace, is_white};

verus! {

/// `s` without its leading whitespace.
pub open spec fn trim_ws_start(s: Seq<char>) -> Seq<char>
    decreases s.len(),
{
    if s.len() > 0 && is_white(s[0]) {
        trim_ws_start(s.drop_first())
    } else {
        s
    }
}

/// `s` without its trailing whitespace.
pub open spec fn trim_ws_end(s: Seq<char>) -> Seq<char>
    decreases s.len(),
{
    if s.len() > 0 && is_white(s.last()) {
        trim_ws_end(s.drop_last())
    } else {
        s
    }
}

/// `s` without its leading and trailing whitespace.
pub open spec fn trim_ws(s: Seq<char>) -> Seq<char> {
    trim_ws_end(trim_ws_start(s))
}

/// The plain text of inline nodes: their pieces joined, then trimmed.
pub open spec fn plain(inlines: Seq<DocsInline>) -> Seq<char>
    decreases inlines, 2int,
{
    trim_ws(raw_text(inlines))
}

/// The pieces of inline nodes joined, untrimmed.
pub open spec fn raw_text(inlines: Seq<DocsInline>) -> Seq<char>
    decreases inlines, 1int,
{
    if inlines.len() == 0 {
        seq![]
    } else {
        raw_text(inlines.drop_last()) + piece(inlines.last())
    }
}

/// The text one inline node contributes.
pub open spec fn piece(i: DocsInline) -> Seq<char>
    decreases i, 0int,
{
    match i {
        DocsInline::Text(t) => t@,
        DocsInline::Code(t) => t@,
        DocsInline::Strong(c) => plain(c@),
        DocsInline::Em(c) => plain(c@),
        DocsInline::Del(c) => plain(c@),
        DocsInline::Link { children, .. } => plain(children@),
        DocsInline::SoftBreak => seq![' '],
        DocsInline::HardBreak => seq![' '],
        _ => seq![],
    }
}

/// `s` without its leading and trailing whitespace.
pub fn trim_whitespace(s: &str) -> (res: String)
    ensures
        res@ == trim_ws(s@),
{
    let n: usize = s.unicode_len();
    let mut a: usize = 0;
    assert(s@.skip(0) =~= s@);
    while a < n && char_is_whitespace(s.get_char(a))
        invariant
            n == s@.len(),
            a <= n,
            trim_ws_start(s@) == trim_ws_start(s@.skip(a as int)),
        decreases n - a,
    {
        assert(s@.skip(a as int).drop_first() =~= s@.skip(a + 1));
        a = a + 1;
    }
    let ghost front: Seq<char> = s@.skip(a as int);
    assert(trim_ws_start(s@) == front);
    let mut b: usize = n;
    assert(front =~= s@.subrange(a as int, n as int));
    while b > a && char_is_whitespace(s.get_char(b - 1))
        invariant
            n == s@.len(),
            a <= b <= n,
            front == s@.skip(a as int),
            trim_ws_end(front) == trim_ws_end(s@.subrange(a as int, b as int)),
        decreases b - a,
    {
        assert(s@.subrange(a as int, b as int).drop_last() =~= s@.subrange(a as int, b - 1));
        b = b - 1;
    }
    let r: &str = s.substring_char(a, b);
    r.to_owned()
}

/// `s` without its leading whitespace.
pub fn trim_whitespace_start(s: &str) -> (res: String)
    ensures
        res@ == trim_ws_start(s@),
{
    let n: usize = s.unicode_len();
    let mut a: usize = 0;
    assert(s@.skip(0) =~= s@);
    while a < n && char_is_whitespace(s.get_char(a))
        invariant
            n == s@.len(),
            a <= n,
            trim_ws_start(s@) == trim_ws_start(s@.skip(a as int)),
        decreases n - a,
    {
        assert(s@.skip(a as int).drop_first() =~= s@.skip(a + 1));
        a = a + 1;
    }
    let r: &str = s.substring_char(a, n);
    assert(r@ =~= s@.skip(a as int));
    r.to_owned()
}

/// `s` without its trailing whitespace.
pub fn trim_whitespace_end(s: &str) -> (res: String)
    ensures
        res@ == trim_ws_end(s@),
{
    let n: usize = s.unicode_len();
    let mut b: usize = n;
    assert(s@.subrange(0, n as int) =~= s@);
    while b > 0 && char_is_whitespace(s.get_char(b - 1))
        invariant
            n == s@.len(),
            b <= n,
            trim_ws_end(s@) == trim_ws_end(s@.subrange(0, b as int)),
        decreases b,
    {
        assert(s@.subrange(0, b as int).drop_last() =~= s@.subrange(0, b - 1));
        b = b - 1;
    }
    let r: &str = s.substring_char(0, b);
    r.to_owned()
}

/// The plain text of inline nodes (for heading titles and anchors).
pub fn inline_plain_text(inlines: &Vec<DocsInline>) -> (res: String)
    ensures
        res@ == plain(inlines@),
    decreases inlines@,
{
    let n: usize = inlines.len();
    let mut text: String = String::new();
    let mut i: usize = 0;
    assert(inlines@.take(0) =~= Seq::<DocsInline>::empty());
    while i < n
        invariant
            n == inlines.len(),
            i <= n,
            text@ == raw_text(inlines@.take(i as int)),
        decreases n - i,
    {
        proof {
            assert(inlines@.take(i + 1).drop_last() =~= inlines@.take(i as int));
            assert(inlines@.take(i + 1).last() == inlines@[i as int]);
        }
        let part: String = match &inlines[i] {
            DocsInline::Text(t) => t.clone(),
            DocsInline::Code(t) => t.clone(),
            DocsInline::Strong(c) => inline_plain_text(c),
            DocsInline::Em(c) => inline_plain_text(c),
            DocsInline::Del(c) => inline_plain_text(c),
            DocsInline::Link { children, .. } => inline_plain_text(children),
            DocsInline::SoftBreak => " ".to_owned(),
            DocsInline::HardBreak => " ".to_owned(),
            _ => String::new(),
        };
        proof {
            reveal_strlit(" ");
            assert(part@ =~= piece(inlines@[i as int]));
        }
        text = concat(text.as_str(), part.as_str());
        i = i + 1;
    }
    assert(inlines@.take(n as int) =~= inlines@);
    trim_whitespace(text.as_str())
}

} // verus!
