//! The YAML frontmatter of a markdown page: after optional leading
//! whitespace, a `---` line opens it and the first line starting with
//! `---` after it closes it; the body follows the closing `---`.

use vstd::prelude::*;

use crate::plain::{trim_whitespace_start, trim_ws_start};
use crate::text::starts_with;

verus! {

/// Position of the first occurrence of `pat` in `s`, or `-1`.
pub open spec fn find_from(s: Seq<char>, pat: Seq<char>) -> int
    decreases s.len(),
{
    if pat.is_prefix_of(s) {
        0
    } else if s.len() == 0 {
        -1
    } else {
        let r: int = find_from(s.drop_first(), pat);
        if r < 0 {
            -1
        } else {
            r + 1
        }
    }
}

/// An occurrence at `i` with none before it is the first one; with none
/// up to the end there is none.
proof fn lemma_find_from(s: Seq<char>, pat: Seq<char>, i: int)
    requires
        0 <= i <= s.len(),
        forall|k: int| 0 <= k < i ==> !pat.is_prefix_of(#[trigger] s.skip(k)),
    ensures
        pat.is_prefix_of(s.skip(i)) ==> find_from(s, pat) == i,
        i == s.len() && !pat.is_prefix_of(s.skip(i)) ==> find_from(s, pat) == -1,
    decreases i,
{
    assert(s.skip(0) =~= s);
    if i > 0 {
        assert forall|k: int| 0 <= k < i - 1 implies !pat.is_prefix_of(#[trigger] s.drop_first().skip(k)) by {
            assert(s.drop_first().skip(k) =~= s.skip(k + 1));
        }
        assert(s.drop_first().skip(i - 1) =~= s.skip(i));
        lemma_find_from(s.drop_first(), pat, i - 1);
    }
}

/// The frontmatter source and the body of a page, when it has frontmatter.
pub open spec fn frontmatter(raw: Seq<char>) -> Option<(Seq<char>, Seq<char>)> {
    let t: Seq<char> = trim_ws_start(raw);
    if !"---"@.is_prefix_of(t) {
        None
    } else {
        let after: Seq<char> = t.skip(3);
        if after.len() == 0 || (after[0] != '\n' && after[0] != '\r') {
            None
        } else {
            let rest: Seq<char> = after.skip(1);
            let e: int = find_from(rest, "\n---"@);
            if e < 0 {
                None
            } else {
                Some((rest.take(e), rest.skip(e + 4)))
            }
        }
    }
}

/// Splits a markdown source into its frontmatter source (if any) and its
/// body; without frontmatter the body is the whole source.
pub fn split_frontmatter(raw: &str) -> (res: (Option<String>, String))
    ensures
        match frontmatter(raw@) {
            Some((fm, body)) => res.0 matches Some(f) && f@ == fm && res.1@ == body,
            None => res.0 is None && res.1@ == raw@,
        },
{
    proof {
        reveal_strlit("---");
        reveal_strlit("\n---");
    }
    let t: String = trim_whitespace_start(raw);
    if !starts_with(t.as_str(), "---") {
        return (None, raw.to_owned());
    }
    let n: usize = t.unicode_len();
    if n == 3 {
        return (None, raw.to_owned());
    }
    let first: char = t.as_str().get_char(3);
    if first != '\n' && first != '\r' {
        return (None, raw.to_owned());
    }
    let rest: &str = t.as_str().substring_char(4, n);
    assert(rest@ =~= t@.skip(3).skip(1));
    let m: usize = rest.unicode_len();
    let ghost found: Option<(Seq<char>, Seq<char>)> = {
        let e: int = find_from(rest@, "\n---"@);
        if e < 0 {
            None
        } else {
            Some((rest@.take(e), rest@.skip(e + 4)))
        }
    };
    assert(frontmatter(raw@) == found);
    let mut i: usize = 0;
    while i < m
        invariant
            frontmatter(raw@) == found,
            found == ({
                let e: int = find_from(rest@, "\n---"@);
                if e < 0 {
                    None
                } else {
                    Some((rest@.take(e), rest@.skip(e + 4)))
                }
            }),
            m == rest@.len(),
            i <= m,
            forall|k: int| 0 <= k < i ==> !"\n---"@.is_prefix_of(#[trigger] rest@.skip(k)),
        decreases m - i,
    {
        proof {
            reveal_strlit("\n---");
        }
        let tail: &str = rest.substring_char(i, m);
        assert(tail@ =~= rest@.skip(i as int));
        if starts_with(tail, "\n---") {
            proof {
                lemma_find_from(rest@, "\n---"@, i as int);
            }
            let fm: &str = rest.substring_char(0, i);
            let body: &str = rest.substring_char(i + 4, m);
            assert(fm@ =~= rest@.take(i as int));
            assert(body@ =~= rest@.skip(i + 4));
            return (Some(fm.to_owned()), body.to_owned());
        }
        i = i + 1;
    }
    proof {
        reveal_strlit("\n---");
        assert(rest@.skip(m as int) =~= Seq::<char>::empty());
        lemma_find_from(rest@, "\n---"@, m as int);
    }
    (None, raw.to_owned())
}

/// `find_from` finds the first occurrence, and `-1` means there is none.
proof fn lemma_find_from_spec(s: Seq<char>, pat: Seq<char>)
    ensures
        -1 <= find_from(s, pat) <= s.len(),
        find_from(s, pat) >= 0 ==> pat.is_prefix_of(s.skip(find_from(s, pat))),
        forall|k: int|
            0 <= k <= s.len() && (find_from(s, pat) < 0 || k < find_from(s, pat)) ==> !pat.is_prefix_of(
                #[trigger] s.skip(k),
            ),
    decreases s.len(),
{
    assert(s.skip(0) =~= s);
    if !pat.is_prefix_of(s) && s.len() > 0 {
        lemma_find_from_spec(s.drop_first(), pat);
        assert forall|k: int|
            0 <= k <= s.len() && (find_from(s, pat) < 0 || k < find_from(s, pat)) implies !pat.is_prefix_of(
                #[trigger] s.skip(k),
            ) by {
            if k > 0 {
                assert(s.skip(k) =~= s.drop_first().skip(k - 1));
            }
        }
        if find_from(s, pat) >= 0 {
            assert(s.skip(find_from(s, pat)) =~= s.drop_first().skip(find_from(s, pat) - 1));
        }
    }
}

/// A page with frontmatter is, after its leading whitespace, `---`, one
/// line-break character, the frontmatter, `\n---` and the body, and the
/// frontmatter holds no `\n---` of its own (the first one closes it). A page
/// gets no frontmatter exactly when it does not start so, or when no
/// `\n---` follows the opener.
pub proof fn law_frontmatter_parts(raw: Seq<char>)
    ensures
        frontmatter(raw) matches Some((fm, body)) ==> {
            let t: Seq<char> = trim_ws_start(raw);
            &&& t[3] == '\n' || t[3] == '\r'
            &&& t == "---"@ + seq![t[3]] + fm + "\n---"@ + body
            &&& forall|k: int| 0 <= k < fm.len() ==> !"\n---"@.is_prefix_of(#[trigger] (fm + "\n---"@ + body).skip(k))
        },
        frontmatter(raw) is None ==> {
            let t: Seq<char> = trim_ws_start(raw);
            !"---"@.is_prefix_of(t) || t.len() == 3 || (t[3] != '\n' && t[3] != '\r') || forall|k: int|
                0 <= k <= t.len() - 4 ==> !"\n---"@.is_prefix_of(#[trigger] t.skip(4).skip(k))
        },
{
    reveal_strlit("---");
    reveal_strlit("\n---");
    let t: Seq<char> = trim_ws_start(raw);
    if "---"@.is_prefix_of(t) && t.len() > 3 && (t[3] == '\n' || t[3] == '\r') {
        let rest: Seq<char> = t.skip(3).skip(1);
        assert(rest =~= t.skip(4));
        assert(t.skip(3)[0] == t[3]);
        lemma_find_from_spec(rest, "\n---"@);
        let e: int = find_from(rest, "\n---"@);
        if e >= 0 {
            let fm: Seq<char> = rest.take(e);
            let body: Seq<char> = rest.skip(e + 4);
            assert(rest.skip(e).take(4) =~= "\n---"@);
            assert(rest =~= fm + "\n---"@ + body);
            assert(t =~= t.take(3) + seq![t[3]] + rest);
            assert(t.take(3) =~= "---"@);
            assert forall|k: int| 0 <= k < fm.len() implies !"\n---"@.is_prefix_of(
                #[trigger] (fm + "\n---"@ + body).skip(k),
            ) by {
                assert(rest.skip(k) == (fm + "\n---"@ + body).skip(k));
            }
        }
    }
}

} // verus!
