//! A heading met while a page is parsed: its id (a slug unique within the
//! page, or the id written after it), its `#<route>#<id>` permalink, its
//! entry in the anchor table of contents (h2 and h3 only) and, for the
//! first h1, the page title.

use vstd::prelude::*;

use crate::data::{DocsBlock, DocsInline, DocsTocItem};
use crate::plain::{inline_plain_text, plain};
use crate::sidebar::no_dups;
use crate::slug::{chosen_slug, slug_of, slugify, unique_slug};
use crate::source::opt_view;
use crate::text::{concat, strings_view};

verus! {

/// The value of a table-of-contents entry: level, id and text.
pub open spec fn toc_view(t: DocsTocItem) -> (int, Seq<char>, Seq<char>) {
    (t.level as int, t.id@, t.text@)
}

/// The values of table-of-contents entries.
pub open spec fn toc_views(s: Seq<DocsTocItem>) -> Seq<(int, Seq<char>, Seq<char>)> {
    s.map_values(|t: DocsTocItem| toc_view(t))
}

/// The slug a heading asks for: the id written after it, else the slug of
/// its plain text.
pub open spec fn heading_base(inline: Seq<DocsInline>, custom_id: Option<Seq<char>>) -> Seq<char> {
    match custom_id {
        Some(c) => c,
        None => slug_of(plain(inline)),
    }
}

/// Whether a heading of `level` is listed in the anchor table of contents.
pub open spec fn in_toc(level: u8) -> bool {
    level == 2 || level == 3
}

/// Builds the block of a heading of `level` with content `inline` (and the
/// id written after it, if any) on page `route`, recording its id in
/// `used`, its table-of-contents entry in `headings` (h2 and h3) and its
/// text in `first_h1` (the first h1).
pub fn heading_block(
    level: u8,
    inline: Vec<DocsInline>,
    custom_id: Option<String>,
    route: &str,
    used: &mut Vec<String>,
    headings: &mut Vec<DocsTocItem>,
    first_h1: &mut Option<String>,
) -> (res: DocsBlock)
    requires
        old(used).len() + 2 <= usize::MAX,
    ensures
        match res {
            DocsBlock::Heading { level: l, id, href, inline: content } => {
                &&& l == level
                &&& content@ == inline@
                &&& href@ == seq!['#'] + route@ + seq!['#'] + id@
                &&& chosen_slug(strings_view(old(used)@), heading_base(inline@, opt_view(custom_id)), id@)
                &&& strings_view(final(used)@) == strings_view(old(used)@).push(id@)
                &&& no_dups(strings_view(old(used)@)) ==> no_dups(strings_view(final(used)@))
                &&& toc_views(final(headings)@) == if in_toc(level) {
                    toc_views(old(headings)@).push((level as int, id@, plain(inline@)))
                } else {
                    toc_views(old(headings)@)
                }
            },
            _ => false,
        },
        opt_view(*final(first_h1)) == if level == 1 && old(first_h1).is_none() {
            Some(plain(inline@))
        } else {
            opt_view(*old(first_h1))
        },
{
    let text: String = inline_plain_text(&inline);
    let base: String = match custom_id {
        Some(c) => c,
        None => slugify(text.as_str()),
    };
    let slug: String = unique_slug(base.as_str(), used);
    if level == 2 || level == 3 {
        let ghost before: Seq<DocsTocItem> = headings@;
        let item: DocsTocItem = DocsTocItem { level, id: slug.clone(), text: text.clone() };
        headings.push(item);
        assert(toc_views(headings@) =~= toc_views(before).push(toc_view(item)));
    }
    if level == 1 && first_h1.is_none() {
        *first_h1 = Some(text);
    }
    let hash: &str = "#";
    proof {
        reveal_strlit("#");
    }
    let a: String = concat(hash, route);
    let b: String = concat(a.as_str(), hash);
    let href: String = concat(b.as_str(), slug.as_str());
    assert(href@ =~= seq!['#'] + route@ + seq!['#'] + slug@);
    DocsBlock::Heading { level, id: slug, href, inline }
}

} // verus!
