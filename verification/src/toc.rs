//! The right-hand anchor table of contents ("On this page").

use vstd::prelude::*;

use crate::data::{DocsPage, DocsSite, DocsTocItem};
use crate::doc_page::{heading_href, toc_href};
use crate::router::{find_page, find_page_index, locale_index, locale_of, parse_route, route_path};

verus! {

/// One link of the table of contents.
pub struct TocLink {
    /// Element key (the heading slug).
    pub key: String,
    /// Whether the heading is an `h3` (indented style).
    pub h3: bool,
    /// Full `#<route>#<slug>` hash, so the browser drives the navigation.
    pub href: String,
    /// Heading text.
    pub text: String,
}

/// The table of contents of a page.
pub struct TocView {
    /// Position of the route's locale in `site.locales` (for the title label).
    pub locale: usize,
    /// One link per heading, in order.
    pub links: Vec<TocLink>,
}

/// Whether `l` is the table-of-contents link of heading `h` on route `route`.
pub open spec fn toc_link_of(l: TocLink, h: DocsTocItem, route: Seq<char>) -> bool {
    &&& l.key@ == h.id@
    &&& l.h3 == (h.level == 3)
    &&& l.href@ == toc_href(route, h.id@)
    &&& l.text@ == h.text@
}

/// Renders the anchor table of contents of the current page; `None` when no
/// page has the route or the page has no headings.
pub fn docs_toc(site: &DocsSite, route: &str) -> (res: Option<TocView>)
    requires
        site.locales.len() > 0,
    ensures
        res is None <==> (find_page_index(site.pages@, route_path(route@)) < 0 || site.pages@[find_page_index(
            site.pages@,
            route_path(route@),
        )].headings.len() == 0),
        res matches Some(v) ==> {
            let page: DocsPage = site.pages@[find_page_index(site.pages@, route_path(route@))];
            &&& v.locale == locale_index(site.locales@, route_path(route@))
            &&& v.links.len() == page.headings.len()
            &&& forall|k: int|
                0 <= k < v.links.len() ==> toc_link_of(
                    #[trigger] v.links@[k],
                    page.headings@[k],
                    page.route@,
                )
        },
{
    let (path, _anchor) = parse_route(route);
    let li: usize = locale_of(site, path.as_str());
    let pi: usize = match find_page(site, path.as_str()) {
        Some(i) => i,
        None => {
            return None;
        },
    };
    let page: &DocsPage = &site.pages[pi];
    let n: usize = page.headings.len();
    if n == 0 {
        return None;
    }
    let mut links: Vec<TocLink> = Vec::new();
    let mut k: usize = 0;
    while k < n
        invariant
            n == page.headings.len(),
            k <= n,
            links.len() == k,
            forall|j: int|
                0 <= j < k ==> toc_link_of(#[trigger] links@[j], page.headings@[j], page.route@),
        decreases n - k,
    {
        let h: &DocsTocItem = &page.headings[k];
        links.push(
            TocLink {
                key: h.id.clone(),
                h3: h.level == 3,
                href: heading_href(page.route.as_str(), h.id.as_str()),
                text: h.text.clone(),
            },
        );
        k = k + 1;
    }
    Some(TocView { locale: li, links })
}

} // verus!
