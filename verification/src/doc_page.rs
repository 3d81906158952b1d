//! Page routing (home, doc or not found) and the documentation page view:
//! footer, anchor table of contents and prev/next links.

use vstd::prelude::*;

use crate::data::{DocsLocale, DocsPage, DocsSite, DocsTocItem};
use crate::lookup::{first_index, lemma_first_index, lemma_first_index_at, lemma_first_index_none};
use crate::router::{
    PageLink, find_page, find_page_index, flat_links, flat_sidebar_links, links_view, locale_index,
    locale_of, parse_route, route_path,
};
use crate::text::{concat, str_eq};

verus! {

/// Which page the main column shows.
#[derive(Clone, Copy, Debug, PartialEq, Eq, Structural)]
pub enum PageKind {
    /// A home page (hero layout).
    Home,
    /// A documentation page.
    Doc,
    /// No page has the route.
    NotFound,
}

/// The main column: the page kind, keyed by the page path so that switching
/// page rebuilds the column.
pub struct MainView {
    /// The page path of the route.
    pub key: String,
    /// Which page to show.
    pub kind: PageKind,
}

/// The page kind that a raw route shows.
pub open spec fn page_kind_of(site: DocsSite, raw: Seq<char>) -> PageKind {
    let i: int = find_page_index(site.pages@, route_path(raw));
    if i < 0 {
        PageKind::NotFound
    } else if site.pages@[i].home {
        PageKind::Home
    } else {
        PageKind::Doc
    }
}

/// Routes the current path to the home page, a doc page, or the 404 page.
pub fn docs_main(site: &DocsSite, route: &str) -> (res: MainView)
    ensures
        res.key@ == route_path(route@),
        res.kind == page_kind_of(*site, route@),
{
    let (path, _anchor) = parse_route(route);
    let kind: PageKind = match find_page(site, path.as_str()) {
        Some(i) => if site.pages[i].home {
            PageKind::Home
        } else {
            PageKind::Doc
        },
        None => PageKind::NotFound,
    };
    MainView { key: path, kind }
}

// ─── Prev / next ────────────────────────────────────────────────────────────

/// The predicate "the link targets `route`".
pub open spec fn links_to(route: Seq<char>) -> spec_fn((Seq<char>, Seq<char>)) -> bool {
    |l: (Seq<char>, Seq<char>)| l.1 == route
}

/// Position of the first link to `route`, or `-1`.
pub open spec fn link_position(links: Seq<(Seq<char>, Seq<char>)>, route: Seq<char>) -> int {
    first_index(links, links_to(route))
}

/// The link before the first link to `route`.
pub open spec fn prev_of(links: Seq<(Seq<char>, Seq<char>)>, route: Seq<char>) -> Option<
    (Seq<char>, Seq<char>),
> {
    let i: int = link_position(links, route);
    if i <= 0 {
        None
    } else {
        Some(links[i - 1])
    }
}

/// The link after the first link to `route`.
pub open spec fn next_of(links: Seq<(Seq<char>, Seq<char>)>, route: Seq<char>) -> Option<
    (Seq<char>, Seq<char>),
> {
    let i: int = link_position(links, route);
    if i < 0 || i + 1 >= links.len() {
        None
    } else {
        Some(links[i + 1])
    }
}

/// The `(text, link)` view of an optional page link.
pub open spec fn opt_link_view(o: Option<PageLink>) -> Option<(Seq<char>, Seq<char>)> {
    match o {
        Some(l) => Some((l.text@, l.link@)),
        None => None,
    }
}

/// A copy of a page link.
fn copy_link(l: &PageLink) -> (res: PageLink)
    ensures
        res.text@ == l.text@,
        res.link@ == l.link@,
{
    PageLink { text: l.text.clone(), link: l.link.clone() }
}

/// Computes the prev/next pagination entries around the current route: the
/// neighbours of its first occurrence among the locale's sidebar leaf links.
pub fn prev_next(locale: &DocsLocale, route: &str) -> (res: (Option<PageLink>, Option<PageLink>))
    ensures
        opt_link_view(res.0) == prev_of(flat_links(locale.sidebar@), route@),
        opt_link_view(res.1) == next_of(flat_links(locale.sidebar@), route@),
{
    let links: Vec<PageLink> = flat_sidebar_links(&locale.sidebar);
    let ghost lv: Seq<(Seq<char>, Seq<char>)> = links_view(links@);
    let n: usize = links.len();
    let mut i: usize = 0;
    while i < n
        invariant
            n == links.len(),
            lv == links_view(links@),
            lv == flat_links(locale.sidebar@),
            i <= n,
            forall|j: int| 0 <= j < i ==> (#[trigger] links@[j]).link@ != route@,
        decreases n - i,
    {
        if str_eq(links[i].link.as_str(), route) {
            proof {
                assert forall|j: int| 0 <= j < i implies !(links_to(route@))(#[trigger] lv[j]) by {
                    assert(lv[j] == (links@[j].text@, links@[j].link@));
                }
                lemma_first_index_at(lv, links_to(route@), i as int);
            }
            let prev: Option<PageLink> = if i == 0 {
                None
            } else {
                Some(copy_link(&links[i - 1]))
            };
            let next: Option<PageLink> = if i + 1 < n {
                Some(copy_link(&links[i + 1]))
            } else {
                None
            };
            proof {
                assert(lv.len() == n);
                if i > 0 {
                    assert(lv[i - 1] == (links@[i - 1].text@, links@[i - 1].link@));
                }
                if i + 1 < n {
                    assert(lv[i + 1] == (links@[i + 1].text@, links@[i + 1].link@));
                }
            }
            return (prev, next);
        }
        i = i + 1;
    }
    proof {
        assert forall|j: int| 0 <= j < lv.len() implies !(links_to(route@))(#[trigger] lv[j]) by {
            assert(lv[j] == (links@[j].text@, links@[j].link@));
        }
        lemma_first_index_none(lv, links_to(route@));
    }
    (None, None)
}

/// What the page column shows depends only on the page the route finds:
/// the home view exactly for a page flagged `home` (whatever its path, a
/// locale home included), the doc view for any other page, and the 404 view
/// when no page is found; two routes that find the same page show the
/// same kind.
pub proof fn law_page_kind(site: DocsSite, raw: Seq<char>, other: Seq<char>)
    ensures
        ({
            let i: int = find_page_index(site.pages@, route_path(raw));
            &&& i >= 0 ==> (page_kind_of(site, raw) == PageKind::Home <==> site.pages@[i].home)
            &&& i >= 0 ==> page_kind_of(site, raw) != PageKind::NotFound
            &&& i < 0 ==> page_kind_of(site, raw) == PageKind::NotFound
        }),
        find_page_index(site.pages@, route_path(raw)) == find_page_index(site.pages@, route_path(other))
            ==> page_kind_of(site, raw) == page_kind_of(site, other),
{
}

/// Following the next link and then the previous link leads back: in a
/// sidebar whose leaf links are pairwise distinct, the page after `route`
/// has `route`'s own entry before it.
pub proof fn law_prev_of_next(links: Seq<(Seq<char>, Seq<char>)>, route: Seq<char>)
    requires
        forall|i: int, j: int| 0 <= i < j < links.len() ==> links[i].1 != links[j].1,
        next_of(links, route) is Some,
    ensures
        prev_of(links, (next_of(links, route)->0).1) is Some,
        (prev_of(links, (next_of(links, route)->0).1)->0).1 == route,
{
    lemma_first_index(links, links_to(route));
    let i: int = link_position(links, route);
    let nx: Seq<char> = links[i + 1].1;
    assert forall|j: int| 0 <= j < i + 1 implies !(links_to(nx))(#[trigger] links[j]) by {}
    lemma_first_index_at(links, links_to(nx), i + 1);
}

/// Following the previous link and then the next link leads back: in a
/// sidebar whose leaf links are pairwise distinct, the page before `route`
/// has `route`'s own entry after it.
pub proof fn law_next_of_prev(links: Seq<(Seq<char>, Seq<char>)>, route: Seq<char>)
    requires
        forall|i: int, j: int| 0 <= i < j < links.len() ==> links[i].1 != links[j].1,
        prev_of(links, route) is Some,
    ensures
        next_of(links, (prev_of(links, route)->0).1) is Some,
        (next_of(links, (prev_of(links, route)->0).1)->0).1 == route,
{
    lemma_first_index(links, links_to(route));
    let i: int = link_position(links, route);
    let pv: Seq<char> = links[i - 1].1;
    assert forall|j: int| 0 <= j < i - 1 implies !(links_to(pv))(#[trigger] links[j]) by {}
    lemma_first_index_at(links, links_to(pv), i - 1);
}

// ─── Documentation page ─────────────────────────────────────────────────────

/// An entry of the right-hand anchor table of contents.
pub struct TocEntry {
    /// Heading level.
    pub level: u8,
    /// Heading text.
    pub text: String,
    /// Full `#<route>#<slug>` link.
    pub href: String,
}

/// What a documentation page shows besides its markdown body.
pub struct DocPageView {
    /// Position of the page in `site.pages`.
    pub page: usize,
    /// Position of the page's locale in `site.locales` (labels come from it).
    pub locale: usize,
    /// Anchor table of contents.
    pub toc_items: Vec<TocEntry>,
    /// Previous page link.
    pub prev: Option<PageLink>,
    /// Next page link.
    pub next: Option<PageLink>,
    /// Footer text.
    pub footer: String,
}

/// The in-page link of a heading: `#<route>#<slug>`.
pub open spec fn toc_href(route: Seq<char>, id: Seq<char>) -> Seq<char> {
    "#"@ + route + "#"@ + id
}

/// The page's own footer, else the locale's.
pub open spec fn footer_of(page: DocsPage, locale: DocsLocale) -> Seq<char> {
    if page.footer@.len() == 0 {
        locale.footer@
    } else {
        page.footer@
    }
}

/// Whether `e` is the table-of-contents entry of heading `h` on route `route`.
pub open spec fn toc_entry_of(e: TocEntry, h: DocsTocItem, route: Seq<char>) -> bool {
    e.level == h.level && e.text@ == h.text@ && e.href@ == toc_href(route, h.id@)
}

/// The in-page link of a heading.
pub fn heading_href(route: &str, id: &str) -> (res: String)
    ensures
        res@ == toc_href(route@, id@),
{
    let a: String = concat("#", route);
    let b: String = concat(a.as_str(), "#");
    concat(b.as_str(), id)
}

/// The table-of-contents entries of a page, in heading order.
pub fn toc_entries(page: &DocsPage) -> (res: Vec<TocEntry>)
    ensures
        res.len() == page.headings.len(),
        forall|k: int|
            0 <= k < res.len() ==> toc_entry_of(#[trigger] res@[k], page.headings@[k], page.route@),
{
    let mut out: Vec<TocEntry> = Vec::new();
    let n: usize = page.headings.len();
    let mut k: usize = 0;
    while k < n
        invariant
            n == page.headings.len(),
            k <= n,
            out.len() == k,
            forall|j: int|
                0 <= j < k ==> toc_entry_of(#[trigger] out@[j], page.headings@[j], page.route@),
        decreases n - k,
    {
        let h: &DocsTocItem = &page.headings[k];
        out.push(
            TocEntry {
                level: h.level,
                text: h.text.clone(),
                href: heading_href(page.route.as_str(), h.id.as_str()),
            },
        );
        k = k + 1;
    }
    out
}

/// Renders one documentation page: its table of contents, prev/next links
/// and footer (the page's own footer, else the locale's); `None` when no page
/// has the route.
pub fn docs_doc_page(site: &DocsSite, route: &str) -> (res: Option<DocPageView>)
    requires
        site.locales.len() > 0,
    ensures
        res is None <==> find_page_index(site.pages@, route_path(route@)) < 0,
        res matches Some(v) ==> {
            let path: Seq<char> = route_path(route@);
            let page: DocsPage = site.pages@[v.page as int];
            let locale: DocsLocale = site.locales@[v.locale as int];
            let links: Seq<(Seq<char>, Seq<char>)> = flat_links(locale.sidebar@);
            &&& v.page == find_page_index(site.pages@, path)
            &&& v.locale == locale_index(site.locales@, path)
            &&& v.footer@ == footer_of(page, locale)
            &&& opt_link_view(v.prev) == prev_of(links, page.route@)
            &&& opt_link_view(v.next) == next_of(links, page.route@)
            &&& v.toc_items.len() == page.headings.len()
            &&& forall|k: int|
                0 <= k < v.toc_items.len() ==> toc_entry_of(
                    #[trigger] v.toc_items@[k],
                    page.headings@[k],
                    page.route@,
                )
        },
{
    let (path, _anchor) = parse_route(route);
    let li: usize = locale_of(site, path.as_str());
    let pi: usize = match find_page(site, path.as_str()) {
        Some(i) => i,
        None => {
            return None;
        },
    };
    let page: &DocsPage = &site.pages[pi];
    let locale: &DocsLocale = &site.locales[li];
    let (prev, next) = prev_next(locale, page.route.as_str());
    let footer: String = if page.footer.unicode_len() == 0 {
        locale.footer.clone()
    } else {
        page.footer.clone()
    };
    Some(
        DocPageView { page: pi, locale: li, toc_items: toc_entries(page), prev, next, footer },
    )
}

} // verus!
