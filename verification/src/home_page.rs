//! The home page view: hero title, optional body and footer.

use vstd::prelude::*;

use crate::data::{DocsLocale, DocsPage, DocsSite};
use crate::doc_page::footer_of;
use crate::router::{find_page, find_page_index, locale_index, locale_of, parse_route, route_path};

verus! {

/// What a home page shows besides the page's own hero and feature data.
pub struct HomePageView {
    /// Position of the page in `site.pages`.
    pub page: usize,
    /// Position of the page's locale in `site.locales`.
    pub locale: usize,
    /// Hero title.
    pub hero_title: String,
    /// Whether the markdown body is shown (the page has blocks).
    pub show_body: bool,
    /// Footer text.
    pub footer: String,
    /// Whether the footer is shown (the footer text is not empty).
    pub show_footer: bool,
}

/// The hero title: the page's hero text, else the locale title, else the
/// site title.
pub open spec fn hero_title_of(site: DocsSite, page: DocsPage, locale: DocsLocale) -> Seq<char> {
    if page.hero_text@.len() == 0 {
        if locale.title@.len() == 0 {
            site.title@
        } else {
            locale.title@
        }
    } else {
        page.hero_text@
    }
}

/// Renders the home page: the hero title, whether the markdown body and the
/// footer are shown, and the footer text; `None` when no page has the route.
pub fn docs_home_page(site: &DocsSite, route: &str) -> (res: Option<HomePageView>)
    requires
        site.locales.len() > 0,
    ensures
        res is None <==> find_page_index(site.pages@, route_path(route@)) < 0,
        res matches Some(v) ==> {
            let path: Seq<char> = route_path(route@);
            let page: DocsPage = site.pages@[v.page as int];
            let locale: DocsLocale = site.locales@[v.locale as int];
            &&& v.page == find_page_index(site.pages@, path)
            &&& v.locale == locale_index(site.locales@, path)
            &&& v.hero_title@ == hero_title_of(*site, page, locale)
            &&& v.show_body == (page.blocks.len() > 0)
            &&& v.footer@ == footer_of(page, locale)
            &&& v.show_footer == (footer_of(page, locale).len() > 0)
        },
{
    let (path, _anchor) = parse_route(route);
    let li: usize = locale_of(site, path.as_str());
    let pi: usize = match find_page(site, path.as_str()) {
        Some(i) => i,
        None => {
            return None;
        },
    };
    let page: &DocsPage = &site.pages[pi];
    let locale: &DocsLocale = &site.locales[li];
    let hero_title: String = if page.hero_text.unicode_len() == 0 {
        if locale.title.unicode_len() == 0 {
            site.title.clone()
        } else {
            locale.title.clone()
        }
    } else {
        page.hero_text.clone()
    };
    let footer: String = if page.footer.unicode_len() == 0 {
        locale.footer.clone()
    } else {
        page.footer.clone()
    };
    let show_footer: bool = footer.unicode_len() > 0;
    Some(
        HomePageView {
            page: pi,
            locale: li,
            hero_title,
            show_body: page.blocks.len() > 0,
            footer,
            show_footer,
        },
    )
}

} // verus!
