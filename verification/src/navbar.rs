//! The fixed top navbar: brand, locale navigation links, language menu and
//! theme toggle.

use vstd::prelude::*;

use crate::data::{DocsLocale, DocsNavItem, DocsSite};
use crate::layout::{
    DropdownItem, ThemeIcon, brand_title_of, is_locale_menu, locale_menu_node, theme_icon,
    theme_icon_of, toggle_menu,
};
use crate::router::{
    locale_index, locale_of, parse_route, root_prefix, route_in_locale, route_in_locale_spec,
    route_path,
};
use crate::text::{concat, starts_with, str_eq};

verus! {

/// One navbar link.
pub struct NavLinkView {
    /// Display text.
    pub text: String,
    /// The link target as configured (a route or a URL).
    pub link: String,
    /// The href: the URL itself for external links, `#<route>` otherwise.
    pub href: String,
    /// Whether the link leaves the site (opens a new tab).
    pub external: bool,
    /// Whether the link is highlighted as the current section.
    pub active: bool,
}

/// What the navbar shows.
pub struct NavbarView {
    /// Position of the route's locale in `site.locales`.
    pub locale: usize,
    /// Brand logo.
    pub brand_logo: String,
    /// Brand title: the locale title, else the site title.
    pub brand_title: String,
    /// Brand href: `#<locale prefix>`.
    pub brand_href: String,
    /// The route the brand navigates to (the locale prefix).
    pub brand_link: String,
    /// The locale's navbar links, in order.
    pub links: Vec<NavLinkView>,
    /// Whether the language menu button is shown (several locales).
    pub show_locale_menu: bool,
    /// The open language menu's entries (none while it is closed).
    pub locale_items: Vec<DropdownItem>,
    /// Theme toggle glyph.
    pub theme_icon: ThemeIcon,
}

/// The `http` scheme start that marks external links.
pub open spec fn http() -> Seq<char> {
    "http"@
}

/// Whether `v` is the navbar link of `item` while the page path is `path`.
pub open spec fn nav_link_of(v: NavLinkView, item: DocsNavItem, path: Seq<char>) -> bool {
    let external: bool = http().is_prefix_of(item.link@);
    &&& v.text@ == item.text@
    &&& v.link@ == item.link@
    &&& v.external == external
    &&& v.active == (!external && item.link@ != root_prefix() && item.link@.is_prefix_of(path))
    &&& v.href@ == if external {
        item.link@
    } else {
        "#"@ + item.link@
    }
}

/// Renders a single navbar link (internal hash route or external URL): an
/// internal link other than `/` is active when the page path starts with it.
pub fn docs_navbar_link(route: &str, item: &DocsNavItem) -> (res: NavLinkView)
    ensures
        nav_link_of(res, *item, route_path(route@)),
{
    let external: bool = starts_with(item.link.as_str(), "http");
    let (path, _anchor) = parse_route(route);
    let slash: &str = "/";
    proof {
        reveal_strlit("/");
        assert(slash@ =~= root_prefix());
    }
    let active: bool = !external && !str_eq(item.link.as_str(), slash) && starts_with(
        path.as_str(),
        item.link.as_str(),
    );
    let href: String = if external {
        item.link.clone()
    } else {
        concat("#", item.link.as_str())
    };
    NavLinkView { text: item.text.clone(), link: item.link.clone(), href, external, active }
}

/// Renders the navbar: brand, the locale's links, the language menu and the
/// theme toggle.
pub fn docs_navbar(site: &DocsSite, route: &str, locale_menu_open: bool, theme: &str) -> (res:
    NavbarView)
    requires
        site.locales.len() > 0,
    ensures
        res.locale == locale_index(site.locales@, route_path(route@)),
        res.brand_logo@ == site.logo@,
        res.brand_title@ == brand_title_of(*site, site.locales@[res.locale as int]),
        res.brand_link@ == site.locales@[res.locale as int].prefix@,
        res.brand_href@ == "#"@ + site.locales@[res.locale as int].prefix@,
        res.links.len() == site.locales@[res.locale as int].navbar.len(),
        forall|k: int|
            0 <= k < res.links.len() ==> nav_link_of(
                #[trigger] res.links@[k],
                site.locales@[res.locale as int].navbar@[k],
                route_path(route@),
            ),
        res.show_locale_menu == (site.locales.len() > 1),
        locale_menu_open ==> is_locale_menu(*site, res.locale_items@),
        !locale_menu_open ==> res.locale_items.len() == 0,
        res.theme_icon == theme_icon_of(theme@),
{
    let (path, _anchor) = parse_route(route);
    let li: usize = locale_of(site, path.as_str());
    let locale: &DocsLocale = &site.locales[li];
    let brand_title: String = if locale.title.unicode_len() == 0 {
        site.title.clone()
    } else {
        locale.title.clone()
    };
    let mut links: Vec<NavLinkView> = Vec::new();
    let n: usize = locale.navbar.len();
    let mut k: usize = 0;
    while k < n
        invariant
            n == locale.navbar.len(),
            k <= n,
            links.len() == k,
            forall|j: int|
                0 <= j < k ==> nav_link_of(
                    #[trigger] links@[j],
                    locale.navbar@[j],
                    route_path(route@),
                ),
        decreases n - k,
    {
        links.push(docs_navbar_link(route, &locale.navbar[k]));
        k = k + 1;
    }
    let locale_items: Vec<DropdownItem> = if locale_menu_open {
        locale_menu_node(site)
    } else {
        Vec::new()
    };
    NavbarView {
        locale: li,
        brand_logo: site.logo.clone(),
        brand_title,
        brand_href: concat("#", locale.prefix.as_str()),
        brand_link: locale.prefix.clone(),
        links,
        show_locale_menu: site.locales.len() > 1,
        locale_items,
        theme_icon: theme_icon(theme),
    }
}

/// Toggles the mobile drawer: the new open state.
pub fn toggle_drawer(drawer_open: bool) -> (res: bool)
    ensures
        res == !drawer_open,
{
    toggle_menu(drawer_open)
}

/// Switches the current route into another locale: the route to navigate
/// to, after which the menu closes.
pub fn switch_locale(site: &DocsSite, route: &str, target: &DocsLocale) -> (res: String)
    requires
        site.locales.len() > 0,
    ensures
        res@ == route_in_locale_spec(*site, route_path(route@), *target),
{
    let (path, _anchor) = parse_route(route);
    route_in_locale(site, path.as_str(), target)
}

} // verus!
