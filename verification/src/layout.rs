//! The application shell: which layout a route gets, the navbar brand, the
//! locale switcher, the theme toggle and anchor scrolling after navigation.

use vstd::prelude::*;

use crate::data::{DocsLocale, DocsSite};
use crate::lookup::{first_index, lemma_first_index_at, lemma_first_index_none};
use crate::router::{
    find_page, find_page_index, locale_index, locale_of, parse_route, route_anchor,
    route_in_locale, route_in_locale_spec, route_path,
};
use crate::text::str_eq;

verus! {

/// The theme toggle glyph: a sun in the dark theme, a moon otherwise.
#[derive(Clone, Copy, Debug, PartialEq, Eq, Structural)]
pub enum ThemeIcon {
    /// `☀`, shown in the dark theme.
    Sun,
    /// `☾`, shown in every other theme.
    Moon,
}

/// One entry of the language dropdown.
pub struct DropdownItem {
    /// The language label.
    pub label: String,
    /// The locale prefix selected by the entry.
    pub value: String,
}

/// What the application shell shows around the main column.
pub struct ShellView {
    /// Position of the route's locale in `site.locales` (navbar and sidebar items).
    pub locale: usize,
    /// Navbar brand title: the locale title, else the site title.
    pub brand_title: String,
    /// Navbar brand link: the locale prefix.
    pub brand_href: String,
    /// Whether the left sidebar is shown (not on home pages).
    pub show_sidebar: bool,
    /// Whether the main column uses the full-width home layout.
    pub home_layout: bool,
    /// Language dropdown entries (empty for a single-locale site).
    pub locale_menu: Vec<DropdownItem>,
    /// Theme toggle glyph.
    pub theme_icon: ThemeIcon,
}

/// Whether a raw route resolves to a home page.
pub open spec fn is_home_route(site: DocsSite, raw: Seq<char>) -> bool {
    let i: int = find_page_index(site.pages@, route_path(raw));
    i >= 0 && site.pages@[i].home
}

/// The brand title: the locale title, else the site title.
pub open spec fn brand_title_of(site: DocsSite, locale: DocsLocale) -> Seq<char> {
    if locale.title@.len() == 0 {
        site.title@
    } else {
        locale.title@
    }
}

/// The dark theme name.
pub open spec fn theme_dark() -> Seq<char> {
    "dark"@
}

/// The theme glyph for a theme name.
pub open spec fn theme_icon_of(theme: Seq<char>) -> ThemeIcon {
    if theme == theme_dark() {
        ThemeIcon::Sun
    } else {
        ThemeIcon::Moon
    }
}

/// Whether the dropdown entries are one per locale, in order, when the site
/// has several locales, and none otherwise.
pub open spec fn is_locale_menu(site: DocsSite, items: Seq<DropdownItem>) -> bool {
    if site.locales.len() <= 1 {
        items.len() == 0
    } else {
        &&& items.len() == site.locales.len()
        &&& forall|i: int|
            0 <= i < items.len() ==> (#[trigger] items[i]).label@ == site.locales@[i].label@
                && items[i].value@ == site.locales@[i].prefix@
    }
}

/// Returns whether the given route belongs to a home page.
pub fn route_is_home(site: &DocsSite, route: &str) -> (res: bool)
    ensures
        res == is_home_route(*site, route@),
{
    let (path, _anchor) = parse_route(route);
    match find_page(site, path.as_str()) {
        Some(i) => site.pages[i].home,
        None => false,
    }
}

/// The theme glyph for a theme name.
pub fn theme_icon(theme: &str) -> (res: ThemeIcon)
    ensures
        res == theme_icon_of(theme@),
{
    if str_eq(theme, "dark") {
        ThemeIcon::Sun
    } else {
        ThemeIcon::Moon
    }
}

/// Renders the themed shell: navbar brand, language dropdown, theme glyph,
/// whether the sidebar is shown and which main-column layout is used.
pub fn docs_shell(site: &DocsSite, route: &str, is_home: bool, theme: &str) -> (res: ShellView)
    requires
        site.locales.len() > 0,
    ensures
        res.locale == locale_index(site.locales@, route_path(route@)),
        res.brand_title@ == brand_title_of(*site, site.locales@[res.locale as int]),
        res.brand_href@ == site.locales@[res.locale as int].prefix@,
        res.show_sidebar == !is_home_route(*site, route@),
        res.home_layout == is_home,
        is_locale_menu(*site, res.locale_menu@),
        res.theme_icon == theme_icon_of(theme@),
{
    let (path, _anchor) = parse_route(route);
    let li: usize = locale_of(site, path.as_str());
    let locale: &DocsLocale = &site.locales[li];
    let brand_title: String = if locale.title.unicode_len() == 0 {
        site.title.clone()
    } else {
        locale.title.clone()
    };
    ShellView {
        locale: li,
        brand_title,
        brand_href: locale.prefix.clone(),
        show_sidebar: !route_is_home(site, route),
        home_layout: is_home,
        locale_menu: locale_menu_node(site),
        theme_icon: theme_icon(theme),
    }
}

/// Renders the root application shell for the current route: the home
/// layout exactly when the route is a home page.
pub fn app(site: &DocsSite, route: &str, theme: &str) -> (res: ShellView)
    requires
        site.locales.len() > 0,
    ensures
        res.home_layout == is_home_route(*site, route@),
        res.show_sidebar == !res.home_layout,
        res.locale == locale_index(site.locales@, route_path(route@)),
        res.brand_title@ == brand_title_of(*site, site.locales@[res.locale as int]),
        res.brand_href@ == site.locales@[res.locale as int].prefix@,
        is_locale_menu(*site, res.locale_menu@),
        res.theme_icon == theme_icon_of(theme@),
{
    let is_home: bool = route_is_home(site, route);
    docs_shell(site, route, is_home, theme)
}

/// Builds the locale switcher entries (none when the site has one locale).
pub fn locale_menu_node(site: &DocsSite) -> (res: Vec<DropdownItem>)
    ensures
        is_locale_menu(*site, res@),
{
    let mut items: Vec<DropdownItem> = Vec::new();
    let n: usize = site.locales.len();
    if n <= 1 {
        return items;
    }
    let mut i: usize = 0;
    while i < n
        invariant
            n == site.locales.len(),
            i <= n,
            items.len() == i,
            forall|j: int|
                0 <= j < i ==> (#[trigger] items@[j]).label@ == site.locales@[j].label@
                    && items@[j].value@ == site.locales@[j].prefix@,
        decreases n - i,
    {
        let l: &DocsLocale = &site.locales[i];
        items.push(DropdownItem { label: l.label.clone(), value: l.prefix.clone() });
        i = i + 1;
    }
    items
}

/// Toggles a menu: the new open state.
pub fn toggle_menu(menu_open: bool) -> (res: bool)
    ensures
        res == !menu_open,
{
    !menu_open
}

/// The predicate "the locale's prefix is `p`".
pub open spec fn has_prefix(p: Seq<char>) -> spec_fn(DocsLocale) -> bool {
    |l: DocsLocale| l.prefix@ == p
}

/// Switches the current route into the locale chosen from the dropdown (the
/// first locale with the chosen prefix): the route to navigate to, after
/// which the menu closes; `None` (nothing happens) when no locale has the
/// prefix.
pub fn switch_locale(site: &DocsSite, route: &str, prefix: &str) -> (res: Option<String>)
    requires
        site.locales.len() > 0,
    ensures
        res is None <==> first_index(site.locales@, has_prefix(prefix@)) < 0,
        res matches Some(r) ==> r@ == route_in_locale_spec(
            *site,
            route_path(route@),
            site.locales@[first_index(site.locales@, has_prefix(prefix@))],
        ),
{
    let n: usize = site.locales.len();
    let mut i: usize = 0;
    while i < n
        invariant
            n == site.locales.len(),
            i <= n,
            forall|j: int| 0 <= j < i ==> (#[trigger] site.locales@[j]).prefix@ != prefix@,
        decreases n - i,
    {
        if str_eq(site.locales[i].prefix.as_str(), prefix) {
            proof {
                lemma_first_index_at(site.locales@, has_prefix(prefix@), i as int);
            }
            let (path, _anchor) = parse_route(route);
            return Some(route_in_locale(site, path.as_str(), &site.locales[i]));
        }
        i = i + 1;
    }
    proof {
        lemma_first_index_none(site.locales@, has_prefix(prefix@));
    }
    None
}

/// Drawer navigation: the route handed to the router's overlay-back step,
/// which consumes the drawer's history entry and then navigates there.
pub fn drawer_navigate(link: &str) -> (res: Option<String>)
    ensures
        res matches Some(r) && r@ == link@,
{
    Some(link.to_owned())
}

/// Where to scroll after a route change.
pub enum ScrollTarget {
    /// Scroll the element with this id into view.
    Element(String),
    /// Scroll to the page top.
    Top,
}

/// The anchor to scroll to after a route change (the page top when `None`).
pub fn use_anchor_scroll(route: &str) -> (res: Option<String>)
    ensures
        match res {
            Some(a) => route_anchor(route@) == Some(a@),
            None => route_anchor(route@) is None,
        },
{
    let (_path, anchor) = parse_route(route);
    anchor
}

/// The deferred scroll: into the anchor's element when there is an anchor
/// and the page has an element with that id, else to the page top.
pub fn schedule_scroll(anchor: Option<String>, element_found: bool) -> (res: ScrollTarget)
    ensures
        match res {
            ScrollTarget::Element(id) => anchor matches Some(a) && element_found && id@ == a@,
            ScrollTarget::Top => anchor is None || !element_found,
        },
{
    match anchor {
        Some(id) => if element_found {
            ScrollTarget::Element(id)
        } else {
            ScrollTarget::Top
        },
        None => ScrollTarget::Top,
    }
}

} // verus!
