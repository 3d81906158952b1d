//! The 404 page view.

use vstd::prelude::*;

use crate::data::DocsSite;
use crate::router::{locale_index, locale_of, parse_route, route_path};
use crate::text::concat;

verus! {

/// What the 404 page links to: the home of the route's locale.
pub struct NotFoundView {
    /// Position of the route's locale in `site.locales`.
    pub locale: usize,
    /// The `#<prefix>` href of the home link.
    pub home_href: String,
    /// The route the home link navigates to (the locale prefix).
    pub home_link: String,
}

/// Renders the 404 page: a link back to the home of the route's locale.
pub fn docs_not_found(site: &DocsSite, route: &str) -> (res: NotFoundView)
    requires
        site.locales.len() > 0,
    ensures
        res.locale == locale_index(site.locales@, route_path(route@)),
        res.home_link@ == site.locales@[res.locale as int].prefix@,
        res.home_href@ == "#"@ + site.locales@[res.locale as int].prefix@,
{
    let (path, _anchor) = parse_route(route);
    let li: usize = locale_of(site, path.as_str());
    let prefix: &str = site.locales[li].prefix.as_str();
    NotFoundView { locale: li, home_href: concat("#", prefix), home_link: prefix.to_owned() }
}

} // verus!
