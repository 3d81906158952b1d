//! Hash routes: splitting off the anchor, finding the owning locale and the
//! page of a route, flattening the sidebar, and moving a route between locales.

use vstd::prelude::*;
use vstd::string::*;

use crate::data::{DocsLocale, DocsPage, DocsSidebarItem, DocsSite};
use crate::lookup::{first_index, lemma_first_index, lemma_first_index_at, lemma_first_index_none};
use crate::text::{
    char_index, concat, ends_with, find_char, is_char, starts_with, str_eq, strip_prefix,
    strip_prefix_str, trim_end, trim_end_char,
};

verus! {

// ─── Route and anchor ───────────────────────────────────────────────────────

/// The page path of a raw route: everything before the first `#`.
pub open spec fn route_path(raw: Seq<char>) -> Seq<char> {
    let i: int = char_index(raw, '#');
    if i < 0 {
        raw
    } else {
        raw.take(i)
    }
}

/// The in-page anchor of a raw route: the non-empty text after the first `#`.
pub open spec fn route_anchor(raw: Seq<char>) -> Option<Seq<char>> {
    let i: int = char_index(raw, '#');
    if i < 0 || raw.len() == i + 1 {
        None
    } else {
        Some(raw.skip(i + 1))
    }
}

/// Splits a raw route into its page path and optional in-page anchor.
///
/// `/guide/a.html#install` → `("/guide/a.html", Some("install"))`.
pub fn parse_route(raw: &str) -> (res: (String, Option<String>))
    ensures
        res.0@ == route_path(raw@),
        match res.1 {
            Some(a) => route_anchor(raw@) == Some(a@),
            None => route_anchor(raw@) is None,
        },
{
    proof {
        lemma_first_index(raw@, is_char('#'));
    }
    match find_char(raw, '#') {
        None => (raw.to_owned(), None),
        Some(i) => {
            let n: usize = raw.unicode_len();
            let path: &str = raw.substring_char(0, i);
            assert(path@ =~= raw@.take(i as int));
            if i + 1 == n {
                (path.to_owned(), None)
            } else {
                let anchor: &str = raw.substring_char(i + 1, n);
                assert(anchor@ =~= raw@.skip(i + 1));
                (path.to_owned(), Some(anchor.to_owned()))
            }
        },
    }
}

// ─── Locales ────────────────────────────────────────────────────────────────

/// The root locale prefix `/`.
pub open spec fn root_prefix() -> Seq<char> {
    seq!['/']
}

/// Whether locale `l` is a non-root locale whose prefix starts `route`.
pub open spec fn owns(l: DocsLocale, route: Seq<char>) -> bool {
    l.prefix@ != root_prefix() && l.prefix@.is_prefix_of(route)
}

/// Position of the owning non-root locale with the longest prefix (the first
/// one on ties), or `-1` when no non-root locale owns `route`.
pub open spec fn best_owner(ls: Seq<DocsLocale>, route: Seq<char>) -> int
    decreases ls.len(),
{
    if ls.len() == 0 {
        -1
    } else {
        let b: int = best_owner(ls.drop_last(), route);
        if owns(ls.last(), route) && (b < 0 || ls.last().prefix@.len() > ls[b].prefix@.len()) {
            ls.len() - 1
        } else {
            b
        }
    }
}

/// The predicate "is the root locale".
pub open spec fn is_root_locale() -> spec_fn(DocsLocale) -> bool {
    |l: DocsLocale| l.prefix@ == root_prefix()
}

/// Position of the locale owning `route`: the longest matching non-root prefix,
/// else the root locale, else the first locale.
pub open spec fn locale_index(ls: Seq<DocsLocale>, route: Seq<char>) -> int {
    let b: int = best_owner(ls, route);
    if b >= 0 {
        b
    } else if first_index(ls, is_root_locale()) >= 0 {
        first_index(ls, is_root_locale())
    } else {
        0
    }
}

/// `best_owner` is a position of `ls`, or `-1`.
pub proof fn lemma_best_owner_range(ls: Seq<DocsLocale>, route: Seq<char>)
    ensures
        -1 <= best_owner(ls, route) < ls.len(),
        best_owner(ls, route) >= 0 ==> owns(ls[best_owner(ls, route)], route),
    decreases ls.len(),
{
    if ls.len() > 0 {
        lemma_best_owner_range(ls.drop_last(), route);
    }
}

/// Whether `s` is the root prefix `/`.
pub fn is_root(s: &str) -> (res: bool)
    ensures
        res == (s@ == root_prefix()),
{
    let slash: &str = "/";
    proof {
        reveal_strlit("/");
        assert(slash@ =~= root_prefix());
    }
    str_eq(s, slash)
}

/// Finds the locale owning a route (longest prefix match); the root locale is
/// the fallback, and the first locale when there is no root locale.
///
/// Returns the position of the locale in `site.locales`.
pub fn locale_of(site: &DocsSite, route: &str) -> (res: usize)
    requires
        site.locales.len() > 0,
    ensures
        res == locale_index(site.locales@, route@),
        res < site.locales.len(),
{
    let ls: &Vec<DocsLocale> = &site.locales;
    let n: usize = ls.len();
    let mut best: Option<usize> = None;
    let mut root: Option<usize> = None;
    let mut i: usize = 0;
    while i < n
        invariant
            n == ls.len(),
            i <= n,
            match best {
                Some(b) => b == best_owner(ls@.take(i as int), route@),
                None => best_owner(ls@.take(i as int), route@) == -1,
            },
            match root {
                Some(r) => r < i && ls@[r as int].prefix@ == root_prefix() && (forall|j: int|
                    0 <= j < r ==> #[trigger] ls@[j].prefix@ != root_prefix()),
                None => forall|j: int| 0 <= j < i ==> #[trigger] ls@[j].prefix@ != root_prefix(),
            },
        decreases n - i,
    {
        let l: &DocsLocale = &ls[i];
        proof {
            lemma_best_owner_range(ls@.take(i as int), route@);
            assert(ls@.take(i + 1).drop_last() =~= ls@.take(i as int));
            assert(ls@.take(i + 1).last() == ls@[i as int]);
        }
        let root_here: bool = is_root(l.prefix.as_str());
        if root_here {
            if root.is_none() {
                root = Some(i);
            }
        } else if starts_with(route, l.prefix.as_str()) {
            match best {
                None => {
                    best = Some(i);
                },
                Some(b) => {
                    proof {
                        assert(ls@.take(i as int)[b as int] == ls@[b as int]);
                    }
                    if l.prefix.unicode_len() > ls[b].prefix.unicode_len() {
                        best = Some(i);
                    }
                },
            }
        } else {
        }
        proof {
            match best {
                Some(b) => {
                    assert(ls@.take(i + 1)[b as int] == ls@[b as int]);
                },
                None => {},
            }
        }
        i = i + 1;
    }
    proof {
        assert(ls@.take(n as int) =~= ls@);
        lemma_best_owner_range(ls@, route@);
        lemma_first_index(ls@, is_root_locale());
        match root {
            Some(r) => {
                lemma_first_index_at(ls@, is_root_locale(), r as int);
            },
            None => {
                lemma_first_index_none(ls@, is_root_locale());
            },
        }
    }
    match best {
        Some(b) => b,
        None => match root {
            Some(r) => r,
            None => 0,
        },
    }
}

// ─── Pages ──────────────────────────────────────────────────────────────────

/// The predicate "the page's route is `r`".
pub open spec fn has_route(r: Seq<char>) -> spec_fn(DocsPage) -> bool {
    |p: DocsPage| p.route@ == r
}

/// Position of the first page whose route is exactly `r`, or `-1`.
pub open spec fn page_index(pages: Seq<DocsPage>, r: Seq<char>) -> int {
    first_index(pages, has_route(r))
}

/// The `.html` extension.
pub open spec fn html_ext() -> Seq<char> {
    seq!['.', 'h', 't', 'm', 'l']
}

/// Position of the page of route `r`: an exact match, else (for a route that
/// ends neither in `/` nor in `.html`) the page of `r` with a `/` appended;
/// `-1` when there is none.
pub open spec fn find_page_index(pages: Seq<DocsPage>, r: Seq<char>) -> int {
    if page_index(pages, r) >= 0 {
        page_index(pages, r)
    } else if root_prefix().is_suffix_of(r) || html_ext().is_suffix_of(r) {
        -1
    } else {
        page_index(pages, r.push('/'))
    }
}

/// Position of the first page whose route is exactly `r`.
fn page_position(pages: &Vec<DocsPage>, r: &str) -> (res: Option<usize>)
    ensures
        match res {
            Some(i) => i == page_index(pages@, r@),
            None => page_index(pages@, r@) == -1,
        },
{
    let n: usize = pages.len();
    let mut i: usize = 0;
    while i < n
        invariant
            n == pages.len(),
            i <= n,
            forall|j: int| 0 <= j < i ==> #[trigger] pages@[j].route@ != r@,
        decreases n - i,
    {
        if str_eq(pages[i].route.as_str(), r) {
            proof {
                lemma_first_index_at(pages@, has_route(r@), i as int);
            }
            return Some(i);
        }
        i = i + 1;
    }
    proof {
        lemma_first_index_none(pages@, has_route(r@));
    }
    None
}

/// Looks up a page by route, normalizing a missing trailing `/`
/// (`/guide` → `/guide/`); returns its position in `site.pages`.
pub fn find_page(site: &DocsSite, route: &str) -> (res: Option<usize>)
    ensures
        match res {
            Some(i) => i == find_page_index(site.pages@, route@) && i < site.pages.len(),
            None => find_page_index(site.pages@, route@) == -1,
        },
{
    proof {
        lemma_first_index(site.pages@, has_route(route@));
        lemma_first_index(site.pages@, has_route(route@.push('/')));
    }
    match page_position(&site.pages, route) {
        Some(i) => Some(i),
        None => {
            let slash: &str = "/";
            let html: &str = ".html";
            proof {
                reveal_strlit("/");
                reveal_strlit(".html");
                assert(slash@ =~= root_prefix());
                assert(html@ =~= html_ext());
            }
            if ends_with(route, slash) || ends_with(route, html) {
                None
            } else {
                let with_slash: String = concat(route, slash);
                assert(with_slash@ =~= route@.push('/'));
                page_position(&site.pages, with_slash.as_str())
            }
        },
    }
}

// ─── Sidebar ────────────────────────────────────────────────────────────────

/// A leaf link of the sidebar: its text and target route.
pub struct PageLink {
    /// Display text.
    pub text: String,
    /// Target route.
    pub link: String,
}

/// The `(text, link)` views of page links.
pub open spec fn links_view(v: Seq<PageLink>) -> Seq<(Seq<char>, Seq<char>)> {
    v.map_values(|l: PageLink| (l.text@, l.link@))
}

/// The leaf links of one sidebar node, in display order.
pub open spec fn flat_item(item: DocsSidebarItem) -> Seq<(Seq<char>, Seq<char>)>
    decreases item,
{
    if item.children.len() == 0 {
        match item.link {
            Some(l) => seq![(item.text@, l@)],
            None => seq![],
        }
    } else {
        flat_links(item.children@)
    }
}

/// The leaf links of a sidebar tree: every childless node with a link, in
/// display order (depth first).
pub open spec fn flat_links(items: Seq<DocsSidebarItem>) -> Seq<(Seq<char>, Seq<char>)>
    decreases items,
{
    if items.len() == 0 {
        seq![]
    } else {
        flat_links(items.drop_last()) + flat_item(items.last())
    }
}

/// Flattens a sidebar tree into its ordered leaf links (for prev/next).
pub fn flat_sidebar_links(items: &Vec<DocsSidebarItem>) -> (res: Vec<PageLink>)
    ensures
        links_view(res@) == flat_links(items@),
    decreases items@,
{
    let mut out: Vec<PageLink> = Vec::new();
    let n: usize = items.len();
    let mut i: usize = 0;
    while i < n
        invariant
            n == items.len(),
            i <= n,
            links_view(out@) == flat_links(items@.take(i as int)),
        decreases n - i,
    {
        let item: &DocsSidebarItem = &items[i];
        proof {
            assert(items@.take(i + 1).drop_last() =~= items@.take(i as int));
            assert(items@.take(i + 1).last() == items@[i as int]);
        }
        let ghost before: Seq<PageLink> = out@;
        if item.children.len() == 0 {
            match &item.link {
                Some(l) => {
                    out.push(PageLink { text: item.text.clone(), link: l.clone() });
                    assert(links_view(out@) =~= links_view(before) + flat_item(*item));
                },
                None => {
                    assert(links_view(out@) =~= links_view(before) + flat_item(*item));
                },
            }
        } else {
            let mut sub: Vec<PageLink> = flat_sidebar_links(&item.children);
            let ghost sub_view: Seq<PageLink> = sub@;
            out.append(&mut sub);
            assert(links_view(out@) =~= links_view(before) + links_view(sub_view));
        }
        i = i + 1;
    }
    assert(items@.take(n as int) =~= items@);
    out
}

// ─── Switching locale ───────────────────────────────────────────────────────

/// The part of `route` after the owning locale's prefix (without its trailing
/// `/`); `/` when nothing is left.
pub open spec fn locale_suffix(ls: Seq<DocsLocale>, route: Seq<char>) -> Seq<char> {
    let cur: DocsLocale = ls[locale_index(ls, route)];
    let rest: Seq<char> = strip_prefix(route, trim_end(cur.prefix@, '/'));
    if rest.len() == 0 {
        root_prefix()
    } else {
        rest
    }
}

/// The route that `route` would have in locale `target`.
pub open spec fn locale_candidate(ls: Seq<DocsLocale>, route: Seq<char>, target: DocsLocale) -> Seq<
    char,
> {
    if target.prefix@ == root_prefix() {
        locale_suffix(ls, route)
    } else {
        trim_end(target.prefix@, '/') + locale_suffix(ls, route)
    }
}

/// The route that `route_in_locale` switches to: the counterpart page when the
/// site has it, else the target locale's home.
pub open spec fn route_in_locale_spec(site: DocsSite, route: Seq<char>, target: DocsLocale) -> Seq<
    char,
> {
    let c: Seq<char> = locale_candidate(site.locales@, route, target);
    if find_page_index(site.pages@, c) >= 0 {
        c
    } else {
        target.prefix@
    }
}

/// Maps a route to the equivalent route in another locale.
///
/// Falls back to the target locale home when the page has no counterpart.
pub fn route_in_locale(site: &DocsSite, route: &str, target: &DocsLocale) -> (res: String)
    requires
        site.locales.len() > 0,
    ensures
        res@ == route_in_locale_spec(*site, route@, *target),
{
    let current: usize = locale_of(site, route);
    let cur_prefix: &str = trim_end_char(site.locales[current].prefix.as_str(), '/');
    let rest: &str = strip_prefix_str(route, cur_prefix);
    let slash: &str = "/";
    proof {
        reveal_strlit("/");
        assert(slash@ =~= root_prefix());
    }
    let suffix: &str = if rest.unicode_len() == 0 {
        slash
    } else {
        rest
    };
    let candidate: String = if is_root(target.prefix.as_str()) {
        suffix.to_owned()
    } else {
        concat(trim_end_char(target.prefix.as_str(), '/'), suffix)
    };
    if find_page(site, candidate.as_str()).is_some() {
        candidate
    } else {
        target.prefix.clone()
    }
}

// ─── Laws ───────────────────────────────────────────────────────────────────

/// A raw route is its page path, then (when it has one) `#` and its anchor;
/// the page path holds no `#`.
pub proof fn law_route_split(raw: Seq<char>)
    ensures
        !route_path(raw).contains('#'),
        route_anchor(raw) matches Some(a) ==> raw == route_path(raw) + seq!['#'] + a,
        !raw.contains('#') ==> route_path(raw) == raw && route_anchor(raw) is None,
{
    lemma_first_index(raw, is_char('#'));
    let i: int = char_index(raw, '#');
    if i >= 0 {
        assert forall|k: int| 0 <= k < route_path(raw).len() implies route_path(raw)[k] != '#' by {
            assert(!(is_char('#'))(raw[k]));
        }
        if let Some(a) = route_anchor(raw) {
            assert(raw =~= raw.take(i) + seq!['#'] + raw.skip(i + 1));
        }
        assert(raw.contains('#')) by {
            assert(raw[i] == '#');
        }
    } else {
        assert forall|k: int| 0 <= k < raw.len() implies raw[k] != '#' by {
            assert(!(is_char('#'))(raw[k]));
        }
    }
}

/// The page found for a route has that route, or that route with a `/`
/// appended (and the latter only for a route ending neither in `/` nor in
/// `.html`).
pub proof fn law_find_page_route(pages: Seq<DocsPage>, r: Seq<char>)
    ensures
        find_page_index(pages, r) >= 0 ==> {
            let p: DocsPage = pages[find_page_index(pages, r)];
            p.route@ == r || (p.route@ == r.push('/') && !root_prefix().is_suffix_of(r)
                && !html_ext().is_suffix_of(r))
        },
        page_index(pages, r) >= 0 ==> find_page_index(pages, r) == page_index(pages, r),
{
    lemma_first_index(pages, has_route(r));
    lemma_first_index(pages, has_route(r.push('/')));
}

/// The owning locale of a route has the longest prefix among the non-root
/// locales that start the route; when none does, no non-root locale starts it.
pub proof fn law_locale_longest_prefix(ls: Seq<DocsLocale>, route: Seq<char>)
    ensures
        best_owner(ls, route) >= 0 ==> forall|j: int|
            0 <= j < ls.len() && owns(#[trigger] ls[j], route) ==> ls[j].prefix@.len()
                <= ls[best_owner(ls, route)].prefix@.len(),
        best_owner(ls, route) < 0 ==> forall|j: int| 0 <= j < ls.len() ==> !owns(#[trigger] ls[j], route),
    decreases ls.len(),
{
    if ls.len() > 0 {
        let d: Seq<DocsLocale> = ls.drop_last();
        law_locale_longest_prefix(d, route);
        lemma_best_owner_range(d, route);
        assert forall|j: int| 0 <= j < d.len() implies d[j] == ls[j] by {}
    }
}

/// Switching locale and switching back returns to the same page: from route
/// `r` of locale `S` to locale `T` and back, when both pages exist, `T` owns
/// the translated route, `S`'s prefix (without its trailing `/`) starts `r`
/// and something of `r` is left after it.
pub proof fn law_locale_round_trip(site: DocsSite, r: Seq<char>, t: int)
    requires
        site.locales.len() > 0,
        0 <= t < site.locales.len(),
        locale_index(site.locales@, locale_candidate(site.locales@, r, site.locales@[t])) == t,
        trim_end(site.locales@[locale_index(site.locales@, r)].prefix@, '/').is_prefix_of(r),
        strip_prefix(r, trim_end(site.locales@[locale_index(site.locales@, r)].prefix@, '/')).len()
            > 0,
        find_page_index(site.pages@, locale_candidate(site.locales@, r, site.locales@[t])) >= 0,
        find_page_index(site.pages@, r) >= 0,
    ensures
        route_in_locale_spec(
            site,
            route_in_locale_spec(site, r, site.locales@[t]),
            site.locales@[locale_index(site.locales@, r)],
        ) == r,
{
    let ls: Seq<DocsLocale> = site.locales@;
    let src: DocsLocale = ls[locale_index(ls, r)];
    let tgt: DocsLocale = ls[t];
    let ts: Seq<char> = trim_end(src.prefix@, '/');
    let x: Seq<char> = strip_prefix(r, ts);
    assert(locale_suffix(ls, r) == x);
    let c: Seq<char> = locale_candidate(ls, r, tgt);
    assert(route_in_locale_spec(site, r, tgt) == c);
    let tt: Seq<char> = trim_end(tgt.prefix@, '/');
    assert(trim_end(root_prefix(), '/') == Seq::<char>::empty()) by {
        reveal_with_fuel(trim_end, 2);
        assert(root_prefix().drop_last() =~= Seq::<char>::empty());
    }
    if tgt.prefix@ == root_prefix() {
        assert(c == x);
        assert(Seq::<char>::empty().is_prefix_of(c));
        assert(c.skip(0) =~= c);
        assert(strip_prefix(c, tt) == x);
    } else {
        assert(c == tt + x);
        assert(tt.is_prefix_of(c)) by {
            assert(c.subrange(0, tt.len() as int) =~= tt);
        }
        assert(c.skip(tt.len() as int) =~= x);
        assert(strip_prefix(c, tt) == x);
    }
    assert(locale_suffix(ls, c) == x);
    if src.prefix@ == root_prefix() {
        assert(ts == Seq::<char>::empty());
        assert(r.skip(0) =~= r);
        assert(x == r);
        assert(locale_candidate(ls, c, src) == r);
    } else {
        assert(r =~= ts + r.skip(ts.len() as int));
        assert(locale_candidate(ls, c, src) == r);
    }
}

} // verus!
