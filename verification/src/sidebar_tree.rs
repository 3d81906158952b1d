//! The sidebar tree of a locale, built from its source directory: one group
//! per directory that holds pages (titled by its `README.md` when there is
//! one), one link per markdown page, ordered by frontmatter `order`, then by
//! text, then by file name.

use vstd::prelude::*;

use crate::order::{
    is_sorted_by, keyed_key, law_sorted_by, law_sorted_stable, lemma_sorted_by_map, sort_keyed,
    key_lt, sorted_by, text_lt, with_key, Keyed, SortKey,
};
use crate::lookup::{first_index, lemma_first_index, lemma_first_index_at, lemma_first_index_none};
use crate::paths::{route_for, route_of};
use crate::source::{opt_view, prettify, pretty};
use crate::text::{ends_with, lemma_strings_view_push, str_eq, strings_view};

verus! {

/// One entry of a source directory: a file (`children` is `None`) or a
/// directory with its own entries.
pub struct SourceEntry {
    /// File or directory name.
    pub name: String,
    /// The entries of a directory; `None` for a file.
    pub children: Option<Vec<SourceEntry>>,
}

/// What the sidebar needs of a parsed page.
pub struct PageInfo {
    /// Full route of the page.
    pub route: String,
    /// Owning locale prefix.
    pub locale: String,
    /// Page title.
    pub title: String,
    /// Frontmatter `order` (0 when absent).
    pub order: i64,
}

/// One node of the built sidebar tree.
pub struct SideEntry {
    /// Display text.
    pub text: String,
    /// Link route (a page, or a group's index page).
    pub link: Option<String>,
    /// Nested entries (non-empty for a group).
    pub children: Vec<SideEntry>,
}

/// The mathematical value of a sidebar node.
pub struct SideView {
    /// Display text.
    pub text: Seq<char>,
    /// Link route.
    pub link: Option<Seq<char>>,
    /// Nested nodes.
    pub children: Seq<SideView>,
}

/// The value of a sidebar node.
pub open spec fn side_view(e: SideEntry) -> SideView
    decreases e, 0int,
{
    SideView { text: e.text@, link: opt_view(e.link), children: side_views(e.children@) }
}

/// The values of a sequence of sidebar nodes.
pub open spec fn side_views(s: Seq<SideEntry>) -> Seq<SideView>
    decreases s, 1int,
{
    if s.len() == 0 {
        seq![]
    } else {
        side_views(s.drop_last()).push(side_view(s.last()))
    }
}

/// A built node tagged with what it is sorted by: its `order`, the name of
/// its source entry, and the node itself.
pub type Tagged = (int, Seq<char>, SideView);

/// Sorting key: by source name.
pub open spec fn by_name() -> spec_fn(Tagged) -> SortKey {
    |t: Tagged| (0int, t.1, Seq::<char>::empty())
}

/// Sorting key: by `order`, then by display text.
pub open spec fn by_order() -> spec_fn(Tagged) -> SortKey {
    |t: Tagged| (t.0, t.2.text, Seq::<char>::empty())
}

/// The predicate "is the page at `route` in `locale`".
pub open spec fn page_at(route: Seq<char>, locale: Seq<char>) -> spec_fn(PageInfo) -> bool {
    |p: PageInfo| p.route@ == route && p.locale@ == locale
}

/// Whether a file name is a markdown page other than a directory index.
pub open spec fn is_leaf_page(name: Seq<char>) -> bool {
    &&& ".md"@.is_suffix_of(name)
    &&& name != "README.md"@
    &&& name != "index.md"@
}

/// The sidebar of a directory whose entries are `entries`, at `prefix`
/// (the directory's path below the locale root) in `locale`: the nodes of
/// the entries, stably sorted by name and then by `(order, text)`.
pub open spec fn built(
    entries: Seq<SourceEntry>,
    prefix: Seq<Seq<char>>,
    locale: Seq<char>,
    pages: Seq<PageInfo>,
) -> Seq<SideView>
    decreases entries, 2int,
{
    sorted_by(sorted_by(collected(entries, prefix, locale, pages), by_name()), by_order()).map_values(
        node_of(),
    )
}

/// The node of a tagged node.
pub open spec fn node_of() -> spec_fn(Tagged) -> SideView {
    |t: Tagged| t.2
}

/// The tagged nodes of `entries`, in their given order, skipping those that
/// give no node.
pub open spec fn collected(
    entries: Seq<SourceEntry>,
    prefix: Seq<Seq<char>>,
    locale: Seq<char>,
    pages: Seq<PageInfo>,
) -> Seq<Tagged>
    decreases entries, 1int,
{
    if entries.len() == 0 {
        seq![]
    } else {
        let rest: Seq<Tagged> = collected(entries.drop_last(), prefix, locale, pages);
        match entry_node(entries.last(), prefix, locale, pages) {
            Some(t) => rest.push(t),
            None => rest,
        }
    }
}

/// The tagged node of one source entry, if it gives one: a directory other
/// than `public` with a non-empty sidebar becomes a group, titled and linked
/// by its `README.md` page when that page exists; a markdown file that is a
/// known page becomes a link to it.
pub open spec fn entry_node(
    e: SourceEntry,
    prefix: Seq<Seq<char>>,
    locale: Seq<char>,
    pages: Seq<PageInfo>,
) -> Option<Tagged>
    decreases e, 0int,
{
    let name: Seq<char> = e.name@;
    let here: Seq<Seq<char>> = prefix.push(name);
    match e.children {
        Some(kids) => {
            if name == "public"@ {
                None
            } else {
                let children: Seq<SideView> = built(kids@, here, locale, pages);
                if children.len() == 0 {
                    None
                } else {
                    let index: Seq<char> = route_of(here.push("README.md"@), locale);
                    let i: int = first_index(pages, page_at(index, locale));
                    if i >= 0 {
                        Some(
                            (
                                pages[i].order as int,
                                name,
                                SideView { text: pages[i].title@, link: Some(index), children },
                            ),
                        )
                    } else {
                        Some((0int, name, SideView { text: pretty(name), link: None, children }))
                    }
                }
            }
        },
        None => {
            if is_leaf_page(name) {
                let route: Seq<char> = route_of(here, locale);
                let i: int = first_index(pages, page_at(route, locale));
                if i >= 0 {
                    Some(
                        (
                            pages[i].order as int,
                            name,
                            SideView { text: pages[i].title@, link: Some(route), children: seq![] },
                        ),
                    )
                } else {
                    None
                }
            } else {
                None
            }
        },
    }
}


// ─── Building ───────────────────────────────────────────────────────────────

/// Position of the first page at `route` in `locale`.
fn find_page_info(pages: &Vec<PageInfo>, route: &str, locale: &str) -> (res: Option<usize>)
    ensures
        match res {
            Some(i) => i < pages.len() && i == first_index(pages@, page_at(route@, locale@)),
            None => first_index(pages@, page_at(route@, locale@)) == -1,
        },
{
    let n: usize = pages.len();
    let mut j: usize = 0;
    while j < n
        invariant
            n == pages.len(),
            j <= n,
            forall|k: int| 0 <= k < j ==> !(page_at(route@, locale@))(#[trigger] pages@[k]),
        decreases n - j,
    {
        if str_eq(pages[j].route.as_str(), route) && str_eq(pages[j].locale.as_str(), locale) {
            proof {
                lemma_first_index_at(pages@, page_at(route@, locale@), j as int);
            }
            return Some(j);
        }
        j = j + 1;
    }
    proof {
        lemma_first_index_none(pages@, page_at(route@, locale@));
    }
    None
}

/// `prefix` with `name` appended.
fn path_push(prefix: &Vec<String>, name: &str) -> (res: Vec<String>)
    ensures
        strings_view(res@) == strings_view(prefix@).push(name@),
{
    let n: usize = prefix.len();
    let mut out: Vec<String> = Vec::new();
    let mut i: usize = 0;
    while i < n
        invariant
            n == prefix.len(),
            i <= n,
            strings_view(out@) == strings_view(prefix@).take(i as int),
        decreases n - i,
    {
        let ghost before: Seq<String> = out@;
        let piece: String = prefix[i].clone();
        out.push(piece);
        proof {
            lemma_strings_view_push(before, piece);
            assert(strings_view(prefix@).take(i + 1) =~= strings_view(prefix@).take(i as int).push(
                prefix@[i as int]@,
            ));
        }
        i = i + 1;
    }
    let ghost before: Seq<String> = out@;
    let last: String = name.to_string();
    out.push(last);
    proof {
        lemma_strings_view_push(before, last);
        assert(strings_view(prefix@).take(n as int) =~= strings_view(prefix@));
    }
    out
}


/// Whether a file name is a markdown page other than a directory index.
fn is_leaf_name(name: &str) -> (res: bool)
    ensures
        res == is_leaf_page(name@),
{
    ends_with(name, ".md") && !str_eq(name, "README.md") && !str_eq(name, "index.md")
}

/// There is one value per node.
pub proof fn lemma_side_views_len(s: Seq<SideEntry>)
    ensures
        side_views(s).len() == s.len(),
    decreases s.len(),
{
    if s.len() > 0 {
        lemma_side_views_len(s.drop_last());
    }
}

/// The tagged node of one source entry.
fn entry_node_of(e: &SourceEntry, prefix: &Vec<String>, locale: &str, pages: &Vec<PageInfo>) -> (res:
    Option<(i64, String, SideEntry)>)
    ensures
        match res {
            Some(t) => entry_node(*e, strings_view(prefix@), locale@, pages@) == Some(
                (t.0 as int, t.1@, side_view(t.2)),
            ),
            None => entry_node(*e, strings_view(prefix@), locale@, pages@) is None,
        },
    decreases *e,
{
    let here: Vec<String> = path_push(prefix, e.name.as_str());
    match &e.children {
        Some(kids) => {
            if str_eq(e.name.as_str(), "public") {
                return None;
            }
            let children: Vec<SideEntry> = build_sidebar(kids, &here, locale, pages);
            proof {
                lemma_side_views_len(children@);
            }
            if children.len() == 0 {
                return None;
            }
            let readme: Vec<String> = path_push(&here, "README.md");
            let index: String = route_for(&readme, locale);
            match find_page_info(pages, index.as_str(), locale) {
                Some(i) => {
                    let node: SideEntry = SideEntry {
                        text: pages[i].title.clone(),
                        link: Some(index),
                        children,
                    };
                    Some((pages[i].order, e.name.clone(), node))
                },
                None => {
                    let node: SideEntry = SideEntry {
                        text: prettify(e.name.as_str()),
                        link: None,
                        children,
                    };
                    Some((0, e.name.clone(), node))
                },
            }
        },
        None => {
            if !is_leaf_name(e.name.as_str()) {
                return None;
            }
            let route: String = route_for(&here, locale);
            match find_page_info(pages, route.as_str(), locale) {
                Some(i) => {
                    let node: SideEntry = SideEntry {
                        text: pages[i].title.clone(),
                        link: Some(route),
                        children: Vec::new(),
                    };
                    proof {
                        assert(side_views(node.children@) =~= Seq::<SideView>::empty());
                    }
                    Some((pages[i].order, e.name.clone(), node))
                },
                None => None,
            }
        },
    }
}

/// The sidebar of a directory whose entries are `entries`, at `prefix`
/// (the directory's path below the locale root) in `locale`.
pub fn build_sidebar(
    entries: &Vec<SourceEntry>,
    prefix: &Vec<String>,
    locale: &str,
    pages: &Vec<PageInfo>,
) -> (res: Vec<SideEntry>)
    ensures
        side_views(res@) == built(entries@, strings_view(prefix@), locale@, pages@),
    decreases entries@,
{
    let ghost pre: Seq<Seq<char>> = strings_view(prefix@);
    let ghost all: Seq<Tagged> = collected(entries@, pre, locale@, pages@);
    // The tagged nodes in the given order, keyed by name.
    let n: usize = entries.len();
    let mut first: Vec<Keyed<(i64, SideEntry)>> = Vec::new();
    let mut i: usize = 0;
    while i < n
        invariant
            n == entries.len(),
            i <= n,
            pre == strings_view(prefix@),
            first@.map_values(by_name_tag()) == collected(entries@.take(i as int), pre, locale@, pages@),
            forall|k: int| 0 <= k < first@.len() ==> (#[trigger] first@[k]).order == 0 && first@[k].tie@ == Seq::<char>::empty(),
        decreases n - i,
    {
        proof {
            assert(entries@.take(i + 1).drop_last() =~= entries@.take(i as int));
            assert(entries@.take(i + 1).last() == entries@[i as int]);
        }
        match entry_node_of(&entries[i], prefix, locale, pages) {
            Some((order, name, node)) => {
                let k: Keyed<(i64, SideEntry)> = Keyed { order: 0, text: name, tie: String::new(), value: (order, node) };
                let ghost before: Seq<Keyed<(i64, SideEntry)>> = first@;
                first.push(k);
                proof {
                    assert(first@.map_values(by_name_tag()) =~= before.map_values(by_name_tag()).push(by_name_tag()(k)));
                }
            },
            None => {},
        }
        i = i + 1;
    }
    proof {
        assert(entries@.take(n as int) =~= entries@);
        lemma_sorted_by_map(first@, by_name_tag(), keyed_key(), by_name());
    }
    let ghost named: Seq<Tagged> = sorted_by(all, by_name());
    let mut rest: Vec<Keyed<(i64, SideEntry)>> = sort_keyed(first);
    assert(rest@.map_values(by_name_tag()) == named);
    assert(named.skip(0) =~= named);
    // The same nodes, keyed by order and text.
    let m: usize = rest.len();
    let mut second: Vec<Keyed<(String, SideEntry)>> = Vec::new();
    let mut j: usize = 0;
    while rest.len() > 0
        invariant
            j + rest.len() == m,
            named.len() == m,
            rest@.map_values(by_name_tag()) == named.skip(j as int),
            second@.map_values(by_order_tag()) == named.take(j as int),
            forall|k: int| 0 <= k < second@.len() ==> (#[trigger] second@[k]).tie@ == Seq::<char>::empty() && second@[k].text@ == second@[k].value.1.text@,
        decreases rest.len(),
    {
        let ghost r0: Seq<Keyed<(i64, SideEntry)>> = rest@;
        let k: Keyed<(i64, SideEntry)> = rest.remove(0);
        proof {
            assert(r0.map_values(by_name_tag())[0] == named[j as int]);
            assert(rest@ =~= r0.skip(1));
            assert(rest@.map_values(by_name_tag()) =~= r0.map_values(by_name_tag()).skip(1));
            assert(named.skip(j as int).skip(1) =~= named.skip(j + 1));
        }
        let (order, node) = k.value;
        let text: String = node.text.clone();
        let k2: Keyed<(String, SideEntry)> = Keyed { order, text, tie: String::new(), value: (k.text, node) };
        let ghost before: Seq<Keyed<(String, SideEntry)>> = second@;
        second.push(k2);
        proof {
            assert(second@.map_values(by_order_tag()) =~= before.map_values(by_order_tag()).push(by_order_tag()(k2)));
            assert(named.take(j + 1) =~= named.take(j as int).push(named[j as int]));
        }
        j = j + 1;
    }
    proof {
        assert(named.take(m as int) =~= named);
        lemma_sorted_by_map(second@, by_order_tag(), keyed_key(), by_order());
    }
    let ghost ordered: Seq<Tagged> = sorted_by(named, by_order());
    let mut last: Vec<Keyed<(String, SideEntry)>> = sort_keyed(second);
    assert(last@.map_values(by_order_tag()) == ordered);
    assert(ordered.skip(0) =~= ordered);
    let m2: usize = last.len();
    // The nodes alone.
    let mut out: Vec<SideEntry> = Vec::new();
    let mut q: usize = 0;
    while last.len() > 0
        invariant
            q + last.len() == m2,
            ordered.len() == m2,
            last@.map_values(by_order_tag()) == ordered.skip(q as int),
            side_views(out@) == ordered.take(q as int).map_values(node_of()),
        decreases last.len(),
    {
        let ghost l0: Seq<Keyed<(String, SideEntry)>> = last@;
        let k: Keyed<(String, SideEntry)> = last.remove(0);
        proof {
            assert(l0.map_values(by_order_tag())[0] == ordered[q as int]);
            assert(last@ =~= l0.skip(1));
            assert(last@.map_values(by_order_tag()) =~= l0.map_values(by_order_tag()).skip(1));
            assert(ordered.skip(q as int).skip(1) =~= ordered.skip(q + 1));
        }
        let node: SideEntry = k.value.1;
        let ghost before: Seq<SideEntry> = out@;
        out.push(node);
        proof {
            assert(out@.drop_last() =~= before);
            assert(ordered.take(q + 1).map_values(node_of()) =~= ordered.take(q as int).map_values(node_of()).push(node_of()(ordered[q as int])));
        }
        q = q + 1;
    }
    proof {
        assert(ordered.take(m2 as int) =~= ordered);
    }
    out
}

/// A name-keyed node as a tagged node.
pub open spec fn by_name_tag() -> spec_fn(Keyed<(i64, SideEntry)>) -> Tagged {
    |k: Keyed<(i64, SideEntry)>| (k.value.0 as int, k.text@, side_view(k.value.1))
}

/// An order-keyed node as a tagged node.
pub open spec fn by_order_tag() -> spec_fn(Keyed<(String, SideEntry)>) -> Tagged {
    |k: Keyed<(String, SideEntry)>| (k.order as int, k.value.0@, side_view(k.value.1))
}


// ─── Laws ───────────────────────────────────────────────────────────────────

/// Whether a page at `route` in `locale` exists.
pub open spec fn has_page(pages: Seq<PageInfo>, route: Seq<char>, locale: Seq<char>) -> bool {
    exists|i: int| 0 <= i < pages.len() && (#[trigger] pages[i]).route@ == route && pages[i].locale@ == locale
}

/// The title of the (first) page at `route` in `locale`.
pub open spec fn title_at(pages: Seq<PageInfo>, route: Seq<char>, locale: Seq<char>) -> Seq<char> {
    pages[first_index(pages, page_at(route, locale))].title@
}

/// Whether a sidebar node and all nodes below it are links to pages of
/// `locale`, shown by the title of the page they link, or linkless groups
/// with entries.
pub open spec fn node_ok(v: SideView, locale: Seq<char>, pages: Seq<PageInfo>) -> bool
    decreases v,
{
    &&& match v.link {
        Some(r) => has_page(pages, r, locale) && v.text == title_at(pages, r, locale),
        None => v.children.len() > 0,
    }
    &&& forall|i: int| 0 <= i < v.children.len() ==> node_ok(#[trigger] v.children[i], locale, pages)
}

/// A found page exists.
proof fn lemma_found_page(pages: Seq<PageInfo>, route: Seq<char>, locale: Seq<char>)
    requires
        first_index(pages, page_at(route, locale)) >= 0,
    ensures
        has_page(pages, route, locale),
{
    lemma_first_index(pages, page_at(route, locale));
    let i: int = first_index(pages, page_at(route, locale));
    assert((page_at(route, locale))(pages[i]));
}

/// Every node of a built sidebar is well formed.
proof fn lemma_built_ok(entries: Seq<SourceEntry>, prefix: Seq<Seq<char>>, locale: Seq<char>, pages: Seq<PageInfo>)
    ensures
        forall|i: int| 0 <= i < built(entries, prefix, locale, pages).len() ==> node_ok(
            #[trigger] built(entries, prefix, locale, pages)[i],
            locale,
            pages,
        ),
    decreases entries, 2int,
{
    broadcast use vstd::seq_lib::to_multiset_contains;

    let all: Seq<Tagged> = collected(entries, prefix, locale, pages);
    lemma_collected_ok(entries, prefix, locale, pages);
    let named: Seq<Tagged> = sorted_by(all, by_name());
    let ordered: Seq<Tagged> = sorted_by(named, by_order());
    law_sorted_by(all, by_name());
    law_sorted_by(named, by_order());
    assert forall|i: int| 0 <= i < ordered.len() implies node_ok(#[trigger] ordered[i].2, locale, pages) by {
        assert(ordered.to_multiset().count(ordered[i]) > 0);
        assert(named.contains(ordered[i]));
        let j: int = choose|j: int| 0 <= j < named.len() && named[j] == ordered[i];
        assert(named.to_multiset().count(named[j]) > 0);
        assert(all.contains(named[j]));
        let k: int = choose|k: int| 0 <= k < all.len() && all[k] == named[j];
        assert(node_ok(all[k].2, locale, pages));
    }
    assert forall|i: int| 0 <= i < built(entries, prefix, locale, pages).len() implies node_ok(
        #[trigger] built(entries, prefix, locale, pages)[i],
        locale,
        pages,
    ) by {
        assert(built(entries, prefix, locale, pages)[i] == ordered[i].2);
    }
}

/// Every collected node is well formed.
proof fn lemma_collected_ok(entries: Seq<SourceEntry>, prefix: Seq<Seq<char>>, locale: Seq<char>, pages: Seq<PageInfo>)
    ensures
        forall|i: int| 0 <= i < collected(entries, prefix, locale, pages).len() ==> node_ok(
            (#[trigger] collected(entries, prefix, locale, pages)[i]).2,
            locale,
            pages,
        ),
    decreases entries, 1int,
{
    if entries.len() > 0 {
        lemma_collected_ok(entries.drop_last(), prefix, locale, pages);
        lemma_entry_ok(entries.last(), prefix, locale, pages);
        let rest: Seq<Tagged> = collected(entries.drop_last(), prefix, locale, pages);
        match entry_node(entries.last(), prefix, locale, pages) {
            Some(t) => {
                assert forall|i: int| 0 <= i < rest.push(t).len() implies node_ok(
                    (#[trigger] rest.push(t)[i]).2,
                    locale,
                    pages,
                ) by {
                    if i < rest.len() {
                        assert(rest.push(t)[i] == rest[i]);
                    }
                }
            },
            None => {},
        }
    }
}

/// The node of a source entry, when there is one, is well formed.
proof fn lemma_entry_ok(e: SourceEntry, prefix: Seq<Seq<char>>, locale: Seq<char>, pages: Seq<PageInfo>)
    ensures
        entry_node(e, prefix, locale, pages) matches Some(t) ==> node_ok(t.2, locale, pages),
    decreases e, 0int,
{
    let name: Seq<char> = e.name@;
    let here: Seq<Seq<char>> = prefix.push(name);
    match e.children {
        Some(kids) => {
            if name != "public"@ {
                lemma_built_ok(kids@, here, locale, pages);
                let children: Seq<SideView> = built(kids@, here, locale, pages);
                assert(forall|i: int| 0 <= i < children.len() ==> node_ok(#[trigger] children[i], locale, pages));
                let index: Seq<char> = route_of(here.push("README.md"@), locale);
                if first_index(pages, page_at(index, locale)) >= 0 {
                    lemma_found_page(pages, index, locale);
                    let i: int = first_index(pages, page_at(index, locale));
                    let v: SideView = SideView { text: pages[i].title@, link: Some(index), children };
                    assert(node_ok(v, locale, pages));
                } else if children.len() > 0 {
                    let v: SideView = SideView { text: pretty(name), link: None, children };
                    assert(node_ok(v, locale, pages));
                }
            }
        },
        None => {
            let route: Seq<char> = route_of(here, locale);
            if first_index(pages, page_at(route, locale)) >= 0 {
                lemma_found_page(pages, route, locale);
            }
        },
    }
}

/// Every entry of a generated sidebar, at every depth, is either a link to
/// an existing page of its locale, whose text is that page's title (so a
/// directory group with a `README.md` page is titled by that page), or a
/// group (without a page) that holds entries.
pub proof fn law_sidebar_links_pages(
    entries: Seq<SourceEntry>,
    prefix: Seq<Seq<char>>,
    locale: Seq<char>,
    pages: Seq<PageInfo>,
)
    ensures
        forall|i: int| 0 <= i < built(entries, prefix, locale, pages).len() ==> node_ok(
            #[trigger] built(entries, prefix, locale, pages)[i],
            locale,
            pages,
        ),
{
    lemma_built_ok(entries, prefix, locale, pages);
}

/// The entries of a generated sidebar come in frontmatter `order`, then
/// text order, and entries equal in both keep the order of their file
/// names: they are the nodes of the tagged entries of the directory, all of
/// them and nothing else, sorted by `(order, text)` from their name order.
pub proof fn law_sidebar_order(
    entries: Seq<SourceEntry>,
    prefix: Seq<Seq<char>>,
    locale: Seq<char>,
    pages: Seq<PageInfo>,
    k: SortKey,
)
    ensures
        ({
            let all: Seq<Tagged> = collected(entries, prefix, locale, pages);
            let named: Seq<Tagged> = sorted_by(all, by_name());
            let ordered: Seq<Tagged> = sorted_by(named, by_order());
            &&& ordered.map_values(node_of()) == built(entries, prefix, locale, pages)
            &&& is_sorted_by(ordered, by_order())
            &&& ordered.to_multiset() == all.to_multiset()
            &&& is_sorted_by(named, by_name())
            &&& ordered.filter(with_key(by_order(), k)) == named.filter(with_key(by_order(), k))
        }),
{
    let all: Seq<Tagged> = collected(entries, prefix, locale, pages);
    let named: Seq<Tagged> = sorted_by(all, by_name());
    law_sorted_by(all, by_name());
    law_sorted_by(named, by_order());
    law_sorted_stable(named, by_order(), k);
}

/// The frontmatter `order` a sidebar node sorts by: that of the page it
/// links, `0` for a group without a page.
pub open spec fn order_at(v: SideView, locale: Seq<char>, pages: Seq<PageInfo>) -> int {
    match v.link {
        Some(r) => pages[first_index(pages, page_at(r, locale))].order as int,
        None => 0,
    }
}

/// Each collected node is tagged with its order.
proof fn lemma_collected_tags(entries: Seq<SourceEntry>, prefix: Seq<Seq<char>>, locale: Seq<char>, pages: Seq<PageInfo>)
    ensures
        forall|i: int| 0 <= i < collected(entries, prefix, locale, pages).len() ==> (#[trigger] collected(
            entries,
            prefix,
            locale,
            pages,
        )[i]).0 == order_at(collected(entries, prefix, locale, pages)[i].2, locale, pages),
    decreases entries.len(),
{
    if entries.len() > 0 {
        lemma_collected_tags(entries.drop_last(), prefix, locale, pages);
        let rest: Seq<Tagged> = collected(entries.drop_last(), prefix, locale, pages);
        match entry_node(entries.last(), prefix, locale, pages) {
            Some(t) => {
                assert(t.0 == order_at(t.2, locale, pages));
                assert forall|i: int| 0 <= i < rest.push(t).len() implies (#[trigger] rest.push(t)[i]).0
                    == order_at(rest.push(t)[i].2, locale, pages) by {
                    if i < rest.len() {
                        assert(rest.push(t)[i] == rest[i]);
                    }
                }
            },
            None => {},
        }
    }
}

/// The entries of a generated sidebar come by the frontmatter `order` of
/// the pages they link (`0` for a group without a page), and among equal
/// orders by their text.
pub proof fn law_sidebar_sorted(
    entries: Seq<SourceEntry>,
    prefix: Seq<Seq<char>>,
    locale: Seq<char>,
    pages: Seq<PageInfo>,
)
    ensures
        ({
            let b: Seq<SideView> = built(entries, prefix, locale, pages);
            forall|i: int, j: int|
                0 <= i < j < b.len() ==> {
                    &&& order_at(#[trigger] b[i], locale, pages) <= order_at(#[trigger] b[j], locale, pages)
                    &&& order_at(b[i], locale, pages) == order_at(b[j], locale, pages) ==> !text_lt(
                        b[j].text,
                        b[i].text,
                    )
                }
        }),
{
    broadcast use vstd::seq_lib::to_multiset_contains;

    let all: Seq<Tagged> = collected(entries, prefix, locale, pages);
    let named: Seq<Tagged> = sorted_by(all, by_name());
    let ordered: Seq<Tagged> = sorted_by(named, by_order());
    let b: Seq<SideView> = built(entries, prefix, locale, pages);
    law_sorted_by(all, by_name());
    law_sorted_by(named, by_order());
    lemma_collected_tags(entries, prefix, locale, pages);
    assert forall|i: int| 0 <= i < ordered.len() implies (#[trigger] ordered[i]).0 == order_at(
        ordered[i].2,
        locale,
        pages,
    ) by {
        assert(ordered.to_multiset().count(ordered[i]) > 0);
        assert(named.contains(ordered[i]));
        let j: int = choose|j: int| 0 <= j < named.len() && named[j] == ordered[i];
        assert(named.to_multiset().count(named[j]) > 0);
        assert(all.contains(named[j]));
        let k: int = choose|k: int| 0 <= k < all.len() && all[k] == named[j];
        assert(all[k].0 == order_at(all[k].2, locale, pages));
    }
    assert forall|i: int, j: int| 0 <= i < j < b.len() implies {
        &&& order_at(#[trigger] b[i], locale, pages) <= order_at(#[trigger] b[j], locale, pages)
        &&& order_at(b[i], locale, pages) == order_at(b[j], locale, pages) ==> !text_lt(b[j].text, b[i].text)
    } by {
        assert(b[i] == ordered[i].2 && b[j] == ordered[j].2);
        assert(!key_lt((by_order())(ordered[j]), (by_order())(ordered[i])));
        assert(ordered[i].0 == order_at(ordered[i].2, locale, pages));
        assert(ordered[j].0 == order_at(ordered[j].2, locale, pages));
    }
}

} // verus!
