//! The collapsible sidebar tree.
//!
//! A group is identified by its key `<parent key>/<text>`; a group is open
//! unless its key is in the collapsed list, and only an open group shows its
//! children. Clicking a group row toggles its key in the collapsed list.

use vstd::prelude::*;

use crate::data::{DocsSidebarItem, DocsSite};
use crate::lookup::{first_index, lemma_first_index, lemma_first_index_at, lemma_first_index_none};
use crate::router::{locale_index, locale_of, parse_route, route_path};
use crate::text::{concat, contains_str, lemma_strings_view_push, str_eq, strings_view};

verus! {

/// One rendered sidebar node.
pub enum SidebarNode {
    /// A childless item without a link: nothing is shown.
    Empty,
    /// A leaf link.
    Link {
        /// Display text.
        text: String,
        /// Target route.
        link: String,
        /// `#<route>` href.
        href: String,
        /// Whether the link is the current page.
        active: bool,
    },
    /// A collapsible group.
    Group {
        /// The group key, toggled in the collapsed list.
        key: String,
        /// Whether the group is expanded.
        open: bool,
        /// Title text.
        text: String,
        /// Index page of the group, if any (the title then links to it).
        index_link: Option<String>,
        /// The rendered children (none while the group is collapsed).
        children: Vec<SidebarNode>,
    },
}

/// The key of a group titled `text` under the parent key `prefix`.
pub open spec fn group_key(prefix: Seq<char>, text: Seq<char>) -> Seq<char> {
    prefix + "/"@ + text
}

/// Whether `n` renders sidebar item `item` on page path `path`, under parent
/// key `prefix`, with collapsed keys `collapsed`.
pub open spec fn renders_item(
    item: DocsSidebarItem,
    path: Seq<char>,
    prefix: Seq<char>,
    collapsed: Seq<Seq<char>>,
    n: SidebarNode,
) -> bool
    decreases item,
{
    if item.children.len() == 0 {
        match item.link {
            None => n is Empty,
            Some(l) => match n {
                SidebarNode::Link { text, link, href, active } => {
                    &&& text@ == item.text@
                    &&& link@ == l@
                    &&& href@ == "#"@ + l@
                    &&& active == (path == l@)
                },
                _ => false,
            },
        }
    } else {
        let key: Seq<char> = group_key(prefix, item.text@);
        match n {
            SidebarNode::Group { key: k, open, text, index_link, children } => {
                &&& k@ == key
                &&& open == !collapsed.contains(key)
                &&& text@ == item.text@
                &&& match (index_link, item.link) {
                    (Some(a), Some(b)) => a@ == b@,
                    (None, None) => true,
                    _ => false,
                }
                &&& if open {
                    renders_items(item.children@, path, key, collapsed, children@)
                } else {
                    children.len() == 0
                }
            },
            _ => false,
        }
    }
}

/// Whether `ns` renders the sidebar items `items`, one node per item.
pub open spec fn renders_items(
    items: Seq<DocsSidebarItem>,
    path: Seq<char>,
    prefix: Seq<char>,
    collapsed: Seq<Seq<char>>,
    ns: Seq<SidebarNode>,
) -> bool
    decreases items,
{
    &&& items.len() == ns.len()
    &&& forall|i: int| 0 <= i < items.len() ==> renders_item(#[trigger] items[i], path, prefix, collapsed, ns[i])
}

/// Renders the sidebar tree for the current locale (or the given items),
/// with nested group keys under `prefix`.
pub fn docs_sidebar_tree(
    site: &DocsSite,
    route: &str,
    items: Option<&Vec<DocsSidebarItem>>,
    prefix: &str,
    collapsed: &Vec<String>,
) -> (res: Vec<SidebarNode>)
    requires
        site.locales.len() > 0,
    ensures
        renders_items(
            match items {
                Some(v) => v@,
                None => site.locales@[locale_index(site.locales@, route_path(route@))].sidebar@,
            },
            route_path(route@),
            prefix@,
            strings_view(collapsed@),
            res@,
        ),
{
    let (path, _anchor) = parse_route(route);
    let list: &Vec<DocsSidebarItem> = match items {
        Some(v) => v,
        None => {
            let li: usize = locale_of(site, path.as_str());
            &site.locales[li].sidebar
        },
    };
    sidebar_nodes(route, list, prefix, collapsed)
}

/// Renders each item of a sidebar list.
fn sidebar_nodes(route: &str, items: &Vec<DocsSidebarItem>, prefix: &str, collapsed: &Vec<String>) -> (res:
    Vec<SidebarNode>)
    ensures
        renders_items(items@, route_path(route@), prefix@, strings_view(collapsed@), res@),
    decreases items,
{
    let mut out: Vec<SidebarNode> = Vec::new();
    let n: usize = items.len();
    let mut i: usize = 0;
    while i < n
        invariant
            n == items.len(),
            i <= n,
            out.len() == i,
            forall|j: int|
                0 <= j < i ==> renders_item(
                    #[trigger] items@[j],
                    route_path(route@),
                    prefix@,
                    strings_view(collapsed@),
                    out@[j],
                ),
        decreases n - i,
    {
        out.push(docs_sidebar_item(route, &items[i], prefix, collapsed));
        i = i + 1;
    }
    out
}

/// Renders one sidebar node: a leaf link (active on its own page) or a
/// collapsible group whose children show while it is open.
pub fn docs_sidebar_item(route: &str, item: &DocsSidebarItem, prefix: &str, collapsed: &Vec<String>) -> (res:
    SidebarNode)
    ensures
        renders_item(*item, route_path(route@), prefix@, strings_view(collapsed@), res),
    decreases item,
{
    let (path, _anchor) = parse_route(route);
    if item.children.len() == 0 {
        return match &item.link {
            None => SidebarNode::Empty,
            Some(link) => SidebarNode::Link {
                text: item.text.clone(),
                link: link.clone(),
                href: concat("#", link.as_str()),
                active: str_eq(path.as_str(), link.as_str()),
            },
        };
    }
    let head: String = concat(prefix, "/");
    let key: String = concat(head.as_str(), item.text.as_str());
    let open: bool = !contains_str(collapsed, key.as_str());
    let children: Vec<SidebarNode> = if open {
        sidebar_nodes(route, &item.children, key.as_str(), collapsed)
    } else {
        Vec::new()
    };
    let link: Option<String> = match &item.link {
        Some(l) => Some(l.clone()),
        None => None,
    };
    SidebarNode::Group { key, open, text: item.text.clone(), index_link: link, children }
}

/// What a click on a group's index link does.
pub struct ClickEffect {
    /// Whether the browser's default action is prevented.
    pub prevent_default: bool,
    /// Whether the event stops bubbling (so the row does not toggle).
    pub stop_propagation: bool,
    /// The route navigated to.
    pub navigate: String,
}

/// Navigates to a group index page without toggling the group: the event
/// neither reaches the row's toggle handler nor follows the href.
pub fn nav_without_toggle(link: &str) -> (res: ClickEffect)
    ensures
        res.prevent_default,
        res.stop_propagation,
        res.navigate@ == link@,
{
    ClickEffect { prevent_default: true, stop_propagation: true, navigate: link.to_owned() }
}

// ─── Collapsed keys ─────────────────────────────────────────────────────────

/// The predicate "equals `key`".
pub open spec fn is_key(key: Seq<char>) -> spec_fn(Seq<char>) -> bool {
    |k: Seq<char>| k == key
}

/// The collapsed list after toggling `key`: its first occurrence removed, or
/// `key` appended when absent.
pub open spec fn toggled(v: Seq<Seq<char>>, key: Seq<char>) -> Seq<Seq<char>> {
    let i: int = first_index(v, is_key(key));
    if i >= 0 {
        v.remove(i)
    } else {
        v.push(key)
    }
}

/// Position of the first occurrence of `key` in the list.
fn key_position(collapsed: &Vec<String>, key: &str) -> (res: Option<usize>)
    ensures
        match res {
            Some(p) => p == first_index(strings_view(collapsed@), is_key(key@)),
            None => first_index(strings_view(collapsed@), is_key(key@)) == -1,
        },
{
    let ghost v: Seq<Seq<char>> = strings_view(collapsed@);
    let n: usize = collapsed.len();
    let mut i: usize = 0;
    while i < n
        invariant
            n == collapsed.len(),
            v == strings_view(collapsed@),
            i <= n,
            forall|j: int| 0 <= j < i ==> !(is_key(key@))(#[trigger] v[j]),
        decreases n - i,
    {
        assert(v[i as int] == collapsed@[i as int]@);
        if str_eq(collapsed[i].as_str(), key) {
            proof {
                lemma_first_index_at(v, is_key(key@), i as int);
            }
            return Some(i);
        }
        i = i + 1;
    }
    proof {
        lemma_first_index_none(v, is_key(key@));
    }
    None
}

/// Toggles a sidebar group's collapsed state.
pub fn toggle_group(collapsed: &Vec<String>, key: &str) -> (res: Vec<String>)
    ensures
        strings_view(res@) == toggled(strings_view(collapsed@), key@),
{
    let ghost v: Seq<Seq<char>> = strings_view(collapsed@);
    let n: usize = collapsed.len();
    let pos: Option<usize> = key_position(collapsed, key);
    let mut out: Vec<String> = Vec::new();
    match pos {
        Some(p) => {
            proof {
                lemma_first_index(v, is_key(key@));
            }
            let mut j: usize = 0;
            while j < n
                invariant
                    n == collapsed.len(),
                    v == strings_view(collapsed@),
                    p < n,
                    j <= n,
                    strings_view(out@) == if j <= p {
                        v.take(j as int)
                    } else {
                        v.take(j as int).remove(p as int)
                    },
                decreases n - j,
            {
                assert(v[j as int] == collapsed@[j as int]@);
                let ghost before: Seq<String> = out@;
                if j != p {
                    let c: String = collapsed[j].clone();
                    out.push(c);
                    proof {
                        lemma_strings_view_push(before, c);
                    }
                }
                proof {
                    if j < p {
                        assert(v.take(j + 1) =~= v.take(j as int).push(v[j as int]));
                    } else if j == p {
                        assert(v.take(j + 1).remove(p as int) =~= v.take(j as int));
                    } else {
                        assert(v.take(j + 1).remove(p as int) =~= v.take(j as int).remove(
                            p as int,
                        ).push(v[j as int]));
                    }
                }
                j = j + 1;
            }
            assert(v.take(n as int) =~= v);
        },
        None => {
            let mut j: usize = 0;
            while j < n
                invariant
                    n == collapsed.len(),
                    v == strings_view(collapsed@),
                    j <= n,
                    strings_view(out@) == v.take(j as int),
                decreases n - j,
            {
                assert(v[j as int] == collapsed@[j as int]@);
                let ghost before: Seq<String> = out@;
                let c: String = collapsed[j].clone();
                out.push(c);
                proof {
                    lemma_strings_view_push(before, c);
                    assert(v.take(j + 1) =~= v.take(j as int).push(v[j as int]));
                }
                j = j + 1;
            }
            let ghost before: Seq<String> = out@;
            let k: String = key.to_owned();
            out.push(k);
            proof {
                lemma_strings_view_push(before, k);
                assert(v.take(n as int) =~= v);
            }
        },
    }
    out
}

/// Whether no key occurs twice.
pub open spec fn no_dups(v: Seq<Seq<char>>) -> bool {
    forall|i: int, j: int| 0 <= i < j < v.len() ==> v[i] != v[j]
}

/// Toggling a group flips whether its key is collapsed, leaves every other
/// key as it was, and keeps the keys unique.
pub proof fn law_toggle_flips(v: Seq<Seq<char>>, key: Seq<char>, other: Seq<char>)
    requires
        no_dups(v),
    ensures
        toggled(v, key).contains(key) == !v.contains(key),
        other != key ==> toggled(v, key).contains(other) == v.contains(other),
        no_dups(toggled(v, key)),
{
    lemma_first_index(v, is_key(key));
    let i: int = first_index(v, is_key(key));
    let t: Seq<Seq<char>> = toggled(v, key);
    if i >= 0 {
        assert(v.contains(key)) by {
            assert(v[i] == key);
        }
        assert forall|k: int| 0 <= k < t.len() implies t[k] != key by {
            if k < i {
                assert(t[k] == v[k]);
            } else {
                assert(t[k] == v[k + 1]);
            }
        }
        if other != key {
            if v.contains(other) {
                let j: int = choose|j: int| 0 <= j < v.len() && v[j] == other;
                if j < i {
                    assert(t[j] == other);
                } else {
                    assert(j != i);
                    assert(t[j - 1] == other);
                }
            }
            if t.contains(other) {
                let k: int = choose|k: int| 0 <= k < t.len() && t[k] == other;
                if k < i {
                    assert(v[k] == other);
                } else {
                    assert(v[k + 1] == other);
                }
            }
        }
        assert forall|a: int, b: int| 0 <= a < b < t.len() implies t[a] != t[b] by {
            let a2: int = if a < i {
                a
            } else {
                a + 1
            };
            let b2: int = if b < i {
                b
            } else {
                b + 1
            };
            assert(t[a] == v[a2] && t[b] == v[b2]);
        }
    } else {
        assert(t[v.len() as int] == key);
        assert(!v.contains(key)) by {
            if v.contains(key) {
                let j: int = choose|j: int| 0 <= j < v.len() && v[j] == key;
                assert(!(is_key(key))(v[j]));
            }
        }
        if other != key {
            if v.contains(other) {
                let j: int = choose|j: int| 0 <= j < v.len() && v[j] == other;
                assert(t[j] == other);
            }
            if t.contains(other) {
                let k: int = choose|k: int| 0 <= k < t.len() && t[k] == other;
                assert(v[k] == other);
            }
        }
        assert forall|a: int, b: int| 0 <= a < b < t.len() implies t[a] != t[b] by {
            if b == v.len() {
                assert(!(is_key(key))(v[a]));
            }
        }
    }
}

/// Toggling a group twice restores the set of collapsed keys; when the key
/// was not collapsed, it restores the list itself.
pub proof fn law_toggle_twice(v: Seq<Seq<char>>, key: Seq<char>)
    requires
        no_dups(v),
    ensures
        toggled(toggled(v, key), key).to_set() == v.to_set(),
        !v.contains(key) ==> toggled(toggled(v, key), key) == v,
{
    let t: Seq<Seq<char>> = toggled(v, key);
    law_toggle_flips(v, key, key);
    assert forall|x: Seq<char>| toggled(t, key).to_set().contains(x) == v.to_set().contains(x) by {
        law_toggle_flips(v, key, x);
        law_toggle_flips(t, key, x);
    }
    assert(toggled(t, key).to_set() =~= v.to_set());
    if !v.contains(key) {
        lemma_first_index(v, is_key(key));
        if first_index(v, is_key(key)) >= 0 {
            assert(v[first_index(v, is_key(key))] == key);
        }
        assert(t == v.push(key));
        lemma_first_index(t, is_key(key));
        assert forall|j: int| 0 <= j < v.len() implies !(is_key(key))(#[trigger] t[j]) by {
            assert(t[j] == v[j]);
            if t[j] == key {
                assert(v.contains(key));
            }
        }
        lemma_first_index_at(t, is_key(key), v.len() as int);
        assert(toggled(t, key) =~= v);
    }
}

} // verus!
