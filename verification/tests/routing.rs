use euv_docs::data::{DocsLocale, DocsNavItem, DocsPage, DocsSidebarItem, DocsSite, DocsTocItem};
use euv_docs::router::{
    find_page, flat_sidebar_links, locale_of, parse_route, route_in_locale,
};

fn s(x: &str) -> String {
    x.to_string()
}

fn leaf(text: &str, link: &str) -> DocsSidebarItem {
    DocsSidebarItem { text: s(text), link: Some(s(link)), children: Vec::new() }
}

fn page(route: &str, locale: &str, home: bool) -> DocsPage {
    DocsPage {
        route: s(route),
        locale: s(locale),
        title: s("T"),
        blocks: Vec::new(),
        headings: vec![DocsTocItem { level: 2, id: s("install"), text: s("Install") }],
        home,
        hero_text: String::new(),
        tagline: String::new(),
        actions: Vec::new(),
        features: Vec::new(),
        footer: String::new(),
    }
}

fn locale(prefix: &str, label: &str, sidebar: Vec<DocsSidebarItem>) -> DocsLocale {
    DocsLocale {
        prefix: s(prefix),
        lang: s("en-US"),
        label: s(label),
        title: String::new(),
        description: String::new(),
        footer: s("MIT"),
        toc_label: s("On this page"),
        prev_label: s("Previous"),
        next_label: s("Next"),
        navbar: vec![DocsNavItem { text: s("Guide"), link: s("/guide/") }],
        sidebar,
    }
}

fn site() -> DocsSite {
    let root_sidebar = vec![DocsSidebarItem {
        text: s("Guide"),
        link: Some(s("/guide/")),
        children: vec![
            leaf("Getting Started", "/guide/getting-started.html"),
            leaf("Markdown", "/guide/markdown.html"),
        ],
    }];
    let zh_sidebar = vec![DocsSidebarItem {
        text: s("指南"),
        link: Some(s("/zh/guide/")),
        children: vec![leaf("快速上手", "/zh/guide/getting-started.html")],
    }];
    DocsSite {
        title: s("euv-docs"),
        description: String::new(),
        logo: s("📘"),
        locales: vec![locale("/", "English", root_sidebar), locale("/zh/", "简体中文", zh_sidebar)],
        pages: vec![
            page("/", "/", true),
            page("/guide/", "/", false),
            page("/guide/getting-started.html", "/", false),
            page("/guide/markdown.html", "/", false),
            page("/zh/", "/zh/", true),
            page("/zh/guide/", "/zh/", false),
            page("/zh/guide/getting-started.html", "/zh/", false),
        ],
    }
}

#[test]
fn parse_route_splits_anchor() {
    assert_eq!(
        parse_route("/guide/a.html#install"),
        (s("/guide/a.html"), Some(s("install")))
    );
}

#[test]
fn parse_route_without_anchor() {
    assert_eq!(parse_route("/guide/"), (s("/guide/"), None));
}

#[test]
fn parse_route_empty_anchor_is_none() {
    assert_eq!(parse_route("/guide/#"), (s("/guide/"), None));
}

#[test]
fn parse_route_splits_at_first_hash() {
    assert_eq!(parse_route("/a#b#c"), (s("/a"), Some(s("b#c"))));
}

#[test]
fn locale_of_picks_prefix_owner() {
    let site = site();
    assert_eq!(locale_of(&site, "/zh/guide/"), 1);
    assert_eq!(locale_of(&site, "/guide/"), 0);
    assert_eq!(locale_of(&site, "/zhx/"), 0);
}

#[test]
fn locale_of_prefers_longest_prefix() {
    let mut site = site();
    site.locales.push(locale("/zh/tw/", "繁體中文", Vec::new()));
    site.locales.push(locale("/ja/", "日本語", Vec::new()));
    assert_eq!(locale_of(&site, "/zh/tw/guide/"), 2);
    assert_eq!(locale_of(&site, "/zh/guide/"), 1);
    assert_eq!(locale_of(&site, "/ja/"), 3);
}

#[test]
fn locale_of_falls_back_to_root_then_first() {
    let mut site = site();
    site.locales.swap(0, 1);
    assert_eq!(locale_of(&site, "/guide/"), 1);
    site.locales.remove(1);
    assert_eq!(locale_of(&site, "/guide/"), 0);
}

#[test]
fn find_page_exact_and_with_slash() {
    let site = site();
    assert_eq!(find_page(&site, "/guide/getting-started.html"), Some(2));
    assert_eq!(find_page(&site, "/guide"), Some(1));
    assert_eq!(find_page(&site, "/zh"), Some(4));
    assert_eq!(find_page(&site, "/"), Some(0));
}

#[test]
fn find_page_missing() {
    let site = site();
    assert_eq!(find_page(&site, "/guide/nope.html"), None);
    assert_eq!(find_page(&site, "/nope/"), None);
    assert_eq!(find_page(&site, "/nope"), None);
}

#[test]
fn flat_sidebar_links_lists_leaves_in_order() {
    let site = site();
    let links = flat_sidebar_links(&site.locales[0].sidebar);
    let pairs: Vec<(String, String)> =
        links.into_iter().map(|l| (l.text, l.link)).collect();
    assert_eq!(
        pairs,
        vec![
            (s("Getting Started"), s("/guide/getting-started.html")),
            (s("Markdown"), s("/guide/markdown.html")),
        ]
    );
}

#[test]
fn flat_sidebar_links_skips_linkless_leaves() {
    let items = vec![
        DocsSidebarItem { text: s("Loose"), link: None, children: Vec::new() },
        DocsSidebarItem {
            text: s("Group"),
            link: None,
            children: vec![DocsSidebarItem {
                text: s("Inner"),
                link: None,
                children: vec![leaf("Deep", "/a/b/c.html")],
            }],
        },
        leaf("Top", "/top.html"),
    ];
    let links = flat_sidebar_links(&items);
    let routes: Vec<String> = links.into_iter().map(|l| l.link).collect();
    assert_eq!(routes, vec![s("/a/b/c.html"), s("/top.html")]);
}

#[test]
fn route_in_locale_keeps_translated_page() {
    let site = site();
    assert_eq!(
        route_in_locale(&site, "/guide/getting-started.html", &site.locales[1]),
        s("/zh/guide/getting-started.html")
    );
    assert_eq!(
        route_in_locale(&site, "/zh/guide/getting-started.html", &site.locales[0]),
        s("/guide/getting-started.html")
    );
}

#[test]
fn route_in_locale_falls_back_to_locale_home() {
    let site = site();
    assert_eq!(route_in_locale(&site, "/guide/markdown.html", &site.locales[1]), s("/zh/"));
}

#[test]
fn route_in_locale_maps_homes() {
    let site = site();
    assert_eq!(route_in_locale(&site, "/", &site.locales[1]), s("/zh/"));
    assert_eq!(route_in_locale(&site, "/zh/", &site.locales[0]), s("/"));
}

#[test]
fn route_in_locale_round_trip() {
    let site = site();
    let there = route_in_locale(&site, "/guide/", &site.locales[1]);
    assert_eq!(there, s("/zh/guide/"));
    assert_eq!(route_in_locale(&site, &there, &site.locales[0]), s("/guide/"));
}
