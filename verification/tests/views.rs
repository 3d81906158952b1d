use euv_docs::data::{
    DocsBlock, DocsInline, DocsLocale, DocsNavItem, DocsPage, DocsSidebarItem, DocsSite,
    DocsTocItem,
};
use euv_docs::doc_page::{docs_doc_page, docs_main, prev_next, PageKind};
use euv_docs::home_page::docs_home_page;
use euv_docs::layout::{
    app, docs_shell, drawer_navigate, locale_menu_node, route_is_home, schedule_scroll,
    switch_locale, toggle_menu, use_anchor_scroll, ScrollTarget, ThemeIcon,
};
use euv_docs::md::{render_md_block, render_md_inline, AttrName, HtmlNode, HtmlTag};
use euv_docs::navbar::{docs_navbar, docs_navbar_link, toggle_drawer};
use euv_docs::not_found::docs_not_found;
use euv_docs::sidebar::{
    docs_sidebar_item, docs_sidebar_tree, nav_without_toggle, toggle_group, SidebarNode,
};
use euv_docs::toc::docs_toc;

fn s(x: &str) -> String {
    x.to_string()
}

fn leaf(text: &str, link: &str) -> DocsSidebarItem {
    DocsSidebarItem { text: s(text), link: Some(s(link)), children: Vec::new() }
}

fn page(route: &str, locale: &str, home: bool) -> DocsPage {
    DocsPage {
        route: s(route),
        locale: s(locale),
        title: s("T"),
        blocks: Vec::new(),
        headings: vec![DocsTocItem { level: 2, id: s("install"), text: s("Install") }],
        home,
        hero_text: String::new(),
        tagline: String::new(),
        actions: Vec::new(),
        features: Vec::new(),
        footer: String::new(),
    }
}

fn locale(prefix: &str, label: &str, sidebar: Vec<DocsSidebarItem>) -> DocsLocale {
    DocsLocale {
        prefix: s(prefix),
        lang: s("en-US"),
        label: s(label),
        title: String::new(),
        description: String::new(),
        footer: s("MIT"),
        toc_label: s("On this page"),
        prev_label: s("Previous"),
        next_label: s("Next"),
        navbar: vec![DocsNavItem { text: s("Guide"), link: s("/guide/") }],
        sidebar,
    }
}

fn site() -> DocsSite {
    let root_sidebar = vec![DocsSidebarItem {
        text: s("Guide"),
        link: Some(s("/guide/")),
        children: vec![
            leaf("Getting Started", "/guide/getting-started.html"),
            leaf("Markdown", "/guide/markdown.html"),
        ],
    }];
    let zh_sidebar = vec![DocsSidebarItem {
        text: s("指南"),
        link: Some(s("/zh/guide/")),
        children: vec![leaf("快速上手", "/zh/guide/getting-started.html")],
    }];
    DocsSite {
        title: s("euv-docs"),
        description: String::new(),
        logo: s("📘"),
        locales: vec![locale("/", "English", root_sidebar), locale("/zh/", "简体中文", zh_sidebar)],
        pages: vec![
            page("/", "/", true),
            page("/guide/", "/", false),
            page("/guide/getting-started.html", "/", false),
            page("/guide/markdown.html", "/", false),
            page("/zh/", "/zh/", true),
            page("/zh/guide/", "/zh/", false),
            page("/zh/guide/getting-started.html", "/zh/", false),
        ],
    }
}


#[test]
fn docs_main_routes_kinds() {
    let site = site();
    let home = docs_main(&site, "/#top");
    assert_eq!(home.kind, PageKind::Home);
    assert_eq!(home.key, s("/"));
    assert_eq!(docs_main(&site, "/guide").kind, PageKind::Doc);
    assert_eq!(docs_main(&site, "/missing.html").kind, PageKind::NotFound);
}

#[test]
fn prev_next_neighbours() {
    let site = site();
    let (prev, next) = prev_next(&site.locales[0], "/guide/getting-started.html");
    assert!(prev.is_none());
    let next = next.unwrap();
    assert_eq!(next.link, s("/guide/markdown.html"));
    assert_eq!(next.text, s("Markdown"));
    let (prev, next) = prev_next(&site.locales[0], "/guide/markdown.html");
    assert_eq!(prev.unwrap().link, s("/guide/getting-started.html"));
    assert!(next.is_none());
}

#[test]
fn prev_next_of_unlisted_route() {
    let site = site();
    let (prev, next) = prev_next(&site.locales[0], "/guide/");
    assert!(prev.is_none() && next.is_none());
}

#[test]
fn doc_page_view_uses_locale_footer_and_toc() {
    let site = site();
    let v = docs_doc_page(&site, "/guide/getting-started.html#install").unwrap();
    assert_eq!(v.page, 2);
    assert_eq!(v.locale, 0);
    assert_eq!(v.footer, s("MIT"));
    assert_eq!(v.toc_items.len(), 1);
    assert_eq!(v.toc_items[0].href, s("#/guide/getting-started.html#install"));
    assert_eq!(v.toc_items[0].text, s("Install"));
    assert_eq!(v.next.unwrap().link, s("/guide/markdown.html"));
}

#[test]
fn doc_page_view_prefers_page_footer() {
    let mut site = site();
    site.pages[3].footer = s("Page footer");
    let v = docs_doc_page(&site, "/guide/markdown.html").unwrap();
    assert_eq!(v.footer, s("Page footer"));
    assert!(docs_doc_page(&site, "/missing.html").is_none());
}

#[test]
fn home_page_hero_title_fallbacks() {
    let mut site = site();
    let v = docs_home_page(&site, "/").unwrap();
    assert_eq!(v.hero_title, s("euv-docs"));
    assert!(!v.show_body);
    assert_eq!(v.footer, s("MIT"));
    assert!(v.show_footer);
    site.locales[0].title = s("Docs");
    assert_eq!(docs_home_page(&site, "/").unwrap().hero_title, s("Docs"));
    site.pages[0].hero_text = s("Hello");
    assert_eq!(docs_home_page(&site, "/").unwrap().hero_title, s("Hello"));
    site.locales[0].footer = String::new();
    assert!(!docs_home_page(&site, "/").unwrap().show_footer);
}

#[test]
fn not_found_links_locale_home() {
    let site = site();
    let v = docs_not_found(&site, "/zh/nope.html");
    assert_eq!(v.locale, 1);
    assert_eq!(v.home_href, s("#/zh/"));
    assert_eq!(v.home_link, s("/zh/"));
}

#[test]
fn toc_links_carry_full_hash() {
    let mut site = site();
    site.pages[2].headings.push(DocsTocItem { level: 3, id: s("usage"), text: s("Usage") });
    let v = docs_toc(&site, "/guide/getting-started.html").unwrap();
    assert_eq!(v.links.len(), 2);
    assert!(!v.links[0].h3);
    assert!(v.links[1].h3);
    assert_eq!(v.links[1].href, s("#/guide/getting-started.html#usage"));
    assert_eq!(v.links[1].key, s("usage"));
}

#[test]
fn toc_absent_without_headings() {
    let mut site = site();
    site.pages[2].headings.clear();
    assert!(docs_toc(&site, "/guide/getting-started.html").is_none());
    assert!(docs_toc(&site, "/missing.html").is_none());
}

#[test]
fn shell_layout_for_home_and_doc() {
    let site = site();
    let home = app(&site, "/", "dark");
    assert!(home.home_layout);
    assert!(!home.show_sidebar);
    assert_eq!(home.theme_icon, ThemeIcon::Sun);
    assert_eq!(home.brand_title, s("euv-docs"));
    assert_eq!(home.brand_href, s("/"));
    let doc = app(&site, "/zh/guide/", "light");
    assert!(!doc.home_layout);
    assert!(doc.show_sidebar);
    assert_eq!(doc.theme_icon, ThemeIcon::Moon);
    assert_eq!(doc.locale, 1);
    assert_eq!(doc.locale_menu.len(), 2);
    assert!(route_is_home(&site, "/zh/"));
    assert!(!route_is_home(&site, "/zh/guide/"));
    let shell = docs_shell(&site, "/guide/", true, "dark");
    assert!(shell.home_layout);
    assert!(shell.show_sidebar);
}

#[test]
fn locale_menu_lists_locales() {
    let mut site = site();
    let items = locale_menu_node(&site);
    assert_eq!(items[1].label, s("简体中文"));
    assert_eq!(items[1].value, s("/zh/"));
    site.locales.truncate(1);
    assert!(locale_menu_node(&site).is_empty());
}

#[test]
fn switch_locale_by_prefix() {
    let site = site();
    assert_eq!(
        switch_locale(&site, "/guide/getting-started.html#x", "/zh/"),
        Some(s("/zh/guide/getting-started.html"))
    );
    assert_eq!(switch_locale(&site, "/guide/", "/fr/"), None);
    assert_eq!(
        euv_docs::navbar::switch_locale(&site, "/zh/guide/#a", &site.locales[0]),
        s("/guide/")
    );
}

#[test]
fn menu_and_drawer_toggles() {
    assert!(toggle_menu(false));
    assert!(!toggle_menu(true));
    assert!(toggle_drawer(false));
    assert_eq!(drawer_navigate("/guide/"), Some(s("/guide/")));
}

#[test]
fn anchor_scroll_targets() {
    assert_eq!(use_anchor_scroll("/guide/#install"), Some(s("install")));
    assert_eq!(use_anchor_scroll("/guide/"), None);
    assert!(matches!(schedule_scroll(Some(s("install")), true), ScrollTarget::Element(id) if id == "install"));
    assert!(matches!(schedule_scroll(Some(s("install")), false), ScrollTarget::Top));
    assert!(matches!(schedule_scroll(None, true), ScrollTarget::Top));
}

#[test]
fn navbar_links_active_and_external() {
    let site = site();
    let internal = DocsNavItem { text: s("Guide"), link: s("/guide/") };
    let v = docs_navbar_link("/guide/markdown.html", &internal);
    assert!(v.active && !v.external);
    assert_eq!(v.href, s("#/guide/"));
    let ext = DocsNavItem { text: s("GitHub"), link: s("https://github.com/") };
    let v = docs_navbar_link("/guide/", &ext);
    assert!(v.external && !v.active);
    assert_eq!(v.href, s("https://github.com/"));
    let home = DocsNavItem { text: s("Home"), link: s("/") };
    assert!(!docs_navbar_link("/guide/", &home).active);
    let nav = docs_navbar(&site, "/zh/guide/", true, "dark");
    assert_eq!(nav.brand_href, s("#/zh/"));
    assert_eq!(nav.brand_link, s("/zh/"));
    assert!(nav.show_locale_menu);
    assert_eq!(nav.locale_items.len(), 2);
    assert_eq!(nav.links.len(), 1);
    assert!(!nav.links[0].active);
    let closed = docs_navbar(&site, "/guide/", false, "light");
    assert!(closed.locale_items.is_empty());
    assert!(closed.links[0].active);
}

#[test]
fn sidebar_tree_groups_and_collapse() {
    let site = site();
    let nodes = docs_sidebar_tree(&site, "/guide/markdown.html", None, "", &Vec::new());
    assert_eq!(nodes.len(), 1);
    match &nodes[0] {
        SidebarNode::Group { key, open, index_link, children, .. } => {
            assert_eq!(key, "/Guide");
            assert!(*open);
            assert_eq!(index_link.as_deref(), Some("/guide/"));
            assert_eq!(children.len(), 2);
            match &children[1] {
                SidebarNode::Link { href, active, .. } => {
                    assert_eq!(href, "#/guide/markdown.html");
                    assert!(*active);
                }
                _ => panic!("expected a link"),
            }
        }
        _ => panic!("expected a group"),
    }
    let collapsed = vec![s("/Guide")];
    let nodes = docs_sidebar_tree(&site, "/guide/", None, "", &collapsed);
    match &nodes[0] {
        SidebarNode::Group { open, children, .. } => {
            assert!(!*open);
            assert!(children.is_empty());
        }
        _ => panic!("expected a group"),
    }
}

#[test]
fn sidebar_item_without_link_is_empty() {
    let item = DocsSidebarItem { text: s("Loose"), link: None, children: Vec::new() };
    assert!(matches!(docs_sidebar_item("/", &item, "", &Vec::new()), SidebarNode::Empty));
    let effect = nav_without_toggle("/guide/");
    assert!(effect.prevent_default && effect.stop_propagation);
    assert_eq!(effect.navigate, s("/guide/"));
}

#[test]
fn toggle_group_adds_and_removes() {
    let v = toggle_group(&Vec::new(), "/Guide");
    assert_eq!(v, vec![s("/Guide")]);
    let v = toggle_group(&vec![s("/A"), s("/Guide"), s("/B")], "/Guide");
    assert_eq!(v, vec![s("/A"), s("/B")]);
    let twice = toggle_group(&toggle_group(&vec![s("/A")], "/B"), "/B");
    assert_eq!(twice, vec![s("/A")]);
}

#[test]
fn render_code_block_and_heading() {
    let code = DocsBlock::CodeBlock { lang: s("rust"), code: s("fn main() {}") };
    match render_md_block(&code) {
        HtmlNode::Element { tag, attrs, children } => {
            assert_eq!(tag, HtmlTag::Pre);
            assert_eq!(attrs[0].name, AttrName::Class);
            assert_eq!(attrs[0].value, s("language-rust"));
            assert_eq!(children.len(), 1);
        }
        _ => panic!("expected an element"),
    }
    let h = DocsBlock::Heading {
        level: 9,
        id: s("intro"),
        href: s("#/guide/#intro"),
        inline: vec![DocsInline::Text(s("Intro"))],
    };
    match render_md_block(&h) {
        HtmlNode::Element { tag, attrs, children } => {
            assert_eq!(tag, HtmlTag::H6);
            assert_eq!(attrs[0].value, s("intro"));
            assert_eq!(children.len(), 2);
            assert!(matches!(&children[1], HtmlNode::Text(t) if t == "Intro"));
        }
        _ => panic!("expected an element"),
    }
}

#[test]
fn render_container_and_table() {
    let c = DocsBlock::Container {
        kind: s("tip"),
        title: s("TIP"),
        blocks: vec![DocsBlock::Rule],
    };
    match render_md_block(&c) {
        HtmlNode::Element { tag, attrs, children } => {
            assert_eq!(tag, HtmlTag::Div);
            assert_eq!(attrs[0].value, s("docs-container tip"));
            assert_eq!(children.len(), 2);
        }
        _ => panic!("expected an element"),
    }
    let t = DocsBlock::Table {
        head: vec![vec![DocsInline::Text(s("A"))]],
        rows: vec![vec![vec![DocsInline::Text(s("1"))]], vec![vec![DocsInline::Text(s("2"))]]],
    };
    match render_md_block(&t) {
        HtmlNode::Element { tag, children, .. } => {
            assert_eq!(tag, HtmlTag::Table);
            match &children[1] {
                HtmlNode::Element { tag, children, .. } => {
                    assert_eq!(*tag, HtmlTag::Tbody);
                    assert_eq!(children.len(), 2);
                }
                _ => panic!("expected tbody"),
            }
        }
        _ => panic!("expected an element"),
    }
}

#[test]
fn render_inline_links_and_markers() {
    let ext = DocsInline::Link {
        href: s("https://x.dev"),
        external: true,
        children: vec![DocsInline::Text(s("x"))],
    };
    match render_md_inline(&ext) {
        HtmlNode::Element { tag, attrs, .. } => {
            assert_eq!(tag, HtmlTag::A);
            assert_eq!(attrs.len(), 2);
            assert_eq!(attrs[1].name, AttrName::Target);
            assert_eq!(attrs[1].value, s("_blank"));
        }
        _ => panic!("expected an element"),
    }
    match render_md_inline(&DocsInline::TaskMarker(true)) {
        HtmlNode::Element { children, .. } => {
            assert!(matches!(&children[0], HtmlNode::Text(t) if t == "☑"));
        }
        _ => panic!("expected an element"),
    }
    assert!(matches!(render_md_inline(&DocsInline::SoftBreak), HtmlNode::Text(t) if t == " "));
}
