use euv_docs::containers::{container_block, split_containers, text_lines, Segment};
use euv_docs::data::{DocsBlock, DocsInline, DocsTocItem};
use euv_docs::frontmatter::split_frontmatter;
use euv_docs::heading::heading_block;
use euv_docs::order::{key_less, sort_keyed, text_less, Keyed};
use euv_docs::paths::{
    join_locale_route, md_path_to_route, resolve_relative, rewrite_link, route_for, stem_of,
};
use euv_docs::plain::{inline_plain_text, trim_whitespace};
use euv_docs::sidebar_tree::{build_sidebar, PageInfo, SideEntry, SourceEntry};
use euv_docs::slug::{decimal, slugify, unique_slug};
use euv_docs::source::{locale_dirs, page_locale, page_title, prettify};

fn s(x: &str) -> String {
    x.to_string()
}

fn segs(parts: &[&str]) -> Vec<String> {
    parts.iter().map(|p| p.to_string()).collect()
}

// ─── Slugs ──────────────────────────────────────────────────────────────────

#[test]
fn slugify_lowercases_and_joins_words() {
    assert_eq!(slugify("Hello World!"), "hello-world");
    assert_eq!(slugify("  --Quick  Start--  "), "quick-start");
    assert_eq!(slugify("API v2.0"), "api-v2-0");
}

#[test]
fn slugify_keeps_cjk() {
    assert_eq!(slugify("快速 上手"), "快速-上手");
}

#[test]
fn slugify_without_words_is_section() {
    assert_eq!(slugify(""), "section");
    assert_eq!(slugify("?!-"), "section");
}

#[test]
fn unique_slug_numbers_repeats() {
    let mut used: Vec<String> = Vec::new();
    assert_eq!(unique_slug("intro", &mut used), "intro");
    assert_eq!(unique_slug("intro", &mut used), "intro-2");
    assert_eq!(unique_slug("intro", &mut used), "intro-3");
    assert_eq!(unique_slug("other", &mut used), "other");
    assert_eq!(used, segs(&["intro", "intro-2", "intro-3", "other"]));
}

#[test]
fn unique_slug_skips_taken_numbers() {
    let mut used: Vec<String> = segs(&["a", "a-2"]);
    assert_eq!(unique_slug("a", &mut used), "a-3");
    assert_eq!(unique_slug("a-2", &mut used), "a-2-2");
}

#[test]
fn decimal_digits() {
    assert_eq!(decimal(0), "0");
    assert_eq!(decimal(7), "7");
    assert_eq!(decimal(120), "120");
}

// ─── Paths ──────────────────────────────────────────────────────────────────

#[test]
fn join_locale_route_under_prefix() {
    assert_eq!(join_locale_route("/", "/guide/"), "/guide/");
    assert_eq!(join_locale_route("/zh/", "/guide/"), "/zh/guide/");
    assert_eq!(join_locale_route("/zh/", "/"), "/zh/");
}

#[test]
fn stem_of_last_segment() {
    assert_eq!(stem_of(&segs(&["guide", "getting-started.md"])), "getting-started");
    assert_eq!(stem_of(&segs(&[])), "");
    assert_eq!(stem_of(&segs(&["a.md.md"])), "a");
}

#[test]
fn route_for_vuepress_convention() {
    assert_eq!(route_for(&segs(&["README.md"]), "/"), "/");
    assert_eq!(route_for(&segs(&["guide", "README.md"]), "/"), "/guide/");
    assert_eq!(route_for(&segs(&["guide", "index.md"]), "/zh/"), "/zh/guide/");
    assert_eq!(route_for(&segs(&["guide", "a.md"]), "/"), "/guide/a.html");
    assert_eq!(route_for(&segs(&["a.md"]), "/zh/"), "/zh/a.html");
}

#[test]
fn md_path_to_route_forms() {
    assert_eq!(md_path_to_route("/guide/README.md"), "/guide/");
    assert_eq!(md_path_to_route("/index.md"), "/");
    assert_eq!(md_path_to_route("/guide/foo.md"), "/guide/foo.html");
    assert_eq!(md_path_to_route("/guide/foo.md/"), "/guide/foo.html");
    assert_eq!(md_path_to_route("/guide/"), "/guide");
}

#[test]
fn resolve_relative_paths() {
    assert_eq!(resolve_relative("/guide/a.html", "./b.md"), "/guide/b.html");
    assert_eq!(resolve_relative("/guide/", "b.md"), "/guide/b.html");
    assert_eq!(resolve_relative("/guide/a.html", "../README.md"), "/");
    assert_eq!(resolve_relative("/guide/a.html", "../../../x.md"), "/x.html");
    assert_eq!(resolve_relative("/guide/a.html", "/zh/README.md"), "/zh/");
    assert_eq!(resolve_relative("/zh/guide/a.html", "../markdown.md"), "/zh/markdown.html");
}

#[test]
fn rewrite_link_external() {
    assert_eq!(rewrite_link("https://example.com/a.md", "/"), (s("https://example.com/a.md"), true));
    assert_eq!(rewrite_link("mailto:me@x.org", "/"), (s("mailto:me@x.org"), true));
}

#[test]
fn rewrite_link_anchor_in_page() {
    assert_eq!(rewrite_link("#install", "/guide/"), (s("#/guide/#install"), false));
}

#[test]
fn rewrite_link_markdown_and_absolute() {
    assert_eq!(
        rewrite_link("./markdown.md#tables", "/guide/a.html"),
        (s("#/guide/markdown.html#tables"), false)
    );
    assert_eq!(rewrite_link("/guide/", "/"), (s("#/guide/"), false));
    assert_eq!(rewrite_link("/guide/#x", "/"), (s("#/guide/#x"), false));
    assert_eq!(rewrite_link("b.md/#x", "/guide/a.html"), (s("#/guide/b.html"), false));
}

#[test]
fn rewrite_link_keeps_assets() {
    assert_eq!(rewrite_link("img/logo.png", "/guide/"), (s("img/logo.png"), false));
    assert_eq!(rewrite_link("img/logo.png#x", "/guide/"), (s("img/logo.png#x"), false));
}

// ─── Titles and locales ─────────────────────────────────────────────────────

#[test]
fn prettify_names() {
    assert_eq!(prettify("getting-started"), "Getting Started");
    assert_eq!(prettify("a_b-c"), "A B C");
    assert_eq!(prettify("über"), "Über");
    assert_eq!(prettify(""), "Index");
}

#[test]
fn page_title_fallbacks() {
    assert_eq!(page_title(Some(s("T")), Some(s("H")), "x"), "T");
    assert_eq!(page_title(None, Some(s("H")), "x"), "H");
    assert_eq!(page_title(None, None, "my-page"), "My Page");
}

#[test]
fn locale_dirs_skip_root() {
    assert_eq!(locale_dirs(&segs(&["/", "/zh/", "/ja/"])), segs(&["zh", "ja"]));
    assert_eq!(locale_dirs(&segs(&["/"])), segs(&[]));
}

#[test]
fn page_locale_from_first_segment() {
    let dirs = segs(&["zh"]);
    assert_eq!(
        page_locale(&segs(&["zh", "guide", "a.md"]), &dirs),
        (s("/zh/"), segs(&["guide", "a.md"]))
    );
    assert_eq!(
        page_locale(&segs(&["guide", "a.md"]), &dirs),
        (s("/"), segs(&["guide", "a.md"]))
    );
    assert_eq!(page_locale(&segs(&[]), &dirs), (s("/"), segs(&[])));
}

// ─── Plain text ─────────────────────────────────────────────────────────────

#[test]
fn trim_whitespace_both_ends() {
    assert_eq!(trim_whitespace("\t a b \n"), "a b");
    assert_eq!(trim_whitespace("   "), "");
    assert_eq!(trim_whitespace("x"), "x");
}

#[test]
fn inline_plain_text_flattens() {
    let inlines = vec![
        DocsInline::Text(s("  Hello ")),
        DocsInline::Strong(vec![DocsInline::Text(s(" World "))]),
        DocsInline::SoftBreak,
        DocsInline::Code(s("x")),
        DocsInline::Image { src: s("a.png"), alt: s("alt") },
        DocsInline::Link {
            href: s("#"),
            external: false,
            children: vec![DocsInline::Em(vec![DocsInline::Text(s("!"))])],
        },
        DocsInline::HardBreak,
    ];
    assert_eq!(inline_plain_text(&inlines), "Hello World x!");
    assert_eq!(inline_plain_text(&Vec::new()), "");
}

// ─── Ordering ───────────────────────────────────────────────────────────────

fn keyed(order: i64, text: &str, tie: &str, value: u32) -> Keyed<u32> {
    Keyed { order, text: s(text), tie: s(tie), value }
}

#[test]
fn text_less_by_characters() {
    assert!(text_less("a", "b"));
    assert!(text_less("a", "ab"));
    assert!(!text_less("ab", "a"));
    assert!(!text_less("a", "a"));
    assert!(text_less("Z", "a"));
}

#[test]
fn key_less_compares_in_turn() {
    assert!(key_less(&keyed(0, "z", "z", 0), &keyed(1, "a", "a", 0)));
    assert!(key_less(&keyed(1, "a", "z", 0), &keyed(1, "b", "a", 0)));
    assert!(key_less(&keyed(1, "a", "a", 0), &keyed(1, "a", "b", 0)));
    assert!(!key_less(&keyed(1, "a", "a", 0), &keyed(1, "a", "a", 0)));
}

#[test]
fn sort_keyed_is_stable() {
    let v = vec![
        keyed(2, "b", "", 1),
        keyed(0, "z", "", 2),
        keyed(2, "a", "", 3),
        keyed(0, "z", "", 4),
        keyed(-1, "q", "", 5),
    ];
    let out: Vec<u32> = sort_keyed(v).into_iter().map(|k| k.value).collect();
    assert_eq!(out, vec![5, 2, 4, 3, 1]);
}

// ─── Sidebar generation ─────────────────────────────────────────────────────

fn file(name: &str) -> SourceEntry {
    SourceEntry { name: s(name), children: None }
}

fn dir(name: &str, children: Vec<SourceEntry>) -> SourceEntry {
    SourceEntry { name: s(name), children: Some(children) }
}

fn info(route: &str, locale: &str, title: &str, order: i64) -> PageInfo {
    PageInfo { route: s(route), locale: s(locale), title: s(title), order }
}

fn shape(items: &[SideEntry]) -> Vec<(String, Option<String>, usize)> {
    items.iter().map(|i| (i.text.clone(), i.link.clone(), i.children.len())).collect()
}

fn source_tree() -> Vec<SourceEntry> {
    vec![
        file("zeta.md"),
        dir("guide", vec![file("b.md"), file("README.md"), file("a.md"), file("logo.png")]),
        dir("public", vec![file("x.md")]),
        dir("empty", vec![file("notes.txt")]),
        dir("misc-stuff", vec![file("c.md")]),
        file("orphan.md"),
        file("README.md"),
    ]
}

fn source_pages() -> Vec<PageInfo> {
    vec![
        info("/", "/", "Home", 0),
        info("/zeta.html", "/", "Zeta", 0),
        info("/guide/", "/", "Guide", 2),
        info("/guide/a.html", "/", "Alpha", 1),
        info("/guide/b.html", "/", "Beta", 0),
        info("/public/x.html", "/", "X", 0),
        info("/misc-stuff/c.html", "/", "C", 0),
        info("/zh/guide/a.html", "/zh/", "甲", 0),
    ]
}

#[test]
fn build_sidebar_groups_and_orders() {
    let items = build_sidebar(&source_tree(), &Vec::new(), "/", &source_pages());
    assert_eq!(
        shape(&items),
        vec![
            (s("Misc Stuff"), None, 1),
            (s("Zeta"), Some(s("/zeta.html")), 0),
            (s("Guide"), Some(s("/guide/")), 2),
        ]
    );
    assert_eq!(
        shape(&items[2].children),
        vec![
            (s("Beta"), Some(s("/guide/b.html")), 0),
            (s("Alpha"), Some(s("/guide/a.html")), 0),
        ]
    );
    assert_eq!(shape(&items[0].children), vec![(s("C"), Some(s("/misc-stuff/c.html")), 0)]);
}

#[test]
fn build_sidebar_breaks_ties_by_name() {
    let tree = vec![file("b2.md"), file("a2.md"), file("c2.md")];
    let pages = vec![
        info("/b2.html", "/", "Same", 0),
        info("/a2.html", "/", "Same", 0),
        info("/c2.html", "/", "Earlier", 0),
    ];
    let items = build_sidebar(&tree, &Vec::new(), "/", &pages);
    assert_eq!(
        shape(&items),
        vec![
            (s("Earlier"), Some(s("/c2.html")), 0),
            (s("Same"), Some(s("/a2.html")), 0),
            (s("Same"), Some(s("/b2.html")), 0),
        ]
    );
}

#[test]
fn build_sidebar_in_locale() {
    let tree = vec![dir("guide", vec![file("a.md"), file("b.md")])];
    let items = build_sidebar(&tree, &Vec::new(), "/zh/", &source_pages());
    assert_eq!(shape(&items), vec![(s("Guide"), None, 1)]);
    assert_eq!(shape(&items[0].children), vec![(s("甲"), Some(s("/zh/guide/a.html")), 0)]);
}

#[test]
fn build_sidebar_empty_directory() {
    assert!(build_sidebar(&Vec::new(), &Vec::new(), "/", &source_pages()).is_empty());
}

#[test]
fn build_sidebar_links_only_pages() {
    fn check(items: &[SideEntry], pages: &[PageInfo], locale: &str) {
        for item in items {
            match &item.link {
                Some(link) => {
                    assert!(pages.iter().any(|p| &p.route == link && p.locale == locale));
                }
                None => assert!(!item.children.is_empty()),
            }
            check(&item.children, pages, locale);
        }
    }
    let pages = source_pages();
    check(&build_sidebar(&source_tree(), &Vec::new(), "/", &pages), &pages, "/");
    check(&build_sidebar(&source_tree(), &Vec::new(), "/zh/", &pages), &pages, "/zh/");
}

// ─── Source routes and links ────────────────────────────────────────────────

#[test]
fn readme_route_table() {
    let dirs = locale_dirs(&segs(&["/", "/zh/"]));
    let route = |path: &[&str]| {
        let (locale, rest) = page_locale(&segs(path), &dirs);
        route_for(&rest, &locale)
    };
    assert_eq!(route(&["README.md"]), "/");
    assert_eq!(route(&["guide", "README.md"]), "/guide/");
    assert_eq!(route(&["guide", "getting-started.md"]), "/guide/getting-started.html");
    assert_eq!(route(&["zh", "README.md"]), "/zh/");
    assert_eq!(route(&["zh", "guide", "getting-started.md"]), "/zh/guide/getting-started.html");
}

#[test]
fn source_links_reach_page_routes() {
    let cases: [(&str, &[&str]); 5] = [
        ("/", &["README.md"]),
        ("/", &["guide", "README.md"]),
        ("/", &["guide", "getting-started.md"]),
        ("/zh/", &["guide", "index.md"]),
        ("/zh/", &["markdown.md"]),
    ];
    for (locale, path) in cases {
        let source: String = format!("{}{}", locale, path.join("/"));
        assert_eq!(md_path_to_route(&source), route_for(&segs(path), locale));
    }
    assert_eq!(
        rewrite_link("/guide/getting-started.md", "/zh/"),
        (format!("#{}", route_for(&segs(&["guide", "getting-started.md"]), "/")), false)
    );
}

#[test]
fn source_link_route_differs_outside_the_law() {
    // A file named like an index but longer is still a page of its own.
    assert_eq!(route_for(&segs(&["guide", "myREADME.md"]), "/"), "/guide/myREADME.html");
    assert_eq!(md_path_to_route("/guide/myREADME.md"), "/guide/");
}

// ─── Containers ─────────────────────────────────────────────────────────────

fn show(segments: &[Segment]) -> Vec<String> {
    segments
        .iter()
        .map(|segment| match segment {
            Segment::Markdown(text) => format!("md:{text}"),
            Segment::Container { kind, title, body } => {
                format!("{kind}|{}|{body}", title.clone().unwrap_or_else(|| s("-")))
            }
        })
        .collect()
}

#[test]
fn text_lines_like_str_lines() {
    for text in ["", "a", "a\n", "a\r\nb", "\n\nx\r", "foo\nbar\n\r\nbaz\r", "\r\n"] {
        let expected: Vec<String> = text.lines().map(|l| l.to_string()).collect();
        assert_eq!(text_lines(text), expected, "{text:?}");
    }
}

#[test]
fn split_containers_kinds_and_titles() {
    let src = "Intro\n\n::: tip\nTips are solid.\n:::\n\n::: note Custom title\nBody.\n:::\nOutro\n";
    assert_eq!(
        show(&split_containers(src)),
        vec![
            s("md:Intro\n\n"),
            s("tip|-|Tips are solid.\n"),
            s("note|Custom title|Body.\n"),
            s("md:Outro\n"),
        ]
    );
}

#[test]
fn split_containers_do_not_nest() {
    let src = "::: details Click to expand\n::: tip inner\ntext\n:::\nafter\n";
    assert_eq!(
        show(&split_containers(src)),
        vec![s("details|Click to expand|::: tip inner\ntext\n"), s("md:after\n")]
    );
}

#[test]
fn split_containers_stray_and_unterminated() {
    assert_eq!(show(&split_containers(":::\nplain\n")), vec![s("md::::\nplain\n")]);
    assert_eq!(
        show(&split_containers("a\n::: warning  Be careful \nbody\n")),
        vec![s("md:a\n"), s("md:::: warning\nbody\n")]
    );
    assert!(split_containers("  \n\n").is_empty());
    assert_eq!(show(&split_containers("::: tip\n:::   \n")), vec![s("tip|-|")]);
}

// ─── Headings ───────────────────────────────────────────────────────────────

fn heading_parts(block: &DocsBlock) -> (u8, String, String) {
    match block {
        DocsBlock::Heading { level, id, href, .. } => (*level, id.clone(), href.clone()),
        _ => panic!("not a heading"),
    }
}

#[test]
fn heading_block_ids_toc_and_title() {
    let route = "/guide/markdown.html";
    let mut used: Vec<String> = Vec::new();
    let mut toc: Vec<DocsTocItem> = Vec::new();
    let mut first_h1: Option<String> = None;
    let title = heading_block(1, vec![DocsInline::Text(s("Markdown"))], None, route, &mut used, &mut toc, &mut first_h1);
    assert_eq!(heading_parts(&title), (1, s("markdown"), s("#/guide/markdown.html#markdown")));
    let custom = heading_block(
        3,
        vec![DocsInline::Text(s("Custom heading id"))],
        Some(s("custom-heading-id")),
        route,
        &mut used,
        &mut toc,
        &mut first_h1,
    );
    assert_eq!(
        heading_parts(&custom),
        (3, s("custom-heading-id"), s("#/guide/markdown.html#custom-heading-id"))
    );
    let again = heading_block(2, vec![DocsInline::Text(s("Markdown"))], None, route, &mut used, &mut toc, &mut first_h1);
    assert_eq!(heading_parts(&again).1, "markdown-2");
    let h1 = heading_block(1, vec![DocsInline::Text(s("Other"))], None, route, &mut used, &mut toc, &mut first_h1);
    assert_eq!(heading_parts(&h1).1, "other");
    let h4 = heading_block(4, vec![DocsInline::Code(s("x"))], None, route, &mut used, &mut toc, &mut first_h1);
    assert_eq!(heading_parts(&h4).1, "x");
    assert_eq!(first_h1, Some(s("Markdown")));
    assert_eq!(used, segs(&["markdown", "custom-heading-id", "markdown-2", "other", "x"]));
    let entries: Vec<(u8, String, String)> =
        toc.iter().map(|t| (t.level, t.id.clone(), t.text.clone())).collect();
    assert_eq!(
        entries,
        vec![
            (3, s("custom-heading-id"), s("Custom heading id")),
            (2, s("markdown-2"), s("Markdown")),
        ]
    );
}

// ─── Frontmatter ────────────────────────────────────────────────────────────

#[test]
fn split_frontmatter_cuts_yaml() {
    assert_eq!(
        split_frontmatter("---\ntitle: A\norder: 2\n---\n# Body\n"),
        (Some(s("title: A\norder: 2")), s("\n# Body\n"))
    );
    assert_eq!(
        split_frontmatter("  \n---\r\nk: v\r\n---"),
        (Some(s("\nk: v\r")), s(""))
    );
}

#[test]
fn split_frontmatter_absent() {
    for raw in ["# No frontmatter\n", "---\nunterminated\n", "---x\n---\n", "---", ""] {
        assert_eq!(split_frontmatter(raw), (None, s(raw)), "{raw:?}");
    }
}

#[test]
fn container_block_titles() {
    let titled = container_block(s("note"), Some(s("Custom title")), Vec::new());
    let plain = container_block(s("warning"), None, vec![DocsBlock::Rule]);
    match (titled, plain) {
        (
            DocsBlock::Container { kind: k1, title: t1, blocks: b1 },
            DocsBlock::Container { kind: k2, title: t2, blocks: b2 },
        ) => {
            assert_eq!((k1, t1, b1.len()), (s("note"), s("Custom title"), 0));
            assert_eq!((k2, t2, b2.len()), (s("warning"), s("WARNING"), 1));
        }
        _ => panic!("not containers"),
    }
}
